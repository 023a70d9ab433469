# nova_wasm

A compiler for Nova, a small statically typed language, to WebAssembly, and
a decoder for parts of the WebAssembly binary format, written in Verus.

- `src/lexer.rs`, `src/parser.rs`, `src/typechecker.rs`: the front end. Each
  stage's result is specified by a recursive spec function (`lex_from`,
  `p_items`, `tc_program`) that the code is proved to compute.
- `src/wasm/binary_emitter.rs`, `src/wasm/wat_emitter.rs`: the binary and
  text emitters, specified by `module_bytes` and `wat_module`.
- `src/wasm/leb128.rs`: LEB128 encoding, with the proof that decoding reads
  back what encoding wrote.
- `src/lib.rs`: the decoder (`Decoder`), and `src/compiler.rs` the whole
  pipeline.
- `app/main.rs`: the `novac` command line, which reads and writes files and
  computes the bits of float literals.
