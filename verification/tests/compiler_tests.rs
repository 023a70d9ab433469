use nova_wasm::ast::{BinaryOp, Expression, Statement, Type};
use nova_wasm::lexer::Lexer;
use nova_wasm::parser::{can_parse, Parser};
use nova_wasm::token::{Span, TokenKind};
use nova_wasm::typechecker::TypeChecker;
use nova_wasm::wasm::binary_emitter::{program_lowerable, FloatConst, WasmBinaryEmitter};
use nova_wasm::wasm::wat_emitter::WatEmitter;
use nova_wasm::{compile_to_wasm, compile_to_wat, Decoder, ExportKind, SectionId};

fn kinds(source: &str) -> Vec<TokenKind> {
    let mut lexer = Lexer::new(source);
    lexer.tokenize().expect("lexing failed").into_iter().map(|t| t.kind).collect()
}

fn parse(source: &str) -> nova_wasm::ast::Program {
    let mut lexer = Lexer::new(source);
    let tokens = lexer.tokenize().expect("lexing failed");
    assert!(can_parse(&tokens));
    let mut parser = Parser::new(tokens);
    parser.parse_program().expect("parsing failed")
}

#[test]
fn test_wasm_magic_header() {
    let source = r#"
        export fn add(a: i32, b: i32) -> i32 {
            return a + b;
        }
    "#;

    let wasm = compile_to_wasm(source, Vec::new()).expect("Compilation failed");
    assert!(wasm.len() >= 8);
    // Wasm magic bytes: \0asm
    assert_eq!(&wasm[0..4], &[0x00, 0x61, 0x73, 0x6d]);
    // Wasm version: 1
    assert_eq!(&wasm[4..8], &[0x01, 0x00, 0x00, 0x00]);
}

#[test]
fn test_wat_generation() {
    let source = r#"
        export fn sub(a: i32, b: i32) -> i32 {
            return a - b;
        }
    "#;

    let wat = compile_to_wat(source, &Vec::new()).expect("WAT compilation failed");
    assert!(wat.contains("(module"));
    assert!(wat.contains("(func $sub (export \"sub\") (param $a i32) (param $b i32) (result i32)"));
    assert!(wat.contains("i32.sub"));
}

#[test]
fn test_typechecker_catches_mismatch() {
    let source = r#"
        export fn bad() -> i32 {
            let x: i32 = 3.14;
            return x;
        }
    "#;

    let result = compile_to_wasm(source, Vec::new());
    assert!(result.is_err());
    let err = result.unwrap_err();
    assert!(err.contains("Type mismatch") || err.contains("mismatch"));
}

#[test]
fn test_typechecker_catches_undefined_variable() {
    let source = r#"
        export fn test() -> i32 {
            return unknown_var + 1;
        }
    "#;

    let result = compile_to_wasm(source, Vec::new());
    assert!(result.is_err());
}

#[test]
fn test_lexer_tokens_and_spans() {
    let mut lexer = Lexer::new("let x = 0x1F;\n// note\nfoo >= 3.5 /* c */ \"a\\nb\"");
    let tokens = lexer.tokenize().unwrap();
    let ks: Vec<TokenKind> = tokens.iter().map(|t| t.kind.clone()).collect();
    assert_eq!(
        ks,
        vec![
            TokenKind::Let,
            TokenKind::Ident("x".to_string()),
            TokenKind::Eq,
            TokenKind::Int(31),
            TokenKind::Semicolon,
            TokenKind::Ident("foo".to_string()),
            TokenKind::GtEq,
            TokenKind::Float("3.5".to_string()),
            TokenKind::Str("a\nb".to_string()),
            TokenKind::Eof,
        ]
    );
    assert_eq!(tokens[0].span, Span::new(1, 1, 3));
    assert_eq!(tokens[3].span, Span::new(1, 9, 4));
    assert_eq!(tokens[5].span, Span::new(3, 1, 3));
    assert_eq!(tokens[8].span, Span::new(3, 20, 5));
    assert_eq!(tokens[9].span, Span::new(3, 26, 0));
}

#[test]
fn test_lexer_numbers() {
    assert_eq!(kinds("0b1_01 1_000 007"), vec![TokenKind::Int(5), TokenKind::Int(1000), TokenKind::Int(7), TokenKind::Eof]);
    assert_eq!(kinds("9223372036854775807"), vec![TokenKind::Int(i64::MAX), TokenKind::Eof]);
    assert_eq!(kinds("0XfF"), vec![TokenKind::Int(255), TokenKind::Eof]);
    assert_eq!(kinds("1_2.5_0"), vec![TokenKind::Float("12.50".to_string()), TokenKind::Eof]);
}

#[test]
fn test_lexer_errors() {
    assert!(Lexer::new("9223372036854775808").tokenize().is_err());
    assert!(Lexer::new("0x").tokenize().is_err());
    assert!(Lexer::new("0x8000000000000000").tokenize().is_err());
    assert!(Lexer::new("1.").tokenize().is_err());
    assert!(Lexer::new("/* open").tokenize().is_err());
    assert!(Lexer::new("\"open").tokenize().is_err());
    assert!(Lexer::new("\"a\\").tokenize().is_err());
    assert!(Lexer::new("#").tokenize().is_err());
    let err = Lexer::new("x\n  $").tokenize().unwrap_err();
    assert!(err.contains("2:3"));
}

#[test]
fn test_lexer_operators_and_keywords() {
    assert_eq!(
        kinds("+= -> -= == != <= << >= >> ! @ fn i64 void breakx"),
        vec![
            TokenKind::PlusEq,
            TokenKind::Arrow,
            TokenKind::MinusEq,
            TokenKind::EqEq,
            TokenKind::BangEq,
            TokenKind::LtEq,
            TokenKind::Shl,
            TokenKind::GtEq,
            TokenKind::Shr,
            TokenKind::Bang,
            TokenKind::At,
            TokenKind::Fn,
            TokenKind::TypeI64,
            TokenKind::TypeVoid,
            TokenKind::Ident("breakx".to_string()),
            TokenKind::Eof,
        ]
    );
}

#[test]
fn test_lexer_string_span_counts_bytes() {
    let mut lexer = Lexer::new("\"\u{e9}\"");
    let tokens = lexer.tokenize().unwrap();
    assert_eq!(tokens[0].kind, TokenKind::Str("\u{e9}".to_string()));
    assert_eq!(tokens[0].span, Span::new(1, 1, 4));
    assert_eq!(tokens[1].span, Span::new(1, 4, 0));
}

#[test]
fn test_parser_precedence_and_assignment() {
    let program = parse("fn f(a: i32) -> i32 { let mut x = 1 + 2 * a; x += 3; return x; }");
    assert_eq!(program.functions.len(), 1);
    let f = &program.functions[0];
    assert_eq!(f.name, "f");
    assert_eq!(f.params[0].name, "a");
    assert_eq!(f.return_type, Type::I32);
    assert!(!f.is_export);
    match &f.body.statements[0] {
        Statement::Let { name, is_mut, ty, init, .. } => {
            assert_eq!(name, "x");
            assert!(*is_mut);
            assert_eq!(*ty, None);
            match init {
                Expression::Binary { op, right, .. } => {
                    assert_eq!(*op, BinaryOp::Add);
                    assert!(matches!(**right, Expression::Binary { op: BinaryOp::Mul, .. }));
                }
                _ => panic!("expected a binary expression"),
            }
        }
        _ => panic!("expected a let statement"),
    }
    match &f.body.statements[1] {
        Statement::Assignment { target, value, .. } => {
            assert_eq!(target, "x");
            match value {
                Expression::Binary { op, left, .. } => {
                    assert_eq!(*op, BinaryOp::Add);
                    assert!(matches!(&**left, Expression::Variable(n, _) if n == "x"));
                }
                _ => panic!("expected a compound assignment"),
            }
        }
        _ => panic!("expected an assignment"),
    }
}

#[test]
fn test_parser_left_associative() {
    let program = parse("fn f() -> i32 { return 10 - 3 - 2; }");
    match &program.functions[0].body.statements[0] {
        Statement::Return { value: Some(Expression::Binary { op, left, right, .. }), .. } => {
            assert_eq!(*op, BinaryOp::Sub);
            assert!(matches!(**left, Expression::Binary { op: BinaryOp::Sub, .. }));
            assert!(matches!(**right, Expression::LiteralInt(2, _)));
        }
        _ => panic!("expected a return of a subtraction"),
    }
}

#[test]
fn test_parser_items() {
    let program = parse(
        "import \"env\" fn log(x: i32); export memory 2, 4; export fn main() { if (1) { } else if 0 { } while 1 { break; } @store_i32(0, @load_i32(4)); }",
    );
    assert_eq!(program.imports.len(), 1);
    assert_eq!(program.imports[0].module, "env");
    assert_eq!(program.imports[0].field, "log");
    assert_eq!(program.imports[0].return_type, Type::Void);
    let mem = program.memory.unwrap();
    assert_eq!(mem.initial_pages, 2);
    assert_eq!(mem.max_pages, Some(4));
    assert!(mem.is_export);
    let body = &program.functions[0].body.statements;
    assert_eq!(body.len(), 3);
    match &body[0] {
        Statement::If { else_branch: Some(b), .. } => {
            assert_eq!(b.statements.len(), 1);
            assert!(matches!(b.statements[0], Statement::If { .. }));
        }
        _ => panic!("expected if/else if"),
    }
    assert!(matches!(body[2], Statement::MemoryStore { ty: Type::I32, .. }));
}

#[test]
fn test_parser_errors() {
    for source in ["fn f( { }", "memory 1; memory 2;", "let x = 1;", "fn f() { return 1 }", "fn f() { @store_u8(0, 1); }"] {
        let tokens = Lexer::new(source).tokenize().unwrap();
        assert!(can_parse(&tokens));
        assert!(Parser::new(tokens).parse_program().is_err(), "{}", source);
    }
    let tokens = Lexer::new("fn f() { return (").tokenize().unwrap();
    assert!(!can_parse(&tokens));
    assert!(compile_to_wasm("fn f() { return (", Vec::new()).is_err());
}

#[test]
fn test_typechecker_accepts_and_rejects() {
    let ok = parse("fn g(a: i32) -> i32 { return a * 2; } fn h() -> bool { return g(1) == 2; }");
    let mut checker = TypeChecker::new();
    assert!(checker.check_program(&ok).is_ok());

    // a string literal is an i32 address
    let text = parse("fn f() -> i32 { let s: i32 = \"s\"; return s; }");
    assert!(TypeChecker::new().check_program(&text).is_ok());
    let not_bool = parse("fn f() -> bool { return \"s\"; }");
    assert!(TypeChecker::new().check_program(&not_bool).is_err());

    for source in [
        "fn f() -> i32 { return true; }",
        "fn f() { let x = 1; x = 2; }",
        "fn f() { f(1); }",
        "fn f() {} fn f() {}",
        "fn f() { let a = 1; let a = 2; }",
    ] {
        let program = parse(source);
        let mut checker = TypeChecker::new();
        assert!(checker.check_program(&program).is_err(), "{}", source);
    }
}

#[test]
fn test_binary_module_layout() {
    let wasm = compile_to_wasm("export fn one() -> i32 { return 1; }", Vec::new()).unwrap();
    let mut d = Decoder::new(&wasm);
    assert!(d.read_magic().is_some());
    assert!(d.read_version().is_some());
    let types = d.read_section().unwrap();
    assert_eq!(types.id, SectionId::Type);
    assert_eq!(types.data, &[0x01, 0x60, 0x00, 0x01, 0x7F]);
    let funcs = d.read_section().unwrap();
    assert_eq!(funcs.id, SectionId::Function);
    assert_eq!(funcs.data, &[0x01, 0x00]);
    let mem = d.read_section().unwrap();
    assert_eq!(mem.id, SectionId::Memory);
    let exports = d.read_section().unwrap();
    assert_eq!(exports.id, SectionId::Export);
    let mut ed = Decoder::new(exports.data);
    let entries = ed.decode_export_section().unwrap();
    assert_eq!(entries.len(), 2);
    assert_eq!(entries[0].name, "one");
    assert_eq!(entries[0].kind, ExportKind::Func);
    assert_eq!(entries[0].index, 0);
    assert_eq!(entries[1].name, "memory");
    assert_eq!(entries[1].kind, ExportKind::Memory);
    let code = d.read_section().unwrap();
    assert_eq!(code.id, SectionId::Code);
    // one body: size, no locals, i32.const 1, return, end
    assert_eq!(code.data, &[0x01, 0x05, 0x00, 0x41, 0x01, 0x0F, 0x0B]);
}

#[test]
fn test_float_constants() {
    let source = "fn f() -> f32 { return 1.5; }";
    assert!(compile_to_wasm(source, Vec::new()).is_err());
    let floats = vec![FloatConst { text: "1.5".to_string(), f32_bits: 0x3FC0_0000, display: "1.5".to_string() }];
    let wasm = compile_to_wasm(source, floats).unwrap();
    assert_eq!(&wasm[wasm.len() - 7..], &[0x43, 0x00, 0x00, 0xC0, 0x3F, 0x0F, 0x0B]);
    let wat = compile_to_wat(source, &Vec::new()).unwrap();
    assert!(wat.contains("f32.const 1.5"));
}

#[test]
fn test_programs_of_the_examples_compile() {
    let fib = r#"
        export fn fib(n: i32) -> i32 {
            if n <= 1 {
                return n;
            }
            let mut a: i32 = 0;
            let mut b: i32 = 1;
            let mut i: i32 = 2;
            while i <= n {
                let temp: i32 = a + b;
                a = b;
                b = temp;
                i += 1;
            }
            return b;
        }
    "#;
    let wasm = compile_to_wasm(fib, Vec::new()).expect("Fib compilation failed");
    assert_eq!(&wasm[0..4], &[0x00, 0x61, 0x73, 0x6d]);

    let memory = r#"
        memory 1;

        export fn store_and_accumulate(base_ptr: i32, count: i32) -> i32 {
            let mut i: i32 = 0;
            while i < count {
                let addr: i32 = base_ptr + (i * 4);
                let val: i32 = (i + 1) * 10;
                @store_i32(addr, val);
                i += 1;
            }

            let mut sum: i32 = 0;
            let mut j: i32 = 0;
            while j < count {
                let addr2: i32 = base_ptr + (j * 4);
                sum += @load_i32(addr2);
                j += 1;
            }
            return sum;
        }
    "#;
    assert!(compile_to_wasm(memory, Vec::new()).is_ok());

    let brk = r#"
        export fn loop_break() -> i32 {
            let mut i: i32 = 0;
            while i < 100 {
                if i == 42 {
                    break;
                }
                i += 1;
            }
            return i;
        }
    "#;
    assert!(compile_to_wasm(brk, Vec::new()).is_ok());
    let wat = compile_to_wat(brk, &Vec::new()).unwrap();
    assert!(wat.contains("br"));
}

#[test]
fn test_void_local_is_refused() {
    let source = "fn v() {} fn f() { let x: void = v(); }";
    let program = parse(source);
    assert!(!program_lowerable(&program));
    assert!(compile_to_wasm(source, Vec::new()).is_err());
    assert!(compile_to_wat(source, &Vec::new()).is_ok());
}

#[test]
fn test_emitters_directly() {
    let program = parse("export fn id(x: i64) -> i64 { return x; }");
    assert!(program_lowerable(&program));
    let mut emitter = WasmBinaryEmitter::new();
    let wasm = emitter.emit(&program).unwrap();
    assert_eq!(&wasm[wasm.len() - 5..], &[0x00, 0x20, 0x00, 0x0F, 0x0B]);
    let wat = WatEmitter::emit(&program);
    assert!(wat.starts_with("(module\n"));
    assert!(wat.contains("(param $x i64) (result i64)"));
    assert!(wat.contains("local.get $x"));
}

#[test]
fn test_emission_errors() {
    assert!(compile_to_wasm("fn f() { break; }", Vec::new()).is_err());

    let unknown_var = parse("fn f() -> i32 { return y; }");
    assert!(program_lowerable(&unknown_var));
    assert!(WasmBinaryEmitter::new().emit(&unknown_var).is_err());

    let unknown_fn = parse("fn f() { g(); }");
    assert!(WasmBinaryEmitter::new().emit(&unknown_fn).is_err());

    assert_eq!(compile_to_wasm("fn f() { break; }", Vec::new()).unwrap_err(), "break statement outside of loop");
    assert_eq!(WasmBinaryEmitter::new().emit(&unknown_var).unwrap_err(), "Variable 'y' not found in local table");
    assert_eq!(WasmBinaryEmitter::new().emit(&unknown_fn).unwrap_err(), "Function 'g' not found in function index");
    assert_eq!(
        compile_to_wasm("fn f() -> f32 { return 1.5; }", Vec::new()).unwrap_err(),
        "No float constant was supplied for the literal '1.5'"
    );

    let too_much_text = format!("fn f() -> i32 {{ return \"{}\"; }}", "x".repeat(1100));
    assert!(compile_to_wasm(&too_much_text, Vec::new()).is_err());
    assert!(compile_to_wat(&too_much_text, &Vec::new()).is_err());
}

#[test]
fn test_unassigned_target_is_not_lowerable() {
    let program = parse("fn f() { z = 1; }");
    assert!(!program_lowerable(&program));
    let program = parse("fn f(p: void) { }");
    assert!(!program_lowerable(&program));
    let program = parse("fn f(p: i32) { p = 1; }");
    assert!(program_lowerable(&program));
}

#[test]
fn test_block_scoping() {
    let leaked = parse("fn f() -> i32 { if 1 { let y: i32 = 2; } return y; }");
    assert!(TypeChecker::new().check_program(&leaked).is_err());

    let shadowed = parse("fn f() -> i32 { let y: i32 = 2; while 0 { let y: bool = true; } return y; }");
    assert!(TypeChecker::new().check_program(&shadowed).is_ok());

    let declared = parse("fn f() -> i32 { let z: i32 = 5; return z; }");
    assert!(TypeChecker::new().check_program(&declared).is_ok());

    // integer literals are i32
    let wide = parse("fn f() -> i64 { let z: i64 = 5; return z; }");
    assert!(TypeChecker::new().check_program(&wide).is_err());
}

#[test]
fn test_wat_module_frame() {
    let wat = compile_to_wat("fn f() {}", &Vec::new()).unwrap();
    assert!(wat.starts_with("(module\n"));
    assert!(wat.ends_with(")\n"));
}

fn sections(wasm: &[u8]) -> Vec<(SectionId, Vec<u8>)> {
    let mut d = Decoder::new(wasm);
    assert!(d.read_magic().is_some());
    assert!(d.read_version().is_some());
    let mut out = Vec::new();
    while let Some(sec) = d.read_section() {
        out.push((sec.id, sec.data.to_vec()));
    }
    out
}

#[test]
fn test_host_import_module_layout() {
    let source = r#"
        import "env" "host_add" fn host_add(a: i32, b: i32) -> i32;

        export fn call_host(x: i32) -> i32 {
            return host_add(x, 100);
        }
    "#;
    let program = parse(source);
    assert!(TypeChecker::new().check_program(&program).is_ok());
    let wasm = compile_to_wasm(source, Vec::new()).expect("Host import compilation failed");
    let secs = sections(&wasm);
    let ids: Vec<&SectionId> = secs.iter().map(|s| &s.0).collect();
    assert_eq!(
        ids,
        vec![&SectionId::Type, &SectionId::Import, &SectionId::Function, &SectionId::Memory, &SectionId::Export, &SectionId::Code]
    );
    // the import's type, then the function's
    assert_eq!(secs[0].1, vec![0x02, 0x60, 0x02, 0x7F, 0x7F, 0x01, 0x7F, 0x60, 0x01, 0x7F, 0x01, 0x7F]);
    let mut import = vec![0x01, 0x03];
    import.extend_from_slice(b"env");
    import.push(0x08);
    import.extend_from_slice(b"host_add");
    import.extend_from_slice(&[0x00, 0x00]);
    assert_eq!(secs[1].1, import);
    // call_host has type 1
    assert_eq!(secs[2].1, vec![0x01, 0x01]);
    let mut ed = Decoder::new(&secs[4].1);
    let entries = ed.decode_export_section().unwrap();
    assert_eq!(entries[0].name, "call_host");
    assert_eq!(entries[0].kind, ExportKind::Func);
    assert_eq!(entries[0].index, 1);
    // local.get 0, i32.const 100, call 0 (the import), return, end
    assert_eq!(secs[5].1, vec![0x01, 0x0A, 0x00, 0x20, 0x00, 0x41, 0xE4, 0x00, 0x10, 0x00, 0x0F, 0x0B]);
}

#[test]
fn test_string_literal_data_layout() {
    let source = r#"
        export fn get_greeting() -> i32 {
            let str: i32 = "Hello, Nova Wasm!";
            return str;
        }
    "#;
    let wasm = compile_to_wasm(source, Vec::new()).expect("String literal compilation failed");
    let secs = sections(&wasm);
    assert_eq!(secs.len(), 6);
    assert_eq!(secs[4].0, SectionId::Code);
    // one i32 local; i32.const 0 (the address), local.set 0, local.get 0, return, end
    assert_eq!(secs[4].1, vec![0x01, 0x0B, 0x01, 0x01, 0x7F, 0x41, 0x00, 0x21, 0x00, 0x20, 0x00, 0x0F, 0x0B]);
    assert_eq!(secs[5].0, SectionId::Data);
    let mut data = vec![0x01, 0x00, 0x41, 0x00, 0x0B, 0x12];
    data.extend_from_slice(b"Hello, Nova Wasm!");
    data.push(0x00);
    assert_eq!(secs[5].1, data);

    let wat = compile_to_wat(source, &Vec::new()).unwrap();
    assert!(wat.contains("i32.const 0\n"));
    assert!(wat.contains("(data (i32.const 0) \"\\48\\65\\6c\\6c\\6f\\2c\\20\\4e"));
    assert!(wat.ends_with("\\21\\00\")\n)\n"));
}

#[test]
fn test_repeated_string_literals_share_an_address() {
    let source = "fn f() -> i32 { let a: i32 = \"ab\"; let b: i32 = \"c\"; let d: i32 = \"ab\"; return b; }";
    let wasm = compile_to_wasm(source, Vec::new()).unwrap();
    let secs = sections(&wasm);
    let code = &secs[secs.len() - 2].1;
    // "ab" at 0, "c" at 3, "ab" at 0 again
    assert_eq!(&code[9..21], &[0x41, 0x00, 0x21, 0x00, 0x41, 0x03, 0x21, 0x01, 0x41, 0x00, 0x21, 0x02]);
    assert_eq!(secs[secs.len() - 1].1, vec![0x01, 0x00, 0x41, 0x00, 0x0B, 0x05, b'a', b'b', 0x00, b'c', 0x00]);
}

#[test]
fn test_expression_statements_drop_only_values() {
    let source = "fn v() {} fn g() -> i32 { return 1; } fn f() { v(); g(); 1 + 2; }";
    let wasm = compile_to_wasm(source, Vec::new()).unwrap();
    // call v (no drop), call g then drop, 1 + 2 then drop, end
    assert_eq!(
        &wasm[wasm.len() - 12..],
        &[0x10, 0x00, 0x10, 0x01, 0x1A, 0x41, 0x01, 0x41, 0x02, 0x6A, 0x1A, 0x0B]
    );
    let wat = compile_to_wat(source, &Vec::new()).unwrap();
    assert!(wat.contains("    call $v\n    call $g\n    drop\n"));
    assert!(wat.contains("    i32.add\n    drop\n"));
}

#[test]
fn test_wat_break_inside_if_leaves_the_loop() {
    let source = "fn f() { while 1 { if 1 { break; } } break; }";
    let program = parse(source);
    let wat = WatEmitter::emit(&program);
    assert!(wat.contains("          br 2\n"));
    assert!(wat.contains("    unreachable\n"));
}

#[test]
fn test_memory_access_types_and_offsets() {
    let source = "fn f() -> f32 { @store_i32(0, 42, 8); return @load_f32(4, 16); }";
    let program = parse(source);
    match &program.functions[0].body.statements[0] {
        Statement::MemoryStore { ty: Type::I32, offset: 8, ptr: Expression::LiteralInt(0, _), value: Expression::LiteralInt(42, _), .. } => {}
        _ => panic!("expected a store with offset 8"),
    }
    let wat = WatEmitter::emit(&program);
    assert!(wat.contains("i32.store offset=8\n"));
    assert!(wat.contains("f32.load offset=16\n"));
    let wasm = compile_to_wasm(source, Vec::new()).unwrap();
    // i32.const 0, i32.const 42, i32.store align 2 offset 8, i32.const 4, f32.load align 2 offset 16, return, end
    assert_eq!(
        &wasm[wasm.len() - 14..],
        &[0x41, 0x00, 0x41, 0x2A, 0x36, 0x02, 0x08, 0x41, 0x04, 0x2A, 0x02, 0x10, 0x0F, 0x0B]
    );
}

#[test]
fn test_condition_and_operator_parsing() {
    let program = parse("fn f(a: i32, b: i32, c: i32) { if (a + b) > c { break; } }");
    match &program.functions[0].body.statements[0] {
        Statement::If { condition: Expression::Binary { op: BinaryOp::Gt, left, .. }, .. } => {
            assert!(matches!(**left, Expression::Binary { op: BinaryOp::Add, .. }));
        }
        _ => panic!("expected a comparison"),
    }

    let program = parse("fn f(a: bool, b: i32) -> i32 { return !a * b; }");
    match &program.functions[0].body.statements[0] {
        Statement::Return { value: Some(Expression::Binary { op: BinaryOp::Mul, left, .. }), .. } => {
            assert!(matches!(**left, Expression::Unary { .. }));
        }
        _ => panic!("expected a product"),
    }

    let program = parse("fn f() { let mut x: i32 = 4; x *= 2; x /= 2; }");
    let body = &program.functions[0].body.statements;
    assert!(matches!(&body[1], Statement::Assignment { value: Expression::Binary { op: BinaryOp::Mul, .. }, .. }));
    assert!(matches!(&body[2], Statement::Assignment { value: Expression::Binary { op: BinaryOp::Div, .. }, .. }));

    let source = "fn f(a: bool, b: bool, c: bool) -> bool { return a || b && c; }";
    let program = parse(source);
    match &program.functions[0].body.statements[0] {
        Statement::Return { value: Some(Expression::Binary { op: BinaryOp::LogicalOr, right, .. }), .. } => {
            assert!(matches!(**right, Expression::Binary { op: BinaryOp::LogicalAnd, .. }));
        }
        _ => panic!("expected || over &&"),
    }
    assert!(TypeChecker::new().check_program(&program).is_ok());
    let wat = compile_to_wat(source, &Vec::new()).unwrap();
    assert!(wat.contains("i32.and\n"));
    assert!(wat.contains("i32.or\n"));
    let ints = parse("fn f(a: i32) -> bool { return a && a; }");
    assert!(TypeChecker::new().check_program(&ints).is_err());
}

#[test]
fn test_checker_messages() {
    let check = |source: &str| TypeChecker::new().check_program(&parse(source)).unwrap_err();

    let m = check("fn f() {\n  let x: i32 = true;\n}");
    assert!(m.starts_with("Type mismatch in let binding 'x' at 2:"), "{}", m);
    assert!(m.ends_with(": expected 'i32', found 'bool'"), "{}", m);

    let m = check("fn f() { let a: i32 = 1; let a: i32 = 2; }");
    assert!(m.starts_with("Variable 'a' already declared in this scope at 1:"), "{}", m);

    let m = check("fn f() { z = 1; }");
    assert!(m.starts_with("Cannot assign to undefined variable 'z' at 1:"), "{}", m);

    let m = check("fn f() { let y: i32 = 1; y = 2; }");
    assert!(m.starts_with("Cannot assign to immutable variable 'y' at 1:"), "{}", m);
    assert!(m.ends_with(". Consider declaring as 'let mut y'"), "{}", m);

    let m = check("fn f() { let mut y: i32 = 1; y = false; }");
    assert!(m.starts_with("Type mismatch in assignment to 'y' at 1:"), "{}", m);
    assert!(m.ends_with(": expected 'i32', found 'bool'"), "{}", m);

    let m = check("fn f() -> i32 { return q; }");
    assert!(m.starts_with("Undefined variable 'q' referenced at 1:"), "{}", m);

    let m = check("fn f() { g(); }");
    assert!(m.starts_with("Call to undefined function 'g' at 1:"), "{}", m);

    let m = check("fn g(a: i32) {} fn f() { g(); }");
    assert!(m.starts_with("Function 'g' expects 1 arguments, got 0 at 1:"), "{}", m);
}

#[test]
fn test_lexer_messages() {
    let m = Lexer::new("let x = 1;\n  #").tokenize().unwrap_err();
    assert_eq!(m, "Unexpected character '#' at 2:3");
    let m = Lexer::new("/* open").tokenize().unwrap_err();
    assert_eq!(m, "Unterminated block comment starting at 1:1");
    let m = Lexer::new("0x").tokenize().unwrap_err();
    assert_eq!(m, "Invalid hex literal at 1:1: cannot parse integer from empty string");
    let m = Lexer::new("0xFFFFFFFFFFFFFFFFFF").tokenize().unwrap_err();
    assert_eq!(m, "Invalid hex literal at 1:1: number too large to fit in target type");
}

#[test]
fn test_token_starts_increase() {
    let tokens = Lexer::new("fn f()\n{ return 1; }").tokenize().unwrap();
    for pair in tokens.windows(2) {
        let (a, b) = (pair[0].span, pair[1].span);
        assert!(a.line < b.line || (a.line == b.line && a.col < b.col));
    }
}

#[test]
fn test_nested_and_statement_messages() {
    let check = |source: &str| TypeChecker::new().check_program(&parse(source)).unwrap_err();

    let m = check("fn f() -> i32 { return unknown_var + 1; }");
    assert!(m.starts_with("Undefined variable 'unknown_var' referenced at 1:"), "{}", m);

    let m = check("fn f() -> i32 { return true; }");
    assert!(m.starts_with("Return type mismatch at 1:"), "{}", m);
    assert!(m.ends_with(": expected 'i32', returned 'bool'"), "{}", m);

    let m = check("fn f() { if 1.5 { } }");
    assert!(m.starts_with("If condition must evaluate to 'bool' or 'i32' at 1:"), "{}", m);
    assert!(m.ends_with(", found 'f32'"), "{}", m);

    let m = check("fn f() { while 2.5 { } }");
    assert!(m.starts_with("While condition must evaluate to 'bool' or 'i32' at 1:"), "{}", m);

    let m = check("fn f() {} fn f() {}");
    assert!(m.starts_with("Duplicate function 'f' defined at 1:"), "{}", m);

    let m = check("fn f(a: i32, a: i32) {}");
    assert!(m.starts_with("Variable 'a' already declared in this scope at 1:"), "{}", m);

    let m = check("fn g(a: i32) {} fn f() { g(true); }");
    assert!(m.starts_with("Argument 1 in call to 'g' type mismatch at 1:"), "{}", m);
    assert!(m.ends_with(": expected 'i32', found 'bool'"), "{}", m);

    let m = check("fn f() -> i32 { return 1 + true; }");
    assert!(m.starts_with("Binary operator 'Add' operand type mismatch at 1:"), "{}", m);

    // the first error of the first failing function is the answer
    let m = compile_to_wasm("fn ok() {} fn bad() -> i32 { let x: i32 = 3.14; return x; }", Vec::new()).unwrap_err();
    assert!(m.starts_with("Type mismatch in let binding 'x' at 1:"), "{}", m);
    assert!(m.ends_with(": expected 'i32', found 'f32'"), "{}", m);
}

#[test]
fn test_more_lexer_messages() {
    assert_eq!(Lexer::new("\"abc").tokenize().unwrap_err(), "Unterminated string literal starting at 1:1");
    assert_eq!(Lexer::new("x \"ab\\").tokenize().unwrap_err(), "Unterminated escape at 1:7");
    assert_eq!(
        Lexer::new("99999999999999999999").tokenize().unwrap_err(),
        "Invalid integer at 1:1: number too large to fit in target type"
    );
    assert_eq!(
        Lexer::new(" 0b").tokenize().unwrap_err(),
        "Invalid binary literal at 1:2: cannot parse integer from empty string"
    );
    assert_eq!(compile_to_wasm("a # b", Vec::new()).unwrap_err(), "Unexpected character '#' at 1:3");
}

#[test]
fn test_parser_messages() {
    let tokens = Lexer::new("fn f() -> i32 { return * 2; }").tokenize().unwrap();
    let m = Parser::new(tokens).parse_program().unwrap_err();
    assert!(m.starts_with("Unexpected token '"), "{}", m);
    assert!(m.ends_with("' in expression at 1:24"), "{}", m);

    let tokens = Lexer::new("fn f() -> i32 { return (1; }").tokenize().unwrap();
    let m = Parser::new(tokens).parse_program().unwrap_err();
    assert!(m.starts_with("Expected ')' after expression (got '"), "{}", m);
}
