//! The whole compiler: source text to a WebAssembly binary or text module.
use vstd::prelude::*;
use crate::ast::{Program, Type, program_v};
use crate::lexer::{KindView, Lexer, lemma_lex_ends_with_eof, lex_error, lex_from, token_view, utf8_len};
use crate::parser::{Parser, can_parse, eof_pos, is_eof, lemma_eof_from, parsable, parse_tokens};
use crate::text::concat;
use crate::token::{Token, TokenKind};
use crate::typechecker::{TypeChecker, import_sigs, program_error, tc_program};
use crate::wasm::binary_emitter::{STATIC_DATA_END, collect_program_strings, functions_strings, layout_string_data, layout_strings, FloatConst, WasmBinaryEmitter, emit_ready, lemma_module_header, module_bytes, program_results, program_index_table, program_lowerable};
use crate::wasm::wat_emitter::{WatEmitter, lemma_wat_module_frame, wat_module};

verus! {

/// The lexer turns `source` into `toks`.
pub open spec fn lexes_to(source: Seq<char>, toks: Seq<Token>) -> bool {
    lex_from(source, 0) == Some(toks.map_values(|t: Token| token_view(t)))
}

/// The front end accepts `source`: it lexes to `toks`, which parse to `p`,
/// which type checks.
pub open spec fn front_end(source: Seq<char>, toks: Seq<Token>, p: Program) -> bool {
    &&& lexes_to(source, toks)
    &&& parsable(toks)
    &&& parse_tokens(toks) == Some(program_v(p))
    &&& tc_program(import_sigs(p.imports@), Seq::empty(), p.functions@)
}

/// The tokens of a successful scan hold exactly one `Eof`, at the end; so
/// the parser takes them unless the token before that `Eof` is `(`.
pub proof fn lemma_lexed_tokens_parsable(source: Seq<char>, toks: Seq<Token>)
    requires
        lexes_to(source, toks),
    ensures
        toks.len() > 0,
        eof_pos(toks) == toks.len() - 1,
        parsable(toks) <==> !(toks.len() >= 2 && toks[toks.len() - 2].kind is LParen),
{
    lemma_lex_ends_with_eof(source, 0);
    let views = toks.map_values(|t: Token| token_view(t));
    assert(views.len() == toks.len());
    let n = toks.len();
    assert(views[n - 1] == token_view(toks[n - 1]));
    assert(is_eof(toks[n - 1]));
    lemma_eof_from(toks, 0);
    let e = eof_pos(toks);
    if e < n - 1 {
        assert(views[e as int] == token_view(toks[e as int]));
        assert(views[e as int].0 != KindView::Simple(TokenKind::Eof));
        assert(false);
    }
    if e == n {
        assert(!is_eof(toks[n - 1]));
    }
}

/// A stage of the front end rejects `source`: the lexer; the parser on the
/// tokens the lexer gives; or the type checker on the program the parser
/// gives.
pub open spec fn front_end_rejects(source: Seq<char>) -> bool {
    ||| lex_from(source, 0) is None
    ||| exists|toks: Seq<Token>| #[trigger] lexes_to(source, toks) && !(parsable(toks) && parse_tokens(toks) is Some)
    ||| exists|toks: Seq<Token>, p: Program| #![trigger lexes_to(source, toks), program_v(p)]
            lexes_to(source, toks) && parsable(toks) && parse_tokens(toks) == Some(program_v(p))
            && !tc_program(import_sigs(p.imports@), Seq::empty(), p.functions@)
}

/// The answer of a front end that rejects `source` with message `m`: the
/// lexer's message where scanning fails; a parse failure; or the type
/// checker's message for the program the parser gives.
pub open spec fn front_end_message(source: Seq<char>, m: Seq<char>) -> bool {
    ||| lex_from(source, 0) is None && m == lex_error(source, 0)
    ||| exists|toks: Seq<Token>| #[trigger] lexes_to(source, toks) && !(parsable(toks) && parse_tokens(toks) is Some)
    ||| exists|toks: Seq<Token>, p: Program| #![trigger lexes_to(source, toks), program_v(p)]
            lexes_to(source, toks) && parsable(toks) && parse_tokens(toks) == Some(program_v(p))
            && !tc_program(import_sigs(p.imports@), Seq::empty(), p.functions@)
            && m == program_error(import_sigs(p.imports@), Seq::empty(), p.functions@)
}

/// Lexes, parses and type checks `source`.
fn check_source(source: &str) -> (r: Result<Program, String>)
    requires
        utf8_len(source@) < usize::MAX,
    ensures
        lex_from(source@, 0) is None ==> r is Err,
        lex_from(source@, 0) matches Some(s) && s.len() >= 2 && s[s.len() - 2].0 == KindView::Simple(TokenKind::LParen) ==> r is Err,
        r matches Ok(p) ==> exists|toks: Seq<Token>| #[trigger] front_end(source@, toks, p),
        r is Err ==> front_end_rejects(source@),
        r matches Err(m) ==> front_end_message(source@, m@),
{
    let mut lexer = Lexer::new(source);
    let tokens = lexer.tokenize()?;
    let ghost toks = tokens@;
    proof {
        lemma_lexed_tokens_parsable(source@, tokens@);
        let views = tokens@.map_values(|t: Token| token_view(t));
        if views.len() >= 2 {
            assert(views[views.len() - 2] == token_view(tokens@[tokens@.len() - 2]));
        }
        assert(lexes_to(source@, toks));
    }
    if !can_parse(&tokens) {
        return Err(concat(vec!["Unexpected end of input after '('"]));
    }
    let mut parser = Parser::new(tokens);
    let program = parser.parse_program()?;
    let mut checker = TypeChecker::new();
    match checker.check_program(&program) {
        Ok(()) => {},
        Err(m) => {
            assert(program_v(program) == program_v(program));
            assert(Seq::<(Seq<char>, Seq<Type>, Type)>::empty() + import_sigs(program.imports@) =~= import_sigs(program.imports@));
            assert(lexes_to(source@, toks));
            return Err(m);
        },
    }
    assert(front_end(source@, toks, program));
    Ok(program)
}

/// Compiles Nova source to a WebAssembly binary module, float literals
/// taking their bits from `floats`. It fails exactly where lexing, parsing
/// or type checking fails, on a program with a `void` parameter or local,
/// and where emission fails (a float literal with no constant, a `break`
/// outside a loop, an unknown variable or function, string literals that do
/// not fit in the static data segment).
pub fn compile_to_wasm(source: &str, floats: Vec<FloatConst>) -> (r: Result<Vec<u8>, String>)
    requires
        utf8_len(source@) < usize::MAX,
    ensures
        lex_from(source@, 0) is None ==> r is Err,
        lex_from(source@, 0) matches Some(s) && s.len() >= 2 && s[s.len() - 2].0 == KindView::Simple(TokenKind::LParen) ==> r is Err,
        r matches Ok(b) ==> exists|toks: Seq<Token>, p: Program| #[trigger] front_end(source@, toks, p)
            && emit_ready(p) && module_bytes(program_index_table(p), program_results(p), floats@, p) == Some(b@),
        r matches Ok(b) ==> b@.len() >= 8 && b@.subrange(0, 4) == crate::wasm_magic() && b@.subrange(4, 8) == crate::wasm_version(),
        r is Err ==> front_end_rejects(source@) || exists|toks: Seq<Token>, p: Program| #[trigger] front_end(source@, toks, p)
            && !(emit_ready(p) && module_bytes(program_index_table(p), program_results(p), floats@, p) is Some),
        r matches Err(m) ==> front_end_message(source@, m@) || exists|toks: Seq<Token>, p: Program| #[trigger] front_end(source@, toks, p)
            && !(emit_ready(p) && module_bytes(program_index_table(p), program_results(p), floats@, p) is Some),
{
    let ghost fl = floats@;
    let program = check_source(source)?;
    let ghost toks = choose|toks: Seq<Token>| #[trigger] front_end(source@, toks, program);
    if !program_lowerable(&program) {
        assert(front_end(source@, toks, program));
        return Err(concat(vec!["A parameter or local of type 'void' cannot be compiled"]));
    }
    let mut emitter = WasmBinaryEmitter::with_float_constants(floats);
    let r = emitter.emit(&program);
    proof {
        assert(emitter.function_table() =~= program_index_table(program));
        assert(emitter.result_table() =~= program_results(program));
        lemma_module_header(program_index_table(program), program_results(program), fl, program);
        assert(front_end(source@, toks, program));
    }
    r
}

/// Whether the string literals of a program fit in the static data segment.
pub open spec fn strings_fit(p: Program) -> bool {
    layout_strings(functions_strings(p.functions@)).1 <= STATIC_DATA_END
}

/// Compiles Nova source to the WebAssembly text format, float literals
/// written as `floats` says (as their digits where it has none). It fails
/// exactly where lexing, parsing or type checking fails, and where the
/// string literals do not fit in the static data segment.
pub fn compile_to_wat(source: &str, floats: &Vec<FloatConst>) -> (r: Result<String, String>)
    requires
        utf8_len(source@) < usize::MAX,
    ensures
        lex_from(source@, 0) is None ==> r is Err,
        lex_from(source@, 0) matches Some(s) && s.len() >= 2 && s[s.len() - 2].0 == KindView::Simple(TokenKind::LParen) ==> r is Err,
        r matches Ok(w) ==> exists|toks: Seq<Token>, p: Program| #[trigger] front_end(source@, toks, p)
            && strings_fit(p) && w@ == wat_module(floats@, p),
        r matches Ok(w) ==> w@.len() >= 10 && w@.subrange(0, 8) == "(module\n"@,
        r is Err ==> front_end_rejects(source@) || exists|toks: Seq<Token>, p: Program| #[trigger] front_end(source@, toks, p)
            && !strings_fit(p),
        r matches Err(m) ==> front_end_message(source@, m@) || exists|toks: Seq<Token>, p: Program| #[trigger] front_end(source@, toks, p)
            && !strings_fit(p),
{
    let program = check_source(source)?;
    let ghost toks = choose|toks: Seq<Token>| #[trigger] front_end(source@, toks, program);
    let literals = collect_program_strings(&program);
    if layout_string_data(&literals).is_none() {
        assert(front_end(source@, toks, program));
        return Err(concat(vec!["String literals do not fit in the static data segment"]));
    }
    assert(front_end(source@, toks, program));
    proof { lemma_wat_module_frame(floats@, program); }
    Ok(WatEmitter::emit_with_float_constants(&program, floats))
}

} // verus!
