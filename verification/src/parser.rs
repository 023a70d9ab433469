//! Recursive descent parsing of Nova tokens, with precedence climbing for
//! binary operators.
use vstd::prelude::*;
use crate::ast::{
    BinaryOp, Block, BlockV, Expression, ExprV, Function, FunctionV, ImportFunc, ImportV,
    MemoryDecl, Param, ParamV, Program, ProgramV, Statement, StmtV, Type, UnaryOp, expr_v,
    exprs_v, expr_v_span, type_text, stmt_v, stmts_v, block_v, param_v, function_v, import_v, program_v,
};
use crate::token::{Span, Token, TokenKind, tag_of, variant_text};
use crate::text::{concat, decimal_int, position_text, push_i64, push_position};

verus! {

/// The index of the first `Eof` token from `i` on, or the length.
pub open spec fn eof_from(toks: Seq<Token>, i: nat) -> nat
    decreases toks.len() - i,
{
    if i >= toks.len() {
        toks.len()
    } else if toks[i as int].kind is Eof {
        i
    } else {
        eof_from(toks, i + 1)
    }
}

/// Where parsing stops: the first `Eof` token.
pub open spec fn eof_pos(toks: Seq<Token>) -> nat {
    eof_from(toks, 0)
}

/// Tokens the parser can run on: they hold an `Eof`, and the token before
/// the first one is not `(` (from there the parser would read that `(` again
/// and again without end).
pub open spec fn parsable(toks: Seq<Token>) -> bool {
    &&& eof_pos(toks) < toks.len()
    &&& eof_pos(toks) > 0 ==> !(toks[eof_pos(toks) - 1].kind is LParen)
}

/// Whether the cursor stands at the end: on or after the first `Eof`.
pub open spec fn at_end(toks: Seq<Token>, pos: nat) -> bool {
    pos >= eof_pos(toks)
}

/// What `advance` hands out at `pos`, and the position after it: the token
/// under the cursor; at the end, the token before the cursor, which stays.
pub open spec fn adv(toks: Seq<Token>, pos: nat) -> (Token, nat) {
    if pos < eof_pos(toks) {
        (toks[pos as int], pos + 1)
    } else {
        (toks[pos - 1], pos)
    }
}

/// Whether the token under the cursor, before the end, is of the variant of
/// `k`.
pub open spec fn check(toks: Seq<Token>, pos: nat, k: TokenKind) -> bool {
    !at_end(toks, pos) && tag_of(toks[pos as int].kind) == tag_of(k)
}

/// The position after a token of the variant of `k`, if one is under the
/// cursor.
pub open spec fn consume(toks: Seq<Token>, pos: nat, k: TokenKind) -> Option<nat> {
    if check(toks, pos, k) { Some(pos + 1) } else { None }
}

/// The measure that parsing brings down: the tokens left before the end.
pub open spec fn remaining(toks: Seq<Token>, pos: nat) -> nat {
    if pos < eof_pos(toks) { (eof_pos(toks) - pos) as nat } else { 0 }
}

/// The binary operator a token stands for, with its left and right binding
/// powers.
pub open spec fn infix_op(k: TokenKind) -> Option<(BinaryOp, u8, u8)> {
    match k {
        TokenKind::OrOr => Some((BinaryOp::LogicalOr, 1, 2)),
        TokenKind::AndAnd => Some((BinaryOp::LogicalAnd, 2, 3)),
        TokenKind::Pipe => Some((BinaryOp::BitOr, 3, 4)),
        TokenKind::Caret => Some((BinaryOp::BitXor, 4, 5)),
        TokenKind::Amp => Some((BinaryOp::BitAnd, 5, 6)),
        TokenKind::EqEq => Some((BinaryOp::Eq, 6, 7)),
        TokenKind::BangEq => Some((BinaryOp::Ne, 6, 7)),
        TokenKind::Lt => Some((BinaryOp::Lt, 7, 8)),
        TokenKind::LtEq => Some((BinaryOp::Le, 7, 8)),
        TokenKind::Gt => Some((BinaryOp::Gt, 7, 8)),
        TokenKind::GtEq => Some((BinaryOp::Ge, 7, 8)),
        TokenKind::Shl => Some((BinaryOp::Shl, 8, 9)),
        TokenKind::Shr => Some((BinaryOp::Shr, 8, 9)),
        TokenKind::Plus => Some((BinaryOp::Add, 9, 10)),
        TokenKind::Minus => Some((BinaryOp::Sub, 9, 10)),
        TokenKind::Star => Some((BinaryOp::Mul, 11, 12)),
        TokenKind::Slash => Some((BinaryOp::Div, 11, 12)),
        TokenKind::Percent => Some((BinaryOp::Rem, 11, 12)),
        _ => None,
    }
}

/// The type a type keyword names.
pub open spec fn type_of_kind(k: TokenKind) -> Option<Type> {
    match k {
        TokenKind::TypeI32 => Some(Type::I32),
        TokenKind::TypeI64 => Some(Type::I64),
        TokenKind::TypeF32 => Some(Type::F32),
        TokenKind::TypeF64 => Some(Type::F64),
        TokenKind::TypeBool => Some(Type::Bool),
        TokenKind::TypeVoid => Some(Type::Void),
        _ => None,
    }
}

/// A type: the token that `advance` hands out names one.
pub open spec fn p_type(toks: Seq<Token>, pos: nat) -> Option<(Type, nat)> {
    let (tok, p1) = adv(toks, pos);
    match type_of_kind(tok.kind) {
        Some(t) => Some((t, p1)),
        None => None,
    }
}

/// The type a memory intrinsic's name selects: `store_*` (for `@` statements)
/// or `load_*` (in expressions), followed by `i32`, `i64`, `f32` or `f64`.
pub open spec fn intrinsic_type(name: Seq<char>, store: bool) -> Option<Type> {
    if name == (if store { "store_i32"@ } else { "load_i32"@ }) {
        Some(Type::I32)
    } else if name == (if store { "store_i64"@ } else { "load_i64"@ }) {
        Some(Type::I64)
    } else if name == (if store { "store_f32"@ } else { "load_f32"@ }) {
        Some(Type::F32)
    } else if name == (if store { "store_f64"@ } else { "load_f64"@ }) {
        Some(Type::F64)
    } else {
        None
    }
}

/// The optional offset of a memory intrinsic: `, n` with an integer literal
/// `n` (its low 32 bits), or 0 when no comma follows.
pub open spec fn p_offset(toks: Seq<Token>, pos: nat) -> Option<(u32, nat)> {
    if check(toks, pos, TokenKind::Comma) {
        let (tok, p1) = adv(toks, pos + 1);
        match tok.kind {
            TokenKind::Int(v) => Some((v as u32, p1)),
            _ => None,
        }
    } else {
        Some((0, pos))
    }
}

/// An expression whose operators bind at least as tightly as `min_bp`: a
/// prefix expression, then the operator loop.
pub open spec fn p_expr(toks: Seq<Token>, pos: nat, min_bp: u8) -> Option<(ExprV, nat)>
    decreases remaining(toks, pos), 3nat,
{
    match p_prefix(toks, pos) {
        None => None,
        Some((l, p1)) => if p1 < pos { None } else { p_infix(toks, p1, l, min_bp) },
    }
}

/// The operator loop: while the next operator's left binding power is at
/// least `min_bp`, take it and a right operand parsed at its right binding
/// power; operators associate to the left.
pub open spec fn p_infix(toks: Seq<Token>, pos: nat, l: ExprV, min_bp: u8) -> Option<(ExprV, nat)>
    decreases remaining(toks, pos), 0nat,
{
    let op = if at_end(toks, pos) { None } else { infix_op(toks[pos as int].kind) };
    match op {
        None => Some((l, pos)),
        Some((op, l_bp, r_bp)) => if l_bp < min_bp {
            Some((l, pos))
        } else {
            match p_expr(toks, pos + 1, r_bp) {
                None => None,
                Some((r, p2)) => if p2 <= pos {
                    None
                } else {
                    p_infix(toks, p2, ExprV::Binary(op, Box::new(l), Box::new(r), expr_v_span(l)), min_bp)
                },
            }
        },
    }
}

/// A prefix expression: `-` or `!` applied to a prefix expression (the
/// operand is parsed at binding power 13, above every binary operator), or a
/// primary expression.
pub open spec fn p_prefix(toks: Seq<Token>, pos: nat) -> Option<(ExprV, nat)>
    decreases remaining(toks, pos), 2nat,
{
    if !at_end(toks, pos) && (toks[pos as int].kind is Minus || toks[pos as int].kind is Bang) {
        let op = if toks[pos as int].kind is Minus { UnaryOp::Neg } else { UnaryOp::Not };
        match p_expr(toks, pos + 1, 13) {
            None => None,
            Some((e, p1)) => Some((ExprV::Unary(op, Box::new(e), toks[pos as int].span), p1)),
        }
    } else {
        p_primary(toks, pos)
    }
}

/// A primary expression, from the token `advance` hands out: a literal, a
/// variable, a call, a parenthesized expression or a memory load.
pub open spec fn p_primary(toks: Seq<Token>, pos: nat) -> Option<(ExprV, nat)>
    decreases remaining(toks, pos), 1nat,
{
    let (tok, p1) = adv(toks, pos);
    match tok.kind {
        TokenKind::Int(v) => Some((ExprV::Int(v, tok.span), p1)),
        TokenKind::Float(t) => Some((ExprV::Float(t@, tok.span), p1)),
        TokenKind::True => Some((ExprV::Bool(true, tok.span), p1)),
        TokenKind::False => Some((ExprV::Bool(false, tok.span), p1)),
        TokenKind::Str(t) => Some((ExprV::Str(t@, tok.span), p1)),
        TokenKind::Ident(name) => if check(toks, p1, TokenKind::LParen) {
            let args = if check(toks, p1 + 1, TokenKind::RParen) {
                Some((Seq::empty(), p1 + 1))
            } else {
                p_args(toks, p1 + 1)
            };
            match args {
                None => None,
                Some((a, p2)) => match consume(toks, p2, TokenKind::RParen) {
                    None => None,
                    Some(p3) => Some((ExprV::Call(name@, a, tok.span), p3)),
                },
            }
        } else {
            Some((ExprV::Var(name@, tok.span), p1))
        },
        TokenKind::LParen => if at_end(toks, pos) {
            None
        } else {
            match p_expr(toks, p1, 0) {
                None => None,
                Some((e, p2)) => match consume(toks, p2, TokenKind::RParen) {
                    None => None,
                    Some(p3) => Some((e, p3)),
                },
            }
        },
        TokenKind::At => {
            let (op_tok, p2) = adv(toks, p1);
            match op_tok.kind {
                TokenKind::Ident(name) => match intrinsic_type(name@, false) {
                    None => None,
                    Some(ty) => match consume(toks, p2, TokenKind::LParen) {
                        None => None,
                        Some(p3) => if p3 <= pos {
                            None
                        } else {
                            match p_expr(toks, p3, 0) {
                                None => None,
                                Some((ptr, p4)) => match p_offset(toks, p4) {
                                    None => None,
                                    Some((offset, q)) => match consume(toks, q, TokenKind::RParen) {
                                        None => None,
                                        Some(p5) => Some((ExprV::Load(ty, Box::new(ptr), offset, tok.span), p5)),
                                    },
                                },
                            }
                        },
                    },
                },
                _ => None,
            }
        },
        _ => None,
    }
}

/// Call arguments: expressions separated by commas.
pub open spec fn p_args(toks: Seq<Token>, pos: nat) -> Option<(Seq<ExprV>, nat)>
    decreases remaining(toks, pos), 4nat,
{
    match p_expr(toks, pos, 0) {
        None => None,
        Some((e, p1)) => if p1 < pos {
            None
        } else if check(toks, p1, TokenKind::Comma) {
            match p_args(toks, p1 + 1) {
                None => None,
                Some((rest, p2)) => Some((seq![e] + rest, p2)),
            }
        } else {
            Some((seq![e], p1))
        },
    }
}

/// A braced block of statements.
pub open spec fn p_block(toks: Seq<Token>, pos: nat) -> Option<(BlockV, nat)>
    decreases remaining(toks, pos), 7nat,
{
    match consume(toks, pos, TokenKind::LBrace) {
        None => None,
        Some(p1) => match p_stmts(toks, p1) {
            None => None,
            Some((ss, p2)) => match consume(toks, p2, TokenKind::RBrace) {
                None => None,
                Some(p3) => Some((BlockV { stmts: ss, span: toks[pos as int].span }, p3)),
            },
        },
    }
}

/// Statements up to a `}` or the end. Each statement takes at least one
/// token, which the check on positions makes explicit.
pub open spec fn p_stmts(toks: Seq<Token>, pos: nat) -> Option<(Seq<StmtV>, nat)>
    decreases remaining(toks, pos), 6nat,
{
    if check(toks, pos, TokenKind::RBrace) || at_end(toks, pos) {
        Some((Seq::empty(), pos))
    } else {
        match p_stmt(toks, pos) {
            None => None,
            Some((s, p1)) => if p1 <= pos {
                None
            } else {
                match p_stmts(toks, p1) {
                    None => None,
                    Some((rest, p2)) => Some((seq![s] + rest, p2)),
                }
            },
        }
    }
}

/// Whether the token after the cursor is `=`, `+=`, `-=`, `*=` or `/=`.
pub open spec fn assignment_ahead(toks: Seq<Token>, pos: nat) -> bool {
    pos + 1 < toks.len() && (toks[pos + 1int].kind is Eq || toks[pos + 1int].kind is PlusEq || toks[pos + 1int].kind is MinusEq
        || toks[pos + 1int].kind is StarEq || toks[pos + 1int].kind is SlashEq)
}

/// A statement, chosen by the token under the cursor.
pub open spec fn p_stmt(toks: Seq<Token>, pos: nat) -> Option<(StmtV, nat)>
    decreases remaining(toks, pos), 5nat,
{
    match toks[pos as int].kind {
        TokenKind::Let => p_let(toks, pos),
        TokenKind::If => p_if(toks, pos),
        TokenKind::While => p_while(toks, pos),
        TokenKind::Return => p_return(toks, pos),
        TokenKind::Break => {
            let (tok, p1) = adv(toks, pos);
            match consume(toks, p1, TokenKind::Semicolon) {
                None => None,
                Some(p2) => Some((StmtV::Break(tok.span), p2)),
            }
        },
        TokenKind::At => p_at(toks, pos),
        TokenKind::Ident(_) => if assignment_ahead(toks, pos) { p_assign(toks, pos) } else { p_expr_stmt(toks, pos) },
        _ => p_expr_stmt(toks, pos),
    }
}

/// `let [mut] name [: type] = expr;`
pub open spec fn p_let(toks: Seq<Token>, pos: nat) -> Option<(StmtV, nat)>
    decreases remaining(toks, pos), 4nat,
{
    match consume(toks, pos, TokenKind::Let) {
        None => None,
        Some(p1) => {
            let is_mut = check(toks, p1, TokenKind::Mut);
            let p2 = if is_mut { p1 + 1 } else { p1 };
            let (name_tok, p3) = adv(toks, p2);
            match name_tok.kind {
                TokenKind::Ident(name) => {
                    let ty = if check(toks, p3, TokenKind::Colon) {
                        match p_type(toks, p3 + 1) {
                            None => None,
                            Some((t, p4)) => Some((Some(t), p4)),
                        }
                    } else {
                        Some((None, p3))
                    };
                    match ty {
                        None => None,
                        Some((ty, p4)) => match consume(toks, p4, TokenKind::Eq) {
                            None => None,
                            Some(p5) => if p5 <= pos {
                                None
                            } else {
                                match p_expr(toks, p5, 0) {
                                    None => None,
                                    Some((init, p6)) => match consume(toks, p6, TokenKind::Semicolon) {
                                        None => None,
                                        Some(p7) => Some((StmtV::Let(name@, is_mut, ty, init, toks[pos as int].span), p7)),
                                    },
                                }
                            },
                        },
                    }
                },
                _ => None,
            }
        },
    }
}

/// A type written by its name is that type: the keyword the lexer makes of
/// each type's name (as messages print it) is the type keyword for it.
pub proof fn lemma_type_keywords(t: Type)
    ensures
        crate::lexer::keyword_kind(type_text(t)) matches Some(k) && type_of_kind(k) == Some(t),
{
    reveal_strlit("i32");
    reveal_strlit("i64");
    reveal_strlit("f32");
    reveal_strlit("f64");
    reveal_strlit("bool");
    reveal_strlit("void");
    match t {
        Type::I32 => { assert(type_text(t) =~= seq!['i', '3', '2']); },
        Type::I64 => { assert(type_text(t) =~= seq!['i', '6', '4']); },
        Type::F32 => { assert(type_text(t) =~= seq!['f', '3', '2']); },
        Type::F64 => { assert(type_text(t) =~= seq!['f', '6', '4']); },
        Type::Bool => { assert(type_text(t) =~= seq!['b', 'o', 'o', 'l']); },
        Type::Void => { assert(type_text(t) =~= seq!['v', 'o', 'i', 'd']); },
    }
}

/// A memory intrinsic names the type it moves: `@load_T` and `@store_T`
/// for the name `T` of each type with a memory instruction.
pub proof fn lemma_intrinsic_names(t: Type, store: bool)
    requires
        t == Type::I32 || t == Type::I64 || t == Type::F32 || t == Type::F64,
    ensures
        intrinsic_type((if store { "store_"@ } else { "load_"@ }) + type_text(t), store) == Some(t),
{
    reveal_strlit("i32");
    reveal_strlit("i64");
    reveal_strlit("f32");
    reveal_strlit("f64");
    reveal_strlit("store_");
    reveal_strlit("load_");
    reveal_strlit("store_i32");
    reveal_strlit("store_i64");
    reveal_strlit("store_f32");
    reveal_strlit("store_f64");
    reveal_strlit("load_i32");
    reveal_strlit("load_i64");
    reveal_strlit("load_f32");
    reveal_strlit("load_f64");
    let name = (if store { "store_"@ } else { "load_"@ }) + type_text(t);
    if store {
        assert(name =~= "store_"@ + type_text(t));
    } else {
        assert(name =~= "load_"@ + type_text(t));
    }
    assert(name.len() == (if store { 9int } else { 8int }));
    if t != Type::I32 { assert(name != (if store { "store_i32"@ } else { "load_i32"@ })) by { assert(name[name.len() - 3] != (if store { "store_i32"@ } else { "load_i32"@ })[name.len() - 3] || name[name.len() - 2] != (if store { "store_i32"@ } else { "load_i32"@ })[name.len() - 2]); } }
    if t != Type::I64 && t != Type::I32 { assert(name != (if store { "store_i64"@ } else { "load_i64"@ })) by { assert(name[name.len() - 3] != (if store { "store_i64"@ } else { "load_i64"@ })[name.len() - 3] || name[name.len() - 2] != (if store { "store_i64"@ } else { "load_i64"@ })[name.len() - 2]); } }
    if t == Type::F64 { assert(name != (if store { "store_f32"@ } else { "load_f32"@ })) by { assert(name[name.len() - 2] != (if store { "store_f32"@ } else { "load_f32"@ })[name.len() - 2]); } }
    match t {
        Type::I32 => { assert(name =~= (if store { "store_i32"@ } else { "load_i32"@ })); },
        Type::I64 => { assert(name =~= (if store { "store_i64"@ } else { "load_i64"@ })); },
        Type::F32 => { assert(name =~= (if store { "store_f32"@ } else { "load_f32"@ })); },
        _ => { assert(name =~= (if store { "store_f64"@ } else { "load_f64"@ })); },
    }
}

/// Each operator symbol parses to the operator of that meaning: the token
/// the lexer makes of the symbol's text is the infix operator named after it.
pub proof fn lemma_operator_symbols()
    ensures
        infix_op((crate::lexer::op_token(seq!['+'], 0)->0).0) matches Some((op, _, _)) && op == BinaryOp::Add,
        infix_op((crate::lexer::op_token(seq!['-'], 0)->0).0) matches Some((op, _, _)) && op == BinaryOp::Sub,
        infix_op((crate::lexer::op_token(seq!['*'], 0)->0).0) matches Some((op, _, _)) && op == BinaryOp::Mul,
        infix_op((crate::lexer::op_token(seq!['/'], 0)->0).0) matches Some((op, _, _)) && op == BinaryOp::Div,
        infix_op((crate::lexer::op_token(seq!['%'], 0)->0).0) matches Some((op, _, _)) && op == BinaryOp::Rem,
        infix_op((crate::lexer::op_token(seq!['=', '='], 0)->0).0) matches Some((op, _, _)) && op == BinaryOp::Eq,
        infix_op((crate::lexer::op_token(seq!['!', '='], 0)->0).0) matches Some((op, _, _)) && op == BinaryOp::Ne,
        infix_op((crate::lexer::op_token(seq!['<'], 0)->0).0) matches Some((op, _, _)) && op == BinaryOp::Lt,
        infix_op((crate::lexer::op_token(seq!['<', '='], 0)->0).0) matches Some((op, _, _)) && op == BinaryOp::Le,
        infix_op((crate::lexer::op_token(seq!['>'], 0)->0).0) matches Some((op, _, _)) && op == BinaryOp::Gt,
        infix_op((crate::lexer::op_token(seq!['>', '='], 0)->0).0) matches Some((op, _, _)) && op == BinaryOp::Ge,
        infix_op((crate::lexer::op_token(seq!['&'], 0)->0).0) matches Some((op, _, _)) && op == BinaryOp::BitAnd,
        infix_op((crate::lexer::op_token(seq!['|'], 0)->0).0) matches Some((op, _, _)) && op == BinaryOp::BitOr,
        infix_op((crate::lexer::op_token(seq!['^'], 0)->0).0) matches Some((op, _, _)) && op == BinaryOp::BitXor,
        infix_op((crate::lexer::op_token(seq!['<', '<'], 0)->0).0) matches Some((op, _, _)) && op == BinaryOp::Shl,
        infix_op((crate::lexer::op_token(seq!['>', '>'], 0)->0).0) matches Some((op, _, _)) && op == BinaryOp::Shr,
        infix_op((crate::lexer::op_token(seq!['&', '&'], 0)->0).0) matches Some((op, _, _)) && op == BinaryOp::LogicalAnd,
        infix_op((crate::lexer::op_token(seq!['|', '|'], 0)->0).0) matches Some((op, _, _)) && op == BinaryOp::LogicalOr,
{
}

/// How operators group: every operator is left-associative (its right
/// binding power is one more than its left), and the levels from loosest to
/// tightest are `||`, `&&`, `|`, `^`, `&`, equality, comparison, shifts,
/// `+ -`, `* / %`; every binding power is below 13, the power `p_prefix`
/// parses a unary operand at, so unary operators bind tighter than all.
pub proof fn lemma_operator_precedence(k1: TokenKind, k2: TokenKind)
    requires
        infix_op(k1) is Some,
        infix_op(k2) is Some,
    ensures
        ({
            let (op1, l1, r1) = infix_op(k1)->0;
            let (op2, l2, r2) = infix_op(k2)->0;
            let level = |op: BinaryOp| match op {
                BinaryOp::LogicalOr => 0int,
                BinaryOp::LogicalAnd => 1,
                BinaryOp::BitOr => 2,
                BinaryOp::BitXor => 3,
                BinaryOp::BitAnd => 4,
                BinaryOp::Eq | BinaryOp::Ne => 5,
                BinaryOp::Lt | BinaryOp::Le | BinaryOp::Gt | BinaryOp::Ge => 6,
                BinaryOp::Shl | BinaryOp::Shr => 7,
                BinaryOp::Add | BinaryOp::Sub => 8,
                BinaryOp::Mul | BinaryOp::Div | BinaryOp::Rem => 9,
            };
            &&& r1 == l1 + 1
            &&& (level(op1) < level(op2) <==> l1 < l2)
            &&& (level(op1) == level(op2) <==> l1 == l2)
            &&& l1 < 13
        }),
{
}

/// A compound assignment `x c= e` means `x = x c e`: for each character
/// `c` of `+ - * /`, when the token after the target is the one the lexer
/// makes of `c=`, the assigned value applies to `x` and `e` the operator the
/// expression parser gives the token the lexer makes of `c` alone.
pub proof fn lemma_compound_assignment(toks: Seq<Token>, pos: nat, c: char)
    requires
        c == '+' || c == '-' || c == '*' || c == '/',
        p_assign(toks, pos) is Some,
        adv(toks, adv(toks, pos).1).0.kind == (crate::lexer::op_token(seq![c, '='], 0)->0).0,
    ensures
        ({
            let (target_tok, p1) = adv(toks, pos);
            let (op_tok, p2) = adv(toks, p1);
            let base = (crate::lexer::op_token(seq![c], 0)->0).0;
            &&& crate::lexer::op_token(seq![c, '='], 0) matches Some((_, n)) && n == 2
            &&& p_assign(toks, pos) matches Some((StmtV::Assign(x, value, _), _))
                && value == ExprV::Binary((infix_op(base)->0).0, Box::new(ExprV::Var(x, target_tok.span)),
                    Box::new((p_expr(toks, p2, 0)->0).0), op_tok.span)
        }),
{
    reveal_with_fuel(p_assign, 1);
}

/// `target = expr;` or a compound `+=`, `-=`, `*=`, `/=`: the compound
/// forms apply the operator to the target's value and the expression.
pub open spec fn p_assign(toks: Seq<Token>, pos: nat) -> Option<(StmtV, nat)>
    decreases remaining(toks, pos), 4nat,
{
    let (target_tok, p1) = adv(toks, pos);
    let (op_tok, p2) = adv(toks, p1);
    match target_tok.kind {
        TokenKind::Ident(target) => {
            let compound = if op_tok.kind is PlusEq {
                Some(BinaryOp::Add)
            } else if op_tok.kind is MinusEq {
                Some(BinaryOp::Sub)
            } else if op_tok.kind is StarEq {
                Some(BinaryOp::Mul)
            } else if op_tok.kind is SlashEq {
                Some(BinaryOp::Div)
            } else {
                None
            };
            if !(op_tok.kind is Eq || compound is Some) {
                None
            } else {
                match p_expr(toks, p2, 0) {
                    None => None,
                    Some((rhs, p3)) => {
                        let value = match compound {
                            Some(op) => ExprV::Binary(
                                op,
                                Box::new(ExprV::Var(target@, target_tok.span)),
                                Box::new(rhs),
                                op_tok.span,
                            ),
                            None => rhs,
                        };
                        match consume(toks, p3, TokenKind::Semicolon) {
                            None => None,
                            Some(p4) => Some((StmtV::Assign(target@, value, target_tok.span), p4)),
                        }
                    },
                }
            }
        },
        _ => None,
    }
}

/// `@store_T(ptr, value[, offset]);`
pub open spec fn p_at(toks: Seq<Token>, pos: nat) -> Option<(StmtV, nat)>
    decreases remaining(toks, pos), 4nat,
{
    match consume(toks, pos, TokenKind::At) {
        None => None,
        Some(p1) => {
            let (name_tok, p2) = adv(toks, p1);
            match name_tok.kind {
                TokenKind::Ident(name) => match intrinsic_type(name@, true) {
                    None => None,
                    Some(ty) => match consume(toks, p2, TokenKind::LParen) {
                        None => None,
                        Some(p3) => if p3 <= pos {
                            None
                        } else {
                            match p_expr(toks, p3, 0) {
                                None => None,
                                Some((ptr, p4)) => match consume(toks, p4, TokenKind::Comma) {
                                    None => None,
                                    Some(p5) => if p5 <= pos {
                                        None
                                    } else {
                                        match p_expr(toks, p5, 0) {
                                            None => None,
                                            Some((value, p6)) => match p_offset(toks, p6) {
                                                None => None,
                                                Some((offset, q)) => match consume(toks, q, TokenKind::RParen) {
                                                    None => None,
                                                    Some(p7) => match consume(toks, p7, TokenKind::Semicolon) {
                                                        None => None,
                                                        Some(p8) => Some((StmtV::Store(ty, ptr, offset, value, toks[pos as int].span), p8)),
                                                    },
                                                },
                                            },
                                        }
                                    },
                                },
                            }
                        },
                    },
                },
                _ => None,
            }
        },
    }
}

/// `if cond block [else block | else if ...]`; an `else if` becomes an
/// else block holding the nested `if`, with that `if`'s span.
pub open spec fn p_if(toks: Seq<Token>, pos: nat) -> Option<(StmtV, nat)>
    decreases remaining(toks, pos), 4nat,
{
    match consume(toks, pos, TokenKind::If) {
        None => None,
        Some(p1) => {
            match p_expr(toks, p1, 0) {
                None => None,
                Some((cond, p3)) => if p3 <= pos {
                    None
                } else {
                    match p_block(toks, p3) {
                        None => None,
                        Some((then_b, p5)) => if p5 <= pos {
                            None
                        } else if check(toks, p5, TokenKind::Else) {
                            if check(toks, p5 + 1, TokenKind::If) {
                                match p_if(toks, p5 + 1) {
                                    None => None,
                                    Some((nested, p6)) => {
                                        let span = match nested {
                                            StmtV::If(_, _, _, s) => s,
                                            _ => Span { line: 0, col: 0, len: 0 },
                                        };
                                        let else_b = BlockV { stmts: seq![nested], span };
                                        Some((StmtV::If(cond, then_b, Some(else_b), toks[pos as int].span), p6))
                                    },
                                }
                            } else {
                                match p_block(toks, p5 + 1) {
                                    None => None,
                                    Some((else_b, p6)) => Some((StmtV::If(cond, then_b, Some(else_b), toks[pos as int].span), p6)),
                                }
                            }
                        } else {
                            Some((StmtV::If(cond, then_b, None, toks[pos as int].span), p5))
                        },
                    }
                },
            }
        },
    }
}

/// `while cond block`
pub open spec fn p_while(toks: Seq<Token>, pos: nat) -> Option<(StmtV, nat)>
    decreases remaining(toks, pos), 4nat,
{
    match consume(toks, pos, TokenKind::While) {
        None => None,
        Some(p1) => {
            match p_expr(toks, p1, 0) {
                None => None,
                Some((cond, p3)) => if p3 <= pos {
                    None
                } else {
                    match p_block(toks, p3) {
                        None => None,
                        Some((body, p5)) => Some((StmtV::While(cond, body, toks[pos as int].span), p5)),
                    }
                },
            }
        },
    }
}

/// `return [expr];`
pub open spec fn p_return(toks: Seq<Token>, pos: nat) -> Option<(StmtV, nat)>
    decreases remaining(toks, pos), 4nat,
{
    match consume(toks, pos, TokenKind::Return) {
        None => None,
        Some(p1) => {
            let value = if !check(toks, p1, TokenKind::Semicolon) {
                match p_expr(toks, p1, 0) {
                    None => None,
                    Some((v, p2)) => Some((Some(v), p2)),
                }
            } else {
                Some((None, p1))
            };
            match value {
                None => None,
                Some((v, p2)) => match consume(toks, p2, TokenKind::Semicolon) {
                    None => None,
                    Some(p3) => Some((StmtV::Return(v, toks[pos as int].span), p3)),
                },
            }
        },
    }
}

/// An expression followed by `;`; the statement takes the expression's
/// span.
pub open spec fn p_expr_stmt(toks: Seq<Token>, pos: nat) -> Option<(StmtV, nat)>
    decreases remaining(toks, pos), 4nat,
{
    match p_expr(toks, pos, 0) {
        None => None,
        Some((e, p1)) => match consume(toks, p1, TokenKind::Semicolon) {
            None => None,
            Some(p2) => Some((StmtV::Expr(e, expr_v_span(e)), p2)),
        },
    }
}

/// Parameters `name: type`, separated by commas.
pub open spec fn p_params(toks: Seq<Token>, pos: nat) -> Option<(Seq<ParamV>, nat)>
    decreases remaining(toks, pos),
{
    let p_span = toks[pos as int].span;
    let (name_tok, p1) = adv(toks, pos);
    match name_tok.kind {
        TokenKind::Ident(name) => match consume(toks, p1, TokenKind::Colon) {
            None => None,
            Some(p2) => match p_type(toks, p2) {
                None => None,
                Some((ty, p3)) => {
                    let param = ParamV { name: name@, ty, span: p_span };
                    if check(toks, p3, TokenKind::Comma) {
                        match p_params(toks, p3 + 1) {
                            None => None,
                            Some((rest, p4)) => Some((seq![param] + rest, p4)),
                        }
                    } else {
                        Some((seq![param], p3))
                    }
                },
            },
        },
        _ => None,
    }
}

/// `(params) [-> type]`: the parameters and the return type, `void` when it
/// is left out.
pub open spec fn p_signature(toks: Seq<Token>, pos: nat) -> Option<(Seq<ParamV>, Type, nat)> {
    match consume(toks, pos, TokenKind::LParen) {
        None => None,
        Some(p1) => {
            let params = if !check(toks, p1, TokenKind::RParen) { p_params(toks, p1) } else { Some((Seq::empty(), p1)) };
            match params {
                None => None,
                Some((ps, p2)) => match consume(toks, p2, TokenKind::RParen) {
                    None => None,
                    Some(p3) => if check(toks, p3, TokenKind::Arrow) {
                        match p_type(toks, p3 + 1) {
                            None => None,
                            Some((t, p4)) => Some((ps, t, p4)),
                        }
                    } else {
                        Some((ps, Type::Void, p3))
                    },
                },
            }
        },
    }
}

/// `fn name(params) [-> type] block`
pub open spec fn p_function(toks: Seq<Token>, pos: nat, is_export: bool) -> Option<(FunctionV, nat)> {
    match consume(toks, pos, TokenKind::Fn) {
        None => None,
        Some(p1) => {
            let (name_tok, p2) = adv(toks, p1);
            match name_tok.kind {
                TokenKind::Ident(name) => match p_signature(toks, p2) {
                    None => None,
                    Some((params, ret, p3)) => match p_block(toks, p3) {
                        None => None,
                        Some((body, p4)) => Some((
                            FunctionV { name: name@, params, return_type: ret, body, is_export, span: toks[pos as int].span },
                            p4,
                        )),
                    },
                },
                _ => None,
            }
        },
    }
}

/// `import "module" ["field"] fn name(params) [-> type];`: the field
/// defaults to the function's name.
pub open spec fn p_import(toks: Seq<Token>, pos: nat) -> Option<(ImportV, nat)> {
    match consume(toks, pos, TokenKind::Import) {
        None => None,
        Some(p1) => {
            let (module_tok, p2) = adv(toks, p1);
            match module_tok.kind {
                TokenKind::Str(module) => {
                    let (field, p3) = match toks[p2 as int].kind {
                        TokenKind::Str(f) => (Some(f@), adv(toks, p2).1),
                        _ => (None, p2),
                    };
                    match consume(toks, p3, TokenKind::Fn) {
                        None => None,
                        Some(p4) => {
                            let (name_tok, p5) = adv(toks, p4);
                            match name_tok.kind {
                                TokenKind::Ident(name) => match p_signature(toks, p5) {
                                    None => None,
                                    Some((params, ret, p6)) => match consume(toks, p6, TokenKind::Semicolon) {
                                        None => None,
                                        Some(p7) => Some((
                                            ImportV {
                                                module: module@,
                                                field: match field {
                                                    Some(f) => f,
                                                    None => name@,
                                                },
                                                name: name@,
                                                params,
                                                return_type: ret,
                                                span: toks[pos as int].span,
                                            },
                                            p7,
                                        )),
                                    },
                                },
                                _ => None,
                            }
                        },
                    }
                },
                _ => None,
            }
        },
    }
}

/// `memory initial[, max];`: page counts from integer literals, cut to
/// their low 32 bits.
pub open spec fn p_memory(toks: Seq<Token>, pos: nat, is_export: bool) -> Option<(MemoryDecl, nat)> {
    match consume(toks, pos, TokenKind::Memory) {
        None => None,
        Some(p1) => {
            let (init_tok, p2) = adv(toks, p1);
            match init_tok.kind {
                TokenKind::Int(initial) => {
                    let max = if check(toks, p2, TokenKind::Comma) {
                        let (max_tok, p3) = adv(toks, p2 + 1);
                        match max_tok.kind {
                            TokenKind::Int(m) => Some((Some(m as u32), p3)),
                            _ => None,
                        }
                    } else {
                        Some((None, p2))
                    };
                    match max {
                        None => None,
                        Some((max_pages, p3)) => match consume(toks, p3, TokenKind::Semicolon) {
                            None => None,
                            Some(p4) => Some((
                                MemoryDecl { initial_pages: initial as u32, max_pages, is_export, span: toks[pos as int].span },
                                p4,
                            )),
                        },
                    }
                },
                _ => None,
            }
        },
    }
}

/// The top-level items from `pos` on, added to those already read: imports,
/// at most one memory declaration and functions, the latter two optionally
/// `export`ed.
pub open spec fn p_items(toks: Seq<Token>, pos: nat, acc: ProgramV) -> Option<ProgramV>
    decreases remaining(toks, pos),
{
    if at_end(toks, pos) {
        Some(acc)
    } else if check(toks, pos, TokenKind::Import) {
        match p_import(toks, pos) {
            None => None,
            Some((imp, p1)) => if p1 <= pos {
                None
            } else {
                p_items(toks, p1, ProgramV { imports: acc.imports.push(imp), ..acc })
            },
        }
    } else {
        let is_export = check(toks, pos, TokenKind::Export);
        let p1 = if is_export { pos + 1 } else { pos };
        if check(toks, p1, TokenKind::Memory) {
            if acc.memory is Some {
                None
            } else {
                match p_memory(toks, p1, is_export) {
                    None => None,
                    Some((m, p2)) => if p2 <= pos {
                        None
                    } else {
                        p_items(toks, p2, ProgramV { memory: Some(m), ..acc })
                    },
                }
            }
        } else if check(toks, p1, TokenKind::Fn) {
            match p_function(toks, p1, is_export) {
                None => None,
                Some((f, p2)) => if p2 <= pos {
                    None
                } else {
                    p_items(toks, p2, ProgramV { functions: acc.functions.push(f), ..acc })
                },
            }
        } else {
            None
        }
    }
}

/// The program the tokens spell, or nothing when they do not spell one.
pub open spec fn parse_tokens(toks: Seq<Token>) -> Option<ProgramV> {
    p_items(toks, 0, ProgramV { imports: Seq::empty(), functions: Seq::empty(), memory: None })
}

/// Whether a token is `Eof`.
pub open spec fn is_eof(t: Token) -> bool {
    t.kind is Eof
}

/// No token before the first `Eof` is one, and that one is.
pub proof fn lemma_eof_from(toks: Seq<Token>, i: nat)
    requires
        i <= toks.len(),
    ensures
        i <= eof_from(toks, i) <= toks.len(),
        forall|k: int| i <= k < eof_from(toks, i) ==> !is_eof(#[trigger] toks[k]),
        eof_from(toks, i) < toks.len() ==> is_eof(toks[eof_from(toks, i) as int]),
    decreases toks.len() - i,
{
    if i < toks.len() && !is_eof(toks[i as int]) {
        lemma_eof_from(toks, i + 1);
    }
}

proof fn lemma_exprs_v_push(es: Seq<Expression>, e: Expression)
    ensures
        exprs_v(es.push(e)) == exprs_v(es).push(expr_v(e)),
    decreases es.len(),
{
    if es.len() > 0 {
        lemma_exprs_v_push(es.drop_first(), e);
        let s2 = es.push(e);
        assert(s2.drop_first() =~= es.drop_first().push(e));
        assert(s2[0] == es[0]);
        assert(exprs_v(s2) == seq![expr_v(es[0])] + exprs_v(s2.drop_first()));
        assert(exprs_v(es) == seq![expr_v(es[0])] + exprs_v(es.drop_first()));
        assert(exprs_v(s2) =~= exprs_v(es).push(expr_v(e)));
    } else {
        let s2 = es.push(e);
        assert(s2.drop_first() =~= Seq::<Expression>::empty());
        assert(exprs_v(s2.drop_first()) == Seq::<ExprV>::empty());
        assert(exprs_v(s2) == seq![expr_v(s2[0])] + exprs_v(s2.drop_first()));
        assert(exprs_v(s2) =~= exprs_v(es).push(expr_v(e)));
    }
}

proof fn lemma_stmts_v_push(ss: Seq<Statement>, st: Statement)
    ensures
        stmts_v(ss.push(st)) == stmts_v(ss).push(stmt_v(st)),
    decreases ss.len(),
{
    if ss.len() > 0 {
        lemma_stmts_v_push(ss.drop_first(), st);
        let s2 = ss.push(st);
        assert(s2.drop_first() =~= ss.drop_first().push(st));
        assert(s2[0] == ss[0]);
        assert(stmts_v(s2) == seq![stmt_v(ss[0])] + stmts_v(s2.drop_first()));
        assert(stmts_v(ss) == seq![stmt_v(ss[0])] + stmts_v(ss.drop_first()));
        assert(stmts_v(s2) =~= stmts_v(ss).push(stmt_v(st)));
    } else {
        let s2 = ss.push(st);
        assert(s2.drop_first() =~= Seq::<Statement>::empty());
        assert(stmts_v(s2.drop_first()) == Seq::<StmtV>::empty());
        assert(stmts_v(s2) == seq![stmt_v(s2[0])] + stmts_v(s2.drop_first()));
        assert(stmts_v(s2) =~= stmts_v(ss).push(stmt_v(st)));
    }
}

/// Whether tokens can be handed to the parser: see `parsable`.
pub fn can_parse(tokens: &Vec<Token>) -> (r: bool)
    ensures
        r == parsable(tokens@),
{
    proof { lemma_eof_from(tokens@, 0); }
    let mut i: usize = 0;
    while i < tokens.len()
        invariant
            i <= tokens@.len(),
            eof_from(tokens@, i as nat) == eof_pos(tokens@),
        decreases tokens@.len() - i,
    {
        if matches!(tokens[i].kind, TokenKind::Eof) {
            return i == 0 || !matches!(tokens[i - 1].kind, TokenKind::LParen);
        }
        i = i + 1;
    }
    false
}

/// The message for a missing token: the expectation, then the token found
/// and its position.
pub open spec fn expected_msg(expectation: Seq<char>, found: Token) -> Seq<char> {
    expectation + " (got '"@ + describe_text(found.kind) + "' at "@
        + position_text(found.span.line as nat, found.span.col as nat) + ")"@
}

/// Whether a token can start a primary expression.
pub open spec fn starts_primary(k: TokenKind) -> bool {
    k is Int || k is Float || k is True || k is False || k is Str || k is Ident || k is LParen || k is At
}

/// The message for a token that cannot start an expression.
pub open spec fn unexpected_token_msg(found: Token) -> Seq<char> {
    "Unexpected token '"@ + describe_text(found.kind) + "' in expression"@ + " at "@
        + position_text(found.span.line as nat, found.span.col as nat)
}

/// The description of a token kind: its variant's name, then the value it
/// carries in brackets (names and strings also in quotes).
pub open spec fn describe_text(k: TokenKind) -> Seq<char> {
    variant_text(k) + match k {
        TokenKind::Ident(n) => "(\""@ + n@ + "\")"@,
        TokenKind::Str(n) => "(\""@ + n@ + "\")"@,
        TokenKind::Float(t) => "("@ + t@ + ")"@,
        TokenKind::Int(v) => "("@ + decimal_int(v as int) + ")"@,
        _ => Seq::<char>::empty(),
    }
}

/// A description of a token kind: its variant, with the value it carries.
fn describe(k: &TokenKind) -> (r: String)
    ensures
        r@ == describe_text(*k),
{
    let mut s = String::from_str(k.variant_name());
    match k {
        TokenKind::Ident(n) => {
            s.append("(\"");
            s.append(n.as_str());
            s.append("\")");
        },
        TokenKind::Str(n) => {
            s.append("(\"");
            s.append(n.as_str());
            s.append("\")");
        },
        TokenKind::Float(t) => {
            s.append("(");
            s.append(t.as_str());
            s.append(")");
        },
        TokenKind::Int(v) => {
            s.append("(");
            push_i64(&mut s, *v);
            s.append(")");
        },
        _ => {},
    }
    s
}

/// `message at line:col`.
fn at_span(message: &str, span: Span) -> (r: String)
    ensures
        r@ == message@ + " at "@ + position_text(span.line as nat, span.col as nat),
{
    let mut m = String::from_str(message);
    m.append(" at ");
    push_position(&mut m, span.line, span.col);
    m
}

/// The type a memory intrinsic's name selects.
fn intrinsic(name: &String, store: bool) -> (r: Option<Type>)
    ensures
        r == intrinsic_type(name@, store),
{
    let n32 = if store { String::from_str("store_i32") } else { String::from_str("load_i32") };
    let n64 = if store { String::from_str("store_i64") } else { String::from_str("load_i64") };
    let f32n = if store { String::from_str("store_f32") } else { String::from_str("load_f32") };
    let f64n = if store { String::from_str("store_f64") } else { String::from_str("load_f64") };
    if *name == n32 {
        Some(Type::I32)
    } else if *name == n64 {
        Some(Type::I64)
    } else if *name == f32n {
        Some(Type::F32)
    } else if *name == f64n {
        Some(Type::F64)
    } else {
        None
    }
}

/// The span of an `if` statement; no other statement is handed in.
fn nested_if_span(s: &Statement) -> (r: Span)
    ensures
        r == match stmt_v(*s) {
            StmtV::If(_, _, _, sp) => sp,
            _ => Span { line: 0, col: 0, len: 0 },
        },
{
    match s {
        Statement::If { span, .. } => *span,
        _ => Span::new(0, 0, 0),
    }
}

/// A parser over a token sequence.
pub struct Parser {
    tokens: Vec<Token>,
    cursor: usize,
}

impl Parser {
    /// The tokens.
    pub closed spec fn tokens(&self) -> Seq<Token> {
        self.tokens@
    }

    /// The position of the cursor.
    pub closed spec fn cursor(&self) -> nat {
        self.cursor as nat
    }

    /// The tokens are parsable and the cursor has not passed the first
    /// `Eof`.
    pub closed spec fn wf(&self) -> bool {
        parsable(self.tokens@) && self.cursor <= eof_pos(self.tokens@)
    }

    /// Well formed, with a token before the first `Eof`: `advance` at the
    /// end then has a token to hand out.
    closed spec fn ready(&self) -> bool {
        self.wf() && eof_pos(self.tokens@) > 0
    }

    /// A parser at the start of `tokens`.
    pub fn new(tokens: Vec<Token>) -> (r: Self)
        ensures
            r.tokens() == tokens@,
            r.cursor() == 0,
            parsable(tokens@) ==> r.wf(),
    {
        Self { tokens, cursor: 0 }
    }

    fn peek(&self) -> (r: &Token)
        requires
            self.wf(),
        ensures
            *r == self.tokens()[self.cursor() as int],
    {
        &self.tokens[self.cursor]
    }

    fn is_at_end(&self) -> (r: bool)
        requires
            self.wf(),
        ensures
            r == at_end(self.tokens(), self.cursor()),
    {
        proof { lemma_eof_from(self.tokens@, 0); }
        matches!(self.peek().kind, TokenKind::Eof)
    }

    fn advance(&mut self) -> (r: Token)
        requires
            old(self).ready(),
        ensures
            final(self).ready(),
            final(self).tokens() == old(self).tokens(),
            (r, final(self).cursor()) == adv(old(self).tokens(), old(self).cursor()),
    {
        proof { lemma_eof_from(self.tokens@, 0); }
        if !self.is_at_end() {
            assert(self.cursor < self.tokens.len());
            self.cursor = self.cursor + 1;
        } else {
            assert(self.cursor > 0);
        }
        self.tokens[self.cursor - 1].duplicate()
    }

    fn check(&self, kind: &TokenKind) -> (r: bool)
        requires
            self.wf(),
        ensures
            r == check(self.tokens(), self.cursor(), *kind),
    {
        if self.is_at_end() {
            false
        } else {
            self.peek().kind.tag() == kind.tag()
        }
    }

    fn match_token(&mut self, kind: &TokenKind) -> (r: bool)
        requires
            old(self).ready(),
        ensures
            final(self).ready(),
            final(self).tokens() == old(self).tokens(),
            r == check(old(self).tokens(), old(self).cursor(), *kind),
            final(self).cursor() == if r { old(self).cursor() + 1 } else { old(self).cursor() },
    {
        if self.check(kind) {
            self.advance();
            true
        } else {
            false
        }
    }

    fn consume(&mut self, kind: &TokenKind, err_msg: &str) -> (r: Result<Token, String>)
        requires
            old(self).ready(),
        ensures
            final(self).ready(),
            final(self).tokens() == old(self).tokens(),
            final(self).cursor() >= old(self).cursor(),
            match consume(old(self).tokens(), old(self).cursor(), *kind) {
                Some(p) => r matches Ok(t) && t == old(self).tokens()[old(self).cursor() as int] && final(self).cursor() == p,
                None => r matches Err(m) && m@ == expected_msg(err_msg@, old(self).tokens()[old(self).cursor() as int]),
            },
    {
        if self.check(kind) {
            Ok(self.advance())
        } else {
            let tok = self.peek();
            let mut m = String::from_str(err_msg);
            m.append(" (got '");
            m.append(describe(&tok.kind).as_str());
            m.append("' at ");
            push_position(&mut m, tok.span.line, tok.span.col);
            m.append(")");
            Err(m)
        }
    }

    fn peek_infix_op(&self) -> (r: Option<(BinaryOp, u8, u8)>)
        requires
            self.wf(),
        ensures
            r == (if at_end(self.tokens(), self.cursor()) { None } else { infix_op(self.tokens()[self.cursor() as int].kind) }),
    {
        proof { lemma_eof_from(self.tokens@, 0); }
        let token = self.peek();
        match token.kind {
            TokenKind::OrOr => Some((BinaryOp::LogicalOr, 1, 2)),
            TokenKind::AndAnd => Some((BinaryOp::LogicalAnd, 2, 3)),
            TokenKind::Pipe => Some((BinaryOp::BitOr, 3, 4)),
            TokenKind::Caret => Some((BinaryOp::BitXor, 4, 5)),
            TokenKind::Amp => Some((BinaryOp::BitAnd, 5, 6)),
            TokenKind::EqEq => Some((BinaryOp::Eq, 6, 7)),
            TokenKind::BangEq => Some((BinaryOp::Ne, 6, 7)),
            TokenKind::Lt => Some((BinaryOp::Lt, 7, 8)),
            TokenKind::LtEq => Some((BinaryOp::Le, 7, 8)),
            TokenKind::Gt => Some((BinaryOp::Gt, 7, 8)),
            TokenKind::GtEq => Some((BinaryOp::Ge, 7, 8)),
            TokenKind::Shl => Some((BinaryOp::Shl, 8, 9)),
            TokenKind::Shr => Some((BinaryOp::Shr, 8, 9)),
            TokenKind::Plus => Some((BinaryOp::Add, 9, 10)),
            TokenKind::Minus => Some((BinaryOp::Sub, 9, 10)),
            TokenKind::Star => Some((BinaryOp::Mul, 11, 12)),
            TokenKind::Slash => Some((BinaryOp::Div, 11, 12)),
            TokenKind::Percent => Some((BinaryOp::Rem, 11, 12)),
            _ => None,
        }
    }

    /// Parses the optional `, offset` of a memory intrinsic.
    fn parse_offset(&mut self) -> (r: Result<u32, String>)
        requires
            old(self).ready(),
        ensures
            final(self).ready(),
            final(self).tokens() == old(self).tokens(),
            final(self).cursor() >= old(self).cursor(),
            match p_offset(old(self).tokens(), old(self).cursor()) {
                Some((o, p)) => r matches Ok(x) && x == o && final(self).cursor() == p,
                None => r is Err,
            },
    {
        if self.match_token(&TokenKind::Comma) {
            let tok = self.advance();
            match tok.kind {
                TokenKind::Int(v) => Ok(#[verifier::truncate] (v as u32)),
                _ => Err(at_span("Expected integer literal for memory offset", tok.span)),
            }
        } else {
            Ok(0)
        }
    }

    fn parse_type(&mut self) -> (r: Result<Type, String>)
        requires
            old(self).ready(),
        ensures
            final(self).ready(),
            final(self).tokens() == old(self).tokens(),
            final(self).cursor() >= old(self).cursor(),
            match p_type(old(self).tokens(), old(self).cursor()) {
                Some((t, p)) => r matches Ok(x) && x == t && final(self).cursor() == p,
                None => r is Err,
            },
    {
        let token = self.advance();
        match token.kind {
            TokenKind::TypeI32 => Ok(Type::I32),
            TokenKind::TypeI64 => Ok(Type::I64),
            TokenKind::TypeF32 => Ok(Type::F32),
            TokenKind::TypeF64 => Ok(Type::F64),
            TokenKind::TypeBool => Ok(Type::Bool),
            TokenKind::TypeVoid => Ok(Type::Void),
            _ => Err(at_span("Expected type", token.span)),
        }
    }

    /// Parses an expression whose operators bind at least as tightly as
    /// `min_bp`.
    fn parse_expression(&mut self, min_bp: u8) -> (r: Result<Expression, String>)
        requires
            old(self).ready(),
        ensures
            final(self).ready(),
            final(self).tokens() == old(self).tokens(),
            final(self).cursor() >= old(self).cursor(),
            r is Ok && !at_end(old(self).tokens(), old(self).cursor()) ==> final(self).cursor() > old(self).cursor(),
            match p_expr(old(self).tokens(), old(self).cursor(), min_bp) {
                Some((v, p)) => r matches Ok(e) && expr_v(e) == v && final(self).cursor() == p,
                None => r is Err,
            },
        decreases remaining(old(self).tokens(), old(self).cursor()), 3nat,
    {
        let ghost toks = self.tokens@;
        let ghost pos0 = self.cursor();
        let mut lhs = self.parse_prefix()?;
        loop
            invariant
                self.ready(),
                self.tokens() == toks,
                toks == old(self).tokens(),
                pos0 == old(self).cursor(),
                self.cursor() >= pos0,
                !at_end(toks, pos0) ==> self.cursor() > pos0,
                p_expr(toks, pos0, min_bp) == p_infix(toks, self.cursor(), expr_v(lhs), min_bp),
            ensures
                self.ready(),
                self.tokens() == toks,
                self.cursor() >= pos0,
                !at_end(toks, pos0) ==> self.cursor() > pos0,
                p_expr(toks, pos0, min_bp) == Some((expr_v(lhs), self.cursor())),
            decreases remaining(toks, self.cursor()),
        {
            let (op, l_bp, r_bp) = match self.peek_infix_op() {
                Some(x) => x,
                None => {
                    break;
                },
            };
            if l_bp < min_bp {
                break;
            }
            self.advance();
            let right = self.parse_expression(r_bp)?;
            let span = lhs.span();
            lhs = Expression::Binary { op, left: Box::new(lhs), right: Box::new(right), span };
        }
        Ok(lhs)
    }

    fn parse_prefix(&mut self) -> (r: Result<Expression, String>)
        requires
            old(self).ready(),
        ensures
            final(self).ready(),
            final(self).tokens() == old(self).tokens(),
            final(self).cursor() >= old(self).cursor(),
            r is Ok && !at_end(old(self).tokens(), old(self).cursor()) ==> final(self).cursor() > old(self).cursor(),
            match p_prefix(old(self).tokens(), old(self).cursor()) {
                Some((v, p)) => r matches Ok(e) && expr_v(e) == v && final(self).cursor() == p,
                None => r is Err,
            },
        decreases remaining(old(self).tokens(), old(self).cursor()), 2nat,
    {
        proof { lemma_eof_from(self.tokens@, 0); }
        let is_neg = matches!(self.peek().kind, TokenKind::Minus);
        let is_not = matches!(self.peek().kind, TokenKind::Bang);
        if is_neg || is_not {
            let span = self.advance().span;
            let expr = self.parse_expression(13)?;
            let op = if is_neg { UnaryOp::Neg } else { UnaryOp::Not };
            Ok(Expression::Unary { op, expr: Box::new(expr), span })
        } else {
            self.parse_primary()
        }
    }

    #[verifier::spinoff_prover]
    #[verifier::rlimit(40)]
    fn parse_primary(&mut self) -> (r: Result<Expression, String>)
        requires
            old(self).ready(),
        ensures
            final(self).ready(),
            final(self).tokens() == old(self).tokens(),
            final(self).cursor() >= old(self).cursor(),
            r is Ok && !at_end(old(self).tokens(), old(self).cursor()) ==> final(self).cursor() > old(self).cursor(),
            match p_primary(old(self).tokens(), old(self).cursor()) {
                Some((v, p)) => r matches Ok(e) && expr_v(e) == v && final(self).cursor() == p,
                None => r is Err,
            },
            !starts_primary(adv(old(self).tokens(), old(self).cursor()).0.kind)
                ==> (r matches Err(m) && m@ == unexpected_token_msg(adv(old(self).tokens(), old(self).cursor()).0)),
        decreases remaining(old(self).tokens(), old(self).cursor()), 1nat,
    {
        let ghost toks = self.tokens@;
        let ghost pos0 = self.cursor();
        let token = self.advance();
        match token.kind {
            TokenKind::Int(v) => Ok(Expression::LiteralInt(v, token.span)),
            TokenKind::Float(v) => Ok(Expression::LiteralFloat(v, token.span)),
            TokenKind::True => Ok(Expression::LiteralBool(true, token.span)),
            TokenKind::False => Ok(Expression::LiteralBool(false, token.span)),
            TokenKind::Str(s) => Ok(Expression::LiteralString(s, token.span)),
            TokenKind::Ident(name) => {
                if self.check(&TokenKind::LParen) {
                    self.consume(&TokenKind::LParen, "Expected '('")?;
                    let ghost p_args_start = self.cursor();
                    let mut args: Vec<Expression> = Vec::new();
                    if !self.check(&TokenKind::RParen) {
                        loop
                            invariant_except_break
                                p_args(toks, p_args_start) == match p_args(toks, self.cursor()) {
                                    Some((rest, p)) => Some((exprs_v(args@) + rest, p)),
                                    None => None,
                                },
                            invariant
                                self.ready(),
                                self.tokens() == toks,
                                toks == old(self).tokens(),
                                pos0 == old(self).cursor(),
                                self.cursor() > pos0,
                                starts_primary(adv(toks, pos0).0.kind),
                                p_args(toks, p_args_start) is None ==> p_primary(toks, pos0) is None,
                            ensures
                                self.ready(),
                                self.tokens() == toks,
                                self.cursor() > pos0,
                                starts_primary(adv(toks, pos0).0.kind),
                                p_args(toks, p_args_start) == Some((exprs_v(args@), self.cursor())),
                            decreases remaining(toks, self.cursor()),
                        {
                            let ghost before = args@;
                            let ghost cur = self.cursor();
                            let e = match self.parse_expression(0) {
                                Ok(e) => e,
                                Err(m) => {
                                    assert(p_args(toks, cur) is None);
                                    return Err(m);
                                },
                            };
                            let ghost p1 = self.cursor();
                            args.push(e);
                            proof {
                                lemma_exprs_v_push(before, e);
                            }
                            if !self.match_token(&TokenKind::Comma) {
                                proof {
                                    assert(exprs_v(before) + seq![expr_v(e)] =~= exprs_v(args@));
                                }
                                break;
                            }
                            proof {
                                if let Some((rest, p)) = p_args(toks, self.cursor()) {
                                    assert(exprs_v(before) + (seq![expr_v(e)] + rest) =~= exprs_v(args@) + rest);
                                }
                            }
                        }
                    } else {
                        proof { assert(exprs_v(args@) =~= Seq::<ExprV>::empty()); }
                    }
                    self.consume(&TokenKind::RParen, "Expected ')'")?;
                    Ok(Expression::Call { callee: name, args, span: token.span })
                } else {
                    Ok(Expression::Variable(name, token.span))
                }
            },
            TokenKind::LParen => {
                proof { lemma_eof_from(toks, 0); }
                let expr = self.parse_expression(0)?;
                self.consume(&TokenKind::RParen, "Expected ')' after expression")?;
                Ok(expr)
            },
            TokenKind::At => {
                let op_tok = self.advance();
                let op_name = match op_tok.kind {
                    TokenKind::Ident(n) => n,
                    _ => {
                        return Err(at_span("Expected memory load intrinsic after '@'", token.span));
                    },
                };
                let ty = match intrinsic(&op_name, false) {
                    Some(t) => t,
                    None => {
                        let mut m = concat(vec!["Unknown memory load intrinsic '@", op_name.as_str(), "'"]);
                        return Err(at_span(m.as_str(), token.span));
                    },
                };
                self.consume(&TokenKind::LParen, "Expected '(' after load intrinsic")?;
                let ptr = self.parse_expression(0)?;
                let offset = self.parse_offset()?;
                self.consume(&TokenKind::RParen, "Expected ')' after pointer expression")?;
                Ok(Expression::MemoryLoad { ty, ptr: Box::new(ptr), offset, span: token.span })
            },
            _ => {
                let mut m = String::from_str("Unexpected token '");
                m.append(describe(&token.kind).as_str());
                m.append("' in expression");
                Err(at_span(m.as_str(), token.span))
            },
        }
    }

    /// Parses a braced block of statements.
    fn parse_block(&mut self) -> (r: Result<Block, String>)
        requires
            old(self).ready(),
        ensures
            final(self).ready(),
            final(self).tokens() == old(self).tokens(),
            final(self).cursor() >= old(self).cursor(),
            r is Ok && !at_end(old(self).tokens(), old(self).cursor()) ==> final(self).cursor() > old(self).cursor(),
            match p_block(old(self).tokens(), old(self).cursor()) {
                Some((v, p)) => r matches Ok(x) && block_v(x) == v && final(self).cursor() == p,
                None => r is Err,
            },
        decreases remaining(old(self).tokens(), old(self).cursor()), 7nat,
    {
        let ghost toks = self.tokens@;
        let ghost pos0 = self.cursor();
        let brace = self.consume(&TokenKind::LBrace, "Expected '{' to start block")?;
        let ghost p1 = self.cursor();
        let mut statements: Vec<Statement> = Vec::new();
        proof { assert(stmts_v(statements@) + Seq::<StmtV>::empty() =~= Seq::<StmtV>::empty()); }
        while !self.check(&TokenKind::RBrace) && !self.is_at_end()
            invariant
                self.ready(),
                self.tokens() == toks,
                toks == old(self).tokens(),
                pos0 == old(self).cursor(),
                self.cursor() >= p1,
                p1 == pos0 + 1,
                brace == toks[pos0 as int],
                p_stmts(toks, p1) is None ==> p_block(toks, pos0) is None,
                p_stmts(toks, p1) == match p_stmts(toks, self.cursor()) {
                    Some((rest, p)) => Some((stmts_v(statements@) + rest, p)),
                    None => None,
                },
            decreases remaining(toks, self.cursor()),
        {
            let ghost before = statements@;
            let ghost cur = self.cursor();
            let st = match self.parse_statement() {
                Ok(st) => st,
                Err(m) => {
                    assert(p_stmts(toks, cur) is None);
                    return Err(m);
                },
            };
            statements.push(st);
            proof {
                lemma_stmts_v_push(before, st);
                if let Some((rest, p)) = p_stmts(toks, self.cursor()) {
                    assert(stmts_v(before) + (seq![stmt_v(st)] + rest) =~= stmts_v(statements@) + rest);
                }
            }
        }
        proof { assert(stmts_v(statements@) + Seq::<StmtV>::empty() =~= stmts_v(statements@)); }
        self.consume(&TokenKind::RBrace, "Expected '}' to close block")?;
        Ok(Block { statements, span: brace.span })
    }

    /// Parses one statement, chosen by the token under the cursor.
    fn parse_statement(&mut self) -> (r: Result<Statement, String>)
        requires
            old(self).ready(),
        ensures
            final(self).ready(),
            final(self).tokens() == old(self).tokens(),
            final(self).cursor() >= old(self).cursor(),
            r is Ok && !at_end(old(self).tokens(), old(self).cursor()) ==> final(self).cursor() > old(self).cursor(),
            match p_stmt(old(self).tokens(), old(self).cursor()) {
                Some((v, p)) => r matches Ok(x) && stmt_v(x) == v && final(self).cursor() == p,
                None => r is Err,
            },
        decreases remaining(old(self).tokens(), old(self).cursor()), 5nat,
    {
        proof { lemma_eof_from(self.tokens@, 0); }
        let token = self.peek();
        match token.kind {
            TokenKind::Let => self.parse_let_statement(),
            TokenKind::If => self.parse_if_statement(),
            TokenKind::While => self.parse_while_statement(),
            TokenKind::Return => self.parse_return_statement(),
            TokenKind::Break => {
                let tok = self.advance();
                self.consume(&TokenKind::Semicolon, "Expected ';' after 'break'")?;
                Ok(Statement::Break(tok.span))
            },
            TokenKind::At => self.parse_at_statement(),
            TokenKind::Ident(_) => {
                if self.check_ahead_assignment() {
                    self.parse_assignment_statement()
                } else {
                    self.parse_expr_statement()
                }
            },
            _ => self.parse_expr_statement(),
        }
    }

    fn parse_let_statement(&mut self) -> (r: Result<Statement, String>)
        requires
            old(self).ready(),
        ensures
            final(self).ready(),
            final(self).tokens() == old(self).tokens(),
            final(self).cursor() >= old(self).cursor(),
            r is Ok && !at_end(old(self).tokens(), old(self).cursor()) ==> final(self).cursor() > old(self).cursor(),
            match p_let(old(self).tokens(), old(self).cursor()) {
                Some((v, p)) => r matches Ok(x) && stmt_v(x) == v && final(self).cursor() == p,
                None => r is Err,
            },
        decreases remaining(old(self).tokens(), old(self).cursor()), 4nat,
    {
        let let_tok = self.consume(&TokenKind::Let, "Expected 'let'")?;
        let is_mut = self.match_token(&TokenKind::Mut);
        let name = match self.advance().kind {
            TokenKind::Ident(n) => n,
            _ => {
                return Err(at_span("Expected variable name", self.peek().span));
            },
        };
        let ty = if self.match_token(&TokenKind::Colon) {
            Some(self.parse_type()?)
        } else {
            None
        };
        self.consume(&TokenKind::Eq, "Expected '=' in variable declaration")?;
        let init = self.parse_expression(0)?;
        self.consume(&TokenKind::Semicolon, "Expected ';' after let statement")?;
        Ok(Statement::Let { name, is_mut, ty, init, span: let_tok.span })
    }

    fn check_ahead_assignment(&self) -> (r: bool)
        requires
            self.wf(),
        ensures
            r == assignment_ahead(self.tokens(), self.cursor()),
    {
        proof { lemma_eof_from(self.tokens@, 0); }
        assert(self.cursor < self.tokens.len());
        if self.cursor + 1 < self.tokens.len() {
            matches!(
                self.tokens[self.cursor + 1].kind,
                TokenKind::Eq | TokenKind::PlusEq | TokenKind::MinusEq | TokenKind::StarEq | TokenKind::SlashEq
            )
        } else {
            false
        }
    }

    fn parse_assignment_statement(&mut self) -> (r: Result<Statement, String>)
        requires
            old(self).ready(),
            old(self).tokens()[old(self).cursor() as int].kind is Ident,
            assignment_ahead(old(self).tokens(), old(self).cursor()),
        ensures
            final(self).ready(),
            final(self).tokens() == old(self).tokens(),
            final(self).cursor() >= old(self).cursor(),
            r is Ok && !at_end(old(self).tokens(), old(self).cursor()) ==> final(self).cursor() > old(self).cursor(),
            match p_assign(old(self).tokens(), old(self).cursor()) {
                Some((v, p)) => r matches Ok(x) && stmt_v(x) == v && final(self).cursor() == p,
                None => r is Err,
            },
        decreases remaining(old(self).tokens(), old(self).cursor()), 4nat,
    {
        proof { lemma_eof_from(self.tokens@, 0); }
        let target_tok = self.advance();
        let target = match target_tok.kind {
            TokenKind::Ident(n) => n,
            _ => {
                return Err(at_span("Expected assignment target", target_tok.span));
            },
        };
        let op_tok = self.advance();
        let compound = match op_tok.kind {
            TokenKind::Eq => None,
            TokenKind::PlusEq => Some(BinaryOp::Add),
            TokenKind::MinusEq => Some(BinaryOp::Sub),
            TokenKind::StarEq => Some(BinaryOp::Mul),
            TokenKind::SlashEq => Some(BinaryOp::Div),
            _ => {
                return Err(at_span("Expected assignment operator", op_tok.span));
            },
        };
        let right = self.parse_expression(0)?;
        let var = Expression::Variable(target.clone(), target_tok.span);
        assert(expr_v(var) == ExprV::Var(target@, target_tok.span));
        let value = match compound {
            Some(op) => Expression::Binary {
                op,
                left: Box::new(var),
                right: Box::new(right),
                span: op_tok.span,
            },
            None => right,
        };
        self.consume(&TokenKind::Semicolon, "Expected ';' after assignment")?;
        Ok(Statement::Assignment { target, value, span: target_tok.span })
    }

    fn parse_at_statement(&mut self) -> (r: Result<Statement, String>)
        requires
            old(self).ready(),
        ensures
            final(self).ready(),
            final(self).tokens() == old(self).tokens(),
            final(self).cursor() >= old(self).cursor(),
            r is Ok && !at_end(old(self).tokens(), old(self).cursor()) ==> final(self).cursor() > old(self).cursor(),
            match p_at(old(self).tokens(), old(self).cursor()) {
                Some((v, p)) => r matches Ok(x) && stmt_v(x) == v && final(self).cursor() == p,
                None => r is Err,
            },
        decreases remaining(old(self).tokens(), old(self).cursor()), 4nat,
    {
        let at_tok = self.consume(&TokenKind::At, "Expected '@'")?;
        let op_name = match self.advance().kind {
            TokenKind::Ident(n) => n,
            _ => {
                return Err(at_span("Expected memory intrinsic name after '@'", at_tok.span));
            },
        };
        let ty = match intrinsic(&op_name, true) {
            Some(t) => t,
            None => {
                let m = concat(vec!["Unknown memory store intrinsic '@", op_name.as_str(), "'"]);
                return Err(at_span(m.as_str(), at_tok.span));
            },
        };
        self.consume(&TokenKind::LParen, "Expected '(' after intrinsic")?;
        let ptr = self.parse_expression(0)?;
        self.consume(&TokenKind::Comma, "Expected ',' between pointer and value")?;
        let value = self.parse_expression(0)?;
        let offset = self.parse_offset()?;
        self.consume(&TokenKind::RParen, "Expected ')' after arguments")?;
        self.consume(&TokenKind::Semicolon, "Expected ';' after intrinsic statement")?;
        Ok(Statement::MemoryStore { ty, ptr, offset, value, span: at_tok.span })
    }

    #[verifier::spinoff_prover]
    #[verifier::rlimit(60)]
    fn parse_if_statement(&mut self) -> (r: Result<Statement, String>)
        requires
            old(self).ready(),
        ensures
            final(self).ready(),
            final(self).tokens() == old(self).tokens(),
            final(self).cursor() >= old(self).cursor(),
            r is Ok && !at_end(old(self).tokens(), old(self).cursor()) ==> final(self).cursor() > old(self).cursor(),
            match p_if(old(self).tokens(), old(self).cursor()) {
                Some((v, p)) => r matches Ok(x) && stmt_v(x) == v && final(self).cursor() == p,
                None => r is Err,
            },
        decreases remaining(old(self).tokens(), old(self).cursor()), 4nat,
    {
        let if_tok = self.consume(&TokenKind::If, "Expected 'if'")?;
        let condition = self.parse_expression(0)?;
        let then_branch = self.parse_block()?;
        let else_branch = if self.match_token(&TokenKind::Else) {
            if self.check(&TokenKind::If) {
                let nested_if = self.parse_if_statement()?;
                let span = nested_if_span(&nested_if);
                let statements = vec![nested_if];
                proof {
                    assert(statements@.drop_first() =~= Seq::<Statement>::empty());
                    assert(stmts_v(statements@.drop_first()) == Seq::<StmtV>::empty());
                    assert(stmts_v(statements@) =~= seq![stmt_v(nested_if)]);
                }
                Some(Block { span, statements })
            } else {
                Some(self.parse_block()?)
            }
        } else {
            None
        };
        Ok(Statement::If { condition, then_branch, else_branch, span: if_tok.span })
    }

    fn parse_while_statement(&mut self) -> (r: Result<Statement, String>)
        requires
            old(self).ready(),
        ensures
            final(self).ready(),
            final(self).tokens() == old(self).tokens(),
            final(self).cursor() >= old(self).cursor(),
            r is Ok && !at_end(old(self).tokens(), old(self).cursor()) ==> final(self).cursor() > old(self).cursor(),
            match p_while(old(self).tokens(), old(self).cursor()) {
                Some((v, p)) => r matches Ok(x) && stmt_v(x) == v && final(self).cursor() == p,
                None => r is Err,
            },
        decreases remaining(old(self).tokens(), old(self).cursor()), 4nat,
    {
        let while_tok = self.consume(&TokenKind::While, "Expected 'while'")?;
        let condition = self.parse_expression(0)?;
        let body = self.parse_block()?;
        Ok(Statement::While { condition, body, span: while_tok.span })
    }

    fn parse_return_statement(&mut self) -> (r: Result<Statement, String>)
        requires
            old(self).ready(),
        ensures
            final(self).ready(),
            final(self).tokens() == old(self).tokens(),
            final(self).cursor() >= old(self).cursor(),
            r is Ok && !at_end(old(self).tokens(), old(self).cursor()) ==> final(self).cursor() > old(self).cursor(),
            match p_return(old(self).tokens(), old(self).cursor()) {
                Some((v, p)) => r matches Ok(x) && stmt_v(x) == v && final(self).cursor() == p,
                None => r is Err,
            },
        decreases remaining(old(self).tokens(), old(self).cursor()), 4nat,
    {
        let ret_tok = self.consume(&TokenKind::Return, "Expected 'return'")?;
        let value = if !self.check(&TokenKind::Semicolon) {
            Some(self.parse_expression(0)?)
        } else {
            None
        };
        self.consume(&TokenKind::Semicolon, "Expected ';' after return statement")?;
        Ok(Statement::Return { value, span: ret_tok.span })
    }

    fn parse_expr_statement(&mut self) -> (r: Result<Statement, String>)
        requires
            old(self).ready(),
        ensures
            final(self).ready(),
            final(self).tokens() == old(self).tokens(),
            final(self).cursor() >= old(self).cursor(),
            r is Ok && !at_end(old(self).tokens(), old(self).cursor()) ==> final(self).cursor() > old(self).cursor(),
            match p_expr_stmt(old(self).tokens(), old(self).cursor()) {
                Some((v, p)) => r matches Ok(x) && stmt_v(x) == v && final(self).cursor() == p,
                None => r is Err,
            },
        decreases remaining(old(self).tokens(), old(self).cursor()), 4nat,
    {
        let expr = self.parse_expression(0)?;
        let span = expr.span();
        self.consume(&TokenKind::Semicolon, "Expected ';' after expression")?;
        Ok(Statement::Expr { expr, span })
    }

    /// Parses `(params) [-> type]`; `lparen_msg` is the error when the `(`
    /// is missing.
    fn parse_signature(&mut self, lparen_msg: &str) -> (r: Result<(Vec<Param>, Type), String>)
        requires
            old(self).ready(),
        ensures
            final(self).ready(),
            final(self).tokens() == old(self).tokens(),
            final(self).cursor() >= old(self).cursor(),
            match p_signature(old(self).tokens(), old(self).cursor()) {
                Some((ps, t, p)) => r matches Ok((v, ty)) && v@.map_values(|q: Param| param_v(q)) == ps && ty == t
                    && final(self).cursor() == p,
                None => r is Err,
            },
    {
        let ghost toks = self.tokens@;
        let ghost pos0 = self.cursor();
        self.consume(&TokenKind::LParen, lparen_msg)?;
        let ghost start = self.cursor();
        let mut params: Vec<Param> = Vec::new();
        if !self.check(&TokenKind::RParen) {
            loop
                invariant_except_break
                    p_params(toks, start) == match p_params(toks, self.cursor()) {
                        Some((rest, p)) => Some((params@.map_values(|q: Param| param_v(q)) + rest, p)),
                        None => None,
                    },
                invariant
                    self.ready(),
                    self.tokens() == toks,
                    toks == old(self).tokens(),
                    pos0 == old(self).cursor(),
                    start == pos0 + 1,
                    self.cursor() >= start,
                    !check(toks, start, TokenKind::RParen),
                    p_params(toks, start) is None ==> p_signature(toks, pos0) is None,
                ensures
                    self.ready(),
                    self.tokens() == toks,
                    self.cursor() >= start,
                    p_params(toks, start) == Some((params@.map_values(|q: Param| param_v(q)), self.cursor())),
                decreases remaining(toks, self.cursor()),
            {
                let ghost before = params@;
                let ghost cur = self.cursor();
                let p_span = self.peek().span;
                let p_name = match self.advance().kind {
                    TokenKind::Ident(n) => n,
                    _ => {
                        return Err(at_span("Expected parameter name", p_span));
                    },
                };
                self.consume(&TokenKind::Colon, "Expected ':' after parameter name")?;
                let p_ty = self.parse_type()?;
                let param = Param { name: p_name, ty: p_ty, span: p_span };
                params.push(param);
                proof {
                    assert(params@.map_values(|q: Param| param_v(q)) =~= before.map_values(|q: Param| param_v(q)).push(param_v(param)));
                }
                if !self.match_token(&TokenKind::Comma) {
                    break;
                }
                proof {
                    if let Some((rest, p)) = p_params(toks, self.cursor()) {
                        assert(before.map_values(|q: Param| param_v(q)) + (seq![param_v(param)] + rest)
                            =~= params@.map_values(|q: Param| param_v(q)) + rest);
                    }
                }
            }
        } else {
            proof { assert(params@.map_values(|q: Param| param_v(q)) =~= Seq::<ParamV>::empty()); }
        }
        self.consume(&TokenKind::RParen, "Expected ')' after parameters")?;
        let return_type = if self.match_token(&TokenKind::Arrow) {
            self.parse_type()?
        } else {
            Type::Void
        };
        Ok((params, return_type))
    }

    fn parse_function(&mut self, is_export: bool) -> (r: Result<Function, String>)
        requires
            old(self).ready(),
        ensures
            final(self).ready(),
            final(self).tokens() == old(self).tokens(),
            final(self).cursor() >= old(self).cursor(),
            r is Ok ==> final(self).cursor() > old(self).cursor(),
            match p_function(old(self).tokens(), old(self).cursor(), is_export) {
                Some((v, p)) => r matches Ok(x) && function_v(x) == v && final(self).cursor() == p,
                None => r is Err,
            },
    {
        let fn_token = self.consume(&TokenKind::Fn, "Expected 'fn'")?;
        let name = match self.advance().kind {
            TokenKind::Ident(n) => n,
            _ => {
                return Err(at_span("Expected function name after 'fn'", fn_token.span));
            },
        };
        let (params, return_type) = self.parse_signature("Expected '(' after function name")?;
        let body = self.parse_block()?;
        Ok(Function { name, params, return_type, body, is_export, span: fn_token.span })
    }

    fn parse_import_decl(&mut self) -> (r: Result<ImportFunc, String>)
        requires
            old(self).ready(),
        ensures
            final(self).ready(),
            final(self).tokens() == old(self).tokens(),
            final(self).cursor() >= old(self).cursor(),
            r is Ok ==> final(self).cursor() > old(self).cursor(),
            match p_import(old(self).tokens(), old(self).cursor()) {
                Some((v, p)) => r matches Ok(x) && import_v(x) == v && final(self).cursor() == p,
                None => r is Err,
            },
    {
        proof { lemma_eof_from(self.tokens@, 0); }
        let import_token = self.consume(&TokenKind::Import, "Expected 'import'")?;
        let module = match self.advance().kind {
            TokenKind::Str(s) => s,
            _ => {
                return Err(at_span("Expected module name string after 'import'", import_token.span));
            },
        };
        let mut field: Option<String> = None;
        if let TokenKind::Str(s) = &self.peek().kind {
            field = Some(s.clone());
            self.advance();
        }
        self.consume(&TokenKind::Fn, "Expected 'fn' in import declaration")?;
        let name_span = self.peek().span;
        let name = match self.advance().kind {
            TokenKind::Ident(n) => n,
            _ => {
                return Err(at_span("Expected function identifier in import", name_span));
            },
        };
        let resolved_field = match field {
            Some(f) => f,
            None => name.clone(),
        };
        let (params, return_type) = self.parse_signature("Expected '(' after imported function name")?;
        self.consume(&TokenKind::Semicolon, "Expected ';' after import declaration")?;
        Ok(ImportFunc { module, field: resolved_field, name, params, return_type, span: import_token.span })
    }

    fn parse_memory_decl(&mut self, is_export: bool) -> (r: Result<MemoryDecl, String>)
        requires
            old(self).ready(),
        ensures
            final(self).ready(),
            final(self).tokens() == old(self).tokens(),
            final(self).cursor() >= old(self).cursor(),
            r is Ok ==> final(self).cursor() > old(self).cursor(),
            match p_memory(old(self).tokens(), old(self).cursor(), is_export) {
                Some((v, p)) => r matches Ok(x) && x == v && final(self).cursor() == p,
                None => r is Err,
            },
    {
        let span_start = self.peek().span;
        self.consume(&TokenKind::Memory, "Expected 'memory'")?;
        let initial_pages = match self.advance().kind {
            TokenKind::Int(val) => #[verifier::truncate] (val as u32),
            _ => {
                return Err(at_span("Expected integer literal for initial memory pages", span_start));
            },
        };
        let mut max_pages = None;
        if self.match_token(&TokenKind::Comma) {
            max_pages = match self.advance().kind {
                TokenKind::Int(val) => Some(#[verifier::truncate] (val as u32)),
                _ => {
                    return Err(at_span("Expected integer literal for maximum memory pages", self.peek().span));
                },
            };
        }
        self.consume(&TokenKind::Semicolon, "Expected ';' after memory declaration")?;
        Ok(MemoryDecl { initial_pages, max_pages, is_export, span: span_start })
    }

    /// Parses the whole program: imports, at most one memory declaration
    /// and functions, up to the first `Eof`.
    #[verifier::spinoff_prover]
    #[verifier::rlimit(80)]
    pub fn parse_program(&mut self) -> (r: Result<Program, String>)
        requires
            old(self).wf(),
        ensures
            final(self).wf(),
            final(self).tokens() == old(self).tokens(),
            r is Ok ==> final(self).cursor() == eof_pos(final(self).tokens()),
            match p_items(old(self).tokens(), old(self).cursor(), ProgramV { imports: Seq::empty(), functions: Seq::empty(), memory: None }) {
                Some(v) => r matches Ok(x) && program_v(x) == v,
                None => r is Err,
            },
    {
        let ghost toks = self.tokens@;
        let ghost pos0 = self.cursor();
        let mut imports: Vec<ImportFunc> = Vec::new();
        let mut functions: Vec<Function> = Vec::new();
        let mut memory: Option<MemoryDecl> = None;
        proof {
            assert(imports@.map_values(|i: ImportFunc| import_v(i)) =~= Seq::<ImportV>::empty());
            assert(functions@.map_values(|f: Function| function_v(f)) =~= Seq::<FunctionV>::empty());
        }
        while !self.is_at_end()
            invariant
                self.wf(),
                self.tokens() == toks,
                toks == old(self).tokens(),
                pos0 == old(self).cursor(),
                p_items(toks, pos0, ProgramV { imports: Seq::empty(), functions: Seq::empty(), memory: None })
                    == p_items(toks, self.cursor(), ProgramV {
                        imports: imports@.map_values(|i: ImportFunc| import_v(i)),
                        functions: functions@.map_values(|f: Function| function_v(f)),
                        memory,
                    }),
            decreases remaining(toks, self.cursor()),
        {
            let ghost cur = self.cursor();
            let ghost acc = ProgramV {
                imports: imports@.map_values(|i: ImportFunc| import_v(i)),
                functions: functions@.map_values(|f: Function| function_v(f)),
                memory,
            };
            if self.check(&TokenKind::Import) {
                let imp = match self.parse_import_decl() {
                    Ok(imp) => imp,
                    Err(m) => {
                        assert(p_items(toks, cur, acc) is None);
                        return Err(m);
                    },
                };
                let ghost before = imports@;
                imports.push(imp);
                proof {
                    assert(imports@.map_values(|i: ImportFunc| import_v(i)) =~= before.map_values(|i: ImportFunc| import_v(i)).push(import_v(imp)));
                }
                continue;
            }
            let is_export = self.match_token(&TokenKind::Export);
            if self.check(&TokenKind::Memory) {
                if memory.is_some() {
                    return Err(at_span("Duplicate memory declaration", self.peek().span));
                }
                memory = Some(self.parse_memory_decl(is_export)?);
            } else if self.check(&TokenKind::Fn) {
                let f = self.parse_function(is_export)?;
                let ghost before = functions@;
                functions.push(f);
                proof {
                    assert(functions@.map_values(|f: Function| function_v(f)) =~= before.map_values(|f: Function| function_v(f)).push(function_v(f)));
                }
            } else {
                let token = self.peek();
                let mut m = concat(vec!["Unexpected token '"]);
                m.append(describe(&token.kind).as_str());
                m.append("' at top level (");
                push_position(&mut m, token.span.line, token.span.col);
                m.append(")");
                assert(p_items(toks, cur, acc) is None);
                return Err(m);
            }
        }
        Ok(Program { imports, functions, memory })
    }
}

} // verus!
