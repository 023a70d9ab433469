//! Direct WebAssembly binary module generation for Nova programs.
use vstd::prelude::*;
use vstd::string::StringSliceAdditionalSpecFns;
use crate::ast::{i32_binary_value, i32_unary_value, BinaryOp, Block, Expression, Function, ImportFunc, MemoryDecl, Param, Program, Statement, Type, UnaryOp};
use crate::text::{concat, push_u64};
use crate::token::Span;
use crate::wasm::leb128::{encode_i32, encode_name, encode_u32, lemma_uleb32_roundtrip, sleb128, uleb128};
use crate::wasm::opcodes::{i32_instruction_value, i32_test_value, memory_instruction, value_type_name, 
    BLOCK, BLOCK_EMPTY, BR, BR_IF, CALL, DROP, ELSE, END, EXPORT_DESC_FUNC, EXPORT_DESC_MEM, F32_CONST,
    F32_LOAD, F32_STORE, F64_LOAD, F64_STORE, FUNC_TYPE, I32_ADD, I32_AND, I32_CONST, I32_DIV_S, I32_EQ,
    I32_EQZ, I32_GE_S, I32_GT_S, I32_LE_S, I32_LOAD, I32_LT_S, I32_MUL, I32_NE, I32_OR, I32_REM_S,
    I32_SHL, I32_SHR_S, I32_STORE, I32_SUB, I32_XOR, I64_LOAD, I64_STORE, IF, LOCAL_GET, LOCAL_SET, LOOP,
    RETURN, SECTION_CODE, SECTION_DATA, SECTION_EXPORT, SECTION_FUNCTION, SECTION_IMPORT, SECTION_MEMORY, SECTION_TYPE,
    IMPORT_DESC_FUNC, VAL_TYPE_F32,
    VAL_TYPE_F64, VAL_TYPE_I32, VAL_TYPE_I64,
};

verus! {

/// The value of a float literal as the host computed it: the literal's
/// digits, the bits of the `f32` nearest to it (as read through `f64`), and
/// its shortest decimal form.
#[derive(Debug, Clone)]
pub struct FloatConst {
    pub text: String,
    pub f32_bits: u32,
    pub display: String,
}

/// A name-to-index table as plain values, in insertion order.
pub type IndexTable = Seq<(Seq<char>, u32)>;

/// The index a table gives `name`: that of its latest insertion.
pub open spec fn lookup_index(m: IndexTable, name: Seq<char>) -> Option<u32>
    decreases m.len(),
{
    if m.len() == 0 {
        None
    } else if m.last().0 == name {
        Some(m.last().1)
    } else {
        lookup_index(m.drop_last(), name)
    }
}

/// The bits of the first float constant with the given digits.
pub open spec fn find_float(floats: Seq<FloatConst>, text: Seq<char>) -> Option<u32>
    decreases floats.len(),
{
    if floats.len() == 0 {
        None
    } else if floats[0].text@ == text {
        Some(floats[0].f32_bits)
    } else {
        find_float(floats.drop_first(), text)
    }
}

/// The four little-endian bytes of `x`.
pub open spec fn le_bytes(x: u32) -> Seq<u8> {
    seq![(x % 256) as u8, ((x / 256) % 256) as u8, ((x / 65536) % 256) as u8, ((x / 16777216) % 256) as u8]
}

/// The value type byte of a Nova type (`bool` is `i32`; `void` has none).
pub open spec fn val_type_code(t: Type) -> u8 {
    match t {
        Type::I32 | Type::Bool => VAL_TYPE_I32,
        Type::I64 => VAL_TYPE_I64,
        Type::F32 => VAL_TYPE_F32,
        Type::F64 => VAL_TYPE_F64,
        Type::Void => 0,
    }
}

/// The 32-bit instruction of each binary operator.
pub open spec fn binop_code(op: BinaryOp) -> u8 {
    match op {
        BinaryOp::Add => I32_ADD,
        BinaryOp::Sub => I32_SUB,
        BinaryOp::Mul => I32_MUL,
        BinaryOp::Div => I32_DIV_S,
        BinaryOp::Rem => I32_REM_S,
        BinaryOp::Eq => I32_EQ,
        BinaryOp::Ne => I32_NE,
        BinaryOp::Lt => I32_LT_S,
        BinaryOp::Le => I32_LE_S,
        BinaryOp::Gt => I32_GT_S,
        BinaryOp::Ge => I32_GE_S,
        BinaryOp::BitAnd => I32_AND,
        BinaryOp::BitOr => I32_OR,
        BinaryOp::BitXor => I32_XOR,
        BinaryOp::Shl => I32_SHL,
        BinaryOp::Shr => I32_SHR_S,
        BinaryOp::LogicalAnd => I32_AND,
        BinaryOp::LogicalOr => I32_OR,
    }
}

/// Every binary operator is compiled to the WebAssembly instruction that
/// computes it: on any `i32` operands, what the instruction with the
/// emitted opcode computes is the operator's value (for `&&` and `||`, on
/// operands that are booleans, 0 or 1).
pub proof fn lemma_binop_code_meaning(op: BinaryOp, a: i32, b: i32)
    requires
        op == BinaryOp::LogicalAnd || op == BinaryOp::LogicalOr ==> (a == 0 || a == 1) && (b == 0 || b == 1),
    ensures
        i32_instruction_value(binop_code(op), a, b) == i32_binary_value(op, a, b),
{
    match op {
        BinaryOp::LogicalAnd => {
            assert((a & b) == (if a != 0 && b != 0 { 1i32 } else { 0i32 })) by (bit_vector)
                requires (a == 0 || a == 1) && (b == 0 || b == 1);
        },
        BinaryOp::LogicalOr => {
            assert((a | b) == (if a != 0 || b != 0 { 1i32 } else { 0i32 })) by (bit_vector)
                requires (a == 0 || a == 1) && (b == 0 || b == 1);
        },
        _ => {},
    }
}

/// The arithmetic operators compile to the opcodes the decoder reads back
/// as the instructions of the same name.
pub proof fn lemma_arith_code_decodes(op: BinaryOp)
    requires
        op == BinaryOp::Add || op == BinaryOp::Sub || op == BinaryOp::Mul || op == BinaryOp::Div,
    ensures
        crate::read_opcode(seq![binop_code(op)]) == (Some(match op {
            BinaryOp::Add => crate::Opcode::I32Add,
            BinaryOp::Sub => crate::Opcode::I32Sub,
            BinaryOp::Mul => crate::Opcode::I32Mul,
            _ => crate::Opcode::I32DivS,
        }), 1nat),
{
}

/// A binary expression compiles to its left operand's code, its right
/// operand's code, then one instruction that computes the operator on the
/// two values (see `lemma_binop_code_meaning`).
pub proof fn lemma_binary_expression_code(funcs: IndexTable, locals: IndexTable, floats: Seq<FloatConst>, strs: IndexTable,
    op: BinaryOp, left: Expression, right: Expression, span: Span, a: i32, b: i32)
    requires
        code_expr(funcs, locals, floats, strs, Expression::Binary { op, left: Box::new(left), right: Box::new(right), span }) is Some,
        op == BinaryOp::LogicalAnd || op == BinaryOp::LogicalOr ==> (a == 0 || a == 1) && (b == 0 || b == 1),
    ensures
        ({
            let c = code_expr(funcs, locals, floats, strs, Expression::Binary { op, left: Box::new(left), right: Box::new(right), span })->0;
            &&& c == code_expr(funcs, locals, floats, strs, left)->0 + code_expr(funcs, locals, floats, strs, right)->0 + seq![c.last()]
            &&& i32_instruction_value(c.last(), a, b) == i32_binary_value(op, a, b)
        }),
{
    let c = code_expr(funcs, locals, floats, strs, Expression::Binary { op, left: Box::new(left), right: Box::new(right), span })->0;
    assert(c.last() == binop_code(op));
    lemma_binop_code_meaning(op, a, b);
}

/// A unary expression compiles to code that computes the operator on its
/// operand's value: `-e` to `i32.const 0`, the operand's code and an
/// instruction that subtracts; `!e` to the operand's code and an instruction
/// that tests for zero.
pub proof fn lemma_unary_expression_code(funcs: IndexTable, locals: IndexTable, floats: Seq<FloatConst>, strs: IndexTable,
    op: UnaryOp, e: Expression, span: Span, a: i32)
    requires
        code_expr(funcs, locals, floats, strs, Expression::Unary { op, expr: Box::new(e), span }) is Some,
    ensures
        ({
            let c = code_expr(funcs, locals, floats, strs, Expression::Unary { op, expr: Box::new(e), span })->0;
            let ce = code_expr(funcs, locals, floats, strs, e)->0;
            match op {
                UnaryOp::Neg => {
                    &&& c == crate::instruction_bytes(crate::Opcode::I32Const(0))->0 + ce + seq![c.last()]
                    &&& i32_instruction_value(c.last(), 0, a) == Some(i32_unary_value(op, a))
                },
                UnaryOp::Not => {
                    &&& c == ce + seq![c.last()]
                    &&& i32_test_value(c.last(), a) == Some(i32_unary_value(op, a))
                },
            }
        }),
{
}

/// Loads and stores of a type move values of that type: the instruction
/// the emitter picks for a type accesses the value type the emitter gives
/// that type, and the decoder-independent table names it.
pub proof fn lemma_memory_codes(t: Type)
    ensures
        load_code(t) matches Some(b) ==> memory_instruction(b) == Some((val_type_code(t), false))
            && value_type_name(val_type_code(t)) == crate::ast::type_text(t),
        store_code(t) matches Some(b) ==> memory_instruction(b) == Some((val_type_code(t), true)),
{
}

/// The section identifiers and export descriptors the emitter writes are
/// the ones the decoder reads as the sections and kinds of those names.
pub proof fn lemma_emitted_ids_decode()
    ensures
        crate::section_id_of(SECTION_TYPE) == Some(crate::SectionId::Type),
        crate::section_id_of(SECTION_IMPORT) == Some(crate::SectionId::Import),
        crate::section_id_of(SECTION_FUNCTION) == Some(crate::SectionId::Function),
        crate::section_id_of(SECTION_MEMORY) == Some(crate::SectionId::Memory),
        crate::section_id_of(SECTION_EXPORT) == Some(crate::SectionId::Export),
        crate::section_id_of(SECTION_CODE) == Some(crate::SectionId::Code),
        crate::section_id_of(SECTION_DATA) == Some(crate::SectionId::Data),
        crate::export_kind_of(EXPORT_DESC_FUNC) == Some(crate::ExportKind::Func),
        crate::export_kind_of(EXPORT_DESC_MEM) == Some(crate::ExportKind::Memory),
{
}

/// Atoms compile to the instructions of their meaning, in the standard
/// encoding the decoder reads back (`crate::lemma_decode_instruction`): an
/// integer literal to `i32.const` of its low 32 bits, a boolean to
/// `i32.const` 1 or 0, a string to `i32.const` of its address, a variable to
/// `local.get` of its slot, a call to its arguments then `call` of the
/// callee's index.
pub proof fn lemma_atom_instructions(funcs: IndexTable, locals: IndexTable, floats: Seq<FloatConst>, strs: IndexTable, e: Expression)
    ensures
        e matches Expression::LiteralInt(v, _) ==> code_expr(funcs, locals, floats, strs, e)
            == crate::instruction_bytes(crate::Opcode::I32Const(#[verifier::truncate] (v as i32))),
        e matches Expression::LiteralBool(b, _) ==> code_expr(funcs, locals, floats, strs, e)
            == crate::instruction_bytes(crate::Opcode::I32Const(if b { 1i32 } else { 0i32 })),
        e matches Expression::LiteralString(text, _) ==> (lookup_index(strs, text@) matches Some(a)
            ==> code_expr(funcs, locals, floats, strs, e) == crate::instruction_bytes(crate::Opcode::I32Const(#[verifier::truncate] (a as i32)))),
        e matches Expression::Variable(name, _) ==> (lookup_index(locals, name@) matches Some(i)
            ==> code_expr(funcs, locals, floats, strs, e) == crate::instruction_bytes(crate::Opcode::LocalGet(i))),
        e matches Expression::Call { callee, args, .. } ==> match (lookup_index(funcs, callee@), code_args(funcs, locals, floats, strs, args@)) {
            (Some(f), Some(ca)) => code_expr(funcs, locals, floats, strs, e) == Some(ca + crate::instruction_bytes(crate::Opcode::Call(f))->0),
            _ => true,
        },
{
    if let Expression::Call { callee, args, .. } = e {
        if let (Some(f), Some(ca)) = (lookup_index(funcs, callee@), code_args(funcs, locals, floats, strs, args@)) {
            assert(ca + seq![CALL] + uleb128(f as nat) =~= ca + (seq![0x10u8] + uleb128(f as nat)));
        }
    }
}

/// Statements compile to the instructions of their meaning, in the standard
/// encoding: a `let` or an assignment stores its value with `local.set` of
/// the variable's slot; `return` ends with `return`; `break` is `br` to the
/// innermost loop's exit block; an expression statement that leaves a value
/// ends with `drop`; `while` is `block`, `loop`, the condition, `i32.eqz`,
/// `br_if 1`, the body, `br 0`, `end`, `end`; `if` is the condition, `if`,
/// the branches separated by `else`, `end`.
pub proof fn lemma_statement_instructions(funcs: IndexTable, rets: ResultTable, locals: IndexTable, floats: Seq<FloatConst>,
    strs: IndexTable, stack: Seq<BlockKind>, st: Statement)
    requires
        code_stmt(funcs, rets, locals, floats, strs, stack, st) is Some,
    ensures
        ({
            let c = code_stmt(funcs, rets, locals, floats, strs, stack, st)->0;
            let code = |e: Expression| code_expr(funcs, locals, floats, strs, e)->0;
            let ins = |o: crate::Opcode| crate::instruction_bytes(o)->0;
            match st {
                Statement::Let { name, init, .. } => c == code(init) + ins(crate::Opcode::LocalSet(lookup_index(locals, name@)->0)),
                Statement::Assignment { target, value, .. } => c == code(value) + ins(crate::Opcode::LocalSet(lookup_index(locals, target@)->0)),
                Statement::Return { value, .. } => c == match value { Some(e) => code(e), None => Seq::empty() } + ins(crate::Opcode::Return),
                Statement::Break(_) => c == ins(crate::Opcode::Br((loop_exit_depth(stack)->0) as u32)),
                Statement::Expr { expr, .. } => c == code(expr) + if leaves_value(rets, expr) { ins(crate::Opcode::Drop) } else { Seq::empty() },
                Statement::While { condition, body, .. } => c == ins(crate::Opcode::Block) + seq![BLOCK_EMPTY] + ins(crate::Opcode::Loop)
                    + seq![BLOCK_EMPTY] + code(condition) + seq![c[(4 + code(condition).len()) as int]] + ins(crate::Opcode::BrIf(1))
                    + code_stmts(funcs, rets, locals, floats, strs, stack.push(BlockKind::LoopExit).push(BlockKind::LoopHead), body.statements@)->0
                    + ins(crate::Opcode::Br(0)) + ins(crate::Opcode::End) + ins(crate::Opcode::End)
                    && i32_test_value(c[(4 + code(condition).len()) as int], 0) == Some(1i32)
                    && i32_test_value(c[(4 + code(condition).len()) as int], 1) == Some(0i32),
                Statement::If { condition, then_branch, else_branch, .. } => {
                    let inner = stack.push(BlockKind::If);
                    let t = code_stmts(funcs, rets, locals, floats, strs, inner, then_branch.statements@)->0;
                    c == code(condition) + ins(crate::Opcode::If) + seq![BLOCK_EMPTY] + t + match else_branch {
                        Some(b) => ins(crate::Opcode::Else) + code_stmts(funcs, rets, locals, floats, strs, inner, b.statements@)->0,
                        None => Seq::empty(),
                    } + ins(crate::Opcode::End)
                },
                _ => true,
            }
        }),
{
    let c = code_stmt(funcs, rets, locals, floats, strs, stack, st)->0;
    match st {
        Statement::While { condition, body, .. } => {
            let cc = code_expr(funcs, locals, floats, strs, condition)->0;
            assert(c[(4 + cc.len()) as int] == I32_EQZ);
            assert(c =~= seq![BLOCK, BLOCK_EMPTY, LOOP, BLOCK_EMPTY] + cc + seq![I32_EQZ] + (seq![BR_IF] + uleb128(1))
                + code_stmts(funcs, rets, locals, floats, strs, stack.push(BlockKind::LoopExit).push(BlockKind::LoopHead), body.statements@)->0
                + (seq![BR] + uleb128(0)) + seq![END] + seq![END]);
        },
        Statement::Return { value, .. } => {
            if value is None {
                assert(c =~= Seq::<u8>::empty() + seq![RETURN]);
            }
        },
        Statement::Expr { expr, .. } => {
            if !leaves_value(rets, expr) {
                assert(c =~= c + Seq::<u8>::empty());
            }
        },
        Statement::If { else_branch, .. } => {
            if else_branch is None {
                assert(c =~= c.subrange(0, c.len() - 1) + Seq::<u8>::empty() + seq![END]);
            }
        },
        _ => {},
    }
}

/// The load instruction of a type, if it has one.
pub open spec fn load_code(t: Type) -> Option<u8> {
    match t {
        Type::I32 => Some(I32_LOAD),
        Type::I64 => Some(I64_LOAD),
        Type::F32 => Some(F32_LOAD),
        Type::F64 => Some(F64_LOAD),
        _ => None,
    }
}

/// The store instruction of a type, if it has one.
pub open spec fn store_code(t: Type) -> Option<u8> {
    match t {
        Type::I32 => Some(I32_STORE),
        Type::I64 => Some(I64_STORE),
        Type::F32 => Some(F32_STORE),
        Type::F64 => Some(F64_STORE),
        _ => None,
    }
}

/// The instructions that compute an expression, given the function and
/// local index tables and the float constants; nothing when an expression
/// cannot be compiled (an unknown name, a string literal, a float without a
/// constant, a load of `bool` or `void`). Integer literals are truncated to
/// 32 bits; every operator is the 32-bit signed instruction.
pub open spec fn code_expr(funcs: IndexTable, locals: IndexTable, floats: Seq<FloatConst>, strs: IndexTable, e: Expression) -> Option<Seq<u8>>
    decreases e,
{
    match e {
        Expression::LiteralInt(v, _) => Some(seq![I32_CONST] + sleb128(v as i32 as int)),
        Expression::LiteralFloat(text, _) => match find_float(floats, text@) {
            Some(bits) => Some(seq![F32_CONST] + le_bytes(bits)),
            None => None,
        },
        Expression::LiteralBool(b, _) => Some(seq![I32_CONST] + sleb128(if b { 1 } else { 0 })),
        Expression::LiteralString(text, _) => match lookup_index(strs, text@) {
            Some(addr) => Some(seq![I32_CONST] + sleb128(addr as i32 as int)),
            None => None,
        },
        Expression::Variable(name, _) => match lookup_index(locals, name@) {
            Some(idx) => Some(seq![LOCAL_GET] + uleb128(idx as nat)),
            None => None,
        },
        Expression::Binary { op, left, right, .. } => match (code_expr(funcs, locals, floats, strs, *left), code_expr(funcs, locals, floats, strs, *right)) {
            (Some(l), Some(r)) => Some(l + r + seq![binop_code(op)]),
            _ => None,
        },
        Expression::Unary { op, expr, .. } => match code_expr(funcs, locals, floats, strs, *expr) {
            Some(c) => match op {
                UnaryOp::Neg => Some(seq![I32_CONST] + sleb128(0) + c + seq![I32_SUB]),
                UnaryOp::Not => Some(c + seq![I32_EQZ]),
            },
            None => None,
        },
        Expression::Call { callee, args, .. } => match (code_args(funcs, locals, floats, strs, args@), lookup_index(funcs, callee@)) {
            (Some(a), Some(idx)) => Some(a + seq![CALL] + uleb128(idx as nat)),
            _ => None,
        },
        Expression::MemoryLoad { ty, ptr, offset, .. } => match (code_expr(funcs, locals, floats, strs, *ptr), load_code(ty)) {
            (Some(p), Some(op)) => Some(p + seq![op] + uleb128(2) + uleb128(offset as nat)),
            _ => None,
        },
    }
}

/// The instructions of several expressions, one after the other.
pub open spec fn code_args(funcs: IndexTable, locals: IndexTable, floats: Seq<FloatConst>, strs: IndexTable, args: Seq<Expression>) -> Option<Seq<u8>>
    decreases args,
{
    if args.len() == 0 {
        Some(Seq::empty())
    } else {
        match (code_expr(funcs, locals, floats, strs, args[0]), code_args(funcs, locals, floats, strs, args.drop_first())) {
            (Some(a), Some(b)) => Some(a + b),
            _ => None,
        }
    }
}

/// The string literals of an expression, in evaluation order.
pub open spec fn expr_strings(e: Expression) -> Seq<Seq<char>>
    decreases e,
{
    match e {
        Expression::LiteralString(text, _) => seq![text@],
        Expression::Binary { left, right, .. } => expr_strings(*left) + expr_strings(*right),
        Expression::Unary { expr, .. } => expr_strings(*expr),
        Expression::Call { args, .. } => args_strings(args@),
        Expression::MemoryLoad { ptr, .. } => expr_strings(*ptr),
        _ => Seq::empty(),
    }
}

/// The string literals of several expressions, in order.
pub open spec fn args_strings(args: Seq<Expression>) -> Seq<Seq<char>>
    decreases args,
{
    if args.len() == 0 {
        Seq::empty()
    } else {
        expr_strings(args[0]) + args_strings(args.drop_first())
    }
}

/// The string literals of a statement, in order.
pub open spec fn stmt_strings(st: Statement) -> Seq<Seq<char>>
    decreases st,
{
    match st {
        Statement::Let { init, .. } => expr_strings(init),
        Statement::Assignment { value, .. } => expr_strings(value),
        Statement::MemoryStore { ptr, value, .. } => expr_strings(ptr) + expr_strings(value),
        Statement::If { condition, then_branch, else_branch, .. } => expr_strings(condition)
            + stmts_strings(then_branch.statements@) + match else_branch {
                Some(b) => stmts_strings(b.statements@),
                None => Seq::empty(),
            },
        Statement::While { condition, body, .. } => expr_strings(condition) + stmts_strings(body.statements@),
        Statement::Return { value, .. } => match value {
            Some(e) => expr_strings(e),
            None => Seq::empty(),
        },
        Statement::Break(_) => Seq::empty(),
        Statement::Expr { expr, .. } => expr_strings(expr),
    }
}

/// The string literals of several statements, in order.
pub open spec fn stmts_strings(s: Seq<Statement>) -> Seq<Seq<char>>
    decreases s,
{
    if s.len() == 0 {
        Seq::empty()
    } else {
        stmt_strings(s[0]) + stmts_strings(s.drop_first())
    }
}

/// The string literals of functions, in order.
pub open spec fn functions_strings(fs: Seq<Function>) -> Seq<Seq<char>>
    decreases fs.len(),
{
    if fs.len() == 0 {
        Seq::empty()
    } else {
        functions_strings(fs.drop_last()) + stmts_strings(fs.last().body.statements@)
    }
}

/// The first address of the linear heap: string data lies below it.
pub const STATIC_DATA_END: u32 = 0x400;

/// Where strings lie in linear memory: each distinct string once, in order
/// of first appearance, from address 0, each followed by a zero byte. The
/// table of addresses and the first free address.
pub open spec fn layout_strings(ss: Seq<Seq<char>>) -> (IndexTable, nat)
    decreases ss.len(),
{
    if ss.len() == 0 {
        (Seq::empty(), 0)
    } else {
        let (t, next) = layout_strings(ss.drop_last());
        if lookup_index(t, ss.last()) is Some {
            (t, next)
        } else {
            (t.push((ss.last(), next as u32)), next + vstd::utf8::encode_utf8(ss.last()).len() + 1)
        }
    }
}

/// The bytes of the strings of a table, in order, each followed by a zero
/// byte.
pub open spec fn string_data(t: IndexTable) -> Seq<u8>
    decreases t.len(),
{
    if t.len() == 0 {
        Seq::empty()
    } else {
        string_data(t.drop_last()) + vstd::utf8::encode_utf8(t.last().0) + seq![0u8]
    }
}

/// The data section: one segment at address 0 in memory 0 holding the
/// string data; none when there is no string.
pub open spec fn data_section(t: IndexTable) -> Seq<u8> {
    if t.len() == 0 {
        Seq::empty()
    } else {
        let d = string_data(t);
        section(SECTION_DATA, uleb128(1) + seq![0x00u8, I32_CONST] + sleb128(0) + seq![END]
            + uleb128((d.len() as u32) as nat) + d)
    }
}

/// The kind of an open block while a function body is compiled.
#[derive(Debug, Clone, Copy, PartialEq, Eq, Structural)]
pub enum BlockKind {
    LoopExit,
    LoopHead,
    If,
}

/// How many blocks lie above the innermost loop exit block, if any.
pub open spec fn loop_exit_depth(stack: Seq<BlockKind>) -> Option<nat>
    decreases stack.len(),
{
    if stack.len() == 0 {
        None
    } else if stack.last() == BlockKind::LoopExit {
        Some(0)
    } else {
        match loop_exit_depth(stack.drop_last()) {
            Some(d) => Some(d + 1),
            None => None,
        }
    }
}

/// The result types of the callable functions, by name, in insertion order.
pub type ResultTable = Seq<(Seq<char>, Type)>;

/// The result type a table gives `name`: that of its latest insertion.
pub open spec fn lookup_result(t: ResultTable, name: Seq<char>) -> Option<Type>
    decreases t.len(),
{
    if t.len() == 0 {
        None
    } else if t.last().0 == name {
        Some(t.last().1)
    } else {
        lookup_result(t.drop_last(), name)
    }
}

/// Whether an expression leaves a value on the stack: every expression but
/// a call of a function whose result type is `void`.
pub open spec fn leaves_value(rets: ResultTable, e: Expression) -> bool {
    match e {
        Expression::Call { callee, .. } => lookup_result(rets, callee@) != Some(Type::Void),
        _ => true,
    }
}

/// The result types of functions, in order.
pub open spec fn results_of(fs: Seq<Function>) -> ResultTable {
    fs.map_values(|f: Function| (f.name@, f.return_type))
}

/// The result types of everything a program can call: its imports, then
/// its functions.
pub open spec fn program_results(p: Program) -> ResultTable {
    p.imports@.map_values(|i: crate::ast::ImportFunc| (i.name@, i.return_type)) + results_of(p.functions@)
}

/// The result table of everything a program can call.
pub(crate) fn program_result_table(p: &Program) -> (r: Vec<(String, Type)>)
    ensures
        results_view(r@) == program_results(*p),
{
    let mut r: Vec<(String, Type)> = Vec::new();
    let mut i: usize = 0;
    while i < p.imports.len()
        invariant
            i <= p.imports@.len(),
            results_view(r@) == p.imports@.take(i as int).map_values(|x: crate::ast::ImportFunc| (x.name@, x.return_type)),
        decreases p.imports@.len() - i,
    {
        let ghost prev = results_view(r@);
        r.push((p.imports[i].name.clone(), p.imports[i].return_type));
        assert(results_view(r@) =~= prev.push((p.imports@[i as int].name@, p.imports@[i as int].return_type)));
        assert(p.imports@.take(i + 1) =~= p.imports@.take(i as int).push(p.imports@[i as int]));
        assert(results_view(r@) =~= p.imports@.take(i + 1).map_values(|x: crate::ast::ImportFunc| (x.name@, x.return_type)));
        i = i + 1;
    }
    assert(p.imports@.take(i as int) =~= p.imports@);
    let ghost head = results_view(r@);
    let mut j: usize = 0;
    while j < p.functions.len()
        invariant
            j <= p.functions@.len(),
            results_view(r@) == head + results_of(p.functions@.take(j as int)),
        decreases p.functions@.len() - j,
    {
        let ghost prev = results_view(r@);
        r.push((p.functions[j].name.clone(), p.functions[j].return_type));
        assert(results_view(r@) =~= prev.push((p.functions@[j as int].name@, p.functions@[j as int].return_type)));
        assert(p.functions@.take(j + 1) =~= p.functions@.take(j as int).push(p.functions@[j as int]));
        assert(results_of(p.functions@.take(j + 1)) =~= results_of(p.functions@.take(j as int)).push((p.functions@[j as int].name@, p.functions@[j as int].return_type)));
        assert(results_view(r@) =~= head + results_of(p.functions@.take(j + 1)));
        j = j + 1;
    }
    assert(p.functions@.take(j as int) =~= p.functions@);
    r
}

/// The instructions of a statement, with `stack` the open blocks. `while`
/// is a `block`/`loop` pair that exits when the condition is zero; `break`
/// branches to the innermost loop's exit block; an expression statement
/// drops the value it leaves, if any.
pub open spec fn code_stmt(funcs: IndexTable, rets: ResultTable, locals: IndexTable, floats: Seq<FloatConst>, strs: IndexTable, stack: Seq<BlockKind>, st: Statement) -> Option<Seq<u8>>
    decreases st,
{
    match st {
        Statement::Let { name, init, .. } => match (lookup_index(locals, name@), code_expr(funcs, locals, floats, strs, init)) {
            (Some(idx), Some(c)) => Some(c + seq![LOCAL_SET] + uleb128(idx as nat)),
            _ => None,
        },
        Statement::Assignment { target, value, .. } => match (lookup_index(locals, target@), code_expr(funcs, locals, floats, strs, value)) {
            (Some(idx), Some(c)) => Some(c + seq![LOCAL_SET] + uleb128(idx as nat)),
            _ => None,
        },
        Statement::MemoryStore { ty, ptr, offset, value, .. } =>
            match (code_expr(funcs, locals, floats, strs, ptr), code_expr(funcs, locals, floats, strs, value), store_code(ty)) {
                (Some(p), Some(v), Some(op)) => Some(p + v + seq![op] + uleb128(2) + uleb128(offset as nat)),
                _ => None,
            },
        Statement::If { condition, then_branch, else_branch, .. } => {
            let inner = stack.push(BlockKind::If);
            match (code_expr(funcs, locals, floats, strs, condition), code_stmts(funcs, rets, locals, floats, strs, inner, then_branch.statements@)) {
                (Some(c), Some(t)) => match else_branch {
                    Some(b) => match code_stmts(funcs, rets, locals, floats, strs, inner, b.statements@) {
                        Some(e) => Some(c + seq![IF, BLOCK_EMPTY] + t + seq![ELSE] + e + seq![END]),
                        None => None,
                    },
                    None => Some(c + seq![IF, BLOCK_EMPTY] + t + seq![END]),
                },
                _ => None,
            }
        },
        Statement::While { condition, body, .. } => {
            let inner = stack.push(BlockKind::LoopExit).push(BlockKind::LoopHead);
            match (code_expr(funcs, locals, floats, strs, condition), code_stmts(funcs, rets, locals, floats, strs, inner, body.statements@)) {
                (Some(c), Some(b)) => Some(seq![BLOCK, BLOCK_EMPTY, LOOP, BLOCK_EMPTY] + c + seq![I32_EQZ, BR_IF] + uleb128(1)
                    + b + seq![BR] + uleb128(0) + seq![END, END]),
                _ => None,
            }
        },
        Statement::Return { value, .. } => match value {
            Some(e) => match code_expr(funcs, locals, floats, strs, e) {
                Some(c) => Some(c + seq![RETURN]),
                None => None,
            },
            None => Some(seq![RETURN]),
        },
        Statement::Break(_) => match loop_exit_depth(stack) {
            Some(d) => Some(seq![BR] + uleb128((d as u32) as nat)),
            None => None,
        },
        Statement::Expr { expr, .. } => match code_expr(funcs, locals, floats, strs, expr) {
            Some(c) => if leaves_value(rets, expr) { Some(c + seq![DROP]) } else { Some(c) },
            None => None,
        },
    }
}

/// The instructions of statements, one after the other.
pub open spec fn code_stmts(funcs: IndexTable, rets: ResultTable, locals: IndexTable, floats: Seq<FloatConst>, strs: IndexTable, stack: Seq<BlockKind>, s: Seq<Statement>) -> Option<Seq<u8>>
    decreases s,
{
    if s.len() == 0 {
        Some(Seq::empty())
    } else {
        match (code_stmt(funcs, rets, locals, floats, strs, stack, s[0]), code_stmts(funcs, rets, locals, floats, strs, stack, s.drop_first())) {
            (Some(a), Some(b)) => Some(a + b),
            _ => None,
        }
    }
}

/// The locals that `let` declares in a block, nested blocks included, in
/// order of appearance; a `let` without a type gets `i32`.
pub open spec fn let_locals(s: Seq<Statement>) -> Seq<(Seq<char>, Type)>
    decreases s,
{
    if s.len() == 0 {
        Seq::empty()
    } else {
        let first = match s[0] {
            Statement::Let { name, ty, .. } => seq![(name@, match ty { Some(t) => t, None => Type::I32 })],
            Statement::If { then_branch, else_branch, .. } => let_locals(then_branch.statements@) + match else_branch {
                Some(b) => let_locals(b.statements@),
                None => Seq::empty(),
            },
            Statement::While { body, .. } => let_locals(body.statements@),
            _ => Seq::empty(),
        };
        first + let_locals(s.drop_first())
    }
}

/// The local index table of a function: parameters first, then the locals
/// that `let` declares, numbered from 0 in that order.
pub open spec fn local_table(f: Function) -> IndexTable {
    let ps = f.params@;
    let lets = let_locals(f.body.statements@);
    Seq::new(ps.len(), |i: int| (ps[i].name@, i as u32))
        + Seq::new(lets.len(), |j: int| (lets[j].0, (ps.len() + j) as u32))
}

/// Whether every assignment in `s`, nested blocks included, targets a name
/// of the table.
pub open spec fn assigns_resolved(table: IndexTable, s: Seq<Statement>) -> bool
    decreases s,
{
    if s.len() == 0 {
        true
    } else {
        let first = match s[0] {
            Statement::Assignment { target, .. } => lookup_index(table, target@) is Some,
            Statement::If { then_branch, else_branch, .. } => assigns_resolved(table, then_branch.statements@) && match else_branch {
                Some(b) => assigns_resolved(table, b.statements@),
                None => true,
            },
            Statement::While { body, .. } => assigns_resolved(table, body.statements@),
            _ => true,
        };
        first && assigns_resolved(table, s.drop_first())
    }
}

/// Whether a function can be lowered: no parameter and no local is `void`,
/// its locals can be numbered in 32 bits, and every assignment targets a
/// parameter or a local.
pub open spec fn function_ready(f: Function) -> bool {
    let lets = let_locals(f.body.statements@);
    &&& forall|i: int| 0 <= i < f.params@.len() ==> #[trigger] f.params@[i].ty != Type::Void
    &&& forall|j: int| 0 <= j < lets.len() ==> #[trigger] lets[j].1 != Type::Void
    &&& f.params@.len() + lets.len() <= u32::MAX
    &&& assigns_resolved(local_table(f), f.body.statements@)
}

/// Whether an import can be declared: none of its parameters is `void`.
pub open spec fn import_ready(imp: ImportFunc) -> bool {
    forall|q: int| 0 <= q < imp.params@.len() ==> #[trigger] imp.params@[q].ty != Type::Void
}

/// Whether a program can be lowered: its imports and functions can be
/// numbered in 32 bits, every import can be declared and every function
/// can be lowered.
pub open spec fn emit_ready(p: Program) -> bool {
    &&& p.imports@.len() + p.functions@.len() <= u32::MAX
    &&& forall|i: int| 0 <= i < p.imports@.len() ==> #[trigger] import_ready(p.imports@[i])
    &&& forall|i: int| 0 <= i < p.functions@.len() ==> #[trigger] function_ready(p.functions@[i])
}

/// The local declarations of a function header: one group of one local per
/// `let`, with its value type.
pub open spec fn locals_decl(lets: Seq<(Seq<char>, Type)>) -> Seq<u8>
    decreases lets.len(),
{
    if lets.len() == 0 {
        Seq::empty()
    } else {
        locals_decl(lets.drop_last()) + uleb128(1) + seq![val_type_code(lets.last().1)]
    }
}

/// The body of a function in the code section: its local declarations, its
/// statements and `end`.
pub open spec fn function_body(funcs: IndexTable, rets: ResultTable, floats: Seq<FloatConst>, strs: IndexTable, f: Function) -> Option<Seq<u8>> {
    let lets = let_locals(f.body.statements@);
    match code_stmts(funcs, rets, local_table(f), floats, strs, Seq::empty(), f.body.statements@) {
        Some(c) => Some(uleb128((lets.len() as u32) as nat) + locals_decl(lets) + c + seq![END]),
        None => None,
    }
}

/// The value types of parameters.
pub open spec fn param_codes(ps: Seq<Param>) -> Seq<u8>
    decreases ps.len(),
{
    if ps.len() == 0 {
        Seq::empty()
    } else {
        param_codes(ps.drop_last()) + seq![val_type_code(ps.last().ty)]
    }
}

/// A type section entry: the parameter types, then no result for `void`
/// or one result.
pub open spec fn sig_type_entry(ps: Seq<Param>, ret: Type) -> Seq<u8> {
    seq![FUNC_TYPE] + uleb128((ps.len() as u32) as nat) + param_codes(ps)
        + if ret == Type::Void { uleb128(0) } else { uleb128(1) + seq![val_type_code(ret)] }
}

/// A function's entry in the type section.
pub open spec fn func_type_entry(f: Function) -> Seq<u8> {
    sig_type_entry(f.params@, f.return_type)
}

/// The type section entries of imports, one per import.
pub open spec fn import_type_entries(is: Seq<ImportFunc>) -> Seq<u8>
    decreases is.len(),
{
    if is.len() == 0 {
        Seq::empty()
    } else {
        import_type_entries(is.drop_last()) + sig_type_entry(is.last().params@, is.last().return_type)
    }
}

/// A name as the binary format writes it: UTF-8 length, then the bytes.
pub open spec fn name_entry(s: Seq<char>) -> Seq<u8> {
    let bytes = vstd::utf8::encode_utf8(s);
    uleb128(((bytes.len() as usize) as u32) as nat) + bytes
}

/// An import's entry in the import section: module and field names, the
/// function descriptor and its type index.
pub open spec fn import_entry(imp: ImportFunc, idx: u32) -> Seq<u8> {
    name_entry(imp.module@) + name_entry(imp.field@) + seq![IMPORT_DESC_FUNC] + uleb128(idx as nat)
}

/// The import section entries: import `i` has type `i`.
pub open spec fn import_entries(is: Seq<ImportFunc>) -> Seq<u8>
    decreases is.len(),
{
    if is.len() == 0 {
        Seq::empty()
    } else {
        import_entries(is.drop_last()) + import_entry(is.last(), ((is.len() - 1) as nat) as u32)
    }
}

/// The type section entries, one per function.
pub open spec fn type_entries(fs: Seq<Function>) -> Seq<u8>
    decreases fs.len(),
{
    if fs.len() == 0 {
        Seq::empty()
    } else {
        type_entries(fs.drop_last()) + func_type_entry(fs.last())
    }
}

/// The function section entries: function `i` has type `base + i`.
pub open spec fn function_entries(base: nat, n: nat) -> Seq<u8>
    decreases n,
{
    if n == 0 {
        Seq::empty()
    } else {
        function_entries(base, (n - 1) as nat) + uleb128((((base + n - 1) as nat) as u32) as nat)
    }
}

/// The memory section payload: one memory with its page limits.
pub open spec fn memory_payload(initial: u32, max: Option<u32>) -> Seq<u8> {
    uleb128(1) + match max {
        Some(m) => seq![0x01u8] + uleb128(initial as nat) + uleb128(m as nat),
        None => seq![0x00u8] + uleb128(initial as nat),
    }
}

/// The exported functions, each with its index, `base` the index of the
/// first function.
pub open spec fn function_exports(fs: Seq<Function>, base: nat) -> Seq<(Seq<char>, u8, u32)>
    decreases fs.len(),
{
    if fs.len() == 0 {
        Seq::empty()
    } else {
        function_exports(fs.drop_last(), base) + if fs.last().is_export {
            seq![(fs.last().name@, EXPORT_DESC_FUNC, ((base + fs.len() - 1) as nat) as u32)]
        } else {
            Seq::empty()
        }
    }
}

/// All exports of a program: each exported function with its index (after
/// the imports), then the memory as "memory" unless a memory declaration
/// says it is not exported.
pub open spec fn export_list(p: Program) -> Seq<(Seq<char>, u8, u32)> {
    let export_mem = match p.memory {
        Some(m) => m.is_export,
        None => true,
    };
    function_exports(p.functions@, p.imports@.len()) + if export_mem { seq![("memory"@, EXPORT_DESC_MEM, 0u32)] } else { Seq::empty() }
}

/// The encoding of one export: length-prefixed UTF-8 name, descriptor, index.
pub open spec fn export_entry(e: (Seq<char>, u8, u32)) -> Seq<u8> {
    let bytes = vstd::utf8::encode_utf8(e.0);
    uleb128(((bytes.len() as usize) as u32) as nat) + bytes + seq![e.1] + uleb128(e.2 as nat)
}

/// The encodings of exports, one after the other.
pub open spec fn export_entries(es: Seq<(Seq<char>, u8, u32)>) -> Seq<u8>
    decreases es.len(),
{
    if es.len() == 0 {
        Seq::empty()
    } else {
        export_entries(es.drop_last()) + export_entry(es.last())
    }
}

/// An export with its descriptor byte read as the decoder reads it.
pub open spec fn decoded_export(e: (Seq<char>, u8, u32)) -> (Seq<char>, crate::ExportKind, u32) {
    (e.0, crate::export_kind_of(e.1)->0, e.2)
}

/// Exports the decoder can read back: descriptors it knows, names whose
/// UTF-8 length fits in 32 bits.
pub open spec fn exports_readable(es: Seq<(Seq<char>, u8, u32)>) -> bool {
    forall|i: int| 0 <= i < es.len() ==> {
        &&& crate::export_kind_of(#[trigger] es[i].1) is Some
        &&& vstd::utf8::encode_utf8(es[i].0).len() <= u32::MAX
    }
}

#[verifier::spinoff_prover]
#[verifier::rlimit(40)]
proof fn lemma_export_entry_read(e: (Seq<char>, u8, u32), rest: Seq<u8>)
    requires
        crate::export_kind_of(e.1) is Some,
        vstd::utf8::encode_utf8(e.0).len() <= u32::MAX,
    ensures
        crate::read_export_entry(export_entry(e) + rest) == (Some(decoded_export(e)), export_entry(e).len()),
{
    let bytes = vstd::utf8::encode_utf8(e.0);
    let l: u32 = ((bytes.len() as usize) as u32);
    assert(l as nat == bytes.len());
    let tail = bytes + seq![e.1] + uleb128(e.2 as nat) + rest;
    let s = export_entry(e) + rest;
    assert(s =~= uleb128(l as nat) + tail);
    lemma_uleb32_roundtrip(l, tail);
    let n1 = uleb128(l as nat).len();
    let s1 = s.subrange(n1 as int, s.len() as int);
    assert(s1 =~= tail);
    assert(s1.subrange(0, l as int) =~= bytes);
    vstd::utf8::encode_utf8_valid_utf8(e.0);
    vstd::utf8::encode_utf8_decode_utf8(e.0);
    assert(s1[l as int] == e.1);
    assert(s1.subrange(l + 1, s1.len() as int) =~= uleb128(e.2 as nat) + rest);
    lemma_uleb32_roundtrip(e.2, rest);
}

proof fn lemma_export_entries_front(es: Seq<(Seq<char>, u8, u32)>)
    requires
        es.len() > 0,
    ensures
        export_entries(es) == export_entry(es[0]) + export_entries(es.drop_first()),
    decreases es.len(),
{
    if es.len() == 1 {
        assert(es.drop_last().len() == 0);
        assert(es.drop_first().len() == 0);
        assert(export_entries(es.drop_last()) == Seq::<u8>::empty());
        assert(export_entries(es.drop_first()) == Seq::<u8>::empty());
        assert(es.last() == es[0]);
        assert(export_entries(es) =~= export_entry(es[0]) + export_entries(es.drop_first()));
    } else {
        lemma_export_entries_front(es.drop_last());
        assert(es.drop_last().drop_first() =~= es.drop_first().drop_last());
        assert(es.drop_first().last() == es.last());
        assert(export_entries(es) =~= export_entry(es[0]) + export_entries(es.drop_first()));
    }
}

#[verifier::spinoff_prover]
#[verifier::rlimit(60)]
proof fn lemma_export_entries_read(es: Seq<(Seq<char>, u8, u32)>, rest: Seq<u8>)
    requires
        exports_readable(es),
    ensures
        crate::read_export_entries(export_entries(es) + rest, es.len())
            == (Some(es.map_values(|e: (Seq<char>, u8, u32)| decoded_export(e))), export_entries(es).len()),
    decreases es.len(),
{
    if es.len() == 0 {
        assert(es.map_values(|e: (Seq<char>, u8, u32)| decoded_export(e)) =~= seq![]);
    } else {
        lemma_export_entries_front(es);
        let first = export_entry(es[0]);
        let more = export_entries(es.drop_first());
        let s = export_entries(es) + rest;
        assert(s =~= first + (more + rest));
        assert(crate::export_kind_of(es[0].1) is Some);
        lemma_export_entry_read(es[0], more + rest);
        assert(exports_readable(es.drop_first())) by {
            assert forall|i: int| 0 <= i < es.drop_first().len() implies {
                &&& crate::export_kind_of(#[trigger] es.drop_first()[i].1) is Some
                &&& vstd::utf8::encode_utf8(es.drop_first()[i].0).len() <= u32::MAX
            } by {
                assert(es.drop_first()[i] == es[i + 1]);
                assert(crate::export_kind_of(es[i + 1].1) is Some);
            }
        }
        lemma_export_entries_read(es.drop_first(), rest);
        assert(s.subrange(first.len() as int, s.len() as int) =~= more + rest);
        assert(es.map_values(|e: (Seq<char>, u8, u32)| decoded_export(e))
            =~= seq![decoded_export(es[0])] + es.drop_first().map_values(|e: (Seq<char>, u8, u32)| decoded_export(e)));
    }
}

/// The decoder reads back the export section payload the emitter writes:
/// the same names, kinds and indices, in order, consuming exactly the
/// payload whatever follows it.
pub proof fn lemma_export_section_roundtrip(es: Seq<(Seq<char>, u8, u32)>, rest: Seq<u8>)
    requires
        es.len() <= u32::MAX,
        exports_readable(es),
    ensures
        crate::read_export_section(uleb128((es.len() as u32) as nat) + export_entries(es) + rest)
            == (Some(es.map_values(|e: (Seq<char>, u8, u32)| decoded_export(e))),
                uleb128((es.len() as u32) as nat).len() + export_entries(es).len()),
{
    let n: u32 = es.len() as u32;
    let tail = export_entries(es) + rest;
    let s = uleb128(n as nat) + export_entries(es) + rest;
    assert(s =~= uleb128(n as nat) + tail);
    lemma_uleb32_roundtrip(n, tail);
    assert(s.subrange(uleb128(n as nat).len() as int, s.len() as int) =~= tail);
    lemma_export_entries_read(es, rest);
}

proof fn lemma_encode_utf8_len(s: Seq<char>)
    ensures
        vstd::utf8::encode_utf8(s).len() <= 4 * s.len(),
    decreases s.len(),
{
    if s.len() > 0 {
        lemma_encode_utf8_len(s.drop_first());
    }
}

proof fn lemma_function_exports_readable(fs: Seq<Function>, base: nat)
    requires
        forall|j: int| 0 <= j < fs.len() ==> vstd::utf8::encode_utf8(#[trigger] fs[j].name@).len() <= u32::MAX,
    ensures
        exports_readable(function_exports(fs, base)),
        function_exports(fs, base).len() <= fs.len(),
    decreases fs.len(),
{
    if fs.len() > 0 {
        assert forall|j: int| 0 <= j < fs.drop_last().len() implies vstd::utf8::encode_utf8(#[trigger] fs.drop_last()[j].name@).len() <= u32::MAX by {
            assert(fs.drop_last()[j] == fs[j]);
        }
        lemma_function_exports_readable(fs.drop_last(), base);
        let prev = function_exports(fs.drop_last(), base);
        let fe = function_exports(fs, base);
        assert(vstd::utf8::encode_utf8(fs[fs.len() - 1].name@).len() <= u32::MAX);
        assert forall|i: int| 0 <= i < fe.len() implies {
            &&& crate::export_kind_of(#[trigger] fe[i].1) is Some
            &&& vstd::utf8::encode_utf8(fe[i].0).len() <= u32::MAX
        } by {
            if i < prev.len() {
                assert(fe[i] == prev[i]);
                assert(crate::export_kind_of(prev[i].1) is Some);
            }
        }
    }
}

/// The decoder reads back the export section of every module the emitter
/// writes for `p`: each exported function under its name and index, then
/// the memory when it is exported.
pub proof fn lemma_program_exports_roundtrip(p: Program, rest: Seq<u8>)
    requires
        p.functions@.len() < u32::MAX,
        forall|j: int| 0 <= j < p.functions@.len() ==> vstd::utf8::encode_utf8(#[trigger] p.functions@[j].name@).len() <= u32::MAX,
    ensures
        ({
            let es = export_list(p);
            crate::read_export_section(uleb128((es.len() as u32) as nat) + export_entries(es) + rest)
                == (Some(es.map_values(|e: (Seq<char>, u8, u32)| decoded_export(e))),
                    uleb128((es.len() as u32) as nat).len() + export_entries(es).len())
        }),
{
    lemma_function_exports_readable(p.functions@, p.imports@.len());
    let fe = function_exports(p.functions@, p.imports@.len());
    let es = export_list(p);
    let export_mem = match p.memory {
        Some(m) => m.is_export,
        None => true,
    };
    lemma_encode_utf8_len("memory"@);
    reveal_strlit("memory");
    assert forall|i: int| 0 <= i < es.len() implies {
        &&& crate::export_kind_of(#[trigger] es[i].1) is Some
        &&& vstd::utf8::encode_utf8(es[i].0).len() <= u32::MAX
    } by {
        if i < fe.len() {
            assert(es[i] == fe[i]);
            assert(crate::export_kind_of(fe[i].1) is Some);
        } else {
            assert(export_mem);
            assert(es[i] == ("memory"@, EXPORT_DESC_MEM, 0u32));
        }
    }
    lemma_export_section_roundtrip(es, rest);
}

/// The code section entries: each function body prefixed with its size.
pub open spec fn code_entries(funcs: IndexTable, rets: ResultTable, floats: Seq<FloatConst>, strs: IndexTable, fs: Seq<Function>) -> Option<Seq<u8>>
    decreases fs.len(),
{
    if fs.len() == 0 {
        Some(Seq::empty())
    } else {
        match (code_entries(funcs, rets, floats, strs, fs.drop_last()), function_body(funcs, rets, floats, strs, fs.last())) {
            (Some(a), Some(b)) => Some(a + uleb128((b.len() as u32) as nat) + b),
            _ => None,
        }
    }
}

/// A section: identifier, payload size, payload.
pub open spec fn section(id: u8, payload: Seq<u8>) -> Seq<u8> {
    seq![id] + uleb128((payload.len() as u32) as nat) + payload
}

/// The import section of a program: none when it imports nothing.
pub open spec fn import_section(is: Seq<ImportFunc>) -> Seq<u8> {
    if is.len() == 0 {
        Seq::empty()
    } else {
        section(SECTION_IMPORT, uleb128((is.len() as u32) as nat) + import_entries(is))
    }
}

/// The decoder reads back a section the emitter writes: the size field
/// gives the payload's length, and the payload follows it, with the rest of
/// the module after. (`Decoder::read_section` is specified over exactly
/// these terms.)
pub proof fn lemma_section_roundtrip(id: u8, payload: Seq<u8>, rest: Seq<u8>)
    requires
        payload.len() <= u32::MAX,
    ensures
        ({
            let s = section(id, payload) + rest;
            let (sz, n) = crate::wasm::leb128::read_uleb32(s.subrange(1, s.len() as int));
            &&& s[0] == id
            &&& sz == Some(payload.len() as u32)
            &&& 1 + n + payload.len() <= s.len()
            &&& s.subrange(1 + n as int, (1 + n + payload.len()) as int) == payload
        }),
{
    let v = payload.len() as u32;
    let s = section(id, payload) + rest;
    lemma_uleb32_roundtrip(v, payload + rest);
    assert(s.subrange(1, s.len() as int) =~= uleb128(v as nat) + (payload + rest));
    let n = uleb128(v as nat).len();
    assert(s.subrange(1 + n as int, (1 + n + payload.len()) as int) =~= payload);
}

/// The whole module: header, then the type, import, function, memory,
/// export, code and data sections; nothing when the string data does not
/// fit below `STATIC_DATA_END`. The imports are functions `0 .. k`, the
/// program's functions follow. Without a memory declaration the module has
/// one exported page.
pub open spec fn module_bytes(funcs: IndexTable, rets: ResultTable, floats: Seq<FloatConst>, p: Program) -> Option<Seq<u8>> {
    let is = p.imports@;
    let fs = p.functions@;
    let k = is.len();
    let n = (fs.len() as u32) as nat;
    let mem = match p.memory {
        Some(m) => memory_payload(m.initial_pages, m.max_pages),
        None => memory_payload(1, None),
    };
    let es = export_list(p);
    let (strs, data_end) = layout_strings(functions_strings(fs));
    if data_end > STATIC_DATA_END {
        None
    } else {
    match code_entries(funcs, rets, floats, strs, fs) {
        Some(code) => Some(seq![0x00u8, 0x61u8, 0x73u8, 0x6Du8, 0x01u8, 0x00u8, 0x00u8, 0x00u8]
            + section(SECTION_TYPE, uleb128(((k + fs.len()) as u32) as nat) + import_type_entries(is) + type_entries(fs))
            + import_section(is)
            + section(SECTION_FUNCTION, uleb128(n) + function_entries(k, fs.len()))
            + section(SECTION_MEMORY, mem)
            + section(SECTION_EXPORT, uleb128((es.len() as u32) as nat) + export_entries(es))
            + section(SECTION_CODE, uleb128(n) + code)
            + data_section(strs)),
        None => None,
    }
    }
}

/// Every module the emitter writes starts with the magic bytes and the
/// version that the decoder checks for.
#[verifier::spinoff_prover]
#[verifier::rlimit(60)]
pub proof fn lemma_module_header(funcs: IndexTable, rets: ResultTable, floats: Seq<FloatConst>, p: Program)
    ensures
        module_bytes(funcs, rets, floats, p) matches Some(b) ==> {
            &&& b.len() >= 8
            &&& b.subrange(0, 4) == crate::wasm_magic()
            &&& b.subrange(4, 8) == crate::wasm_version()
        },
{
    if let Some(b) = module_bytes(funcs, rets, floats, p) {
        assert(b.subrange(0, 4) =~= crate::wasm_magic());
        assert(b.subrange(4, 8) =~= crate::wasm_version());
    }
}

/// The function index table of a program: import `i` under its name with
/// index `i`, then function `j` under its name with index `k + j`, `k` the
/// number of imports.
pub open spec fn program_index_table(p: Program) -> IndexTable {
    let k = p.imports@.len();
    Seq::new(k, |i: int| (p.imports@[i].name@, i as u32))
        + Seq::new(p.functions@.len(), |j: int| (p.functions@[j].name@, (k + j) as u32))
}

/// The WebAssembly binary emitter: the function index table it has built
/// and the float constants it was given.
pub struct WasmBinaryEmitter {
    functions: Vec<(String, u32)>,
    results: Vec<(String, Type)>,
    floats: Vec<FloatConst>,
    strings: Vec<(String, u32)>,
}

/// A table as plain values.
pub open spec fn table_view(v: Seq<(String, u32)>) -> IndexTable {
    v.map_values(|p: (String, u32)| (p.0@, p.1))
}

/// The local index table of a function, from its `let` locals as
/// `collect_let_locals` lists them.
fn local_index_table(func: &Function, declared: &Vec<(String, Type)>) -> (locals: Vec<(String, u32)>)
    requires
        declared@.map_values(|p: (String, Type)| (p.0@, p.1)) == let_locals(func.body.statements@),
        func.params@.len() + let_locals(func.body.statements@).len() <= u32::MAX,
    ensures
        table_view(locals@) == local_table(*func),
{
    let ghost ps = func.params@;
    let ghost lets = let_locals(func.body.statements@);
    assert(declared@.len() == lets.len());
    let mut locals: Vec<(String, u32)> = Vec::new();
    let mut local_idx: u32 = 0;
    let mut i: usize = 0;
    while i < func.params.len()
        invariant
            i <= ps.len(),
            ps == func.params@,
            ps.len() + lets.len() <= u32::MAX,
            local_idx == i,
            table_view(locals@) == Seq::new(i as nat, |k: int| (ps[k].name@, k as u32)),
        decreases ps.len() - i,
    {
        let ghost prev = table_view(locals@);
        locals.push((func.params[i].name.clone(), local_idx));
        assert(table_view(locals@) =~= prev.push((ps[i as int].name@, local_idx)));
        assert((i as int) as u32 == local_idx);
        assert(table_view(locals@).last() == (ps[i as int].name@, (i as int) as u32));
        assert(table_view(locals@) =~= Seq::new((i + 1) as nat, |k: int| (ps[k].name@, k as u32)));
        local_idx = local_idx + 1;
        i = i + 1;
    }
    let mut j: usize = 0;
    while j < declared.len()
        invariant
            j <= lets.len(),
            declared@.len() == lets.len(),
            declared@.map_values(|p: (String, Type)| (p.0@, p.1)) == lets,
            ps == func.params@,
            ps.len() + lets.len() <= u32::MAX,
            local_idx == ps.len() + j,
            table_view(locals@) == Seq::new(ps.len(), |k: int| (ps[k].name@, k as u32))
                + Seq::new(j as nat, |k: int| (lets[k].0, (ps.len() + k) as u32)),
        decreases lets.len() - j,
    {
        assert(lets[j as int] == (declared@[j as int].0@, declared@[j as int].1));
        let ghost prev = table_view(locals@);
        locals.push((declared[j].0.clone(), local_idx));
        assert(table_view(locals@) =~= prev.push((lets[j as int].0, local_idx)));
        assert((ps.len() + j) as u32 == local_idx);
        assert(table_view(locals@).last() == (lets[j as int].0, (ps.len() + j) as u32));
        assert(table_view(locals@) =~= Seq::new(ps.len(), |k: int| (ps[k].name@, k as u32))
            + Seq::new((j + 1) as nat, |k: int| (lets[k].0, (ps.len() + k) as u32)));
        local_idx = local_idx + 1;
        j = j + 1;
    }
    assert(table_view(locals@) =~= local_table(*func));
    locals
}

pub(crate) fn lookup(table: &Vec<(String, u32)>, name: &String) -> (r: Option<u32>)
    ensures
        r == lookup_index(table_view(table@), name@),
{
    let mut i = table.len();
    assert(table_view(table@).take(i as int) =~= table_view(table@));
    while i > 0
        invariant
            i <= table@.len(),
            lookup_index(table_view(table@), name@) == lookup_index(table_view(table@).take(i as int), name@),
        decreases i,
    {
        assert(table_view(table@).take(i as int).drop_last() =~= table_view(table@).take(i - 1));
        if table[i - 1].0 == *name {
            return Some(table[i - 1].1);
        }
        i = i - 1;
    }
    None
}

/// A list of strings as character sequences.
pub open spec fn strings_view(v: Seq<String>) -> Seq<Seq<char>> {
    v.map_values(|s: String| s@)
}

fn push_string(out: &mut Vec<String>, s: &String)
    ensures
        strings_view(final(out)@) == strings_view(old(out)@).push(s@),
{
    out.push(s.clone());
    assert(strings_view(final(out)@) =~= strings_view(old(out)@).push(s@));
}

fn collect_expr_strings(e: &Expression, out: &mut Vec<String>)
    ensures
        strings_view(final(out)@) == strings_view(old(out)@) + expr_strings(*e),
    decreases e,
{
    let ghost o = strings_view(out@);
    match e {
        Expression::LiteralString(text, _) => {
            push_string(out, text);
            assert(strings_view(out@) =~= o + expr_strings(*e));
        },
        Expression::Binary { left, right, .. } => {
            collect_expr_strings(left, out);
            collect_expr_strings(right, out);
            assert(strings_view(out@) =~= o + expr_strings(*e));
        },
        Expression::Unary { expr, .. } => {
            collect_expr_strings(expr, out);
        },
        Expression::MemoryLoad { ptr, .. } => {
            collect_expr_strings(ptr, out);
        },
        Expression::Call { args, .. } => {
            let mut i: usize = 0;
            assert(args@.subrange(0, args@.len() as int) =~= args@);
            assert(o =~= strings_view(out@));
            while i < args.len()
                invariant
                    i <= args@.len(),
                    *e matches Expression::Call { args: a, .. } && a == *args,
                    strings_view(out@) + args_strings(args@.subrange(i as int, args@.len() as int)) == o + args_strings(args@),
                decreases args@.len() - i,
            {
                let ghost tail = args@.subrange(i as int, args@.len() as int);
                assert(tail.drop_first() =~= args@.subrange(i + 1, args@.len() as int));
                assert(tail[0] == args@[i as int]);
                let ghost before = strings_view(out@);
                proof { assert(decreases_to!(*e => args@[i as int])); }
                collect_expr_strings(&args[i], out);
                assert(before + args_strings(tail) =~= strings_view(out@) + args_strings(args@.subrange(i + 1, args@.len() as int)));
                i = i + 1;
            }
            assert(args@.subrange(i as int, args@.len() as int) =~= Seq::<Expression>::empty());
            assert(strings_view(out@) =~= o + expr_strings(*e));
        },
        _ => {
            assert(strings_view(out@) =~= o + expr_strings(*e));
        },
    }
}

fn collect_stmts_strings(stmts: &Vec<Statement>, out: &mut Vec<String>)
    ensures
        strings_view(final(out)@) == strings_view(old(out)@) + stmts_strings(stmts@),
    decreases stmts,
{
    let ghost o = strings_view(out@);
    let mut i: usize = 0;
    assert(stmts@.subrange(0, stmts@.len() as int) =~= stmts@);
    while i < stmts.len()
        invariant
            i <= stmts@.len(),
            strings_view(out@) + stmts_strings(stmts@.subrange(i as int, stmts@.len() as int)) == o + stmts_strings(stmts@),
        decreases stmts@.len() - i,
    {
        let ghost tail = stmts@.subrange(i as int, stmts@.len() as int);
        assert(tail.drop_first() =~= stmts@.subrange(i + 1, stmts@.len() as int));
        assert(tail[0] == stmts@[i as int]);
        let ghost before = strings_view(out@);
        proof { assert(decreases_to!(*stmts => stmts@[i as int])); }
        collect_stmt_strings(&stmts[i], out);
        assert(before + stmts_strings(tail) =~= strings_view(out@) + stmts_strings(stmts@.subrange(i + 1, stmts@.len() as int)));
        i = i + 1;
    }
    assert(stmts@.subrange(i as int, stmts@.len() as int) =~= Seq::<Statement>::empty());
    assert(strings_view(out@) =~= o + stmts_strings(stmts@));
}

fn collect_stmt_strings(st: &Statement, out: &mut Vec<String>)
    ensures
        strings_view(final(out)@) == strings_view(old(out)@) + stmt_strings(*st),
    decreases st,
{
    let ghost o = strings_view(out@);
    match st {
        Statement::Let { init, .. } => collect_expr_strings(init, out),
        Statement::Assignment { value, .. } => collect_expr_strings(value, out),
        Statement::MemoryStore { ptr, value, .. } => {
            collect_expr_strings(ptr, out);
            collect_expr_strings(value, out);
            assert(strings_view(out@) =~= o + stmt_strings(*st));
        },
        Statement::If { condition, then_branch, else_branch, .. } => {
            collect_expr_strings(condition, out);
            proof { assert(decreases_to!(*st => then_branch.statements)); }
            collect_stmts_strings(&then_branch.statements, out);
            let ghost mid = strings_view(out@);
            match else_branch {
                Some(b) => {
                    proof { assert(decreases_to!(*st => b.statements)); }
                    collect_stmts_strings(&b.statements, out);
                },
                None => {
                    assert(mid =~= mid + Seq::<Seq<char>>::empty());
                },
            }
            assert(strings_view(out@) =~= o + stmt_strings(*st));
        },
        Statement::While { condition, body, .. } => {
            collect_expr_strings(condition, out);
            proof { assert(decreases_to!(*st => body.statements)); }
            collect_stmts_strings(&body.statements, out);
            assert(strings_view(out@) =~= o + stmt_strings(*st));
        },
        Statement::Return { value, .. } => {
            match value {
                Some(v) => collect_expr_strings(v, out),
                None => {
                    assert(strings_view(out@) =~= o + stmt_strings(*st));
                },
            }
        },
        Statement::Break(_) => {
            assert(strings_view(out@) =~= o + stmt_strings(*st));
        },
        Statement::Expr { expr, .. } => collect_expr_strings(expr, out),
    }
}

/// The string literals of a program's functions, in order.
pub(crate) fn collect_program_strings(program: &Program) -> (r: Vec<String>)
    ensures
        strings_view(r@) == functions_strings(program.functions@),
{
    let ghost fs = program.functions@;
    let mut out: Vec<String> = Vec::new();
    let mut i: usize = 0;
    assert(strings_view(out@) =~= functions_strings(fs.take(0)));
    while i < program.functions.len()
        invariant
            i <= fs.len(),
            fs == program.functions@,
            strings_view(out@) == functions_strings(fs.take(i as int)),
        decreases fs.len() - i,
    {
        collect_stmts_strings(&program.functions[i].body.statements, &mut out);
        assert(fs.take(i + 1).drop_last() =~= fs.take(i as int));
        i = i + 1;
    }
    assert(fs.take(i as int) =~= fs);
    out
}

/// Each step of the layout keeps or advances the first free address.
proof fn lemma_layout_grows(ss: Seq<Seq<char>>, n: nat)
    requires
        n <= ss.len(),
    ensures
        layout_strings(ss.take(n as int)).1 <= layout_strings(ss).1,
    decreases ss.len() - n,
{
    if n < ss.len() {
        lemma_layout_grows(ss, n + 1);
        assert(ss.take(n as int + 1).drop_last() =~= ss.take(n as int));
    } else {
        assert(ss.take(n as int) =~= ss);
    }
}

/// Whether the data `d` holds the UTF-8 bytes of `s`, then a zero byte, at
/// the address a table gives `s` (when it gives one).
pub open spec fn placed(d: Seq<u8>, t: IndexTable, s: Seq<char>) -> bool {
    match lookup_index(t, s) {
        Some(a) => {
            let b = vstd::utf8::encode_utf8(s);
            &&& a + b.len() < d.len()
            &&& d.subrange(a as int, (a + b.len()) as int) == b
            &&& d[a + b.len()] == 0
        },
        None => true,
    }
}

proof fn lemma_layout_places(ss: Seq<Seq<char>>)
    requires
        layout_strings(ss).1 <= u32::MAX,
    ensures
        string_data(layout_strings(ss).0).len() == layout_strings(ss).1,
        forall|s: Seq<char>| #[trigger] placed(string_data(layout_strings(ss).0), layout_strings(ss).0, s),
        forall|j: int| 0 <= j < ss.len() ==> lookup_index(layout_strings(ss).0, #[trigger] ss[j]) is Some,
    decreases ss.len(),
{
    if ss.len() > 0 {
        let prev = ss.drop_last();
        lemma_layout_grows(ss, (ss.len() - 1) as nat);
        assert(ss.take(ss.len() - 1) =~= prev);
        lemma_layout_places(prev);
        let (t, next) = layout_strings(prev);
        let d = string_data(t);
        let last = ss.last();
        if lookup_index(t, last) is None {
            let t2 = t.push((last, next as u32));
            let b = vstd::utf8::encode_utf8(last);
            let d2 = string_data(t2);
            assert(t2.drop_last() =~= t);
            assert(d2 =~= d + b + seq![0u8]);
            assert forall|x: Seq<char>| #[trigger] placed(d2, t2, x) by {
                if x == last {
                    assert(d2.subrange(next as int, (next + b.len()) as int) =~= b);
                } else {
                    assert(lookup_index(t2, x) == lookup_index(t, x));
                    assert(placed(d, t, x));
                    if let Some(a) = lookup_index(t, x) {
                        let bx = vstd::utf8::encode_utf8(x);
                        assert(d2.subrange(a as int, (a + bx.len()) as int) =~= d.subrange(a as int, (a + bx.len()) as int));
                    }
                }
            }
            assert forall|j: int| 0 <= j < ss.len() implies lookup_index(t2, #[trigger] ss[j]) is Some by {
                if ss[j] != last {
                    assert(prev[j] == ss[j]);
                    assert(lookup_index(t2, ss[j]) == lookup_index(t, ss[j]));
                }
            }
        } else {
            assert forall|j: int| 0 <= j < ss.len() implies lookup_index(t, #[trigger] ss[j]) is Some by {
                if j < ss.len() - 1 {
                    assert(prev[j] == ss[j]);
                }
            }
        }
    }
}

/// A string literal compiles to the address of its bytes: each string of
/// the program's functions has an address in the layout, and the data that
/// the module places at address 0 holds its UTF-8 bytes there, followed by
/// a zero byte.
pub proof fn lemma_string_literal_address(fs: Seq<Function>, s: Seq<char>)
    requires
        layout_strings(functions_strings(fs)).1 <= STATIC_DATA_END,
        functions_strings(fs).contains(s),
    ensures
        ({
            let t = layout_strings(functions_strings(fs)).0;
            let d = string_data(t);
            let b = vstd::utf8::encode_utf8(s);
            &&& lookup_index(t, s) is Some
            &&& lookup_index(t, s)->0 + b.len() < d.len()
            &&& d.subrange(lookup_index(t, s)->0 as int, (lookup_index(t, s)->0 + b.len()) as int) == b
            &&& d[lookup_index(t, s)->0 + b.len()] == 0
        }),
{
    let ss = functions_strings(fs);
    lemma_layout_places(ss);
    let j = choose|j: int| 0 <= j < ss.len() && ss[j] == s;
    assert(lookup_index(layout_strings(ss).0, ss[j]) is Some);
    assert(placed(string_data(layout_strings(ss).0), layout_strings(ss).0, s));
}

/// Lays strings out as `layout_strings` says: their address table and
/// their data; nothing when they do not fit below `STATIC_DATA_END`.
pub(crate) fn layout_string_data(ss: &Vec<String>) -> (r: Option<(Vec<(String, u32)>, Vec<u8>)>)
    ensures
        r is Some <==> layout_strings(strings_view(ss@)).1 <= STATIC_DATA_END,
        r matches Some((t, d)) ==> table_view(t@) == layout_strings(strings_view(ss@)).0
            && d@ == string_data(table_view(t@)),
{
    let ghost sv = strings_view(ss@);
    let mut table: Vec<(String, u32)> = Vec::new();
    let mut data: Vec<u8> = Vec::new();
    let mut next: usize = 0;
    let mut i: usize = 0;
    assert(sv.take(0) =~= Seq::<Seq<char>>::empty());
    assert(table_view(table@) =~= Seq::<(Seq<char>, u32)>::empty());
    while i < ss.len()
        invariant
            i <= ss@.len(),
            sv == strings_view(ss@),
            sv.len() == ss@.len(),
            layout_strings(sv.take(i as int)) == (table_view(table@), next as nat),
            next <= STATIC_DATA_END,
            data@ == string_data(table_view(table@)),
        decreases ss@.len() - i,
    {
        assert(sv.take(i + 1).drop_last() =~= sv.take(i as int));
        assert(sv.take(i + 1).last() == ss@[i as int]@);
        let s = &ss[i];
        let ghost prev = layout_strings(sv.take(i as int));
        assert(layout_strings(sv.take(i + 1)) == (if lookup_index(prev.0, s@) is Some { prev } else {
            (prev.0.push((s@, prev.1 as u32)), prev.1 + vstd::utf8::encode_utf8(s@).len() + 1) }));
        match lookup(&table, s) {
            Some(_) => {},
            None => {
                let bytes = s.as_str().as_bytes();
                let len = bytes.len();
                if len >= STATIC_DATA_END as usize || next + len + 1 > STATIC_DATA_END as usize {
                    proof { lemma_layout_grows(sv, i as nat + 1); }
                    return None;
                }
                let ghost tv = table_view(table@);
                table.push((s.clone(), next as u32));
                assert(table_view(table@) =~= tv.push((s@, next as u32)));
                let ghost mid = data@;
                data.extend_from_slice(bytes);
                data.push(0);
                assert(data@ =~= mid + vstd::utf8::encode_utf8(s@) + seq![0u8]);
                assert(table_view(table@).drop_last() =~= tv);
                assert(len == vstd::utf8::encode_utf8(s@).len());
                next = next + len + 1;
                assert(layout_strings(sv.take(i + 1)) == (table_view(table@), next as nat));
            },
        }
        i = i + 1;
    }
    assert(sv.take(i as int) =~= sv);
    Some((table, data))
}

/// Whether `b` starts with `a`: what a failed compilation leaves of the
/// bytes it was appending to.
pub open spec fn extends(a: Seq<u8>, b: Seq<u8>) -> bool {
    &&& a.len() <= b.len()
    &&& forall|k: int| 0 <= k < a.len() ==> #[trigger] b[k] == a[k]
}

/// The message for a name with no local slot.
pub open spec fn unknown_local_msg(name: Seq<char>) -> Seq<char> {
    "Variable '"@ + name + "' not found in local table"@
}

/// The message for a call of a function with no index.
pub open spec fn unknown_function_msg(name: Seq<char>) -> Seq<char> {
    "Function '"@ + name + "' not found in function index"@
}

/// The message for a float literal with no constant.
pub open spec fn missing_float_msg(text: Seq<char>) -> Seq<char> {
    "No float constant was supplied for the literal '"@ + text + "'"@
}

/// Cuts `body` back to its first `len` bytes and fails with `m`.
fn restore(body: &mut Vec<u8>, len: usize, m: String) -> (r: Result<(), String>)
    requires
        len <= old(body)@.len(),
    ensures
        final(body)@ == old(body)@.subrange(0, len as int),
        r == Err::<(), String>(m),
{
    body.truncate(len);
    Err(m)
}

fn unknown_local(name: &String) -> (r: String)
    ensures
        r@ == unknown_local_msg(name@),
{
    let mut m = String::from_str("Variable '");
    m.append(name.as_str());
    m.append("' not found in local table");
    m
}

/// The view of a result table.
pub open spec fn results_view(v: Seq<(String, Type)>) -> ResultTable {
    v.map_values(|p: (String, Type)| (p.0@, p.1))
}

pub(crate) fn lookup_ret(table: &Vec<(String, Type)>, name: &String) -> (r: Option<Type>)
    ensures
        r == lookup_result(results_view(table@), name@),
{
    let mut i = table.len();
    assert(results_view(table@).take(i as int) =~= results_view(table@));
    while i > 0
        invariant
            i <= table@.len(),
            lookup_result(results_view(table@), name@) == lookup_result(results_view(table@).take(i as int), name@),
        decreases i,
    {
        assert(results_view(table@).take(i as int).drop_last() =~= results_view(table@).take(i - 1));
        if table[i - 1].0 == *name {
            return Some(table[i - 1].1);
        }
        i = i - 1;
    }
    None
}

fn type_to_wasm_val(ty: &Type) -> (r: u8)
    requires
        *ty != Type::Void,
    ensures
        r == val_type_code(*ty),
{
    match ty {
        Type::I32 | Type::Bool => VAL_TYPE_I32,
        Type::I64 => VAL_TYPE_I64,
        Type::F32 => VAL_TYPE_F32,
        Type::F64 => VAL_TYPE_F64,
        Type::Void => 0,
    }
}

fn push_le_bytes(x: u32, body: &mut Vec<u8>)
    ensures
        final(body)@ == old(body)@ + le_bytes(x),
{
    assert((x & 0xff) as nat == x % 256) by (bit_vector);
    assert(((x >> 8) & 0xff) as nat == (x / 256) % 256) by (bit_vector);
    assert(((x >> 16) & 0xff) as nat == (x / 65536) % 256) by (bit_vector);
    assert(((x >> 24) & 0xff) as nat == (x / 16777216) % 256) by (bit_vector);
    assert(x & 0xff < 256 && (x >> 8) & 0xff < 256 && (x >> 16) & 0xff < 256 && (x >> 24) & 0xff < 256) by (bit_vector);
    body.push((x & 0xff) as u8);
    body.push(((x >> 8) & 0xff) as u8);
    body.push(((x >> 16) & 0xff) as u8);
    body.push(((x >> 24) & 0xff) as u8);
    assert(final(body)@ =~= old(body)@ + le_bytes(x));
}

pub(crate) fn collect_let_locals(stmts: &Vec<Statement>, out: &mut Vec<(String, Type)>)
    ensures
        final(out)@.map_values(|p: (String, Type)| (p.0@, p.1)) == old(out)@.map_values(|p: (String, Type)| (p.0@, p.1)) + let_locals(stmts@),
    decreases stmts,
{
    let mut i: usize = 0;
    assert(stmts@.subrange(0, stmts@.len() as int) =~= stmts@);
    assert(old(out)@.map_values(|p: (String, Type)| (p.0@, p.1)) + let_locals(stmts@) =~= out@.map_values(|p: (String, Type)| (p.0@, p.1)) + let_locals(stmts@.subrange(0, stmts@.len() as int)));
    while i < stmts.len()
        invariant
            i <= stmts@.len(),
            old(out)@.map_values(|p: (String, Type)| (p.0@, p.1)) + let_locals(stmts@)
                == out@.map_values(|p: (String, Type)| (p.0@, p.1)) + let_locals(stmts@.subrange(i as int, stmts@.len() as int)),
        decreases stmts@.len() - i,
    {
        let ghost tail = stmts@.subrange(i as int, stmts@.len() as int);
        assert(tail.drop_first() =~= stmts@.subrange(i + 1, stmts@.len() as int));
        assert(tail[0] == stmts@[i as int]);
        let ghost before = out@.map_values(|p: (String, Type)| (p.0@, p.1));
        proof { assert(decreases_to!(*stmts => stmts@[i as int])); }
        match &stmts[i] {
            Statement::Let { name, ty, .. } => {
                let t = match ty {
                    Some(t) => *t,
                    None => Type::I32,
                };
                out.push((name.clone(), t));
                assert(out@.map_values(|p: (String, Type)| (p.0@, p.1)) =~= before + seq![(name@, t)]);
            },
            Statement::If { then_branch, else_branch, .. } => {
                proof { assert(decreases_to!(stmts@[i as int] => then_branch.statements)); }
                collect_let_locals(&then_branch.statements, out);
                match else_branch {
                    Some(else_b) => {
                        proof { assert(decreases_to!(stmts@[i as int] => else_b.statements)); }
                        collect_let_locals(&else_b.statements, out);
                    },
                    None => {},
                }
            },
            Statement::While { body, .. } => {
                proof { assert(decreases_to!(stmts@[i as int] => body.statements)); }
                collect_let_locals(&body.statements, out);
            },
            _ => {},
        }
        assert(out@.map_values(|p: (String, Type)| (p.0@, p.1)) + let_locals(stmts@.subrange(i + 1, stmts@.len() as int))
            =~= before + let_locals(tail));
        i = i + 1;
    }
}

/// Whether every assignment in the statements, nested blocks included,
/// targets a name of the table.
fn assignments_resolved(table: &Vec<(String, u32)>, stmts: &Vec<Statement>) -> (r: bool)
    ensures
        r == assigns_resolved(table_view(table@), stmts@),
    decreases stmts,
{
    let ghost t = table_view(table@);
    let mut i: usize = 0;
    assert(stmts@.subrange(0, stmts@.len() as int) =~= stmts@);
    while i < stmts.len()
        invariant
            i <= stmts@.len(),
            t == table_view(table@),
            assigns_resolved(t, stmts@) == assigns_resolved(t, stmts@.subrange(i as int, stmts@.len() as int)),
        decreases stmts@.len() - i,
    {
        let ghost tail = stmts@.subrange(i as int, stmts@.len() as int);
        assert(tail.drop_first() =~= stmts@.subrange(i + 1, stmts@.len() as int));
        assert(tail[0] == stmts@[i as int]);
        proof { assert(decreases_to!(*stmts => stmts@[i as int])); }
        let ok = match &stmts[i] {
            Statement::Assignment { target, .. } => lookup(table, target).is_some(),
            Statement::If { then_branch, else_branch, .. } => {
                proof { assert(decreases_to!(stmts@[i as int] => then_branch.statements)); }
                if !assignments_resolved(table, &then_branch.statements) {
                    false
                } else {
                    match else_branch {
                        Some(else_b) => {
                            proof { assert(decreases_to!(stmts@[i as int] => else_b.statements)); }
                            assignments_resolved(table, &else_b.statements)
                        },
                        None => true,
                    }
                }
            },
            Statement::While { body, .. } => {
                proof { assert(decreases_to!(stmts@[i as int] => body.statements)); }
                assignments_resolved(table, &body.statements)
            },
            _ => true,
        };
        if !ok {
            return false;
        }
        i = i + 1;
    }
    assert(stmts@.subrange(i as int, stmts@.len() as int) =~= Seq::<Statement>::empty());
    true
}

/// Whether a function can be lowered (see `function_ready`).
pub fn function_lowerable(func: &Function) -> (r: bool)
    ensures
        r == function_ready(*func),
{
    let ghost ps = func.params@;
    let mut i: usize = 0;
    while i < func.params.len()
        invariant
            i <= ps.len(),
            ps == func.params@,
            forall|k: int| 0 <= k < i ==> #[trigger] ps[k].ty != Type::Void,
        decreases ps.len() - i,
    {
        if func.params[i].ty == Type::Void {
            return false;
        }
        i = i + 1;
    }
    let mut declared: Vec<(String, Type)> = Vec::new();
    collect_let_locals(&func.body.statements, &mut declared);
    let ghost lets = let_locals(func.body.statements@);
    assert(declared@.map_values(|p: (String, Type)| (p.0@, p.1)) =~= lets);
    assert(declared@.len() == lets.len());
    let mut j: usize = 0;
    while j < declared.len()
        invariant
            j <= lets.len(),
            declared@.len() == lets.len(),
            declared@.map_values(|p: (String, Type)| (p.0@, p.1)) == lets,
            lets == let_locals(func.body.statements@),
            forall|k: int| 0 <= k < j ==> #[trigger] lets[k].1 != Type::Void,
        decreases lets.len() - j,
    {
        assert(lets[j as int].1 == declared@[j as int].1);
        if declared[j].1 == Type::Void {
            return false;
        }
        j = j + 1;
    }
    if func.params.len() > u32::MAX as usize || declared.len() > u32::MAX as usize - func.params.len() {
        return false;
    }
    let locals = local_index_table(func, &declared);
    assignments_resolved(&locals, &func.body.statements)
}

/// Whether every function of a program can be lowered (see `emit_ready`):
/// the condition `WasmBinaryEmitter::emit` asks for.
pub fn program_lowerable(program: &Program) -> (r: bool)
    ensures
        r == emit_ready(*program),
{
    if program.imports.len() > 0xFFFF_FFFF || program.functions.len() > 0xFFFF_FFFF - program.imports.len() {
        return false;
    }
    let mut m: usize = 0;
    while m < program.imports.len()
        invariant
            m <= program.imports@.len(),
            forall|k: int| 0 <= k < m ==> #[trigger] import_ready(program.imports@[k]),
        decreases program.imports@.len() - m,
    {
        let ps = &program.imports[m].params;
        let mut q: usize = 0;
        while q < ps.len()
            invariant
                q <= ps@.len(),
                m < program.imports@.len(),
                ps@ == program.imports@[m as int].params@,
                forall|t: int| 0 <= t < q ==> #[trigger] ps@[t].ty != Type::Void,
            decreases ps@.len() - q,
        {
            if ps[q].ty == Type::Void {
                assert(program.imports@[m as int].params@[q as int].ty == Type::Void);
                assert(!import_ready(program.imports@[m as int]));
                return false;
            }
            q = q + 1;
        }
        m = m + 1;
    }
    let mut i: usize = 0;
    while i < program.functions.len()
        invariant
            i <= program.functions@.len(),
            program.imports@.len() + program.functions@.len() <= u32::MAX,
            forall|k: int| 0 <= k < program.imports@.len() ==> #[trigger] import_ready(program.imports@[k]),
            forall|k: int| 0 <= k < i ==> #[trigger] function_ready(program.functions@[k]),
        decreases program.functions@.len() - i,
    {
        if !function_lowerable(&program.functions[i]) {
            return false;
        }
        i = i + 1;
    }
    true
}

/// When the first `n` functions cannot all be compiled, neither can all of them.
proof fn lemma_code_entries_prefix(funcs: IndexTable, rets: ResultTable, floats: Seq<FloatConst>, strs: IndexTable, fs: Seq<Function>, n: nat)
    requires
        n <= fs.len(),
        code_entries(funcs, rets, floats, strs, fs.take(n as int)) is None,
    ensures
        code_entries(funcs, rets, floats, strs, fs) is None,
    decreases fs.len() - n,
{
    if n < fs.len() {
        assert(fs.take(n as int + 1).drop_last() =~= fs.take(n as int));
        lemma_code_entries_prefix(funcs, rets, floats, strs, fs, n + 1);
    } else {
        assert(fs.take(n as int) =~= fs);
    }
}

impl WasmBinaryEmitter {
    /// The function index table, in insertion order.
    pub closed spec fn function_table(&self) -> IndexTable {
        table_view(self.functions@)
    }

    /// The result types of the registered functions, in insertion order.
    pub closed spec fn result_table(&self) -> ResultTable {
        results_view(self.results@)
    }

    /// The float constants float literals are compiled with.
    pub closed spec fn float_constants(&self) -> Seq<FloatConst> {
        self.floats@
    }

    /// The addresses of the string literals being compiled.
    pub closed spec fn string_table(&self) -> IndexTable {
        table_view(self.strings@)
    }

    /// An emitter with no function registered and no float constant.
    pub fn new() -> (r: Self)
        ensures
            r.function_table() == Seq::<(Seq<char>, u32)>::empty(),
            r.result_table() == Seq::<(Seq<char>, Type)>::empty(),
            r.float_constants() == Seq::<FloatConst>::empty(),
    {
        let r = Self { functions: Vec::new(), results: Vec::new(), floats: Vec::new(), strings: Vec::new() };
        assert(r.function_table() =~= Seq::<(Seq<char>, u32)>::empty());
        assert(r.result_table() =~= Seq::<(Seq<char>, Type)>::empty());
        r
    }

    /// An emitter that compiles float literals with the given constants.
    pub fn with_float_constants(floats: Vec<FloatConst>) -> (r: Self)
        ensures
            r.function_table() == Seq::<(Seq<char>, u32)>::empty(),
            r.result_table() == Seq::<(Seq<char>, Type)>::empty(),
            r.float_constants() == floats@,
    {
        let r = Self { functions: Vec::new(), results: Vec::new(), floats, strings: Vec::new() };
        assert(r.function_table() =~= Seq::<(Seq<char>, u32)>::empty());
        assert(r.result_table() =~= Seq::<(Seq<char>, Type)>::empty());
        r
    }

    fn find_float_bits(&self, text: &String) -> (r: Option<u32>)
        ensures
            r == find_float(self.float_constants(), text@),
    {
        let mut i: usize = 0;
        assert(self.floats@.subrange(0, self.floats@.len() as int) =~= self.floats@);
        while i < self.floats.len()
            invariant
                i <= self.floats@.len(),
                find_float(self.floats@, text@) == find_float(self.floats@.subrange(i as int, self.floats@.len() as int), text@),
            decreases self.floats@.len() - i,
        {
            assert(self.floats@.subrange(i as int, self.floats@.len() as int).drop_first() =~= self.floats@.subrange(i + 1, self.floats@.len() as int));
            if self.floats[i].text == *text {
                return Some(self.floats[i].f32_bits);
            }
            i = i + 1;
        }
        None
    }

    #[verifier::spinoff_prover]
    #[verifier::rlimit(60)]
    fn compile_expression(&self, expr: &Expression, locals: &Vec<(String, u32)>, body: &mut Vec<u8>) -> (r: Result<(), String>)
        ensures
            r is Ok <==> code_expr(self.function_table(), table_view(locals@), self.float_constants(), self.string_table(), *expr) is Some,
            r is Ok ==> final(body)@ == old(body)@ + code_expr(self.function_table(), table_view(locals@), self.float_constants(), self.string_table(), *expr)->0,
            extends(old(body)@, final(body)@),
            r is Err ==> final(body)@ == old(body)@,
            match *expr {
                Expression::Variable(name, _) => lookup_index(table_view(locals@), name@) is None
                    ==> (r matches Err(m) && m@ == unknown_local_msg(name@)),
                Expression::LiteralFloat(text, _) => find_float(self.float_constants(), text@) is None
                    ==> (r matches Err(m) && m@ == missing_float_msg(text@)),
                Expression::Call { callee, args, .. } =>
                    code_args(self.function_table(), table_view(locals@), self.float_constants(), self.string_table(), args@) is Some
                    && lookup_index(self.function_table(), callee@) is None
                    ==> (r matches Err(m) && m@ == unknown_function_msg(callee@)),
                _ => true,
            },
        decreases expr,
    {
        let start = body.len();
        let ghost funcs = self.function_table();
        let ghost rt = self.result_table();
        let ghost lt = table_view(locals@);
        let ghost fl = self.float_constants();
        let ghost st = self.string_table();
        match expr {
            Expression::LiteralInt(v, _) => {
                body.push(I32_CONST);
                encode_i32(#[verifier::truncate] (*v as i32), body);
                assert(final(body)@ =~= old(body)@ + code_expr(funcs, lt, fl, st, *expr)->0);
                Ok(())
            },
            Expression::LiteralFloat(text, _) => {
                match self.find_float_bits(text) {
                    Some(bits) => {
                        body.push(F32_CONST);
                        push_le_bytes(bits, body);
                        assert(final(body)@ =~= old(body)@ + code_expr(funcs, lt, fl, st, *expr)->0);
                        Ok(())
                    },
                    None => {
                        let mut m = String::from_str("No float constant was supplied for the literal '");
                        m.append(text.as_str());
                        m.append("'");
                        Err(m)
                    },
                }
            },
            Expression::LiteralBool(b, _) => {
                body.push(I32_CONST);
                encode_i32(if *b { 1 } else { 0 }, body);
                assert(final(body)@ =~= old(body)@ + code_expr(funcs, lt, fl, st, *expr)->0);
                Ok(())
            },
            Expression::LiteralString(text, _) => {
                match lookup(&self.strings, text) {
                    Some(addr) => {
                        body.push(I32_CONST);
                        encode_i32(#[verifier::truncate] (addr as i32), body);
                        assert(final(body)@ =~= old(body)@ + code_expr(funcs, lt, fl, st, *expr)->0);
                        Ok(())
                    },
                    None => Err(concat(vec!["String literal '", text.as_str(), "' has no address"])),
                }
            },
            Expression::Variable(name, _) => {
                match lookup(locals, name) {
                    Some(idx) => {
                        body.push(LOCAL_GET);
                        encode_u32(idx, body);
                        assert(final(body)@ =~= old(body)@ + code_expr(funcs, lt, fl, st, *expr)->0);
                        Ok(())
                    },
                    None => Err(unknown_local(name)),
                }
            },
            Expression::Binary { op, left, right, .. } => {
                match self.compile_expression(left, locals, body) {
                    Ok(()) => {},
                    Err(m) => { return restore(body, start, m); },
                }
                match self.compile_expression(right, locals, body) {
                    Ok(()) => {},
                    Err(m) => { return restore(body, start, m); },
                }
                let opcode = match op {
                    BinaryOp::Add => I32_ADD,
                    BinaryOp::Sub => I32_SUB,
                    BinaryOp::Mul => I32_MUL,
                    BinaryOp::Div => I32_DIV_S,
                    BinaryOp::Rem => I32_REM_S,
                    BinaryOp::Eq => I32_EQ,
                    BinaryOp::Ne => I32_NE,
                    BinaryOp::Lt => I32_LT_S,
                    BinaryOp::Le => I32_LE_S,
                    BinaryOp::Gt => I32_GT_S,
                    BinaryOp::Ge => I32_GE_S,
                    BinaryOp::BitAnd => I32_AND,
                    BinaryOp::BitOr => I32_OR,
                    BinaryOp::BitXor => I32_XOR,
                    BinaryOp::Shl => I32_SHL,
                    BinaryOp::Shr => I32_SHR_S,
                    BinaryOp::LogicalAnd => I32_AND,
                    BinaryOp::LogicalOr => I32_OR,
                };
                body.push(opcode);
                assert(final(body)@ =~= old(body)@ + code_expr(funcs, lt, fl, st, *expr)->0);
                Ok(())
            },
            Expression::Unary { op, expr: inner, .. } => {
                match op {
                    UnaryOp::Neg => {
                        body.push(I32_CONST);
                        encode_i32(0, body);
                        match self.compile_expression(inner, locals, body) {
                    Ok(()) => {},
                    Err(m) => { return restore(body, start, m); },
                }
                        body.push(I32_SUB);
                    },
                    UnaryOp::Not => {
                        match self.compile_expression(inner, locals, body) {
                    Ok(()) => {},
                    Err(m) => { return restore(body, start, m); },
                }
                        body.push(I32_EQZ);
                    },
                }
                assert(final(body)@ =~= old(body)@ + code_expr(funcs, lt, fl, st, *expr)->0);
                Ok(())
            },
            Expression::Call { callee, args, .. } => {
                let mut i: usize = 0;
                assert(args@.subrange(0, args@.len() as int) =~= args@);
                while i < args.len()
                    invariant
                        i <= args@.len(),
                        *expr matches Expression::Call { args: a, .. } && a == *args,
                        funcs == self.function_table(),
                rt == self.result_table(),
                        lt == table_view(locals@),
                        fl == self.float_constants(),
                st == self.string_table(),
                        extends(old(body)@, body@),
                        start == old(body)@.len(),
                        ({
                            let all = code_args(funcs, lt, fl, st, args@);
                            let rest = code_args(funcs, lt, fl, st, args@.subrange(i as int, args@.len() as int));
                            &&& (all is Some <==> rest is Some)
                            &&& (rest matches Some(rc) ==> old(body)@ + all->0 == body@ + rc)
                        }),
                    decreases args@.len() - i,
                {
                    let ghost tail = args@.subrange(i as int, args@.len() as int);
                    assert(tail.drop_first() =~= args@.subrange(i + 1, args@.len() as int));
                    assert(tail[0] == args@[i as int]);
                    let ghost before = body@;
                    proof { assert(decreases_to!(*expr => args@[i as int])); }
                    match self.compile_expression(&args[i], locals, body) {
                    Ok(()) => {},
                    Err(m) => { return restore(body, start, m); },
                }
                    proof {
                        let rest2 = code_args(funcs, lt, fl, st, args@.subrange(i + 1, args@.len() as int));
                        if rest2 is Some {
                            assert(before + (code_expr(funcs, lt, fl, st, args@[i as int])->0 + rest2->0) =~= body@ + rest2->0);
                        }
                    }
                    i = i + 1;
                }
                assert(args@.subrange(i as int, args@.len() as int) =~= Seq::<Expression>::empty());
                assert(body@ + Seq::<u8>::empty() =~= body@);
                let func_idx = match lookup(&self.functions, callee) {
                    Some(idx) => idx,
                    None => {
                        let mut m = String::from_str("Function '");
                        m.append(callee.as_str());
                        m.append("' not found in function index");
                        return restore(body, start, m);
                    },
                };
                body.push(CALL);
                encode_u32(func_idx, body);
                assert(final(body)@ =~= old(body)@ + code_expr(funcs, lt, fl, st, *expr)->0);
                Ok(())
            },
            Expression::MemoryLoad { ty, ptr, offset, .. } => {
                match self.compile_expression(ptr, locals, body) {
                    Ok(()) => {},
                    Err(m) => { return restore(body, start, m); },
                }
                let opcode = match ty {
                    Type::I32 => I32_LOAD,
                    Type::I64 => I64_LOAD,
                    Type::F32 => F32_LOAD,
                    Type::F64 => F64_LOAD,
                    _ => {
                        return restore(body, start, concat(vec!["Unsupported type for memory load: ", ty.name()]));
                    },
                };
                body.push(opcode);
                encode_u32(2, body);
                encode_u32(*offset, body);
                assert(final(body)@ =~= old(body)@ + code_expr(funcs, lt, fl, st, *expr)->0);
                Ok(())
            },
        }
    }

    fn compile_statements(&self, stmts: &Vec<Statement>, locals: &Vec<(String, u32)>, block_stack: &mut Vec<BlockKind>, body: &mut Vec<u8>) -> (r: Result<(), String>)
        ensures
            r is Ok <==> code_stmts(self.function_table(), self.result_table(), table_view(locals@), self.float_constants(), self.string_table(), old(block_stack)@, stmts@) is Some,
            r is Ok ==> final(body)@ == old(body)@ + code_stmts(self.function_table(), self.result_table(), table_view(locals@), self.float_constants(), self.string_table(), old(block_stack)@, stmts@)->0,
            r is Ok ==> final(block_stack)@ == old(block_stack)@,
            extends(old(body)@, final(body)@),
            r is Err ==> final(body)@ == old(body)@,
        decreases stmts,
    {
        let start = body.len();
        let ghost funcs = self.function_table();
        let ghost rt = self.result_table();
        let ghost lt = table_view(locals@);
        let ghost fl = self.float_constants();
        let ghost st = self.string_table();
        let ghost stack = block_stack@;
        let mut i: usize = 0;
        assert(stmts@.subrange(0, stmts@.len() as int) =~= stmts@);
        assert(old(body)@ =~= body@);
        while i < stmts.len()
            invariant
                i <= stmts@.len(),
                funcs == self.function_table(),
                rt == self.result_table(),
                lt == table_view(locals@),
                fl == self.float_constants(),
                st == self.string_table(),
                stack == old(block_stack)@,
                block_stack@ == stack,
                extends(old(body)@, body@),
                start == old(body)@.len(),
                ({
                    let all = code_stmts(funcs, rt, lt, fl, st, stack, stmts@);
                    let rest = code_stmts(funcs, rt, lt, fl, st, stack, stmts@.subrange(i as int, stmts@.len() as int));
                    &&& (all is Some <==> rest is Some)
                    &&& (rest matches Some(rc) ==> old(body)@ + all->0 == body@ + rc)
                }),
            decreases stmts@.len() - i,
        {
            let ghost tail = stmts@.subrange(i as int, stmts@.len() as int);
            assert(tail.drop_first() =~= stmts@.subrange(i + 1, stmts@.len() as int));
            assert(tail[0] == stmts@[i as int]);
            let ghost before = body@;
            proof { assert(decreases_to!(*stmts => stmts@[i as int])); }
            match self.compile_statement(&stmts[i], locals, block_stack, body) {
                    Ok(()) => {},
                    Err(m) => { return restore(body, start, m); },
                }
            proof {
                let rest2 = code_stmts(funcs, rt, lt, fl, st, stack, stmts@.subrange(i + 1, stmts@.len() as int));
                if rest2 is Some {
                    assert(before + (code_stmt(funcs, rt, lt, fl, st, stack, stmts@[i as int])->0 + rest2->0) =~= body@ + rest2->0);
                }
            }
            i = i + 1;
        }
        assert(stmts@.subrange(i as int, stmts@.len() as int) =~= Seq::<Statement>::empty());
        assert(body@ + Seq::<u8>::empty() =~= body@);
        Ok(())
    }

    #[verifier::spinoff_prover]
    #[verifier::rlimit(60)]
    fn compile_statement(&self, stmt: &Statement, locals: &Vec<(String, u32)>, block_stack: &mut Vec<BlockKind>, body: &mut Vec<u8>) -> (r: Result<(), String>)
        ensures
            r is Ok <==> code_stmt(self.function_table(), self.result_table(), table_view(locals@), self.float_constants(), self.string_table(), old(block_stack)@, *stmt) is Some,
            r is Ok ==> final(body)@ == old(body)@ + code_stmt(self.function_table(), self.result_table(), table_view(locals@), self.float_constants(), self.string_table(), old(block_stack)@, *stmt)->0,
            r is Ok ==> final(block_stack)@ == old(block_stack)@,
            extends(old(body)@, final(body)@),
            r is Err ==> final(body)@ == old(body)@,
            match *stmt {
                Statement::Break(_) => loop_exit_depth(old(block_stack)@) is None
                    ==> (r matches Err(m) && m@ == "break statement outside of loop"@),
                Statement::Let { name, .. } => lookup_index(table_view(locals@), name@) is None
                    ==> (r matches Err(m) && m@ == unknown_local_msg(name@)),
                Statement::Assignment { target, .. } => lookup_index(table_view(locals@), target@) is None
                    ==> (r matches Err(m) && m@ == unknown_local_msg(target@)),
                _ => true,
            },
        decreases stmt,
    {
        let start = body.len();
        let ghost funcs = self.function_table();
        let ghost rt = self.result_table();
        let ghost lt = table_view(locals@);
        let ghost fl = self.float_constants();
        let ghost st = self.string_table();
        let ghost stack = block_stack@;
        match stmt {
            Statement::Let { name, init, .. } => {
                let idx = match lookup(locals, name) {
                    Some(i) => i,
                    None => {
                        return restore(body, start, unknown_local(name));
                    },
                };
                match self.compile_expression(init, locals, body) {
                    Ok(()) => {},
                    Err(m) => { return restore(body, start, m); },
                }
                body.push(LOCAL_SET);
                encode_u32(idx, body);
                assert(final(body)@ =~= old(body)@ + code_stmt(funcs, rt, lt, fl, st, stack, *stmt)->0);
                Ok(())
            },
            Statement::Assignment { target, value, .. } => {
                let idx = match lookup(locals, target) {
                    Some(i) => i,
                    None => {
                        return restore(body, start, unknown_local(target));
                    },
                };
                match self.compile_expression(value, locals, body) {
                    Ok(()) => {},
                    Err(m) => { return restore(body, start, m); },
                }
                body.push(LOCAL_SET);
                encode_u32(idx, body);
                assert(final(body)@ =~= old(body)@ + code_stmt(funcs, rt, lt, fl, st, stack, *stmt)->0);
                Ok(())
            },
            Statement::MemoryStore { ty, ptr, offset, value, .. } => {
                match self.compile_expression(ptr, locals, body) {
                    Ok(()) => {},
                    Err(m) => { return restore(body, start, m); },
                }
                match self.compile_expression(value, locals, body) {
                    Ok(()) => {},
                    Err(m) => { return restore(body, start, m); },
                }
                let opcode = match ty {
                    Type::I32 => I32_STORE,
                    Type::I64 => I64_STORE,
                    Type::F32 => F32_STORE,
                    Type::F64 => F64_STORE,
                    _ => {
                        return restore(body, start, concat(vec!["Unsupported type for memory store: ", ty.name()]));
                    },
                };
                body.push(opcode);
                encode_u32(2, body);
                encode_u32(*offset, body);
                assert(final(body)@ =~= old(body)@ + code_stmt(funcs, rt, lt, fl, st, stack, *stmt)->0);
                Ok(())
            },
            Statement::If { condition, then_branch, else_branch, .. } => {
                match self.compile_expression(condition, locals, body) {
                    Ok(()) => {},
                    Err(m) => { return restore(body, start, m); },
                }
                body.push(IF);
                body.push(BLOCK_EMPTY);
                block_stack.push(BlockKind::If);
                proof { assert(decreases_to!(*stmt => then_branch.statements)); }
                match self.compile_statements(&then_branch.statements, locals, block_stack, body) {
                    Ok(()) => {},
                    Err(m) => { return restore(body, start, m); },
                }
                match else_branch {
                    Some(else_b) => {
                        body.push(ELSE);
                        proof { assert(decreases_to!(*stmt => else_b.statements)); }
                        match self.compile_statements(&else_b.statements, locals, block_stack, body) {
                    Ok(()) => {},
                    Err(m) => { return restore(body, start, m); },
                }
                    },
                    None => {},
                }
                body.push(END);
                let _ = block_stack.pop();
                assert(block_stack@ =~= stack);
                assert(final(body)@ =~= old(body)@ + code_stmt(funcs, rt, lt, fl, st, stack, *stmt)->0);
                Ok(())
            },
            Statement::While { condition, body: loop_body, .. } => {
                body.push(BLOCK);
                body.push(BLOCK_EMPTY);
                block_stack.push(BlockKind::LoopExit);
                body.push(LOOP);
                body.push(BLOCK_EMPTY);
                block_stack.push(BlockKind::LoopHead);
                match self.compile_expression(condition, locals, body) {
                    Ok(()) => {},
                    Err(m) => { return restore(body, start, m); },
                }
                body.push(I32_EQZ);
                body.push(BR_IF);
                encode_u32(1, body);
                proof { assert(decreases_to!(*stmt => loop_body.statements)); }
                match self.compile_statements(&loop_body.statements, locals, block_stack, body) {
                    Ok(()) => {},
                    Err(m) => { return restore(body, start, m); },
                }
                body.push(BR);
                encode_u32(0, body);
                body.push(END);
                let _ = block_stack.pop();
                body.push(END);
                let _ = block_stack.pop();
                assert(block_stack@ =~= stack);
                assert(final(body)@ =~= old(body)@ + code_stmt(funcs, rt, lt, fl, st, stack, *stmt)->0);
                Ok(())
            },
            Statement::Return { value, .. } => {
                match value {
                    Some(e) => {
                        match self.compile_expression(e, locals, body) {
                    Ok(()) => {},
                    Err(m) => { return restore(body, start, m); },
                }
                    },
                    None => {},
                }
                body.push(RETURN);
                assert(final(body)@ =~= old(body)@ + code_stmt(funcs, rt, lt, fl, st, stack, *stmt)->0);
                Ok(())
            },
            Statement::Break(_) => {
                let mut j = block_stack.len();
                assert(stack.take(j as int) =~= stack);
                let mut depth: usize = 0;
                while j > 0 && block_stack[j - 1] != BlockKind::LoopExit
                    invariant
                        j <= stack.len(),
                        stack.len() <= usize::MAX,
                        block_stack@ == stack,
                        depth + j == stack.len(),
                        loop_exit_depth(stack) == match loop_exit_depth(stack.take(j as int)) {
                            Some(d) => Some((d + depth) as nat),
                            None => None,
                        },
                    decreases j,
                {
                    assert(stack.take(j as int).drop_last() =~= stack.take(j - 1));
                    j = j - 1;
                    depth = depth + 1;
                }
                if j == 0 {
                    return restore(body, start, String::from_str("break statement outside of loop"));
                }
                assert(stack.take(j as int).last() == BlockKind::LoopExit);
                body.push(BR);
                encode_u32(#[verifier::truncate] (depth as u32), body);
                assert(final(body)@ =~= old(body)@ + code_stmt(funcs, rt, lt, fl, st, stack, *stmt)->0);
                Ok(())
            },
            Statement::Expr { expr, .. } => {
                match self.compile_expression(expr, locals, body) {
                    Ok(()) => {},
                    Err(m) => { return restore(body, start, m); },
                }
                let leaves = match expr {
                    Expression::Call { callee, .. } => {
                        match lookup_ret(&self.results, callee) {
                            Some(t) => t != Type::Void,
                            None => true,
                        }
                    },
                    _ => true,
                };
                if leaves {
                    body.push(DROP);
                }
                assert(final(body)@ =~= old(body)@ + code_stmt(funcs, rt, lt, fl, st, stack, *stmt)->0);
                Ok(())
            },
        }
    }

    fn compile_function_body(&self, func: &Function) -> (r: Result<Vec<u8>, String>)
        requires
            function_ready(*func),
        ensures
            r is Ok <==> function_body(self.function_table(), self.result_table(), self.float_constants(), self.string_table(), *func) is Some,
            r matches Ok(v) ==> v@ == function_body(self.function_table(), self.result_table(), self.float_constants(), self.string_table(), *func)->0,
    {
        let mut body: Vec<u8> = Vec::new();
        let ghost ps = func.params@;
        let mut declared: Vec<(String, Type)> = Vec::new();
        collect_let_locals(&func.body.statements, &mut declared);
        let ghost lets = let_locals(func.body.statements@);
        assert(declared@.map_values(|p: (String, Type)| (p.0@, p.1)) =~= lets);
        assert(declared@.len() == lets.len());
        let locals = local_index_table(func, &declared);
        encode_u32(#[verifier::truncate] (declared.len() as u32), &mut body);
        let mut m: usize = 0;
        assert(lets.take(0) =~= Seq::<(Seq<char>, Type)>::empty());
        while m < declared.len()
            invariant
                m <= lets.len(),
                declared@.len() == lets.len(),
                declared@.map_values(|p: (String, Type)| (p.0@, p.1)) == lets,
                lets == let_locals(func.body.statements@),
                forall|q: int| 0 <= q < lets.len() ==> #[trigger] lets[q].1 != Type::Void,
                body@ == uleb128((lets.len() as u32) as nat) + locals_decl(lets.take(m as int)),
            decreases lets.len() - m,
        {
            encode_u32(1, &mut body);
            assert(lets[m as int].1 == declared@[m as int].1);
            body.push(type_to_wasm_val(&declared[m].1));
            assert(lets.take(m + 1).drop_last() =~= lets.take(m as int));
            assert(body@ =~= uleb128((lets.len() as u32) as nat) + locals_decl(lets.take(m + 1)));
            m = m + 1;
        }
        assert(lets.take(m as int) =~= lets);
        let mut block_stack: Vec<BlockKind> = Vec::new();
        let ghost header = body@;
        self.compile_statements(&func.body.statements, &locals, &mut block_stack, &mut body)?;
        body.push(END);
        assert(body@ =~= function_body(self.function_table(), self.result_table(), self.float_constants(), self.string_table(), *func)->0);
        Ok(body)
    }

    fn write_section(&self, section_id: u8, payload: &Vec<u8>, wasm: &mut Vec<u8>)
        ensures
            final(wasm)@ == old(wasm)@ + section(section_id, payload@),
    {
        wasm.push(section_id);
        encode_u32(#[verifier::truncate] (payload.len() as u32), wasm);
        let ghost mid = wasm@;
        wasm.extend_from_slice(payload.as_slice());
        assert(wasm@ =~= mid + payload@);
        assert(final(wasm)@ =~= old(wasm)@ + section(section_id, payload@));
    }

    fn push_type_entry(&self, params: &Vec<Param>, ret: Type, payload: &mut Vec<u8>)
        requires
            forall|q: int| 0 <= q < params@.len() ==> #[trigger] params@[q].ty != Type::Void,
        ensures
            final(payload)@ == old(payload)@ + sig_type_entry(params@, ret),
    {
        let ghost start = payload@;
        payload.push(FUNC_TYPE);
        encode_u32(#[verifier::truncate] (params.len() as u32), payload);
        let mut j: usize = 0;
        let ghost ps = params@;
        let ghost mid = payload@;
        assert(ps.take(0) =~= Seq::<Param>::empty());
        assert(mid =~= mid + param_codes(ps.take(0)));
        while j < params.len()
            invariant
                j <= ps.len(),
                ps == params@,
                forall|q: int| 0 <= q < ps.len() ==> #[trigger] ps[q].ty != Type::Void,
                payload@ == mid + param_codes(ps.take(j as int)),
            decreases ps.len() - j,
        {
            payload.push(type_to_wasm_val(&params[j].ty));
            assert(ps.take(j + 1).drop_last() =~= ps.take(j as int));
            assert(payload@ =~= mid + param_codes(ps.take(j + 1)));
            j = j + 1;
        }
        assert(ps.take(j as int) =~= ps);
        if ret == Type::Void {
            encode_u32(0, payload);
        } else {
            encode_u32(1, payload);
            payload.push(type_to_wasm_val(&ret));
        }
        assert(payload@ =~= start + sig_type_entry(ps, ret));
    }

    #[verifier::spinoff_prover]
    #[verifier::rlimit(30)]
    fn emit_type_section(&self, program: &Program, wasm: &mut Vec<u8>)
        requires
            emit_ready(*program),
        ensures
            final(wasm)@ == old(wasm)@ + section(SECTION_TYPE, uleb128(((program.imports@.len() + program.functions@.len()) as u32) as nat)
                + import_type_entries(program.imports@) + type_entries(program.functions@)),
    {
        let ghost is = program.imports@;
        let ghost fs = program.functions@;
        let mut payload: Vec<u8> = Vec::new();
        encode_u32(#[verifier::truncate] ((program.imports.len() + program.functions.len()) as u32), &mut payload);
        let ghost head = payload@;
        let mut m: usize = 0;
        assert(is.take(0) =~= Seq::<ImportFunc>::empty());
        while m < program.imports.len()
            invariant
                m <= is.len(),
                is == program.imports@,
                emit_ready(*program),
                payload@ == head + import_type_entries(is.take(m as int)),
            decreases is.len() - m,
        {
            let imp = &program.imports[m];
            assert(import_ready(is[m as int]));
            self.push_type_entry(&imp.params, imp.return_type, &mut payload);
            assert(is.take(m + 1).drop_last() =~= is.take(m as int));
            assert(payload@ =~= head + import_type_entries(is.take(m + 1)));
            m = m + 1;
        }
        assert(is.take(m as int) =~= is);
        let ghost head2 = payload@;
        let mut i: usize = 0;
        assert(fs.take(0) =~= Seq::<Function>::empty());
        assert(head2 =~= head2 + type_entries(fs.take(0)));
        while i < program.functions.len()
            invariant
                i <= fs.len(),
                fs == program.functions@,
                emit_ready(*program),
                payload@ == head2 + type_entries(fs.take(i as int)),
            decreases fs.len() - i,
        {
            let func = &program.functions[i];
            assert(function_ready(fs[i as int]));
            self.push_type_entry(&func.params, func.return_type, &mut payload);
            assert(fs.take(i + 1).drop_last() =~= fs.take(i as int));
            assert(payload@ =~= head2 + type_entries(fs.take(i + 1)));
            i = i + 1;
        }
        assert(fs.take(i as int) =~= fs);
        assert(payload@ =~= uleb128(((is.len() + fs.len()) as u32) as nat) + import_type_entries(is) + type_entries(fs));
        self.write_section(SECTION_TYPE, &payload, wasm);
    }

    fn emit_import_section(&self, program: &Program, wasm: &mut Vec<u8>)
        requires
            program.imports@.len() <= u32::MAX,
        ensures
            final(wasm)@ == old(wasm)@ + import_section(program.imports@),
    {
        let ghost is = program.imports@;
        if program.imports.len() == 0 {
            assert(final(wasm)@ =~= old(wasm)@ + import_section(is));
            return;
        }
        let mut payload: Vec<u8> = Vec::new();
        encode_u32(#[verifier::truncate] (program.imports.len() as u32), &mut payload);
        let ghost head = payload@;
        let mut m: usize = 0;
        assert(is.take(0) =~= Seq::<ImportFunc>::empty());
        while m < program.imports.len()
            invariant
                m <= is.len(),
                is == program.imports@,
                is.len() <= u32::MAX,
                payload@ == head + import_entries(is.take(m as int)),
            decreases is.len() - m,
        {
            let imp = &program.imports[m];
            let ghost before = payload@;
            encode_name(imp.module.as_str(), &mut payload);
            encode_name(imp.field.as_str(), &mut payload);
            payload.push(IMPORT_DESC_FUNC);
            encode_u32(m as u32, &mut payload);
            assert(is.take(m + 1).drop_last() =~= is.take(m as int));
            assert(is.take(m + 1).last() == imp);
            assert(payload@ =~= before + import_entry(*imp, m as u32));
            assert(payload@ =~= head + import_entries(is.take(m + 1)));
            m = m + 1;
        }
        assert(is.take(m as int) =~= is);
        self.write_section(SECTION_IMPORT, &payload, wasm);
    }

    fn emit_function_section(&self, program: &Program, wasm: &mut Vec<u8>)
        requires
            program.imports@.len() + program.functions@.len() <= u32::MAX,
        ensures
            final(wasm)@ == old(wasm)@ + section(SECTION_FUNCTION, uleb128((program.functions@.len() as u32) as nat)
                + function_entries(program.imports@.len(), program.functions@.len())),
    {
        let ghost k = program.imports@.len();
        let base = program.imports.len();
        let mut payload: Vec<u8> = Vec::new();
        encode_u32(#[verifier::truncate] (program.functions.len() as u32), &mut payload);
        let mut idx: usize = 0;
        while idx < program.functions.len()
            invariant
                idx <= program.functions@.len(),
                base == k,
                k == program.imports@.len(),
                k + program.functions@.len() <= u32::MAX,
                payload@ == uleb128((program.functions@.len() as u32) as nat) + function_entries(k, idx as nat),
            decreases program.functions@.len() - idx,
        {
            encode_u32((base + idx) as u32, &mut payload);
            assert(payload@ =~= uleb128((program.functions@.len() as u32) as nat) + function_entries(k, (idx + 1) as nat));
            idx = idx + 1;
        }
        self.write_section(SECTION_FUNCTION, &payload, wasm);
    }

    fn emit_memory_section(&self, mem: &MemoryDecl, wasm: &mut Vec<u8>)
        ensures
            final(wasm)@ == old(wasm)@ + section(SECTION_MEMORY, memory_payload(mem.initial_pages, mem.max_pages)),
    {
        let mut payload: Vec<u8> = Vec::new();
        encode_u32(1, &mut payload);
        match mem.max_pages {
            Some(max) => {
                payload.push(0x01);
                encode_u32(mem.initial_pages, &mut payload);
                encode_u32(max, &mut payload);
            },
            None => {
                payload.push(0x00);
                encode_u32(mem.initial_pages, &mut payload);
            },
        }
        assert(payload@ =~= memory_payload(mem.initial_pages, mem.max_pages));
        self.write_section(SECTION_MEMORY, &payload, wasm);
    }

    fn emit_export_section(&self, program: &Program, wasm: &mut Vec<u8>)
        requires
            program.imports@.len() + program.functions@.len() <= u32::MAX,
        ensures
            final(wasm)@ == old(wasm)@ + section(SECTION_EXPORT, uleb128((export_list(*program).len() as u32) as nat) + export_entries(export_list(*program))),
    {
        let ghost fs = program.functions@;
        let ghost k = program.imports@.len();
        let base = program.imports.len();
        let mut exports: Vec<(String, u8, u32)> = Vec::new();
        let mut idx: usize = 0;
        assert(fs.take(0) =~= Seq::<Function>::empty());
        while idx < program.functions.len()
            invariant
                idx <= fs.len(),
                fs == program.functions@,
                base == k,
                k == program.imports@.len(),
                k + fs.len() <= u32::MAX,
                exports@.map_values(|e: (String, u8, u32)| (e.0@, e.1, e.2)) == function_exports(fs.take(idx as int), k),
            decreases fs.len() - idx,
        {
            let ghost before = exports@.map_values(|e: (String, u8, u32)| (e.0@, e.1, e.2));
            assert(fs.take(idx + 1).drop_last() =~= fs.take(idx as int));
            assert(fs.take(idx + 1).last() == fs[idx as int]);
            if program.functions[idx].is_export {
                exports.push((program.functions[idx].name.clone(), EXPORT_DESC_FUNC, (base + idx) as u32));
                assert(exports@.map_values(|e: (String, u8, u32)| (e.0@, e.1, e.2)) =~= function_exports(fs.take(idx + 1), k));
            } else {
                assert(exports@.map_values(|e: (String, u8, u32)| (e.0@, e.1, e.2)) =~= function_exports(fs.take(idx + 1), k));
            }
            idx = idx + 1;
        }
        assert(fs.take(idx as int) =~= fs);
        let export_mem = match &program.memory {
            Some(m) => m.is_export,
            None => true,
        };
        if export_mem {
            exports.push(("memory".to_owned(), EXPORT_DESC_MEM, 0));
        }
        let ghost es = export_list(*program);
        assert(exports@.map_values(|e: (String, u8, u32)| (e.0@, e.1, e.2)) =~= es);
        let mut payload: Vec<u8> = Vec::new();
        encode_u32(#[verifier::truncate] (exports.len() as u32), &mut payload);
        let ghost head = payload@;
        let mut k: usize = 0;
        assert(es.take(0) =~= Seq::<(Seq<char>, u8, u32)>::empty());
        while k < exports.len()
            invariant
                k <= es.len(),
                exports@.len() == es.len(),
                exports@.map_values(|e: (String, u8, u32)| (e.0@, e.1, e.2)) == es,
                head == uleb128((es.len() as u32) as nat),
                payload@ == head + export_entries(es.take(k as int)),
            decreases es.len() - k,
        {
            let entry = &exports[k];
            assert(es[k as int] == (entry.0@, entry.1, entry.2));
            encode_name(entry.0.as_str(), &mut payload);
            payload.push(entry.1);
            encode_u32(entry.2, &mut payload);
            assert(es.take(k + 1).drop_last() =~= es.take(k as int));
            assert(payload@ =~= head + export_entries(es.take(k + 1)));
            k = k + 1;
        }
        assert(es.take(k as int) =~= es);
        self.write_section(SECTION_EXPORT, &payload, wasm);
    }

    fn emit_code_section(&self, program: &Program, wasm: &mut Vec<u8>) -> (r: Result<(), String>)
        requires
            emit_ready(*program),
        ensures
            r is Ok <==> code_entries(self.function_table(), self.result_table(), self.float_constants(), self.string_table(), program.functions@) is Some,
            r is Ok ==> final(wasm)@ == old(wasm)@ + section(SECTION_CODE, uleb128((program.functions@.len() as u32) as nat)
                + code_entries(self.function_table(), self.result_table(), self.float_constants(), self.string_table(), program.functions@)->0),
    {
        let ghost fs = program.functions@;
        let ghost ft = self.function_table();
        let ghost rt = self.result_table();
        let ghost fl = self.float_constants();
        let ghost st = self.string_table();
        let mut payload: Vec<u8> = Vec::new();
        encode_u32(#[verifier::truncate] (program.functions.len() as u32), &mut payload);
        let ghost head = payload@;
        let mut i: usize = 0;
        assert(fs.take(0) =~= Seq::<Function>::empty());
        while i < program.functions.len()
            invariant
                i <= fs.len(),
                fs == program.functions@,
                ft == self.function_table(),
                rt == self.result_table(),
                fl == self.float_constants(),
                st == self.string_table(),
                emit_ready(*program),
                head == uleb128((fs.len() as u32) as nat),
                code_entries(ft, rt, fl, st, fs.take(i as int)) is Some,
                payload@ == head + code_entries(ft, rt, fl, st, fs.take(i as int))->0,
            decreases fs.len() - i,
        {
            assert(function_ready(fs[i as int]));
            assert(fs.take(i + 1).drop_last() =~= fs.take(i as int));
            assert(fs.take(i + 1).last() == fs[i as int]);
            let func_body = match self.compile_function_body(&program.functions[i]) {
                Ok(b) => b,
                Err(m) => {
                    proof { lemma_code_entries_prefix(ft, rt, fl, st, fs, i as nat + 1); }
                    return Err(m);
                },
            };
            encode_u32(#[verifier::truncate] (func_body.len() as u32), &mut payload);
            let ghost mid = payload@;
            payload.extend_from_slice(func_body.as_slice());
            assert(payload@ =~= mid + func_body@);
            assert(payload@ =~= head + code_entries(ft, rt, fl, st, fs.take(i + 1))->0);
            i = i + 1;
        }
        assert(fs.take(i as int) =~= fs);
        self.write_section(SECTION_CODE, &payload, wasm);
        Ok(())
    }

    /// Compiles a program to a WebAssembly binary module. The imports and
    /// functions are registered first (see `program_index_table` and
    /// `program_results`), then the module is written as `module_bytes` says.
    pub fn emit(&mut self, program: &Program) -> (r: Result<Vec<u8>, String>)
        requires
            emit_ready(*program),
        ensures
            final(self).function_table() == old(self).function_table() + program_index_table(*program),
            final(self).result_table() == old(self).result_table() + program_results(*program),
            final(self).float_constants() == old(self).float_constants(),
            r is Ok <==> module_bytes(final(self).function_table(), final(self).result_table(), final(self).float_constants(), *program) is Some,
            r matches Ok(v) ==> v@ == module_bytes(final(self).function_table(), final(self).result_table(), final(self).float_constants(), *program)->0,
    {
        let mut wasm: Vec<u8> = Vec::new();
        wasm.push(0x00);
        wasm.push(0x61);
        wasm.push(0x73);
        wasm.push(0x6D);
        wasm.push(0x01);
        wasm.push(0x00);
        wasm.push(0x00);
        wasm.push(0x00);
        self.register(program);
        self.emit_type_section(program, &mut wasm);
        self.emit_import_section(program, &mut wasm);
        self.emit_function_section(program, &mut wasm);
        match &program.memory {
            Some(mem) => self.emit_memory_section(mem, &mut wasm),
            None => {
                let default_mem = MemoryDecl { initial_pages: 1, max_pages: None, is_export: true, span: Span::new(0, 0, 0) };
                self.emit_memory_section(&default_mem, &mut wasm);
            },
        }
        self.emit_export_section(program, &mut wasm);
        let literals = collect_program_strings(program);
        let data = match layout_string_data(&literals) {
            Some((table, data)) => {
                self.strings = table;
                data
            },
            None => {
                return Err(concat(vec!["String literals do not fit in the static data segment"]));
            },
        };
        self.emit_code_section(program, &mut wasm)?;
        self.emit_data_section(&data, &mut wasm);
        assert(wasm@ =~= module_bytes(self.function_table(), self.result_table(), self.float_constants(), *program)->0);
        Ok(wasm)
    }

    fn emit_data_section(&self, data: &Vec<u8>, wasm: &mut Vec<u8>)
        requires
            data@ == string_data(self.string_table()),
        ensures
            final(wasm)@ == old(wasm)@ + data_section(self.string_table()),
    {
        if self.strings.len() == 0 {
            assert(final(wasm)@ =~= old(wasm)@ + data_section(self.string_table()));
            return;
        }
        let mut payload: Vec<u8> = Vec::new();
        encode_u32(1, &mut payload);
        payload.push(0x00);
        payload.push(I32_CONST);
        encode_i32(0, &mut payload);
        payload.push(END);
        encode_u32(#[verifier::truncate] (data.len() as u32), &mut payload);
        let ghost mid = payload@;
        payload.extend_from_slice(data.as_slice());
        assert(payload@ =~= mid + data@);
        self.write_section(SECTION_DATA, &payload, wasm);
    }

    /// Registers the imports, then the functions, with their indices and
    /// result types.
    fn register(&mut self, program: &Program)
        requires
            emit_ready(*program),
        ensures
            final(self).function_table() == old(self).function_table() + program_index_table(*program),
            final(self).result_table() == old(self).result_table() + program_results(*program),
            final(self).float_constants() == old(self).float_constants(),
    {
        let ghost is = program.imports@;
        let ghost fs = program.functions@;
        let ghost t0 = self.function_table();
        let ghost r0 = self.result_table();
        let mut m: usize = 0;
        while m < program.imports.len()
            invariant
                m <= is.len(),
                is == program.imports@,
                is.len() + fs.len() <= u32::MAX,
                self.float_constants() == old(self).float_constants(),
                self.function_table() == t0 + Seq::new(m as nat, |i: int| (is[i].name@, i as u32)),
                self.result_table() == r0 + is.take(m as int).map_values(|x: ImportFunc| (x.name@, x.return_type)),
                t0 == old(self).function_table(),
                r0 == old(self).result_table(),
            decreases is.len() - m,
        {
            let ghost before = self.function_table();
            let ghost rbefore = self.result_table();
            self.results.push((program.imports[m].name.clone(), program.imports[m].return_type));
            assert(self.result_table() =~= rbefore.push((is[m as int].name@, is[m as int].return_type)));
            assert(is.take(m + 1) =~= is.take(m as int).push(is[m as int]));
            assert(self.result_table() =~= r0 + is.take(m + 1).map_values(|x: ImportFunc| (x.name@, x.return_type)));
            self.functions.push((program.imports[m].name.clone(), m as u32));
            assert(self.function_table() =~= before.push((is[m as int].name@, (m as int) as u32)));
            assert(self.function_table() =~= t0 + Seq::new((m + 1) as nat, |i: int| (is[i].name@, i as u32)));
            m = m + 1;
        }
        assert(is.take(m as int) =~= is);
        let ghost t1 = self.function_table();
        let ghost r1 = self.result_table();
        let base = program.imports.len();
        let mut idx: usize = 0;
        assert(t1 =~= t1 + Seq::new(0, |j: int| (fs[j].name@, (is.len() + j) as u32)));
        assert(r1 =~= r1 + results_of(fs.take(0)));
        while idx < program.functions.len()
            invariant
                idx <= fs.len(),
                fs == program.functions@,
                base == is.len(),
                is.len() + fs.len() <= u32::MAX,
                self.float_constants() == old(self).float_constants(),
                self.function_table() == t1 + Seq::new(idx as nat, |j: int| (fs[j].name@, (is.len() + j) as u32)),
                self.result_table() == r1 + results_of(fs.take(idx as int)),
            decreases fs.len() - idx,
        {
            let ghost before = self.function_table();
            let ghost rbefore = self.result_table();
            self.results.push((program.functions[idx].name.clone(), program.functions[idx].return_type));
            assert(self.result_table() =~= rbefore.push((fs[idx as int].name@, fs[idx as int].return_type)));
            assert(fs.take(idx + 1) =~= fs.take(idx as int).push(fs[idx as int]));
            assert(results_of(fs.take(idx + 1)) =~= results_of(fs.take(idx as int)).push((fs[idx as int].name@, fs[idx as int].return_type)));
            self.functions.push((program.functions[idx].name.clone(), (base + idx) as u32));
            assert(self.function_table() =~= before.push((fs[idx as int].name@, (is.len() + idx) as u32)));
            assert(self.function_table() =~= t1 + Seq::new((idx + 1) as nat, |j: int| (fs[j].name@, (is.len() + j) as u32)));
            idx = idx + 1;
        }
        assert(fs.take(idx as int) =~= fs);
        assert(self.function_table() =~= t0 + program_index_table(*program));
        assert(self.result_table() =~= r0 + program_results(*program));
    }
}

} // verus!
