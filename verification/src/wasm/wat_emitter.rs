//! WebAssembly text format (S-expression) emission for Nova programs.
use vstd::prelude::*;
use vstd::string::StringExecFns;
use crate::ast::{BinaryOp, Expression, ImportFunc, Param, Program, Statement, Type, UnaryOp, type_text};
use crate::text::{decimal, decimal_int, push_i64, push_u64};
use crate::wasm::opcodes::i32_instruction_name;
use crate::wasm::binary_emitter::{binop_code, FloatConst, IndexTable, ResultTable, STATIC_DATA_END, collect_let_locals, collect_program_strings, functions_strings, layout_string_data, layout_strings, lookup, lookup_index, string_data, table_view, leaves_value, let_locals, lookup_ret, program_result_table, program_results, results_view};

verus! {

/// The shortest decimal form of the first float constant with the given
/// digits, or the digits themselves when none has them.
pub open spec fn float_display(floats: Seq<FloatConst>, text: Seq<char>) -> Seq<char>
    decreases floats.len(),
{
    if floats.len() == 0 {
        text
    } else if floats[0].text@ == text {
        floats[0].display@
    } else {
        float_display(floats.drop_first(), text)
    }
}

/// The text instruction of each binary operator.
pub open spec fn binop_text(op: BinaryOp) -> Seq<char> {
    match op {
        BinaryOp::Add => "i32.add"@,
        BinaryOp::Sub => "i32.sub"@,
        BinaryOp::Mul => "i32.mul"@,
        BinaryOp::Div => "i32.div_s"@,
        BinaryOp::Rem => "i32.rem_s"@,
        BinaryOp::Eq => "i32.eq"@,
        BinaryOp::Ne => "i32.ne"@,
        BinaryOp::Lt => "i32.lt_s"@,
        BinaryOp::Le => "i32.le_s"@,
        BinaryOp::Gt => "i32.gt_s"@,
        BinaryOp::Ge => "i32.ge_s"@,
        BinaryOp::BitAnd => "i32.and"@,
        BinaryOp::BitOr => "i32.or"@,
        BinaryOp::BitXor => "i32.xor"@,
        BinaryOp::Shl => "i32.shl"@,
        BinaryOp::Shr => "i32.shr_s"@,
        BinaryOp::LogicalAnd => "i32.and"@,
        BinaryOp::LogicalOr => "i32.or"@,
    }
}

/// The text written for each binary operator is the standard name of the
/// instruction the binary emitter writes for it, so both formats compute the
/// same value (see `lemma_binop_code_meaning`).
pub proof fn lemma_binop_text_names_instruction(op: BinaryOp)
    ensures
        binop_text(op) == i32_instruction_name(binop_code(op)),
{
}

/// A binary expression's text is its operands' text, then the line naming
/// the instruction that computes the operator.
pub proof fn lemma_binary_expression_text(floats: Seq<FloatConst>, strs: IndexTable, op: BinaryOp, left: Expression,
    right: Expression, span: crate::token::Span, pad: Seq<char>)
    ensures
        wat_expr(floats, strs, Expression::Binary { op, left: Box::new(left), right: Box::new(right), span }, pad)
            == wat_expr(floats, strs, left, pad) + wat_expr(floats, strs, right, pad)
                + line(pad, i32_instruction_name(binop_code(op))),
{
    lemma_binop_text_names_instruction(op);
}

/// A unary expression's text writes the instructions the binary emitter
/// writes for it, by their standard names: `i32.const 0`, the operand, the
/// subtraction for `-`; the operand and the zero test for `!`.
pub proof fn lemma_unary_expression_text(floats: Seq<FloatConst>, strs: IndexTable, op: UnaryOp, e: Expression,
    span: crate::token::Span, pad: Seq<char>)
    ensures
        wat_expr(floats, strs, Expression::Unary { op, expr: Box::new(e), span }, pad) == match op {
            UnaryOp::Neg => line(pad, "i32.const 0"@) + wat_expr(floats, strs, e, pad)
                + line(pad, i32_instruction_name(crate::wasm::opcodes::I32_SUB)),
            UnaryOp::Not => wat_expr(floats, strs, e, pad) + line(pad, i32_instruction_name(crate::wasm::opcodes::I32_EQZ)),
        },
{
}

/// A load or store names the value type the binary emitter accesses for
/// the same type.
pub proof fn lemma_access_type_names_value_type(t: Type)
    requires
        crate::wasm::binary_emitter::load_code(t) is Some,
    ensures
        access_type_text(t) == crate::wasm::opcodes::value_type_name(crate::wasm::binary_emitter::val_type_code(t)),
{
}

/// One line of instruction text: indentation, text, newline.
pub open spec fn line(pad: Seq<char>, t: Seq<char>) -> Seq<char> {
    pad + t + "\n"@
}

/// The value type a memory access of type `t` works on.
pub open spec fn access_type_text(t: Type) -> Seq<char> {
    match t {
        Type::I64 => "i64"@,
        Type::F32 => "f32"@,
        Type::F64 => "f64"@,
        _ => "i32"@,
    }
}

/// A load or store instruction of type `t`, with its offset when that is not
/// zero.
pub open spec fn mem_text(t: Type, store: bool, offset: u32) -> Seq<char> {
    access_type_text(t) + (if store { ".store"@ } else { ".load"@ })
        + (if offset == 0 { Seq::<char>::empty() } else { " offset="@ + decimal(offset as nat) })
}

/// The branch depth inside one more block, kept at `u64::MAX` once there.
pub open spec fn deeper(brk: Option<u64>) -> Option<u64> {
    match brk {
        Some(d) => Some(if d < u64::MAX { (d + 1) as u64 } else { d }),
        None => None,
    }
}

/// The text of an expression, each instruction on a line of its own with
/// indentation `pad`. A string literal is its address in `strs`
/// (`unreachable` when it has none).
pub open spec fn wat_expr(floats: Seq<FloatConst>, strs: IndexTable, e: Expression, pad: Seq<char>) -> Seq<char>
    decreases e,
{
    match e {
        Expression::LiteralInt(v, _) => line(pad, "i32.const "@ + decimal_int(v as int)),
        Expression::LiteralFloat(text, _) => line(pad, "f32.const "@ + float_display(floats, text@)),
        Expression::LiteralBool(b, _) => line(pad, if b { "i32.const 1"@ } else { "i32.const 0"@ }),
        Expression::LiteralString(text, _) => match lookup_index(strs, text@) {
            Some(addr) => line(pad, "i32.const "@ + decimal(addr as nat)),
            None => line(pad, "unreachable"@),
        },
        Expression::Variable(name, _) => line(pad, "local.get $"@ + name@),
        Expression::Binary { op, left, right, .. } =>
            wat_expr(floats, strs, *left, pad) + wat_expr(floats, strs, *right, pad) + line(pad, binop_text(op)),
        Expression::Unary { op, expr, .. } => match op {
            UnaryOp::Neg => line(pad, "i32.const 0"@) + wat_expr(floats, strs, *expr, pad) + line(pad, "i32.sub"@),
            UnaryOp::Not => wat_expr(floats, strs, *expr, pad) + line(pad, "i32.eqz"@),
        },
        Expression::Call { callee, args, .. } => wat_args(floats, strs, args@, pad) + line(pad, "call $"@ + callee@),
        Expression::MemoryLoad { ty, ptr, offset, .. } => wat_expr(floats, strs, *ptr, pad) + line(pad, mem_text(ty, false, offset)),
    }
}

/// The text of several expressions, one after the other.
pub open spec fn wat_args(floats: Seq<FloatConst>, strs: IndexTable, args: Seq<Expression>, pad: Seq<char>) -> Seq<char>
    decreases args,
{
    if args.len() == 0 {
        Seq::empty()
    } else {
        wat_expr(floats, strs, args[0], pad) + wat_args(floats, strs, args.drop_first(), pad)
    }
}

/// The text of a statement with indentation `pad`; nested blocks are
/// indented by two more spaces per level. `brk` is the depth of the
/// innermost loop's exit block seen from here (`None` outside loops): a
/// `break` branches there, and outside loops it is `unreachable`. An
/// expression statement drops the value it leaves, if any (`rets` gives the
/// result types of the functions it may call).
pub open spec fn wat_stmt(floats: Seq<FloatConst>, strs: IndexTable, rets: ResultTable, st: Statement, pad: Seq<char>, brk: Option<u64>) -> Seq<char>
    decreases st,
{
    let inner = pad + "  "@;
    match st {
        Statement::Let { name, init, .. } => wat_expr(floats, strs, init, pad) + line(pad, "local.set $"@ + name@),
        Statement::Assignment { target, value, .. } => wat_expr(floats, strs, value, pad) + line(pad, "local.set $"@ + target@),
        Statement::MemoryStore { ty, ptr, offset, value, .. } =>
            wat_expr(floats, strs, ptr, pad) + wat_expr(floats, strs, value, pad) + line(pad, mem_text(ty, true, offset)),
        Statement::If { condition, then_branch, else_branch, .. } =>
            wat_expr(floats, strs, condition, pad) + line(pad, "if"@) + wat_stmts(floats, strs, rets, then_branch.statements@, inner, deeper(brk))
                + match else_branch {
                    Some(b) => line(pad, "else"@) + wat_stmts(floats, strs, rets, b.statements@, inner, deeper(brk)),
                    None => Seq::empty(),
                }
                + line(pad, "end"@),
        Statement::While { condition, body, .. } => {
            let inner2 = inner + "  "@;
            line(pad, "block"@) + line(inner, "loop"@) + wat_expr(floats, strs, condition, inner2)
                + line(inner2, "i32.eqz"@) + line(inner2, "br_if 1"@)
                + wat_stmts(floats, strs, rets, body.statements@, inner2, Some(1))
                + line(inner2, "br 0"@) + line(inner, "end"@) + line(pad, "end"@)
        },
        Statement::Return { value, .. } => match value {
            Some(e) => wat_expr(floats, strs, e, pad) + line(pad, "return"@),
            None => line(pad, "return"@),
        },
        Statement::Break(_) => match brk {
            Some(d) => line(pad, "br "@ + decimal(d as nat)),
            None => line(pad, "unreachable"@),
        },
        Statement::Expr { expr, .. } => wat_expr(floats, strs, expr, pad)
            + if leaves_value(rets, expr) { line(pad, "drop"@) } else { Seq::empty() },
    }
}

/// The text of statements, one after the other.
pub open spec fn wat_stmts(floats: Seq<FloatConst>, strs: IndexTable, rets: ResultTable, s: Seq<Statement>, pad: Seq<char>, brk: Option<u64>) -> Seq<char>
    decreases s,
{
    if s.len() == 0 {
        Seq::empty()
    } else {
        wat_stmt(floats, strs, rets, s[0], pad, brk) + wat_stmts(floats, strs, rets, s.drop_first(), pad, brk)
    }
}

/// ` (param $name type)` for each parameter.
pub open spec fn wat_params(ps: Seq<Param>) -> Seq<char>
    decreases ps.len(),
{
    if ps.len() == 0 {
        Seq::empty()
    } else {
        wat_params(ps.drop_last()) + " (param $"@ + ps.last().name@ + " "@ + type_text(ps.last().ty) + ")"@
    }
}

/// ` (result type)` unless the type is `void`.
pub open spec fn wat_result(t: Type) -> Seq<char> {
    if t == Type::Void { Seq::empty() } else { " (result "@ + type_text(t) + ")"@ }
}

/// The memory line.
pub open spec fn wat_memory(p: Program) -> Seq<char> {
    match p.memory {
        Some(m) => {
            let export_str = if m.is_export { " (export \"memory\")"@ } else { ""@ };
            match m.max_pages {
                Some(max) => "  (memory"@ + export_str + " "@ + decimal(m.initial_pages as nat) + " "@ + decimal(max as nat) + ")\n"@,
                None => "  (memory"@ + export_str + " "@ + decimal(m.initial_pages as nat) + ")\n"@,
            }
        },
        None => "  (memory (export \"memory\") 1)\n"@,
    }
}

/// The import lines.
pub open spec fn wat_imports(imps: Seq<ImportFunc>) -> Seq<char>
    decreases imps.len(),
{
    if imps.len() == 0 {
        Seq::empty()
    } else {
        let imp = imps.last();
        wat_imports(imps.drop_last()) + "  (import \""@ + imp.module@ + "\" \""@ + imp.field@ + "\" (func $"@ + imp.name@
            + wat_params(imp.params@) + wat_result(imp.return_type) + "))\n"@
    }
}

/// The local declaration lines of a function.
pub open spec fn wat_locals(lets: Seq<(Seq<char>, Type)>) -> Seq<char>
    decreases lets.len(),
{
    if lets.len() == 0 {
        Seq::empty()
    } else {
        wat_locals(lets.drop_last()) + "    (local $"@ + lets.last().0 + " "@ + type_text(lets.last().1) + ")\n"@
    }
}

/// The text of one function.
pub open spec fn wat_function(floats: Seq<FloatConst>, strs: IndexTable, rets: ResultTable, f: crate::ast::Function) -> Seq<char> {
    "  (func $"@ + f.name@ + (if f.is_export { " (export \""@ + f.name@ + "\")"@ } else { ""@ })
        + wat_params(f.params@) + wat_result(f.return_type) + "\n"@
        + wat_locals(let_locals(f.body.statements@))
        + wat_stmts(floats, strs, rets, f.body.statements@, "    "@, None)
        + "  )\n"@
}

/// The text of the functions, one after the other.
pub open spec fn wat_functions(floats: Seq<FloatConst>, strs: IndexTable, rets: ResultTable, fs: Seq<crate::ast::Function>) -> Seq<char>
    decreases fs.len(),
{
    if fs.len() == 0 {
        Seq::empty()
    } else {
        wat_functions(floats, strs, rets, fs.drop_last()) + wat_function(floats, strs, rets, fs.last())
    }
}

/// The addresses of a program's string literals, laid out as in the binary
/// module; none when they do not fit below `STATIC_DATA_END`.
pub open spec fn wat_string_table(p: Program) -> IndexTable {
    let (t, end) = layout_strings(functions_strings(p.functions@));
    if end <= STATIC_DATA_END { t } else { Seq::empty() }
}

/// A hexadecimal digit.
pub open spec fn hex_digit(n: u8) -> char {
    if n < 10 { ((48 + n) as u8) as char } else { ((87 + n) as u8) as char }
}

/// Bytes inside a text-format string, each escaped as a backslash and two
/// hexadecimal digits.
pub open spec fn wat_bytes(d: Seq<u8>) -> Seq<char>
    decreases d.len(),
{
    if d.len() == 0 {
        Seq::empty()
    } else {
        wat_bytes(d.drop_last()) + seq!['\\', hex_digit(d.last() / 16), hex_digit(d.last() % 16)]
    }
}

/// The data line holding the string data at address 0; none when there is
/// no string.
pub open spec fn wat_data(t: IndexTable) -> Seq<char> {
    if t.len() == 0 {
        Seq::empty()
    } else {
        "  (data (i32.const 0) \""@ + wat_bytes(string_data(t)) + "\")\n"@
    }
}

/// The text of a whole module: memory, imports, functions, string data.
pub open spec fn wat_module(floats: Seq<FloatConst>, p: Program) -> Seq<char> {
    let strs = wat_string_table(p);
    "(module\n"@ + wat_memory(p) + wat_imports(p.imports@) + wat_functions(floats, strs, program_results(p), p.functions@)
        + wat_data(strs) + ")\n"@
}

/// Every text module opens with `(module` and a newline, and closes with
/// `)` and a newline.
pub proof fn lemma_wat_module_frame(floats: Seq<FloatConst>, p: Program)
    ensures
        wat_module(floats, p).len() >= 10,
        wat_module(floats, p).subrange(0, 8) == "(module\n"@,
        wat_module(floats, p).subrange(wat_module(floats, p).len() - 2, wat_module(floats, p).len() as int) == ")\n"@,
{
    reveal_strlit("(module\n");
    reveal_strlit(")\n");
    let w = wat_module(floats, p);
    let strs = wat_string_table(p);
    let body = wat_memory(p) + wat_imports(p.imports@) + wat_functions(floats, strs, program_results(p), p.functions@) + wat_data(strs);
    assert(w == "(module\n"@ + body + ")\n"@);
    assert(w.subrange(0, 8) =~= "(module\n"@);
    assert(w.subrange(w.len() - 2, w.len() as int) =~= ")\n"@);
}

/// The text format emitter.
pub struct WatEmitter;

fn push_float_text(floats: &Vec<FloatConst>, text: &String, out: &mut String)
    ensures
        final(out)@ == old(out)@ + float_display(floats@, text@),
{
    let mut i: usize = 0;
    assert(floats@.subrange(0, floats@.len() as int) =~= floats@);
    while i < floats.len()
        invariant
            i <= floats@.len(),
            *out == *old(out),
            float_display(floats@, text@) == float_display(floats@.subrange(i as int, floats@.len() as int), text@),
        decreases floats@.len() - i,
    {
        assert(floats@.subrange(i as int, floats@.len() as int).drop_first() =~= floats@.subrange(i + 1, floats@.len() as int));
        if floats[i].text == *text {
            out.append(floats[i].display.as_str());
            return;
        }
        i = i + 1;
    }
    out.append(text.as_str());
}

fn push_hex_digit(out: &mut String, n: u8)
    requires
        n < 16,
    ensures
        final(out)@ == old(out)@.push(hex_digit(n)),
{
    let c: char = if n < 10 { (48 + n) as char } else { (87 + n) as char };
    out.push(c);
}

fn push_wat_bytes(out: &mut String, d: &Vec<u8>)
    ensures
        final(out)@ == old(out)@ + wat_bytes(d@),
{
    let ghost o = out@;
    let mut i: usize = 0;
    assert(d@.take(0) =~= Seq::<u8>::empty());
    assert(o =~= o + wat_bytes(d@.take(0)));
    while i < d.len()
        invariant
            i <= d@.len(),
            out@ == o + wat_bytes(d@.take(i as int)),
        decreases d@.len() - i,
    {
        let b = d[i];
        out.push('\\');
        push_hex_digit(out, b / 16);
        push_hex_digit(out, b % 16);
        assert(d@.take(i + 1).drop_last() =~= d@.take(i as int));
        assert(out@ =~= o + wat_bytes(d@.take(i + 1)));
        i = i + 1;
    }
    assert(d@.take(i as int) =~= d@);
}

fn push_line(out: &mut String, pad: &String, t: &str)
    ensures
        final(out)@ == old(out)@ + line(pad@, t@),
{
    out.append(pad.as_str());
    out.append(t);
    out.append("\n");
    assert(final(out)@ =~= old(out)@ + line(pad@, t@));
}

fn push_line_named(out: &mut String, pad: &String, t: &str, name: &String)
    ensures
        final(out)@ == old(out)@ + line(pad@, t@ + name@),
{
    out.append(pad.as_str());
    out.append(t);
    out.append(name.as_str());
    out.append("\n");
    assert(final(out)@ =~= old(out)@ + line(pad@, t@ + name@));
}

fn push_type(out: &mut String, t: Type)
    ensures
        final(out)@ == old(out)@ + type_text(t),
{
    out.append(t.name());
}

fn push_mem_line(out: &mut String, pad: &String, t: Type, store: bool, offset: u32)
    ensures
        final(out)@ == old(out)@ + line(pad@, mem_text(t, store, offset)),
{
    let ghost o = out@;
    out.append(pad.as_str());
    let ty_str = match t {
        Type::I64 => "i64",
        Type::F32 => "f32",
        Type::F64 => "f64",
        _ => "i32",
    };
    assert(ty_str@ == access_type_text(t));
    out.append(ty_str);
    if store {
        out.append(".store");
    } else {
        out.append(".load");
    }
    let ghost mid = out@;
    if offset != 0 {
        out.append(" offset=");
        push_u64(out, offset as u64);
    } else {
        assert(out@ =~= mid + Seq::<char>::empty());
    }
    out.append("\n");
    assert(out@ =~= o + line(pad@, mem_text(t, store, offset)));
}

fn push_params(out: &mut String, ps: &Vec<Param>)
    ensures
        final(out)@ == old(out)@ + wat_params(ps@),
{
    let mut i: usize = 0;
    assert(ps@.take(0) =~= Seq::<Param>::empty());
    assert(old(out)@ =~= old(out)@ + wat_params(ps@.take(0)));
    while i < ps.len()
        invariant
            i <= ps@.len(),
            out@ == old(out)@ + wat_params(ps@.take(i as int)),
        decreases ps@.len() - i,
    {
        out.append(" (param $");
        out.append(ps[i].name.as_str());
        out.append(" ");
        push_type(out, ps[i].ty);
        out.append(")");
        assert(ps@.take(i + 1).drop_last() =~= ps@.take(i as int));
        assert(out@ =~= old(out)@ + wat_params(ps@.take(i + 1)));
        i = i + 1;
    }
    assert(ps@.take(i as int) =~= ps@);
}

fn push_result(out: &mut String, t: Type)
    ensures
        final(out)@ == old(out)@ + wat_result(t),
{
    if t != Type::Void {
        out.append(" (result ");
        push_type(out, t);
        out.append(")");
        assert(out@ =~= old(out)@ + wat_result(t));
    } else {
        assert(out@ =~= old(out)@ + wat_result(t));
    }
}

impl WatEmitter {
    /// The text of a program whose float literals are written as their digits.
    pub fn emit(program: &Program) -> (r: String)
        ensures
            r@ == wat_module(Seq::empty(), *program),
    {
        let floats: Vec<FloatConst> = Vec::new();
        Self::emit_with_float_constants(program, &floats)
    }

    /// The text of a program, float literals written as the given constants
    /// say (as their digits when no constant has them).
    #[verifier::spinoff_prover]
    #[verifier::rlimit(40)]
    pub fn emit_with_float_constants(program: &Program, floats: &Vec<FloatConst>) -> (r: String)
        ensures
            r@ == wat_module(floats@, *program),
    {
        let mut out = String::new();
        out.append("(module\n");
        match &program.memory {
            Some(mem) => {
                let export_str = if mem.is_export { " (export \"memory\")" } else { "" };
                out.append("  (memory");
                out.append(export_str);
                out.append(" ");
                push_u64(&mut out, mem.initial_pages as u64);
                match mem.max_pages {
                    Some(max) => {
                        out.append(" ");
                        push_u64(&mut out, max as u64);
                        out.append(")\n");
                    },
                    None => {
                        out.append(")\n");
                    },
                }
            },
            None => {
                out.append("  (memory (export \"memory\") 1)\n");
            },
        }
        assert(out@ =~= "(module\n"@ + wat_memory(*program));
        let ghost head = out@;
        let ghost imps = program.imports@;
        let mut i: usize = 0;
        assert(imps.take(0) =~= Seq::<ImportFunc>::empty());
        assert(head =~= head + wat_imports(imps.take(0)));
        while i < program.imports.len()
            invariant
                i <= imps.len(),
                imps == program.imports@,
                out@ == head + wat_imports(imps.take(i as int)),
            decreases imps.len() - i,
        {
            let imp = &program.imports[i];
            out.append("  (import \"");
            out.append(imp.module.as_str());
            out.append("\" \"");
            out.append(imp.field.as_str());
            out.append("\" (func $");
            out.append(imp.name.as_str());
            push_params(&mut out, &imp.params);
            push_result(&mut out, imp.return_type);
            out.append("))\n");
            assert(imps.take(i + 1).drop_last() =~= imps.take(i as int));
            assert(out@ =~= head + wat_imports(imps.take(i + 1)));
            i = i + 1;
        }
        assert(imps.take(i as int) =~= imps);
        let literals = collect_program_strings(program);
        let (strs, data) = match layout_string_data(&literals) {
            Some(laid) => laid,
            None => (Vec::new(), Vec::new()),
        };
        let ghost sv = table_view(strs@);
        assert(sv =~= wat_string_table(*program));
        let rets = program_result_table(program);
        let ghost rt = program_results(*program);
        let ghost head2 = out@;
        let ghost fs = program.functions@;
        let mut j: usize = 0;
        assert(fs.take(0) =~= Seq::<crate::ast::Function>::empty());
        assert(head2 =~= head2 + wat_functions(floats@, sv, rt, fs.take(0)));
        while j < program.functions.len()
            invariant
                j <= fs.len(),
                fs == program.functions@,
                out@ == head2 + wat_functions(floats@, sv, rt, fs.take(j as int)),
                sv == table_view(strs@),
                results_view(rets@) == rt,
            decreases fs.len() - j,
        {
            let ghost before = out@;
            Self::emit_function(floats, &strs, &rets, &program.functions[j], &mut out);
            assert(fs.take(j + 1).drop_last() =~= fs.take(j as int));
            assert(out@ =~= before + wat_function(floats@, sv, rt, fs[j as int]));
            assert(out@ =~= head2 + wat_functions(floats@, sv, rt, fs.take(j + 1)));
            j = j + 1;
        }
        assert(fs.take(j as int) =~= fs);
        let ghost head3 = out@;
        if strs.len() > 0 {
            out.append("  (data (i32.const 0) \"");
            push_wat_bytes(&mut out, &data);
            out.append("\")\n");
        }
        assert(out@ =~= head3 + wat_data(sv));
        out.append(")\n");
        assert(out@ =~= wat_module(floats@, *program));
        out
    }

    fn emit_function(floats: &Vec<FloatConst>, strs: &Vec<(String, u32)>, rets: &Vec<(String, Type)>, func: &crate::ast::Function, out: &mut String)
        ensures
            final(out)@ == old(out)@ + wat_function(floats@, table_view(strs@), results_view(rets@), *func),
    {
        let ghost before = out@;
        out.append("  (func $");
        out.append(func.name.as_str());
        if func.is_export {
            out.append(" (export \"");
            out.append(func.name.as_str());
            out.append("\")");
        } else {
            out.append("");
        }
        push_params(out, &func.params);
        push_result(out, func.return_type);
        out.append("\n");
        let mut declared: Vec<(String, Type)> = Vec::new();
        collect_let_locals(&func.body.statements, &mut declared);
        let ghost lets = let_locals(func.body.statements@);
        assert(declared@.map_values(|p: (String, Type)| (p.0@, p.1)) =~= lets);
        let ghost mid = out@;
        let mut k: usize = 0;
        assert(lets.take(0) =~= Seq::<(Seq<char>, Type)>::empty());
        assert(mid =~= mid + wat_locals(lets.take(0)));
        while k < declared.len()
            invariant
                k <= lets.len(),
                declared@.len() == lets.len(),
                declared@.map_values(|p: (String, Type)| (p.0@, p.1)) == lets,
                out@ == mid + wat_locals(lets.take(k as int)),
            decreases lets.len() - k,
        {
            assert(lets[k as int] == (declared@[k as int].0@, declared@[k as int].1));
            out.append("    (local $");
            out.append(declared[k].0.as_str());
            out.append(" ");
            push_type(out, declared[k].1);
            out.append(")\n");
            assert(lets.take(k + 1).drop_last() =~= lets.take(k as int));
            assert(out@ =~= mid + wat_locals(lets.take(k + 1)));
            k = k + 1;
        }
        assert(lets.take(k as int) =~= lets);
        let pad = String::from_str("    ");
        Self::emit_statements(floats, strs, rets, &func.body.statements, &pad, None, out);
        out.append("  )\n");
        assert(out@ =~= before + wat_function(floats@, table_view(strs@), results_view(rets@), *func));
    }

    fn emit_statements(
        floats: &Vec<FloatConst>,
        strs: &Vec<(String, u32)>,
        rets: &Vec<(String, Type)>,
        stmts: &Vec<Statement>,
        pad: &String,
        brk: Option<u64>,
        out: &mut String,
    )
        ensures
            final(out)@ == old(out)@ + wat_stmts(floats@, table_view(strs@), results_view(rets@), stmts@, pad@, brk),
        decreases stmts,
    {
        let mut i: usize = 0;
        assert(stmts@.subrange(0, stmts@.len() as int) =~= stmts@);
        while i < stmts.len()
            invariant
                i <= stmts@.len(),
                old(out)@ + wat_stmts(floats@, table_view(strs@), results_view(rets@), stmts@, pad@, brk)
                    == out@ + wat_stmts(floats@, table_view(strs@), results_view(rets@), stmts@.subrange(i as int, stmts@.len() as int), pad@, brk),
            decreases stmts@.len() - i,
        {
            let ghost tail = stmts@.subrange(i as int, stmts@.len() as int);
            assert(tail.drop_first() =~= stmts@.subrange(i + 1, stmts@.len() as int));
            assert(tail[0] == stmts@[i as int]);
            let ghost before = out@;
            proof { assert(decreases_to!(*stmts => stmts@[i as int])); }
            Self::emit_statement(floats, strs, rets, &stmts[i], pad, brk, out);
            assert(before + wat_stmts(floats@, table_view(strs@), results_view(rets@), tail, pad@, brk)
                =~= out@ + wat_stmts(floats@, table_view(strs@), results_view(rets@), stmts@.subrange(i + 1, stmts@.len() as int), pad@, brk));
            i = i + 1;
        }
        assert(stmts@.subrange(i as int, stmts@.len() as int) =~= Seq::<Statement>::empty());
        assert(out@ + Seq::<char>::empty() =~= out@);
    }

    /// Writes one statement (see `wat_stmt`). A `break` branches to the exit
    /// block of the innermost loop; outside any loop there is no block to
    /// leave, and the text writes `unreachable` where the binary emitter
    /// refuses the statement. An expression statement is followed by `drop`
    /// exactly when it leaves a value, the rule the binary emitter follows: a
    /// call of a `void` function leaves none.
    #[verifier::spinoff_prover]
    #[verifier::rlimit(80)]
    fn emit_statement(
        floats: &Vec<FloatConst>,
        strs: &Vec<(String, u32)>,
        rets: &Vec<(String, Type)>,
        stmt: &Statement,
        pad: &String,
        brk: Option<u64>,
        out: &mut String,
    )
        ensures
            final(out)@ == old(out)@ + wat_stmt(floats@, table_view(strs@), results_view(rets@), *stmt, pad@, brk),
        decreases stmt,
    {
        let ghost rt = results_view(rets@);
        let inner_brk = match brk {
            Some(d) => Some(if d < u64::MAX { d + 1 } else { d }),
            None => None,
        };
        let mut inner = pad.clone();
        inner.append("  ");
        let ghost fl = floats@;
        let ghost sv = table_view(strs@);
        let ghost o = out@;
        match stmt {
            Statement::Let { name, init, .. } => {
                Self::emit_expression(floats, strs, init, pad, out);
                push_line_named(out, pad, "local.set $", name);
                assert(out@ =~= o + wat_stmt(fl, sv, rt, *stmt, pad@, brk));
            },
            Statement::Assignment { target, value, .. } => {
                Self::emit_expression(floats, strs, value, pad, out);
                push_line_named(out, pad, "local.set $", target);
                assert(out@ =~= o + wat_stmt(fl, sv, rt, *stmt, pad@, brk));
            },
            Statement::MemoryStore { ty, ptr, offset, value, .. } => {
                Self::emit_expression(floats, strs, ptr, pad, out);
                Self::emit_expression(floats, strs, value, pad, out);
                push_mem_line(out, pad, *ty, true, *offset);
                assert(out@ =~= o + wat_stmt(fl, sv, rt, *stmt, pad@, brk));
            },
            Statement::If { condition, then_branch, else_branch, .. } => {
                Self::emit_expression(floats, strs, condition, pad, out);
                push_line(out, pad, "if");
                proof { assert(decreases_to!(*stmt => then_branch.statements)); }
                Self::emit_statements(floats, strs, rets, &then_branch.statements, &inner, inner_brk, out);
                let ghost mid = out@;
                match else_branch {
                    Some(else_b) => {
                        push_line(out, pad, "else");
                        proof { assert(decreases_to!(*stmt => else_b.statements)); }
                        Self::emit_statements(floats, strs, rets, &else_b.statements, &inner, inner_brk, out);
                        assert(out@ =~= mid + (line(pad@, "else"@) + wat_stmts(fl, sv, rt, else_b.statements@, inner@, deeper(brk))));
                    },
                    None => {
                        assert(out@ =~= mid + Seq::<char>::empty());
                    },
                }
                push_line(out, pad, "end");
                assert(out@ =~= o + wat_stmt(fl, sv, rt, *stmt, pad@, brk));
            },
            Statement::While { condition, body, .. } => {
                let mut inner2 = inner.clone();
                inner2.append("  ");
                push_line(out, pad, "block");
                push_line(out, &inner, "loop");
                Self::emit_expression(floats, strs, condition, &inner2, out);
                push_line(out, &inner2, "i32.eqz");
                push_line(out, &inner2, "br_if 1");
                proof { assert(decreases_to!(*stmt => body.statements)); }
                Self::emit_statements(floats, strs, rets, &body.statements, &inner2, Some(1), out);
                push_line(out, &inner2, "br 0");
                push_line(out, &inner, "end");
                push_line(out, pad, "end");
                assert(out@ =~= o + wat_stmt(fl, sv, rt, *stmt, pad@, brk));
            },
            Statement::Return { value, .. } => {
                match value {
                    Some(e) => Self::emit_expression(floats, strs, e, pad, out),
                    None => {},
                }
                push_line(out, pad, "return");
                assert(out@ =~= o + wat_stmt(fl, sv, rt, *stmt, pad@, brk));
            },
            Statement::Break(_) => {
                match brk {
                    Some(d) => {
                        out.append(pad.as_str());
                        out.append("br ");
                        push_u64(out, d);
                        out.append("\n");
                    },
                    None => push_line(out, pad, "unreachable"),
                }
                assert(out@ =~= o + wat_stmt(fl, sv, rt, *stmt, pad@, brk));
            },
            Statement::Expr { expr, .. } => {
                Self::emit_expression(floats, strs, expr, pad, out);
                let leaves = match expr {
                    Expression::Call { callee, .. } => match lookup_ret(rets, callee) {
                        Some(t) => t != Type::Void,
                        None => true,
                    },
                    _ => true,
                };
                let ghost mid = out@;
                if leaves {
                    push_line(out, pad, "drop");
                } else {
                    assert(out@ =~= mid + Seq::<char>::empty());
                }
                assert(out@ =~= o + wat_stmt(fl, sv, rt, *stmt, pad@, brk));
            },
        }
    }

    #[verifier::spinoff_prover]
    fn emit_expression(floats: &Vec<FloatConst>, strs: &Vec<(String, u32)>, expr: &Expression, pad: &String, out: &mut String)
        ensures
            final(out)@ == old(out)@ + wat_expr(floats@, table_view(strs@), *expr, pad@),
        decreases expr,
    {
        let ghost fl = floats@;
        let ghost sv = table_view(strs@);
        let ghost o = out@;
        match expr {
            Expression::LiteralInt(v, _) => {
                out.append(pad.as_str());
                out.append("i32.const ");
                push_i64(out, *v);
                out.append("\n");
                assert(out@ =~= o + wat_expr(fl, sv, *expr, pad@));
            },
            Expression::LiteralFloat(text, _) => {
                out.append(pad.as_str());
                out.append("f32.const ");
                push_float_text(floats, text, out);
                out.append("\n");
                assert(out@ =~= o + wat_expr(fl, sv, *expr, pad@));
            },
            Expression::LiteralBool(b, _) => {
                if *b {
                    push_line(out, pad, "i32.const 1");
                } else {
                    push_line(out, pad, "i32.const 0");
                }
            },
            Expression::LiteralString(text, _) => {
                match lookup(strs, text) {
                    Some(addr) => {
                        out.append(pad.as_str());
                        out.append("i32.const ");
                        push_u64(out, addr as u64);
                        out.append("\n");
                        assert(out@ =~= o + wat_expr(fl, sv, *expr, pad@));
                    },
                    None => push_line(out, pad, "unreachable"),
                }
            },
            Expression::Variable(name, _) => {
                push_line_named(out, pad, "local.get $", name);
            },
            Expression::Binary { op, left, right, .. } => {
                Self::emit_expression(floats, strs, left, pad, out);
                Self::emit_expression(floats, strs, right, pad, out);
                let op_str = match op {
                    BinaryOp::Add => "i32.add",
                    BinaryOp::Sub => "i32.sub",
                    BinaryOp::Mul => "i32.mul",
                    BinaryOp::Div => "i32.div_s",
                    BinaryOp::Rem => "i32.rem_s",
                    BinaryOp::Eq => "i32.eq",
                    BinaryOp::Ne => "i32.ne",
                    BinaryOp::Lt => "i32.lt_s",
                    BinaryOp::Le => "i32.le_s",
                    BinaryOp::Gt => "i32.gt_s",
                    BinaryOp::Ge => "i32.ge_s",
                    BinaryOp::BitAnd => "i32.and",
                    BinaryOp::BitOr => "i32.or",
                    BinaryOp::BitXor => "i32.xor",
                    BinaryOp::Shl => "i32.shl",
                    BinaryOp::Shr => "i32.shr_s",
                    BinaryOp::LogicalAnd => "i32.and",
                    BinaryOp::LogicalOr => "i32.or",
                };
                assert(op_str@ == binop_text(*op));
                push_line(out, pad, op_str);
                assert(out@ =~= o + wat_expr(fl, sv, *expr, pad@));
            },
            Expression::Unary { op, expr: inner, .. } => {
                match op {
                    UnaryOp::Neg => {
                        push_line(out, pad, "i32.const 0");
                        Self::emit_expression(floats, strs, inner, pad, out);
                        push_line(out, pad, "i32.sub");
                    },
                    UnaryOp::Not => {
                        Self::emit_expression(floats, strs, inner, pad, out);
                        push_line(out, pad, "i32.eqz");
                    },
                }
                assert(out@ =~= o + wat_expr(fl, sv, *expr, pad@));
            },
            Expression::Call { callee, args, .. } => {
                let mut i: usize = 0;
                assert(args@.subrange(0, args@.len() as int) =~= args@);
                while i < args.len()
                    invariant
                        i <= args@.len(),
                        fl == floats@,
                        sv == table_view(strs@),
                        *expr matches Expression::Call { args: a, .. } && a == *args,
                        o + wat_args(fl, sv, args@, pad@) == out@ + wat_args(fl, sv, args@.subrange(i as int, args@.len() as int), pad@),
                    decreases args@.len() - i,
                {
                    let ghost tail = args@.subrange(i as int, args@.len() as int);
                    assert(tail.drop_first() =~= args@.subrange(i + 1, args@.len() as int));
                    assert(tail[0] == args@[i as int]);
                    let ghost before = out@;
                    proof { assert(decreases_to!(*expr => args@[i as int])); }
                    Self::emit_expression(floats, strs, &args[i], pad, out);
                    assert(before + wat_args(fl, sv, tail, pad@) =~= out@ + wat_args(fl, sv, args@.subrange(i + 1, args@.len() as int), pad@));
                    i = i + 1;
                }
                assert(args@.subrange(i as int, args@.len() as int) =~= Seq::<Expression>::empty());
                assert(out@ + Seq::<char>::empty() =~= out@);
                push_line_named(out, pad, "call $", callee);
                assert(out@ =~= o + wat_expr(fl, sv, *expr, pad@));
            },
            Expression::MemoryLoad { ty, ptr, offset, .. } => {
                Self::emit_expression(floats, strs, ptr, pad, out);
                push_mem_line(out, pad, *ty, false, *offset);
                assert(out@ =~= o + wat_expr(fl, sv, *expr, pad@));
            },
        }
    }
}

} // verus!
