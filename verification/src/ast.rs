//! Abstract syntax tree of Nova programs.
use vstd::prelude::*;
use crate::token::Span;

verus! {

/// A Nova type.
#[derive(Debug, Clone, Copy, PartialEq, Eq, Structural)]
pub enum Type {
    I32,
    I64,
    F32,
    F64,
    Bool,
    Void,
}

/// The name of each type as Nova and the text format write it.
pub open spec fn type_text(t: Type) -> Seq<char> {
    match t {
        Type::I32 => "i32"@,
        Type::I64 => "i64"@,
        Type::F32 => "f32"@,
        Type::F64 => "f64"@,
        Type::Bool => "bool"@,
        Type::Void => "void"@,
    }
}

impl Type {
    /// The name of the type: `i32`, `i64`, `f32`, `f64`, `bool` or `void`.
    pub fn name(&self) -> (r: &'static str)
        ensures
            r@ == type_text(*self),
    {
        match self {
            Type::I32 => "i32",
            Type::I64 => "i64",
            Type::F32 => "f32",
            Type::F64 => "f64",
            Type::Bool => "bool",
            Type::Void => "void",
        }
    }
}

/// A binary operator.
#[derive(Debug, Clone, Copy, PartialEq, Eq, Structural)]
pub enum BinaryOp {
    Add,
    Sub,
    Mul,
    Div,
    Rem,
    Eq,
    Ne,
    Lt,
    Le,
    Gt,
    Ge,
    BitAnd,
    BitOr,
    BitXor,
    Shl,
    Shr,
    /// `&&`: both operands are evaluated.
    LogicalAnd,
    /// `||`: both operands are evaluated.
    LogicalOr,
}

/// The quotient of `a` by `b` rounded toward zero.
pub open spec fn quotient_toward_zero(a: int, b: int) -> int {
    let q = (if a < 0 { -a } else { a }) / (if b < 0 { -b } else { b });
    if (a < 0) == (b < 0) { q } else { -q }
}

/// The value of a binary operator on two `i32` values: arithmetic wraps to
/// 32 bits, division and remainder round toward zero (nothing for a zero
/// divisor or a quotient that does not fit), comparisons and `&&`, `||` give
/// 1 for true and 0 for false, shifts take the count modulo 32.
pub open spec fn i32_binary_value(op: BinaryOp, a: i32, b: i32) -> Option<i32> {
    match op {
        BinaryOp::Add => Some((a + b) as i32),
        BinaryOp::Sub => Some((a - b) as i32),
        BinaryOp::Mul => Some((a * b) as i32),
        BinaryOp::Div => if b == 0 || (a == i32::MIN && b == -1) { None } else { Some(quotient_toward_zero(a as int, b as int) as i32) },
        BinaryOp::Rem => if b == 0 { None } else { Some((a - b * quotient_toward_zero(a as int, b as int)) as i32) },
        BinaryOp::Eq => Some(if a == b { 1i32 } else { 0i32 }),
        BinaryOp::Ne => Some(if a != b { 1i32 } else { 0i32 }),
        BinaryOp::Lt => Some(if a < b { 1i32 } else { 0i32 }),
        BinaryOp::Le => Some(if a <= b { 1i32 } else { 0i32 }),
        BinaryOp::Gt => Some(if a > b { 1i32 } else { 0i32 }),
        BinaryOp::Ge => Some(if a >= b { 1i32 } else { 0i32 }),
        BinaryOp::BitAnd => Some(a & b),
        BinaryOp::BitOr => Some(a | b),
        BinaryOp::BitXor => Some(a ^ b),
        BinaryOp::Shl => Some(a << ((b as u32) % 32)),
        BinaryOp::Shr => Some(a >> ((b as u32) % 32)),
        BinaryOp::LogicalAnd => Some(if a != 0 && b != 0 { 1i32 } else { 0i32 }),
        BinaryOp::LogicalOr => Some(if a != 0 || b != 0 { 1i32 } else { 0i32 }),
    }
}

/// A unary operator.
#[derive(Debug, Clone, Copy, PartialEq, Eq, Structural)]
pub enum UnaryOp {
    Neg,
    Not,
}

/// The value of a unary operator on an `i32` value: negation wraps to 32
/// bits, `!` gives 1 for zero and 0 otherwise.
pub open spec fn i32_unary_value(op: UnaryOp, a: i32) -> i32 {
    match op {
        UnaryOp::Neg => (-a) as i32,
        UnaryOp::Not => if a == 0 { 1i32 } else { 0i32 },
    }
}

/// An expression.
#[derive(Debug, PartialEq)]
pub enum Expression {
    LiteralInt(i64, Span),
    /// A float literal, kept as its source digits (see `TokenKind::Float`).
    LiteralFloat(String, Span),
    LiteralBool(bool, Span),
    LiteralString(String, Span),
    Variable(String, Span),
    Binary { op: BinaryOp, left: Box<Expression>, right: Box<Expression>, span: Span },
    Unary { op: UnaryOp, expr: Box<Expression>, span: Span },
    Call { callee: String, args: Vec<Expression>, span: Span },
    MemoryLoad { ty: Type, ptr: Box<Expression>, offset: u32, span: Span },
}

/// The span an expression carries.
pub open spec fn expr_span(e: Expression) -> Span {
    match e {
        Expression::LiteralInt(_, s) => s,
        Expression::LiteralFloat(_, s) => s,
        Expression::LiteralBool(_, s) => s,
        Expression::LiteralString(_, s) => s,
        Expression::Variable(_, s) => s,
        Expression::Binary { span, .. } => span,
        Expression::Unary { span, .. } => span,
        Expression::Call { span, .. } => span,
        Expression::MemoryLoad { span, .. } => span,
    }
}

impl Expression {
    /// The span the expression carries.
    pub fn span(&self) -> (r: Span)
        ensures
            r == expr_span(*self),
    {
        match self {
            Expression::LiteralInt(_, s) => *s,
            Expression::LiteralFloat(_, s) => *s,
            Expression::LiteralBool(_, s) => *s,
            Expression::LiteralString(_, s) => *s,
            Expression::Variable(_, s) => *s,
            Expression::Binary { span, .. } => *span,
            Expression::Unary { span, .. } => *span,
            Expression::Call { span, .. } => *span,
            Expression::MemoryLoad { span, .. } => *span,
        }
    }
}

/// A braced sequence of statements.
#[derive(Debug, PartialEq)]
pub struct Block {
    pub statements: Vec<Statement>,
    pub span: Span,
}

/// A statement.
#[derive(Debug, PartialEq)]
pub enum Statement {
    Let { name: String, is_mut: bool, ty: Option<Type>, init: Expression, span: Span },
    Assignment { target: String, value: Expression, span: Span },
    MemoryStore { ty: Type, ptr: Expression, offset: u32, value: Expression, span: Span },
    If { condition: Expression, then_branch: Block, else_branch: Option<Block>, span: Span },
    While { condition: Expression, body: Block, span: Span },
    Return { value: Option<Expression>, span: Span },
    Break(Span),
    Expr { expr: Expression, span: Span },
}

/// A function parameter.
#[derive(Debug, Clone, PartialEq)]
pub struct Param {
    pub name: String,
    pub ty: Type,
    pub span: Span,
}

/// A function definition.
#[derive(Debug, PartialEq)]
pub struct Function {
    pub name: String,
    pub params: Vec<Param>,
    pub return_type: Type,
    pub body: Block,
    pub is_export: bool,
    pub span: Span,
}

/// The linear memory declaration: initial and maximum page counts.
#[derive(Debug, Clone, PartialEq)]
pub struct MemoryDecl {
    pub initial_pages: u32,
    pub max_pages: Option<u32>,
    pub is_export: bool,
    pub span: Span,
}

/// A function imported from the host.
#[derive(Debug, Clone, PartialEq)]
pub struct ImportFunc {
    pub module: String,
    pub field: String,
    pub name: String,
    pub params: Vec<Param>,
    pub return_type: Type,
    pub span: Span,
}

/// A whole program.
#[derive(Debug, PartialEq)]
pub struct Program {
    pub imports: Vec<ImportFunc>,
    pub functions: Vec<Function>,
    pub memory: Option<MemoryDecl>,
}


/// An expression as plain values: names and texts as character sequences.
pub enum ExprV {
    Int(i64, Span),
    Float(Seq<char>, Span),
    Bool(bool, Span),
    Str(Seq<char>, Span),
    Var(Seq<char>, Span),
    Binary(BinaryOp, Box<ExprV>, Box<ExprV>, Span),
    Unary(UnaryOp, Box<ExprV>, Span),
    Call(Seq<char>, Seq<ExprV>, Span),
    Load(Type, Box<ExprV>, u32, Span),
}

/// The plain-value form of an expression.
pub open spec fn expr_v(e: Expression) -> ExprV
    decreases e,
{
    match e {
        Expression::LiteralInt(v, s) => ExprV::Int(v, s),
        Expression::LiteralFloat(t, s) => ExprV::Float(t@, s),
        Expression::LiteralBool(b, s) => ExprV::Bool(b, s),
        Expression::LiteralString(t, s) => ExprV::Str(t@, s),
        Expression::Variable(n, s) => ExprV::Var(n@, s),
        Expression::Binary { op, left, right, span } => ExprV::Binary(op, Box::new(expr_v(*left)), Box::new(expr_v(*right)), span),
        Expression::Unary { op, expr, span } => ExprV::Unary(op, Box::new(expr_v(*expr)), span),
        Expression::Call { callee, args, span } => ExprV::Call(callee@, exprs_v(args@), span),
        Expression::MemoryLoad { ty, ptr, offset, span } => ExprV::Load(ty, Box::new(expr_v(*ptr)), offset, span),
    }
}

/// The plain-value forms of expressions.
pub open spec fn exprs_v(es: Seq<Expression>) -> Seq<ExprV>
    decreases es,
{
    if es.len() == 0 {
        Seq::empty()
    } else {
        seq![expr_v(es[0])] + exprs_v(es.drop_first())
    }
}

/// The span an expression's plain-value form carries.
pub open spec fn expr_v_span(e: ExprV) -> Span {
    match e {
        ExprV::Int(_, s) => s,
        ExprV::Float(_, s) => s,
        ExprV::Bool(_, s) => s,
        ExprV::Str(_, s) => s,
        ExprV::Var(_, s) => s,
        ExprV::Binary(_, _, _, s) => s,
        ExprV::Unary(_, _, s) => s,
        ExprV::Call(_, _, s) => s,
        ExprV::Load(_, _, _, s) => s,
    }
}

/// A statement as plain values.
pub enum StmtV {
    Let(Seq<char>, bool, Option<Type>, ExprV, Span),
    Assign(Seq<char>, ExprV, Span),
    Store(Type, ExprV, u32, ExprV, Span),
    If(ExprV, BlockV, Option<BlockV>, Span),
    While(ExprV, BlockV, Span),
    Return(Option<ExprV>, Span),
    Break(Span),
    Expr(ExprV, Span),
}

/// A block as plain values.
pub struct BlockV {
    pub stmts: Seq<StmtV>,
    pub span: Span,
}

/// The plain-value form of a statement.
pub open spec fn stmt_v(st: Statement) -> StmtV
    decreases st,
{
    match st {
        Statement::Let { name, is_mut, ty, init, span } => StmtV::Let(name@, is_mut, ty, expr_v(init), span),
        Statement::Assignment { target, value, span } => StmtV::Assign(target@, expr_v(value), span),
        Statement::MemoryStore { ty, ptr, offset, value, span } => StmtV::Store(ty, expr_v(ptr), offset, expr_v(value), span),
        Statement::If { condition, then_branch, else_branch, span } => StmtV::If(
            expr_v(condition),
            block_v(then_branch),
            match else_branch {
                Some(b) => Some(block_v(b)),
                None => None,
            },
            span,
        ),
        Statement::While { condition, body, span } => StmtV::While(expr_v(condition), block_v(body), span),
        Statement::Return { value, span } => StmtV::Return(
            match value {
                Some(v) => Some(expr_v(v)),
                None => None,
            },
            span,
        ),
        Statement::Break(span) => StmtV::Break(span),
        Statement::Expr { expr, span } => StmtV::Expr(expr_v(expr), span),
    }
}

/// The plain-value form of a block.
pub open spec fn block_v(b: Block) -> BlockV
    decreases b,
{
    BlockV { stmts: stmts_v(b.statements@), span: b.span }
}

/// The plain-value forms of statements.
pub open spec fn stmts_v(ss: Seq<Statement>) -> Seq<StmtV>
    decreases ss,
{
    if ss.len() == 0 {
        Seq::empty()
    } else {
        seq![stmt_v(ss[0])] + stmts_v(ss.drop_first())
    }
}

/// A parameter as plain values.
pub struct ParamV {
    pub name: Seq<char>,
    pub ty: Type,
    pub span: Span,
}

/// The plain-value form of a parameter.
pub open spec fn param_v(p: Param) -> ParamV {
    ParamV { name: p.name@, ty: p.ty, span: p.span }
}

/// A function as plain values.
pub struct FunctionV {
    pub name: Seq<char>,
    pub params: Seq<ParamV>,
    pub return_type: Type,
    pub body: BlockV,
    pub is_export: bool,
    pub span: Span,
}

/// The plain-value form of a function.
pub open spec fn function_v(f: Function) -> FunctionV {
    FunctionV {
        name: f.name@,
        params: f.params@.map_values(|p: Param| param_v(p)),
        return_type: f.return_type,
        body: block_v(f.body),
        is_export: f.is_export,
        span: f.span,
    }
}

/// An imported function as plain values.
pub struct ImportV {
    pub module: Seq<char>,
    pub field: Seq<char>,
    pub name: Seq<char>,
    pub params: Seq<ParamV>,
    pub return_type: Type,
    pub span: Span,
}

/// The plain-value form of an imported function.
pub open spec fn import_v(i: ImportFunc) -> ImportV {
    ImportV {
        module: i.module@,
        field: i.field@,
        name: i.name@,
        params: i.params@.map_values(|p: Param| param_v(p)),
        return_type: i.return_type,
        span: i.span,
    }
}

/// A program as plain values.
pub struct ProgramV {
    pub imports: Seq<ImportV>,
    pub functions: Seq<FunctionV>,
    pub memory: Option<MemoryDecl>,
}

/// The plain-value form of a program.
pub open spec fn program_v(p: Program) -> ProgramV {
    ProgramV {
        imports: p.imports@.map_values(|i: ImportFunc| import_v(i)),
        functions: p.functions@.map_values(|f: Function| function_v(f)),
        memory: p.memory,
    }
}

} // verus!
