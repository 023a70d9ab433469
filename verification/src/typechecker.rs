//! Semantic analysis and static type checking of Nova programs.
use vstd::prelude::*;
use crate::ast::{BinaryOp, Expression, Function, ImportFunc, Param, Program, Statement, Type, UnaryOp, type_text};
use crate::text::{concat, decimal, position_text, push_position, push_u64};
use crate::token::Span;

verus! {

/// A variable in scope: its type and whether it may be assigned.
#[derive(Debug, Clone, Copy, PartialEq, Eq, Structural)]
pub struct Symbol {
    pub ty: Type,
    pub is_mut: bool,
}

/// A function's parameter types and return type.
#[derive(Debug, Clone)]
pub struct FuncSignature {
    pub params: Vec<Type>,
    pub return_type: Type,
}

/// A scope as plain values: names and their symbols, oldest first.
pub type ScopeView = Seq<(Seq<char>, Symbol)>;

/// The known functions as plain values: name, parameter types, return type.
pub type FuncsView = Seq<(Seq<char>, Seq<Type>, Type)>;

/// The symbol that a scope gives `name`, if any (the latest definition).
pub open spec fn find_in_scope(scope: ScopeView, name: Seq<char>) -> Option<Symbol>
    decreases scope.len(),
{
    if scope.len() == 0 {
        None
    } else if scope.last().0 == name {
        Some(scope.last().1)
    } else {
        find_in_scope(scope.drop_last(), name)
    }
}

/// The symbol `name` resolves to, searching from the innermost scope out.
pub open spec fn lookup_var(scopes: Seq<ScopeView>, name: Seq<char>) -> Option<Symbol>
    decreases scopes.len(),
{
    if scopes.len() == 0 {
        None
    } else {
        match find_in_scope(scopes.last(), name) {
            Some(s) => Some(s),
            None => lookup_var(scopes.drop_last(), name),
        }
    }
}

/// The signature `name` resolves to, if any (the latest definition).
pub open spec fn find_func(funcs: FuncsView, name: Seq<char>) -> Option<(Seq<Type>, Type)>
    decreases funcs.len(),
{
    if funcs.len() == 0 {
        None
    } else if funcs.last().0 == name {
        Some((funcs.last().1, funcs.last().2))
    } else {
        find_func(funcs.drop_last(), name)
    }
}

/// The scopes after declaring `name` in the innermost scope, or nothing when
/// that scope already has it.
pub open spec fn declare(scopes: Seq<ScopeView>, name: Seq<char>, sym: Symbol) -> Option<Seq<ScopeView>> {
    if find_in_scope(scopes.last(), name) is Some {
        None
    } else {
        Some(scopes.update(scopes.len() - 1, scopes.last().push((name, sym))))
    }
}

/// The type of `op` applied to two operands of type `t`, if allowed:
/// arithmetic keeps the type, bitwise operators need `i32` or `i64`,
/// comparisons give `bool`, `&&` and `||` need and give `bool`.
pub open spec fn binary_result(op: BinaryOp, t: Type) -> Option<Type> {
    match op {
        BinaryOp::Add | BinaryOp::Sub | BinaryOp::Mul | BinaryOp::Div | BinaryOp::Rem => Some(t),
        BinaryOp::BitAnd | BinaryOp::BitOr | BinaryOp::BitXor | BinaryOp::Shl | BinaryOp::Shr =>
            if t == Type::I32 || t == Type::I64 { Some(t) } else { None },
        BinaryOp::LogicalAnd | BinaryOp::LogicalOr => if t == Type::Bool { Some(t) } else { None },
        _ => Some(Type::Bool),
    }
}

/// The type of `op` applied to an operand of type `t`, if allowed:
/// negation needs a numeric type, `!` needs `bool` or `i32`.
pub open spec fn unary_result(op: UnaryOp, t: Type) -> Option<Type> {
    match op {
        UnaryOp::Neg => if t == Type::I32 || t == Type::I64 || t == Type::F32 || t == Type::F64 { Some(t) } else { None },
        UnaryOp::Not => if t == Type::Bool || t == Type::I32 { Some(t) } else { None },
    }
}

/// The type of an expression, or nothing when it is ill-typed. Integer
/// literals are `i32`, float literals `f32`; a string literal is an `i32`,
/// the address of its bytes in linear memory.
pub open spec fn tc_expr(funcs: FuncsView, scopes: Seq<ScopeView>, e: Expression) -> Option<Type>
    decreases e,
{
    match e {
        Expression::LiteralInt(..) => Some(Type::I32),
        Expression::LiteralFloat(..) => Some(Type::F32),
        Expression::LiteralBool(..) => Some(Type::Bool),
        Expression::LiteralString(..) => Some(Type::I32),
        Expression::Variable(name, _) => match lookup_var(scopes, name@) {
            Some(sym) => Some(sym.ty),
            None => None,
        },
        Expression::Binary { op, left, right, .. } => match (tc_expr(funcs, scopes, *left), tc_expr(funcs, scopes, *right)) {
            (Some(l), Some(r)) => if l != r { None } else { binary_result(op, l) },
            _ => None,
        },
        Expression::Unary { op, expr, .. } => match tc_expr(funcs, scopes, *expr) {
            Some(t) => unary_result(op, t),
            None => None,
        },
        Expression::Call { callee, args, .. } => match find_func(funcs, callee@) {
            None => None,
            Some(sig) => if sig.0.len() == args@.len() && tc_args(funcs, scopes, sig.0, args@) { Some(sig.1) } else { None },
        },
        Expression::MemoryLoad { ty, ptr, .. } => match tc_expr(funcs, scopes, *ptr) {
            Some(t) => if t == Type::I32 { Some(ty) } else { None },
            None => None,
        },
    }
}

/// Whether each argument has the type of the parameter in its place.
pub open spec fn tc_args(funcs: FuncsView, scopes: Seq<ScopeView>, params: Seq<Type>, args: Seq<Expression>) -> bool
    decreases args,
{
    if args.len() == 0 {
        true
    } else {
        params.len() > 0 && tc_expr(funcs, scopes, args[0]) == Some(params[0])
            && tc_args(funcs, scopes, params.drop_first(), args.drop_first())
    }
}

/// Whether a condition has a type that `if` and `while` accept.
pub open spec fn condition_ok(t: Option<Type>) -> bool {
    t == Some(Type::Bool) || t == Some(Type::I32)
}

/// The result type a `return` must have: that of the function being checked,
/// `void` when there is none.
pub open spec fn return_type_of(ret: Option<Type>) -> Type {
    match ret {
        Some(t) => t,
        None => Type::Void,
    }
}

/// Checking a statement inside a function returning `ret` (`void` when no
/// function is being checked): the scopes afterwards, or nothing when the
/// statement is rejected. `let` declares in
/// the innermost scope; the branches of `if` and the body of `while` are
/// checked in a scope of their own.
pub open spec fn tc_stmt(funcs: FuncsView, scopes: Seq<ScopeView>, ret: Option<Type>, st: Statement) -> Option<Seq<ScopeView>>
    decreases st,
{
    match st {
        Statement::Let { name, is_mut, ty, init, .. } => match tc_expr(funcs, scopes, init) {
            None => None,
            Some(it) => match ty {
                Some(t) => if t != it { None } else { declare(scopes, name@, Symbol { ty: t, is_mut }) },
                None => declare(scopes, name@, Symbol { ty: it, is_mut }),
            },
        },
        Statement::Assignment { target, value, .. } => match lookup_var(scopes, target@) {
            None => None,
            Some(sym) => if sym.is_mut && tc_expr(funcs, scopes, value) == Some(sym.ty) { Some(scopes) } else { None },
        },
        Statement::MemoryStore { ty, ptr, value, .. } =>
            if tc_expr(funcs, scopes, ptr) == Some(Type::I32) && tc_expr(funcs, scopes, value) == Some(ty) { Some(scopes) } else { None },
        Statement::If { condition, then_branch, else_branch, .. } =>
            if condition_ok(tc_expr(funcs, scopes, condition))
                && tc_stmts(funcs, scopes.push(Seq::empty()), ret, then_branch.statements@) is Some
                && match else_branch {
                    Some(b) => tc_stmts(funcs, scopes.push(Seq::empty()), ret, b.statements@) is Some,
                    None => true,
                }
            { Some(scopes) } else { None },
        Statement::While { condition, body, .. } =>
            if condition_ok(tc_expr(funcs, scopes, condition))
                && tc_stmts(funcs, scopes.push(Seq::empty()), ret, body.statements@) is Some
            { Some(scopes) } else { None },
        Statement::Return { value, .. } => {
            let actual = match value {
                Some(e) => tc_expr(funcs, scopes, e),
                None => Some(Type::Void),
            };
            if actual == Some(return_type_of(ret)) { Some(scopes) } else { None }
        },
        Statement::Break(_) => Some(scopes),
        Statement::Expr { expr, .. } => if tc_expr(funcs, scopes, expr) is Some { Some(scopes) } else { None },
    }
}

/// Checking statements one after the other.
pub open spec fn tc_stmts(funcs: FuncsView, scopes: Seq<ScopeView>, ret: Option<Type>, s: Seq<Statement>) -> Option<Seq<ScopeView>>
    decreases s,
{
    if s.len() == 0 {
        Some(scopes)
    } else {
        match tc_stmt(funcs, scopes, ret, s[0]) {
            None => None,
            Some(sc) => tc_stmts(funcs, sc, ret, s.drop_first()),
        }
    }
}

/// Declaring parameters one after the other in the innermost scope.
pub open spec fn declare_params(scopes: Seq<ScopeView>, ps: Seq<Param>) -> Option<Seq<ScopeView>>
    decreases ps.len(),
{
    if ps.len() == 0 {
        Some(scopes)
    } else {
        match declare(scopes, ps[0].name@, Symbol { ty: ps[0].ty, is_mut: false }) {
            None => None,
            Some(sc) => declare_params(sc, ps.drop_first()),
        }
    }
}

/// Whether a function checks: its parameters (immutable, distinct) in a new
/// scope on top of `scopes`, then its body in that same scope.
pub open spec fn tc_function(funcs: FuncsView, scopes: Seq<ScopeView>, f: Function) -> bool {
    match declare_params(scopes.push(Seq::empty()), f.params@) {
        None => false,
        Some(sc) => tc_stmts(funcs, sc, Some(f.return_type), f.body.statements@) is Some,
    }
}

/// The signature of a function as plain values.
pub open spec fn signature_of(f: Function) -> (Seq<char>, Seq<Type>, Type) {
    (f.name@, f.params@.map_values(|p: Param| p.ty), f.return_type)
}

/// The signatures of imported functions, in order.
pub open spec fn import_sigs(imps: Seq<ImportFunc>) -> FuncsView {
    imps.map_values(|i: ImportFunc| (i.name@, i.params@.map_values(|p: Param| p.ty), i.return_type))
}

/// Registering the signatures of `fs` after `funcs`, or nothing when a name
/// repeats.
pub open spec fn collect_signatures(funcs: FuncsView, fs: Seq<Function>) -> Option<FuncsView>
    decreases fs.len(),
{
    if fs.len() == 0 {
        Some(funcs)
    } else if find_func(funcs, fs[0].name@) is Some {
        None
    } else {
        collect_signatures(funcs.push(signature_of(fs[0])), fs.drop_first())
    }
}

/// The message checking a rejected statement gives (see `tc_stmt`): that of
/// its first failing part, in the order the checker meets them.
pub open spec fn stmt_error(funcs: FuncsView, scopes: Seq<ScopeView>, ret: Option<Type>, st: Statement) -> Seq<char>
    decreases st,
{
    match st {
        Statement::Let { name, ty, init, span, .. } => match tc_expr(funcs, scopes, init) {
            None => expr_error(funcs, scopes, init),
            Some(u) => match ty {
                Some(t) => if t != u { let_mismatch_msg(name@, span, t, u) } else { already_declared_msg(name@, span) },
                None => already_declared_msg(name@, span),
            },
        },
        Statement::Assignment { target, value, span } => match lookup_var(scopes, target@) {
            None => assign_undefined_msg(target@, span),
            Some(sym) => if !sym.is_mut {
                assign_immutable_msg(target@, span)
            } else {
                match tc_expr(funcs, scopes, value) {
                    None => expr_error(funcs, scopes, value),
                    Some(u) => assign_mismatch_msg(target@, span, sym.ty, u),
                }
            },
        },
        Statement::MemoryStore { ty, ptr, value, span, .. } => match tc_expr(funcs, scopes, ptr) {
            None => expr_error(funcs, scopes, ptr),
            Some(t) => if t != Type::I32 {
                store_pointer_msg(span, t)
            } else {
                match tc_expr(funcs, scopes, value) {
                    None => expr_error(funcs, scopes, value),
                    Some(u) => store_value_msg(span, ty, u),
                }
            },
        },
        Statement::If { condition, then_branch, else_branch, span } => match tc_expr(funcs, scopes, condition) {
            None => expr_error(funcs, scopes, condition),
            Some(t) => if !condition_ok(Some(t)) {
                condition_msg(true, span, t)
            } else if tc_stmts(funcs, scopes.push(Seq::empty()), ret, then_branch.statements@) is None {
                stmts_error(funcs, scopes.push(Seq::empty()), ret, then_branch.statements@)
            } else {
                match else_branch {
                    Some(b) => stmts_error(funcs, scopes.push(Seq::empty()), ret, b.statements@),
                    None => Seq::empty(),
                }
            },
        },
        Statement::While { condition, body, span } => match tc_expr(funcs, scopes, condition) {
            None => expr_error(funcs, scopes, condition),
            Some(t) => if !condition_ok(Some(t)) {
                condition_msg(false, span, t)
            } else {
                stmts_error(funcs, scopes.push(Seq::empty()), ret, body.statements@)
            },
        },
        Statement::Return { value, span } => match value {
            Some(e) => match tc_expr(funcs, scopes, e) {
                None => expr_error(funcs, scopes, e),
                Some(a) => return_mismatch_msg(span, return_type_of(ret), a),
            },
            None => return_mismatch_msg(span, return_type_of(ret), Type::Void),
        },
        Statement::Break(_) => Seq::empty(),
        Statement::Expr { expr, .. } => expr_error(funcs, scopes, expr),
    }
}

/// The message checking statements gives: that of the first rejected one.
pub open spec fn stmts_error(funcs: FuncsView, scopes: Seq<ScopeView>, ret: Option<Type>, s: Seq<Statement>) -> Seq<char>
    decreases s,
{
    if s.len() == 0 {
        Seq::empty()
    } else {
        match tc_stmt(funcs, scopes, ret, s[0]) {
            None => stmt_error(funcs, scopes, ret, s[0]),
            Some(sc) => stmts_error(funcs, sc, ret, s.drop_first()),
        }
    }
}

/// The message declaring parameters gives: for the first repeated name.
pub open spec fn params_error(scopes: Seq<ScopeView>, ps: Seq<Param>) -> Seq<char>
    decreases ps.len(),
{
    if ps.len() == 0 {
        Seq::empty()
    } else {
        match declare(scopes, ps[0].name@, Symbol { ty: ps[0].ty, is_mut: false }) {
            None => already_declared_msg(ps[0].name@, ps[0].span),
            Some(sc) => params_error(sc, ps.drop_first()),
        }
    }
}

/// The message checking a rejected function gives: a repeated parameter,
/// else the first rejected statement of its body.
pub open spec fn function_error(funcs: FuncsView, scopes: Seq<ScopeView>, f: Function) -> Seq<char> {
    match declare_params(scopes.push(Seq::empty()), f.params@) {
        None => params_error(scopes.push(Seq::empty()), f.params@),
        Some(sc) => stmts_error(funcs, sc, Some(f.return_type), f.body.statements@),
    }
}

/// The message checking functions gives: that of the first rejected one.
pub open spec fn functions_error(funcs: FuncsView, scopes: Seq<ScopeView>, fs: Seq<Function>) -> Seq<char>
    decreases fs.len(),
{
    if fs.len() == 0 {
        Seq::empty()
    } else if !tc_function(funcs, scopes, fs[0]) {
        function_error(funcs, scopes, fs[0])
    } else {
        functions_error(funcs, scopes, fs.drop_first())
    }
}

/// The message checking a rejected program gives: a repeated function name,
/// else the first rejected function.
pub open spec fn program_error(funcs: FuncsView, scopes: Seq<ScopeView>, fs: Seq<Function>) -> Seq<char> {
    match collect_signatures(funcs, fs) {
        None => signatures_error(funcs, fs),
        Some(all) => functions_error(all, scopes, fs),
    }
}

/// The message for a function whose name is already declared.
pub open spec fn duplicate_fn_msg(name: Seq<char>, span: Span) -> Seq<char> {
    "Duplicate function '"@ + name + "' defined at "@ + pos(span)
}

/// The message registering signatures gives: for the first function whose
/// name is already declared.
pub open spec fn signatures_error(funcs: FuncsView, fs: Seq<Function>) -> Seq<char>
    decreases fs.len(),
{
    if fs.len() == 0 {
        Seq::empty()
    } else if find_func(funcs, fs[0].name@) is Some {
        duplicate_fn_msg(fs[0].name@, fs[0].span)
    } else {
        signatures_error(funcs.push(signature_of(fs[0])), fs.drop_first())
    }
}

/// Whether a program checks: every function name is new, and every function
/// checks against all the signatures.
pub open spec fn tc_program(funcs: FuncsView, scopes: Seq<ScopeView>, fs: Seq<Function>) -> bool {
    match collect_signatures(funcs, fs) {
        None => false,
        Some(all) => forall|i: int| 0 <= i < fs.len() ==> #[trigger] tc_function(all, scopes, fs[i]),
    }
}

/// The type of a binary expression whose operands have one type `t`:
/// a comparison (`==`, `!=`, `<`, `<=`, `>`, `>=`) is a `bool`; arithmetic
/// (`+`, `-`, `*`, `/`, `%`) keeps `t`; a bitwise operator keeps `t` when it
/// is an integer type and is refused otherwise; `&&` and `||` are `bool` on
/// `bool` operands and refused otherwise. Operands of two different types
/// are refused.
pub proof fn lemma_binary_typing(funcs: FuncsView, scopes: Seq<ScopeView>, op: BinaryOp, left: Expression,
    right: Expression, span: Span)
    requires
        tc_expr(funcs, scopes, left) is Some,
        tc_expr(funcs, scopes, right) is Some,
    ensures
        ({
            let t = tc_expr(funcs, scopes, left)->0;
            let e = Expression::Binary { op, left: Box::new(left), right: Box::new(right), span };
            &&& tc_expr(funcs, scopes, right)->0 != t ==> tc_expr(funcs, scopes, e) is None
            &&& tc_expr(funcs, scopes, right)->0 == t ==> {
                &&& (op == BinaryOp::Eq || op == BinaryOp::Ne || op == BinaryOp::Lt || op == BinaryOp::Le
                        || op == BinaryOp::Gt || op == BinaryOp::Ge) ==> tc_expr(funcs, scopes, e) == Some(Type::Bool)
                &&& (op == BinaryOp::Add || op == BinaryOp::Sub || op == BinaryOp::Mul || op == BinaryOp::Div
                        || op == BinaryOp::Rem) ==> tc_expr(funcs, scopes, e) == Some(t)
                &&& (op == BinaryOp::BitAnd || op == BinaryOp::BitOr || op == BinaryOp::BitXor || op == BinaryOp::Shl
                        || op == BinaryOp::Shr) ==> tc_expr(funcs, scopes, e)
                            == (if t == Type::I32 || t == Type::I64 { Some(t) } else { None })
                &&& (op == BinaryOp::LogicalAnd || op == BinaryOp::LogicalOr) ==> tc_expr(funcs, scopes, e)
                            == (if t == Type::Bool { Some(Type::Bool) } else { None })
            }
        }),
{
}

/// The type of a unary expression: negation keeps a numeric type (`i32`,
/// `i64`, `f32`, `f64`) and refuses others; `!` keeps `bool` or `i32` and
/// refuses others.
pub proof fn lemma_unary_typing(funcs: FuncsView, scopes: Seq<ScopeView>, op: UnaryOp, e: Expression, span: Span)
    requires
        tc_expr(funcs, scopes, e) is Some,
    ensures
        ({
            let t = tc_expr(funcs, scopes, e)->0;
            let u = Expression::Unary { op, expr: Box::new(e), span };
            &&& op == UnaryOp::Neg ==> tc_expr(funcs, scopes, u)
                == (if t == Type::I32 || t == Type::I64 || t == Type::F32 || t == Type::F64 { Some(t) } else { None })
            &&& op == UnaryOp::Not ==> tc_expr(funcs, scopes, u)
                == (if t == Type::Bool || t == Type::I32 { Some(t) } else { None })
        }),
{
}

/// Literals have their types: integers and strings (addresses) `i32`,
/// floats `f32`, `true` and `false` `bool`; a variable has the type of its
/// innermost declaration.
pub proof fn lemma_atom_typing(funcs: FuncsView, scopes: Seq<ScopeView>, e: Expression)
    ensures
        e is LiteralInt ==> tc_expr(funcs, scopes, e) == Some(Type::I32),
        e is LiteralString ==> tc_expr(funcs, scopes, e) == Some(Type::I32),
        e is LiteralFloat ==> tc_expr(funcs, scopes, e) == Some(Type::F32),
        e is LiteralBool ==> tc_expr(funcs, scopes, e) == Some(Type::Bool),
        e matches Expression::Variable(name, _) ==> tc_expr(funcs, scopes, e) == match lookup_var(scopes, name@) {
            Some(sym) => Some(sym.ty),
            None => None,
        },
{
}

/// `tc_args` holds exactly when there are enough parameters and each
/// argument has the type of its parameter.
pub proof fn lemma_tc_args(funcs: FuncsView, scopes: Seq<ScopeView>, params: Seq<Type>, args: Seq<Expression>)
    ensures
        tc_args(funcs, scopes, params, args) <==> (params.len() >= args.len()
            && forall|j: int| 0 <= j < args.len() ==> #[trigger] tc_expr(funcs, scopes, args[j]) == Some(params[j])),
    decreases args.len(),
{
    if args.len() > 0 {
        lemma_tc_args(funcs, scopes, params.drop_first(), args.drop_first());
        if params.len() > 0 {
            let good = params.len() >= args.len()
                && forall|j: int| 0 <= j < args.len() ==> #[trigger] tc_expr(funcs, scopes, args[j]) == Some(params[j]);
            if good {
                assert(tc_expr(funcs, scopes, args[0]) == Some(params[0]));
                assert forall|j: int| 0 <= j < args.drop_first().len() implies #[trigger] tc_expr(funcs, scopes, args.drop_first()[j]) == Some(params.drop_first()[j]) by {
                    assert(tc_expr(funcs, scopes, args[j + 1]) == Some(params[j + 1]));
                }
            }
            if tc_args(funcs, scopes, params, args) {
                assert forall|j: int| 0 <= j < args.len() implies #[trigger] tc_expr(funcs, scopes, args[j]) == Some(params[j]) by {
                    if j > 0 {
                        assert(tc_expr(funcs, scopes, args.drop_first()[j - 1]) == Some(params.drop_first()[j - 1]));
                    }
                }
            }
        }
    }
}

/// A declaration is what lookups then find: the declared name resolves to
/// its symbol, and every other name resolves as before.
pub proof fn lemma_declare_then_lookup(scopes: Seq<ScopeView>, name: Seq<char>, sym: Symbol, other: Seq<char>)
    requires
        scopes.len() > 0,
        declare(scopes, name, sym) is Some,
    ensures
        lookup_var(declare(scopes, name, sym)->0, name) == Some(sym),
        other != name ==> lookup_var(declare(scopes, name, sym)->0, other) == lookup_var(scopes, other),
{
    let sc = declare(scopes, name, sym)->0;
    let inner = scopes.last().push((name, sym));
    assert(sc.last() == inner);
    assert(sc.drop_last() =~= scopes.drop_last());
    assert(inner.drop_last() =~= scopes.last());
}

/// Names declared inside the branches of an `if` or the body of a `while`
/// stay there: checking such a statement leaves the scopes as they were.
pub proof fn lemma_nested_blocks_scoped(funcs: FuncsView, scopes: Seq<ScopeView>, ret: Option<Type>, st: Statement)
    requires
        st is If || st is While,
        tc_stmt(funcs, scopes, ret, st) is Some,
    ensures
        tc_stmt(funcs, scopes, ret, st) == Some(scopes),
{
}

/// A checked statement changes only the innermost scope.
pub proof fn lemma_tc_stmt_shape(funcs: FuncsView, scopes: Seq<ScopeView>, ret: Option<Type>, st: Statement)
    requires
        scopes.len() > 0,
        tc_stmt(funcs, scopes, ret, st) is Some,
    ensures
        tc_stmt(funcs, scopes, ret, st)->0.len() == scopes.len(),
        tc_stmt(funcs, scopes, ret, st)->0.drop_last() == scopes.drop_last(),
{
    let r = tc_stmt(funcs, scopes, ret, st)->0;
    assert(r.drop_last() =~= scopes.drop_last());
}

/// Checked statements change only the innermost scope.
pub proof fn lemma_tc_stmts_shape(funcs: FuncsView, scopes: Seq<ScopeView>, ret: Option<Type>, s: Seq<Statement>)
    requires
        scopes.len() > 0,
        tc_stmts(funcs, scopes, ret, s) is Some,
    ensures
        tc_stmts(funcs, scopes, ret, s)->0.len() == scopes.len(),
        tc_stmts(funcs, scopes, ret, s)->0.drop_last() == scopes.drop_last(),
    decreases s.len(),
{
    if s.len() > 0 {
        lemma_tc_stmt_shape(funcs, scopes, ret, s[0]);
        let sc = tc_stmt(funcs, scopes, ret, s[0])->0;
        lemma_tc_stmts_shape(funcs, sc, ret, s.drop_first());
    }
}

/// The name of a binary operator's variant, as messages write it.
pub open spec fn binary_op_text(op: BinaryOp) -> Seq<char> {
    match op {
        BinaryOp::Add => "Add"@,
        BinaryOp::Sub => "Sub"@,
        BinaryOp::Mul => "Mul"@,
        BinaryOp::Div => "Div"@,
        BinaryOp::Rem => "Rem"@,
        BinaryOp::Eq => "Eq"@,
        BinaryOp::Ne => "Ne"@,
        BinaryOp::Lt => "Lt"@,
        BinaryOp::Le => "Le"@,
        BinaryOp::Gt => "Gt"@,
        BinaryOp::Ge => "Ge"@,
        BinaryOp::BitAnd => "BitAnd"@,
        BinaryOp::BitOr => "BitOr"@,
        BinaryOp::BitXor => "BitXor"@,
        BinaryOp::Shl => "Shl"@,
        BinaryOp::Shr => "Shr"@,
        BinaryOp::LogicalAnd => "LogicalAnd"@,
        BinaryOp::LogicalOr => "LogicalOr"@,
    }
}

fn binary_op_name(op: BinaryOp) -> (r: &'static str)
    ensures
        r@ == binary_op_text(op),
{
    match op {
        BinaryOp::Add => "Add",
        BinaryOp::Sub => "Sub",
        BinaryOp::Mul => "Mul",
        BinaryOp::Div => "Div",
        BinaryOp::Rem => "Rem",
        BinaryOp::Eq => "Eq",
        BinaryOp::Ne => "Ne",
        BinaryOp::Lt => "Lt",
        BinaryOp::Le => "Le",
        BinaryOp::Gt => "Gt",
        BinaryOp::Ge => "Ge",
        BinaryOp::BitAnd => "BitAnd",
        BinaryOp::BitOr => "BitOr",
        BinaryOp::BitXor => "BitXor",
        BinaryOp::Shl => "Shl",
        BinaryOp::Shr => "Shr",
        BinaryOp::LogicalAnd => "LogicalAnd",
        BinaryOp::LogicalOr => "LogicalOr",
    }
}

/// A message followed by the position `line:col` of a span.
/// The position of a span as messages give it.
pub open spec fn pos(span: Span) -> Seq<char> {
    position_text(span.line as nat, span.col as nat)
}

/// The message for a `let` whose annotation differs from its initializer.
pub open spec fn let_mismatch_msg(name: Seq<char>, span: Span, expected: Type, found: Type) -> Seq<char> {
    "Type mismatch in let binding '"@ + name + "' at "@ + pos(span) + ": expected '"@ + type_text(expected)
        + "', found '"@ + type_text(found) + "'"@
}

/// The message for a second declaration of a name in one scope.
pub open spec fn already_declared_msg(name: Seq<char>, span: Span) -> Seq<char> {
    "Variable '"@ + name + "' already declared in this scope at "@ + pos(span)
}

/// The message for an assignment to a name that is not in scope.
pub open spec fn assign_undefined_msg(target: Seq<char>, span: Span) -> Seq<char> {
    "Cannot assign to undefined variable '"@ + target + "' at "@ + pos(span)
}

/// The message for an assignment to an immutable variable.
pub open spec fn assign_immutable_msg(target: Seq<char>, span: Span) -> Seq<char> {
    "Cannot assign to immutable variable '"@ + target + "' at "@ + pos(span) + ". Consider declaring as 'let mut "@
        + target + "'"@
}

/// The message for an assignment of a value of another type.
pub open spec fn assign_mismatch_msg(target: Seq<char>, span: Span, expected: Type, found: Type) -> Seq<char> {
    "Type mismatch in assignment to '"@ + target + "' at "@ + pos(span) + ": expected '"@ + type_text(expected)
        + "', found '"@ + type_text(found) + "'"@
}

/// The message for a variable that is not in scope.
pub open spec fn undefined_var_msg(name: Seq<char>, span: Span) -> Seq<char> {
    "Undefined variable '"@ + name + "' referenced at "@ + pos(span)
}

/// The message for a call of a function that is not declared.
pub open spec fn undefined_fn_msg(callee: Seq<char>, span: Span) -> Seq<char> {
    "Call to undefined function '"@ + callee + "' at "@ + pos(span)
}

/// The message for a call with the wrong number of arguments.
pub open spec fn arity_msg(callee: Seq<char>, expected: nat, got: nat, span: Span) -> Seq<char> {
    "Function '"@ + callee + "' expects "@ + decimal(expected) + " arguments, got "@ + decimal(got) + " at "@ + pos(span)
}

/// The message for operands of two different types.
pub open spec fn operand_mismatch_msg(op: BinaryOp, span: Span, l: Type, r: Type) -> Seq<char> {
    "Binary operator '"@ + binary_op_text(op) + "' operand type mismatch at "@ + pos(span) + ": '"@ + type_text(l)
        + "' vs '"@ + type_text(r) + "'"@
}

/// The message for a bitwise operator on operands that are not integers.
pub open spec fn bitwise_msg(op: BinaryOp, span: Span, t: Type) -> Seq<char> {
    "Bitwise operator '"@ + binary_op_text(op) + "' requires integer operands at "@ + pos(span) + ", found '"@
        + type_text(t) + "'"@
}

/// The message for `&&` or `||` on operands that are not `bool`.
pub open spec fn logical_msg(op: BinaryOp, span: Span, t: Type) -> Seq<char> {
    "Logical operator '"@ + binary_op_text(op) + "' requires bool operands at "@ + pos(span) + ", found '"@
        + type_text(t) + "'"@
}

/// The message for a unary operator on an operand it does not take.
pub open spec fn unary_msg(op: UnaryOp, span: Span, t: Type) -> Seq<char> {
    match op {
        UnaryOp::Neg => "Negation operator requires numeric operand at "@ + pos(span) + ", found '"@ + type_text(t) + "'"@,
        UnaryOp::Not => "Logical not operator requires bool or i32 operand at "@ + pos(span) + ", found '"@
            + type_text(t) + "'"@,
    }
}

/// The message for argument `k` (from 1) of a call having the wrong type.
pub open spec fn argument_msg(k: nat, callee: Seq<char>, span: Span, expected: Type, found: Type) -> Seq<char> {
    "Argument "@ + decimal(k) + " in call to '"@ + callee + "' type mismatch at "@ + pos(span) + ": expected '"@
        + type_text(expected) + "', found '"@ + type_text(found) + "'"@
}

/// The message for a memory load whose pointer is not an `i32`.
pub open spec fn load_pointer_msg(span: Span, t: Type) -> Seq<char> {
    "Memory load pointer must be 'i32' at "@ + pos(span) + ", found '"@ + type_text(t) + "'"@
}

/// The message for a `return` of the wrong type.
pub open spec fn return_mismatch_msg(span: Span, expected: Type, found: Type) -> Seq<char> {
    "Return type mismatch at "@ + pos(span) + ": expected '"@ + type_text(expected) + "', returned '"@
        + type_text(found) + "'"@
}

/// The message for a memory store whose pointer is not an `i32`.
pub open spec fn store_pointer_msg(span: Span, t: Type) -> Seq<char> {
    "Memory store pointer must be of type 'i32' at "@ + pos(span) + ", found '"@ + type_text(t) + "'"@
}

/// The message for a memory store of a value of another type.
pub open spec fn store_value_msg(span: Span, expected: Type, found: Type) -> Seq<char> {
    "Memory store value type mismatch at "@ + pos(span) + ": expected '"@ + type_text(expected) + "', found '"@
        + type_text(found) + "'"@
}

/// The message for an `if` or `while` condition of a type they do not take.
pub open spec fn condition_msg(is_if: bool, span: Span, t: Type) -> Seq<char> {
    (if is_if { "If condition must evaluate to 'bool' or 'i32' at "@ } else { "While condition must evaluate to 'bool' or 'i32' at "@ })
        + pos(span) + ", found '"@ + type_text(t) + "'"@
}

/// The message checking an ill-typed expression gives: that of the first
/// failing operand, in evaluation order, else the expression's own.
pub open spec fn expr_error(funcs: FuncsView, scopes: Seq<ScopeView>, e: Expression) -> Seq<char>
    decreases e,
{
    match e {
        Expression::Variable(name, span) => undefined_var_msg(name@, span),
        Expression::Binary { op, left, right, span } => match tc_expr(funcs, scopes, *left) {
            None => expr_error(funcs, scopes, *left),
            Some(l) => match tc_expr(funcs, scopes, *right) {
                None => expr_error(funcs, scopes, *right),
                Some(r) => if l != r {
                    operand_mismatch_msg(op, span, l, r)
                } else {
                    match op {
                        BinaryOp::LogicalAnd | BinaryOp::LogicalOr => logical_msg(op, span, l),
                        _ => bitwise_msg(op, span, l),
                    }
                },
            },
        },
        Expression::Unary { op, expr, span } => match tc_expr(funcs, scopes, *expr) {
            None => expr_error(funcs, scopes, *expr),
            Some(t) => unary_msg(op, span, t),
        },
        Expression::Call { callee, args, span } => match find_func(funcs, callee@) {
            None => undefined_fn_msg(callee@, span),
            Some(sig) => if sig.0.len() != args@.len() {
                arity_msg(callee@, sig.0.len(), args@.len(), span)
            } else {
                args_error(funcs, scopes, callee@, span, sig.0, args@, 1)
            },
        },
        Expression::MemoryLoad { ptr, span, .. } => match tc_expr(funcs, scopes, *ptr) {
            None => expr_error(funcs, scopes, *ptr),
            Some(t) => load_pointer_msg(span, t),
        },
        _ => Seq::empty(),
    }
}

/// The message for the first argument, numbered from `k`, that fails to
/// check or has another type than its parameter.
pub open spec fn args_error(funcs: FuncsView, scopes: Seq<ScopeView>, callee: Seq<char>, span: Span, params: Seq<Type>, args: Seq<Expression>, k: nat) -> Seq<char>
    decreases args,
{
    if args.len() == 0 {
        Seq::empty()
    } else {
        match tc_expr(funcs, scopes, args[0]) {
            None => expr_error(funcs, scopes, args[0]),
            Some(t) => if params.len() > 0 && t != params[0] {
                argument_msg(k, callee, span, params[0], t)
            } else {
                args_error(funcs, scopes, callee, span, params.drop_first(), args.drop_first(), k + 1)
            },
        }
    }
}

fn text(s: &str) -> (r: String)
    ensures
        r@ == s@,
{
    String::from_str(s)
}

fn at_span(mut m: String, span: Span) -> (r: String)
    ensures
        r@ == m@ + position_text(span.line as nat, span.col as nat),
{
    push_position(&mut m, span.line, span.col);
    m
}

/// The static type checker: known function signatures, a stack of scopes
/// and the return type of the function being checked.
pub struct TypeChecker {
    functions: Vec<(String, FuncSignature)>,
    scopes: Vec<Vec<(String, Symbol)>>,
    current_return_type: Option<Type>,
}

/// A scope as plain values.
pub open spec fn scope_view(sc: Vec<(String, Symbol)>) -> ScopeView {
    sc@.map_values(|p: (String, Symbol)| (p.0@, p.1))
}

impl TypeChecker {
    /// The known functions.
    pub closed spec fn funcs(&self) -> FuncsView {
        self.functions@.map_values(|p: (String, FuncSignature)| (p.0@, p.1.params@, p.1.return_type))
    }

    /// The scopes, outermost first.
    pub closed spec fn scopes(&self) -> Seq<ScopeView> {
        self.scopes@.map_values(|sc: Vec<(String, Symbol)>| scope_view(sc))
    }

    /// The return type of the function being checked.
    pub closed spec fn return_type(&self) -> Option<Type> {
        self.current_return_type
    }

    /// A checker that knows no function and has no scope.
    pub fn new() -> (r: Self)
        ensures
            r.funcs() == Seq::<(Seq<char>, Seq<Type>, Type)>::empty(),
            r.scopes() == Seq::<ScopeView>::empty(),
            r.return_type() is None,
    {
        let r = Self { functions: Vec::new(), scopes: Vec::new(), current_return_type: None };
        assert(r.funcs() =~= Seq::<(Seq<char>, Seq<Type>, Type)>::empty());
        assert(r.scopes() =~= Seq::<ScopeView>::empty());
        r
    }

    fn enter_scope(&mut self)
        ensures
            final(self).funcs() == old(self).funcs(),
            final(self).scopes() == old(self).scopes().push(Seq::empty()),
            final(self).return_type() == old(self).return_type(),
    {
        let fresh: Vec<(String, Symbol)> = Vec::new();
        assert(scope_view(fresh) =~= Seq::empty());
        self.scopes.push(fresh);
        assert(self.scopes() =~= old(self).scopes().push(Seq::empty()));
    }

    fn exit_scope(&mut self)
        ensures
            final(self).funcs() == old(self).funcs(),
            old(self).scopes().len() > 0 ==> final(self).scopes() == old(self).scopes().drop_last(),
            old(self).scopes().len() == 0 ==> final(self).scopes() == old(self).scopes(),
            final(self).return_type() == old(self).return_type(),
    {
        let _ = self.scopes.pop();
        assert(old(self).scopes().len() > 0 ==> self.scopes() =~= old(self).scopes().drop_last());
        assert(old(self).scopes().len() == 0 ==> self.scopes() =~= old(self).scopes());
    }

    fn find_in_vec_scope(scope: &Vec<(String, Symbol)>, name: &String) -> (r: Option<Symbol>)
        ensures
            r == find_in_scope(scope_view(*scope), name@),
    {
        let mut i = scope.len();
        assert(scope_view(*scope).take(i as int) =~= scope_view(*scope));
        while i > 0
            invariant
                i <= scope@.len(),
                find_in_scope(scope_view(*scope), name@) == find_in_scope(scope_view(*scope).take(i as int), name@),
            decreases i,
        {
            let ghost sv = scope_view(*scope).take(i as int);
            assert(sv.drop_last() =~= scope_view(*scope).take(i - 1));
            if scope[i - 1].0 == *name {
                return Some(scope[i - 1].1);
            }
            i = i - 1;
        }
        None
    }

    fn define_variable(&mut self, name: &String, ty: Type, is_mut: bool, span: Span) -> (r: Result<(), String>)
        requires
            old(self).scopes().len() > 0,
        ensures
            final(self).funcs() == old(self).funcs(),
            final(self).return_type() == old(self).return_type(),
            r is Ok <==> declare(old(self).scopes(), name@, Symbol { ty, is_mut }) is Some,
            r is Ok ==> final(self).scopes() == declare(old(self).scopes(), name@, Symbol { ty, is_mut })->0,
            r is Err ==> final(self).scopes() == old(self).scopes(),
            r matches Err(m) ==> m@ == already_declared_msg(name@, span),
    {
        let last = self.scopes.len() - 1;
        if Self::find_in_vec_scope(&self.scopes[last], name).is_some() {
            let mut m = text("Variable '");
            m.append(name.as_str());
            m.append("' already declared in this scope at ");
            push_position(&mut m, span.line, span.col);
            return Err(m);
        }
        let mut sc = self.scopes.pop().unwrap();
        let ghost old_sc = sc;
        sc.push((name.clone(), Symbol { ty, is_mut }));
        assert(scope_view(sc) =~= scope_view(old_sc).push((name@, Symbol { ty, is_mut })));
        self.scopes.push(sc);
        assert(self.scopes() =~= old(self).scopes().update(last as int, old(self).scopes().last().push((name@, Symbol { ty, is_mut }))));
        Ok(())
    }

    fn lookup_variable(&self, name: &String) -> (r: Option<Symbol>)
        ensures
            r == lookup_var(self.scopes(), name@),
    {
        let mut i = self.scopes.len();
        assert(self.scopes().take(i as int) =~= self.scopes());
        while i > 0
            invariant
                i <= self.scopes@.len(),
                lookup_var(self.scopes(), name@) == lookup_var(self.scopes().take(i as int), name@),
            decreases i,
        {
            assert(self.scopes().take(i as int).drop_last() =~= self.scopes().take(i - 1));
            assert(self.scopes().take(i as int).last() == scope_view(self.scopes@[i - 1]));
            let found = Self::find_in_vec_scope(&self.scopes[i - 1], name);
            if found.is_some() {
                return found;
            }
            i = i - 1;
        }
        None
    }

    fn find_function(&self, name: &String) -> (r: Option<usize>)
        ensures
            r is None ==> find_func(self.funcs(), name@) is None,
            r matches Some(i) ==> i < self.functions@.len()
                && find_func(self.funcs(), name@) == Some((self.funcs()[i as int].1, self.funcs()[i as int].2)),
    {
        let mut i = self.functions.len();
        assert(self.funcs().take(i as int) =~= self.funcs());
        while i > 0
            invariant
                i <= self.functions@.len(),
                find_func(self.funcs(), name@) == find_func(self.funcs().take(i as int), name@),
            decreases i,
        {
            assert(self.funcs().take(i as int).drop_last() =~= self.funcs().take(i - 1));
            if self.functions[i - 1].0 == *name {
                return Some(i - 1);
            }
            i = i - 1;
        }
        None
    }

    /// The type of `expr` in the current scopes, or the reason it is ill-typed.
    #[verifier::spinoff_prover]
    #[verifier::rlimit(80)]
    pub fn check_expression(&self, expr: &Expression) -> (r: Result<Type, String>)
        ensures
            r is Ok <==> tc_expr(self.funcs(), self.scopes(), *expr) is Some,
            r matches Ok(t) ==> tc_expr(self.funcs(), self.scopes(), *expr) == Some(t),
            r matches Err(m) ==> m@ == expr_error(self.funcs(), self.scopes(), *expr),
        decreases expr,
    {
        match expr {
            Expression::LiteralInt(_, _) => Ok(Type::I32),
            Expression::LiteralFloat(_, _) => Ok(Type::F32),
            Expression::LiteralBool(_, _) => Ok(Type::Bool),
            Expression::LiteralString(_, _) => Ok(Type::I32),
            Expression::Variable(name, span) => {
                match self.lookup_variable(name) {
                    Some(sym) => Ok(sym.ty),
                    None => {
                        let mut m = text("Undefined variable '");
                        m.append(name.as_str());
                        m.append("' referenced at ");
                        Err(at_span(m, *span))
                    },
                }
            },
            Expression::Binary { op, left, right, span } => {
                let left_ty = self.check_expression(left)?;
                let right_ty = self.check_expression(right)?;
                if left_ty != right_ty {
                    let mut m = text("Binary operator '");
                    m.append(binary_op_name(*op));
                    m.append("' operand type mismatch at ");
                    push_position(&mut m, span.line, span.col);
                    m.append(": '");
                    m.append(left_ty.name());
                    m.append("' vs '");
                    m.append(right_ty.name());
                    m.append("'");
                    return Err(m);
                }
                match op {
                    BinaryOp::Add | BinaryOp::Sub | BinaryOp::Mul | BinaryOp::Div | BinaryOp::Rem => Ok(left_ty),
                    BinaryOp::BitAnd | BinaryOp::BitOr | BinaryOp::BitXor | BinaryOp::Shl | BinaryOp::Shr => {
                        if left_ty != Type::I32 && left_ty != Type::I64 {
                            let mut m = text("Bitwise operator '");
                            m.append(binary_op_name(*op));
                            m.append("' requires integer operands at ");
                            push_position(&mut m, span.line, span.col);
                            m.append(", found '");
                            m.append(left_ty.name());
                            m.append("'");
                            return Err(m);
                        }
                        Ok(left_ty)
                    },
                    BinaryOp::LogicalAnd | BinaryOp::LogicalOr => {
                        if left_ty != Type::Bool {
                            let mut m = text("Logical operator '");
                            m.append(binary_op_name(*op));
                            m.append("' requires bool operands at ");
                            push_position(&mut m, span.line, span.col);
                            m.append(", found '");
                            m.append(left_ty.name());
                            m.append("'");
                            return Err(m);
                        }
                        Ok(Type::Bool)
                    },
                    _ => Ok(Type::Bool),
                }
            },
            Expression::Unary { op, expr: inner, span } => {
                let inner_ty = self.check_expression(inner)?;
                match op {
                    UnaryOp::Neg => {
                        if inner_ty != Type::I32 && inner_ty != Type::I64 && inner_ty != Type::F32 && inner_ty != Type::F64 {
                            let mut m = at_span(text("Negation operator requires numeric operand at "), *span);
                            m.append(", found '");
                            m.append(inner_ty.name());
                            m.append("'");
                            return Err(m);
                        }
                        Ok(inner_ty)
                    },
                    UnaryOp::Not => {
                        if inner_ty != Type::Bool && inner_ty != Type::I32 {
                            let mut m = at_span(text("Logical not operator requires bool or i32 operand at "), *span);
                            m.append(", found '");
                            m.append(inner_ty.name());
                            m.append("'");
                            return Err(m);
                        }
                        Ok(inner_ty)
                    },
                }
            },
            Expression::Call { callee, args, span } => {
                let idx = match self.find_function(callee) {
                    Some(i) => i,
                    None => {
                        let mut m = text("Call to undefined function '");
                        m.append(callee.as_str());
                        m.append("' at ");
                        return Err(at_span(m, *span));
                    },
                };
                let sig = &self.functions[idx].1;
                assert(sig.params@ == self.funcs()[idx as int].1);
                if sig.params.len() != args.len() {
                    let mut m = text("Function '");
                    m.append(callee.as_str());
                    m.append("' expects ");
                    push_u64(&mut m, sig.params.len() as u64);
                    m.append(" arguments, got ");
                    push_u64(&mut m, args.len() as u64);
                    m.append(" at ");
                    push_position(&mut m, span.line, span.col);
                    return Err(m);
                }
                assert(args@.subrange(0, args@.len() as int) =~= args@);
                assert(sig.params@.subrange(0, args@.len() as int) =~= sig.params@);
                let mut i: usize = 0;
                while i < args.len()
                    invariant
                        i <= args@.len(),
                        sig.params@.len() == args@.len(),
                        idx < self.functions@.len(),
                        *expr matches Expression::Call { callee: c, args: a, span: sp } && a == *args && c == *callee && sp == *span,
                        args_error(self.funcs(), self.scopes(), callee@, *span, sig.params@, args@, 1)
                            == args_error(self.funcs(), self.scopes(), callee@, *span, sig.params@.subrange(i as int, args@.len() as int),
                                args@.subrange(i as int, args@.len() as int), (i + 1) as nat),
                        tc_expr(self.funcs(), self.scopes(), *expr) == (if tc_args(self.funcs(), self.scopes(), sig.params@, args@) { Some(sig.return_type) } else { None }),
                        sig.params@ == self.funcs()[idx as int].1,
                        find_func(self.funcs(), callee@) == Some((self.funcs()[idx as int].1, self.funcs()[idx as int].2)),
                        forall|j: int| 0 <= j < i ==> #[trigger] tc_expr(self.funcs(), self.scopes(), args@[j]) == Some(sig.params@[j]),
                    decreases args@.len() - i,
                {
                    proof {
                        assert(decreases_to!(*expr => args@[i as int]));
                        let pt = sig.params@.subrange(i as int, args@.len() as int);
                        let at = args@.subrange(i as int, args@.len() as int);
                        assert(pt.drop_first() =~= sig.params@.subrange(i + 1, args@.len() as int));
                        assert(at.drop_first() =~= args@.subrange(i + 1, args@.len() as int));
                        assert(pt[0] == sig.params@[i as int]);
                        assert(at[0] == args@[i as int]);
                    }
                    let arg_ty = match self.check_expression(&args[i]) {
                        Ok(t) => t,
                        Err(m) => {
                            proof { lemma_tc_args(self.funcs(), self.scopes(), sig.params@, args@); }
                            return Err(m);
                        },
                    };
                    if sig.params[i] != arg_ty {
                        let mut m = text("Argument ");
                        push_u64(&mut m, (i as u64) + 1);
                        m.append(" in call to '");
                        m.append(callee.as_str());
                        m.append("' type mismatch at ");
                        push_position(&mut m, span.line, span.col);
                        m.append(": expected '");
                        m.append(sig.params[i].name());
                        m.append("', found '");
                        m.append(arg_ty.name());
                        m.append("'");
                        proof { lemma_tc_args(self.funcs(), self.scopes(), sig.params@, args@); }
                        return Err(m);
                    }
                    i = i + 1;
                }
                proof { lemma_tc_args(self.funcs(), self.scopes(), sig.params@, args@); }
                Ok(sig.return_type)
            },
            Expression::MemoryLoad { ty, ptr, span, .. } => {
                let ptr_ty = self.check_expression(ptr)?;
                if ptr_ty != Type::I32 {
                    let mut m = at_span(text("Memory load pointer must be 'i32' at "), *span);
                    m.append(", found '");
                    m.append(ptr_ty.name());
                    m.append("'");
                    return Err(m);
                }
                Ok(*ty)
            },
        }
    }

    fn check_statements(&mut self, stmts: &Vec<Statement>) -> (r: Result<(), String>)
        requires
            old(self).scopes().len() > 0,
        ensures
            final(self).funcs() == old(self).funcs(),
            final(self).return_type() == old(self).return_type(),
            r is Ok <==> tc_stmts(old(self).funcs(), old(self).scopes(), old(self).return_type(), stmts@) is Some,
            r is Ok ==> final(self).scopes() == tc_stmts(old(self).funcs(), old(self).scopes(), old(self).return_type(), stmts@)->0,
            r matches Err(m) ==> m@ == stmts_error(old(self).funcs(), old(self).scopes(), old(self).return_type(), stmts@),
        decreases stmts,
    {
        let mut i: usize = 0;
        let ghost ret = old(self).return_type();
        assert(stmts@.subrange(0, stmts@.len() as int) =~= stmts@);
        while i < stmts.len()
            invariant
                i <= stmts@.len(),
                self.funcs() == old(self).funcs(),
                self.return_type() == old(self).return_type(),
                self.return_type() == ret,
                self.scopes().len() > 0,
                tc_stmts(self.funcs(), old(self).scopes(), ret, stmts@)
                    == tc_stmts(self.funcs(), self.scopes(), ret, stmts@.subrange(i as int, stmts@.len() as int)),
                stmts_error(self.funcs(), old(self).scopes(), ret, stmts@)
                    == stmts_error(self.funcs(), self.scopes(), ret, stmts@.subrange(i as int, stmts@.len() as int)),
            decreases stmts@.len() - i,
        {
            let ghost cur = self.scopes();
            let ghost tail = stmts@.subrange(i as int, stmts@.len() as int);
            assert(tail.drop_first() =~= stmts@.subrange(i + 1, stmts@.len() as int));
            assert(tail[0] == stmts@[i as int]);
            proof { assert(decreases_to!(*stmts => stmts@[i as int])); }
            self.check_statement(&stmts[i])?;
            proof { lemma_tc_stmt_shape(self.funcs(), cur, ret, stmts@[i as int]); }
            i = i + 1;
        }
        assert(stmts@.subrange(i as int, stmts@.len() as int) =~= Seq::<Statement>::empty());
        Ok(())
    }

    fn check_statement(&mut self, stmt: &Statement) -> (r: Result<(), String>)
        requires
            old(self).scopes().len() > 0,
        ensures
            final(self).funcs() == old(self).funcs(),
            final(self).return_type() == old(self).return_type(),
            r is Ok <==> tc_stmt(old(self).funcs(), old(self).scopes(), old(self).return_type(), *stmt) is Some,
            r is Ok ==> final(self).scopes() == tc_stmt(old(self).funcs(), old(self).scopes(), old(self).return_type(), *stmt)->0,
            r matches Err(m) ==> m@ == stmt_error(old(self).funcs(), old(self).scopes(), old(self).return_type(), *stmt),
            match *stmt {
                Statement::Let { name, is_mut, ty, init, span } => {
                    &&& r is Err ==> final(self).scopes() == old(self).scopes()
                    &&& match (ty, tc_expr(old(self).funcs(), old(self).scopes(), init)) {
                        (Some(t), Some(u)) => t != u ==> (r matches Err(m) && m@ == let_mismatch_msg(name@, span, t, u)),
                        _ => true,
                    }
                    &&& tc_expr(old(self).funcs(), old(self).scopes(), init) is None
                        ==> (r matches Err(m) && m@ == expr_error(old(self).funcs(), old(self).scopes(), init))
                    &&& match tc_expr(old(self).funcs(), old(self).scopes(), init) {
                        Some(u) => (ty is None || ty == Some(u)) && declare(old(self).scopes(), name@, Symbol { ty: u, is_mut }) is None
                            ==> (r matches Err(m) && m@ == already_declared_msg(name@, span)),
                        None => true,
                    }
                },
                Statement::Assignment { target, value, span } => match lookup_var(old(self).scopes(), target@) {
                    None => (r matches Err(m) && m@ == assign_undefined_msg(target@, span)),
                    Some(sym) => {
                        &&& !sym.is_mut ==> (r matches Err(m) && m@ == assign_immutable_msg(target@, span))
                        &&& match tc_expr(old(self).funcs(), old(self).scopes(), value) {
                            Some(u) => sym.is_mut && sym.ty != u ==> (r matches Err(m) && m@ == assign_mismatch_msg(target@, span, sym.ty, u)),
                            None => sym.is_mut ==> (r matches Err(m) && m@ == expr_error(old(self).funcs(), old(self).scopes(), value)),
                        }
                    },
                },
                Statement::MemoryStore { ty, ptr, value, span, .. } => match tc_expr(old(self).funcs(), old(self).scopes(), ptr) {
                    None => (r matches Err(m) && m@ == expr_error(old(self).funcs(), old(self).scopes(), ptr)),
                    Some(t) => if t != Type::I32 {
                        (r matches Err(m) && m@ == store_pointer_msg(span, t))
                    } else {
                        match tc_expr(old(self).funcs(), old(self).scopes(), value) {
                            None => (r matches Err(m) && m@ == expr_error(old(self).funcs(), old(self).scopes(), value)),
                            Some(u) => u != ty ==> (r matches Err(m) && m@ == store_value_msg(span, ty, u)),
                        }
                    },
                },
                Statement::If { condition, span, .. } => match tc_expr(old(self).funcs(), old(self).scopes(), condition) {
                    None => (r matches Err(m) && m@ == expr_error(old(self).funcs(), old(self).scopes(), condition)),
                    Some(t) => !condition_ok(Some(t)) ==> (r matches Err(m) && m@ == condition_msg(true, span, t)),
                },
                Statement::While { condition, span, .. } => match tc_expr(old(self).funcs(), old(self).scopes(), condition) {
                    None => (r matches Err(m) && m@ == expr_error(old(self).funcs(), old(self).scopes(), condition)),
                    Some(t) => !condition_ok(Some(t)) ==> (r matches Err(m) && m@ == condition_msg(false, span, t)),
                },
                Statement::Return { value, span } => match value {
                    Some(e) => match tc_expr(old(self).funcs(), old(self).scopes(), e) {
                        None => (r matches Err(m) && m@ == expr_error(old(self).funcs(), old(self).scopes(), e)),
                        Some(a) => a != return_type_of(old(self).return_type()) ==> (r matches Err(m)
                            && m@ == return_mismatch_msg(span, return_type_of(old(self).return_type()), a)),
                    },
                    None => Type::Void != return_type_of(old(self).return_type()) ==> (r matches Err(m)
                        && m@ == return_mismatch_msg(span, return_type_of(old(self).return_type()), Type::Void)),
                },
                Statement::Expr { expr, .. } => tc_expr(old(self).funcs(), old(self).scopes(), expr) is None
                    ==> (r matches Err(m) && m@ == expr_error(old(self).funcs(), old(self).scopes(), expr)),
                _ => true,
            },
        decreases stmt,
    {
        let ghost ret = old(self).return_type();
        let ghost funcs = old(self).funcs();
        let ghost scopes0 = old(self).scopes();
        match stmt {
            Statement::Let { name, is_mut, ty, init, span } => {
                let init_ty = self.check_expression(init)?;
                let var_ty = match ty {
                    Some(explicit_ty) => {
                        if *explicit_ty != init_ty {
                            let mut m = text("Type mismatch in let binding '");
                            m.append(name.as_str());
                            m.append("' at ");
                            push_position(&mut m, span.line, span.col);
                            m.append(": expected '");
                            m.append(explicit_ty.name());
                            m.append("', found '");
                            m.append(init_ty.name());
                            m.append("'");
                            return Err(m);
                        }
                        *explicit_ty
                    },
                    None => init_ty,
                };
                self.define_variable(name, var_ty, *is_mut, *span)
            },
            Statement::Assignment { target, value, span } => {
                let symbol = match self.lookup_variable(target) {
                    Some(sym) => sym,
                    None => {
                        let mut m = text("Cannot assign to undefined variable '");
                        m.append(target.as_str());
                        m.append("' at ");
                        return Err(at_span(m, *span));
                    },
                };
                if !symbol.is_mut {
                    let mut m0 = text("Cannot assign to immutable variable '");
                    m0.append(target.as_str());
                    m0.append("' at ");
                    let mut m = at_span(m0, *span);
                    m.append(". Consider declaring as 'let mut ");
                    m.append(target.as_str());
                    m.append("'");
                    return Err(m);
                }
                let val_ty = self.check_expression(value)?;
                if symbol.ty != val_ty {
                    let mut m = text("Type mismatch in assignment to '");
                    m.append(target.as_str());
                    m.append("' at ");
                    push_position(&mut m, span.line, span.col);
                    m.append(": expected '");
                    m.append(symbol.ty.name());
                    m.append("', found '");
                    m.append(val_ty.name());
                    m.append("'");
                    return Err(m);
                }
                Ok(())
            },
            Statement::MemoryStore { ty, ptr, value, span, .. } => {
                let ptr_ty = self.check_expression(ptr)?;
                if ptr_ty != Type::I32 {
                    let mut m = at_span(text("Memory store pointer must be of type 'i32' at "), *span);
                    m.append(", found '");
                    m.append(ptr_ty.name());
                    m.append("'");
                    return Err(m);
                }
                let val_ty = self.check_expression(value)?;
                if *ty != val_ty {
                    let mut m = at_span(text("Memory store value type mismatch at "), *span);
                    m.append(": expected '");
                    m.append(ty.name());
                    m.append("', found '");
                    m.append(val_ty.name());
                    m.append("'");
                    return Err(m);
                }
                Ok(())
            },
            Statement::If { condition, then_branch, else_branch, span } => {
                let cond_ty = self.check_expression(condition)?;
                if cond_ty != Type::Bool && cond_ty != Type::I32 {
                    let mut m = at_span(text("If condition must evaluate to 'bool' or 'i32' at "), *span);
                    m.append(", found '");
                    m.append(cond_ty.name());
                    m.append("'");
                    return Err(m);
                }
                self.enter_scope();
                proof { assert(decreases_to!(*stmt => then_branch.statements)); }
                self.check_statements(&then_branch.statements)?;
                proof { lemma_tc_stmts_shape(funcs, scopes0.push(Seq::empty()), ret, then_branch.statements@); }
                self.exit_scope();
                assert(self.scopes() =~= scopes0);
                match else_branch {
                    Some(else_b) => {
                        self.enter_scope();
                        proof { assert(decreases_to!(*stmt => else_b.statements)); }
                        self.check_statements(&else_b.statements)?;
                        proof { lemma_tc_stmts_shape(funcs, scopes0.push(Seq::empty()), ret, else_b.statements@); }
                        self.exit_scope();
                        assert(self.scopes() =~= scopes0);
                    },
                    None => {},
                }
                Ok(())
            },
            Statement::While { condition, body, span } => {
                let cond_ty = self.check_expression(condition)?;
                if cond_ty != Type::Bool && cond_ty != Type::I32 {
                    let mut m = at_span(text("While condition must evaluate to 'bool' or 'i32' at "), *span);
                    m.append(", found '");
                    m.append(cond_ty.name());
                    m.append("'");
                    return Err(m);
                }
                self.enter_scope();
                proof { assert(decreases_to!(*stmt => body.statements)); }
                self.check_statements(&body.statements)?;
                proof { lemma_tc_stmts_shape(funcs, scopes0.push(Seq::empty()), ret, body.statements@); }
                self.exit_scope();
                assert(self.scopes() =~= scopes0);
                Ok(())
            },
            Statement::Return { value, span } => {
                let expected_ty = match self.current_return_type {
                    Some(t) => t,
                    None => Type::Void,
                };
                let actual_ty = match value {
                    Some(e) => self.check_expression(e)?,
                    None => Type::Void,
                };
                if expected_ty != actual_ty {
                    let mut m = at_span(text("Return type mismatch at "), *span);
                    m.append(": expected '");
                    m.append(expected_ty.name());
                    m.append("', returned '");
                    m.append(actual_ty.name());
                    m.append("'");
                    return Err(m);
                }
                Ok(())
            },
            Statement::Break(_) => Ok(()),
            Statement::Expr { expr, .. } => {
                self.check_expression(expr)?;
                Ok(())
            },
        }
    }

    fn check_function(&mut self, func: &Function) -> (r: Result<(), String>)
        ensures
            final(self).funcs() == old(self).funcs(),
            r is Ok <==> tc_function(old(self).funcs(), old(self).scopes(), *func),
            r is Ok ==> final(self).scopes() == old(self).scopes() && final(self).return_type() is None,
            r matches Err(m) ==> m@ == function_error(old(self).funcs(), old(self).scopes(), *func),
    {
        let ghost scopes0 = old(self).scopes();
        self.current_return_type = Some(func.return_type);
        self.enter_scope();
        let mut i: usize = 0;
        let ghost ps = func.params@;
        assert(ps.subrange(0, ps.len() as int) =~= ps);
        while i < func.params.len()
            invariant
                i <= ps.len(),
                ps == func.params@,
                scopes0 == old(self).scopes(),
                self.funcs() == old(self).funcs(),
                self.return_type() == Some(func.return_type),
                self.scopes().len() == scopes0.len() + 1,
                self.scopes().drop_last() == scopes0,
                declare_params(scopes0.push(Seq::empty()), ps) == declare_params(self.scopes(), ps.subrange(i as int, ps.len() as int)),
                params_error(scopes0.push(Seq::empty()), ps) == params_error(self.scopes(), ps.subrange(i as int, ps.len() as int)),
            decreases ps.len() - i,
        {
            let ghost tail = ps.subrange(i as int, ps.len() as int);
            assert(tail.drop_first() =~= ps.subrange(i + 1, ps.len() as int));
            let param = &func.params[i];
            assert(tail[0] == func.params@[i as int]);
            match self.define_variable(&param.name, param.ty, false, param.span) {
                Ok(()) => {},
                Err(m) => {
                    assert(declare_params(self.scopes(), tail) is None);
                    return Err(m);
                },
            }
            assert(self.scopes().drop_last() =~= scopes0);
            i = i + 1;
        }
        assert(ps.subrange(i as int, ps.len() as int) =~= Seq::<Param>::empty());
        self.check_statements(&func.body.statements)?;
        proof { lemma_tc_stmts_shape(self.funcs(), declare_params(scopes0.push(Seq::empty()), ps)->0, Some(func.return_type), func.body.statements@); }
        self.exit_scope();
        self.current_return_type = None;
        Ok(())
    }

    /// Checks a program: registers every function signature (a repeated name
    /// is an error), then checks every function against them all.
    pub fn check_program(&mut self, program: &Program) -> (r: Result<(), String>)
        ensures
            r is Ok <==> tc_program(old(self).funcs() + import_sigs(program.imports@), old(self).scopes(), program.functions@),
            r is Ok ==> final(self).funcs() == collect_signatures(old(self).funcs() + import_sigs(program.imports@), program.functions@)->0,
            r is Ok ==> final(self).scopes() == old(self).scopes(),
            r is Ok && program.functions@.len() > 0 ==> final(self).return_type() is None,
            collect_signatures(old(self).funcs() + import_sigs(program.imports@), program.functions@) is None
                ==> (r matches Err(m) && m@ == signatures_error(old(self).funcs() + import_sigs(program.imports@), program.functions@)),
            r matches Err(m) ==> m@ == program_error(old(self).funcs() + import_sigs(program.imports@), old(self).scopes(), program.functions@),
    {
        let ghost imps = program.imports@;
        let mut k: usize = 0;
        while k < program.imports.len()
            invariant
                k <= imps.len(),
                imps == program.imports@,
                self.funcs() == old(self).funcs() + import_sigs(imps.take(k as int)),
                self.scopes() == old(self).scopes(),
                self.return_type() == old(self).return_type(),
            decreases imps.len() - k,
        {
            let imp = &program.imports[k];
            let mut params: Vec<Type> = Vec::new();
            let mut j: usize = 0;
            while j < imp.params.len()
                invariant
                    j <= imp.params@.len(),
                    params@ == imp.params@.take(j as int).map_values(|p: Param| p.ty),
                decreases imp.params@.len() - j,
            {
                params.push(imp.params[j].ty);
                assert(imp.params@.take(j + 1).map_values(|p: Param| p.ty) =~= imp.params@.take(j as int).map_values(|p: Param| p.ty).push(imp.params@[j as int].ty));
                j = j + 1;
            }
            assert(imp.params@.take(j as int) =~= imp.params@);
            let ghost before = self.funcs();
            self.functions.push((imp.name.clone(), FuncSignature { params, return_type: imp.return_type }));
            assert(self.funcs() =~= before.push((imp.name@, imp.params@.map_values(|p: Param| p.ty), imp.return_type)));
            assert(import_sigs(imps.take(k + 1)) =~= import_sigs(imps.take(k as int)).push((imps[k as int].name@, imps[k as int].params@.map_values(|p: Param| p.ty), imps[k as int].return_type)));
            k = k + 1;
        }
        assert(imps.take(k as int) =~= imps);
        let ghost funcs0 = self.funcs();
        let ghost scopes0 = old(self).scopes();
        let ghost fs = program.functions@;
        let mut i: usize = 0;
        assert(fs.subrange(0, fs.len() as int) =~= fs);
        while i < program.functions.len()
            invariant
                i <= fs.len(),
                fs == program.functions@,
                funcs0 == old(self).funcs() + import_sigs(program.imports@),
                scopes0 == old(self).scopes(),
                self.scopes() == scopes0,
                self.return_type() == old(self).return_type(),
                collect_signatures(funcs0, fs) == collect_signatures(self.funcs(), fs.subrange(i as int, fs.len() as int)),
                signatures_error(funcs0, fs) == signatures_error(self.funcs(), fs.subrange(i as int, fs.len() as int)),
            decreases fs.len() - i,
        {
            let func = &program.functions[i];
            let ghost tail = fs.subrange(i as int, fs.len() as int);
            assert(tail.drop_first() =~= fs.subrange(i + 1, fs.len() as int));
            assert(tail[0] == fs[i as int]);
            if self.find_function(&func.name).is_some() {
                assert(collect_signatures(self.funcs(), tail) is None);
                assert(collect_signatures(funcs0, fs) is None);
                let mut m = text("Duplicate function '");
                m.append(func.name.as_str());
                m.append("' defined at ");
                return Err(at_span(m, func.span));
            }
            let mut params: Vec<Type> = Vec::new();
            let mut j: usize = 0;
            while j < func.params.len()
                invariant
                    j <= func.params@.len(),
                    params@ == func.params@.take(j as int).map_values(|p: Param| p.ty),
                decreases func.params@.len() - j,
            {
                params.push(func.params[j].ty);
                assert(func.params@.take(j + 1).map_values(|p: Param| p.ty) =~= func.params@.take(j as int).map_values(|p: Param| p.ty).push(func.params@[j as int].ty));
                j = j + 1;
            }
            assert(func.params@.take(j as int) =~= func.params@);
            let ghost before = self.funcs();
            self.functions.push((func.name.clone(), FuncSignature { params, return_type: func.return_type }));
            assert(self.funcs() =~= before.push(signature_of(fs[i as int])));
            i = i + 1;
        }
        let ghost all = self.funcs();
        assert(fs.subrange(i as int, fs.len() as int) =~= Seq::<Function>::empty());
        assert(fs.subrange(0, fs.len() as int) =~= fs);
        let mut k: usize = 0;
        while k < program.functions.len()
            invariant
                k <= fs.len(),
                fs == program.functions@,
                funcs0 == old(self).funcs() + import_sigs(program.imports@),
                scopes0 == old(self).scopes(),
                self.funcs() == all,
                collect_signatures(funcs0, fs) == Some(all),
                self.scopes() == scopes0,
                k > 0 ==> self.return_type() is None,
                k == 0 ==> self.return_type() == old(self).return_type(),
                forall|j: int| 0 <= j < k ==> #[trigger] tc_function(all, scopes0, fs[j]),
                functions_error(all, scopes0, fs) == functions_error(all, scopes0, fs.subrange(k as int, fs.len() as int)),
            decreases fs.len() - k,
        {
            let ghost tail = fs.subrange(k as int, fs.len() as int);
            assert(tail.drop_first() =~= fs.subrange(k + 1, fs.len() as int));
            assert(tail[0] == fs[k as int]);
            match self.check_function(&program.functions[k]) {
                Ok(()) => {},
                Err(m) => {
                    assert(!tc_function(all, scopes0, fs[k as int]));
                    assert(!tc_program(funcs0, scopes0, fs)) by {
                        let c = collect_signatures(funcs0, fs);
                        assert(c->0 == all);
                        assert(!tc_function(c->0, scopes0, fs[k as int]));
                        assert(tc_program(funcs0, scopes0, fs) == (forall|i: int| 0 <= i < fs.len() ==> #[trigger] tc_function(c->0, scopes0, fs[i])));
                    }
                    return Err(m);
                },
            }
            k = k + 1;
        }
        assert(tc_program(funcs0, scopes0, fs)) by {
            let c = collect_signatures(funcs0, fs);
            assert(c->0 == all);
            assert forall|i: int| 0 <= i < fs.len() implies #[trigger] tc_function(c->0, scopes0, fs[i]) by {
                assert(tc_function(all, scopes0, fs[i]));
            }
            assert(tc_program(funcs0, scopes0, fs) == (forall|i: int| 0 <= i < fs.len() ==> #[trigger] tc_function(c->0, scopes0, fs[i])));
        }
        Ok(())
    }
}

} // verus!
