//! Optimization passes over the syntax tree: dead-code removal, inlining of
//! trivial components, flattening of nested same-tag blocks, and constant
//! folding.
use vstd::prelude::*;
use crate::ast::{
    BinOp, ClassDecl, ClassKind, Constructor, Declaration, Expr, Method, Param, Program, SpecClassDecl,
    SpecConstructor, SpecDeclaration, SpecExpr, SpecMethod, SpecProgram, SpecStmt, Stmt, UnOp, exprs_view,
    lemma_views_push, stmts_view, views,
};

pub mod dead;
pub mod safety;

use dead::{prune, remove_dead_code};

verus! {

// ── Constant folding: the mathematical statement ────────────────────────────

/// Rust's `/` on integers: the quotient rounded toward zero.
pub open spec fn quot(x: int, d: int) -> int {
    if x == 0 {
        0
    } else if x > 0 && d > 0 {
        x / d
    } else if x < 0 && d < 0 {
        (x * -1) / (d * -1)
    } else if x < 0 {
        ((x * -1) / d) * -1
    } else {
        (x / (d * -1)) * -1
    }
}

/// Rust's `%` on integers: the remainder with the sign of the dividend.
pub open spec fn rem(x: int, d: int) -> int {
    if x == 0 {
        0
    } else if x > 0 && d > 0 {
        x % d
    } else if x < 0 && d < 0 {
        ((x * -1) % (d * -1)) * -1
    } else if x < 0 {
        ((x * -1) % d) * -1
    } else {
        x % (d * -1)
    }
}

/// Whether `x` fits in an `i64`.
pub open spec fn fits_i64(x: int) -> bool {
    i64::MIN <= x <= i64::MAX
}

/// The binary operation `op` on already folded operands: literals of the
/// same kind combine (integer `+ - * / %`, string `+`, boolean `&& ||`),
/// except a division or remainder by zero; anything else stays a binary
/// expression.
pub open spec fn fold_bin(op: BinOp, l: SpecExpr, r: SpecExpr) -> SpecExpr {
    let keep = SpecExpr::Binary { op, left: Box::new(l), right: Box::new(r) };
    match (l, r) {
        (SpecExpr::IntLit(a), SpecExpr::IntLit(b)) => match op {
            BinOp::Add => SpecExpr::IntLit((a + b) as i64),
            BinOp::Sub => SpecExpr::IntLit((a - b) as i64),
            BinOp::Mul => SpecExpr::IntLit((a * b) as i64),
            BinOp::Div => if b != 0 {
                SpecExpr::IntLit(quot(a as int, b as int) as i64)
            } else {
                keep
            },
            BinOp::Mod => if b != 0 {
                SpecExpr::IntLit(rem(a as int, b as int) as i64)
            } else {
                keep
            },
            _ => keep,
        },
        (SpecExpr::StringLit(a), SpecExpr::StringLit(b)) => if op == BinOp::Add {
            SpecExpr::StringLit(a + b)
        } else {
            keep
        },
        (SpecExpr::BoolLit(a), SpecExpr::BoolLit(b)) => if op == BinOp::And {
            SpecExpr::BoolLit(a && b)
        } else if op == BinOp::Or {
            SpecExpr::BoolLit(a || b)
        } else {
            keep
        },
        _ => keep,
    }
}

/// The value of a constant expression.
pub enum ConstValue {
    Int(int),
    Bool(bool),
    Str(Seq<char>),
}

/// What a binary operator computes on two values: integer arithmetic
/// (division and remainder rounded toward zero, undefined by zero), string
/// concatenation, the logical connectives, comparison of integers, and
/// equality of two values of one kind.
pub open spec fn bin_value(op: BinOp, a: ConstValue, b: ConstValue) -> Option<ConstValue> {
    match (a, b) {
        (ConstValue::Int(x), ConstValue::Int(y)) => match op {
            BinOp::Add => Some(ConstValue::Int(x + y)),
            BinOp::Sub => Some(ConstValue::Int(x - y)),
            BinOp::Mul => Some(ConstValue::Int(x * y)),
            BinOp::Div => if y == 0 { None } else { Some(ConstValue::Int(quot(x, y))) },
            BinOp::Mod => if y == 0 { None } else { Some(ConstValue::Int(rem(x, y))) },
            BinOp::Eq => Some(ConstValue::Bool(x == y)),
            BinOp::Ne => Some(ConstValue::Bool(x != y)),
            BinOp::Lt => Some(ConstValue::Bool(x < y)),
            BinOp::Gt => Some(ConstValue::Bool(x > y)),
            BinOp::Le => Some(ConstValue::Bool(x <= y)),
            BinOp::Ge => Some(ConstValue::Bool(x >= y)),
            _ => None,
        },
        (ConstValue::Bool(x), ConstValue::Bool(y)) => match op {
            BinOp::And => Some(ConstValue::Bool(x && y)),
            BinOp::Or => Some(ConstValue::Bool(x || y)),
            BinOp::Eq => Some(ConstValue::Bool(x == y)),
            BinOp::Ne => Some(ConstValue::Bool(x != y)),
            _ => None,
        },
        (ConstValue::Str(x), ConstValue::Str(y)) => match op {
            BinOp::Add => Some(ConstValue::Str(x + y)),
            BinOp::Eq => Some(ConstValue::Bool(x == y)),
            BinOp::Ne => Some(ConstValue::Bool(x != y)),
            _ => None,
        },
        _ => None,
    }
}

/// The value of an expression built from literals with operators; `None`
/// for anything else, or where an operator is undefined on its operands.
pub open spec fn const_value(e: SpecExpr) -> Option<ConstValue>
    decreases e,
{
    match e {
        SpecExpr::IntLit(n) => Some(ConstValue::Int(n as int)),
        SpecExpr::BoolLit(b) => Some(ConstValue::Bool(b)),
        SpecExpr::StringLit(t) => Some(ConstValue::Str(t)),
        SpecExpr::Binary { op, left, right } => match (const_value(*left), const_value(*right)) {
            (Some(a), Some(b)) => bin_value(op, a, b),
            _ => None,
        },
        SpecExpr::Unary { op, expr } => match (op, const_value(*expr)) {
            (UnOp::Neg, Some(ConstValue::Int(n))) => Some(ConstValue::Int(-n)),
            (UnOp::Not, Some(ConstValue::Bool(b))) => Some(ConstValue::Bool(!b)),
            _ => None,
        },
        _ => None,
    }
}

/// Whether an expression is a literal.
pub open spec fn is_literal(e: SpecExpr) -> bool {
    e is IntLit || e is BoolLit || e is StringLit
}

/// Folding keeps meaning: folding `op` on two operands gives an expression
/// with the value of the unfolded `l op r` (where integer folding does not
/// overflow). And it folds: integer arithmetic (but by zero), string `+`
/// and boolean `&&`/`||` on two literals give a literal.
pub proof fn lemma_fold_bin_value(op: BinOp, l: SpecExpr, r: SpecExpr)
    requires
        fold_bin_ok(op, l, r),
    ensures
        const_value(fold_bin(op, l, r)) == const_value(SpecExpr::Binary { op, left: Box::new(l), right: Box::new(r) }),
        ((l is IntLit && r is IntLit && (op is Add || op is Sub || op is Mul || ((op is Div || op is Mod)
            && r->IntLit_0 != 0))) || (l is BoolLit && r is BoolLit && (op is And || op is Or)) || (l is StringLit
            && r is StringLit && op is Add)) ==> is_literal(fold_bin(op, l, r)),
{
    reveal_with_fuel(const_value, 2);
    if let (SpecExpr::IntLit(a), SpecExpr::IntLit(b)) = (l, r) {
        if (op is Div || op is Mod) && b != 0 {
            lemma_quot_rem_fit(a, b);
        }
    }
}

/// Folding a unary operator keeps meaning too (negation of `i64::MIN`
/// aside), and `-` on an integer or `!` on a boolean literal gives a literal.
pub proof fn lemma_fold_un_value(op: UnOp, e: SpecExpr)
    requires
        !(op is Neg && e == SpecExpr::IntLit(i64::MIN)),
    ensures
        const_value(fold_un(op, e)) == const_value(SpecExpr::Unary { op, expr: Box::new(e) }),
        ((op is Neg && e is IntLit) || (op is Not && e is BoolLit)) ==> is_literal(fold_un(op, e)),
{
    reveal_with_fuel(const_value, 2);
}

/// Integer folding of `op` on these folded operands does not overflow:
/// the sum, difference and product fit, and no `i64::MIN` is divided by `-1`.
pub open spec fn fold_bin_ok(op: BinOp, l: SpecExpr, r: SpecExpr) -> bool {
    match (l, r) {
        (SpecExpr::IntLit(a), SpecExpr::IntLit(b)) => match op {
            BinOp::Add => fits_i64(a + b),
            BinOp::Sub => fits_i64(a - b),
            BinOp::Mul => fits_i64(a * b),
            BinOp::Div | BinOp::Mod => !(a == i64::MIN && b == -1),
            _ => true,
        },
        _ => true,
    }
}

/// The unary operation `op` on a folded operand.
pub open spec fn fold_un(op: UnOp, e: SpecExpr) -> SpecExpr {
    match (op, e) {
        (UnOp::Neg, SpecExpr::IntLit(n)) => SpecExpr::IntLit((-n) as i64),
        (UnOp::Not, SpecExpr::BoolLit(b)) => SpecExpr::BoolLit(!b),
        _ => SpecExpr::Unary { op, expr: Box::new(e) },
    }
}

/// Constant folding, bottom-up, through binary and unary operators, field
/// accesses, calls, lambdas and blocks; other expressions stay as they are.
pub open spec fn fold(e: SpecExpr) -> SpecExpr
    decreases e,
{
    match e {
        SpecExpr::Binary { op, left, right } => fold_bin(op, fold(*left), fold(*right)),
        SpecExpr::Unary { op, expr } => fold_un(op, fold(*expr)),
        SpecExpr::FieldAccess(r, f) => SpecExpr::FieldAccess(Box::new(fold(*r)), f),
        SpecExpr::MethodCall { receiver, method, args } => SpecExpr::MethodCall {
            receiver: Box::new(fold(*receiver)),
            method,
            args: fold_all(args),
        },
        SpecExpr::Call { callee, args } => SpecExpr::Call { callee, args: fold_all(args) },
        SpecExpr::Lambda { params, body } => SpecExpr::Lambda { params, body: Box::new(fold(*body)) },
        SpecExpr::Block { tag, children } => SpecExpr::Block { tag, children: fold_all(children) },
        _ => e,
    }
}

/// Each expression folded.
pub open spec fn fold_all(s: Seq<SpecExpr>) -> Seq<SpecExpr>
    decreases s,
{
    if s.len() == 0 {
        Seq::empty()
    } else {
        fold_all(s.drop_last()).push(fold(s.last()))
    }
}

/// Folding `e` never overflows.
pub open spec fn fold_ok(e: SpecExpr) -> bool
    decreases e,
{
    match e {
        SpecExpr::Binary { op, left, right } => fold_ok(*left) && fold_ok(*right) && fold_bin_ok(
            op,
            fold(*left),
            fold(*right),
        ),
        SpecExpr::Unary { op, expr } => fold_ok(*expr) && !(op == UnOp::Neg && fold(*expr) == SpecExpr::IntLit(
            i64::MIN,
        )),
        SpecExpr::FieldAccess(r, _) => fold_ok(*r),
        SpecExpr::MethodCall { receiver, args, .. } => fold_ok(*receiver) && fold_all_ok(args),
        SpecExpr::Call { args, .. } => fold_all_ok(args),
        SpecExpr::Lambda { body, .. } => fold_ok(*body),
        SpecExpr::Block { children, .. } => fold_all_ok(children),
        _ => true,
    }
}

/// Constant folding keeps the value of every expression: where folding
/// does not overflow, the folded expression has the value of the original.
pub proof fn lemma_fold_keeps_value(e: SpecExpr)
    requires
        fold_ok(e),
    ensures
        const_value(fold(e)) == const_value(e),
    decreases e,
{
    match e {
        SpecExpr::Binary { op, left, right } => {
            lemma_fold_keeps_value(*left);
            lemma_fold_keeps_value(*right);
            lemma_fold_bin_value(op, fold(*left), fold(*right));
        },
        SpecExpr::Unary { op, expr } => {
            lemma_fold_keeps_value(*expr);
            lemma_fold_un_value(op, fold(*expr));
        },
        _ => {},
    }
}

/// Folding each expression never overflows.
pub open spec fn fold_all_ok(s: Seq<SpecExpr>) -> bool
    decreases s,
{
    s.len() == 0 || (fold_all_ok(s.drop_last()) && fold_ok(s.last()))
}

// ── Constant folding: the code ───────────────────────────────────────────────

/// Fold constant subexpressions of `expr`.
pub fn fold_expr(expr: Expr) -> (r: Expr)
    requires
        fold_ok(expr@),
    ensures
        r@ == fold(expr@),
{
    fold_ref(&expr)
}

/// Integer folding of `op` on two literals.
fn fold_ints(op: BinOp, a: i64, b: i64, left: Expr, right: Expr) -> (r: Expr)
    requires
        left@ == SpecExpr::IntLit(a),
        right@ == SpecExpr::IntLit(b),
        fold_bin_ok(op, left@, right@),
    ensures
        r@ == fold_bin(op, left@, right@),
{
    match op {
        BinOp::Add => {
            let s = a + b;
            assert(s == (a + b) as i64);
            Expr::IntLit(s)
        },
        BinOp::Sub => {
            let s = a - b;
            assert(s == (a - b) as i64);
            Expr::IntLit(s)
        },
        BinOp::Mul => {
            let s = a * b;
            assert(s == (a * b) as i64);
            Expr::IntLit(s)
        },
        BinOp::Div => {
            if b != 0 {
                proof {
                    lemma_quot_rem_fit(a, b);
                }
                match a.checked_div(b) {
                    Some(q) => Expr::IntLit(q),
                    None => Expr::Binary { op, left: Box::new(left), right: Box::new(right) },
                }
            } else {
                Expr::Binary { op, left: Box::new(left), right: Box::new(right) }
            }
        },
        BinOp::Mod => {
            if b != 0 {
                proof {
                    lemma_quot_rem_fit(a, b);
                }
                match a.checked_rem(b) {
                    Some(m) => Expr::IntLit(m),
                    None => Expr::Binary { op, left: Box::new(left), right: Box::new(right) },
                }
            } else {
                Expr::Binary { op, left: Box::new(left), right: Box::new(right) }
            }
        },
        _ => Expr::Binary { op, left: Box::new(left), right: Box::new(right) },
    }
}

/// Combine two folded operands with `op`.
fn fold_binary(op: BinOp, left: Expr, right: Expr) -> (r: Expr)
    requires
        fold_bin_ok(op, left@, right@),
    ensures
        r@ == fold_bin(op, left@, right@),
{
    match (&left, &right) {
        (Expr::IntLit(a), Expr::IntLit(b)) => {
            let (a, b) = (*a, *b);
            fold_ints(op, a, b, left, right)
        },
        (Expr::StringLit(a), Expr::StringLit(b)) => {
            if op == BinOp::Add {
                let mut s = a.clone();
                s.append(b.as_str());
                Expr::StringLit(s)
            } else {
                Expr::Binary { op, left: Box::new(left), right: Box::new(right) }
            }
        },
        (Expr::BoolLit(a), Expr::BoolLit(b)) => {
            if op == BinOp::And {
                Expr::BoolLit(*a && *b)
            } else if op == BinOp::Or {
                Expr::BoolLit(*a || *b)
            } else {
                Expr::Binary { op, left: Box::new(left), right: Box::new(right) }
            }
        },
        _ => Expr::Binary { op, left: Box::new(left), right: Box::new(right) },
    }
}

fn fold_ref(expr: &Expr) -> (r: Expr)
    requires
        fold_ok(expr@),
    ensures
        r@ == fold(expr@),
    decreases expr,
{
    match expr {
        Expr::Binary { op, left, right } => {
            let left = fold_ref(left);
            let right = fold_ref(right);
            fold_binary(*op, left, right)
        },
        Expr::Unary { op, expr } => {
            let inner = fold_ref(expr);
            match (op, &inner) {
                (UnOp::Neg, Expr::IntLit(n)) => Expr::IntLit(-*n),
                (UnOp::Not, Expr::BoolLit(b)) => Expr::BoolLit(!*b),
                _ => Expr::Unary { op: *op, expr: Box::new(inner) },
            }
        },
        Expr::FieldAccess(e, f) => Expr::FieldAccess(Box::new(fold_ref(e)), f.clone()),
        Expr::MethodCall { receiver, method, args } => {
            proof {
                assert(decreases_to!(expr => args));
            }
            Expr::MethodCall {
                receiver: Box::new(fold_ref(receiver)),
                method: method.clone(),
                args: fold_list(args),
            }
        },
        Expr::Call { callee, args } => {
            proof {
                assert(decreases_to!(expr => args));
            }
            Expr::Call { callee: callee.clone(), args: fold_list(args) }
        },
        Expr::Lambda { params, body } => {
            Expr::Lambda { params: clone_params(params), body: Box::new(fold_ref(body)) }
        },
        Expr::Block { tag, children } => {
            proof {
                assert(decreases_to!(expr => children));
            }
            Expr::Block { tag: tag.clone(), children: fold_list(children) }
        },
        _ => expr.duplicate(),
    }
}

/// Each expression folded.
fn fold_list(v: &Vec<Expr>) -> (r: Vec<Expr>)
    requires
        fold_all_ok(exprs_view(v@)),
    ensures
        exprs_view(r@) == fold_all(exprs_view(v@)),
    decreases v,
{
    let mut out: Vec<Expr> = Vec::new();
    let mut i: usize = 0;
    while i < v.len()
        invariant
            i <= v.len(),
            fold_all_ok(exprs_view(v@)),
            exprs_view(out@) == fold_all(exprs_view(v@.take(i as int))),
        decreases v.len() - i,
    {
        proof {
            assert(decreases_to!(v => v@));
            assert(decreases_to!(v@ => v@[i as int]));
            lemma_all_ok_at(v@, i as int);
        }
        let x = fold_ref(&v[i]);
        let ghost prev = out@;
        let ghost s = exprs_view(v@.take(i as int));
        out.push(x);
        assert(v@.take(i + 1).drop_last() =~= v@.take(i as int));
        assert(exprs_view(v@.take(i + 1)) == s.push(v@[i as int]@));
        assert(s.push(v@[i as int]@).drop_last() =~= s);
        assert(fold_all(s.push(v@[i as int]@)) == fold_all(s).push(fold(v@[i as int]@)));
        assert(out@.drop_last() =~= prev);
        i = i + 1;
    }
    assert(v@.take(v.len() as int) =~= v@);
    out
}

/// A copy of a parameter list.
fn clone_params(v: &Vec<Param>) -> (r: Vec<Param>)
    ensures
        crate::ast::views(r@) == crate::ast::views(v@),
{
    let mut out: Vec<Param> = Vec::new();
    let mut i: usize = 0;
    while i < v.len()
        invariant
            i <= v.len(),
            crate::ast::views(out@) == crate::ast::views(v@.take(i as int)),
        decreases v.len() - i,
    {
        let x = v[i].duplicate();
        proof {
            crate::ast::lemma_views_push(out@, x);
            crate::ast::lemma_views_push(v@.take(i as int), v@[i as int]);
        }
        out.push(x);
        assert(v@.take(i + 1) =~= v@.take(i as int).push(v@[i as int]));
        i = i + 1;
    }
    assert(v@.take(v.len() as int) =~= v@);
    out
}

/// Rust's quotient and remainder of `i64` values fit in an `i64`, except
/// `i64::MIN / -1`.
proof fn lemma_quot_rem_fit(a: i64, b: i64)
    requires
        b != 0,
        !(a == i64::MIN && b == -1),
    ensures
        fits_i64(quot(a as int, b as int)),
        fits_i64(rem(a as int, b as int)),
{
    let x = a as int;
    let d = b as int;
    if x > 0 && d > 0 {
        assert(0 <= x / d <= x) by (nonlinear_arith)
            requires
                x > 0,
                d > 0,
        ;
        assert(0 <= x % d < d) by (nonlinear_arith)
            requires
                d > 0,
        ;
    } else if x < 0 && d < 0 {
        assert(0 <= (x * -1) / (d * -1) <= x * -1) by (nonlinear_arith)
            requires
                x < 0,
                d < 0,
        ;
        if d < -1 {
            assert((x * -1) / (d * -1) < x * -1) by (nonlinear_arith)
                requires
                    x < 0,
                    d < -1,
            ;
        }
        assert(0 <= (x * -1) % (d * -1) < d * -1) by (nonlinear_arith)
            requires
                d < 0,
        ;
        assert((x * -1) % (d * -1) <= x * -1) by (nonlinear_arith)
            requires
                x < 0,
                d < 0,
        ;
    } else if x < 0 && d > 0 {
        assert(0 <= (x * -1) / d <= x * -1) by (nonlinear_arith)
            requires
                x < 0,
                d > 0,
        ;
        assert(0 <= (x * -1) % d < d) by (nonlinear_arith)
            requires
                d > 0,
        ;
        assert((x * -1) % d <= x * -1) by (nonlinear_arith)
            requires
                x < 0,
                d > 0,
        ;
    } else if x > 0 && d < 0 {
        assert(0 <= x / (d * -1) <= x) by (nonlinear_arith)
            requires
                x > 0,
                d < 0,
        ;
        assert(0 <= x % (d * -1) < d * -1) by (nonlinear_arith)
            requires
                d < 0,
        ;
    }
}

/// The views of an expression list, one per expression.
pub proof fn lemma_exprs_view_len(s: Seq<Expr>)
    ensures
        exprs_view(s).len() == s.len(),
    decreases s.len(),
{
    if s.len() > 0 {
        lemma_exprs_view_len(s.drop_last());
    }
}

/// The `i`-th view is the view of the `i`-th expression.
pub proof fn lemma_exprs_view_at(s: Seq<Expr>, i: int)
    requires
        0 <= i < s.len(),
    ensures
        exprs_view(s)[i] == s[i]@,
    decreases s.len(),
{
    lemma_exprs_view_len(s.drop_last());
    if i < s.len() - 1 {
        assert(s.drop_last()[i] == s[i]);
        lemma_exprs_view_at(s.drop_last(), i);
    }
}

/// Every element of an all-foldable list is foldable.
proof fn lemma_all_ok_at(v: Seq<Expr>, i: int)
    requires
        fold_all_ok(exprs_view(v)),
        0 <= i < v.len(),
    ensures
        fold_ok(v[i]@),
    decreases v.len(),
{
    assert(exprs_view(v).drop_last() =~= exprs_view(v.drop_last()));
    if i < v.len() - 1 {
        assert(v.drop_last()[i] == v[i]);
        lemma_all_ok_at(v.drop_last(), i);
    }
}

// ── Statements: each pass applied to the expressions of a statement ──────────

/// Folding applied to the expressions of a statement and its nested bodies;
/// `match` statements and bare `return`, `break`, `continue` stay as they are.
pub open spec fn fold_stmt(s: SpecStmt) -> SpecStmt
    decreases s,
{
    match s {
        SpecStmt::Return { expr: Some(e), span } => SpecStmt::Return { expr: Some(fold(e)), span },
        SpecStmt::Assign { object, field, value } => SpecStmt::Assign { object: fold(object), field, value: fold(value) },
        SpecStmt::Let { name, ty, init } => SpecStmt::Let { name, ty, init: fold(init) },
        SpecStmt::If { cond, then_body, else_body } => SpecStmt::If {
            cond: fold(cond),
            then_body: fold_stmts(then_body),
            else_body: match else_body {
                Some(b) => Some(fold_stmts(b)),
                None => None,
            },
        },
        SpecStmt::While { cond, body } => SpecStmt::While { cond: fold(cond), body: fold_stmts(body) },
        SpecStmt::For { var, iter, body } => SpecStmt::For { var, iter: fold(iter), body: fold_stmts(body) },
        SpecStmt::Expr(e) => SpecStmt::Expr(fold(e)),
        _ => s,
    }
}

/// Each statement folded.
pub open spec fn fold_stmts(s: Seq<SpecStmt>) -> Seq<SpecStmt>
    decreases s,
{
    if s.len() == 0 {
        Seq::empty()
    } else {
        fold_stmts(s.drop_last()).push(fold_stmt(s.last()))
    }
}

/// Folding the statement never overflows.
pub open spec fn fold_stmt_ok(s: SpecStmt) -> bool
    decreases s,
{
    match s {
        SpecStmt::Return { expr: Some(e), .. } => fold_ok(e),
        SpecStmt::Assign { object, value, .. } => fold_ok(object) && fold_ok(value),
        SpecStmt::Let { init, .. } => fold_ok(init),
        SpecStmt::If { cond, then_body, else_body } => fold_ok(cond) && fold_stmts_ok(then_body) && match else_body {
            Some(b) => fold_stmts_ok(b),
            None => true,
        },
        SpecStmt::While { cond, body } => fold_ok(cond) && fold_stmts_ok(body),
        SpecStmt::For { iter, body, .. } => fold_ok(iter) && fold_stmts_ok(body),
        SpecStmt::Expr(e) => fold_ok(e),
        _ => true,
    }
}

/// Folding each statement never overflows.
pub open spec fn fold_stmts_ok(s: Seq<SpecStmt>) -> bool
    decreases s,
{
    s.len() == 0 || (fold_stmts_ok(s.drop_last()) && fold_stmt_ok(s.last()))
}

fn fold_stmt_ref(stmt: &Stmt) -> (r: Stmt)
    requires
        fold_stmt_ok(stmt@),
    ensures
        r@ == fold_stmt(stmt@),
    decreases stmt,
{
    match stmt {
        Stmt::Return { expr: Some(e), span } => Stmt::Return { expr: Some(fold_ref(e)), span: *span },
        Stmt::Assign { object, field, value } => Stmt::Assign {
            object: fold_ref(object),
            field: field.clone(),
            value: fold_ref(value),
        },
        Stmt::Let { name, ty, init } => Stmt::Let {
            name: name.clone(),
            ty: match ty {
                Some(t) => Some(t.duplicate()),
                None => None,
            },
            init: fold_ref(init),
        },
        Stmt::If { cond, then_body, else_body } => {
            proof {
                assert(decreases_to!(stmt => then_body));
            }
            let else_body = match else_body {
                Some(b) => {
                    proof {
                        assert(decreases_to!(stmt => else_body));
                        assert(decreases_to!(else_body => b));
                    }
                    Some(fold_stmt_list(b))
                },
                None => None,
            };
            Stmt::If { cond: fold_ref(cond), then_body: fold_stmt_list(then_body), else_body }
        },
        Stmt::While { cond, body } => {
            proof {
                assert(decreases_to!(stmt => body));
            }
            Stmt::While { cond: fold_ref(cond), body: fold_stmt_list(body) }
        },
        Stmt::For { var, iter, body } => {
            proof {
                assert(decreases_to!(stmt => body));
            }
            Stmt::For { var: var.clone(), iter: fold_ref(iter), body: fold_stmt_list(body) }
        },
        Stmt::Expr(e) => Stmt::Expr(fold_ref(e)),
        _ => stmt.duplicate(),
    }
}

/// Each statement folded.
fn fold_stmt_list(v: &Vec<Stmt>) -> (r: Vec<Stmt>)
    requires
        fold_stmts_ok(stmts_view(v@)),
    ensures
        stmts_view(r@) == fold_stmts(stmts_view(v@)),
    decreases v,
{
    let mut out: Vec<Stmt> = Vec::new();
    let mut i: usize = 0;
    while i < v.len()
        invariant
            i <= v.len(),
            fold_stmts_ok(stmts_view(v@)),
            stmts_view(out@) == fold_stmts(stmts_view(v@.take(i as int))),
        decreases v.len() - i,
    {
        proof {
            assert(decreases_to!(v => v@));
            assert(decreases_to!(v@ => v@[i as int]));
            lemma_stmts_ok_at(v@, i as int);
        }
        let x = fold_stmt_ref(&v[i]);
        let ghost prev = out@;
        let ghost s = stmts_view(v@.take(i as int));
        out.push(x);
        assert(v@.take(i + 1).drop_last() =~= v@.take(i as int));
        assert(stmts_view(v@.take(i + 1)) == s.push(v@[i as int]@));
        assert(s.push(v@[i as int]@).drop_last() =~= s);
        assert(fold_stmts(s.push(v@[i as int]@)) == fold_stmts(s).push(fold_stmt(v@[i as int]@)));
        assert(out@.drop_last() =~= prev);
        i = i + 1;
    }
    assert(v@.take(v.len() as int) =~= v@);
    out
}

/// Every statement of an all-foldable list is foldable.
proof fn lemma_stmts_ok_at(v: Seq<Stmt>, i: int)
    requires
        fold_stmts_ok(stmts_view(v)),
        0 <= i < v.len(),
    ensures
        fold_stmt_ok(v[i]@),
    decreases v.len(),
{
    assert(stmts_view(v).drop_last() =~= stmts_view(v.drop_last()));
    if i < v.len() - 1 {
        assert(v.drop_last()[i] == v[i]);
        lemma_stmts_ok_at(v.drop_last(), i);
    }
}

// ── Flattening nested same-tag blocks ───────────────────────────────────────

/// Bottom-up: a block whose only child (after flattening) is a block with
/// the same tag takes that child's children.
pub open spec fn flat(e: SpecExpr) -> SpecExpr
    decreases e,
{
    match e {
        SpecExpr::Block { tag, children } => {
            let cs = flat_all(children);
            if cs.len() == 1 && (cs[0] matches SpecExpr::Block { tag: t2, .. } && t2 == tag) {
                SpecExpr::Block { tag, children: cs[0]->children }
            } else {
                SpecExpr::Block { tag, children: cs }
            }
        },
        SpecExpr::FieldAccess(r, f) => SpecExpr::FieldAccess(Box::new(flat(*r)), f),
        SpecExpr::MethodCall { receiver, method, args } => SpecExpr::MethodCall {
            receiver: Box::new(flat(*receiver)),
            method,
            args: flat_all(args),
        },
        SpecExpr::Call { callee, args } => SpecExpr::Call { callee, args: flat_all(args) },
        SpecExpr::Lambda { params, body } => SpecExpr::Lambda { params, body: Box::new(flat(*body)) },
        SpecExpr::Binary { op, left, right } => SpecExpr::Binary {
            op,
            left: Box::new(flat(*left)),
            right: Box::new(flat(*right)),
        },
        SpecExpr::Unary { op, expr } => SpecExpr::Unary { op, expr: Box::new(flat(*expr)) },
        _ => e,
    }
}

/// Each expression flattened.
pub open spec fn flat_all(s: Seq<SpecExpr>) -> Seq<SpecExpr>
    decreases s,
{
    if s.len() == 0 {
        Seq::empty()
    } else {
        flat_all(s.drop_last()).push(flat(s.last()))
    }
}

/// Flattening applied to the expressions of a statement and its nested bodies.
pub open spec fn flat_stmt(s: SpecStmt) -> SpecStmt
    decreases s,
{
    match s {
        SpecStmt::Return { expr: Some(e), span } => SpecStmt::Return { expr: Some(flat(e)), span },
        SpecStmt::Assign { object, field, value } => SpecStmt::Assign { object: flat(object), field, value: flat(value) },
        SpecStmt::Let { name, ty, init } => SpecStmt::Let { name, ty, init: flat(init) },
        SpecStmt::If { cond, then_body, else_body } => SpecStmt::If {
            cond: flat(cond),
            then_body: flat_stmts(then_body),
            else_body: match else_body {
                Some(b) => Some(flat_stmts(b)),
                None => None,
            },
        },
        SpecStmt::While { cond, body } => SpecStmt::While { cond: flat(cond), body: flat_stmts(body) },
        SpecStmt::For { var, iter, body } => SpecStmt::For { var, iter: flat(iter), body: flat_stmts(body) },
        SpecStmt::Expr(e) => SpecStmt::Expr(flat(e)),
        _ => s,
    }
}

/// Each statement flattened.
pub open spec fn flat_stmts(s: Seq<SpecStmt>) -> Seq<SpecStmt>
    decreases s,
{
    if s.len() == 0 {
        Seq::empty()
    } else {
        flat_stmts(s.drop_last()).push(flat_stmt(s.last()))
    }
}

/// Flatten nested same-tag blocks in `expr`.
pub fn flatten_expr(expr: Expr) -> (r: Expr)
    ensures
        r@ == flat(expr@),
{
    flatten_ref(&expr)
}

/// The block `tag { children }`, lifting the children of a single same-tag child block.
fn lift_single_child(tag: String, children: Vec<Expr>) -> (r: Expr)
    ensures
        r@ == (if exprs_view(children@).len() == 1 && (exprs_view(children@)[0] matches SpecExpr::Block { tag: t2, .. }
            && t2 == tag@) {
            SpecExpr::Block { tag: tag@, children: exprs_view(children@)[0]->children }
        } else {
            SpecExpr::Block { tag: tag@, children: exprs_view(children@) }
        }),
{
    proof {
        lemma_exprs_view_len(children@);
        if children@.len() == 1 {
            lemma_exprs_view_at(children@, 0);
        }
    }
    if children.len() == 1 {
        if let Expr::Block { tag: inner_tag, children: inner_children } = &children[0] {
            if inner_tag.eq(&tag) {
                let lifted = clone_exprs(inner_children);
                return Expr::Block { tag, children: lifted };
            }
        }
    }
    Expr::Block { tag, children }
}

/// A copy of an expression list.
fn clone_exprs(v: &Vec<Expr>) -> (r: Vec<Expr>)
    ensures
        exprs_view(r@) == exprs_view(v@),
{
    let mut out: Vec<Expr> = Vec::new();
    let mut i: usize = 0;
    while i < v.len()
        invariant
            i <= v.len(),
            exprs_view(out@) == exprs_view(v@.take(i as int)),
        decreases v.len() - i,
    {
        let x = v[i].duplicate();
        let ghost prev = out@;
        out.push(x);
        assert(v@.take(i + 1).drop_last() =~= v@.take(i as int));
        assert(out@.drop_last() =~= prev);
        i = i + 1;
    }
    assert(v@.take(v.len() as int) =~= v@);
    out
}

fn flatten_ref(expr: &Expr) -> (r: Expr)
    ensures
        r@ == flat(expr@),
    decreases expr,
{
    match expr {
        Expr::Block { tag, children } => {
            proof {
                assert(decreases_to!(expr => children));
            }
            // Recurse first (bottom-up), then lift a single same-tag child.
            let children = flatten_list(children);
            lift_single_child(tag.clone(), children)
        },
        Expr::FieldAccess(e, f) => Expr::FieldAccess(Box::new(flatten_ref(e)), f.clone()),
        Expr::MethodCall { receiver, method, args } => {
            proof {
                assert(decreases_to!(expr => args));
            }
            Expr::MethodCall {
                receiver: Box::new(flatten_ref(receiver)),
                method: method.clone(),
                args: flatten_list(args),
            }
        },
        Expr::Call { callee, args } => {
            proof {
                assert(decreases_to!(expr => args));
            }
            Expr::Call { callee: callee.clone(), args: flatten_list(args) }
        },
        Expr::Lambda { params, body } => Expr::Lambda { params: clone_params(params), body: Box::new(flatten_ref(body)) },
        Expr::Binary { op, left, right } => Expr::Binary {
            op: *op,
            left: Box::new(flatten_ref(left)),
            right: Box::new(flatten_ref(right)),
        },
        Expr::Unary { op, expr } => Expr::Unary { op: *op, expr: Box::new(flatten_ref(expr)) },
        _ => expr.duplicate(),
    }
}

/// Each expression flattened.
fn flatten_list(v: &Vec<Expr>) -> (r: Vec<Expr>)
    ensures
        exprs_view(r@) == flat_all(exprs_view(v@)),
    decreases v,
{
    let mut out: Vec<Expr> = Vec::new();
    let mut i: usize = 0;
    while i < v.len()
        invariant
            i <= v.len(),
            exprs_view(out@) == flat_all(exprs_view(v@.take(i as int))),
        decreases v.len() - i,
    {
        proof {
            assert(decreases_to!(v => v@));
            assert(decreases_to!(v@ => v@[i as int]));
        }
        let x = flatten_ref(&v[i]);
        let ghost prev = out@;
        let ghost s = exprs_view(v@.take(i as int));
        out.push(x);
        assert(v@.take(i + 1).drop_last() =~= v@.take(i as int));
        assert(exprs_view(v@.take(i + 1)) == s.push(v@[i as int]@));
        assert(s.push(v@[i as int]@).drop_last() =~= s);
        assert(flat_all(s.push(v@[i as int]@)) == flat_all(s).push(flat(v@[i as int]@)));
        assert(out@.drop_last() =~= prev);
        i = i + 1;
    }
    assert(v@.take(v.len() as int) =~= v@);
    out
}

fn flatten_stmt_ref(stmt: &Stmt) -> (r: Stmt)
    ensures
        r@ == flat_stmt(stmt@),
    decreases stmt,
{
    match stmt {
        Stmt::Return { expr: Some(e), span } => Stmt::Return { expr: Some(flatten_ref(e)), span: *span },
        Stmt::Assign { object, field, value } => Stmt::Assign {
            object: flatten_ref(object),
            field: field.clone(),
            value: flatten_ref(value),
        },
        Stmt::Let { name, ty, init } => Stmt::Let {
            name: name.clone(),
            ty: match ty {
                Some(t) => Some(t.duplicate()),
                None => None,
            },
            init: flatten_ref(init),
        },
        Stmt::If { cond, then_body, else_body } => {
            proof {
                assert(decreases_to!(stmt => then_body));
            }
            let else_body = match else_body {
                Some(b) => {
                    proof {
                        assert(decreases_to!(stmt => else_body));
                        assert(decreases_to!(else_body => b));
                    }
                    Some(flatten_stmt_list(b))
                },
                None => None,
            };
            Stmt::If { cond: flatten_ref(cond), then_body: flatten_stmt_list(then_body), else_body }
        },
        Stmt::While { cond, body } => {
            proof {
                assert(decreases_to!(stmt => body));
            }
            Stmt::While { cond: flatten_ref(cond), body: flatten_stmt_list(body) }
        },
        Stmt::For { var, iter, body } => {
            proof {
                assert(decreases_to!(stmt => body));
            }
            Stmt::For { var: var.clone(), iter: flatten_ref(iter), body: flatten_stmt_list(body) }
        },
        Stmt::Expr(e) => Stmt::Expr(flatten_ref(e)),
        _ => stmt.duplicate(),
    }
}

/// Each statement flattened.
fn flatten_stmt_list(v: &Vec<Stmt>) -> (r: Vec<Stmt>)
    ensures
        stmts_view(r@) == flat_stmts(stmts_view(v@)),
    decreases v,
{
    let mut out: Vec<Stmt> = Vec::new();
    let mut i: usize = 0;
    while i < v.len()
        invariant
            i <= v.len(),
            stmts_view(out@) == flat_stmts(stmts_view(v@.take(i as int))),
        decreases v.len() - i,
    {
        proof {
            assert(decreases_to!(v => v@));
            assert(decreases_to!(v@ => v@[i as int]));
        }
        let x = flatten_stmt_ref(&v[i]);
        let ghost prev = out@;
        let ghost s = stmts_view(v@.take(i as int));
        out.push(x);
        assert(v@.take(i + 1).drop_last() =~= v@.take(i as int));
        assert(stmts_view(v@.take(i + 1)) == s.push(v@[i as int]@));
        assert(s.push(v@[i as int]@).drop_last() =~= s);
        assert(flat_stmts(s.push(v@[i as int]@)) == flat_stmts(s).push(flat_stmt(v@[i as int]@)));
        assert(out@.drop_last() =~= prev);
        i = i + 1;
    }
    assert(v@.take(v.len() as int) =~= v@);
    out
}

// ── Inlining trivial components ─────────────────────────────────────────────

/// Components that may be inlined, as (name, render body) pairs.
pub type Components = Seq<(Seq<char>, Seq<SpecStmt>)>;

/// The render body registered last under `name`.
pub open spec fn lookup(comps: Components, name: Seq<char>) -> Option<Seq<SpecStmt>>
    decreases comps.len(),
{
    if comps.len() == 0 {
        None
    } else if comps.last().0 == name {
        Some(comps.last().1)
    } else {
        lookup(comps.drop_last(), name)
    }
}

/// The expression a call of component `name` is replaced with: the value of
/// its render body when that body is a single `return e;`.
pub open spec fn inline_target(comps: Components, name: Seq<char>) -> Option<SpecExpr> {
    match lookup(comps, name) {
        Some(body) => if body.len() == 1 && (body[0] matches SpecStmt::Return { expr: Some(_), .. }) {
            body[0]->Return_expr
        } else {
            None
        },
        None => None,
    }
}

/// Argument-less calls of inlinable components replaced by what their render
/// body returns, throughout field accesses, calls, lambdas, blocks and operators.
pub open spec fn inl(e: SpecExpr, comps: Components) -> SpecExpr
    decreases e,
{
    match e {
        SpecExpr::Call { callee, args } => if args.len() == 0 {
            match inline_target(comps, callee) {
                Some(x) => x,
                None => e,
            }
        } else {
            SpecExpr::Call { callee, args: inl_all(args, comps) }
        },
        SpecExpr::FieldAccess(r, f) => SpecExpr::FieldAccess(Box::new(inl(*r, comps)), f),
        SpecExpr::MethodCall { receiver, method, args } => SpecExpr::MethodCall {
            receiver: Box::new(inl(*receiver, comps)),
            method,
            args: inl_all(args, comps),
        },
        SpecExpr::Lambda { params, body } => SpecExpr::Lambda { params, body: Box::new(inl(*body, comps)) },
        SpecExpr::Block { tag, children } => SpecExpr::Block { tag, children: inl_all(children, comps) },
        SpecExpr::Binary { op, left, right } => SpecExpr::Binary {
            op,
            left: Box::new(inl(*left, comps)),
            right: Box::new(inl(*right, comps)),
        },
        SpecExpr::Unary { op, expr } => SpecExpr::Unary { op, expr: Box::new(inl(*expr, comps)) },
        _ => e,
    }
}

/// Each expression with components inlined.
pub open spec fn inl_all(s: Seq<SpecExpr>, comps: Components) -> Seq<SpecExpr>
    decreases s,
{
    if s.len() == 0 {
        Seq::empty()
    } else {
        inl_all(s.drop_last(), comps).push(inl(s.last(), comps))
    }
}

/// Inlining applied to the expressions of a statement and its nested bodies.
pub open spec fn inl_stmt(s: SpecStmt, comps: Components) -> SpecStmt
    decreases s,
{
    match s {
        SpecStmt::Return { expr: Some(e), span } => SpecStmt::Return { expr: Some(inl(e, comps)), span },
        SpecStmt::Assign { object, field, value } => SpecStmt::Assign {
            object: inl(object, comps),
            field,
            value: inl(value, comps),
        },
        SpecStmt::Let { name, ty, init } => SpecStmt::Let { name, ty, init: inl(init, comps) },
        SpecStmt::If { cond, then_body, else_body } => SpecStmt::If {
            cond: inl(cond, comps),
            then_body: inl_stmts(then_body, comps),
            else_body: match else_body {
                Some(b) => Some(inl_stmts(b, comps)),
                None => None,
            },
        },
        SpecStmt::While { cond, body } => SpecStmt::While { cond: inl(cond, comps), body: inl_stmts(body, comps) },
        SpecStmt::For { var, iter, body } => SpecStmt::For {
            var,
            iter: inl(iter, comps),
            body: inl_stmts(body, comps),
        },
        SpecStmt::Expr(e) => SpecStmt::Expr(inl(e, comps)),
        _ => s,
    }
}

/// Each statement with components inlined.
pub open spec fn inl_stmts(s: Seq<SpecStmt>, comps: Components) -> Seq<SpecStmt>
    decreases s,
{
    if s.len() == 0 {
        Seq::empty()
    } else {
        inl_stmts(s.drop_last(), comps).push(inl_stmt(s.last(), comps))
    }
}

/// The view of a component table.
pub open spec fn comps_view(v: Seq<(String, Vec<Stmt>)>) -> Components {
    v.map_values(|p: (String, Vec<Stmt>)| (p.0@, stmts_view(p.1@)))
}

/// The render body registered last under `name`, if any.
fn find_component<'a>(comps: &'a Vec<(String, Vec<Stmt>)>, name: &String) -> (r: Option<&'a Vec<Stmt>>)
    ensures
        match lookup(comps_view(comps@), name@) {
            Some(b) => r matches Some(x) && stmts_view(x@) == b,
            None => r is None,
        },
{
    let mut i = comps.len();
    assert(comps@.take(i as int) =~= comps@);
    while i > 0
        invariant
            i <= comps.len(),
            lookup(comps_view(comps@), name@) == lookup(comps_view(comps@.take(i as int)), name@),
        decreases i,
    {
        assert(comps_view(comps@.take(i as int)).drop_last() =~= comps_view(comps@.take(i - 1)));
        if comps[i - 1].0.eq(name) {
            return Some(&comps[i - 1].1);
        }
        i = i - 1;
    }
    None
}

/// The expression replacing a call of `callee` without arguments, if any.
fn inline_call(callee: &String, comps: &Vec<(String, Vec<Stmt>)>) -> (r: Option<Expr>)
    ensures
        match inline_target(comps_view(comps@), callee@) {
            Some(x) => r matches Some(e) && e@ == x,
            None => r is None,
        },
{
    match find_component(comps, callee) {
        Some(body) => {
            proof {
                crate::optimizer::lemma_stmts_view_len(body@);
                if body@.len() == 1 {
                    lemma_stmts_view_at(body@, 0);
                }
            }
            // If the render body is a single return, unwrap the expression
            if body.len() == 1 {
                if let Stmt::Return { expr: Some(inner), .. } = &body[0] {
                    return Some(inner.duplicate());
                }
            }
            None
        },
        None => None,
    }
}

/// Inline argument-less calls of the components in `comps`.
fn inline_ref(expr: &Expr, comps: &Vec<(String, Vec<Stmt>)>) -> (r: Expr)
    ensures
        r@ == inl(expr@, comps_view(comps@)),
    decreases expr,
{
    match expr {
        Expr::Call { callee, args } => {
            proof {
                assert(decreases_to!(expr => args));
                lemma_exprs_view_len(args@);
            }
            if args.len() == 0 {
                match inline_call(callee, comps) {
                    Some(e) => e,
                    None => expr.duplicate(),
                }
            } else {
                Expr::Call { callee: callee.clone(), args: inline_list(args, comps) }
            }
        },
        Expr::FieldAccess(inner, field) => Expr::FieldAccess(Box::new(inline_ref(inner, comps)), field.clone()),
        Expr::MethodCall { receiver, method, args } => {
            proof {
                assert(decreases_to!(expr => args));
            }
            Expr::MethodCall {
                receiver: Box::new(inline_ref(receiver, comps)),
                method: method.clone(),
                args: inline_list(args, comps),
            }
        },
        Expr::Lambda { params, body } => Expr::Lambda { params: clone_params(params), body: Box::new(inline_ref(body, comps)) },
        Expr::Block { tag, children } => {
            proof {
                assert(decreases_to!(expr => children));
            }
            Expr::Block { tag: tag.clone(), children: inline_list(children, comps) }
        },
        Expr::Binary { op, left, right } => Expr::Binary {
            op: *op,
            left: Box::new(inline_ref(left, comps)),
            right: Box::new(inline_ref(right, comps)),
        },
        Expr::Unary { op, expr } => Expr::Unary { op: *op, expr: Box::new(inline_ref(expr, comps)) },
        _ => expr.duplicate(),
    }
}

/// Each expression with components inlined.
fn inline_list(v: &Vec<Expr>, comps: &Vec<(String, Vec<Stmt>)>) -> (r: Vec<Expr>)
    ensures
        exprs_view(r@) == inl_all(exprs_view(v@), comps_view(comps@)),
    decreases v,
{
    let mut out: Vec<Expr> = Vec::new();
    let mut i: usize = 0;
    while i < v.len()
        invariant
            i <= v.len(),
            exprs_view(out@) == inl_all(exprs_view(v@.take(i as int)), comps_view(comps@)),
        decreases v.len() - i,
    {
        proof {
            assert(decreases_to!(v => v@));
            assert(decreases_to!(v@ => v@[i as int]));
        }
        let x = inline_ref(&v[i], comps);
        let ghost prev = out@;
        let ghost s = exprs_view(v@.take(i as int));
        out.push(x);
        assert(v@.take(i + 1).drop_last() =~= v@.take(i as int));
        assert(exprs_view(v@.take(i + 1)) == s.push(v@[i as int]@));
        assert(s.push(v@[i as int]@).drop_last() =~= s);
        assert(inl_all(s.push(v@[i as int]@), comps_view(comps@)) == inl_all(s, comps_view(comps@)).push(
            inl(v@[i as int]@, comps_view(comps@)),
        ));
        assert(out@.drop_last() =~= prev);
        i = i + 1;
    }
    assert(v@.take(v.len() as int) =~= v@);
    out
}

fn inline_stmt_ref(stmt: &Stmt, comps: &Vec<(String, Vec<Stmt>)>) -> (r: Stmt)
    ensures
        r@ == inl_stmt(stmt@, comps_view(comps@)),
    decreases stmt,
{
    match stmt {
        Stmt::Return { expr: Some(e), span } => Stmt::Return { expr: Some(inline_ref(e, comps)), span: *span },
        Stmt::Assign { object, field, value } => Stmt::Assign {
            object: inline_ref(object, comps),
            field: field.clone(),
            value: inline_ref(value, comps),
        },
        Stmt::Let { name, ty, init } => Stmt::Let {
            name: name.clone(),
            ty: match ty {
                Some(t) => Some(t.duplicate()),
                None => None,
            },
            init: inline_ref(init, comps),
        },
        Stmt::If { cond, then_body, else_body } => {
            proof {
                assert(decreases_to!(stmt => then_body));
            }
            let else_body = match else_body {
                Some(b) => {
                    proof {
                        assert(decreases_to!(stmt => else_body));
                        assert(decreases_to!(else_body => b));
                    }
                    Some(inline_stmt_list(b, comps))
                },
                None => None,
            };
            Stmt::If { cond: inline_ref(cond, comps), then_body: inline_stmt_list(then_body, comps), else_body }
        },
        Stmt::While { cond, body } => {
            proof {
                assert(decreases_to!(stmt => body));
            }
            Stmt::While { cond: inline_ref(cond, comps), body: inline_stmt_list(body, comps) }
        },
        Stmt::For { var, iter, body } => {
            proof {
                assert(decreases_to!(stmt => body));
            }
            Stmt::For { var: var.clone(), iter: inline_ref(iter, comps), body: inline_stmt_list(body, comps) }
        },
        Stmt::Expr(e) => Stmt::Expr(inline_ref(e, comps)),
        _ => stmt.duplicate(),
    }
}

/// Each statement with components inlined.
fn inline_stmt_list(v: &Vec<Stmt>, comps: &Vec<(String, Vec<Stmt>)>) -> (r: Vec<Stmt>)
    ensures
        stmts_view(r@) == inl_stmts(stmts_view(v@), comps_view(comps@)),
    decreases v,
{
    let mut out: Vec<Stmt> = Vec::new();
    let mut i: usize = 0;
    while i < v.len()
        invariant
            i <= v.len(),
            stmts_view(out@) == inl_stmts(stmts_view(v@.take(i as int)), comps_view(comps@)),
        decreases v.len() - i,
    {
        proof {
            assert(decreases_to!(v => v@));
            assert(decreases_to!(v@ => v@[i as int]));
        }
        let x = inline_stmt_ref(&v[i], comps);
        let ghost prev = out@;
        let ghost s = stmts_view(v@.take(i as int));
        out.push(x);
        assert(v@.take(i + 1).drop_last() =~= v@.take(i as int));
        assert(stmts_view(v@.take(i + 1)) == s.push(v@[i as int]@));
        assert(s.push(v@[i as int]@).drop_last() =~= s);
        assert(inl_stmts(s.push(v@[i as int]@), comps_view(comps@)) == inl_stmts(s, comps_view(comps@)).push(
            inl_stmt(v@[i as int]@, comps_view(comps@)),
        ));
        assert(out@.drop_last() =~= prev);
        i = i + 1;
    }
    assert(v@.take(v.len() as int) =~= v@);
    out
}

/// The views of a statement list, one per statement.
pub proof fn lemma_stmts_view_len(s: Seq<Stmt>)
    ensures
        stmts_view(s).len() == s.len(),
    decreases s.len(),
{
    if s.len() > 0 {
        lemma_stmts_view_len(s.drop_last());
    }
}

/// The `i`-th view is the view of the `i`-th statement.
pub proof fn lemma_stmts_view_at(s: Seq<Stmt>, i: int)
    requires
        0 <= i < s.len(),
    ensures
        stmts_view(s)[i] == s[i]@,
    decreases s.len(),
{
    lemma_stmts_view_len(s.drop_last());
    if i < s.len() - 1 {
        assert(s.drop_last()[i] == s[i]);
        lemma_stmts_view_at(s.drop_last(), i);
    }
}

// ── Passes over method and constructor bodies ──────────────────────────────

/// A rewrite of statement bodies.
#[derive(Clone, Copy, PartialEq, Eq, Structural)]
pub enum BodyPass {
    Fold,
    Flatten,
    Inline,
}

/// What `pass` makes of a body (`comps` are the inlinable components).
pub open spec fn apply_pass(pass: BodyPass, comps: Components, b: Seq<SpecStmt>) -> Seq<SpecStmt> {
    match pass {
        BodyPass::Fold => fold_stmts(b),
        BodyPass::Flatten => flat_stmts(b),
        BodyPass::Inline => inl_stmts(b, comps),
    }
}

/// `pass` can rewrite the body without overflow.
pub open spec fn pass_ok(pass: BodyPass, b: Seq<SpecStmt>) -> bool {
    match pass {
        BodyPass::Fold => fold_stmts_ok(b),
        _ => true,
    }
}

/// The class with `pass` applied to its constructor and method bodies.
pub open spec fn pass_class(pass: BodyPass, comps: Components, c: SpecClassDecl) -> SpecClassDecl {
    SpecClassDecl {
        constructor: match c.constructor {
            Some(k) => Some(SpecConstructor { params: k.params, body: apply_pass(pass, comps, k.body) }),
            None => None,
        },
        methods: c.methods.map_values(|m: SpecMethod| SpecMethod { body: apply_pass(pass, comps, m.body), ..m }),
        ..c
    }
}

/// `pass` can rewrite every body of the class.
pub open spec fn pass_class_ok(pass: BodyPass, c: SpecClassDecl) -> bool {
    &&& (forall|i: int| 0 <= i < c.methods.len() ==> pass_ok(pass, #[trigger] c.methods[i].body))
    &&& (c.constructor matches Some(k) ==> pass_ok(pass, k.body))
}

/// Whether the pass leaves the class alone: inlining skips the inlined
/// components themselves.
pub open spec fn pass_skips(pass: BodyPass, comps: Components, c: SpecClassDecl) -> bool {
    pass == BodyPass::Inline && lookup(comps, c.name) is Some
}

/// The declaration with `pass` applied to the bodies of a class.
pub open spec fn pass_decl(pass: BodyPass, comps: Components, d: SpecDeclaration) -> SpecDeclaration {
    match d {
        SpecDeclaration::Class(c) => if pass_skips(pass, comps, c) {
            d
        } else {
            SpecDeclaration::Class(pass_class(pass, comps, c))
        },
        _ => d,
    }
}

/// `pass` can rewrite the declaration.
pub open spec fn pass_decl_ok(pass: BodyPass, d: SpecDeclaration) -> bool {
    match d {
        SpecDeclaration::Class(c) => pass_class_ok(pass, c),
        _ => true,
    }
}

/// Each declaration rewritten by `pass`.
pub open spec fn pass_decls(pass: BodyPass, comps: Components, ds: Seq<SpecDeclaration>) -> Seq<SpecDeclaration> {
    ds.map_values(|d: SpecDeclaration| pass_decl(pass, comps, d))
}

/// A body rewritten by `pass`.
fn run_pass(pass: BodyPass, comps: &Vec<(String, Vec<Stmt>)>, body: &Vec<Stmt>) -> (r: Vec<Stmt>)
    requires
        pass_ok(pass, stmts_view(body@)),
    ensures
        stmts_view(r@) == apply_pass(pass, comps_view(comps@), stmts_view(body@)),
{
    match pass {
        BodyPass::Fold => fold_stmt_list(body),
        BodyPass::Flatten => flatten_stmt_list(body),
        BodyPass::Inline => inline_stmt_list(body, comps),
    }
}

/// The methods with `pass` applied to their bodies.
fn pass_methods(pass: BodyPass, comps: &Vec<(String, Vec<Stmt>)>, methods: Vec<Method>) -> (r: Vec<Method>)
    requires
        forall|i: int| 0 <= i < methods@.len() ==> pass_ok(pass, #[trigger] methods@[i]@.body),
    ensures
        views(r@) == views(methods@).map_values(
            |m: SpecMethod| SpecMethod { body: apply_pass(pass, comps_view(comps@), m.body), ..m },
        ),
{
    let ghost orig = methods@;
    let n = methods.len();
    let mut rest = methods;
    let mut out: Vec<Method> = Vec::new();
    let mut k: usize = 0;
    while rest.len() > 0
        invariant
            k + rest@.len() == orig.len(),
            orig.len() == n,
            rest@ == orig.skip(k as int),
            forall|i: int| 0 <= i < orig.len() ==> pass_ok(pass, #[trigger] orig[i]@.body),
            views(out@) == views(orig.take(k as int)).map_values(
                |m: SpecMethod| SpecMethod { body: apply_pass(pass, comps_view(comps@), m.body), ..m },
            ),
        decreases rest.len(),
    {
        let m = rest.remove(0);
        assert(m == orig[k as int]);
        assert(pass_ok(pass, orig[k as int]@.body));
        let body = run_pass(pass, comps, &m.body);
        let m2 = Method {
            visibility: m.visibility,
            is_async: m.is_async,
            name: m.name,
            params: m.params,
            return_type: m.return_type,
            body,
        };
        proof {
            lemma_views_push(out@, m2);
            lemma_views_push(orig.take(k as int), orig[k as int]);
        }
        out.push(m2);
        assert(orig.take(k + 1) =~= orig.take(k as int).push(orig[k as int]));
        assert(rest@ =~= orig.skip(k + 1));
        k = k + 1;
        assert(views(out@) =~= views(orig.take(k as int)).map_values(
            |m: SpecMethod| SpecMethod { body: apply_pass(pass, comps_view(comps@), m.body), ..m },
        ));
    }
    assert(orig.take(k as int) =~= orig);
    out
}

/// The class with `pass` applied to its bodies.
fn pass_class_exec(pass: BodyPass, comps: &Vec<(String, Vec<Stmt>)>, c: ClassDecl) -> (r: ClassDecl)
    requires
        pass_class_ok(pass, c@),
    ensures
        r@ == pass_class(pass, comps_view(comps@), c@),
{
    let ClassDecl { visibility, kind, name, type_params, extends, implements, fields, constructor, methods } = c;
    proof {
        assert forall|i: int| 0 <= i < methods@.len() implies pass_ok(pass, #[trigger] methods@[i]@.body) by {
            assert(views(methods@)[i] == methods@[i]@);
        }
    }
    let methods = pass_methods(pass, comps, methods);
    let constructor = match constructor {
        Some(k) => {
            let body = run_pass(pass, comps, &k.body);
            Some(Constructor { params: k.params, body })
        },
        None => None,
    };
    ClassDecl { visibility, kind, name, type_params, extends, implements, fields, constructor, methods }
}

/// Whether any registered component is named `name`.
fn has_component(comps: &Vec<(String, Vec<Stmt>)>, name: &String) -> (b: bool)
    ensures
        b == lookup(comps_view(comps@), name@) is Some,
{
    find_component(comps, name).is_some()
}

/// The declarations with `pass` applied to the bodies of their classes.
fn pass_declarations(pass: BodyPass, comps: &Vec<(String, Vec<Stmt>)>, decls: Vec<Declaration>) -> (r: Vec<
    Declaration,
>)
    requires
        forall|i: int| 0 <= i < decls@.len() ==> pass_decl_ok(pass, #[trigger] decls@[i]@),
    ensures
        views(r@) == pass_decls(pass, comps_view(comps@), views(decls@)),
{
    let ghost orig = decls@;
    let n = decls.len();
    let mut rest = decls;
    let mut out: Vec<Declaration> = Vec::new();
    let mut k: usize = 0;
    while rest.len() > 0
        invariant
            k + rest@.len() == orig.len(),
            orig.len() == n,
            rest@ == orig.skip(k as int),
            forall|i: int| 0 <= i < orig.len() ==> pass_decl_ok(pass, #[trigger] orig[i]@),
            views(out@) == pass_decls(pass, comps_view(comps@), views(orig.take(k as int))),
        decreases rest.len(),
    {
        let d = rest.remove(0);
        assert(d == orig[k as int]);
        assert(pass_decl_ok(pass, orig[k as int]@));
        let d2 = match d {
            Declaration::Class(c) => {
                if pass == BodyPass::Inline && has_component(comps, &c.name) {
                    // skip the component itself
                    Declaration::Class(c)
                } else {
                    Declaration::Class(pass_class_exec(pass, comps, c))
                }
            },
            other => other,
        };
        proof {
            lemma_views_push(out@, d2);
            lemma_views_push(orig.take(k as int), orig[k as int]);
        }
        out.push(d2);
        assert(orig.take(k + 1) =~= orig.take(k as int).push(orig[k as int]));
        assert(rest@ =~= orig.skip(k + 1));
        k = k + 1;
        assert(views(out@) =~= pass_decls(pass, comps_view(comps@), views(orig.take(k as int))));
    }
    assert(orig.take(k as int) =~= orig);
    out
}

// ── Pass 2: inline trivial components ──────────────────────────────────────

/// A component with no fields, no constructor and a single parameterless
/// `render` method can be inlined; its render body is kept.
pub open spec fn inlinable(d: SpecDeclaration) -> bool {
    d matches SpecDeclaration::Class(c) && c.kind == ClassKind::Component && c.fields.len() == 0
        && c.constructor is None && c.methods.len() == 1 && c.methods[0].name == "render"@
        && c.methods[0].params.len() == 0
}

/// The inlinable components among the declarations, in order.
pub open spec fn inlinable_of(ds: Seq<SpecDeclaration>) -> Components
    decreases ds.len(),
{
    if ds.len() == 0 {
        Seq::empty()
    } else {
        let rest = inlinable_of(ds.drop_last());
        let d = ds.last();
        if inlinable(d) {
            rest.push((d->Class_0.name, d->Class_0.methods[0].body))
        } else {
            rest
        }
    }
}

/// The declarations without the classes registered in `comps`.
pub open spec fn drop_components(ds: Seq<SpecDeclaration>, comps: Components) -> Seq<SpecDeclaration>
    decreases ds.len(),
{
    if ds.len() == 0 {
        Seq::empty()
    } else {
        let rest = drop_components(ds.drop_last(), comps);
        let d = ds.last();
        if d matches SpecDeclaration::Class(c) && lookup(comps, c.name) is Some {
            rest
        } else {
            rest.push(d)
        }
    }
}

/// Inlining: when some component is inlinable, argument-less calls of it
/// are replaced in the bodies of the other classes, and the inlined
/// components are removed.
pub open spec fn inline_program(p: SpecProgram) -> SpecProgram {
    let comps = inlinable_of(p.declarations);
    if comps.len() == 0 {
        p
    } else {
        SpecProgram {
            declarations: drop_components(pass_decls(BodyPass::Inline, comps, p.declarations), comps),
            ..p
        }
    }
}

/// A copy of a statement list.
fn clone_stmts(v: &Vec<Stmt>) -> (r: Vec<Stmt>)
    ensures
        stmts_view(r@) == stmts_view(v@),
{
    let mut out: Vec<Stmt> = Vec::new();
    let mut i: usize = 0;
    while i < v.len()
        invariant
            i <= v.len(),
            stmts_view(out@) == stmts_view(v@.take(i as int)),
        decreases v.len() - i,
    {
        let x = v[i].duplicate();
        let ghost prev = out@;
        out.push(x);
        assert(v@.take(i + 1).drop_last() =~= v@.take(i as int));
        assert(out@.drop_last() =~= prev);
        i = i + 1;
    }
    assert(v@.take(v.len() as int) =~= v@);
    out
}

/// The component's render body when the declaration can be inlined.
fn inlinable_body(d: &Declaration) -> (r: Option<(String, Vec<Stmt>)>)
    ensures
        inlinable(d@) ==> (r matches Some(x) && x.0@ == d@->Class_0.name && stmts_view(x.1@)
            == d@->Class_0.methods[0].body),
        !inlinable(d@) ==> r is None,
{
    if let Declaration::Class(c) = d {
        let render = "render".to_owned();
        if c.kind == ClassKind::Component && c.fields.len() == 0 && c.constructor.is_none() && c.methods.len()
            == 1 {
            proof {
                assert(views(c.methods@)[0] == c.methods@[0]@);
            }
            if c.methods[0].name.eq(&render) && c.methods[0].params.len() == 0 {
                return Some((c.name.clone(), clone_stmts(&c.methods[0].body)));
            }
        }
    }
    None
}

/// The inlinable components among the declarations.
fn find_inlinable(decls: &Vec<Declaration>) -> (r: Vec<(String, Vec<Stmt>)>)
    ensures
        comps_view(r@) == inlinable_of(views(decls@)),
{
    let mut out: Vec<(String, Vec<Stmt>)> = Vec::new();
    let mut i: usize = 0;
    while i < decls.len()
        invariant
            i <= decls.len(),
            comps_view(out@) == inlinable_of(views(decls@.take(i as int))),
        decreases decls.len() - i,
    {
        let ghost before = out@;
        assert(views(decls@.take(i + 1)).drop_last() =~= views(decls@.take(i as int)));
        assert(views(decls@.take(i + 1)).last() == decls@[i as int]@);
        match inlinable_body(&decls[i]) {
            Some(entry) => {
                out.push(entry);
                assert(comps_view(out@) =~= comps_view(before).push((entry.0@, stmts_view(entry.1@))));
            },
            None => {},
        }
        i = i + 1;
    }
    assert(decls@.take(decls.len() as int) =~= decls@);
    out
}

/// Rewrite calls of trivial components into their rendered expression and
/// remove those components.
fn inline_components(program: Program) -> (r: Program)
    ensures
        r@ == inline_program(program@),
{
    let comps = find_inlinable(&program.declarations);
    if comps.len() == 0 {
        return program;
    }
    let Program { name, package, imports, server, declarations, routes } = program;
    // Rewrite all method bodies, replacing zero-arg calls to inlinable components
    let rewritten = pass_declarations(BodyPass::Inline, &comps, declarations);
    // Remove the inlined component declarations
    let ghost orig = rewritten@;
    let n = rewritten.len();
    let mut rest = rewritten;
    let mut kept: Vec<Declaration> = Vec::new();
    let mut k: usize = 0;
    while rest.len() > 0
        invariant
            k + rest@.len() == orig.len(),
            orig.len() == n,
            rest@ == orig.skip(k as int),
            views(kept@) == drop_components(views(orig.take(k as int)), comps_view(comps@)),
        decreases rest.len(),
    {
        let d = rest.remove(0);
        assert(d == orig[k as int]);
        assert(views(orig.take(k + 1)).drop_last() =~= views(orig.take(k as int)));
        assert(views(orig.take(k + 1)).last() == orig[k as int]@);
        let drop = match &d {
            Declaration::Class(c) => has_component(&comps, &c.name),
            _ => false,
        };
        if !drop {
            proof {
                lemma_views_push(kept@, d);
            }
            kept.push(d);
        }
        assert(rest@ =~= orig.skip(k + 1));
        k = k + 1;
    }
    assert(orig.take(k as int) =~= orig);
    Program { name, package, imports, server, declarations: kept, routes }
}

// ── Pass 3 and 4: flatten blocks, fold constants ────────────────────────────

/// The program with `pass` applied to every class body.
pub open spec fn pass_program(pass: BodyPass, p: SpecProgram) -> SpecProgram {
    SpecProgram { declarations: pass_decls(pass, Seq::empty(), p.declarations), ..p }
}

/// Flatten nested same-tag blocks in every class body.
fn flatten_tree(program: Program) -> (r: Program)
    ensures
        r@ == pass_program(BodyPass::Flatten, program@),
{
    let Program { name, package, imports, server, declarations, routes } = program;
    let none: Vec<(String, Vec<Stmt>)> = Vec::new();
    assert(comps_view(none@) =~= Seq::empty());
    let declarations = pass_declarations(BodyPass::Flatten, &none, declarations);
    Program { name, package, imports, server, declarations, routes }
}

/// Fold constants in every class body.
fn precompute_props(program: Program) -> (r: Program)
    requires
        forall|i: int|
            0 <= i < program@.declarations.len() ==> pass_decl_ok(BodyPass::Fold, #[trigger] program@.declarations[i]),
    ensures
        r@ == pass_program(BodyPass::Fold, program@),
{
    let Program { name, package, imports, server, declarations, routes } = program;
    let none: Vec<(String, Vec<Stmt>)> = Vec::new();
    assert(comps_view(none@) =~= Seq::empty());
    proof {
        assert forall|i: int| 0 <= i < declarations@.len() implies pass_decl_ok(BodyPass::Fold, #[trigger] declarations@[i]@) by {
            assert(views(declarations@)[i] == declarations@[i]@);
        }
    }
    let declarations = pass_declarations(BodyPass::Fold, &none, declarations);
    Program { name, package, imports, server, declarations, routes }
}

// ── The whole pipeline ──────────────────────────────────────────────────────

/// Dead-code removal, then inlining, then flattening: the program that
/// constant folding is applied to.
pub open spec fn before_folding(p: SpecProgram) -> SpecProgram {
    pass_program(BodyPass::Flatten, inline_program(prune(p)))
}

/// Constant folding of `p` never overflows.
pub open spec fn folds_safely(p: SpecProgram) -> bool {
    forall|i: int| 0 <= i < p.declarations.len() ==> pass_decl_ok(BodyPass::Fold, #[trigger] p.declarations[i])
}

/// All passes in order: dead-code removal, inlining, flattening, folding.
pub open spec fn optimized(p: SpecProgram) -> SpecProgram {
    pass_program(BodyPass::Fold, before_folding(p))
}

/// Run all optimization passes on a fully-resolved, semantically-valid Program.
pub fn optimize(program: Program) -> (r: Program)
    requires
        folds_safely(before_folding(program@)),
    ensures
        r@ == optimized(program@),
{
    let program = remove_dead_code(program);
    let program = inline_components(program);
    let program = flatten_tree(program);
    precompute_props(program)
}

/// All passes, when constant folding can run without overflow; `None`
/// when folding would overflow an integer.
pub fn optimize_checked(program: Program) -> (r: Option<Program>)
    ensures
        folds_safely(before_folding(program@)) ==> (r matches Some(p) && p@ == optimized(program@)),
        !folds_safely(before_folding(program@)) ==> r is None,
{
    let program = remove_dead_code(program);
    let program = inline_components(program);
    let program = flatten_tree(program);
    if !safety::folds_safely_exec(&program) {
        return None;
    }
    Some(precompute_props(program))
}

// ── Laws ────────────────────────────────────────────────────────────────────

/// Constant folding is idempotent: folding a folded expression changes
/// nothing, and a folded expression can always be folded again without
/// overflow.
pub proof fn lemma_fold_idempotent(e: SpecExpr)
    ensures
        fold(fold(e)) == fold(e),
        fold_ok(fold(e)),
    decreases e, 1nat,
{
    match e {
        SpecExpr::Binary { op, left, right } => {
            lemma_fold_idempotent(*left);
            lemma_fold_idempotent(*right);
        },
        SpecExpr::Unary { op, expr } => {
            lemma_fold_idempotent(*expr);
        },
        SpecExpr::FieldAccess(r, f) => {
            lemma_fold_idempotent(*r);
        },
        SpecExpr::MethodCall { receiver, method, args } => {
            lemma_fold_idempotent(*receiver);
            lemma_fold_all_idempotent(args);
        },
        SpecExpr::Call { callee, args } => {
            lemma_fold_all_idempotent(args);
        },
        SpecExpr::Lambda { params, body } => {
            lemma_fold_idempotent(*body);
        },
        SpecExpr::Block { tag, children } => {
            lemma_fold_all_idempotent(children);
        },
        _ => {},
    }
}

/// Folding each of a list of folded expressions changes nothing.
pub proof fn lemma_fold_all_idempotent(s: Seq<SpecExpr>)
    ensures
        fold_all(fold_all(s)) == fold_all(s),
        fold_all_ok(fold_all(s)),
    decreases s, 0nat,
{
    if s.len() > 0 {
        lemma_fold_all_idempotent(s.drop_last());
        lemma_fold_idempotent(s.last());
        let t = fold_all(s.drop_last());
        assert(fold_all(s) == t.push(fold(s.last())));
        assert(t.push(fold(s.last())).drop_last() =~= t);
    }
}

/// Optimization rewrites declarations only: the program's name, package,
/// imports, server and routes stay as they were.
pub proof fn lemma_optimize_keeps_frame(p: SpecProgram)
    ensures
        optimized(p).name == p.name,
        optimized(p).package == p.package,
        optimized(p).imports == p.imports,
        optimized(p).server == p.server,
        optimized(p).routes == p.routes,
{
}

/// `e` is flat: no block in it has, as its only child, a block with its
/// own tag.
pub open spec fn is_flat(e: SpecExpr) -> bool
    decreases e,
{
    match e {
        SpecExpr::Block { tag, children } => all_flat(children) && !(children.len() == 1 && (
        children[0] matches SpecExpr::Block { tag: t2, .. } && t2 == tag)),
        SpecExpr::FieldAccess(r, _) => is_flat(*r),
        SpecExpr::MethodCall { receiver, args, .. } => is_flat(*receiver) && all_flat(args),
        SpecExpr::Call { args, .. } => all_flat(args),
        SpecExpr::Lambda { body, .. } => is_flat(*body),
        SpecExpr::Binary { left, right, .. } => is_flat(*left) && is_flat(*right),
        SpecExpr::Unary { expr, .. } => is_flat(*expr),
        _ => true,
    }
}

/// Every expression of the list is flat.
pub open spec fn all_flat(s: Seq<SpecExpr>) -> bool
    decreases s,
{
    s.len() == 0 || (all_flat(s.drop_last()) && is_flat(s.last()))
}

/// Each expression of a flat list is flat.
proof fn lemma_all_flat_at(s: Seq<SpecExpr>, i: int)
    requires
        all_flat(s),
        0 <= i < s.len(),
    ensures
        is_flat(s[i]),
    decreases s.len(),
{
    if i < s.len() - 1 {
        lemma_all_flat_at(s.drop_last(), i);
    }
}

/// Flattening gives a flat expression, and leaves a flat one unchanged.
pub proof fn lemma_flat_normal(e: SpecExpr)
    ensures
        is_flat(flat(e)),
        is_flat(e) ==> flat(e) == e,
    decreases e, 1nat,
{
    match e {
        SpecExpr::Block { tag, children } => {
            lemma_flat_all_normal(children);
            let cs = flat_all(children);
            if cs.len() == 1 {
                lemma_all_flat_at(cs, 0);
            }
        },
        SpecExpr::FieldAccess(r, _) => {
            lemma_flat_normal(*r);
        },
        SpecExpr::MethodCall { receiver, args, .. } => {
            lemma_flat_normal(*receiver);
            lemma_flat_all_normal(args);
        },
        SpecExpr::Call { args, .. } => {
            lemma_flat_all_normal(args);
        },
        SpecExpr::Lambda { body, .. } => {
            lemma_flat_normal(*body);
        },
        SpecExpr::Binary { left, right, .. } => {
            lemma_flat_normal(*left);
            lemma_flat_normal(*right);
        },
        SpecExpr::Unary { expr, .. } => {
            lemma_flat_normal(*expr);
        },
        _ => {},
    }
}

/// Flattening each expression gives a flat list, and leaves a flat list
/// unchanged.
pub proof fn lemma_flat_all_normal(s: Seq<SpecExpr>)
    ensures
        all_flat(flat_all(s)),
        flat_all(s).len() == s.len(),
        all_flat(s) ==> flat_all(s) == s,
    decreases s, 0nat,
{
    if s.len() > 0 {
        lemma_flat_all_normal(s.drop_last());
        lemma_flat_normal(s.last());
        let t = flat_all(s.drop_last());
        assert(flat_all(s) == t.push(flat(s.last())));
        assert(t.push(flat(s.last())).drop_last() =~= t);
        if all_flat(s) {
            assert(s.drop_last().push(s.last()) =~= s);
        }
    }
}

/// Flattening is idempotent: flattening a flattened expression changes nothing.
pub proof fn lemma_flat_idempotent(e: SpecExpr)
    ensures
        flat(flat(e)) == flat(e),
{
    lemma_flat_normal(e);
    lemma_flat_normal(flat(e));
}

} // verus!
