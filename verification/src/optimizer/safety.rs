//! Whether constant folding can run without integer overflow.
use vstd::prelude::*;
use crate::ast::{BinOp, Declaration, Expr, Program, SpecExpr, Stmt, UnOp, exprs_view, stmts_view};
use super::{
    BodyPass, fold, fold_all_ok, fold_ok, fold_stmt_ok, fold_stmts_ok, folds_safely, lemma_all_ok_at,
    lemma_stmts_ok_at, pass_decl_ok,
};

verus! {

/// The integer an expression folds to, if it folds to one.
pub open spec fn folded_int(e: SpecExpr) -> Option<i64> {
    match fold(e) {
        SpecExpr::IntLit(n) => Some(n),
        _ => None,
    }
}

/// Folding `op` on the integers `a` and `b`: whether it is free of
/// overflow, and the integer it gives, if any.
fn int_op(op: BinOp, a: i64, b: i64) -> (r: (bool, Option<i64>))
    ensures
        r.0 == super::fold_bin_ok(op, SpecExpr::IntLit(a), SpecExpr::IntLit(b)),
        r.0 ==> r.1 == (match super::fold_bin(op, SpecExpr::IntLit(a), SpecExpr::IntLit(b)) {
            SpecExpr::IntLit(n) => Some(n),
            _ => None::<i64>,
        }),
{
    match op {
        BinOp::Add => match a.checked_add(b) {
            Some(s) => (true, Some(s)),
            None => (false, None),
        },
        BinOp::Sub => match a.checked_sub(b) {
            Some(s) => (true, Some(s)),
            None => (false, None),
        },
        BinOp::Mul => match a.checked_mul(b) {
            Some(s) => (true, Some(s)),
            None => (false, None),
        },
        BinOp::Div => {
            if b == 0 {
                (true, None)
            } else if a == i64::MIN && b == -1 {
                (false, None)
            } else {
                proof {
                    super::lemma_quot_rem_fit(a, b);
                }
                match a.checked_div(b) {
                    Some(q) => (true, Some(q)),
                    None => (false, None),
                }
            }
        },
        BinOp::Mod => {
            if b == 0 {
                (true, None)
            } else if a == i64::MIN && b == -1 {
                (false, None)
            } else {
                proof {
                    super::lemma_quot_rem_fit(a, b);
                }
                match a.checked_rem(b) {
                    Some(m) => (true, Some(m)),
                    None => (false, None),
                }
            }
        },
        _ => (true, None),
    }
}

/// Whether folding the expression is free of overflow, and, when it is,
/// the integer it folds to, if any.
fn check_expr(expr: &Expr) -> (r: (bool, Option<i64>))
    ensures
        r.0 == fold_ok(expr@),
        r.0 ==> r.1 == folded_int(expr@),
    decreases expr, 1nat,
{
    match expr {
        Expr::IntLit(n) => (true, Some(*n)),
        Expr::Binary { op, left, right } => {
            let (okl, vl) = check_expr(left);
            let (okr, vr) = check_expr(right);
            if !okl || !okr {
                return (false, None);
            }
            match (vl, vr) {
                (Some(a), Some(b)) => int_op(*op, a, b),
                _ => (true, None),
            }
        },
        Expr::Unary { op, expr: inner } => {
            let (ok, v) = check_expr(inner);
            if !ok {
                return (false, None);
            }
            match op {
                UnOp::Neg => match v {
                    Some(n) => {
                        if n == i64::MIN {
                            (false, None)
                        } else {
                            (true, Some(-n))
                        }
                    },
                    None => (true, None),
                },
                UnOp::Not => (true, None),
            }
        },
        Expr::FieldAccess(e, _) => (check_expr(e).0, None),
        Expr::MethodCall { receiver, args, .. } => {
            let ok = check_expr(receiver).0;
            (ok && check_exprs(args), None)
        },
        Expr::Call { args, .. } => (check_exprs(args), None),
        Expr::Lambda { body, .. } => (check_expr(body).0, None),
        Expr::Block { children, .. } => (check_exprs(children), None),
        _ => (true, None),
    }
}

/// Whether folding each expression is free of overflow.
#[verifier::loop_isolation(false)]
fn check_exprs(v: &Vec<Expr>) -> (b: bool)
    ensures
        b == fold_all_ok(exprs_view(v@)),
    decreases v, 0nat,
{
    let mut i: usize = 0;
    while i < v.len()
        invariant
            i <= v.len(),
            fold_all_ok(exprs_view(v@.take(i as int))),
        decreases v.len() - i,
    {
        proof {
            assert(decreases_to!(v => v@));
            assert(decreases_to!(v@ => v@[i as int]));
            assert(v@.take(i + 1).drop_last() =~= v@.take(i as int));
        }
        let ghost s = exprs_view(v@.take(i + 1));
        assert(s == exprs_view(v@.take(i as int)).push(v@[i as int]@));
        assert(s.drop_last() =~= exprs_view(v@.take(i as int)));
        if !check_expr(&v[i]).0 {
            proof {
                if fold_all_ok(exprs_view(v@)) {
                    lemma_all_ok_at(v@, i as int);
                }
            }
            return false;
        }
        i = i + 1;
    }
    assert(v@.take(v.len() as int) =~= v@);
    true
}

/// Whether folding the statement is free of overflow.
fn check_stmt(stmt: &Stmt) -> (b: bool)
    ensures
        b == fold_stmt_ok(stmt@),
    decreases stmt, 1nat,
{
    match stmt {
        Stmt::Return { expr: Some(e), .. } => check_expr(e).0,
        Stmt::Assign { object, value, .. } => {
            let ok = check_expr(object).0;
            ok && check_expr(value).0
        },
        Stmt::Let { init, .. } => check_expr(init).0,
        Stmt::If { cond, then_body, else_body } => {
            let ok = check_expr(cond).0;
            let ok2 = check_stmts(then_body);
            let ok3 = match else_body {
                Some(b) => check_stmts(b),
                None => true,
            };
            ok && ok2 && ok3
        },
        Stmt::While { cond, body } => {
            let ok = check_expr(cond).0;
            ok && check_stmts(body)
        },
        Stmt::For { iter, body, .. } => {
            let ok = check_expr(iter).0;
            ok && check_stmts(body)
        },
        Stmt::Expr(e) => check_expr(e).0,
        _ => true,
    }
}

/// Whether folding each statement is free of overflow.
#[verifier::loop_isolation(false)]
fn check_stmts(v: &Vec<Stmt>) -> (b: bool)
    ensures
        b == fold_stmts_ok(stmts_view(v@)),
    decreases v, 0nat,
{
    let mut i: usize = 0;
    while i < v.len()
        invariant
            i <= v.len(),
            fold_stmts_ok(stmts_view(v@.take(i as int))),
        decreases v.len() - i,
    {
        proof {
            assert(decreases_to!(v => v@));
            assert(decreases_to!(v@ => v@[i as int]));
            assert(v@.take(i + 1).drop_last() =~= v@.take(i as int));
        }
        let ghost s = stmts_view(v@.take(i + 1));
        assert(s == stmts_view(v@.take(i as int)).push(v@[i as int]@));
        assert(s.drop_last() =~= stmts_view(v@.take(i as int)));
        if !check_stmt(&v[i]) {
            proof {
                if fold_stmts_ok(stmts_view(v@)) {
                    lemma_stmts_ok_at(v@, i as int);
                }
            }
            return false;
        }
        i = i + 1;
    }
    assert(v@.take(v.len() as int) =~= v@);
    true
}

/// Whether folding the bodies of the declaration is free of overflow.
fn check_decl(d: &Declaration) -> (b: bool)
    ensures
        b == pass_decl_ok(BodyPass::Fold, d@),
{
    match d {
        Declaration::Class(c) => {
            let mut i: usize = 0;
            while i < c.methods.len()
                invariant
                    i <= c.methods.len(),
                    d@ == crate::ast::SpecDeclaration::Class(c@),
                    forall|j: int| 0 <= j < i ==> fold_stmts_ok(#[trigger] c@.methods[j].body),
                decreases c.methods.len() - i,
            {
                assert(c@.methods[i as int] == c.methods@[i as int]@);
                if !check_stmts(&c.methods[i].body) {
                    assert(!super::pass_ok(BodyPass::Fold, c@.methods[i as int].body));
                    return false;
                }
                i = i + 1;
            }
            match &c.constructor {
                Some(k) => check_stmts(&k.body),
                None => true,
            }
        },
        _ => true,
    }
}

/// Whether constant folding of the whole program is free of overflow.
pub fn folds_safely_exec(p: &Program) -> (b: bool)
    ensures
        b == folds_safely(p@),
{
    let mut i: usize = 0;
    while i < p.declarations.len()
        invariant
            i <= p.declarations.len(),
            forall|j: int| 0 <= j < i ==> pass_decl_ok(BodyPass::Fold, #[trigger] p@.declarations[j]),
        decreases p.declarations.len() - i,
    {
        assert(p@.declarations[i as int] == p.declarations@[i as int]@);
        if !check_decl(&p.declarations[i]) {
            return false;
        }
        i = i + 1;
    }
    true
}

} // verus!
