//! Pass 7 of the analysis: Hindley-Milner inference (Damas-Milner
//! algorithm W) over the bodies of a class's constructor and methods.
use vstd::prelude::*;
use crate::optimizer::{ConstValue, const_value};
use crate::ast::{
    BinOp, ClassDecl, Expr, Field, Method, Param, SpecClassDecl, SpecExpr, SpecField, SpecMethod, SpecParam,
    SpecStmt, SpecType, Stmt, Type, UnOp, exprs_view, stmts_view, types_view, views,
};
use crate::hm::{
    HmEnv,
    HmType,
    SEnv,
    SpecHm,
    SpecScheme,
    Subst,
    TypeScheme,
    Unifier,
    any_has_var,
    below,
    display,
    env_below,
    env_get,
    env_index,
    env_put,
    fresh_n,
    gen_spec,
    generalize,
    has_var,
    hms_view,
    instantiate,
    instantiate_spec,
    lemma_any_has_var,
    lemma_env_index,
    lemma_hms_view,
    lemma_inst_vars_below,
    lemma_resolve_below,
    lemma_unify_keeps_len,
    resolve,
    unify_spec,
};
use crate::span::Span;
use crate::text::{push_str, str_eq, string_from_chars};
use super::{SemanticAnalyzer, SemanticError, SpecSemErr};

verus! {

// ── From syntax to inference types ──────────────────────────────────────────

/// The inference type of a written type; a type parameter stands for itself,
/// by name.
pub open spec fn from_ast(t: SpecType) -> SpecHm
    decreases t,
{
    match t {
        SpecType::Int => SpecHm::Int,
        SpecType::String => SpecHm::String,
        SpecType::Bool => SpecHm::Bool,
        SpecType::Void => SpecHm::Void,
        SpecType::Custom(n) => SpecHm::Custom(n),
        SpecType::Generic(n) => SpecHm::Custom(n),
        SpecType::List(inner) => SpecHm::List(Box::new(from_ast(*inner))),
        SpecType::Function(ps, r) => SpecHm::Function(from_ast_all(ps), Box::new(from_ast(*r))),
    }
}

pub open spec fn from_ast_all(ps: Seq<SpecType>) -> Seq<SpecHm>
    decreases ps,
{
    if ps.len() == 0 {
        Seq::empty()
    } else {
        from_ast_all(ps.drop_last()).push(from_ast(ps.last()))
    }
}

/// The variable given to type parameter `name` at a call: the `k`-th
/// parameter got variable `base + k`, and a repeated name its last one.
pub open spec fn gvar(tps: Seq<Seq<char>>, name: Seq<char>, base: nat) -> Option<SpecHm>
    decreases tps.len(),
{
    if tps.len() == 0 {
        None
    } else if tps.last() == name {
        Some(SpecHm::Var((base + tps.len() - 1) as u32))
    } else {
        gvar(tps.drop_last(), name, base)
    }
}

/// A written type at a call site of a generic class: each declared type
/// parameter becomes its variable.
pub open spec fn inst_ast(t: SpecType, tps: Seq<Seq<char>>, base: nat) -> SpecHm
    decreases t,
{
    match t {
        SpecType::Generic(n) => match gvar(tps, n, base) {
            Some(v) => v,
            None => SpecHm::Custom(n),
        },
        SpecType::List(inner) => SpecHm::List(Box::new(inst_ast(*inner, tps, base))),
        SpecType::Function(ps, r) => SpecHm::Function(inst_ast_all(ps, tps, base), Box::new(inst_ast(*r, tps, base))),
        _ => from_ast(t),
    }
}

pub open spec fn inst_ast_all(ps: Seq<SpecType>, tps: Seq<Seq<char>>, base: nat) -> Seq<SpecHm>
    decreases ps,
{
    if ps.len() == 0 {
        Seq::empty()
    } else {
        inst_ast_all(ps.drop_last(), tps, base).push(inst_ast(ps.last(), tps, base))
    }
}

// ── Lookups ──────────────────────────────────────────────────────────────────

/// The first class named `name`.
pub open spec fn class_index(cs: Seq<SpecClassDecl>, name: Seq<char>) -> Option<int>
    decreases cs.len(),
{
    if cs.len() == 0 {
        None
    } else {
        match class_index(cs.drop_last(), name) {
            Some(i) => Some(i),
            None => if cs.last().name == name {
                Some(cs.len() - 1)
            } else {
                None
            },
        }
    }
}

pub open spec fn class_get(cs: Seq<SpecClassDecl>, name: Seq<char>) -> Option<SpecClassDecl> {
    match class_index(cs, name) {
        Some(i) => Some(cs[i]),
        None => None,
    }
}

/// The first field named `name`.
pub open spec fn field_find(fs: Seq<SpecField>, name: Seq<char>) -> Option<SpecField>
    decreases fs.len(),
{
    if fs.len() == 0 {
        None
    } else {
        match field_find(fs.drop_last(), name) {
            Some(f) => Some(f),
            None => if fs.last().name == name {
                Some(fs.last())
            } else {
                None
            },
        }
    }
}

/// The first method named `name`.
pub open spec fn method_find(ms: Seq<SpecMethod>, name: Seq<char>) -> Option<SpecMethod>
    decreases ms.len(),
{
    if ms.len() == 0 {
        None
    } else {
        match method_find(ms.drop_last(), name) {
            Some(m) => Some(m),
            None => if ms.last().name == name {
                Some(ms.last())
            } else {
                None
            },
        }
    }
}

// ── Small steps ──────────────────────────────────────────────────────────────

pub open spec fn dummy() -> Span {
    Span { line: 0, col: 0, len: 0 }
}

pub open spec fn mono(t: SpecHm) -> SpecScheme {
    SpecScheme { quantified: Seq::empty(), ty: t }
}

/// A fresh variable.
pub open spec fn fresh_var(s: Subst) -> (SpecHm, Subst) {
    (SpecHm::Var(s.len() as u32), s.push(None))
}

/// Unification whose failure becomes a type mismatch expecting `expected`.
pub open spec fn unify_or(s: Subst, a: SpecHm, b: SpecHm, expected: Seq<char>) -> (Result<(), SpecSemErr>, Subst) {
    let (r, s1) = unify_spec(s, a, b);
    match r {
        Ok(()) => (Ok(()), s1),
        Err(m) => (Err(SpecSemErr::TypeMismatch(expected, m, dummy())), s1),
    }
}

/// Whether a parameter is untyped: the parser writes such a parameter as `T`.
pub open spec fn untyped(p: SpecParam) -> bool {
    p.ty matches SpecType::Custom(n) && n == "T"@
}

/// The environment of a lambda body and its parameter types: an untyped
/// parameter gets a fresh variable; each parameter is a monotype.
pub open spec fn lam_params(env: SEnv, ps: Seq<SpecParam>, s: Subst) -> (SEnv, Seq<SpecHm>, Subst)
    decreases ps.len(),
{
    if ps.len() == 0 {
        (env, Seq::empty(), s)
    } else {
        let (e1, ts, s1) = lam_params(env, ps.drop_last(), s);
        let p = ps.last();
        let (ty, s2) = if untyped(p) {
            fresh_var(s1)
        } else {
            (from_ast(p.ty), s1)
        };
        (env_put(e1, p.name, mono(ty)), ts.push(ty), s2)
    }
}

// ── Inference of expressions ────────────────────────────────────────────────

/// Infers the type of `e` under `env` inside class `cls`, with the classes
/// `cs` known: the outcome and the substitution after it. Unknown names and
/// calls get a fresh variable; a failed unification is a type mismatch.
pub open spec fn infer_spec(cs: Seq<SpecClassDecl>, env: SEnv, cls: SpecClassDecl, s: Subst, e: SpecExpr) -> (
    Result<SpecHm, SpecSemErr>,
    Subst,
)
    decreases e, 0nat,
{
    match e {
        SpecExpr::IntLit(_) => (Ok(SpecHm::Int), s),
        SpecExpr::StringLit(_) => (Ok(SpecHm::String), s),
        SpecExpr::BoolLit(_) => (Ok(SpecHm::Bool), s),
        SpecExpr::This => (Ok(SpecHm::Custom(cls.name)), s),
        SpecExpr::Ident(name) => match env_get(env, name) {
            Some(sc) => {
                let (t, s1) = instantiate_spec(sc, s);
                (Ok(t), s1)
            },
            None => {
                let (v, s1) = fresh_var(s);
                (Ok(v), s1)
            },
        },
        SpecExpr::Lambda { params, body } => {
            let (lenv, ptys, s1) = lam_params(env, params, s);
            let (r, s2) = infer_spec(cs, lenv, cls, s1, *body);
            match r {
                Ok(bt) => (Ok(SpecHm::Function(ptys, Box::new(bt))), s2),
                Err(x) => (Err(x), s2),
            }
        },
        SpecExpr::Call { callee, args } => match class_get(cs, callee) {
            Some(cc) => {
                let s1 = fresh_n(s, cc.type_params.len());
                match cc.constructor {
                    Some(ctor) => {
                        let m = if args.len() < ctor.params.len() {
                            args.len()
                        } else {
                            ctor.params.len()
                        };
                        let (r, s2) = ctor_args(cs, env, cls, s1, args, ctor.params, cc.type_params, s.len(), m);
                        match r {
                            Ok(()) => (Ok(SpecHm::Custom(callee)), s2),
                            Err(x) => (Err(x), s2),
                        }
                    },
                    None => (Ok(SpecHm::Custom(callee)), s1),
                }
            },
            None => match env_get(env, callee) {
                Some(sc) => {
                    let (fnty, s1) = instantiate_spec(sc, s);
                    match resolve(s1, fnty) {
                        SpecHm::Function(ptys, ret) => {
                            let m = if args.len() < ptys.len() {
                                args.len()
                            } else {
                                ptys.len()
                            };
                            let (r, s2) = fn_args(cs, env, cls, s1, args, ptys, m);
                            match r {
                                Ok(()) => (Ok(resolve(s2, *ret)), s2),
                                Err(x) => (Err(x), s2),
                            }
                        },
                        _ => {
                            let (v, s2) = fresh_var(s1);
                            (Ok(v), s2)
                        },
                    }
                },
                None => {
                    let (v, s1) = fresh_var(s);
                    (Ok(v), s1)
                },
            },
        },
        SpecExpr::FieldAccess(obj, field) => {
            let (r, s1) = infer_spec(cs, env, cls, s, *obj);
            match r {
                Err(x) => (Err(x), s1),
                Ok(ot) => {
                    let found = match resolve(s1, ot) {
                        SpecHm::Custom(n) => match class_get(cs, n) {
                            Some(cd) => match field_find(cd.fields, field) {
                                Some(f) => Some(from_ast(f.ty)),
                                None => None,
                            },
                            None => None,
                        },
                        _ => None,
                    };
                    match found {
                        Some(t) => (Ok(t), s1),
                        None => {
                            let (v, s2) = fresh_var(s1);
                            (Ok(v), s2)
                        },
                    }
                },
            }
        },
        SpecExpr::MethodCall { receiver, method, args } => {
            let (r, s1) = infer_spec(cs, env, cls, s, *receiver);
            match r {
                Err(x) => (Err(x), s1),
                Ok(rt) => {
                    let target = match resolve(s1, rt) {
                        SpecHm::Custom(n) => match class_get(cs, n) {
                            Some(cd) => match method_find(cd.methods, method) {
                                Some(meth) => Some((cd, meth)),
                                None => None,
                            },
                            None => None,
                        },
                        _ => None,
                    };
                    match target {
                        Some((cd, meth)) => {
                            let s2 = fresh_n(s1, cd.type_params.len());
                            let m = if args.len() < meth.params.len() {
                                args.len()
                            } else {
                                meth.params.len()
                            };
                            let (r2, s3) = ctor_args(cs, env, cls, s2, args, meth.params, cd.type_params, s1.len(), m);
                            match r2 {
                                Ok(()) => (Ok(resolve(s3, inst_ast(meth.return_type, cd.type_params, s1.len()))), s3),
                                Err(x) => (Err(x), s3),
                            }
                        },
                        None => {
                            let (v, s2) = fresh_var(s1);
                            (Ok(v), s2)
                        },
                    }
                },
            }
        },
        SpecExpr::Binary { op, left, right } => {
            let (rl, s1) = infer_spec(cs, env, cls, s, *left);
            match rl {
                Err(x) => (Err(x), s1),
                Ok(l0) => {
                    let (rr, s2) = infer_spec(cs, env, cls, s1, *right);
                    match rr {
                        Err(x) => (Err(x), s2),
                        Ok(r0) => binary_spec(op, resolve(s2, l0), resolve(s2, r0), s2),
                    }
                },
            }
        },
        SpecExpr::Unary { op, expr } => {
            let (r, s1) = infer_spec(cs, env, cls, s, *expr);
            match r {
                Err(x) => (Err(x), s1),
                Ok(t) => match op {
                    UnOp::Not => {
                        let (u, s2) = unify_or(s1, t, SpecHm::Bool, "Bool"@);
                        match u {
                            Ok(()) => (Ok(SpecHm::Bool), s2),
                            Err(x) => (Err(x), s2),
                        }
                    },
                    UnOp::Neg => {
                        let (u, s2) = unify_or(s1, t, SpecHm::Int, "Int"@);
                        match u {
                            Ok(()) => (Ok(SpecHm::Int), s2),
                            Err(x) => (Err(x), s2),
                        }
                    },
                },
            }
        },
        SpecExpr::Await(inner) => infer_spec(cs, env, cls, s, *inner),
        SpecExpr::ListLiteral(items) => {
            let (elem, s1) = fresh_var(s);
            let (r, s2) = list_items(cs, env, cls, s1, items, elem, items.len());
            match r {
                Ok(()) => (Ok(SpecHm::List(Box::new(resolve(s2, elem)))), s2),
                Err(x) => (Err(x), s2),
            }
        },
        _ => fresh_ok(s),
    }
}

pub open spec fn fresh_ok(s: Subst) -> (Result<SpecHm, SpecSemErr>, Subst) {
    let (v, s1) = fresh_var(s);
    (Ok(v), s1)
}

/// Both operands of a binary operator, resolved, constrain each other and
/// give the operator's type.
pub open spec fn binary_spec(op: BinOp, lt: SpecHm, rt: SpecHm, s: Subst) -> (Result<SpecHm, SpecSemErr>, Subst) {
    match op {
        BinOp::Add => if lt is String || rt is String {
            (Ok(SpecHm::String), s)
        } else {
            let s1 = unify_spec(s, lt, SpecHm::Int).1;
            let s2 = unify_spec(s1, rt, SpecHm::Int).1;
            (Ok(SpecHm::Int), s2)
        },
        BinOp::Sub | BinOp::Mul | BinOp::Div | BinOp::Mod => both_spec(lt, rt, SpecHm::Int, "Int"@, SpecHm::Int, s),
        BinOp::Lt | BinOp::Gt | BinOp::Le | BinOp::Ge => both_spec(lt, rt, SpecHm::Int, "Int"@, SpecHm::Bool, s),
        BinOp::And | BinOp::Or => both_spec(lt, rt, SpecHm::Bool, "Bool"@, SpecHm::Bool, s),
        BinOp::Eq | BinOp::Ne => {
            let (u, s1) = unify_or(s, lt, rt, display(lt));
            match u {
                Ok(()) => (Ok(SpecHm::Bool), s1),
                Err(x) => (Err(x), s1),
            }
        },
    }
}

/// Both operands must be `want` (written `name` in messages); the result
/// is `res`.
pub open spec fn both_spec(lt: SpecHm, rt: SpecHm, want: SpecHm, name: Seq<char>, res: SpecHm, s: Subst) -> (
    Result<SpecHm, SpecSemErr>,
    Subst,
) {
    let (u1, s1) = unify_or(s, lt, want, name);
    match u1 {
        Err(x) => (Err(x), s1),
        Ok(()) => {
            let (u2, s2) = unify_or(s1, rt, want, name);
            match u2 {
                Err(x) => (Err(x), s2),
                Ok(()) => (Ok(res), s2),
            }
        },
    }
}

/// The typing rules of the binary operators. Arithmetic on two `Int`s is
/// an `Int`; an ordering comparison of two `Int`s, `&&` and `||` on two
/// `Bool`s, and `==` or `!=` on two operands of one type are each a `Bool`;
/// `+` with a `String` operand is a `String`. None of these bind a type
/// variable. A `Bool` operand of arithmetic other than `+` or of an ordering
/// comparison is a mismatch against `Int`, and an `Int` operand of `&&` or
/// `||` a mismatch against `Bool`.
pub proof fn lemma_binary_typing(op: BinOp, t: SpecHm, s: Subst)
    ensures
        (op is Add || op is Sub || op is Mul || op is Div || op is Mod) ==> binary_spec(op, SpecHm::Int, SpecHm::Int, s)
            == (Ok::<SpecHm, SpecSemErr>(SpecHm::Int), s),
        (op is Lt || op is Gt || op is Le || op is Ge) ==> binary_spec(op, SpecHm::Int, SpecHm::Int, s) == (Ok::<
            SpecHm,
            SpecSemErr,
        >(SpecHm::Bool), s),
        (op is And || op is Or) ==> binary_spec(op, SpecHm::Bool, SpecHm::Bool, s) == (Ok::<SpecHm, SpecSemErr>(
            SpecHm::Bool,
        ), s),
        (op is Eq || op is Ne) ==> binary_spec(op, t, t, s) == (Ok::<SpecHm, SpecSemErr>(SpecHm::Bool), s),
        op is Add ==> binary_spec(op, SpecHm::String, t, s) == (Ok::<SpecHm, SpecSemErr>(SpecHm::String), s),
        op is Add ==> binary_spec(op, t, SpecHm::String, s) == (Ok::<SpecHm, SpecSemErr>(SpecHm::String), s),
        (op is Sub || op is Mul || op is Div || op is Mod || op is Lt || op is Gt || op is Le || op is Ge) ==> (
        binary_spec(op, SpecHm::Bool, SpecHm::Int, s).0 matches Err(SpecSemErr::TypeMismatch(e, _, _)) && e == "Int"@),
        (op is And || op is Or) ==> (binary_spec(op, SpecHm::Int, SpecHm::Bool, s).0 matches Err(
            SpecSemErr::TypeMismatch(e, _, _),
        ) && e == "Bool"@),
{
    assert(unify_spec(s, SpecHm::Int, SpecHm::Int) == (Ok::<(), Seq<char>>(()), s));
    assert(unify_spec(s, SpecHm::Bool, SpecHm::Bool) == (Ok::<(), Seq<char>>(()), s));
    assert(unify_spec(s, t, t) == (Ok::<(), Seq<char>>(()), s));
    assert(unify_spec(s, SpecHm::Bool, SpecHm::Int).0 is Err);
    assert(unify_spec(s, SpecHm::Int, SpecHm::Bool).0 is Err);
}

/// The type of a constant's value.
pub open spec fn value_type(v: ConstValue) -> SpecHm {
    match v {
        ConstValue::Int(_) => SpecHm::Int,
        ConstValue::Bool(_) => SpecHm::Bool,
        ConstValue::Str(_) => SpecHm::String,
    }
}

/// Inference agrees with evaluation on constant expressions: an expression
/// built from literals with operators, whose value is defined, has the type
/// of that value (so `3 > 5` is a `Bool` and `1 + 2` an `Int`), in any
/// context, and inferring it binds no type variable.
pub proof fn lemma_constants_typed(cs: Seq<SpecClassDecl>, env: SEnv, cls: SpecClassDecl, s: Subst, e: SpecExpr)
    requires
        const_value(e) is Some,
    ensures
        infer_spec(cs, env, cls, s, e) == (Ok::<SpecHm, SpecSemErr>(value_type(const_value(e)->0)), s),
    decreases e,
{
    match e {
        SpecExpr::Binary { op, left, right } => {
            lemma_constants_typed(cs, env, cls, s, *left);
            lemma_constants_typed(cs, env, cls, s, *right);
            let lt = value_type(const_value(*left)->0);
            let rt = value_type(const_value(*right)->0);
            assert(resolve(s, lt) == lt);
            assert(resolve(s, rt) == rt);
            lemma_binary_typing(op, lt, s);
        },
        SpecExpr::Unary { op, expr } => {
            lemma_constants_typed(cs, env, cls, s, *expr);
            assert(unify_spec(s, SpecHm::Int, SpecHm::Int) == (Ok::<(), Seq<char>>(()), s));
            assert(unify_spec(s, SpecHm::Bool, SpecHm::Bool) == (Ok::<(), Seq<char>>(()), s));
        },
        _ => {},
    }
}

/// The first `k` arguments against the declared parameters of a generic
/// class's constructor or method, whose type parameters got variables from
/// `base` on.
pub open spec fn ctor_args(
    cs: Seq<SpecClassDecl>,
    env: SEnv,
    cls: SpecClassDecl,
    s: Subst,
    args: Seq<SpecExpr>,
    params: Seq<SpecParam>,
    tps: Seq<Seq<char>>,
    base: nat,
    k: nat,
) -> (Result<(), SpecSemErr>, Subst)
    decreases args, k,
{
    if k == 0 || k > args.len() || k > params.len() {
        (Ok(()), s)
    } else {
        let (r, s1) = ctor_args(cs, env, cls, s, args, params, tps, base, (k - 1) as nat);
        match r {
            Err(x) => (Err(x), s1),
            Ok(()) => {
                let (ra, s2) = infer_spec(cs, env, cls, s1, args[k - 1]);
                match ra {
                    Err(x) => (Err(x), s2),
                    Ok(at) => {
                        let pt = inst_ast(params[k - 1].ty, tps, base);
                        unify_or(s2, at, pt, display(pt))
                    },
                }
            },
        }
    }
}

/// The first `k` arguments against the parameter types of a function value.
pub open spec fn fn_args(
    cs: Seq<SpecClassDecl>,
    env: SEnv,
    cls: SpecClassDecl,
    s: Subst,
    args: Seq<SpecExpr>,
    ptys: Seq<SpecHm>,
    k: nat,
) -> (Result<(), SpecSemErr>, Subst)
    decreases args, k,
{
    if k == 0 || k > args.len() || k > ptys.len() {
        (Ok(()), s)
    } else {
        let (r, s1) = fn_args(cs, env, cls, s, args, ptys, (k - 1) as nat);
        match r {
            Err(x) => (Err(x), s1),
            Ok(()) => {
                let (ra, s2) = infer_spec(cs, env, cls, s1, args[k - 1]);
                match ra {
                    Err(x) => (Err(x), s2),
                    Ok(at) => unify_or(s2, at, ptys[k - 1], display(ptys[k - 1])),
                }
            },
        }
    }
}

/// The first `k` items of a list literal, each unified with the element
/// variable.
pub open spec fn list_items(
    cs: Seq<SpecClassDecl>,
    env: SEnv,
    cls: SpecClassDecl,
    s: Subst,
    items: Seq<SpecExpr>,
    elem: SpecHm,
    k: nat,
) -> (Result<(), SpecSemErr>, Subst)
    decreases items, k,
{
    if k == 0 || k > items.len() {
        (Ok(()), s)
    } else {
        let (r, s1) = list_items(cs, env, cls, s, items, elem, (k - 1) as nat);
        match r {
            Err(x) => (Err(x), s1),
            Ok(()) => {
                let (ra, s2) = infer_spec(cs, env, cls, s1, items[k - 1]);
                match ra {
                    Err(x) => (Err(x), s2),
                    Ok(it) => unify_or(s2, it, elem, display(elem)),
                }
            },
        }
    }
}

// ── Checking of statements ──────────────────────────────────────────────────

/// Checks one statement of a body whose declared result is `ret`: the
/// outcome, the environment after it, and the substitution after it.
pub open spec fn stmt_hm(cs: Seq<SpecClassDecl>, cls: SpecClassDecl, ret: SpecHm, env: SEnv, s: Subst, st: SpecStmt) -> (
    Result<(), SpecSemErr>,
    SEnv,
    Subst,
)
    decreases st,
{
    match st {
        SpecStmt::Let { name, ty, init } => {
            let (r, s1) = infer_spec(cs, env, cls, s, init);
            match r {
                Err(x) => (Err(x), env, s1),
                Ok(t) => match ty {
                    Some(declared) => {
                        let d = from_ast(declared);
                        let (u, s2) = unify_or(s1, t, d, display(d));
                        match u {
                            Err(x) => (Err(x), env, s2),
                            Ok(()) => (Ok(()), env_put(env, name, mono(resolve(s2, d))), s2),
                        }
                    },
                    None => (Ok(()), env_put(env, name, gen_spec(s1, env, t)), s1),
                },
            }
        },
        SpecStmt::Return { expr, span } => match expr {
            Some(x) => if ret != SpecHm::Void {
                let (r, s1) = infer_spec(cs, env, cls, s, x);
                match r {
                    Err(y) => (Err(y), env, s1),
                    Ok(found) => {
                        let fr = resolve(s1, found);
                        let rr = resolve(s1, ret);
                        if !(fr is Var) && !(rr is Var) {
                            let (u, s2) = unify_spec(s1, fr, rr);
                            match u {
                                Ok(()) => (Ok(()), env, s2),
                                Err(_) => (Err(SpecSemErr::TypeMismatch(display(rr), display(fr), span)), env, s2),
                            }
                        } else {
                            (Ok(()), env, s1)
                        }
                    },
                }
            } else {
                (Ok(()), env, s)
            },
            None => (Ok(()), env, s),
        },
        SpecStmt::If { then_body, else_body, .. } => {
            let (r, _, s1) = stmts_hm(cs, cls, ret, env, s, then_body);
            match r {
                Err(x) => (Err(x), env, s1),
                Ok(()) => match else_body {
                    Some(eb) => {
                        let (r2, _, s2) = stmts_hm(cs, cls, ret, env, s1, eb);
                        (r2, env, s2)
                    },
                    None => (Ok(()), env, s1),
                },
            }
        },
        SpecStmt::While { body, .. } => {
            let (r, _, s1) = stmts_hm(cs, cls, ret, env, s, body);
            (r, env, s1)
        },
        SpecStmt::For { var, body, .. } => {
            let (v, s1) = fresh_var(s);
            let (r, _, s2) = stmts_hm(cs, cls, ret, env_put(env, var, mono(v)), s1, body);
            (r, env, s2)
        },
        _ => (Ok(()), env, s),
    }
}

/// Checks statements in order, threading the environment, up to the first
/// failure.
pub open spec fn stmts_hm(cs: Seq<SpecClassDecl>, cls: SpecClassDecl, ret: SpecHm, env: SEnv, s: Subst, sts: Seq<SpecStmt>) -> (
    Result<(), SpecSemErr>,
    SEnv,
    Subst,
)
    decreases sts,
{
    if sts.len() == 0 {
        (Ok(()), env, s)
    } else {
        let (r, e1, s1) = stmts_hm(cs, cls, ret, env, s, sts.drop_last());
        match r {
            Err(x) => (Err(x), e1, s1),
            Ok(()) => stmt_hm(cs, cls, ret, e1, s1, sts.last()),
        }
    }
}

// ── The substitution only grows ─────────────────────────────────────────────

proof fn lemma_unify_or_len(s: Subst, a: SpecHm, b: SpecHm, expected: Seq<char>)
    ensures
        unify_or(s, a, b, expected).1.len() == s.len(),
{
    lemma_unify_keeps_len(s, a, b);
}

proof fn lemma_lam_params_len(env: SEnv, ps: Seq<SpecParam>, s: Subst)
    ensures
        lam_params(env, ps, s).2.len() >= s.len(),
    decreases ps.len(),
{
    if ps.len() > 0 {
        lemma_lam_params_len(env, ps.drop_last(), s);
    }
}

pub proof fn lemma_infer_len(cs: Seq<SpecClassDecl>, env: SEnv, cls: SpecClassDecl, s: Subst, e: SpecExpr)
    ensures
        infer_spec(cs, env, cls, s, e).1.len() >= s.len(),
    decreases e, 0nat,
{
    match e {
        SpecExpr::Lambda { params, body } => {
            lemma_lam_params_len(env, params, s);
            let (lenv, ptys, s1) = lam_params(env, params, s);
            lemma_infer_len(cs, lenv, cls, s1, *body);
        },
        SpecExpr::Call { callee, args } => match class_get(cs, callee) {
            Some(cc) => {
                let s1 = fresh_n(s, cc.type_params.len());
                match cc.constructor {
                    Some(ctor) => {
                        let m = if args.len() < ctor.params.len() {
                            args.len()
                        } else {
                            ctor.params.len()
                        };
                        lemma_ctor_args_len(cs, env, cls, s1, args, ctor.params, cc.type_params, s.len(), m);
                    },
                    None => {},
                }
            },
            None => match env_get(env, callee) {
                Some(sc) => {
                    let (fnty, s1) = instantiate_spec(sc, s);
                    match resolve(s1, fnty) {
                        SpecHm::Function(ptys, ret) => {
                            let m = if args.len() < ptys.len() {
                                args.len()
                            } else {
                                ptys.len()
                            };
                            lemma_fn_args_len(cs, env, cls, s1, args, ptys, m);
                        },
                        _ => {},
                    }
                },
                None => {},
            },
        },
        SpecExpr::FieldAccess(obj, field) => {
            lemma_infer_len(cs, env, cls, s, *obj);
        },
        SpecExpr::MethodCall { receiver, method, args } => {
            lemma_infer_len(cs, env, cls, s, *receiver);
            let (r, s1) = infer_spec(cs, env, cls, s, *receiver);
            match r {
                Err(x) => {},
                Ok(rt) => {
                    let target = match resolve(s1, rt) {
                        SpecHm::Custom(n) => match class_get(cs, n) {
                            Some(cd) => match method_find(cd.methods, method) {
                                Some(meth) => Some((cd, meth)),
                                None => None,
                            },
                            None => None,
                        },
                        _ => None,
                    };
                    match target {
                        Some((cd, meth)) => {
                            let s2 = fresh_n(s1, cd.type_params.len());
                            let m = if args.len() < meth.params.len() {
                                args.len()
                            } else {
                                meth.params.len()
                            };
                            lemma_ctor_args_len(cs, env, cls, s2, args, meth.params, cd.type_params, s1.len(), m);
                        },
                        None => {},
                    }
                },
            }
        },
        SpecExpr::Binary { op, left, right } => {
            lemma_infer_len(cs, env, cls, s, *left);
            let (rl, s1) = infer_spec(cs, env, cls, s, *left);
            lemma_infer_len(cs, env, cls, s1, *right);
            match rl {
                Err(x) => {},
                Ok(l0) => {
                    let (rr, s2) = infer_spec(cs, env, cls, s1, *right);
                    match rr {
                        Err(x) => {},
                        Ok(r0) => {
                            let lt = resolve(s2, l0);
                            let rt = resolve(s2, r0);
                            lemma_unify_keeps_len(s2, lt, SpecHm::Int);
                            lemma_unify_keeps_len(unify_spec(s2, lt, SpecHm::Int).1, rt, SpecHm::Int);
                            lemma_unify_keeps_len(s2, lt, SpecHm::Bool);
                            lemma_unify_keeps_len(unify_spec(s2, lt, SpecHm::Bool).1, rt, SpecHm::Bool);
                            lemma_unify_keeps_len(s2, lt, rt);
                        },
                    }
                },
            }
        },
        SpecExpr::Unary { op, expr } => {
            lemma_infer_len(cs, env, cls, s, *expr);
            let (r, s1) = infer_spec(cs, env, cls, s, *expr);
            match r {
                Err(x) => {},
                Ok(t) => {
                    lemma_unify_keeps_len(s1, t, SpecHm::Bool);
                    lemma_unify_keeps_len(s1, t, SpecHm::Int);
                },
            }
        },
        SpecExpr::Await(inner) => {
            lemma_infer_len(cs, env, cls, s, *inner);
        },
        SpecExpr::ListLiteral(items) => {
            let (elem, s1) = fresh_var(s);
            lemma_list_items_len(cs, env, cls, s1, items, elem, items.len());
        },
        _ => {},
    }
}

pub proof fn lemma_ctor_args_len(
    cs: Seq<SpecClassDecl>,
    env: SEnv,
    cls: SpecClassDecl,
    s: Subst,
    args: Seq<SpecExpr>,
    params: Seq<SpecParam>,
    tps: Seq<Seq<char>>,
    base: nat,
    k: nat,
)
    ensures
        ctor_args(cs, env, cls, s, args, params, tps, base, k).1.len() >= s.len(),
    decreases args, k,
{
    if !(k == 0 || k > args.len() || k > params.len()) {
        lemma_ctor_args_len(cs, env, cls, s, args, params, tps, base, (k - 1) as nat);
        let (r, s1) = ctor_args(cs, env, cls, s, args, params, tps, base, (k - 1) as nat);
        lemma_infer_len(cs, env, cls, s1, args[k - 1]);
        let (ra, s2) = infer_spec(cs, env, cls, s1, args[k - 1]);
        match ra {
            Ok(at) => {
                let pt = inst_ast(params[k - 1].ty, tps, base);
                lemma_unify_keeps_len(s2, at, pt);
            },
            Err(_) => {},
        }
    }
}

pub proof fn lemma_fn_args_len(
    cs: Seq<SpecClassDecl>,
    env: SEnv,
    cls: SpecClassDecl,
    s: Subst,
    args: Seq<SpecExpr>,
    ptys: Seq<SpecHm>,
    k: nat,
)
    ensures
        fn_args(cs, env, cls, s, args, ptys, k).1.len() >= s.len(),
    decreases args, k,
{
    if !(k == 0 || k > args.len() || k > ptys.len()) {
        lemma_fn_args_len(cs, env, cls, s, args, ptys, (k - 1) as nat);
        let (r, s1) = fn_args(cs, env, cls, s, args, ptys, (k - 1) as nat);
        lemma_infer_len(cs, env, cls, s1, args[k - 1]);
        let (ra, s2) = infer_spec(cs, env, cls, s1, args[k - 1]);
        match ra {
            Ok(at) => {
                lemma_unify_keeps_len(s2, at, ptys[k - 1]);
            },
            Err(_) => {},
        }
    }
}

pub proof fn lemma_list_items_len(
    cs: Seq<SpecClassDecl>,
    env: SEnv,
    cls: SpecClassDecl,
    s: Subst,
    items: Seq<SpecExpr>,
    elem: SpecHm,
    k: nat,
)
    ensures
        list_items(cs, env, cls, s, items, elem, k).1.len() >= s.len(),
    decreases items, k,
{
    if !(k == 0 || k > items.len()) {
        lemma_list_items_len(cs, env, cls, s, items, elem, (k - 1) as nat);
        let (r, s1) = list_items(cs, env, cls, s, items, elem, (k - 1) as nat);
        lemma_infer_len(cs, env, cls, s1, items[k - 1]);
        let (ra, s2) = infer_spec(cs, env, cls, s1, items[k - 1]);
        match ra {
            Ok(it) => {
                lemma_unify_keeps_len(s2, it, elem);
            },
            Err(_) => {},
        }
    }
}

pub proof fn lemma_stmt_hm_len(cs: Seq<SpecClassDecl>, cls: SpecClassDecl, ret: SpecHm, env: SEnv, s: Subst, st: SpecStmt)
    ensures
        stmt_hm(cs, cls, ret, env, s, st).2.len() >= s.len(),
    decreases st,
{
    match st {
        SpecStmt::Let { name, ty, init } => {
            lemma_infer_len(cs, env, cls, s, init);
            let (r, s1) = infer_spec(cs, env, cls, s, init);
            match r {
                Ok(t) => match ty {
                    Some(declared) => {
                        lemma_unify_keeps_len(s1, t, from_ast(declared));
                    },
                    None => {},
                },
                Err(_) => {},
            }
        },
        SpecStmt::Return { expr, span } => match expr {
            Some(x) => {
                lemma_infer_len(cs, env, cls, s, x);
                let (r, s1) = infer_spec(cs, env, cls, s, x);
                match r {
                    Ok(found) => {
                        lemma_unify_keeps_len(s1, resolve(s1, found), resolve(s1, ret));
                    },
                    Err(_) => {},
                }
            },
            None => {},
        },
        SpecStmt::If { then_body, else_body, .. } => {
            lemma_stmts_hm_len(cs, cls, ret, env, s, then_body);
            let (r, _, s1) = stmts_hm(cs, cls, ret, env, s, then_body);
            match else_body {
                Some(eb) => {
                    lemma_stmts_hm_len(cs, cls, ret, env, s1, eb);
                },
                None => {},
            }
        },
        SpecStmt::While { body, .. } => {
            lemma_stmts_hm_len(cs, cls, ret, env, s, body);
        },
        SpecStmt::For { var, body, .. } => {
            let (v, s1) = fresh_var(s);
            lemma_stmts_hm_len(cs, cls, ret, env_put(env, var, mono(v)), s1, body);
        },
        _ => {},
    }
}

pub proof fn lemma_stmts_hm_len(cs: Seq<SpecClassDecl>, cls: SpecClassDecl, ret: SpecHm, env: SEnv, s: Subst, sts: Seq<SpecStmt>)
    ensures
        stmts_hm(cs, cls, ret, env, s, sts).2.len() >= s.len(),
    decreases sts,
{
    if sts.len() > 0 {
        lemma_stmts_hm_len(cs, cls, ret, env, s, sts.drop_last());
        let (r, e1, s1) = stmts_hm(cs, cls, ret, env, s, sts.drop_last());
        lemma_stmt_hm_len(cs, cls, ret, e1, s1, sts.last());
    }
}

// ── Facts used by the executable inference ──────────────────────────────────

pub proof fn lemma_from_ast_all(ps: Seq<SpecType>)
    ensures
        from_ast_all(ps).len() == ps.len(),
        forall|i: int| 0 <= i < ps.len() ==> #[trigger] from_ast_all(ps)[i] == from_ast(ps[i]),
    decreases ps.len(),
{
    if ps.len() > 0 {
        lemma_from_ast_all(ps.drop_last());
        assert forall|i: int| 0 <= i < ps.len() implies #[trigger] from_ast_all(ps)[i] == from_ast(ps[i]) by {
            if i < ps.len() - 1 {
                assert(ps.drop_last()[i] == ps[i]);
            }
        }
    }
}

/// A written type has no inference variable.
pub proof fn lemma_from_ast_novars(t: SpecType, w: u32)
    ensures
        !has_var(from_ast(t), w),
    decreases t,
{
    match t {
        SpecType::List(inner) => {
            lemma_from_ast_novars(*inner, w);
        },
        SpecType::Function(ps, r) => {
            lemma_from_ast_novars(*r, w);
            lemma_from_ast_all(ps);
            lemma_any_has_var(from_ast_all(ps), w);
            assert forall|i: int| 0 <= i < ps.len() implies !has_var(#[trigger] from_ast_all(ps)[i], w) by {
                assert(decreases_to!(t => ps));
                lemma_from_ast_novars(ps[i], w);
            }
        },
        _ => {},
    }
}

pub proof fn lemma_from_ast_below(t: SpecType, n: nat)
    ensures
        below(from_ast(t), n),
{
    assert forall|w: u32| #[trigger] has_var(from_ast(t), w) implies (w as nat) < n by {
        lemma_from_ast_novars(t, w);
    }
}

pub proof fn lemma_inst_ast_all(ps: Seq<SpecType>, tps: Seq<Seq<char>>, base: nat)
    ensures
        inst_ast_all(ps, tps, base).len() == ps.len(),
        forall|i: int| 0 <= i < ps.len() ==> #[trigger] inst_ast_all(ps, tps, base)[i] == inst_ast(ps[i], tps, base),
    decreases ps.len(),
{
    if ps.len() > 0 {
        lemma_inst_ast_all(ps.drop_last(), tps, base);
        assert forall|i: int| 0 <= i < ps.len() implies #[trigger] inst_ast_all(ps, tps, base)[i] == inst_ast(ps[i], tps, base) by {
            if i < ps.len() - 1 {
                assert(ps.drop_last()[i] == ps[i]);
            }
        }
    }
}

proof fn lemma_gvar(tps: Seq<Seq<char>>, name: Seq<char>, base: nat)
    requires
        base + tps.len() <= u32::MAX + 1,
    ensures
        gvar(tps, name, base) matches Some(v) ==> (v matches SpecHm::Var(id) && base <= id < base + tps.len()),
    decreases tps.len(),
{
    if tps.len() > 0 && tps.last() != name {
        lemma_gvar(tps.drop_last(), name, base);
    }
}

/// A written type at a call site mentions only the variables of the type
/// parameters.
pub proof fn lemma_inst_ast_below(t: SpecType, tps: Seq<Seq<char>>, base: nat)
    requires
        base + tps.len() <= u32::MAX + 1,
    ensures
        below(inst_ast(t, tps, base), base + tps.len()),
    decreases t,
{
    match t {
        SpecType::Generic(n) => {
            lemma_gvar(tps, n, base);
        },
        SpecType::List(inner) => {
            lemma_inst_ast_below(*inner, tps, base);
            assert forall|w: u32| #[trigger] has_var(inst_ast(t, tps, base), w) implies (w as nat) < base + tps.len() by {
                assert(has_var(inst_ast(*inner, tps, base), w));
            }
        },
        SpecType::Function(ps, r) => {
            lemma_inst_ast_below(*r, tps, base);
            lemma_inst_ast_all(ps, tps, base);
            assert forall|w: u32| #[trigger] has_var(inst_ast(t, tps, base), w) implies (w as nat) < base + tps.len() by {
                let ips = inst_ast_all(ps, tps, base);
                if any_has_var(ips, w) {
                    lemma_any_has_var(ips, w);
                    let i = choose|i: int| 0 <= i < ips.len() && #[trigger] has_var(ips[i], w);
                    assert(decreases_to!(t => ps));
                    lemma_inst_ast_below(ps[i], tps, base);
                    assert(has_var(inst_ast(ps[i], tps, base), w));
                } else {
                    assert(has_var(inst_ast(*r, tps, base), w));
                }
            }
        },
        _ => {
            lemma_from_ast_below(t, base + tps.len());
        },
    }
}

pub proof fn lemma_env_get_below(e: SEnv, name: Seq<char>, n: nat)
    requires
        env_below(e, n),
        env_get(e, name) is Some,
    ensures
        below(env_get(e, name)->0.ty, n),
{
    lemma_env_index(e, name);
    let i = env_index(e, name)->0;
    assert(below(e[i].1.ty, n));
}

pub proof fn lemma_env_put_below(e: SEnv, name: Seq<char>, sc: SpecScheme, n: nat)
    requires
        env_below(e, n),
        below(sc.ty, n),
    ensures
        env_below(env_put(e, name, sc), n),
{
    let e2 = env_put(e, name, sc);
    assert forall|i: int| 0 <= i < e2.len() implies below(#[trigger] e2[i].1.ty, n) by {
        match env_index(e, name) {
            Some(k) => {
                lemma_env_index(e, name);
                if i != k {
                    assert(e2[i] == e[i]);
                }
            },
            None => {
                if i < e.len() {
                    assert(e2[i] == e[i]);
                }
            },
        }
    }
}

pub proof fn lemma_env_below_mono(e: SEnv, n: nat, m: nat)
    requires
        env_below(e, n),
        n <= m,
    ensures
        env_below(e, m),
{
    assert forall|i: int| 0 <= i < e.len() implies below(#[trigger] e[i].1.ty, m) by {
        assert(below(e[i].1.ty, n));
    }
}

proof fn lemma_lam_params_prefix(env: SEnv, ps: Seq<SpecParam>, s: Subst, k: int)
    requires
        0 <= k <= ps.len(),
    ensures
        lam_params(env, ps.take(k), s).2.len() <= lam_params(env, ps, s).2.len(),
    decreases ps.len(),
{
    if k == ps.len() {
        assert(ps.take(k) =~= ps);
    } else {
        lemma_lam_params_prefix(env, ps.drop_last(), s, k);
        assert(ps.drop_last().take(k) =~= ps.take(k));
    }
}

proof fn lemma_ctor_args_prefix(
    cs: Seq<SpecClassDecl>,
    env: SEnv,
    cls: SpecClassDecl,
    s: Subst,
    args: Seq<SpecExpr>,
    params: Seq<SpecParam>,
    tps: Seq<Seq<char>>,
    base: nat,
    k: nat,
    k2: nat,
)
    requires
        k <= k2 <= args.len(),
        k2 <= params.len(),
    ensures
        ctor_args(cs, env, cls, s, args, params, tps, base, k).1.len() <= ctor_args(cs, env, cls, s, args, params, tps, base, k2).1.len(),
        ctor_args(cs, env, cls, s, args, params, tps, base, k).0 is Err ==> ctor_args(cs, env, cls, s, args, params, tps, base, k2)
            == ctor_args(cs, env, cls, s, args, params, tps, base, k),
    decreases k2 - k,
{
    if k < k2 {
        lemma_ctor_args_prefix(cs, env, cls, s, args, params, tps, base, k, (k2 - 1) as nat);
        let (r, s1) = ctor_args(cs, env, cls, s, args, params, tps, base, (k2 - 1) as nat);
        lemma_infer_len(cs, env, cls, s1, args[k2 - 1]);
        let (ra, s2) = infer_spec(cs, env, cls, s1, args[k2 - 1]);
        match ra {
            Ok(at) => {
                lemma_unify_keeps_len(s2, at, inst_ast(params[k2 - 1].ty, tps, base));
            },
            Err(_) => {},
        }
    }
}

proof fn lemma_fn_args_prefix(
    cs: Seq<SpecClassDecl>,
    env: SEnv,
    cls: SpecClassDecl,
    s: Subst,
    args: Seq<SpecExpr>,
    ptys: Seq<SpecHm>,
    k: nat,
    k2: nat,
)
    requires
        k <= k2 <= args.len(),
        k2 <= ptys.len(),
    ensures
        fn_args(cs, env, cls, s, args, ptys, k).1.len() <= fn_args(cs, env, cls, s, args, ptys, k2).1.len(),
        fn_args(cs, env, cls, s, args, ptys, k).0 is Err ==> fn_args(cs, env, cls, s, args, ptys, k2) == fn_args(
            cs,
            env,
            cls,
            s,
            args,
            ptys,
            k,
        ),
    decreases k2 - k,
{
    if k < k2 {
        lemma_fn_args_prefix(cs, env, cls, s, args, ptys, k, (k2 - 1) as nat);
        let (r, s1) = fn_args(cs, env, cls, s, args, ptys, (k2 - 1) as nat);
        lemma_infer_len(cs, env, cls, s1, args[k2 - 1]);
        let (ra, s2) = infer_spec(cs, env, cls, s1, args[k2 - 1]);
        match ra {
            Ok(at) => {
                lemma_unify_keeps_len(s2, at, ptys[k2 - 1]);
            },
            Err(_) => {},
        }
    }
}

proof fn lemma_list_items_prefix(
    cs: Seq<SpecClassDecl>,
    env: SEnv,
    cls: SpecClassDecl,
    s: Subst,
    items: Seq<SpecExpr>,
    elem: SpecHm,
    k: nat,
    k2: nat,
)
    requires
        k <= k2 <= items.len(),
    ensures
        list_items(cs, env, cls, s, items, elem, k).1.len() <= list_items(cs, env, cls, s, items, elem, k2).1.len(),
        list_items(cs, env, cls, s, items, elem, k).0 is Err ==> list_items(cs, env, cls, s, items, elem, k2)
            == list_items(cs, env, cls, s, items, elem, k),
    decreases k2 - k,
{
    if k < k2 {
        lemma_list_items_prefix(cs, env, cls, s, items, elem, k, (k2 - 1) as nat);
        let (r, s1) = list_items(cs, env, cls, s, items, elem, (k2 - 1) as nat);
        lemma_infer_len(cs, env, cls, s1, items[k2 - 1]);
        let (ra, s2) = infer_spec(cs, env, cls, s1, items[k2 - 1]);
        match ra {
            Ok(it) => {
                lemma_unify_keeps_len(s2, it, elem);
            },
            Err(_) => {},
        }
    }
}

proof fn lemma_stmts_hm_prefix(cs: Seq<SpecClassDecl>, cls: SpecClassDecl, ret: SpecHm, env: SEnv, s: Subst, sts: Seq<SpecStmt>, k: int)
    requires
        0 <= k <= sts.len(),
    ensures
        stmts_hm(cs, cls, ret, env, s, sts.take(k)).2.len() <= stmts_hm(cs, cls, ret, env, s, sts).2.len(),
        stmts_hm(cs, cls, ret, env, s, sts.take(k)).0 is Err ==> stmts_hm(cs, cls, ret, env, s, sts) == stmts_hm(
            cs,
            cls,
            ret,
            env,
            s,
            sts.take(k),
        ),
    decreases sts.len(),
{
    if k == sts.len() {
        assert(sts.take(k) =~= sts);
    } else {
        lemma_stmts_hm_prefix(cs, cls, ret, env, s, sts.drop_last(), k);
        assert(sts.drop_last().take(k) =~= sts.take(k));
        let (r, e1, s1) = stmts_hm(cs, cls, ret, env, s, sts.drop_last());
        lemma_stmt_hm_len(cs, cls, ret, e1, s1, sts.last());
    }
}

/// A function type is below a bound when its parts are.
pub proof fn lemma_function_below(ps: Seq<SpecHm>, r: SpecHm, n: nat)
    requires
        forall|j: int| 0 <= j < ps.len() ==> below(#[trigger] ps[j], n),
        below(r, n),
    ensures
        below(SpecHm::Function(ps, Box::new(r)), n),
{
    assert forall|w: u32| #[trigger] has_var(SpecHm::Function(ps, Box::new(r)), w) implies (w as nat) < n by {
        if any_has_var(ps, w) {
            lemma_any_has_var(ps, w);
            let j = choose|j: int| 0 <= j < ps.len() && #[trigger] has_var(ps[j], w);
            assert(below(ps[j], n));
        } else {
            assert(has_var(r, w));
        }
    }
}

proof fn lemma_binary_len(op: BinOp, lt: SpecHm, rt: SpecHm, s: Subst)
    ensures
        binary_spec(op, lt, rt, s).1.len() == s.len(),
{
    lemma_unify_keeps_len(s, lt, SpecHm::Int);
    lemma_unify_keeps_len(unify_spec(s, lt, SpecHm::Int).1, rt, SpecHm::Int);
    lemma_unify_keeps_len(s, lt, SpecHm::Bool);
    lemma_unify_keeps_len(unify_spec(s, lt, SpecHm::Bool).1, rt, SpecHm::Bool);
    lemma_unify_keeps_len(s, lt, rt);
}

// ── Executable inference ────────────────────────────────────────────────────

pub open spec fn tview(r: Result<HmType, SemanticError>) -> Result<SpecHm, SpecSemErr> {
    match r {
        Ok(t) => Ok(t@),
        Err(e) => Err(e@),
    }
}

pub open spec fn uview(r: Result<(), SemanticError>) -> Result<(), SpecSemErr> {
    match r {
        Ok(()) => Ok(()),
        Err(e) => Err(e@),
    }
}

fn text(s: &str) -> (r: String)
    ensures
        r@ == s@,
{
    let mut v: Vec<char> = Vec::new();
    push_str(&mut v, s);
    string_from_chars(v.as_slice())
}

fn mismatch(expected: String, found: String) -> (e: SemanticError)
    ensures
        e@ == SpecSemErr::TypeMismatch(expected@, found@, dummy()),
{
    SemanticError::TypeMismatch { expected, found, span: Span::dummy() }
}

impl HmType {
    /// The inference type of a written type.
    #[verifier::loop_isolation(false)]
    pub fn from_ast(ty: &Type) -> (t: HmType)
        ensures
            t@ == from_ast(ty@),
        decreases ty,
    {
        match ty {
            Type::Int => HmType::Int,
            Type::String => HmType::String,
            Type::Bool => HmType::Bool,
            Type::Void => HmType::Void,
            Type::Custom(n) => HmType::Custom(n.clone()),
            Type::Generic(n) => HmType::Custom(n.clone()),
            Type::List(inner) => HmType::List(Box::new(HmType::from_ast(inner))),
            Type::Function(ps, r) => {
                let mut out: Vec<HmType> = Vec::new();
                let mut i: usize = 0;
                while i < ps.len()
                    invariant
                        i <= ps.len(),
                        out@.len() == i,
                        forall|j: int| 0 <= j < i ==> (#[trigger] out@[j])@ == from_ast(ps@[j]@),
                    decreases ps.len() - i,
                {
                    proof {
                        assert(decreases_to!(ps => ps@));
                        assert(decreases_to!(ps@ => ps@[i as int]));
                    }
                    out.push(HmType::from_ast(&ps[i]));
                    i = i + 1;
                }
                proof {
                    lemma_hms_view(out@);
                    crate::ast::lemma_types_view(ps@);
                    lemma_from_ast_all(types_view(ps@));
                    assert(hms_view(out@) =~= from_ast_all(types_view(ps@)));
                }
                HmType::Function(out, Box::new(HmType::from_ast(r)))
            },
        }
    }
}

/// The variable of type parameter `name`: the last parameter of that name.
fn gvar_exec(tps: &Vec<String>, name: &str, base: u32) -> (r: Option<HmType>)
    requires
        base + tps@.len() <= u32::MAX + 1,
    ensures
        match r {
            Some(t) => gvar(crate::ast::string_views(tps@), name@, base as nat) == Some(t@),
            None => gvar(crate::ast::string_views(tps@), name@, base as nat) is None,
        },
{
    let ghost tv = crate::ast::string_views(tps@);
    let mut i: usize = tps.len();
    assert(tv.take(i as int) =~= tv);
    while i > 0
        invariant
            i <= tps@.len(),
            tv == crate::ast::string_views(tps@),
            tv.len() == tps@.len(),
            base + tps@.len() <= u32::MAX + 1,
            gvar(tv, name@, base as nat) == gvar(tv.take(i as int), name@, base as nat),
        decreases i,
    {
        assert(tv.take(i as int).drop_last() =~= tv.take(i - 1));
        assert(tv.take(i as int).last() == tps@[i - 1]@);
        if str_eq(tps[i - 1].as_str(), name) {
            return Some(HmType::Var(base + (i - 1) as u32));
        }
        i = i - 1;
    }
    None
}

/// A written type at a call site of a generic class whose type parameters
/// got variables from `base` on.
#[verifier::loop_isolation(false)]
fn instantiate_type(ty: &Type, tps: &Vec<String>, base: u32) -> (t: HmType)
    requires
        base + tps@.len() <= u32::MAX + 1,
    ensures
        t@ == inst_ast(ty@, crate::ast::string_views(tps@), base as nat),
    decreases ty,
{
    proof {
        assert(crate::ast::string_views(tps@).take(tps@.len() as int) =~= crate::ast::string_views(tps@));
    }
    match ty {
        Type::Generic(n) => match gvar_exec(tps, n.as_str(), base) {
            Some(v) => v,
            None => HmType::Custom(n.clone()),
        },
        Type::List(inner) => HmType::List(Box::new(instantiate_type(inner, tps, base))),
        Type::Function(ps, r) => {
            let mut out: Vec<HmType> = Vec::new();
            let mut i: usize = 0;
            while i < ps.len()
                invariant
                    i <= ps.len(),
                    out@.len() == i,
                    forall|j: int| 0 <= j < i ==> (#[trigger] out@[j])@ == inst_ast(
                        ps@[j]@,
                        crate::ast::string_views(tps@),
                        base as nat,
                    ),
                decreases ps.len() - i,
            {
                proof {
                    assert(decreases_to!(ps => ps@));
                    assert(decreases_to!(ps@ => ps@[i as int]));
                }
                out.push(instantiate_type(&ps[i], tps, base));
                i = i + 1;
            }
            proof {
                lemma_hms_view(out@);
                crate::ast::lemma_types_view(ps@);
                lemma_inst_ast_all(types_view(ps@), crate::ast::string_views(tps@), base as nat);
                assert(hms_view(out@) =~= inst_ast_all(types_view(ps@), crate::ast::string_views(tps@), base as nat));
            }
            HmType::Function(out, Box::new(instantiate_type(r, tps, base)))
        },
        _ => HmType::from_ast(ty),
    }
}

pub proof fn lemma_class_index(cs: Seq<SpecClassDecl>, name: Seq<char>)
    ensures
        match class_index(cs, name) {
            Some(i) => 0 <= i < cs.len() && cs[i].name == name && forall|j: int| 0 <= j < i ==> #[trigger] cs[j].name != name,
            None => forall|j: int| 0 <= j < cs.len() ==> #[trigger] cs[j].name != name,
        },
    decreases cs.len(),
{
    if cs.len() > 0 {
        lemma_class_index(cs.drop_last(), name);
        match class_index(cs.drop_last(), name) {
            Some(i) => {
                assert(cs.drop_last()[i] == cs[i]);
                assert forall|j: int| 0 <= j < i implies #[trigger] cs[j].name != name by {
                    assert(cs.drop_last()[j] == cs[j]);
                }
            },
            None => {
                assert forall|j: int| 0 <= j < cs.len() - 1 implies #[trigger] cs[j].name != name by {
                    assert(cs.drop_last()[j] == cs[j]);
                }
            },
        }
    }
}

pub proof fn lemma_field_find(fs: Seq<SpecField>, name: Seq<char>)
    ensures
        match field_find(fs, name) {
            Some(f) => exists|i: int| 0 <= i < fs.len() && fs[i] == f && fs[i].name == name && forall|j: int| 0 <= j < i ==> #[trigger] fs[j].name != name,
            None => forall|j: int| 0 <= j < fs.len() ==> #[trigger] fs[j].name != name,
        },
    decreases fs.len(),
{
    if fs.len() > 0 {
        lemma_field_find(fs.drop_last(), name);
        match field_find(fs.drop_last(), name) {
            Some(f) => {
                let i = choose|i: int| 0 <= i < fs.drop_last().len() && fs.drop_last()[i] == f && fs.drop_last()[i].name == name && forall|j: int| 0 <= j < i ==> #[trigger] fs.drop_last()[j].name != name;
                assert(fs.drop_last()[i] == fs[i]);
                assert forall|j: int| 0 <= j < i implies #[trigger] fs[j].name != name by {
                    assert(fs.drop_last()[j] == fs[j]);
                }
            },
            None => {
                assert forall|j: int| 0 <= j < fs.len() - 1 implies #[trigger] fs[j].name != name by {
                    assert(fs.drop_last()[j] == fs[j]);
                }
                if fs.last().name == name {
                    let i = fs.len() - 1;
                    assert(fs[i] == fs.last());
                }
            },
        }
    }
}

pub proof fn lemma_method_find(ms: Seq<SpecMethod>, name: Seq<char>)
    ensures
        match method_find(ms, name) {
            Some(m) => exists|i: int| 0 <= i < ms.len() && ms[i] == m && ms[i].name == name && forall|j: int| 0 <= j < i ==> #[trigger] ms[j].name != name,
            None => forall|j: int| 0 <= j < ms.len() ==> #[trigger] ms[j].name != name,
        },
    decreases ms.len(),
{
    if ms.len() > 0 {
        lemma_method_find(ms.drop_last(), name);
        match method_find(ms.drop_last(), name) {
            Some(m) => {
                let i = choose|i: int| 0 <= i < ms.drop_last().len() && ms.drop_last()[i] == m && ms.drop_last()[i].name == name && forall|j: int| 0 <= j < i ==> #[trigger] ms.drop_last()[j].name != name;
                assert(ms.drop_last()[i] == ms[i]);
                assert forall|j: int| 0 <= j < i implies #[trigger] ms[j].name != name by {
                    assert(ms.drop_last()[j] == ms[j]);
                }
            },
            None => {
                assert forall|j: int| 0 <= j < ms.len() - 1 implies #[trigger] ms[j].name != name by {
                    assert(ms.drop_last()[j] == ms[j]);
                }
                if ms.last().name == name {
                    let i = ms.len() - 1;
                    assert(ms[i] == ms.last());
                }
            },
        }
    }
}

fn find_field<'a>(fs: &'a Vec<Field>, name: &str) -> (r: Option<&'a Field>)
    ensures
        match r {
            Some(f) => field_find(views(fs@), name@) == Some(f@),
            None => field_find(views(fs@), name@) is None,
        },
{
    let ghost fv = views(fs@);
    proof {
        lemma_field_find(fv, name@);
    }
    let mut i: usize = 0;
    while i < fs.len()
        invariant
            i <= fs@.len(),
            fv == views(fs@),
            forall|j: int| 0 <= j < i ==> #[trigger] fv[j].name != name@,
        decreases fs.len() - i,
    {
        if str_eq(fs[i].name.as_str(), name) {
            proof {
                lemma_field_find(fv, name@);
                match field_find(fv, name@) {
                    Some(f) => {
                        let k = choose|k: int| 0 <= k < fv.len() && fv[k] == f && fv[k].name == name@ && forall|j: int| 0 <= j < k ==> #[trigger] fv[j].name != name@;
                        if k < i {
                            assert(fv[k].name != name@);
                        }
                        if k > i {
                            assert(fv[i as int].name == name@);
                        }
                    },
                    None => {
                        assert(fv[i as int].name == name@);
                    },
                }
            }
            return Some(&fs[i]);
        }
        i = i + 1;
    }
    proof {
        lemma_field_find(fv, name@);
        if field_find(fv, name@) is Some {
            let f = field_find(fv, name@)->0;
            let k = choose|k: int| 0 <= k < fv.len() && fv[k] == f && fv[k].name == name@ && forall|j: int| 0 <= j < k ==> #[trigger] fv[j].name != name@;
            assert(fv[k].name != name@);
        }
    }
    None
}

fn find_method<'a>(ms: &'a Vec<Method>, name: &str) -> (r: Option<&'a Method>)
    ensures
        match r {
            Some(m) => method_find(views(ms@), name@) == Some(m@),
            None => method_find(views(ms@), name@) is None,
        },
{
    let ghost mv = views(ms@);
    proof {
        lemma_method_find(mv, name@);
    }
    let mut i: usize = 0;
    while i < ms.len()
        invariant
            i <= ms@.len(),
            mv == views(ms@),
            forall|j: int| 0 <= j < i ==> #[trigger] mv[j].name != name@,
        decreases ms.len() - i,
    {
        if str_eq(ms[i].name.as_str(), name) {
            proof {
                lemma_method_find(mv, name@);
                match method_find(mv, name@) {
                    Some(m) => {
                        let k = choose|k: int| 0 <= k < mv.len() && mv[k] == m && mv[k].name == name@ && forall|j: int| 0 <= j < k ==> #[trigger] mv[j].name != name@;
                        if k < i {
                            assert(mv[k].name != name@);
                        }
                        if k > i {
                            assert(mv[i as int].name == name@);
                        }
                    },
                    None => {
                        assert(mv[i as int].name == name@);
                    },
                }
            }
            return Some(&ms[i]);
        }
        i = i + 1;
    }
    proof {
        lemma_method_find(mv, name@);
        if method_find(mv, name@) is Some {
            let m = method_find(mv, name@)->0;
            let k = choose|k: int| 0 <= k < mv.len() && mv[k] == m && mv[k].name == name@ && forall|j: int| 0 <= j < k ==> #[trigger] mv[j].name != name@;
            assert(mv[k].name != name@);
        }
    }
    None
}

/// Unification whose failure becomes a type mismatch expecting `expected`.
fn unify_or_exec(u: &mut Unifier, a: &HmType, b: &HmType, expected: String) -> (r: Result<(), SemanticError>)
    requires
        old(u).wf(),
        below(a@, old(u).next_id as nat),
        below(b@, old(u).next_id as nat),
    ensures
        final(u).wf(),
        final(u).next_id == old(u).next_id,
        (uview(r), final(u).sv()) == unify_or(old(u).sv(), a@, b@, expected@),
{
    match u.unify(a, b) {
        Ok(()) => Ok(()),
        Err(m) => Err(mismatch(expected, m)),
    }
}

/// Allocates `n` fresh variables.
fn fresh_vars(u: &mut Unifier, n: usize)
    requires
        old(u).wf(),
        old(u).next_id + n <= u32::MAX,
    ensures
        final(u).wf(),
        final(u).next_id == old(u).next_id + n,
        final(u).sv() == fresh_n(old(u).sv(), n as nat),
{
    let ghost s0 = u.sv();
    let base = u.next_id;
    let mut k: usize = 0;
    assert(fresh_n(s0, 0) =~= s0);
    while k < n
        invariant
            u.wf(),
            k <= n,
            u.next_id == base + k,
            base + n <= u32::MAX,
            u.sv() == fresh_n(s0, k as nat),
        decreases n - k,
    {
        u.fresh();
        assert(fresh_n(s0, k as nat).push(None) =~= fresh_n(s0, (k + 1) as nat));
        k = k + 1;
    }
}

/// Whether the parameter is untyped: the parser writes such a parameter as `T`.
fn is_untyped(p: &Param) -> (b: bool)
    ensures
        b == untyped(p@),
{
    match &p.ty {
        Type::Custom(n) => str_eq(n.as_str(), "T"),
        _ => false,
    }
}

impl SemanticAnalyzer {
    /// The first known class named `name`.
    pub fn find_class(&self, name: &str) -> (r: Option<&ClassDecl>)
        ensures
            match r {
                Some(c) => class_get(self.cv(), name@) == Some(c@),
                None => class_get(self.cv(), name@) is None,
            },
    {
        let ghost cv = self.cv();
        proof {
            lemma_class_index(cv, name@);
        }
        let mut i: usize = 0;
        while i < self.classes.len()
            invariant
                i <= self.classes@.len(),
                cv == self.cv(),
                forall|j: int| 0 <= j < i ==> #[trigger] cv[j].name != name@,
            decreases self.classes.len() - i,
        {
            if str_eq(self.classes[i].name.as_str(), name) {
                proof {
                    lemma_class_index(cv, name@);
                    match class_index(cv, name@) {
                        Some(k) => {
                            if k < i {
                                assert(cv[k].name != name@);
                            }
                            if k > i {
                                assert(cv[i as int].name == name@);
                            }
                        },
                        None => {
                            assert(cv[i as int].name == name@);
                        },
                    }
                }
                return Some(&self.classes[i]);
            }
            i = i + 1;
        }
        proof {
            lemma_class_index(cv, name@);
            if class_index(cv, name@) is Some {
                let k = class_index(cv, name@)->0;
                assert(cv[k].name != name@);
            }
        }
        None
    }

    /// Infers the type of `expr` (Damas-Milner algorithm W): a name's scheme
    /// is instantiated, a lambda's untyped parameters get fresh variables, a
    /// call unifies its arguments with the parameters, operators constrain
    /// their operands. Unknown names and calls get a fresh variable.
    pub fn infer_expr_hm(&self, expr: &Expr, env: &HmEnv, cls: &ClassDecl, u: &mut Unifier) -> (r: Result<
        HmType,
        SemanticError,
    >)
        requires
            old(u).wf(),
            env_below(env.ev(), old(u).next_id as nat),
            infer_spec(self.cv(), env.ev(), cls@, old(u).sv(), expr@).1.len() <= u32::MAX,
        ensures
            final(u).wf(),
            (tview(r), final(u).sv()) == infer_spec(self.cv(), env.ev(), cls@, old(u).sv(), expr@),
            r matches Ok(t) ==> below(t@, final(u).next_id as nat),
            final(u).next_id >= old(u).next_id,
        decreases expr, 2nat,
    {
        proof {
            lemma_infer_len(self.cv(), env.ev(), cls@, u.sv(), expr@);
        }
        match expr {
            Expr::IntLit(_) => Ok(HmType::Int),
            Expr::StringLit(_) => Ok(HmType::String),
            Expr::BoolLit(_) => Ok(HmType::Bool),
            Expr::This => Ok(HmType::Custom(cls.name.clone())),
            Expr::Ident(name) => match env.get(name.as_str()) {
                Some(scheme) => {
                    let ghost s0 = u.sv();
                    proof {
                        lemma_env_get_below(env.ev(), name@, u.next_id as nat);
                        if scheme@.quantified.len() == 0 {
                            lemma_resolve_below(s0, scheme@.ty);
                        } else {
                            lemma_inst_vars_below(scheme@.ty, scheme@.quantified, s0.len());
                        }
                    }
                    let t = instantiate(scheme, u);
                    Ok(t)
                },
                None => {
                    let v = u.fresh();
                    Ok(HmType::Var(v))
                },
            },
            Expr::Await(inner) => self.infer_expr_hm(inner, env, cls, u),
            Expr::Lambda { .. } => self.infer_lambda(expr, env, cls, u),
            Expr::Call { .. } => self.infer_call(expr, env, cls, u),
            Expr::FieldAccess(..) => self.infer_field(expr, env, cls, u),
            Expr::MethodCall { .. } => self.infer_method_call(expr, env, cls, u),
            Expr::Binary { .. } => self.infer_binary(expr, env, cls, u),
            Expr::Unary { .. } => self.infer_unary(expr, env, cls, u),
            Expr::ListLiteral(..) => self.infer_list(expr, env, cls, u),
            Expr::LazyImport(_) | Expr::Block { .. } => {
                let v = u.fresh();
                Ok(HmType::Var(v))
            },
        }
    }

    fn infer_lambda(&self, expr: &Expr, env: &HmEnv, cls: &ClassDecl, u: &mut Unifier) -> (r: Result<HmType, SemanticError>)
        requires
            expr is Lambda,
            old(u).wf(),
            env_below(env.ev(), old(u).next_id as nat),
            infer_spec(self.cv(), env.ev(), cls@, old(u).sv(), expr@).1.len() <= u32::MAX,
        ensures
            final(u).wf(),
            (tview(r), final(u).sv()) == infer_spec(self.cv(), env.ev(), cls@, old(u).sv(), expr@),
            r matches Ok(t) ==> below(t@, final(u).next_id as nat),
            final(u).next_id >= old(u).next_id,
        decreases expr, 1nat,
    {
        proof {
            lemma_infer_len(self.cv(), env.ev(), cls@, u.sv(), expr@);
        }
        match expr {
            Expr::Lambda { params, body } => {
                let ghost s0 = u.sv();
                let ghost pv = views(params@);
                proof {
                    let (lenv, ptys, s1) = lam_params(env.ev(), pv, s0);
                    lemma_infer_len(self.cv(), lenv, cls@, s1, body@);
                    assert(pv.take(0) =~= Seq::<SpecParam>::empty());
                    lemma_hms_view(Seq::<HmType>::empty());
                }
                let mut lenv = env.duplicate();
                let mut ptys: Vec<HmType> = Vec::new();
                let mut i: usize = 0;
                while i < params.len()
                    invariant
                        u.wf(),
                        i <= params@.len(),
                        pv == views(params@),
                        (lenv.ev(), hms_view(ptys@), u.sv()) == lam_params(env.ev(), pv.take(i as int), s0),
                        env_below(lenv.ev(), u.next_id as nat),
                        forall|j: int| 0 <= j < ptys@.len() ==> below(#[trigger] ptys@[j]@, u.next_id as nat),
                        lam_params(env.ev(), pv, s0).2.len() <= u32::MAX,
                    decreases params.len() - i,
                {
                    proof {
                        lemma_lam_params_prefix(env.ev(), pv, s0, i + 1);
                        assert(pv.take(i + 1).drop_last() =~= pv.take(i as int));
                        assert(pv.take(i + 1).last() == params@[i as int]@);
                    }
                    let p = &params[i];
                    let ghost n0 = u.next_id;
                    let ty = if is_untyped(p) {
                        let v = u.fresh();
                        HmType::Var(v)
                    } else {
                        proof {
                            lemma_from_ast_below(p.ty@, n0 as nat);
                        }
                        HmType::from_ast(&p.ty)
                    };
                    proof {
                        lemma_env_below_mono(lenv.ev(), n0 as nat, u.next_id as nat);
                        lemma_env_put_below(lenv.ev(), p.name@, mono(ty@), u.next_id as nat);
                    }
                    let sc = TypeScheme::mono(ty.duplicate());
                    lenv.insert(p.name.clone(), sc);
                    let ghost before = ptys@;
                    ptys.push(ty);
                    proof {
                        assert(ptys@.drop_last() =~= before);
                        assert(sc@ == mono(ty@));
                    }
                    i = i + 1;
                }
                proof {
                    assert(pv.take(params@.len() as int) =~= pv);
                }
                let ghost nb = u.next_id;
                assert(forall|j: int| 0 <= j < ptys@.len() ==> below(#[trigger] ptys@[j]@, nb as nat));
                let body_ty = match self.infer_expr_hm(body, &lenv, cls, u) {
                    Ok(t) => t,
                    Err(e) => {
                        return Err(e);
                    },
                };
                proof {
                    lemma_hms_view(ptys@);
                    assert forall|j: int| 0 <= j < hms_view(ptys@).len() implies below(#[trigger] hms_view(ptys@)[j], u.next_id as nat) by {
                        assert(below(ptys@[j]@, nb as nat));
                    }
                    lemma_function_below(hms_view(ptys@), body_ty@, u.next_id as nat);
                }
                Ok(HmType::Function(ptys, Box::new(body_ty)))
            },
            _ => {
                assert(false);
                Ok(HmType::Int)
            },
        }
    }
}

impl SemanticAnalyzer {
    fn infer_call(&self, expr: &Expr, env: &HmEnv, cls: &ClassDecl, u: &mut Unifier) -> (r: Result<HmType, SemanticError>)
        requires
            expr is Call,
            old(u).wf(),
            env_below(env.ev(), old(u).next_id as nat),
            infer_spec(self.cv(), env.ev(), cls@, old(u).sv(), expr@).1.len() <= u32::MAX,
        ensures
            final(u).wf(),
            (tview(r), final(u).sv()) == infer_spec(self.cv(), env.ev(), cls@, old(u).sv(), expr@),
            r matches Ok(t) ==> below(t@, final(u).next_id as nat),
            final(u).next_id >= old(u).next_id,
        decreases expr, 1nat,
    {
        proof {
            lemma_infer_len(self.cv(), env.ev(), cls@, u.sv(), expr@);
        }
        match expr {
            Expr::Call { callee, args } => {
                let ghost s0 = u.sv();
                let ghost av = exprs_view(args@);
                proof {
                    crate::ast::lemma_exprs_view(args@);
                }
                match self.find_class(callee.as_str()) {
                    Some(cc) => {
                        let base = u.next_id;
                        let ghost tv = crate::ast::string_views(cc.type_params@);
                        proof {
                            match cc@.constructor {
                                Some(ctor) => {
                                    let m = if av.len() < ctor.params.len() {
                                        av.len()
                                    } else {
                                        ctor.params.len()
                                    };
                                    lemma_ctor_args_len(self.cv(), env.ev(), cls@, fresh_n(s0, tv.len()), av, ctor.params, tv, s0.len(), m);
                                },
                                None => {},
                            }
                        }
                        fresh_vars(u, cc.type_params.len());
                        proof {
                            lemma_env_below_mono(env.ev(), base as nat, u.next_id as nat);
                        }
                        match &cc.constructor {
                            Some(ctor) => {
                                let m = if args.len() < ctor.params.len() {
                                    args.len()
                                } else {
                                    ctor.params.len()
                                };
                                match self.ctor_args_exec(args, &ctor.params, &cc.type_params, base, m, env, cls, u) {
                                    Ok(()) => Ok(HmType::Custom(callee.clone())),
                                    Err(e) => Err(e),
                                }
                            },
                            None => Ok(HmType::Custom(callee.clone())),
                        }
                    },
                    None => match env.get(callee.as_str()) {
                        Some(scheme) => {
                            proof {
                                let (fnty, s1) = instantiate_spec(scheme@, s0);
                                match resolve(s1, fnty) {
                                    SpecHm::Function(pts, ret) => {
                                        let m = if av.len() < pts.len() {
                                            av.len()
                                        } else {
                                            pts.len()
                                        };
                                        lemma_fn_args_len(self.cv(), env.ev(), cls@, s1, av, pts, m);
                                    },
                                    _ => {},
                                }
                                lemma_env_get_below(env.ev(), callee@, u.next_id as nat);
                                if scheme@.quantified.len() == 0 {
                                    lemma_resolve_below(s0, scheme@.ty);
                                } else {
                                    lemma_inst_vars_below(scheme@.ty, scheme@.quantified, s0.len());
                                }
                            }
                            let f0 = instantiate(scheme, u);
                            proof {
                                lemma_resolve_below(u.sv(), f0@);
                            }
                            let f = u.apply(&f0);
                            match f {
                                HmType::Function(ptys, ret) => {
                                    let ghost pv = hms_view(ptys@);
                                    proof {
                                        lemma_hms_view(ptys@);
                                        lemma_env_below_mono(env.ev(), s0.len(), u.next_id as nat);
                                        assert forall|j: int| 0 <= j < ptys@.len() implies below(#[trigger] ptys@[j]@, u.next_id as nat) by {
                                            assert forall|w: u32| #[trigger] has_var(ptys@[j]@, w) implies (w as nat) < u.next_id as nat by {
                                                lemma_any_has_var(pv, w);
                                                assert(has_var(pv[j], w));
                                                assert(has_var(f@, w));
                                            }
                                        }
                                        assert forall|w: u32| #[trigger] has_var(ret@, w) implies (w as nat) < u.next_id as nat by {
                                            assert(has_var(f@, w));
                                        }
                                        let m = if av.len() < pv.len() {
                                            av.len()
                                        } else {
                                            pv.len()
                                        };
                                        lemma_fn_args_len(self.cv(), env.ev(), cls@, u.sv(), av, pv, m);
                                    }
                                    let m = if args.len() < ptys.len() {
                                        args.len()
                                    } else {
                                        ptys.len()
                                    };
                                    match self.fn_args_exec(args, &ptys, m, env, cls, u) {
                                        Ok(()) => {
                                            proof {
                                                lemma_resolve_below(u.sv(), ret@);
                                            }
                                            Ok(u.apply(&ret))
                                        },
                                        Err(e) => Err(e),
                                    }
                                },
                                _ => {
                                    let v = u.fresh();
                                    Ok(HmType::Var(v))
                                },
                            }
                        },
                        None => {
                            let v = u.fresh();
                            Ok(HmType::Var(v))
                        },
                    },
                }
            },
            _ => {
                assert(false);
                Ok(HmType::Int)
            },
        }
    }

    /// The first `m` arguments against the declared parameters of a generic
    /// class's constructor or method.
    fn ctor_args_exec(
        &self,
        args: &Vec<Expr>,
        params: &Vec<Param>,
        tps: &Vec<String>,
        base: u32,
        m: usize,
        env: &HmEnv,
        cls: &ClassDecl,
        u: &mut Unifier,
    ) -> (r: Result<(), SemanticError>)
        requires
            old(u).wf(),
            env_below(env.ev(), old(u).next_id as nat),
            m <= args@.len(),
            m <= params@.len(),
            base + tps@.len() <= old(u).next_id,
            ctor_args(self.cv(), env.ev(), cls@, old(u).sv(), exprs_view(args@), views(params@), crate::ast::string_views(tps@), base as nat, m as nat).1.len() <= u32::MAX,
        ensures
            final(u).wf(),
            (uview(r), final(u).sv()) == ctor_args(self.cv(), env.ev(), cls@, old(u).sv(), exprs_view(args@), views(params@), crate::ast::string_views(tps@), base as nat, m as nat),
            final(u).next_id >= old(u).next_id,
        decreases args, 0nat,
    {
        let ghost s0 = u.sv();
        let ghost av = exprs_view(args@);
        let ghost pv = views(params@);
        let ghost tv = crate::ast::string_views(tps@);
        let ghost cs = self.cv();
        proof {
            crate::ast::lemma_exprs_view(args@);
            lemma_ctor_args_prefix(cs, env.ev(), cls@, s0, av, pv, tv, base as nat, 0, m as nat);
        }
        let mut k: usize = 0;
        while k < m
            invariant
                u.wf(),
                s0 == old(u).sv(),
                s0.len() == old(u).next_id as nat,
                u.next_id >= s0.len(),
                k <= m,
                m <= args@.len(),
                m <= params@.len(),
                av == exprs_view(args@),
                av.len() == args@.len(),
                forall|j: int| 0 <= j < args@.len() ==> #[trigger] av[j] == args@[j]@,
                pv == views(params@),
                tv == crate::ast::string_views(tps@),
                cs == self.cv(),
                base + tps@.len() <= u.next_id,
                env_below(env.ev(), u.next_id as nat),
                ctor_args(cs, env.ev(), cls@, s0, av, pv, tv, base as nat, k as nat) == (Ok::<(), SpecSemErr>(()), u.sv()),
                ctor_args(cs, env.ev(), cls@, s0, av, pv, tv, base as nat, m as nat).1.len() <= u32::MAX,
            decreases m - k,
        {
            proof {
                lemma_ctor_args_prefix(cs, env.ev(), cls@, s0, av, pv, tv, base as nat, (k + 1) as nat, m as nat);
                assert(decreases_to!(args => args@));
                assert(decreases_to!(args@ => args@[k as int]));
                let (ra, s2) = infer_spec(cs, env.ev(), cls@, u.sv(), av[k as int]);
                match ra {
                    Ok(at) => {
                        lemma_unify_keeps_len(s2, at, inst_ast(pv[k as int].ty, tv, base as nat));
                    },
                    Err(_) => {},
                }
            }
            let ghost n0 = u.next_id;
            let at = match self.infer_expr_hm(&args[k], env, cls, u) {
                Ok(t) => t,
                Err(e) => {
                    proof {
                        assert(ctor_args(cs, env.ev(), cls@, s0, av, pv, tv, base as nat, (k + 1) as nat) == (Err::<(), SpecSemErr>(e@), u.sv()));
                        lemma_ctor_args_prefix(cs, env.ev(), cls@, s0, av, pv, tv, base as nat, (k + 1) as nat, m as nat);
                    }
                    return Err(e);
                },
            };
            proof {
                lemma_infer_len(cs, env.ev(), cls@, s0, av[0]);
                lemma_inst_ast_below(params@[k as int].ty@, tv, base as nat);
            }
            let pt = instantiate_type(&params[k].ty, tps, base);
            let res = unify_or_exec(u, &at, &pt, pt.display());
            match res {
                Ok(()) => {},
                Err(e) => {
                    proof {
                        assert(ctor_args(cs, env.ev(), cls@, s0, av, pv, tv, base as nat, (k + 1) as nat) == (Err::<(), SpecSemErr>(e@), u.sv()));
                        lemma_ctor_args_prefix(cs, env.ev(), cls@, s0, av, pv, tv, base as nat, (k + 1) as nat, m as nat);
                    }
                    return Err(e);
                },
            }
            proof {
                lemma_env_below_mono(env.ev(), n0 as nat, u.next_id as nat);
            }
            k = k + 1;
        }
        Ok(())
    }

    /// The first `m` arguments against the parameter types of a function value.
    fn fn_args_exec(&self, args: &Vec<Expr>, ptys: &Vec<HmType>, m: usize, env: &HmEnv, cls: &ClassDecl, u: &mut Unifier) -> (r: Result<(), SemanticError>)
        requires
            old(u).wf(),
            env_below(env.ev(), old(u).next_id as nat),
            m <= args@.len(),
            m <= ptys@.len(),
            forall|j: int| 0 <= j < ptys@.len() ==> below(#[trigger] ptys@[j]@, old(u).next_id as nat),
            fn_args(self.cv(), env.ev(), cls@, old(u).sv(), exprs_view(args@), hms_view(ptys@), m as nat).1.len() <= u32::MAX,
        ensures
            final(u).wf(),
            (uview(r), final(u).sv()) == fn_args(self.cv(), env.ev(), cls@, old(u).sv(), exprs_view(args@), hms_view(ptys@), m as nat),
            final(u).next_id >= old(u).next_id,
        decreases args, 0nat,
    {
        let ghost s0 = u.sv();
        let ghost av = exprs_view(args@);
        let ghost pv = hms_view(ptys@);
        let ghost cs = self.cv();
        proof {
            crate::ast::lemma_exprs_view(args@);
            lemma_hms_view(ptys@);
            lemma_fn_args_prefix(cs, env.ev(), cls@, s0, av, pv, 0, m as nat);
        }
        let mut k: usize = 0;
        while k < m
            invariant
                u.wf(),
                s0 == old(u).sv(),
                s0.len() == old(u).next_id as nat,
                u.next_id >= s0.len(),
                k <= m,
                m <= args@.len(),
                m <= ptys@.len(),
                av == exprs_view(args@),
                av.len() == args@.len(),
                forall|j: int| 0 <= j < args@.len() ==> #[trigger] av[j] == args@[j]@,
                pv == hms_view(ptys@),
                pv.len() == ptys@.len(),
                forall|j: int| 0 <= j < ptys@.len() ==> #[trigger] pv[j] == ptys@[j]@,
                forall|j: int| 0 <= j < ptys@.len() ==> below(#[trigger] ptys@[j]@, u.next_id as nat),
                cs == self.cv(),
                env_below(env.ev(), u.next_id as nat),
                fn_args(cs, env.ev(), cls@, s0, av, pv, k as nat) == (Ok::<(), SpecSemErr>(()), u.sv()),
                fn_args(cs, env.ev(), cls@, s0, av, pv, m as nat).1.len() <= u32::MAX,
            decreases m - k,
        {
            proof {
                lemma_fn_args_prefix(cs, env.ev(), cls@, s0, av, pv, (k + 1) as nat, m as nat);
                assert(decreases_to!(args => args@));
                assert(decreases_to!(args@ => args@[k as int]));
                let (ra, s2) = infer_spec(cs, env.ev(), cls@, u.sv(), av[k as int]);
                match ra {
                    Ok(at) => {
                        lemma_unify_keeps_len(s2, at, pv[k as int]);
                    },
                    Err(_) => {},
                }
            }
            let ghost n0 = u.next_id;
            let at = match self.infer_expr_hm(&args[k], env, cls, u) {
                Ok(t) => t,
                Err(e) => {
                    proof {
                        assert(fn_args(cs, env.ev(), cls@, s0, av, pv, (k + 1) as nat) == (Err::<(), SpecSemErr>(e@), u.sv()));
                        lemma_fn_args_prefix(cs, env.ev(), cls@, s0, av, pv, (k + 1) as nat, m as nat);
                    }
                    return Err(e);
                },
            };
            proof {
                assert(below(ptys@[k as int]@, n0 as nat));
            }
            let res = unify_or_exec(u, &at, &ptys[k], ptys[k].display());
            match res {
                Ok(()) => {},
                Err(e) => {
                    proof {
                        assert(fn_args(cs, env.ev(), cls@, s0, av, pv, (k + 1) as nat) == (Err::<(), SpecSemErr>(e@), u.sv()));
                        lemma_fn_args_prefix(cs, env.ev(), cls@, s0, av, pv, (k + 1) as nat, m as nat);
                    }
                    return Err(e);
                },
            }
            proof {
                lemma_env_below_mono(env.ev(), n0 as nat, u.next_id as nat);
                assert forall|j: int| 0 <= j < ptys@.len() implies below(#[trigger] ptys@[j]@, u.next_id as nat) by {
                    assert(below(ptys@[j]@, n0 as nat));
                }
            }
            k = k + 1;
        }
        Ok(())
    }
}

impl SemanticAnalyzer {
    fn infer_field(&self, expr: &Expr, env: &HmEnv, cls: &ClassDecl, u: &mut Unifier) -> (r: Result<HmType, SemanticError>)
        requires
            expr is FieldAccess,
            old(u).wf(),
            env_below(env.ev(), old(u).next_id as nat),
            infer_spec(self.cv(), env.ev(), cls@, old(u).sv(), expr@).1.len() <= u32::MAX,
        ensures
            final(u).wf(),
            (tview(r), final(u).sv()) == infer_spec(self.cv(), env.ev(), cls@, old(u).sv(), expr@),
            r matches Ok(t) ==> below(t@, final(u).next_id as nat),
            final(u).next_id >= old(u).next_id,
        decreases expr, 1nat,
    {
        proof {
            lemma_infer_len(self.cv(), env.ev(), cls@, u.sv(), expr@);
        }
        match expr {
            Expr::FieldAccess(obj, field) => {
                let ot = match self.infer_expr_hm(obj, env, cls, u) {
                    Ok(t) => t,
                    Err(e) => {
                        return Err(e);
                    },
                };
                let o = u.apply(&ot);
                let found: Option<HmType> = match &o {
                    HmType::Custom(n) => match self.find_class(n.as_str()) {
                        Some(cd) => match find_field(&cd.fields, field.as_str()) {
                            Some(f) => Some(HmType::from_ast(&f.ty)),
                            None => None,
                        },
                        None => None,
                    },
                    _ => None,
                };
                match found {
                    Some(t) => {
                        proof {
                            assert forall|w: u32| #[trigger] has_var(t@, w) implies (w as nat) < u.next_id as nat by {
                                match o {
                                    HmType::Custom(n) => {
                                        let cd = class_get(self.cv(), n@)->0;
                                        let f = field_find(cd.fields, field@)->0;
                                        lemma_from_ast_novars(f.ty, w);
                                    },
                                    _ => {},
                                }
                            }
                        }
                        Ok(t)
                    },
                    None => {
                        let v = u.fresh();
                        Ok(HmType::Var(v))
                    },
                }
            },
            _ => {
                assert(false);
                Ok(HmType::Int)
            },
        }
    }

    fn infer_method_call(&self, expr: &Expr, env: &HmEnv, cls: &ClassDecl, u: &mut Unifier) -> (r: Result<HmType, SemanticError>)
        requires
            expr is MethodCall,
            old(u).wf(),
            env_below(env.ev(), old(u).next_id as nat),
            infer_spec(self.cv(), env.ev(), cls@, old(u).sv(), expr@).1.len() <= u32::MAX,
        ensures
            final(u).wf(),
            (tview(r), final(u).sv()) == infer_spec(self.cv(), env.ev(), cls@, old(u).sv(), expr@),
            r matches Ok(t) ==> below(t@, final(u).next_id as nat),
            final(u).next_id >= old(u).next_id,
        decreases expr, 1nat,
    {
        proof {
            lemma_infer_len(self.cv(), env.ev(), cls@, u.sv(), expr@);
        }
        match expr {
            Expr::MethodCall { receiver, method, args } => {
                let ghost av = exprs_view(args@);
                proof {
                    let (r0, s1) = infer_spec(self.cv(), env.ev(), cls@, u.sv(), receiver@);
                    match r0 {
                        Ok(rt0) => {
                            let target = match resolve(s1, rt0) {
                                SpecHm::Custom(n) => match class_get(self.cv(), n) {
                                    Some(cd) => match method_find(cd.methods, method@) {
                                        Some(meth) => Some((cd, meth)),
                                        None => None,
                                    },
                                    None => None,
                                },
                                _ => None,
                            };
                            match target {
                                Some((cd, meth)) => {
                                    let m = if av.len() < meth.params.len() {
                                        av.len()
                                    } else {
                                        meth.params.len()
                                    };
                                    lemma_ctor_args_len(self.cv(), env.ev(), cls@, fresh_n(s1, cd.type_params.len()), av, meth.params, cd.type_params, s1.len(), m);
                                },
                                None => {},
                            }
                        },
                        Err(_) => {},
                    }
                }
                let rt = match self.infer_expr_hm(receiver, env, cls, u) {
                    Ok(t) => t,
                    Err(e) => {
                        return Err(e);
                    },
                };
                let ghost s1 = u.sv();
                let r = u.apply(&rt);
                let target: Option<(&ClassDecl, &Method)> = match &r {
                    HmType::Custom(n) => match self.find_class(n.as_str()) {
                        Some(cd) => match find_method(&cd.methods, method.as_str()) {
                            Some(meth) => Some((cd, meth)),
                            None => None,
                        },
                        None => None,
                    },
                    _ => None,
                };
                match target {
                    Some((cd, meth)) => {
                        let base = u.next_id;
                        let ghost tv = crate::ast::string_views(cd.type_params@);
                        let ghost pv = views(meth.params@);
                        proof {
                            crate::ast::lemma_exprs_view(args@);
                            let m = if av.len() < pv.len() {
                                av.len()
                            } else {
                                pv.len()
                            };
                            lemma_ctor_args_len(self.cv(), env.ev(), cls@, fresh_n(s1, tv.len()), av, pv, tv, s1.len(), m);
                        }
                        fresh_vars(u, cd.type_params.len());
                        proof {
                            lemma_env_below_mono(env.ev(), base as nat, u.next_id as nat);
                        }
                        let m = if args.len() < meth.params.len() {
                            args.len()
                        } else {
                            meth.params.len()
                        };
                        match self.ctor_args_exec(args, &meth.params, &cd.type_params, base, m, env, cls, u) {
                            Ok(()) => {
                                proof {
                                    lemma_inst_ast_below(meth.return_type@, tv, base as nat);
                                }
                                let ret = instantiate_type(&meth.return_type, &cd.type_params, base);
                                proof {
                                    lemma_resolve_below(u.sv(), ret@);
                                }
                                Ok(u.apply(&ret))
                            },
                            Err(e) => Err(e),
                        }
                    },
                    None => {
                        let v = u.fresh();
                        Ok(HmType::Var(v))
                    },
                }
            },
            _ => {
                assert(false);
                Ok(HmType::Int)
            },
        }
    }

    fn infer_binary(&self, expr: &Expr, env: &HmEnv, cls: &ClassDecl, u: &mut Unifier) -> (r: Result<HmType, SemanticError>)
        requires
            expr is Binary,
            old(u).wf(),
            env_below(env.ev(), old(u).next_id as nat),
            infer_spec(self.cv(), env.ev(), cls@, old(u).sv(), expr@).1.len() <= u32::MAX,
        ensures
            final(u).wf(),
            (tview(r), final(u).sv()) == infer_spec(self.cv(), env.ev(), cls@, old(u).sv(), expr@),
            r matches Ok(t) ==> below(t@, final(u).next_id as nat),
            final(u).next_id >= old(u).next_id,
        decreases expr, 1nat,
    {
        proof {
            lemma_infer_len(self.cv(), env.ev(), cls@, u.sv(), expr@);
        }
        match expr {
            Expr::Binary { op, left, right } => {
                let ghost s0 = u.sv();
                proof {
                    let (rl, s1) = infer_spec(self.cv(), env.ev(), cls@, s0, left@);
                    lemma_infer_len(self.cv(), env.ev(), cls@, s1, right@);
                    match rl {
                        Ok(l0) => {
                            let (rr, s2) = infer_spec(self.cv(), env.ev(), cls@, s1, right@);
                            match rr {
                                Ok(r0) => {
                                    lemma_binary_len(*op, resolve(s2, l0), resolve(s2, r0), s2);
                                },
                                Err(_) => {},
                            }
                        },
                        Err(_) => {},
                    }
                }
                let l0 = match self.infer_expr_hm(left, env, cls, u) {
                    Ok(t) => t,
                    Err(e) => {
                        return Err(e);
                    },
                };
                let ghost n1 = u.next_id;
                proof {
                    lemma_env_below_mono(env.ev(), s0.len(), u.next_id as nat);
                }
                let r0 = match self.infer_expr_hm(right, env, cls, u) {
                    Ok(t) => t,
                    Err(e) => {
                        return Err(e);
                    },
                };
                proof {
                    lemma_resolve_below(u.sv(), l0@);
                    lemma_resolve_below(u.sv(), r0@);
                }
                let lt = u.apply(&l0);
                let rt = u.apply(&r0);
                binary_hm(*op, lt, rt, u)
            },
            _ => {
                assert(false);
                Ok(HmType::Int)
            },
        }
    }

    fn infer_unary(&self, expr: &Expr, env: &HmEnv, cls: &ClassDecl, u: &mut Unifier) -> (r: Result<HmType, SemanticError>)
        requires
            expr is Unary,
            old(u).wf(),
            env_below(env.ev(), old(u).next_id as nat),
            infer_spec(self.cv(), env.ev(), cls@, old(u).sv(), expr@).1.len() <= u32::MAX,
        ensures
            final(u).wf(),
            (tview(r), final(u).sv()) == infer_spec(self.cv(), env.ev(), cls@, old(u).sv(), expr@),
            r matches Ok(t) ==> below(t@, final(u).next_id as nat),
            final(u).next_id >= old(u).next_id,
        decreases expr, 1nat,
    {
        proof {
            lemma_infer_len(self.cv(), env.ev(), cls@, u.sv(), expr@);
        }
        match expr {
            Expr::Unary { op, expr: inner } => {
                let ghost s0 = u.sv();
                proof {
                    let (r, s1) = infer_spec(self.cv(), env.ev(), cls@, s0, inner@);
                    match r {
                        Ok(t) => {
                            lemma_unify_keeps_len(s1, t, SpecHm::Bool);
                            lemma_unify_keeps_len(s1, t, SpecHm::Int);
                        },
                        Err(_) => {},
                    }
                }
                let t = match self.infer_expr_hm(inner, env, cls, u) {
                    Ok(t) => t,
                    Err(e) => {
                        return Err(e);
                    },
                };
                match op {
                    UnOp::Not => match unify_or_exec(u, &t, &HmType::Bool, text("Bool")) {
                        Ok(()) => Ok(HmType::Bool),
                        Err(e) => Err(e),
                    },
                    UnOp::Neg => match unify_or_exec(u, &t, &HmType::Int, text("Int")) {
                        Ok(()) => Ok(HmType::Int),
                        Err(e) => Err(e),
                    },
                }
            },
            _ => {
                assert(false);
                Ok(HmType::Int)
            },
        }
    }

    fn infer_list(&self, expr: &Expr, env: &HmEnv, cls: &ClassDecl, u: &mut Unifier) -> (r: Result<HmType, SemanticError>)
        requires
            expr is ListLiteral,
            old(u).wf(),
            env_below(env.ev(), old(u).next_id as nat),
            infer_spec(self.cv(), env.ev(), cls@, old(u).sv(), expr@).1.len() <= u32::MAX,
        ensures
            final(u).wf(),
            (tview(r), final(u).sv()) == infer_spec(self.cv(), env.ev(), cls@, old(u).sv(), expr@),
            r matches Ok(t) ==> below(t@, final(u).next_id as nat),
            final(u).next_id >= old(u).next_id,
        decreases expr, 1nat,
    {
        proof {
            lemma_infer_len(self.cv(), env.ev(), cls@, u.sv(), expr@);
        }
        match expr {
            Expr::ListLiteral(items) => {
                let ghost s0 = u.sv();
                proof {
                    crate::ast::lemma_exprs_view(items@);
                    let (elem, s1) = fresh_var(s0);
                    lemma_list_items_len(self.cv(), env.ev(), cls@, s1, exprs_view(items@), elem, items@.len() as nat);
                }
                let id = u.fresh();
                let elem = HmType::Var(id);
                proof {
                    lemma_env_below_mono(env.ev(), s0.len(), u.next_id as nat);
                }
                match self.list_items_exec(items, &elem, env, cls, u) {
                    Ok(()) => {
                        proof {
                            lemma_resolve_below(u.sv(), elem@);
                        }
                        let t = u.apply(&elem);
                        proof {
                            assert forall|w: u32| #[trigger] has_var(HmType::List(Box::new(t))@, w) implies (w as nat) < u.next_id as nat by {
                                assert(has_var(t@, w));
                            }
                        }
                        Ok(HmType::List(Box::new(t)))
                    },
                    Err(e) => Err(e),
                }
            },
            _ => {
                assert(false);
                Ok(HmType::Int)
            },
        }
    }

    /// The items of a list literal, each unified with the element variable.
    fn list_items_exec(&self, items: &Vec<Expr>, elem: &HmType, env: &HmEnv, cls: &ClassDecl, u: &mut Unifier) -> (r: Result<(), SemanticError>)
        requires
            old(u).wf(),
            env_below(env.ev(), old(u).next_id as nat),
            below(elem@, old(u).next_id as nat),
            list_items(self.cv(), env.ev(), cls@, old(u).sv(), exprs_view(items@), elem@, items@.len() as nat).1.len() <= u32::MAX,
        ensures
            final(u).wf(),
            (uview(r), final(u).sv()) == list_items(self.cv(), env.ev(), cls@, old(u).sv(), exprs_view(items@), elem@, items@.len() as nat),
            final(u).next_id >= old(u).next_id,
        decreases items, 0nat,
    {
        let ghost s0 = u.sv();
        let ghost av = exprs_view(items@);
        let ghost cs = self.cv();
        let ghost m = items@.len() as nat;
        proof {
            crate::ast::lemma_exprs_view(items@);
            lemma_list_items_prefix(cs, env.ev(), cls@, s0, av, elem@, 0, m);
        }
        let mut k: usize = 0;
        while k < items.len()
            invariant
                u.wf(),
                s0 == old(u).sv(),
                s0.len() == old(u).next_id as nat,
                u.next_id >= s0.len(),
                k <= items@.len(),
                m == items@.len(),
                av == exprs_view(items@),
                av.len() == items@.len(),
                forall|j: int| 0 <= j < items@.len() ==> #[trigger] av[j] == items@[j]@,
                cs == self.cv(),
                env_below(env.ev(), u.next_id as nat),
                below(elem@, u.next_id as nat),
                list_items(cs, env.ev(), cls@, s0, av, elem@, k as nat) == (Ok::<(), SpecSemErr>(()), u.sv()),
                list_items(cs, env.ev(), cls@, s0, av, elem@, m).1.len() <= u32::MAX,
            decreases items.len() - k,
        {
            proof {
                lemma_list_items_prefix(cs, env.ev(), cls@, s0, av, elem@, (k + 1) as nat, m);
                assert(decreases_to!(items => items@));
                assert(decreases_to!(items@ => items@[k as int]));
                let (ra, s2) = infer_spec(cs, env.ev(), cls@, u.sv(), av[k as int]);
                match ra {
                    Ok(it) => {
                        lemma_unify_keeps_len(s2, it, elem@);
                    },
                    Err(_) => {},
                }
            }
            let ghost n0 = u.next_id;
            let it = match self.infer_expr_hm(&items[k], env, cls, u) {
                Ok(t) => t,
                Err(e) => {
                    proof {
                        assert(list_items(cs, env.ev(), cls@, s0, av, elem@, (k + 1) as nat) == (Err::<(), SpecSemErr>(e@), u.sv()));
                        lemma_list_items_prefix(cs, env.ev(), cls@, s0, av, elem@, (k + 1) as nat, m);
                    }
                    return Err(e);
                },
            };
            let res = unify_or_exec(u, &it, elem, elem.display());
            match res {
                Ok(()) => {},
                Err(e) => {
                    proof {
                        assert(list_items(cs, env.ev(), cls@, s0, av, elem@, (k + 1) as nat) == (Err::<(), SpecSemErr>(e@), u.sv()));
                        lemma_list_items_prefix(cs, env.ev(), cls@, s0, av, elem@, (k + 1) as nat, m);
                    }
                    return Err(e);
                },
            }
            proof {
                lemma_env_below_mono(env.ev(), n0 as nat, u.next_id as nat);
            }
            k = k + 1;
        }
        Ok(())
    }
}

/// Both operands of a binary operator constrain each other and give the
/// operator's type.
fn binary_hm(op: BinOp, lt: HmType, rt: HmType, u: &mut Unifier) -> (r: Result<HmType, SemanticError>)
    requires
        old(u).wf(),
        below(lt@, old(u).next_id as nat),
        below(rt@, old(u).next_id as nat),
    ensures
        final(u).wf(),
        final(u).next_id == old(u).next_id,
        (tview(r), final(u).sv()) == binary_spec(op, lt@, rt@, old(u).sv()),
        r matches Ok(t) ==> below(t@, final(u).next_id as nat),
{
    match op {
        BinOp::Add => {
            if matches!(lt, HmType::String) || matches!(rt, HmType::String) {
                Ok(HmType::String)
            } else {
                let _ = u.unify(&lt, &HmType::Int);
                let _ = u.unify(&rt, &HmType::Int);
                Ok(HmType::Int)
            }
        },
        BinOp::Sub | BinOp::Mul | BinOp::Div | BinOp::Mod => both_hm(&lt, &rt, HmType::Int, text("Int"), HmType::Int, u),
        BinOp::Lt | BinOp::Gt | BinOp::Le | BinOp::Ge => both_hm(&lt, &rt, HmType::Int, text("Int"), HmType::Bool, u),
        BinOp::And | BinOp::Or => both_hm(&lt, &rt, HmType::Bool, text("Bool"), HmType::Bool, u),
        BinOp::Eq | BinOp::Ne => match unify_or_exec(u, &lt, &rt, lt.display()) {
            Ok(()) => Ok(HmType::Bool),
            Err(e) => Err(e),
        },
    }
}

/// Both operands must be `want`, written `name` in messages; the result is
/// `res`.
fn both_hm(lt: &HmType, rt: &HmType, want: HmType, name: String, res: HmType, u: &mut Unifier) -> (r: Result<HmType, SemanticError>)
    requires
        old(u).wf(),
        below(lt@, old(u).next_id as nat),
        below(rt@, old(u).next_id as nat),
        below(want@, 0),
        below(res@, 0),
    ensures
        final(u).wf(),
        final(u).next_id == old(u).next_id,
        (tview(r), final(u).sv()) == both_spec(lt@, rt@, want@, name@, res@, old(u).sv()),
        r matches Ok(t) ==> below(t@, final(u).next_id as nat),
{
    let name2 = name.clone();
    match unify_or_exec(u, lt, &want, name) {
        Ok(()) => {},
        Err(e) => {
            return Err(e);
        },
    }
    match unify_or_exec(u, rt, &want, name2) {
        Ok(()) => Ok(res),
        Err(e) => Err(e),
    }
}

// ── Checking of classes ─────────────────────────────────────────────────────

/// The environment of a class's fields, each a monotype.
pub open spec fn fields_env(fs: Seq<SpecField>) -> SEnv
    decreases fs.len(),
{
    if fs.len() == 0 {
        Seq::empty()
    } else {
        env_put(fields_env(fs.drop_last()), fs.last().name, mono(from_ast(fs.last().ty)))
    }
}

/// `env` with the parameters added, each a monotype.
pub open spec fn params_env(env: SEnv, ps: Seq<SpecParam>) -> SEnv
    decreases ps.len(),
{
    if ps.len() == 0 {
        env
    } else {
        env_put(params_env(env, ps.drop_last()), ps.last().name, mono(from_ast(ps.last().ty)))
    }
}

/// The check of the constructor's body, if there is a constructor; each body
/// gets a fresh substitution.
pub open spec fn ctor_hm(cs: Seq<SpecClassDecl>, cls: SpecClassDecl) -> (Result<(), SpecSemErr>, Subst) {
    match cls.constructor {
        Some(c) => {
            let (r, _, s) = stmts_hm(cs, cls, SpecHm::Void, params_env(fields_env(cls.fields), c.params), Seq::empty(), c.body);
            (r, s)
        },
        None => (Ok(()), Seq::empty()),
    }
}

/// The check of one method's body.
pub open spec fn method_hm(cs: Seq<SpecClassDecl>, cls: SpecClassDecl, m: SpecMethod) -> (Result<(), SpecSemErr>, Subst) {
    let (r, _, s) = stmts_hm(cs, cls, from_ast(m.return_type), params_env(fields_env(cls.fields), m.params), Seq::empty(), m.body);
    (r, s)
}

/// The checks of the first `k` methods, up to the first failure.
pub open spec fn methods_hm(cs: Seq<SpecClassDecl>, cls: SpecClassDecl, k: nat) -> Result<(), SpecSemErr>
    decreases k,
{
    if k == 0 || k > cls.methods.len() {
        Ok(())
    } else {
        match methods_hm(cs, cls, (k - 1) as nat) {
            Err(x) => Err(x),
            Ok(()) => method_hm(cs, cls, cls.methods[k - 1]).0,
        }
    }
}

/// Pass 7 on a class: its constructor's body, then each method's.
pub open spec fn class_hm(cs: Seq<SpecClassDecl>, cls: SpecClassDecl) -> Result<(), SpecSemErr> {
    match ctor_hm(cs, cls).0 {
        Err(x) => Err(x),
        Ok(()) => methods_hm(cs, cls, cls.methods.len()),
    }
}

/// Pass 7 on a class stays within the `u32` variable ids: no body needs
/// more variables than that.
pub open spec fn class_fits(cs: Seq<SpecClassDecl>, cls: SpecClassDecl) -> bool {
    &&& ctor_hm(cs, cls).1.len() <= u32::MAX
    &&& forall|i: int| 0 <= i < cls.methods.len() ==> #[trigger] method_hm(cs, cls, cls.methods[i]).1.len() <= u32::MAX
}

proof fn lemma_fields_env_below(fs: Seq<SpecField>, n: nat)
    ensures
        env_below(fields_env(fs), n),
    decreases fs.len(),
{
    if fs.len() > 0 {
        lemma_fields_env_below(fs.drop_last(), n);
        lemma_from_ast_below(fs.last().ty, n);
        lemma_env_put_below(fields_env(fs.drop_last()), fs.last().name, mono(from_ast(fs.last().ty)), n);
    } else {
        assert(env_below(Seq::<(Seq<char>, SpecScheme)>::empty(), n));
    }
}

impl SemanticAnalyzer {
    /// Checks one statement (Pass 7): a `let` unifies its value with the
    /// annotation, or generalizes it without one; a `return` unifies the
    /// value with the declared result when both are known; nested bodies
    /// are checked in a copy of the environment.
    pub fn check_stmt_hm(&self, stmt: &Stmt, return_ty: &HmType, cls: &ClassDecl, env: &mut HmEnv, u: &mut Unifier) -> (r: Result<(), SemanticError>)
        requires
            old(u).wf(),
            env_below(old(env).ev(), old(u).next_id as nat),
            below(return_ty@, old(u).next_id as nat),
            stmt_hm(self.cv(), cls@, return_ty@, old(env).ev(), old(u).sv(), stmt@).2.len() <= u32::MAX,
        ensures
            final(u).wf(),
            final(u).next_id >= old(u).next_id,
            (uview(r), final(env).ev(), final(u).sv()) == stmt_hm(self.cv(), cls@, return_ty@, old(env).ev(), old(u).sv(), stmt@),
            env_below(final(env).ev(), final(u).next_id as nat),
        decreases stmt,
    {
        let ghost e0 = env.ev();
        let ghost s0 = u.sv();
        proof {
            lemma_stmt_hm_len(self.cv(), cls@, return_ty@, e0, s0, stmt@);
        }
        match stmt {
            Stmt::Let { name, ty, init } => {
                proof {
                    let (r0, s1) = infer_spec(self.cv(), e0, cls@, s0, init@);
                    match r0 {
                        Ok(t0) => match ty {
                            Some(declared) => {
                                lemma_unify_keeps_len(s1, t0, from_ast(declared@));
                            },
                            None => {},
                        },
                        Err(_) => {},
                    }
                }
                let inferred = match self.infer_expr_hm(init, env, cls, u) {
                    Ok(t) => t,
                    Err(e) => {
                        return Err(e);
                    },
                };
                proof {
                    lemma_env_below_mono(e0, s0.len(), u.next_id as nat);
                }
                match ty {
                    Some(declared) => {
                        let d = HmType::from_ast(declared);
                        proof {
                            lemma_from_ast_below(declared@, u.next_id as nat);
                        }
                        match unify_or_exec(u, &inferred, &d, d.display()) {
                            Ok(()) => {},
                            Err(e) => {
                                return Err(e);
                            },
                        }
                        proof {
                            lemma_resolve_below(u.sv(), d@);
                        }
                        let t = u.apply(&d);
                        proof {
                            lemma_env_put_below(e0, name@, mono(t@), u.next_id as nat);
                        }
                        env.insert(name.clone(), TypeScheme::mono(t));
                        Ok(())
                    },
                    None => {
                        proof {
                            lemma_resolve_below(u.sv(), inferred@);
                        }
                        let sc = generalize(env, &inferred, u);
                        proof {
                            lemma_env_put_below(e0, name@, sc@, u.next_id as nat);
                        }
                        env.insert(name.clone(), sc);
                        Ok(())
                    },
                }
            },
            Stmt::Return { expr: Some(x), span } => {
                if matches!(return_ty, HmType::Void) {
                    return Ok(());
                }
                proof {
                    let (r0, s1) = infer_spec(self.cv(), e0, cls@, s0, x@);
                    match r0 {
                        Ok(f0) => {
                            lemma_unify_keeps_len(s1, resolve(s1, f0), resolve(s1, return_ty@));
                        },
                        Err(_) => {},
                    }
                }
                let found = match self.infer_expr_hm(x, env, cls, u) {
                    Ok(t) => t,
                    Err(e) => {
                        return Err(e);
                    },
                };
                proof {
                    lemma_resolve_below(u.sv(), found@);
                    lemma_resolve_below(u.sv(), return_ty@);
                    lemma_env_below_mono(e0, s0.len(), u.next_id as nat);
                }
                let fr = u.apply(&found);
                let rr = u.apply(return_ty);
                if !matches!(fr, HmType::Var(_)) && !matches!(rr, HmType::Var(_)) {
                    match u.unify(&fr, &rr) {
                        Ok(()) => {},
                        Err(_) => {
                            return Err(SemanticError::TypeMismatch { expected: rr.display(), found: fr.display(), span: *span });
                        },
                    }
                }
                Ok(())
            },
            Stmt::If { then_body, else_body, .. } => {
                let mut then_env = env.duplicate();
                proof {
                    let (r1, _, s1) = stmts_hm(self.cv(), cls@, return_ty@, e0, s0, stmts_view(then_body@));
                    match else_body {
                        Some(eb) => {
                            lemma_stmts_hm_len(self.cv(), cls@, return_ty@, e0, s1, stmts_view(eb@));
                        },
                        None => {},
                    }
                }
                match self.check_stmts_hm(then_body, return_ty, cls, &mut then_env, u) {
                    Ok(()) => {},
                    Err(e) => {
                        return Err(e);
                    },
                }
                proof {
                    lemma_env_below_mono(e0, s0.len(), u.next_id as nat);
                }
                match else_body {
                    Some(eb) => {
                        let mut else_env = env.duplicate();
                        proof {
                            assert(below(return_ty@, u.next_id as nat));
                        }
                        let res = self.check_stmts_hm(eb, return_ty, cls, &mut else_env, u);
                        proof {
                            lemma_env_below_mono(e0, s0.len(), u.next_id as nat);
                        }
                        res
                    },
                    None => Ok(()),
                }
            },
            Stmt::While { body, .. } => {
                let mut inner = env.duplicate();
                let res = self.check_stmts_hm(body, return_ty, cls, &mut inner, u);
                proof {
                    lemma_env_below_mono(e0, s0.len(), u.next_id as nat);
                }
                res
            },
            Stmt::For { var, body, .. } => {
                let mut inner = env.duplicate();
                proof {
                    let (v0, s1) = fresh_var(s0);
                    lemma_stmts_hm_len(self.cv(), cls@, return_ty@, env_put(e0, var@, mono(v0)), s1, stmts_view(body@));
                }
                let v = u.fresh();
                proof {
                    lemma_env_below_mono(e0, s0.len(), u.next_id as nat);
                    lemma_env_put_below(e0, var@, mono(SpecHm::Var(v)), u.next_id as nat);
                }
                inner.insert(var.clone(), TypeScheme::mono(HmType::Var(v)));
                let res = self.check_stmts_hm(body, return_ty, cls, &mut inner, u);
                proof {
                    lemma_env_below_mono(e0, s0.len(), u.next_id as nat);
                }
                res
            },
            _ => Ok(()),
        }
    }

    /// Checks statements in order, up to the first failure.
    pub fn check_stmts_hm(&self, stmts: &Vec<Stmt>, return_ty: &HmType, cls: &ClassDecl, env: &mut HmEnv, u: &mut Unifier) -> (r: Result<(), SemanticError>)
        requires
            old(u).wf(),
            env_below(old(env).ev(), old(u).next_id as nat),
            below(return_ty@, old(u).next_id as nat),
            stmts_hm(self.cv(), cls@, return_ty@, old(env).ev(), old(u).sv(), stmts_view(stmts@)).2.len() <= u32::MAX,
        ensures
            final(u).wf(),
            final(u).next_id >= old(u).next_id,
            (uview(r), final(env).ev(), final(u).sv()) == stmts_hm(self.cv(), cls@, return_ty@, old(env).ev(), old(u).sv(), stmts_view(stmts@)),
            env_below(final(env).ev(), final(u).next_id as nat),
        decreases stmts,
    {
        let ghost e0 = env.ev();
        let ghost s0 = u.sv();
        let ghost sv = stmts_view(stmts@);
        let ghost cs = self.cv();
        proof {
            crate::ast::lemma_stmts_view(stmts@);
            assert(sv.take(0) =~= Seq::<SpecStmt>::empty());
            lemma_stmts_hm_prefix(cs, cls@, return_ty@, e0, s0, sv, 0);
        }
        let mut i: usize = 0;
        while i < stmts.len()
            invariant
                u.wf(),
                s0 == old(u).sv(),
                e0 == old(env).ev(),
                s0.len() == old(u).next_id as nat,
                u.next_id >= s0.len(),
                i <= stmts@.len(),
                sv == stmts_view(stmts@),
                sv.len() == stmts@.len(),
                forall|j: int| 0 <= j < stmts@.len() ==> #[trigger] sv[j] == stmts@[j]@,
                cs == self.cv(),
                below(return_ty@, u.next_id as nat),
                env_below(env.ev(), u.next_id as nat),
                stmts_hm(cs, cls@, return_ty@, e0, s0, sv.take(i as int)) == (Ok::<(), SpecSemErr>(()), env.ev(), u.sv()),
                stmts_hm(cs, cls@, return_ty@, e0, s0, sv).2.len() <= u32::MAX,
            decreases stmts.len() - i,
        {
            proof {
                assert(sv.take(i + 1).drop_last() =~= sv.take(i as int));
                assert(sv.take(i + 1).last() == sv[i as int]);
                lemma_stmts_hm_prefix(cs, cls@, return_ty@, e0, s0, sv, i + 1);
                assert(decreases_to!(stmts => stmts@));
                assert(decreases_to!(stmts@ => stmts@[i as int]));
            }
            let res = self.check_stmt_hm(&stmts[i], return_ty, cls, env, u);
            match res {
                Ok(()) => {},
                Err(e) => {
                    proof {
                        lemma_stmts_hm_prefix(cs, cls@, return_ty@, e0, s0, sv, i + 1);
                    }
                    return Err(e);
                },
            }
            i = i + 1;
        }
        proof {
            assert(sv.take(stmts@.len() as int) =~= sv);
        }
        Ok(())
    }
}

proof fn lemma_params_env_below(env: SEnv, ps: Seq<SpecParam>, n: nat)
    requires
        env_below(env, n),
    ensures
        env_below(params_env(env, ps), n),
    decreases ps.len(),
{
    if ps.len() > 0 {
        lemma_params_env_below(env, ps.drop_last(), n);
        lemma_from_ast_below(ps.last().ty, n);
        lemma_env_put_below(params_env(env, ps.drop_last()), ps.last().name, mono(from_ast(ps.last().ty)), n);
    }
}

proof fn lemma_methods_hm_err(cs: Seq<SpecClassDecl>, cls: SpecClassDecl, k: nat, k2: nat)
    requires
        k <= k2 <= cls.methods.len(),
        methods_hm(cs, cls, k) is Err,
    ensures
        methods_hm(cs, cls, k2) == methods_hm(cs, cls, k),
    decreases k2 - k,
{
    if k < k2 {
        lemma_methods_hm_err(cs, cls, k, (k2 - 1) as nat);
    }
}

/// The environment of a class's fields.
fn fields_env_exec(fs: &Vec<Field>) -> (e: HmEnv)
    ensures
        e.ev() == fields_env(views(fs@)),
{
    let ghost fv = views(fs@);
    let mut e = HmEnv::new();
    let mut i: usize = 0;
    assert(fv.take(0) =~= Seq::<SpecField>::empty());
    while i < fs.len()
        invariant
            i <= fs@.len(),
            fv == views(fs@),
            e.ev() == fields_env(fv.take(i as int)),
        decreases fs.len() - i,
    {
        assert(fv.take(i + 1).drop_last() =~= fv.take(i as int));
        assert(fv.take(i + 1).last() == fs@[i as int]@);
        let t = HmType::from_ast(&fs[i].ty);
        e.insert(fs[i].name.clone(), TypeScheme::mono(t));
        i = i + 1;
    }
    assert(fv.take(fs@.len() as int) =~= fv);
    e
}

/// Adds the parameters to `env`.
fn add_params(env: &mut HmEnv, ps: &Vec<Param>)
    ensures
        final(env).ev() == params_env(old(env).ev(), views(ps@)),
{
    let ghost pv = views(ps@);
    let ghost e0 = env.ev();
    let mut i: usize = 0;
    assert(pv.take(0) =~= Seq::<SpecParam>::empty());
    while i < ps.len()
        invariant
            i <= ps@.len(),
            pv == views(ps@),
            env.ev() == params_env(e0, pv.take(i as int)),
        decreases ps.len() - i,
    {
        assert(pv.take(i + 1).drop_last() =~= pv.take(i as int));
        assert(pv.take(i + 1).last() == ps@[i as int]@);
        let t = HmType::from_ast(&ps[i].ty);
        env.insert(ps[i].name.clone(), TypeScheme::mono(t));
        i = i + 1;
    }
    assert(pv.take(ps@.len() as int) =~= pv);
}

impl SemanticAnalyzer {
    /// Pass 7 on a class: the constructor's body and then each method's
    /// body are checked, each with its own unifier and with the fields and
    /// parameters as monotypes.
    pub fn check_class_hm(&self, cls: &ClassDecl) -> (r: Result<(), SemanticError>)
        requires
            class_fits(self.cv(), cls@),
        ensures
            uview(r) == class_hm(self.cv(), cls@),
    {
        let ghost cs = self.cv();
        let field_env = fields_env_exec(&cls.fields);
        proof {
            lemma_fields_env_below(views(cls.fields@), 0);
        }
        match &cls.constructor {
            Some(ctor) => {
                let mut env = field_env.duplicate();
                add_params(&mut env, &ctor.params);
                proof {
                    lemma_params_env_below(field_env.ev(), views(ctor.params@), 0);
                    lemma_from_ast_below(SpecType::Void, 0);
                }
                let mut u = Unifier::new();
                match self.check_stmts_hm(&ctor.body, &HmType::Void, cls, &mut env, &mut u) {
                    Ok(()) => {},
                    Err(e) => {
                        return Err(e);
                    },
                }
            },
            None => {},
        }
        let mut k: usize = 0;
        while k < cls.methods.len()
            invariant
                k <= cls.methods@.len(),
                cs == self.cv(),
                class_fits(cs, cls@),
                field_env.ev() == fields_env(views(cls.fields@)),
                env_below(field_env.ev(), 0),
                ctor_hm(cs, cls@).0 is Ok,
                methods_hm(cs, cls@, k as nat) == Ok::<(), SpecSemErr>(()),
            decreases cls.methods.len() - k,
        {
            let method = &cls.methods[k];
            let mut env = field_env.duplicate();
            add_params(&mut env, &method.params);
            let ret_ty = HmType::from_ast(&method.return_type);
            proof {
                lemma_params_env_below(field_env.ev(), views(method.params@), 0);
                lemma_from_ast_below(method.return_type@, 0);
                assert(cls@.methods[k as int] == method@);
                assert(method_hm(cs, cls@, cls@.methods[k as int]).1.len() <= u32::MAX);
            }
            let mut u = Unifier::new();
            match self.check_stmts_hm(&method.body, &ret_ty, cls, &mut env, &mut u) {
                Ok(()) => {},
                Err(e) => {
                    proof {
                        lemma_methods_hm_err(cs, cls@, (k + 1) as nat, cls@.methods.len());
                    }
                    return Err(e);
                },
            }
            k = k + 1;
        }
        Ok(())
    }
}

} // verus!
