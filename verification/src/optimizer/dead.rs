//! Dead-code removal: only the declarations reachable from a route survive.
use vstd::prelude::*;
use crate::ast::{
    Declaration, Expr, Program, SpecProgram, SpecRoute, MatchArm, Param, SpecConstructor, SpecDeclaration, SpecEnumVariant, SpecExpr, SpecField,
    SpecMatchArm, SpecMethod, SpecMethodSig, SpecParam, SpecStmt, SpecType, Stmt, Type, arms_view, exprs_view,
    stmts_view, string_views, types_view, views,
};

verus! {

// ── The names a piece of syntax refers to ───────────────────────────────────

/// The class names a type mentions, in order.
pub open spec fn type_names(t: SpecType) -> Seq<Seq<char>>
    decreases t,
{
    match t {
        SpecType::Custom(n) => seq![n],
        SpecType::Generic(n) => seq![n],
        SpecType::List(inner) => type_names(*inner),
        SpecType::Function(ps, r) => types_names(ps) + type_names(*r),
        _ => Seq::empty(),
    }
}

/// The class names the types mention, in order.
pub open spec fn types_names(s: Seq<SpecType>) -> Seq<Seq<char>>
    decreases s,
{
    if s.len() == 0 {
        Seq::empty()
    } else {
        types_names(s.drop_last()) + type_names(s.last())
    }
}

/// The names the parameter types mention, in order.
pub open spec fn params_names(s: Seq<SpecParam>) -> Seq<Seq<char>>
    decreases s.len(),
{
    if s.len() == 0 {
        Seq::empty()
    } else {
        params_names(s.drop_last()) + type_names(s.last().ty)
    }
}

/// The names an expression refers to: callees and block tags, and the
/// types of lambda parameters, through calls, blocks, field accesses,
/// method calls, lambdas and operators.
pub open spec fn expr_names(e: SpecExpr) -> Seq<Seq<char>>
    decreases e,
{
    match e {
        SpecExpr::Call { callee, args } => seq![callee] + exprs_names(args),
        SpecExpr::Block { tag, children } => seq![tag] + exprs_names(children),
        SpecExpr::FieldAccess(r, _) => expr_names(*r),
        SpecExpr::MethodCall { receiver, args, .. } => expr_names(*receiver) + exprs_names(args),
        SpecExpr::Lambda { params, body } => params_names(params) + expr_names(*body),
        SpecExpr::Binary { left, right, .. } => expr_names(*left) + expr_names(*right),
        SpecExpr::Unary { expr, .. } => expr_names(*expr),
        _ => Seq::empty(),
    }
}

/// The names the expressions refer to, in order.
pub open spec fn exprs_names(s: Seq<SpecExpr>) -> Seq<Seq<char>>
    decreases s,
{
    if s.len() == 0 {
        Seq::empty()
    } else {
        exprs_names(s.drop_last()) + expr_names(s.last())
    }
}

/// The names a statement refers to, through its expressions, declared
/// types and nested bodies.
pub open spec fn stmt_names(s: SpecStmt) -> Seq<Seq<char>>
    decreases s,
{
    match s {
        SpecStmt::Return { expr: Some(e), .. } => expr_names(e),
        SpecStmt::Assign { object, value, .. } => expr_names(object) + expr_names(value),
        SpecStmt::Let { ty, init, .. } => expr_names(init) + match ty {
            Some(t) => type_names(t),
            None => Seq::empty(),
        },
        SpecStmt::If { cond, then_body, else_body } => expr_names(cond) + stmts_names(then_body) + match else_body {
            Some(b) => stmts_names(b),
            None => Seq::empty(),
        },
        SpecStmt::While { cond, body } => expr_names(cond) + stmts_names(body),
        SpecStmt::For { iter, body, .. } => expr_names(iter) + stmts_names(body),
        SpecStmt::Expr(e) => expr_names(e),
        SpecStmt::Match { expr, arms } => expr_names(expr) + arms_names(arms),
        _ => Seq::empty(),
    }
}

/// The names the statements refer to, in order.
pub open spec fn stmts_names(s: Seq<SpecStmt>) -> Seq<Seq<char>>
    decreases s,
{
    if s.len() == 0 {
        Seq::empty()
    } else {
        stmts_names(s.drop_last()) + stmt_names(s.last())
    }
}

/// The names the body of a `match` arm refers to.
pub open spec fn arm_names(a: SpecMatchArm) -> Seq<Seq<char>>
    decreases a,
{
    stmts_names(a.body)
}

/// The names the `match` arms refer to, in order.
pub open spec fn arms_names(s: Seq<SpecMatchArm>) -> Seq<Seq<char>>
    decreases s,
{
    if s.len() == 0 {
        Seq::empty()
    } else {
        arms_names(s.drop_last()) + arm_names(s.last())
    }
}

/// The name a declaration introduces.
pub open spec fn decl_name(d: SpecDeclaration) -> Seq<char> {
    match d {
        SpecDeclaration::Class(c) => c.name,
        SpecDeclaration::Interface(i) => i.name,
        SpecDeclaration::Enum(e) => e.name,
        SpecDeclaration::Test(t) => t.name,
    }
}

/// The name, if there is one.
pub open spec fn opt_name(n: Option<Seq<char>>) -> Seq<Seq<char>> {
    match n {
        Some(e) => seq![e],
        None => Seq::empty(),
    }
}

/// The names the field types mention, in order.
pub open spec fn fields_names(s: Seq<SpecField>) -> Seq<Seq<char>>
    decreases s.len(),
{
    if s.len() == 0 {
        Seq::empty()
    } else {
        fields_names(s.drop_last()) + type_names(s.last().ty)
    }
}

/// The names a constructor refers to: parameter types, then its body.
pub open spec fn ctor_names(k: Option<SpecConstructor>) -> Seq<Seq<char>> {
    match k {
        Some(k) => params_names(k.params) + stmts_names(k.body),
        None => Seq::empty(),
    }
}

/// The names a method refers to: return type, parameter types, body.
pub open spec fn method_names(m: SpecMethod) -> Seq<Seq<char>> {
    type_names(m.return_type) + params_names(m.params) + stmts_names(m.body)
}

/// The names the methods refer to, in order.
pub open spec fn methods_names(s: Seq<SpecMethod>) -> Seq<Seq<char>>
    decreases s.len(),
{
    if s.len() == 0 {
        Seq::empty()
    } else {
        methods_names(s.drop_last()) + method_names(s.last())
    }
}

/// The names the method signatures refer to: return and parameter types.
pub open spec fn sigs_names(s: Seq<SpecMethodSig>) -> Seq<Seq<char>>
    decreases s.len(),
{
    if s.len() == 0 {
        Seq::empty()
    } else {
        sigs_names(s.drop_last()) + type_names(s.last().return_type) + params_names(s.last().params)
    }
}

/// The names the payload types of the variants mention.
pub open spec fn variants_names(s: Seq<SpecEnumVariant>) -> Seq<Seq<char>>
    decreases s.len(),
{
    if s.len() == 0 {
        Seq::empty()
    } else {
        variants_names(s.drop_last()) + types_names(s.last().fields)
    }
}

/// The names a declaration refers to: for a class its parent, its
/// interfaces, field types, constructor and methods; for an interface its
/// signatures; for an enum its payload types; for a test its body.
pub open spec fn decl_names(d: SpecDeclaration) -> Seq<Seq<char>> {
    match d {
        SpecDeclaration::Class(c) => opt_name(c.extends) + c.implements + fields_names(c.fields) + ctor_names(
            c.constructor,
        ) + methods_names(c.methods),
        SpecDeclaration::Interface(i) => sigs_names(i.methods),
        SpecDeclaration::Enum(e) => variants_names(e.variants),
        SpecDeclaration::Test(t) => stmts_names(t.body),
    }
}

// ── Collecting them ─────────────────────────────────────────────────────────

/// Appends `n` to `out`.
fn push_name(out: &mut Vec<String>, n: &String)
    ensures
        string_views(final(out)@) == string_views(old(out)@) + seq![n@],
{
    out.push(n.clone());
    assert(string_views(out@) =~= string_views(old(out)@) + seq![n@]);
}

/// Appends the names the type mentions to `out`.
#[verifier::loop_isolation(false)]
fn collect_type_names(ty: &Type, out: &mut Vec<String>)
    ensures
        string_views(final(out)@) == string_views(old(out)@) + type_names(ty@),
    decreases ty,
{
    match ty {
        Type::Custom(n) | Type::Generic(n) => push_name(out, n),
        Type::List(inner) => collect_type_names(inner, out),
        Type::Function(params, ret) => {
            let ghost start = string_views(out@);
            let mut i: usize = 0;
            while i < params.len()
                invariant
                    i <= params.len(),
                    string_views(out@) == start + types_names(types_view(params@.take(i as int))),
                decreases params.len() - i,
            {
                proof {
                    assert(decreases_to!(params => params@));
                    assert(decreases_to!(params@ => params@[i as int]));
                    assert(params@.take(i + 1).drop_last() =~= params@.take(i as int));
                }
                let ghost before = string_views(out@);
                let ghost tv = types_view(params@.take(i + 1));
                assert(tv == types_view(params@.take(i as int)).push(params@[i as int]@));
                assert(tv.drop_last() =~= types_view(params@.take(i as int)));
                collect_type_names(&params[i], out);
                assert(start + types_names(types_view(params@.take(i + 1))) =~= before + type_names(
                    params@[i as int]@,
                ));
                i = i + 1;
            }
            assert(params@.take(params.len() as int) =~= params@);
            let ghost mid = string_views(out@);
            collect_type_names(ret, out);
            assert(string_views(out@) =~= start + type_names(ty@));
        },
        _ => {
            assert(string_views(out@) =~= string_views(out@) + type_names(ty@));
        },
    }
}

/// Appends the names the parameter types mention to `out`.
fn collect_params_names(params: &Vec<Param>, out: &mut Vec<String>)
    ensures
        string_views(final(out)@) == string_views(old(out)@) + params_names(views(params@)),
{
    let ghost start = string_views(out@);
    let mut i: usize = 0;
    while i < params.len()
        invariant
            i <= params.len(),
            string_views(out@) == start + params_names(views(params@.take(i as int))),
        decreases params.len() - i,
    {
        assert(views(params@.take(i + 1)).drop_last() =~= views(params@.take(i as int)));
        assert(views(params@.take(i + 1)).last() == params@[i as int]@);
        let ghost before = string_views(out@);
        collect_type_names(&params[i].ty, out);
        assert(start + params_names(views(params@.take(i + 1))) =~= before + type_names(params@[i as int]@.ty));
        i = i + 1;
    }
    assert(params@.take(params.len() as int) =~= params@);
}

/// Appends the names the expression refers to to `out`.
#[verifier::loop_isolation(false)]
fn collect_expr_names(expr: &Expr, out: &mut Vec<String>)
    ensures
        string_views(final(out)@) == string_views(old(out)@) + expr_names(expr@),
    decreases expr, 1nat,
{
    let ghost start = string_views(out@);
    match expr {
        Expr::Call { callee, args } => {
            push_name(out, callee);
            collect_exprs_names(args, out);
            assert(string_views(out@) =~= start + expr_names(expr@));
        },
        Expr::Block { tag, children } => {
            push_name(out, tag);
            collect_exprs_names(children, out);
            assert(string_views(out@) =~= start + expr_names(expr@));
        },
        Expr::FieldAccess(e, _) => collect_expr_names(e, out),
        Expr::MethodCall { receiver, args, .. } => {
            collect_expr_names(receiver, out);
            collect_exprs_names(args, out);
            assert(string_views(out@) =~= start + expr_names(expr@));
        },
        Expr::Lambda { params, body } => {
            collect_params_names(params, out);
            collect_expr_names(body, out);
            assert(string_views(out@) =~= start + expr_names(expr@));
        },
        Expr::Binary { left, right, .. } => {
            collect_expr_names(left, out);
            collect_expr_names(right, out);
            assert(string_views(out@) =~= start + expr_names(expr@));
        },
        Expr::Unary { expr: inner, .. } => collect_expr_names(inner, out),
        _ => {
            assert(string_views(out@) =~= start + expr_names(expr@));
        },
    }
}

/// Appends the names the expressions refer to to `out`.
#[verifier::loop_isolation(false)]
fn collect_exprs_names(v: &Vec<Expr>, out: &mut Vec<String>)
    ensures
        string_views(final(out)@) == string_views(old(out)@) + exprs_names(exprs_view(v@)),
    decreases v, 0nat,
{
    let ghost start = string_views(out@);
    let mut i: usize = 0;
    while i < v.len()
        invariant
            i <= v.len(),
            string_views(out@) == start + exprs_names(exprs_view(v@.take(i as int))),
        decreases v.len() - i,
    {
        proof {
            assert(decreases_to!(v => v@));
            assert(decreases_to!(v@ => v@[i as int]));
            assert(v@.take(i + 1).drop_last() =~= v@.take(i as int));
        }
        let ghost before = string_views(out@);
        let ghost ev = exprs_view(v@.take(i + 1));
        assert(ev == exprs_view(v@.take(i as int)).push(v@[i as int]@));
        assert(ev.drop_last() =~= exprs_view(v@.take(i as int)));
        collect_expr_names(&v[i], out);
        assert(start + exprs_names(exprs_view(v@.take(i + 1))) =~= before + expr_names(v@[i as int]@));
        i = i + 1;
    }
    assert(v@.take(v.len() as int) =~= v@);
}

/// Appends the names the statement refers to to `out`.
#[verifier::loop_isolation(false)]
fn collect_stmt_names(stmt: &Stmt, out: &mut Vec<String>)
    ensures
        string_views(final(out)@) == string_views(old(out)@) + stmt_names(stmt@),
    decreases stmt, 1nat,
{
    let ghost start = string_views(out@);
    match stmt {
        Stmt::Return { expr: Some(e), .. } => collect_expr_names(e, out),
        Stmt::Return { expr: None, .. } => {
            assert(string_views(out@) =~= start + stmt_names(stmt@));
        },
        Stmt::Assign { object, value, .. } => {
            collect_expr_names(object, out);
            collect_expr_names(value, out);
            assert(string_views(out@) =~= start + stmt_names(stmt@));
        },
        Stmt::Let { init, ty, .. } => {
            collect_expr_names(init, out);
            if let Some(t) = ty {
                collect_type_names(t, out);
            }
            assert(string_views(out@) =~= start + stmt_names(stmt@));
        },
        Stmt::If { cond, then_body, else_body } => {
            collect_expr_names(cond, out);
            collect_stmts_names(then_body, out);
            if let Some(eb) = else_body {
                collect_stmts_names(eb, out);
            }
            assert(string_views(out@) =~= start + stmt_names(stmt@));
        },
        Stmt::While { cond, body } => {
            collect_expr_names(cond, out);
            collect_stmts_names(body, out);
            assert(string_views(out@) =~= start + stmt_names(stmt@));
        },
        Stmt::For { iter, body, .. } => {
            collect_expr_names(iter, out);
            collect_stmts_names(body, out);
            assert(string_views(out@) =~= start + stmt_names(stmt@));
        },
        Stmt::Break | Stmt::Continue => {
            assert(string_views(out@) =~= start + stmt_names(stmt@));
        },
        Stmt::Expr(e) => collect_expr_names(e, out),
        Stmt::Match { expr, arms } => {
            collect_expr_names(expr, out);
            collect_arms_names(arms, out);
            assert(string_views(out@) =~= start + stmt_names(stmt@));
        },
    }
}

/// Appends the names the statements refer to to `out`.
#[verifier::loop_isolation(false)]
fn collect_stmts_names(v: &Vec<Stmt>, out: &mut Vec<String>)
    ensures
        string_views(final(out)@) == string_views(old(out)@) + stmts_names(stmts_view(v@)),
    decreases v, 0nat,
{
    let ghost start = string_views(out@);
    let mut i: usize = 0;
    while i < v.len()
        invariant
            i <= v.len(),
            string_views(out@) == start + stmts_names(stmts_view(v@.take(i as int))),
        decreases v.len() - i,
    {
        proof {
            assert(decreases_to!(v => v@));
            assert(decreases_to!(v@ => v@[i as int]));
            assert(v@.take(i + 1).drop_last() =~= v@.take(i as int));
        }
        let ghost before = string_views(out@);
        let ghost sv = stmts_view(v@.take(i + 1));
        assert(sv == stmts_view(v@.take(i as int)).push(v@[i as int]@));
        assert(sv.drop_last() =~= stmts_view(v@.take(i as int)));
        collect_stmt_names(&v[i], out);
        assert(start + stmts_names(stmts_view(v@.take(i + 1))) =~= before + stmt_names(v@[i as int]@));
        i = i + 1;
    }
    assert(v@.take(v.len() as int) =~= v@);
}

/// Appends the names the bodies of the arms refer to to `out`.
#[verifier::loop_isolation(false)]
fn collect_arms_names(v: &Vec<MatchArm>, out: &mut Vec<String>)
    ensures
        string_views(final(out)@) == string_views(old(out)@) + arms_names(arms_view(v@)),
    decreases v, 0nat,
{
    let ghost start = string_views(out@);
    let mut i: usize = 0;
    while i < v.len()
        invariant
            i <= v.len(),
            string_views(out@) == start + arms_names(arms_view(v@.take(i as int))),
        decreases v.len() - i,
    {
        proof {
            assert(decreases_to!(v => v@));
            assert(decreases_to!(v@ => v@[i as int]));
            assert(decreases_to!(v@[i as int] => v@[i as int].body));
            assert(v@.take(i + 1).drop_last() =~= v@.take(i as int));
        }
        let ghost before = string_views(out@);
        let ghost av = arms_view(v@.take(i + 1));
        assert(av == arms_view(v@.take(i as int)).push(v@[i as int]@));
        assert(av.drop_last() =~= arms_view(v@.take(i as int)));
        collect_stmts_names(&v[i].body, out);
        assert(start + arms_names(arms_view(v@.take(i + 1))) =~= before + arm_names(v@[i as int]@));
        i = i + 1;
    }
    assert(v@.take(v.len() as int) =~= v@);
}

/// The name the declaration introduces.
fn decl_name_of(decl: &Declaration) -> (r: &String)
    ensures
        r@ == decl_name(decl@),
{
    match decl {
        Declaration::Class(c) => &c.name,
        Declaration::Interface(i) => &i.name,
        Declaration::Enum(e) => &e.name,
        Declaration::Test(t) => &t.name,
    }
}

/// Appends the names the declaration refers to to `out`.
fn collect_decl_names(decl: &Declaration, out: &mut Vec<String>)
    ensures
        string_views(final(out)@) == string_views(old(out)@) + decl_names(decl@),
{
    let ghost start = string_views(out@);
    match decl {
        Declaration::Class(c) => {
            if let Some(e) = &c.extends {
                push_name(out, e);
            }
            let ghost s1 = string_views(out@);
            assert(s1 =~= start + opt_name(c@.extends));
            let mut i: usize = 0;
            while i < c.implements.len()
                invariant
                    i <= c.implements.len(),
                    string_views(out@) == s1 + string_views(c.implements@.take(i as int)),
                decreases c.implements.len() - i,
            {
                let ghost before = string_views(out@);
                push_name(out, &c.implements[i]);
                assert(string_views(c.implements@.take(i + 1)) =~= string_views(c.implements@.take(i as int)).push(
                    c.implements@[i as int]@,
                ));
                i = i + 1;
            }
            assert(c.implements@.take(c.implements.len() as int) =~= c.implements@);
            let ghost s2 = string_views(out@);
            let mut i: usize = 0;
            while i < c.fields.len()
                invariant
                    i <= c.fields.len(),
                    string_views(out@) == s2 + fields_names(views(c.fields@.take(i as int))),
                decreases c.fields.len() - i,
            {
                assert(views(c.fields@.take(i + 1)).drop_last() =~= views(c.fields@.take(i as int)));
                assert(views(c.fields@.take(i + 1)).last() == c.fields@[i as int]@);
                let ghost before = string_views(out@);
                collect_type_names(&c.fields[i].ty, out);
                assert(s2 + fields_names(views(c.fields@.take(i + 1))) =~= before + type_names(
                    c.fields@[i as int]@.ty,
                ));
                i = i + 1;
            }
            assert(c.fields@.take(c.fields.len() as int) =~= c.fields@);
            let ghost s3 = string_views(out@);
            if let Some(ctor) = &c.constructor {
                collect_params_names(&ctor.params, out);
                collect_stmts_names(&ctor.body, out);
            }
            assert(string_views(out@) =~= s3 + ctor_names(c@.constructor));
            let ghost s4 = string_views(out@);
            let mut i: usize = 0;
            while i < c.methods.len()
                invariant
                    i <= c.methods.len(),
                    string_views(out@) == s4 + methods_names(views(c.methods@.take(i as int))),
                decreases c.methods.len() - i,
            {
                assert(views(c.methods@.take(i + 1)).drop_last() =~= views(c.methods@.take(i as int)));
                assert(views(c.methods@.take(i + 1)).last() == c.methods@[i as int]@);
                let ghost before = string_views(out@);
                let m = &c.methods[i];
                collect_type_names(&m.return_type, out);
                collect_params_names(&m.params, out);
                collect_stmts_names(&m.body, out);
                assert(s4 + methods_names(views(c.methods@.take(i + 1))) =~= before + method_names(m@));
                i = i + 1;
            }
            assert(c.methods@.take(c.methods.len() as int) =~= c.methods@);
            assert(string_views(out@) =~= start + decl_names(decl@));
        },
        Declaration::Interface(it) => {
            let mut i: usize = 0;
            while i < it.methods.len()
                invariant
                    i <= it.methods.len(),
                    string_views(out@) == start + sigs_names(views(it.methods@.take(i as int))),
                decreases it.methods.len() - i,
            {
                assert(views(it.methods@.take(i + 1)).drop_last() =~= views(it.methods@.take(i as int)));
                assert(views(it.methods@.take(i + 1)).last() == it.methods@[i as int]@);
                let ghost before = string_views(out@);
                let sig = &it.methods[i];
                collect_type_names(&sig.return_type, out);
                collect_params_names(&sig.params, out);
                assert(start + sigs_names(views(it.methods@.take(i + 1))) =~= before + type_names(sig@.return_type)
                    + params_names(sig@.params));
                i = i + 1;
            }
            assert(it.methods@.take(it.methods.len() as int) =~= it.methods@);
        },
        Declaration::Enum(en) => {
            let mut i: usize = 0;
            while i < en.variants.len()
                invariant
                    i <= en.variants.len(),
                    string_views(out@) == start + variants_names(views(en.variants@.take(i as int))),
                decreases en.variants.len() - i,
            {
                assert(views(en.variants@.take(i + 1)).drop_last() =~= views(en.variants@.take(i as int)));
                assert(views(en.variants@.take(i + 1)).last() == en.variants@[i as int]@);
                let ghost before = string_views(out@);
                let fields = &en.variants[i].fields;
                let mut j: usize = 0;
                while j < fields.len()
                    invariant
                        j <= fields.len(),
                        string_views(out@) == before + types_names(types_view(fields@.take(j as int))),
                    decreases fields.len() - j,
                {
                    let ghost mid = string_views(out@);
                    let ghost tv = types_view(fields@.take(j + 1));
                    assert(fields@.take(j + 1).drop_last() =~= fields@.take(j as int));
                    assert(tv == types_view(fields@.take(j as int)).push(fields@[j as int]@));
                    assert(tv.drop_last() =~= types_view(fields@.take(j as int)));
                    collect_type_names(&fields[j], out);
                    assert(before + types_names(tv) =~= mid + type_names(fields@[j as int]@));
                    j = j + 1;
                }
                assert(fields@.take(fields.len() as int) =~= fields@);
                assert(start + variants_names(views(en.variants@.take(i + 1))) =~= before + types_names(
                    en.variants@[i as int]@.fields,
                ));
                i = i + 1;
            }
            assert(en.variants@.take(en.variants.len() as int) =~= en.variants@);
        },
        Declaration::Test(t) => collect_stmts_names(&t.body, out),
    }
}

// ── Liveness ────────────────────────────────────────────────────────────────

/// The targets of the routes.
pub open spec fn route_targets(p: SpecProgram) -> Set<Seq<char>> {
    p.routes.map_values(|r: SpecRoute| r.target).to_set()
}

/// `s` is closed under the declarations: with the name of a declaration it
/// holds every name the declaration refers to.
pub open spec fn closed_under(ds: Seq<SpecDeclaration>, s: Set<Seq<char>>) -> bool {
    forall|i: int|
        0 <= i < ds.len() && s.contains(decl_name(#[trigger] ds[i])) ==> decl_names(ds[i]).to_set().subset_of(s)
}

/// `l` lies within every closed set that holds the route targets.
pub open spec fn below_closed(p: SpecProgram, l: Set<Seq<char>>) -> bool {
    forall|s: Set<Seq<char>>|
        closed_under(p.declarations, s) && route_targets(p).subset_of(s) ==> #[trigger] l.subset_of(s)
}

/// The live names: those in every set that holds the route targets and is
/// closed under the declarations (the names reachable from a route).
pub open spec fn live_names(p: SpecProgram) -> Set<Seq<char>> {
    Set::new(
        |n: Seq<char>|
            forall|s: Set<Seq<char>>|
                closed_under(p.declarations, s) && route_targets(p).subset_of(s) ==> #[trigger] s.contains(n),
    )
}

/// The declarations whose names lie in `live`, in order.
pub open spec fn keep_named(ds: Seq<SpecDeclaration>, live: Set<Seq<char>>) -> Seq<SpecDeclaration>
    decreases ds.len(),
{
    if ds.len() == 0 {
        Seq::empty()
    } else if live.contains(decl_name(ds.last())) {
        keep_named(ds.drop_last(), live).push(ds.last())
    } else {
        keep_named(ds.drop_last(), live)
    }
}

/// Dead-code removal: the program keeps the declarations whose names are live.
pub open spec fn prune(p: SpecProgram) -> SpecProgram {
    SpecProgram { declarations: keep_named(p.declarations, live_names(p)), ..p }
}

/// Every name any declaration refers to, in order.
pub open spec fn all_decl_names(ds: Seq<SpecDeclaration>) -> Seq<Seq<char>>
    decreases ds.len(),
{
    if ds.len() == 0 {
        Seq::empty()
    } else {
        all_decl_names(ds.drop_last()) + decl_names(ds.last())
    }
}

/// The names of one declaration are among those of all of them.
proof fn lemma_all_decl_names(ds: Seq<SpecDeclaration>, i: int)
    requires
        0 <= i < ds.len(),
    ensures
        decl_names(ds[i]).to_set().subset_of(all_decl_names(ds).to_set()),
    decreases ds.len(),
{
    let a = all_decl_names(ds);
    let pre = all_decl_names(ds.drop_last());
    assert(a == pre + decl_names(ds.last()));
    if i == ds.len() - 1 {
        assert forall|n: Seq<char>| decl_names(ds[i]).to_set().contains(n) implies a.to_set().contains(n) by {
            let k = choose|k: int| 0 <= k < decl_names(ds[i]).len() && decl_names(ds[i])[k] == n;
            assert(a[pre.len() + k] == n);
        }
    } else {
        lemma_all_decl_names(ds.drop_last(), i);
        assert(ds.drop_last()[i] == ds[i]);
        assert forall|n: Seq<char>| decl_names(ds[i]).to_set().contains(n) implies a.to_set().contains(n) by {
            assert(pre.to_set().contains(n));
            let k = choose|k: int| 0 <= k < pre.len() && pre[k] == n;
            assert(a[k] == n);
        }
    }
}

/// Adding the names of a live declaration keeps a set within every closed
/// set that holds the route targets.
proof fn lemma_below_closed_add(p: SpecProgram, l: Set<Seq<char>>, i: int)
    requires
        below_closed(p, l),
        0 <= i < p.declarations.len(),
        l.contains(decl_name(p.declarations[i])),
    ensures
        below_closed(p, l + decl_names(p.declarations[i]).to_set()),
{
    assert forall|s: Set<Seq<char>>|
        closed_under(p.declarations, s) && route_targets(p).subset_of(s) implies #[trigger] (l + decl_names(
        p.declarations[i],
    ).to_set()).subset_of(s) by {
        assert(l.subset_of(s));
        assert(s.contains(decl_name(p.declarations[i])));
    }
}

/// Pushing onto a sequence inserts into its set.
proof fn lemma_push_to_set(s: Seq<Seq<char>>, x: Seq<char>)
    ensures
        s.push(x).to_set() == s.to_set().insert(x),
{
    assert forall|n: Seq<char>| s.push(x).to_set().contains(n) implies s.to_set().insert(x).contains(n) by {
        let j = choose|j: int| 0 <= j < s.push(x).len() && s.push(x)[j] == n;
        if j < s.len() {
            assert(s[j] == n);
        }
    }
    assert forall|n: Seq<char>| s.to_set().insert(x).contains(n) implies s.push(x).to_set().contains(n) by {
        if n == x {
            assert(s.push(x)[s.len() as int] == n);
        } else {
            let j = choose|j: int| 0 <= j < s.len() && s[j] == n;
            assert(s.push(x)[j] == n);
        }
    }
    assert(s.push(x).to_set() =~= s.to_set().insert(x));
}

/// The names of a declaration are among the targets and all declaration names.
proof fn lemma_names_in_universe(t: Seq<Seq<char>>, ds: Seq<SpecDeclaration>, i: int)
    requires
        0 <= i < ds.len(),
    ensures
        decl_names(ds[i]).to_set().subset_of((t + all_decl_names(ds)).to_set()),
{
    lemma_all_decl_names(ds, i);
    let all = all_decl_names(ds);
    assert forall|n: Seq<char>| decl_names(ds[i]).to_set().contains(n) implies (t + all).to_set().contains(n) by {
        assert(all.to_set().contains(n));
        let j = choose|j: int| 0 <= j < all.len() && all[j] == n;
        assert((t + all)[t.len() + j] == n);
    }
}

/// Whether `name` is among `live`.
fn contains_name(live: &Vec<String>, name: &String) -> (b: bool)
    ensures
        b == string_views(live@).contains(name@),
{
    let mut i: usize = 0;
    while i < live.len()
        invariant
            i <= live.len(),
            forall|j: int| 0 <= j < i ==> live@[j]@ != name@,
        decreases live.len() - i,
    {
        if live[i].eq(name) {
            assert(string_views(live@)[i as int] == name@);
            return true;
        }
        i = i + 1;
    }
    assert forall|j: int| 0 <= j < live@.len() implies string_views(live@)[j] != name@ by {
        assert(string_views(live@)[j] == live@[j]@);
    }
    false
}

/// Adds each of `names` to `live` unless it is there already.
fn insert_names(live: &mut Vec<String>, names: &Vec<String>)
    requires
        string_views(old(live)@).no_duplicates(),
    ensures
        string_views(final(live)@).no_duplicates(),
        string_views(final(live)@).to_set() == string_views(old(live)@).to_set() + string_views(names@).to_set(),
        old(live)@.len() <= final(live)@.len(),
        string_views(final(live)@).subrange(0, old(live)@.len() as int) == string_views(old(live)@),
{
    let ghost start = string_views(live@);
    let mut i: usize = 0;
    while i < names.len()
        invariant
            i <= names.len(),
            start == string_views(old(live)@),
            string_views(live@).no_duplicates(),
            string_views(live@).to_set() == start.to_set() + string_views(names@.take(i as int)).to_set(),
            start.len() <= live@.len(),
            string_views(live@).subrange(0, start.len() as int) == start,
        decreases names.len() - i,
    {
        let ghost before = string_views(live@);
        let ghost x = names@[i as int]@;
        assert(string_views(names@.take(i + 1)) =~= string_views(names@.take(i as int)).push(x));
        proof {
            lemma_push_to_set(string_views(names@.take(i as int)), x);
        }
        if !contains_name(live, &names[i]) {
            live.push(names[i].clone());
            assert(string_views(live@) =~= before.push(x));
            assert(string_views(live@).subrange(0, start.len() as int) =~= before.subrange(0, start.len() as int));
            proof {
                lemma_push_to_set(before, x);
            }
        } else {
            assert(before.to_set().contains(x));
        }
        assert(string_views(live@).to_set() =~= start.to_set() + string_views(names@.take(i + 1)).to_set());
        i = i + 1;
    }
    assert(names@.take(names.len() as int) =~= names@);
}

/// Visits a declaration: when its name is live, the names it refers to
/// become live. Returns whether any name was added.
fn visit_decl(live: &mut Vec<String>, decl: &Declaration) -> (grew: bool)
    requires
        string_views(old(live)@).no_duplicates(),
    ensures
        string_views(final(live)@).no_duplicates(),
        string_views(final(live)@).to_set() == if string_views(old(live)@).to_set().contains(decl_name(decl@)) {
            string_views(old(live)@).to_set() + decl_names(decl@).to_set()
        } else {
            string_views(old(live)@).to_set()
        },
        grew == (final(live)@.len() > old(live)@.len()),
        old(live)@.len() <= final(live)@.len(),
        !grew ==> string_views(final(live)@) == string_views(old(live)@),
{
    let dname = decl_name_of(decl);
    if contains_name(live, dname) {
        let ghost before = live@;
        let before_len = live.len();
        let mut refs: Vec<String> = Vec::new();
        collect_decl_names(decl, &mut refs);
        assert(string_views(refs@) =~= decl_names(decl@));
        insert_names(live, &refs);
        if live.len() > before_len {
            true
        } else {
            assert(string_views(live@) =~= string_views(before));
            false
        }
    } else {
        proof {
            assert(string_views(live@).contains(dname@) <==> string_views(live@).to_set().contains(dname@));
        }
        false
    }
}

/// Removes every declaration that no route reaches, directly or through
/// the names the reached declarations refer to.
pub(crate) fn remove_dead_code(program: Program) -> (r: Program)
    ensures
        r@ == prune(program@),
{
    let ghost p = program@;
    let ghost ds = p.declarations;
    let ghost seeds = route_targets(p);
    let Program { name, package, imports, server, declarations, routes } = program;
    // Seed: all route targets are live
    let mut targets: Vec<String> = Vec::new();
    let mut k: usize = 0;
    while k < routes.len()
        invariant
            k <= routes.len(),
            p.routes == views(routes@),
            string_views(targets@) == p.routes.take(k as int).map_values(|r: SpecRoute| r.target),
        decreases routes.len() - k,
    {
        let ghost prev = string_views(targets@);
        targets.push(routes[k].target.clone());
        assert(p.routes[k as int] == routes@[k as int]@);
        assert(string_views(targets@) =~= prev.push(p.routes[k as int].target));
        assert(string_views(targets@) =~= p.routes.take(k + 1).map_values(|r: SpecRoute| r.target));
        k = k + 1;
    }
    assert(p.routes.take(routes.len() as int) =~= p.routes);
    let mut live: Vec<String> = Vec::new();
    assert(string_views(live@) =~= Seq::<Seq<char>>::empty());
    insert_names(&mut live, &targets);
    assert(string_views(live@).to_set() =~= seeds);
    let ghost universe = string_views(targets@) + all_decl_names(ds);
    proof {
        assert forall|n: Seq<char>| seeds.contains(n) implies universe.to_set().contains(n) by {
            let j = choose|j: int| 0 <= j < string_views(targets@).len() && string_views(targets@)[j] == n;
            assert(universe[j] == n);
        }
        universe.lemma_cardinality_of_set();
        string_views(live@).unique_seq_to_set();
        vstd::set_lib::lemma_len_subset(string_views(live@).to_set(), universe.to_set());
    }
    // Collect names referenced in live declarations until nothing is added
    let mut changed = true;
    while changed
        invariant
            ds == views(declarations@),
            p.declarations == ds,
            seeds == route_targets(p),
            universe == string_views(targets@) + all_decl_names(ds),
            string_views(live@).no_duplicates(),
            seeds.subset_of(string_views(live@).to_set()),
            string_views(live@).to_set().subset_of(universe.to_set()),
            below_closed(p, string_views(live@).to_set()),
            universe.to_set().len() <= universe.len(),
            live@.len() <= universe.len(),
            !changed ==> closed_under(ds, string_views(live@).to_set()),
        decreases universe.len() - live@.len() + (if changed {
            1int
        } else {
            0int
        }),
    {
        let ghost start = string_views(live@);
        changed = false;
        let mut i: usize = 0;
        while i < declarations.len()
            invariant
                i <= declarations.len(),
                ds == views(declarations@),
                p.declarations == ds,
                seeds == route_targets(p),
                universe == string_views(targets@) + all_decl_names(ds),
                string_views(live@).no_duplicates(),
                seeds.subset_of(string_views(live@).to_set()),
                string_views(live@).to_set().subset_of(universe.to_set()),
                below_closed(p, string_views(live@).to_set()),
                start.len() <= live@.len(),
                !changed ==> string_views(live@) == start,
                changed ==> live@.len() > start.len(),
                !changed ==> forall|j: int|
                    0 <= j < i && string_views(live@).to_set().contains(decl_name(#[trigger] ds[j]))
                        ==> decl_names(ds[j]).to_set().subset_of(string_views(live@).to_set()),
            decreases declarations.len() - i,
        {
            assert(ds[i as int] == declarations@[i as int]@);
            let ghost before = string_views(live@).to_set();
            let grew = visit_decl(&mut live, &declarations[i]);
            proof {
                if before.contains(decl_name(ds[i as int])) {
                    lemma_below_closed_add(p, before, i as int);
                    lemma_names_in_universe(string_views(targets@), ds, i as int);
                }
            }
            if grew {
                changed = true;
            }
            i = i + 1;
        }
        proof {
            string_views(live@).unique_seq_to_set();
            vstd::set_lib::lemma_len_subset(string_views(live@).to_set(), universe.to_set());
        }
    }
    let ghost l = string_views(live@).to_set();
    proof {
        assert forall|n: Seq<char>| l.contains(n) implies live_names(p).contains(n) by {
            assert forall|s: Set<Seq<char>>|
                closed_under(p.declarations, s) && route_targets(p).subset_of(s) implies #[trigger] s.contains(
                n,
            ) by {
                assert(l.subset_of(s));
            }
        }
        assert forall|n: Seq<char>| live_names(p).contains(n) implies l.contains(n) by {
            assert(closed_under(p.declarations, l) && route_targets(p).subset_of(l) ==> l.contains(n));
        }
        assert(l =~= live_names(p));
    }
    // Keep the live declarations
    let ghost orig = declarations@;
    let n = declarations.len();
    let mut rest = declarations;
    let mut kept: Vec<Declaration> = Vec::new();
    let mut k: usize = 0;
    while rest.len() > 0
        invariant
            k + rest@.len() == orig.len(),
            orig.len() == n,
            rest@ == orig.skip(k as int),
            l == string_views(live@).to_set(),
            views(kept@) == keep_named(views(orig.take(k as int)), l),
        decreases rest.len(),
    {
        let d = rest.remove(0);
        assert(d == orig[k as int]);
        assert(views(orig.take(k + 1)).drop_last() =~= views(orig.take(k as int)));
        assert(views(orig.take(k + 1)).last() == orig[k as int]@);
        let dname = decl_name_of(&d);
        if contains_name(&live, dname) {
            proof {
                crate::ast::lemma_views_push(kept@, d);
            }
            kept.push(d);
        }
        assert(rest@ =~= orig.skip(k + 1));
        k = k + 1;
    }
    assert(orig.take(k as int) =~= orig);
    Program { name, package, imports, server, declarations: kept, routes }
}


// ── Laws ────────────────────────────────────────────────────────────────────

/// A declaration whose name lies in `live` is kept.
proof fn lemma_keep_named_keeps(ds: Seq<SpecDeclaration>, live: Set<Seq<char>>, i: int)
    requires
        0 <= i < ds.len(),
        live.contains(decl_name(ds[i])),
    ensures
        keep_named(ds, live).contains(ds[i]),
    decreases ds.len(),
{
    if i == ds.len() - 1 {
        let k = keep_named(ds.drop_last(), live).push(ds.last());
        assert(k[k.len() - 1] == ds[i]);
    } else {
        assert(ds.drop_last()[i] == ds[i]);
        lemma_keep_named_keeps(ds.drop_last(), live, i);
        let prev = keep_named(ds.drop_last(), live);
        let j = choose|j: int| 0 <= j < prev.len() && prev[j] == ds[i];
        if live.contains(decl_name(ds.last())) {
            assert(prev.push(ds.last())[j] == ds[i]);
        }
    }
}

/// Every declaration a route targets survives dead-code removal.
pub proof fn lemma_route_targets_survive(p: SpecProgram, i: int)
    requires
        0 <= i < p.declarations.len(),
        route_targets(p).contains(decl_name(p.declarations[i])),
    ensures
        prune(p).declarations.contains(p.declarations[i]),
{
    assert(live_names(p).contains(decl_name(p.declarations[i])));
    lemma_keep_named_keeps(p.declarations, live_names(p), i);
}

/// A declaration survives only when its name is live, and then the
/// declarations a surviving one refers to by name survive too.
pub proof fn lemma_survivors_closed(p: SpecProgram, i: int, j: int)
    requires
        0 <= i < p.declarations.len(),
        0 <= j < p.declarations.len(),
        live_names(p).contains(decl_name(p.declarations[i])),
        decl_names(p.declarations[i]).contains(decl_name(p.declarations[j])),
    ensures
        prune(p).declarations.contains(p.declarations[j]),
{
    let ds = p.declarations;
    let n = decl_name(ds[j]);
    assert forall|s: Set<Seq<char>>| closed_under(ds, s) && route_targets(p).subset_of(s) implies #[trigger] s.contains(
        n,
    ) by {
        assert(s.contains(decl_name(ds[i])));
        assert(decl_names(ds[i]).to_set().subset_of(s));
        assert(decl_names(ds[i]).to_set().contains(n));
    }
    assert(live_names(p).contains(n));
    lemma_keep_named_keeps(ds, live_names(p), j);
}

} // verus!
