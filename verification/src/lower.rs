//! AST → IR lowering pass.
//!
//! Converts a (post-optimization) `Program` into an `IrModule`, inferring
//! the types of `let` bindings without annotations from a scoped environment.
use vstd::prelude::*;
use crate::ast::{
    BinOp, ClassDecl, ClassKind, Declaration, Expr, Field, Method, Param, Program, SpecClassDecl,
    SpecDeclaration, SpecExpr, SpecField, SpecMethod, SpecParam, SpecProgram, SpecStmt, SpecType, Stmt, Type,
    UnOp, Visibility, exprs_view, lemma_views_push, stmts_view, types_view, views,
};
use crate::ir::{
    IrBinOp, IrClass, IrClassKind, IrExpr, IrField, IrMethod, IrModule, IrParam, IrRoute, IrServer, IrStmt,
    IrType, IrUnOp, SpecIrClass, SpecIrExpr, SpecIrField, SpecIrMethod, SpecIrModule, SpecIrParam, SpecIrRoute,
    SpecIrStmt, SpecIrType, ir_exprs_view, ir_stmts_view, ir_types_view,
};
use crate::optimizer::{lemma_stmts_view_at, lemma_stmts_view_len};

verus! {

// ── The mathematical statement ──────────────────────────────────────────────

/// A type environment: bindings in order; a later binding of a name hides
/// an earlier one.
pub type TypeEnv = Seq<(Seq<char>, SpecIrType)>;

/// The type bound to `name` last, if any.
pub open spec fn env_get(env: TypeEnv, name: Seq<char>) -> Option<SpecIrType>
    decreases env.len(),
{
    if env.len() == 0 {
        None
    } else if env.last().0 == name {
        Some(env.last().1)
    } else {
        env_get(env.drop_last(), name)
    }
}

/// The IR type of an AST type; custom and generic names become named types.
pub open spec fn lower_ty(t: SpecType) -> SpecIrType
    decreases t,
{
    match t {
        SpecType::Int => SpecIrType::Int,
        SpecType::Bool => SpecIrType::Bool,
        SpecType::String => SpecIrType::String,
        SpecType::Void => SpecIrType::Void,
        SpecType::Custom(n) => SpecIrType::Named(n),
        SpecType::Generic(n) => SpecIrType::Named(n),
        SpecType::List(inner) => SpecIrType::List(Box::new(lower_ty(*inner))),
        SpecType::Function(ps, r) => SpecIrType::Fn(lower_tys(ps), Box::new(lower_ty(*r))),
    }
}

/// Each type lowered.
pub open spec fn lower_tys(s: Seq<SpecType>) -> Seq<SpecIrType>
    decreases s,
{
    if s.len() == 0 {
        Seq::empty()
    } else {
        lower_tys(s.drop_last()).push(lower_ty(s.last()))
    }
}

/// The type of an expression as far as the environment tells: literals,
/// bound names, arithmetic on integers (and `+` with a string), comparisons
/// and logical operators; `Unknown` otherwise.
pub open spec fn infer(e: SpecExpr, env: TypeEnv) -> SpecIrType
    decreases e,
{
    match e {
        SpecExpr::IntLit(_) => SpecIrType::Int,
        SpecExpr::StringLit(_) => SpecIrType::String,
        SpecExpr::BoolLit(_) => SpecIrType::Bool,
        SpecExpr::Ident(name) => match env_get(env, name) {
            Some(t) => t,
            None => SpecIrType::Unknown,
        },
        SpecExpr::Binary { op, left, right } => {
            let lt = infer(*left, env);
            let rt = infer(*right, env);
            match op {
                BinOp::Add => if lt is Int && rt is Int {
                    SpecIrType::Int
                } else if lt is String || rt is String {
                    SpecIrType::String
                } else {
                    SpecIrType::Unknown
                },
                BinOp::Sub | BinOp::Mul | BinOp::Div | BinOp::Mod => if lt is Int && rt is Int {
                    SpecIrType::Int
                } else {
                    SpecIrType::Unknown
                },
                _ => SpecIrType::Bool,
            }
        },
        SpecExpr::Unary { op, .. } => match op {
            UnOp::Not => SpecIrType::Bool,
            UnOp::Neg => SpecIrType::Int,
        },
        _ => SpecIrType::Unknown,
    }
}

/// The IR operator of an AST operator.
pub open spec fn lower_op(op: BinOp) -> IrBinOp {
    match op {
        BinOp::Add => IrBinOp::Add,
        BinOp::Sub => IrBinOp::Sub,
        BinOp::Mul => IrBinOp::Mul,
        BinOp::Div => IrBinOp::Div,
        BinOp::Mod => IrBinOp::Mod,
        BinOp::Eq => IrBinOp::Eq,
        BinOp::Ne => IrBinOp::Ne,
        BinOp::Lt => IrBinOp::Lt,
        BinOp::Gt => IrBinOp::Gt,
        BinOp::Le => IrBinOp::Le,
        BinOp::Ge => IrBinOp::Ge,
        BinOp::And => IrBinOp::And,
        BinOp::Or => IrBinOp::Or,
    }
}

/// A parameter lowered.
pub open spec fn lower_prm(p: SpecParam) -> SpecIrParam {
    SpecIrParam { name: p.name, ty: lower_ty(p.ty) }
}

/// The IR expression of an AST expression, node by node.
pub open spec fn lower_e(e: SpecExpr) -> SpecIrExpr
    decreases e,
{
    match e {
        SpecExpr::StringLit(s) => SpecIrExpr::Str(s),
        SpecExpr::IntLit(n) => SpecIrExpr::Int(n),
        SpecExpr::BoolLit(b) => SpecIrExpr::Bool(b),
        SpecExpr::Ident(n) => SpecIrExpr::Local(n),
        SpecExpr::This => SpecIrExpr::SelfRef,
        SpecExpr::FieldAccess(obj, f) => SpecIrExpr::Field { receiver: Box::new(lower_e(*obj)), name: f },
        SpecExpr::MethodCall { receiver, method, args } => SpecIrExpr::Call {
            receiver: Box::new(lower_e(*receiver)),
            method,
            args: lower_es(args),
        },
        SpecExpr::Call { callee, args } => SpecIrExpr::Invoke { callee, args: lower_es(args) },
        SpecExpr::Lambda { params, body } => SpecIrExpr::Closure {
            params: params.map_values(|p: SpecParam| lower_prm(p)),
            body: Box::new(lower_e(*body)),
        },
        SpecExpr::Block { tag, children } => SpecIrExpr::Node { tag, children: lower_es(children) },
        SpecExpr::Binary { op, left, right } => SpecIrExpr::Bin {
            op: lower_op(op),
            lhs: Box::new(lower_e(*left)),
            rhs: Box::new(lower_e(*right)),
        },
        SpecExpr::Unary { op, expr } => SpecIrExpr::Unary {
            op: match op {
                UnOp::Not => IrUnOp::Not,
                UnOp::Neg => IrUnOp::Neg,
            },
            operand: Box::new(lower_e(*expr)),
        },
        SpecExpr::Await(inner) => SpecIrExpr::Await(Box::new(lower_e(*inner))),
        SpecExpr::ListLiteral(items) => SpecIrExpr::List(lower_es(items)),
        SpecExpr::LazyImport(p) => SpecIrExpr::DynamicImport(p),
    }
}

/// Each expression lowered.
pub open spec fn lower_es(s: Seq<SpecExpr>) -> Seq<SpecIrExpr>
    decreases s,
{
    if s.len() == 0 {
        Seq::empty()
    } else {
        lower_es(s.drop_last()).push(lower_e(s.last()))
    }
}

/// A statement lowered in `env`, with the environment after it: a `let`
/// binds its name to its annotated type, else to the inferred one. Nested
/// bodies are lowered in a scope of their own (a `for` loop's variable is
/// of unknown type there). A `match` keeps its scrutinee as a discarded
/// expression.
pub open spec fn lower_st(s: SpecStmt, env: TypeEnv) -> (SpecIrStmt, TypeEnv)
    decreases s,
{
    match s {
        SpecStmt::Return { expr, .. } => (
            SpecIrStmt::Return(
                match expr {
                    Some(e) => Some(lower_e(e)),
                    None => None,
                },
            ),
            env,
        ),
        SpecStmt::Assign { object, field, value } => (
            SpecIrStmt::Assign {
                target: SpecIrExpr::Field { receiver: Box::new(lower_e(object)), name: field },
                value: lower_e(value),
            },
            env,
        ),
        SpecStmt::Let { name, ty, init } => {
            let t = match ty {
                Some(t) => lower_ty(t),
                None => infer(init, env),
            };
            (SpecIrStmt::Let { name, ty: t, init: lower_e(init) }, env.push((name, t)))
        },
        SpecStmt::If { cond, then_body, else_body } => (
            SpecIrStmt::If {
                cond: lower_e(cond),
                then_body: lower_sts(then_body, env),
                else_body: match else_body {
                    Some(b) => Some(lower_sts(b, env)),
                    None => None,
                },
            },
            env,
        ),
        SpecStmt::While { cond, body } => (SpecIrStmt::While { cond: lower_e(cond), body: lower_sts(body, env) }, env),
        SpecStmt::For { var, iter, body } => (
            SpecIrStmt::For {
                var,
                iter: lower_e(iter),
                body: lower_sts(body, env.push((var, SpecIrType::Unknown))),
            },
            env,
        ),
        SpecStmt::Break => (SpecIrStmt::Break, env),
        SpecStmt::Continue => (SpecIrStmt::Continue, env),
        SpecStmt::Expr(e) => (SpecIrStmt::Discard(lower_e(e)), env),
        SpecStmt::Match { expr, .. } => (SpecIrStmt::Discard(lower_e(expr)), env),
    }
}

/// Statements lowered in order, each in the environment the previous ones left.
pub open spec fn lower_sts(s: Seq<SpecStmt>, env: TypeEnv) -> Seq<SpecIrStmt>
    decreases s,
{
    if s.len() == 0 {
        Seq::empty()
    } else {
        let (x, env2) = lower_st(s[0], env);
        seq![x] + lower_sts(s.subrange(1, s.len() as int), env2)
    }
}

/// The environment of the parameters on top of `env`.
pub open spec fn with_params(env: TypeEnv, ps: Seq<SpecParam>) -> TypeEnv {
    env + ps.map_values(|p: SpecParam| (p.name, lower_ty(p.ty)))
}

/// The field types of a class, in declaration order.
pub open spec fn fields_env(fs: Seq<SpecField>) -> TypeEnv {
    fs.map_values(|f: SpecField| (f.name, lower_ty(f.ty)))
}

/// A method lowered with the class's fields in scope.
pub open spec fn lower_mth(m: SpecMethod, fenv: TypeEnv) -> SpecIrMethod {
    SpecIrMethod {
        name: m.name,
        params: m.params.map_values(|p: SpecParam| lower_prm(p)),
        return_ty: lower_ty(m.return_type),
        body: lower_sts(m.body, with_params(fenv, m.params)),
        is_public: m.visibility == Visibility::Public,
        is_async: m.is_async,
    }
}

/// A class lowered: its fields, constructor (none gives no parameters and
/// an empty body) and methods, with field types in scope of every body.
pub open spec fn lower_cls(c: SpecClassDecl) -> SpecIrClass {
    let fenv = fields_env(c.fields);
    SpecIrClass {
        name: c.name,
        kind: match c.kind {
            ClassKind::Class => IrClassKind::Class,
            ClassKind::Component => IrClassKind::Component,
            ClassKind::Window => IrClassKind::Window,
        },
        is_public: c.visibility == Visibility::Public,
        fields: c.fields.map_values(
            |f: SpecField| SpecIrField { name: f.name, ty: lower_ty(f.ty), is_public: f.visibility == Visibility::Public },
        ),
        constructor_params: match c.constructor {
            Some(k) => k.params.map_values(|p: SpecParam| lower_prm(p)),
            None => Seq::empty(),
        },
        constructor_body: match c.constructor {
            Some(k) => lower_sts(k.body, with_params(fenv, k.params)),
            None => Seq::empty(),
        },
        methods: c.methods.map_values(|m: SpecMethod| lower_mth(m, fenv)),
    }
}

/// The classes of the declarations, lowered; interfaces, enums and tests
/// are not emitted.
pub open spec fn lower_classes(ds: Seq<SpecDeclaration>) -> Seq<SpecIrClass>
    decreases ds.len(),
{
    if ds.len() == 0 {
        Seq::empty()
    } else {
        let rest = lower_classes(ds.drop_last());
        match ds.last() {
            SpecDeclaration::Class(c) => rest.push(lower_cls(c)),
            _ => rest,
        }
    }
}

/// A program lowered to an IR module.
pub open spec fn lower_program(p: SpecProgram) -> SpecIrModule {
    SpecIrModule {
        name: p.name,
        server: match p.server {
            Some(s) => Some(IrServer { port: s.port }),
            None => None,
        },
        classes: lower_classes(p.declarations),
        routes: p.routes.map_values(|r: crate::ast::SpecRoute| SpecIrRoute { path: r.path, target: r.target }),
    }
}

/// The view of a type environment.
pub open spec fn env_view(v: Seq<(String, IrType)>) -> TypeEnv {
    v.map_values(|b: (String, IrType)| (b.0@, b.1@))
}

/// Binding a name adds one binding to the environment's view.
proof fn lemma_env_view_push(v: Seq<(String, IrType)>, x: (String, IrType))
    ensures
        env_view(v.push(x)) == env_view(v).push((x.0@, x.1@)),
{
    assert(env_view(v.push(x)) =~= env_view(v).push((x.0@, x.1@)));
}

/// One more field adds one binding.
proof fn lemma_fields_env_push(fs: Seq<SpecField>, f: SpecField)
    ensures
        fields_env(fs.push(f)) == fields_env(fs).push((f.name, lower_ty(f.ty))),
{
    assert(fields_env(fs.push(f)) =~= fields_env(fs).push((f.name, lower_ty(f.ty))));
}

/// One more parameter adds one binding.
proof fn lemma_with_params_push(env: TypeEnv, ps: Seq<SpecParam>, p: SpecParam)
    ensures
        with_params(env, ps.push(p)) == with_params(env, ps).push((p.name, lower_ty(p.ty))),
{
    assert(with_params(env, ps.push(p)) =~= with_params(env, ps).push((p.name, lower_ty(p.ty))));
}

// ── The code ─────────────────────────────────────────────────────────────────

/// Lower a program to an IR module.
pub fn lower(program: &Program) -> (m: IrModule)
    ensures
        m@ == lower_program(program@),
{
    let mut classes: Vec<IrClass> = Vec::new();
    let mut i: usize = 0;
    while i < program.declarations.len()
        invariant
            i <= program.declarations.len(),
            views(classes@) == lower_classes(views(program.declarations@.take(i as int))),
        decreases program.declarations.len() - i,
    {
        assert(views(program.declarations@.take(i + 1)).drop_last() =~= views(program.declarations@.take(i as int)));
        assert(views(program.declarations@.take(i + 1)).last() == program.declarations@[i as int]@);
        if let Declaration::Class(cls) = &program.declarations[i] {
            let c = lower_class(cls);
            proof {
                lemma_views_push(classes@, c);
            }
            classes.push(c);
        }
        // Interfaces are structural types; not emitted as IR definitions for now.
        i = i + 1;
    }
    assert(program.declarations@.take(program.declarations.len() as int) =~= program.declarations@);
    let mut routes: Vec<IrRoute> = Vec::new();
    let mut j: usize = 0;
    while j < program.routes.len()
        invariant
            j <= program.routes.len(),
            views(routes@) == views(program.routes@.take(j as int)).map_values(
                |r: crate::ast::SpecRoute| SpecIrRoute { path: r.path, target: r.target },
            ),
        decreases program.routes.len() - j,
    {
        let r = IrRoute { path: program.routes[j].path.clone(), target: program.routes[j].target.clone() };
        proof {
            lemma_views_push(routes@, r);
            lemma_views_push(program.routes@.take(j as int), program.routes@[j as int]);
        }
        routes.push(r);
        assert(program.routes@.take(j + 1) =~= program.routes@.take(j as int).push(program.routes@[j as int]));
        j = j + 1;
        assert(views(routes@) =~= views(program.routes@.take(j as int)).map_values(
            |r: crate::ast::SpecRoute| SpecIrRoute { path: r.path, target: r.target },
        ));
    }
    assert(program.routes@.take(program.routes.len() as int) =~= program.routes@);
    let server = match &program.server {
        Some(s) => Some(IrServer { port: s.port }),
        None => None,
    };
    IrModule { name: program.name.clone(), server, classes, routes }
}

fn lower_class(cls: &ClassDecl) -> (r: IrClass)
    ensures
        r@ == lower_cls(cls@),
{
    let kind = match cls.kind {
        ClassKind::Class => IrClassKind::Class,
        ClassKind::Component => IrClassKind::Component,
        ClassKind::Window => IrClassKind::Window,
    };
    let mut fields: Vec<IrField> = Vec::new();
    // A field-type env so constructor/method bodies can resolve `this.x`.
    let mut field_env: Vec<(String, IrType)> = Vec::new();
    let mut i: usize = 0;
    while i < cls.fields.len()
        invariant
            i <= cls.fields.len(),
            views(fields@) == views(cls.fields@.take(i as int)).map_values(
                |f: SpecField| SpecIrField { name: f.name, ty: lower_ty(f.ty), is_public: f.visibility == Visibility::Public },
            ),
            env_view(field_env@) == fields_env(views(cls.fields@.take(i as int))),
        decreases cls.fields.len() - i,
    {
        let f = &cls.fields[i];
        let x = IrField { name: f.name.clone(), ty: lower_type(&f.ty), is_public: f.visibility == Visibility::Public };
        let b = (f.name.clone(), lower_type(&f.ty));
        proof {
            lemma_views_push(fields@, x);
            lemma_views_push(cls.fields@.take(i as int), cls.fields@[i as int]);
            lemma_env_view_push(field_env@, b);
            lemma_fields_env_push(views(cls.fields@.take(i as int)), cls.fields@[i as int]@);
        }
        fields.push(x);
        field_env.push(b);
        assert(cls.fields@.take(i + 1) =~= cls.fields@.take(i as int).push(cls.fields@[i as int]));
        i = i + 1;
        assert(views(fields@) =~= views(cls.fields@.take(i as int)).map_values(
            |f: SpecField| SpecIrField { name: f.name, ty: lower_type_spec_of(f), is_public: f.visibility == Visibility::Public },
        ));
        assert(env_view(field_env@) =~= fields_env(views(cls.fields@.take(i as int))));
    }
    assert(cls.fields@.take(cls.fields.len() as int) =~= cls.fields@);
    let (ctor_params, ctor_body) = match &cls.constructor {
        Some(c) => {
            let env = with_params_exec(&field_env, &c.params);
            (lower_params(&c.params), lower_stmts_in_scope(&c.body, &env))
        },
        None => {
            let ps: Vec<IrParam> = Vec::new();
            let b: Vec<IrStmt> = Vec::new();
            assert(views(ps@) =~= Seq::<SpecIrParam>::empty());
            assert(ir_stmts_view(b@) =~= Seq::<SpecIrStmt>::empty());
            (ps, b)
        },
    };
    let mut methods: Vec<IrMethod> = Vec::new();
    let mut j: usize = 0;
    while j < cls.methods.len()
        invariant
            j <= cls.methods.len(),
            env_view(field_env@) == fields_env(views(cls.fields@)),
            views(methods@) == views(cls.methods@.take(j as int)).map_values(
                |m: SpecMethod| lower_mth(m, fields_env(views(cls.fields@))),
            ),
        decreases cls.methods.len() - j,
    {
        let m = lower_method_with_env(&cls.methods[j], &field_env);
        proof {
            lemma_views_push(methods@, m);
            lemma_views_push(cls.methods@.take(j as int), cls.methods@[j as int]);
        }
        methods.push(m);
        assert(cls.methods@.take(j + 1) =~= cls.methods@.take(j as int).push(cls.methods@[j as int]));
        j = j + 1;
        assert(views(methods@) =~= views(cls.methods@.take(j as int)).map_values(
            |m: SpecMethod| lower_mth(m, fields_env(views(cls.fields@))),
        ));
    }
    assert(cls.methods@.take(cls.methods.len() as int) =~= cls.methods@);
    IrClass {
        name: cls.name.clone(),
        kind,
        is_public: cls.visibility == Visibility::Public,
        fields,
        constructor_params: ctor_params,
        constructor_body: ctor_body,
        methods,
    }
}

/// The lowered type of a field (spelled for closures).
pub open spec fn lower_type_spec_of(f: SpecField) -> SpecIrType {
    lower_ty(f.ty)
}

/// `env` with the parameters bound on top.
fn with_params_exec(env: &Vec<(String, IrType)>, params: &Vec<Param>) -> (r: Vec<(String, IrType)>)
    ensures
        env_view(r@) == with_params(env_view(env@), views(params@)),
{
    let mut out = clone_env(env);
    let mut i: usize = 0;
    while i < params.len()
        invariant
            i <= params.len(),
            env_view(out@) == with_params(env_view(env@), views(params@.take(i as int))),
        decreases params.len() - i,
    {
        let b = (params[i].name.clone(), lower_type(&params[i].ty));
        proof {
            lemma_views_push(params@.take(i as int), params@[i as int]);
            lemma_env_view_push(out@, b);
            lemma_with_params_push(env_view(env@), views(params@.take(i as int)), params@[i as int]@);
        }
        out.push(b);
        assert(params@.take(i + 1) =~= params@.take(i as int).push(params@[i as int]));
        i = i + 1;
        assert(env_view(out@) =~= with_params(env_view(env@), views(params@.take(i as int))));
    }
    assert(params@.take(params.len() as int) =~= params@);
    out
}

/// A copy of a type environment.
fn clone_env(env: &Vec<(String, IrType)>) -> (r: Vec<(String, IrType)>)
    ensures
        env_view(r@) == env_view(env@),
{
    let mut out: Vec<(String, IrType)> = Vec::new();
    let mut i: usize = 0;
    while i < env.len()
        invariant
            i <= env.len(),
            env_view(out@) == env_view(env@.take(i as int)),
        decreases env.len() - i,
    {
        let x = (env[i].0.clone(), env[i].1.duplicate());
        proof {
            lemma_env_view_push(out@, x);
            lemma_env_view_push(env@.take(i as int), env@[i as int]);
        }
        out.push(x);
        assert(env@.take(i + 1) =~= env@.take(i as int).push(env@[i as int]));
        i = i + 1;
    }
    assert(env@.take(env.len() as int) =~= env@);
    out
}

fn lower_method_with_env(m: &Method, field_env: &Vec<(String, IrType)>) -> (r: IrMethod)
    ensures
        r@ == lower_mth(m@, env_view(field_env@)),
{
    let env = with_params_exec(field_env, &m.params);
    IrMethod {
        name: m.name.clone(),
        params: lower_params(&m.params),
        return_ty: lower_type(&m.return_type),
        body: lower_stmts_in_scope(&m.body, &env),
        is_public: m.visibility == Visibility::Public,
        is_async: m.is_async,
    }
}

fn lower_param(p: &Param) -> (r: IrParam)
    ensures
        r@ == lower_prm(p@),
{
    IrParam { name: p.name.clone(), ty: lower_type(&p.ty) }
}

/// Each parameter lowered.
fn lower_params(ps: &Vec<Param>) -> (r: Vec<IrParam>)
    ensures
        views(r@) == views(ps@).map_values(|p: SpecParam| lower_prm(p)),
{
    let mut out: Vec<IrParam> = Vec::new();
    let mut i: usize = 0;
    while i < ps.len()
        invariant
            i <= ps.len(),
            views(out@) == views(ps@.take(i as int)).map_values(|p: SpecParam| lower_prm(p)),
        decreases ps.len() - i,
    {
        let x = lower_param(&ps[i]);
        proof {
            lemma_views_push(out@, x);
            lemma_views_push(ps@.take(i as int), ps@[i as int]);
        }
        out.push(x);
        assert(ps@.take(i + 1) =~= ps@.take(i as int).push(ps@[i as int]));
        i = i + 1;
        assert(views(out@) =~= views(ps@.take(i as int)).map_values(|p: SpecParam| lower_prm(p)));
    }
    assert(ps@.take(ps.len() as int) =~= ps@);
    out
}

#[verifier::loop_isolation(false)]
fn lower_type(ty: &Type) -> (r: IrType)
    ensures
        r@ == lower_ty(ty@),
    decreases ty,
{
    match ty {
        Type::Int => IrType::Int,
        Type::Bool => IrType::Bool,
        Type::String => IrType::String,
        Type::Void => IrType::Void,
        Type::Custom(n) => IrType::Named(n.clone()),
        Type::Generic(n) => IrType::Named(n.clone()),
        Type::List(inner) => IrType::List(Box::new(lower_type(inner))),
        Type::Function(params, ret) => {
            let mut out: Vec<IrType> = Vec::new();
            let mut i: usize = 0;
            while i < params.len()
                invariant
                    i <= params.len(),
                    ir_types_view(out@) == lower_tys(types_view(params@.take(i as int))),
                decreases params.len() - i,
            {
                proof {
                    assert(decreases_to!(params => params@));
                    assert(decreases_to!(params@ => params@[i as int]));
                }
                let t = lower_type(&params[i]);
                let ghost prev = out@;
                let ghost s = types_view(params@.take(i as int));
                out.push(t);
                assert(params@.take(i + 1).drop_last() =~= params@.take(i as int));
                assert(types_view(params@.take(i + 1)) == s.push(params@[i as int]@));
                assert(s.push(params@[i as int]@).drop_last() =~= s);
                assert(out@.drop_last() =~= prev);
                i = i + 1;
            }
            assert(params@.take(params.len() as int) =~= params@);
            IrType::Fn(out, Box::new(lower_type(ret)))
        },
    }
}

/// The type bound to `name` last in `env`, if any.
fn env_lookup(env: &Vec<(String, IrType)>, name: &String) -> (r: Option<IrType>)
    ensures
        match env_get(env_view(env@), name@) {
            Some(t) => r matches Some(x) && x@ == t,
            None => r is None,
        },
{
    let mut i = env.len();
    assert(env@.take(i as int) =~= env@);
    while i > 0
        invariant
            i <= env.len(),
            env_get(env_view(env@), name@) == env_get(env_view(env@.take(i as int)), name@),
        decreases i,
    {
        assert(env_view(env@.take(i as int)).drop_last() =~= env_view(env@.take(i - 1)));
        if env[i - 1].0.eq(name) {
            return Some(env[i - 1].1.duplicate());
        }
        i = i - 1;
    }
    None
}

// ── Type inference ────────────────────────────────────────────────────────────

/// Infer the IR type of an expression from the current type environment.
/// Returns `IrType::Unknown` when the type cannot be determined locally.
fn infer_expr_type(expr: &Expr, env: &Vec<(String, IrType)>) -> (r: IrType)
    ensures
        r@ == infer(expr@, env_view(env@)),
    decreases expr,
{
    match expr {
        Expr::IntLit(_) => IrType::Int,
        Expr::StringLit(_) => IrType::String,
        Expr::BoolLit(_) => IrType::Bool,
        Expr::Ident(name) => match env_lookup(env, name) {
            Some(t) => t,
            None => IrType::Unknown,
        },
        Expr::Binary { op, left, right } => {
            let lt = infer_expr_type(left, env);
            let rt = infer_expr_type(right, env);
            match op {
                BinOp::Add => {
                    if matches!(lt, IrType::Int) && matches!(rt, IrType::Int) {
                        IrType::Int
                    } else if matches!(lt, IrType::String) || matches!(rt, IrType::String) {
                        IrType::String
                    } else {
                        IrType::Unknown
                    }
                },
                BinOp::Sub | BinOp::Mul | BinOp::Div | BinOp::Mod => {
                    if matches!(lt, IrType::Int) && matches!(rt, IrType::Int) {
                        IrType::Int
                    } else {
                        IrType::Unknown
                    }
                },
                BinOp::Eq | BinOp::Ne | BinOp::Lt | BinOp::Gt | BinOp::Le | BinOp::Ge | BinOp::And
                | BinOp::Or => IrType::Bool,
            }
        },
        Expr::Unary { op, .. } => match op {
            UnOp::Not => IrType::Bool,
            UnOp::Neg => IrType::Int,
        },
        _ => IrType::Unknown,
    }
}

// ── Statement lowering ────────────────────────────────────────────────────────

/// Lower statements into a new child scope (inherits the parent environment,
/// but new bindings do not escape back to the parent).
fn lower_stmts_in_scope(stmts: &Vec<Stmt>, parent_env: &Vec<(String, IrType)>) -> (r: Vec<IrStmt>)
    ensures
        ir_stmts_view(r@) == lower_sts(stmts_view(stmts@), env_view(parent_env@)),
    decreases stmts,
{
    let ghost sv = stmts_view(stmts@);
    proof {
        lemma_stmts_view_len(stmts@);
    }
    let mut env = clone_env(parent_env);
    let mut out: Vec<IrStmt> = Vec::new();
    let mut i: usize = 0;
    assert(sv.subrange(0, sv.len() as int) =~= sv);
    assert(ir_stmts_view(out@) =~= Seq::<SpecIrStmt>::empty());
    while i < stmts.len()
        invariant
            i <= stmts.len(),
            sv == stmts_view(stmts@),
            sv.len() == stmts@.len(),
            ir_stmts_view(out@) + lower_sts(sv.subrange(i as int, sv.len() as int), env_view(env@)) == lower_sts(
                sv,
                env_view(parent_env@),
            ),
        decreases stmts.len() - i,
    {
        proof {
            assert(decreases_to!(stmts => stmts@));
            assert(decreases_to!(stmts@ => stmts@[i as int]));
            lemma_stmts_view_at(stmts@, i as int);
        }
        let ghost before = env_view(env@);
        let ghost rest = sv.subrange(i as int, sv.len() as int);
        let x = lower_stmt(&stmts[i], &mut env);
        let ghost prev = out@;
        out.push(x);
        assert(rest[0] == stmts@[i as int]@);
        assert(rest.subrange(1, rest.len() as int) =~= sv.subrange(i + 1, sv.len() as int));
        assert(ir_stmts_view(out@) == ir_stmts_view(prev).push(x@)) by {
            assert(out@.drop_last() =~= prev);
        }
        assert(ir_stmts_view(prev) + lower_sts(rest, before) =~= ir_stmts_view(out@) + lower_sts(
            sv.subrange(i + 1, sv.len() as int),
            env_view(env@),
        ));
        i = i + 1;
    }
    assert(sv.subrange(i as int, sv.len() as int) =~= Seq::<SpecStmt>::empty());
    assert(ir_stmts_view(out@) + Seq::<SpecIrStmt>::empty() =~= ir_stmts_view(out@));
    out
}

fn lower_stmt(stmt: &Stmt, env: &mut Vec<(String, IrType)>) -> (r: IrStmt)
    ensures
        (r@, env_view(final(env)@)) == lower_st(stmt@, env_view(old(env)@)),
    decreases stmt,
{
    match stmt {
        Stmt::Return { expr: None, .. } => IrStmt::Return(None),
        Stmt::Return { expr: Some(e), .. } => IrStmt::Return(Some(lower_expr(e))),
        Stmt::Assign { object, field, value } => {
            // `this.field` lowers its receiver to `SelfRef` like any `this`.
            let target = IrExpr::Field { receiver: Box::new(lower_expr(object)), name: field.clone() };
            IrStmt::Assign { target, value: lower_expr(value) }
        },
        Stmt::Let { name, ty, init } => {
            // Prefer the explicit annotation; fall back to inference.
            let resolved_ty = match ty {
                Some(t) => lower_type(t),
                None => infer_expr_type(init, env),
            };
            let b = (name.clone(), resolved_ty.duplicate());
            proof {
                lemma_env_view_push(env@, b);
            }
            env.push(b);
            IrStmt::Let { name: name.clone(), ty: resolved_ty, init: lower_expr(init) }
        },
        Stmt::If { cond, then_body, else_body } => {
            proof {
                assert(decreases_to!(stmt => then_body));
            }
            let else_body = match else_body {
                Some(b) => {
                    proof {
                        assert(decreases_to!(stmt => else_body));
                        assert(decreases_to!(else_body => b));
                    }
                    Some(lower_stmts_in_scope(b, env))
                },
                None => None,
            };
            IrStmt::If { cond: lower_expr(cond), then_body: lower_stmts_in_scope(then_body, env), else_body }
        },
        Stmt::While { cond, body } => {
            proof {
                assert(decreases_to!(stmt => body));
            }
            IrStmt::While { cond: lower_expr(cond), body: lower_stmts_in_scope(body, env) }
        },
        Stmt::For { var, iter, body } => {
            proof {
                assert(decreases_to!(stmt => body));
            }
            // The loop variable's element type is not yet tracked; use Unknown.
            let mut inner_env = clone_env(env);
            let b = (var.clone(), IrType::Unknown);
            proof {
                lemma_env_view_push(inner_env@, b);
            }
            inner_env.push(b);
            assert(env_view(inner_env@) =~= env_view(env@).push((var@, SpecIrType::Unknown)));
            IrStmt::For { var: var.clone(), iter: lower_expr(iter), body: lower_stmts_in_scope(body, &inner_env) }
        },
        Stmt::Break => IrStmt::Break,
        Stmt::Continue => IrStmt::Continue,
        Stmt::Expr(e) => IrStmt::Discard(lower_expr(e)),
        Stmt::Match { expr, .. } => IrStmt::Discard(lower_expr(expr)),
    }
}

// ── Expression lowering ───────────────────────────────────────────────────────

fn lower_expr(expr: &Expr) -> (r: IrExpr)
    ensures
        r@ == lower_e(expr@),
    decreases expr,
{
    match expr {
        Expr::StringLit(s) => IrExpr::Str(s.clone()),
        Expr::IntLit(n) => IrExpr::Int(*n),
        Expr::BoolLit(b) => IrExpr::Bool(*b),
        Expr::Ident(n) => IrExpr::Local(n.clone()),
        Expr::This => IrExpr::SelfRef,
        Expr::FieldAccess(obj, field) => IrExpr::Field { receiver: Box::new(lower_expr(obj)), name: field.clone() },
        Expr::MethodCall { receiver, method, args } => {
            proof {
                assert(decreases_to!(expr => args));
            }
            IrExpr::Call { receiver: Box::new(lower_expr(receiver)), method: method.clone(), args: lower_expr_list(args) }
        },
        Expr::Call { callee, args } => {
            proof {
                assert(decreases_to!(expr => args));
            }
            IrExpr::Invoke { callee: callee.clone(), args: lower_expr_list(args) }
        },
        Expr::Lambda { params, body } => IrExpr::Closure { params: lower_params(params), body: Box::new(lower_expr(body)) },
        Expr::Block { tag, children } => {
            proof {
                assert(decreases_to!(expr => children));
            }
            IrExpr::Node { tag: tag.clone(), children: lower_expr_list(children) }
        },
        Expr::Binary { op, left, right } => IrExpr::Bin {
            op: lower_binop(op),
            lhs: Box::new(lower_expr(left)),
            rhs: Box::new(lower_expr(right)),
        },
        Expr::Unary { op, expr } => IrExpr::Unary {
            op: match op {
                UnOp::Not => IrUnOp::Not,
                UnOp::Neg => IrUnOp::Neg,
            },
            operand: Box::new(lower_expr(expr)),
        },
        Expr::Await(inner) => IrExpr::Await(Box::new(lower_expr(inner))),
        Expr::ListLiteral(items) => {
            proof {
                assert(decreases_to!(expr => items));
            }
            IrExpr::List(lower_expr_list(items))
        },
        Expr::LazyImport(path) => IrExpr::DynamicImport(path.clone()),
    }
}

/// Each expression lowered.
fn lower_expr_list(v: &Vec<Expr>) -> (r: Vec<IrExpr>)
    ensures
        ir_exprs_view(r@) == lower_es(exprs_view(v@)),
    decreases v,
{
    let mut out: Vec<IrExpr> = Vec::new();
    let mut i: usize = 0;
    while i < v.len()
        invariant
            i <= v.len(),
            ir_exprs_view(out@) == lower_es(exprs_view(v@.take(i as int))),
        decreases v.len() - i,
    {
        proof {
            assert(decreases_to!(v => v@));
            assert(decreases_to!(v@ => v@[i as int]));
        }
        let x = lower_expr(&v[i]);
        let ghost prev = out@;
        let ghost s = exprs_view(v@.take(i as int));
        out.push(x);
        assert(v@.take(i + 1).drop_last() =~= v@.take(i as int));
        assert(exprs_view(v@.take(i + 1)) == s.push(v@[i as int]@));
        assert(s.push(v@[i as int]@).drop_last() =~= s);
        assert(out@.drop_last() =~= prev);
        i = i + 1;
    }
    assert(v@.take(v.len() as int) =~= v@);
    out
}

fn lower_binop(op: &BinOp) -> (r: IrBinOp)
    ensures
        r == lower_op(*op),
{
    match op {
        BinOp::Add => IrBinOp::Add,
        BinOp::Sub => IrBinOp::Sub,
        BinOp::Mul => IrBinOp::Mul,
        BinOp::Div => IrBinOp::Div,
        BinOp::Mod => IrBinOp::Mod,
        BinOp::Eq => IrBinOp::Eq,
        BinOp::Ne => IrBinOp::Ne,
        BinOp::Lt => IrBinOp::Lt,
        BinOp::Gt => IrBinOp::Gt,
        BinOp::Le => IrBinOp::Le,
        BinOp::Ge => IrBinOp::Ge,
        BinOp::And => IrBinOp::And,
        BinOp::Or => IrBinOp::Or,
    }
}

} // verus!
