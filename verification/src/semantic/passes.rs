//! Passes 1 to 6 of the analysis: names, references, imports, routes, the
//! checks of `let` annotations and `return` values, and the declaration of
//! type parameters.
use vstd::prelude::*;
use crate::ast::{
    BinOp,
    ClassDecl,
    ClassKind,
    Expr,
    Field,
    InterfaceDecl,
    Method,
    MethodSig,
    Param,
    SpecClassDecl,
    SpecDeclaration,
    SpecExpr,
    SpecField,
    SpecInterfaceDecl,
    SpecMethod,
    SpecMethodSig,
    SpecParam,
    SpecRoute,
    SpecStmt,
    SpecType,
    Stmt,
    Type,
    UnOp,
    Visibility,
    Constructor,
    Declaration,
    Route,
    ImportDecl,
    SpecProgram,
    Program,
    stmts_view,
    types_view,
    views,
    string_views,
};
use crate::text::{push_str, str_eq, string_from_chars};
use crate::types::type_eq;
use crate::spelling::{type_text, type_text_spec};
use super::{SemanticAnalyzer, SemanticError, SpecSemErr};
use super::infer::{
    class_fits, class_get, class_hm, class_index, dummy, field_find, lemma_class_index, lemma_field_find,
    lemma_method_find, method_find, uview,
};

verus! {

// ── Pass 1: names ───────────────────────────────────────────────────────────

/// The first interface named `name`.
pub open spec fn iface_index(is: Seq<SpecInterfaceDecl>, name: Seq<char>) -> Option<int>
    decreases is.len(),
{
    if is.len() == 0 {
        None
    } else {
        match iface_index(is.drop_last(), name) {
            Some(i) => Some(i),
            None => if is.last().name == name {
                Some(is.len() - 1)
            } else {
                None
            },
        }
    }
}

/// Pass 1: every class and interface is recorded under its name; a name
/// declared twice among the classes, or twice among the interfaces, is a
/// duplicate.
pub open spec fn collect(cs: Seq<SpecClassDecl>, is: Seq<SpecInterfaceDecl>, ds: Seq<SpecDeclaration>) -> Result<
    (Seq<SpecClassDecl>, Seq<SpecInterfaceDecl>),
    SpecSemErr,
>
    decreases ds.len(),
{
    if ds.len() == 0 {
        Ok((cs, is))
    } else {
        match collect(cs, is, ds.drop_last()) {
            Err(e) => Err(e),
            Ok((c1, i1)) => match ds.last() {
                SpecDeclaration::Class(c) => if class_index(c1, c.name) is Some {
                    Err(SpecSemErr::Duplicate(c.name, dummy()))
                } else {
                    Ok((c1.push(c), i1))
                },
                SpecDeclaration::Interface(i) => if iface_index(i1, i.name) is Some {
                    Err(SpecSemErr::Duplicate(i.name, dummy()))
                } else {
                    Ok((c1, i1.push(i)))
                },
                _ => Ok((c1, i1)),
            },
        }
    }
}

// ── Pass 2: references ──────────────────────────────────────────────────────

/// The first of `names` that is no known interface.
pub open spec fn unknown_iface(is: Seq<SpecInterfaceDecl>, names: Seq<Seq<char>>) -> Option<Seq<char>>
    decreases names.len(),
{
    if names.len() == 0 {
        None
    } else {
        match unknown_iface(is, names.drop_last()) {
            Some(n) => Some(n),
            None => if iface_index(is, names.last()) is None {
                Some(names.last())
            } else {
                None
            },
        }
    }
}

/// A class extends a known class and implements known interfaces.
pub open spec fn class_refs(cs: Seq<SpecClassDecl>, is: Seq<SpecInterfaceDecl>, c: SpecClassDecl) -> Result<(), SpecSemErr> {
    match c.extends {
        Some(p) if class_index(cs, p) is None => Err(SpecSemErr::UndefinedType(p, dummy())),
        _ => match unknown_iface(is, c.implements) {
            Some(n) => Err(SpecSemErr::UndefinedType(n, dummy())),
            None => Ok(()),
        },
    }
}

/// Pass 2 over the class declarations in order.
pub open spec fn refs_all(cs: Seq<SpecClassDecl>, is: Seq<SpecInterfaceDecl>, ds: Seq<SpecDeclaration>) -> Result<(), SpecSemErr>
    decreases ds.len(),
{
    if ds.len() == 0 {
        Ok(())
    } else {
        match refs_all(cs, is, ds.drop_last()) {
            Err(e) => Err(e),
            Ok(()) => match ds.last() {
                SpecDeclaration::Class(c) => class_refs(cs, is, c),
                _ => Ok(()),
            },
        }
    }
}

// ── Pass 3: imports ─────────────────────────────────────────────────────────

/// The last `.`-separated segment of a path.
pub open spec fn last_segment(p: Seq<char>) -> Seq<char>
    decreases p.len(),
{
    if p.len() == 0 {
        p
    } else if p.last() == '.' {
        Seq::empty()
    } else {
        last_segment(p.drop_last()).push(p.last())
    }
}

/// An import names a known class or interface by its last segment, and a
/// class it names is public.
pub open spec fn import_ok(cs: Seq<SpecClassDecl>, is: Seq<SpecInterfaceDecl>, path: Seq<char>) -> Result<(), SpecSemErr> {
    let sym = last_segment(path);
    if class_index(cs, sym) is None && iface_index(is, sym) is None {
        Err(SpecSemErr::UnknownImport(path, dummy()))
    } else {
        match class_get(cs, sym) {
            Some(c) if c.visibility != Visibility::Public => Err(SpecSemErr::NotPublic(sym, dummy())),
            _ => Ok(()),
        }
    }
}

pub open spec fn imports_ok(cs: Seq<SpecClassDecl>, is: Seq<SpecInterfaceDecl>, ps: Seq<Seq<char>>) -> Result<(), SpecSemErr>
    decreases ps.len(),
{
    if ps.len() == 0 {
        Ok(())
    } else {
        match imports_ok(cs, is, ps.drop_last()) {
            Err(e) => Err(e),
            Ok(()) => import_ok(cs, is, ps.last()),
        }
    }
}

// ── Pass 4: routes ──────────────────────────────────────────────────────────

/// A route targets a known window.
pub open spec fn route_ok(cs: Seq<SpecClassDecl>, r: SpecRoute) -> Result<(), SpecSemErr> {
    match class_get(cs, r.target) {
        None => Err(SpecSemErr::UndefinedType(r.target, dummy())),
        Some(c) => if c.kind != ClassKind::Window {
            Err(SpecSemErr::NotAWindow(r.target, dummy()))
        } else {
            Ok(())
        },
    }
}

pub open spec fn routes_ok(cs: Seq<SpecClassDecl>, rs: Seq<SpecRoute>) -> Result<(), SpecSemErr>
    decreases rs.len(),
{
    if rs.len() == 0 {
        Ok(())
    } else {
        match routes_ok(cs, rs.drop_last()) {
            Err(e) => Err(e),
            Ok(()) => route_ok(cs, rs.last()),
        }
    }
}

// ── Pass 5: annotations and returns ─────────────────────────────────────────

/// An environment of names and written types; a name put again replaces
/// its type.
pub type TEnv = Seq<(Seq<char>, SpecType)>;

pub open spec fn tenv_index(e: TEnv, name: Seq<char>) -> Option<int>
    decreases e.len(),
{
    if e.len() == 0 {
        None
    } else {
        match tenv_index(e.drop_last(), name) {
            Some(i) => Some(i),
            None => if e.last().0 == name {
                Some(e.len() - 1)
            } else {
                None
            },
        }
    }
}

pub open spec fn tenv_get(e: TEnv, name: Seq<char>) -> Option<SpecType> {
    match tenv_index(e, name) {
        Some(i) => Some(e[i].1),
        None => None,
    }
}

pub open spec fn tenv_put(e: TEnv, name: Seq<char>, t: SpecType) -> TEnv {
    match tenv_index(e, name) {
        Some(i) => e.update(i, (name, t)),
        None => e.push((name, t)),
    }
}

/// The class whose field or method an access reads: `this` is the current
/// class; another receiver must have a class type.
pub open spec fn receiver_class(cs: Seq<SpecClassDecl>, cls: SpecClassDecl, env: TEnv, obj: SpecExpr) -> Option<Seq<char>>
    decreases obj, 1nat,
{
    match obj {
        SpecExpr::This => Some(cls.name),
        _ => match infer_type(cs, cls, env, obj) {
            Some(SpecType::Custom(n)) => Some(n),
            _ => None,
        },
    }
}

/// The written type of an expression, where it can be told without full
/// inference.
pub open spec fn infer_type(cs: Seq<SpecClassDecl>, cls: SpecClassDecl, env: TEnv, e: SpecExpr) -> Option<SpecType>
    decreases e, 0nat,
{
    match e {
        SpecExpr::IntLit(_) => Some(SpecType::Int),
        SpecExpr::StringLit(_) => Some(SpecType::String),
        SpecExpr::BoolLit(_) => Some(SpecType::Bool),
        SpecExpr::Ident(n) => tenv_get(env, n),
        SpecExpr::This => Some(SpecType::Custom(cls.name)),
        SpecExpr::FieldAccess(obj, field) => match receiver_class(cs, cls, env, *obj) {
            Some(n) => match class_get(cs, n) {
                Some(c) => match field_find(c.fields, field) {
                    Some(f) => Some(f.ty),
                    None => None,
                },
                None => None,
            },
            None => None,
        },
        SpecExpr::MethodCall { receiver, method, .. } => match receiver_class(cs, cls, env, *receiver) {
            Some(n) => match class_get(cs, n) {
                Some(c) => match method_find(c.methods, method) {
                    Some(m) => Some(m.return_type),
                    None => None,
                },
                None => None,
            },
            None => None,
        },
        SpecExpr::Binary { op, left, right } => match infer_type(cs, cls, env, *left) {
            None => None,
            Some(lt) => match infer_type(cs, cls, env, *right) {
                None => None,
                Some(rt) => match op {
                    BinOp::Add => if lt == SpecType::Int && rt == SpecType::Int {
                        Some(SpecType::Int)
                    } else if lt == SpecType::String || rt == SpecType::String {
                        Some(SpecType::String)
                    } else {
                        None
                    },
                    BinOp::Sub | BinOp::Mul | BinOp::Div | BinOp::Mod => if lt == SpecType::Int && rt == SpecType::Int {
                        Some(SpecType::Int)
                    } else {
                        None
                    },
                    _ => Some(SpecType::Bool),
                },
            },
        },
        SpecExpr::Unary { op, expr } => match op {
            UnOp::Not => Some(SpecType::Bool),
            UnOp::Neg => match infer_type(cs, cls, env, *expr) {
                Some(SpecType::Int) => Some(SpecType::Int),
                _ => None,
            },
        },
        _ => None,
    }
}

/// Checks one statement: an annotated `let` whose value has another known
/// type, or a `return` of a value of another known type, is a mismatch.
pub open spec fn stmt_types(cs: Seq<SpecClassDecl>, cls: SpecClassDecl, ret: SpecType, env: TEnv, st: SpecStmt) -> (
    Result<(), SpecSemErr>,
    TEnv,
)
    decreases st,
{
    match st {
        SpecStmt::Let { name, ty, init } => match ty {
            Some(declared) => match infer_type(cs, cls, env, init) {
                Some(t) if t != declared => (Err(SpecSemErr::TypeMismatch(type_text_spec(declared), type_text_spec(t), dummy())), env),
                _ => (Ok(()), tenv_put(env, name, declared)),
            },
            None => match infer_type(cs, cls, env, init) {
                Some(t) => (Ok(()), tenv_put(env, name, t)),
                None => (Ok(()), env),
            },
        },
        SpecStmt::Return { expr: Some(x), span } => if ret != SpecType::Void {
            match infer_type(cs, cls, env, x) {
                Some(found) if found != ret => (Err(SpecSemErr::TypeMismatch(type_text_spec(ret), type_text_spec(found), span)), env),
                _ => (Ok(()), env),
            }
        } else {
            (Ok(()), env)
        },
        SpecStmt::If { then_body, else_body, .. } => match stmts_types(cs, cls, ret, env, then_body).0 {
            Err(e) => (Err(e), env),
            Ok(()) => match else_body {
                Some(eb) => (stmts_types(cs, cls, ret, env, eb).0, env),
                None => (Ok(()), env),
            },
        },
        SpecStmt::While { body, .. } => (stmts_types(cs, cls, ret, env, body).0, env),
        SpecStmt::For { var, body, .. } => (
            stmts_types(cs, cls, ret, tenv_put(env, var, SpecType::Generic("T"@)), body).0,
            env,
        ),
        _ => (Ok(()), env),
    }
}

pub open spec fn stmts_types(cs: Seq<SpecClassDecl>, cls: SpecClassDecl, ret: SpecType, env: TEnv, sts: Seq<SpecStmt>) -> (
    Result<(), SpecSemErr>,
    TEnv,
)
    decreases sts,
{
    if sts.len() == 0 {
        (Ok(()), env)
    } else {
        let (r, e1) = stmts_types(cs, cls, ret, env, sts.drop_last());
        match r {
            Err(x) => (Err(x), e1),
            Ok(()) => stmt_types(cs, cls, ret, e1, sts.last()),
        }
    }
}

/// The written types of a class's fields.
pub open spec fn fields_tenv(fs: Seq<SpecField>) -> TEnv
    decreases fs.len(),
{
    if fs.len() == 0 {
        Seq::empty()
    } else {
        tenv_put(fields_tenv(fs.drop_last()), fs.last().name, fs.last().ty)
    }
}

pub open spec fn params_tenv(env: TEnv, ps: Seq<SpecParam>) -> TEnv
    decreases ps.len(),
{
    if ps.len() == 0 {
        env
    } else {
        tenv_put(params_tenv(env, ps.drop_last()), ps.last().name, ps.last().ty)
    }
}

pub open spec fn methods_types(cs: Seq<SpecClassDecl>, cls: SpecClassDecl, k: nat) -> Result<(), SpecSemErr>
    decreases k,
{
    if k == 0 || k > cls.methods.len() {
        Ok(())
    } else {
        match methods_types(cs, cls, (k - 1) as nat) {
            Err(e) => Err(e),
            Ok(()) => {
                let m = cls.methods[k - 1];
                stmts_types(cs, cls, m.return_type, params_tenv(fields_tenv(cls.fields), m.params), m.body).0
            },
        }
    }
}

/// Pass 5 on a class: its constructor's body, then each method's.
pub open spec fn class_types(cs: Seq<SpecClassDecl>, cls: SpecClassDecl) -> Result<(), SpecSemErr> {
    let ctor = match cls.constructor {
        Some(c) => stmts_types(cs, cls, SpecType::Void, params_tenv(fields_tenv(cls.fields), c.params), c.body).0,
        None => Ok(()),
    };
    match ctor {
        Err(e) => Err(e),
        Ok(()) => methods_types(cs, cls, cls.methods.len()),
    }
}

/// Pass 5 over the class declarations in order.
pub open spec fn types_all(cs: Seq<SpecClassDecl>, ds: Seq<SpecDeclaration>) -> Result<(), SpecSemErr>
    decreases ds.len(),
{
    if ds.len() == 0 {
        Ok(())
    } else {
        match types_all(cs, ds.drop_last()) {
            Err(e) => Err(e),
            Ok(()) => match ds.last() {
                SpecDeclaration::Class(c) => class_types(cs, c),
                _ => Ok(()),
            },
        }
    }
}

// ── Pass 6: type parameters ─────────────────────────────────────────────────

/// The first type parameter used in `t` and not in `declared`.
pub open spec fn undeclared(t: SpecType, declared: Seq<Seq<char>>) -> Option<Seq<char>>
    decreases t,
{
    match t {
        SpecType::Generic(p) => if declared.contains(p) {
            None
        } else {
            Some(p)
        },
        SpecType::List(inner) => undeclared(*inner, declared),
        SpecType::Function(ps, r) => match undeclared_all(ps, declared) {
            Some(p) => Some(p),
            None => undeclared(*r, declared),
        },
        _ => None,
    }
}

pub open spec fn undeclared_all(ts: Seq<SpecType>, declared: Seq<Seq<char>>) -> Option<Seq<char>>
    decreases ts,
{
    if ts.len() == 0 {
        None
    } else {
        match undeclared_all(ts.drop_last(), declared) {
            Some(p) => Some(p),
            None => undeclared(ts.last(), declared),
        }
    }
}

/// The types of parameters, in order.
pub open spec fn param_types(ps: Seq<SpecParam>) -> Seq<SpecType> {
    ps.map_values(|p: SpecParam| p.ty)
}

/// The types a method declares: its result, then its parameters.
pub open spec fn method_types(ms: Seq<SpecMethod>) -> Seq<SpecType>
    decreases ms.len(),
{
    if ms.len() == 0 {
        Seq::empty()
    } else {
        method_types(ms.drop_last()) + seq![ms.last().return_type] + param_types(ms.last().params)
    }
}

pub open spec fn sig_types(ms: Seq<SpecMethodSig>) -> Seq<SpecType>
    decreases ms.len(),
{
    if ms.len() == 0 {
        Seq::empty()
    } else {
        sig_types(ms.drop_last()) + seq![ms.last().return_type] + param_types(ms.last().params)
    }
}

/// Every type a class writes: its fields', its constructor parameters',
/// then its methods'.
pub open spec fn class_types_written(c: SpecClassDecl) -> Seq<SpecType> {
    c.fields.map_values(|f: SpecField| f.ty) + match c.constructor {
        Some(k) => param_types(k.params),
        None => Seq::empty(),
    } + method_types(c.methods)
}

/// The distinct names, in order of first appearance.
pub open spec fn distinct(ns: Seq<Seq<char>>) -> Seq<Seq<char>>
    decreases ns.len(),
{
    if ns.len() == 0 {
        Seq::empty()
    } else if ns.drop_last().contains(ns.last()) {
        distinct(ns.drop_last())
    } else {
        distinct(ns.drop_last()).push(ns.last())
    }
}

/// Names joined by `, `.
pub open spec fn join(ns: Seq<Seq<char>>) -> Seq<char>
    decreases ns.len(),
{
    if ns.len() == 0 {
        Seq::empty()
    } else if ns.len() == 1 {
        ns[0]
    } else {
        join(ns.drop_last()) + ", "@ + ns.last()
    }
}

/// A use of a type parameter that is not declared, reported with the
/// declaring item's name and the declared parameters.
pub open spec fn generics_ok(types: Seq<SpecType>, tps: Seq<Seq<char>>, context: Seq<char>) -> Result<(), SpecSemErr> {
    match undeclared_all(types, tps) {
        Some(p) => Err(SpecSemErr::UndeclaredTypeParam(p, context, join(distinct(tps)), dummy())),
        None => Ok(()),
    }
}

/// Pass 6 over the declarations in order.
pub open spec fn decls_generics(ds: Seq<SpecDeclaration>) -> Result<(), SpecSemErr>
    decreases ds.len(),
{
    if ds.len() == 0 {
        Ok(())
    } else {
        match decls_generics(ds.drop_last()) {
            Err(e) => Err(e),
            Ok(()) => match ds.last() {
                SpecDeclaration::Class(c) => generics_ok(class_types_written(c), c.type_params, c.name),
                SpecDeclaration::Interface(i) => generics_ok(sig_types(i.methods), i.type_params, i.name),
                _ => Ok(()),
            },
        }
    }
}

// ── Executable environments of written types ────────────────────────────────

pub proof fn lemma_tenv_index(e: TEnv, name: Seq<char>)
    ensures
        match tenv_index(e, name) {
            Some(i) => 0 <= i < e.len() && e[i].0 == name && forall|j: int| 0 <= j < i ==> #[trigger] e[j].0 != name,
            None => forall|j: int| 0 <= j < e.len() ==> #[trigger] e[j].0 != name,
        },
    decreases e.len(),
{
    if e.len() > 0 {
        lemma_tenv_index(e.drop_last(), name);
        match tenv_index(e.drop_last(), name) {
            Some(i) => {
                assert(e.drop_last()[i] == e[i]);
                assert forall|j: int| 0 <= j < i implies #[trigger] e[j].0 != name by {
                    assert(e.drop_last()[j] == e[j]);
                }
            },
            None => {
                assert forall|j: int| 0 <= j < e.len() - 1 implies #[trigger] e[j].0 != name by {
                    assert(e.drop_last()[j] == e[j]);
                }
            },
        }
    }
}

/// Names and their written types.
pub struct TypeEnv {
    pub entries: Vec<(String, Type)>,
}

impl TypeEnv {
    pub open spec fn tv(&self) -> TEnv {
        Seq::new(self.entries@.len(), |i: int| (self.entries@[i].0@, self.entries@[i].1@))
    }

    pub fn new() -> (e: TypeEnv)
        ensures
            e.tv() == Seq::<(Seq<char>, SpecType)>::empty(),
    {
        let e = TypeEnv { entries: Vec::new() };
        assert(e.tv() =~= Seq::<(Seq<char>, SpecType)>::empty());
        e
    }

    fn index_of(&self, name: &str) -> (r: Option<usize>)
        ensures
            match r {
                Some(i) => (i as int) < self.entries@.len() && tenv_index(self.tv(), name@) == Some(i as int),
                None => tenv_index(self.tv(), name@) is None,
            },
    {
        let mut i: usize = 0;
        while i < self.entries.len()
            invariant
                i <= self.entries@.len(),
                forall|j: int| 0 <= j < i ==> #[trigger] self.tv()[j].0 != name@,
            decreases self.entries.len() - i,
        {
            if str_eq(self.entries[i].0.as_str(), name) {
                proof {
                    lemma_tenv_index(self.tv(), name@);
                    match tenv_index(self.tv(), name@) {
                        Some(k) => {
                            if k < i {
                                assert(self.tv()[k].0 != name@);
                            }
                            if k > i {
                                assert(self.tv()[i as int].0 == name@);
                            }
                        },
                        None => {
                            assert(self.tv()[i as int].0 == name@);
                        },
                    }
                }
                return Some(i);
            }
            i = i + 1;
        }
        proof {
            lemma_tenv_index(self.tv(), name@);
            if tenv_index(self.tv(), name@) is Some {
                let k = tenv_index(self.tv(), name@)->0;
                assert(self.tv()[k].0 != name@);
            }
        }
        None
    }

    pub fn get(&self, name: &str) -> (r: Option<Type>)
        ensures
            match r {
                Some(t) => tenv_get(self.tv(), name@) == Some(t@),
                None => tenv_get(self.tv(), name@) is None,
            },
    {
        match self.index_of(name) {
            Some(i) => Some(self.entries[i].1.duplicate()),
            None => None,
        }
    }

    pub fn insert(&mut self, name: String, t: Type)
        ensures
            final(self).tv() == tenv_put(old(self).tv(), name@, t@),
    {
        let ghost e0 = self.tv();
        let ghost nv = name@;
        let ghost tv = t@;
        match self.index_of(name.as_str()) {
            Some(i) => {
                self.entries.set(i, (name, t));
                assert(self.tv() =~= e0.update(i as int, (nv, tv)));
            },
            None => {
                self.entries.push((name, t));
                assert(self.tv() =~= e0.push((nv, tv)));
            },
        }
    }

    pub fn duplicate(&self) -> (e: TypeEnv)
        ensures
            e.tv() == self.tv(),
    {
        let mut out: Vec<(String, Type)> = Vec::new();
        let mut i: usize = 0;
        while i < self.entries.len()
            invariant
                i <= self.entries@.len(),
                out@.len() == i,
                forall|j: int| 0 <= j < i ==> (#[trigger] out@[j]).0@ == self.entries@[j].0@ && out@[j].1@
                    == self.entries@[j].1@,
            decreases self.entries.len() - i,
        {
            out.push((self.entries[i].0.clone(), self.entries[i].1.duplicate()));
            i = i + 1;
        }
        let e = TypeEnv { entries: out };
        assert(e.tv() =~= self.tv());
        e
    }
}

fn fields_tenv_exec(fs: &Vec<Field>) -> (e: TypeEnv)
    ensures
        e.tv() == fields_tenv(views(fs@)),
{
    let ghost fv = views(fs@);
    let mut e = TypeEnv::new();
    let mut i: usize = 0;
    assert(fv.take(0) =~= Seq::<SpecField>::empty());
    while i < fs.len()
        invariant
            i <= fs@.len(),
            fv == views(fs@),
            e.tv() == fields_tenv(fv.take(i as int)),
        decreases fs.len() - i,
    {
        assert(fv.take(i + 1).drop_last() =~= fv.take(i as int));
        assert(fv.take(i + 1).last() == fs@[i as int]@);
        e.insert(fs[i].name.clone(), fs[i].ty.duplicate());
        i = i + 1;
    }
    assert(fv.take(fs@.len() as int) =~= fv);
    e
}

fn add_params_t(env: &mut TypeEnv, ps: &Vec<Param>)
    ensures
        final(env).tv() == params_tenv(old(env).tv(), views(ps@)),
{
    let ghost pv = views(ps@);
    let ghost e0 = env.tv();
    let mut i: usize = 0;
    assert(pv.take(0) =~= Seq::<SpecParam>::empty());
    while i < ps.len()
        invariant
            i <= ps@.len(),
            pv == views(ps@),
            env.tv() == params_tenv(e0, pv.take(i as int)),
        decreases ps.len() - i,
    {
        assert(pv.take(i + 1).drop_last() =~= pv.take(i as int));
        assert(pv.take(i + 1).last() == ps@[i as int]@);
        env.insert(ps[i].name.clone(), ps[i].ty.duplicate());
        i = i + 1;
    }
    assert(pv.take(ps@.len() as int) =~= pv);
}

fn find_field_t<'a>(fs: &'a Vec<Field>, name: &str) -> (r: Option<&'a Field>)
    ensures
        match r {
            Some(f) => field_find(views(fs@), name@) == Some(f@),
            None => field_find(views(fs@), name@) is None,
        },
{
    let ghost fv = views(fs@);
    let mut i: usize = 0;
    while i < fs.len()
        invariant
            i <= fs@.len(),
            fv == views(fs@),
            forall|j: int| 0 <= j < i ==> #[trigger] fv[j].name != name@,
        decreases fs.len() - i,
    {
        if str_eq(fs[i].name.as_str(), name) {
            proof {
                lemma_field_find(fv, name@);
                match field_find(fv, name@) {
                    Some(f) => {
                        let k = choose|k: int| 0 <= k < fv.len() && fv[k] == f && fv[k].name == name@ && forall|j: int| 0 <= j < k ==> #[trigger] fv[j].name != name@;
                        if k < i {
                            assert(fv[k].name != name@);
                        }
                        if k > i {
                            assert(fv[i as int].name == name@);
                        }
                    },
                    None => {
                        assert(fv[i as int].name == name@);
                    },
                }
            }
            return Some(&fs[i]);
        }
        i = i + 1;
    }
    proof {
        lemma_field_find(fv, name@);
        if field_find(fv, name@) is Some {
            let f = field_find(fv, name@)->0;
            let k = choose|k: int| 0 <= k < fv.len() && fv[k] == f && fv[k].name == name@ && forall|j: int| 0 <= j < k ==> #[trigger] fv[j].name != name@;
            assert(fv[k].name != name@);
        }
    }
    None
}

fn find_method_t<'a>(ms: &'a Vec<Method>, name: &str) -> (r: Option<&'a Method>)
    ensures
        match r {
            Some(m) => method_find(views(ms@), name@) == Some(m@),
            None => method_find(views(ms@), name@) is None,
        },
{
    let ghost mv = views(ms@);
    let mut i: usize = 0;
    while i < ms.len()
        invariant
            i <= ms@.len(),
            mv == views(ms@),
            forall|j: int| 0 <= j < i ==> #[trigger] mv[j].name != name@,
        decreases ms.len() - i,
    {
        if str_eq(ms[i].name.as_str(), name) {
            proof {
                lemma_method_find(mv, name@);
                match method_find(mv, name@) {
                    Some(m) => {
                        let k = choose|k: int| 0 <= k < mv.len() && mv[k] == m && mv[k].name == name@ && forall|j: int| 0 <= j < k ==> #[trigger] mv[j].name != name@;
                        if k < i {
                            assert(mv[k].name != name@);
                        }
                        if k > i {
                            assert(mv[i as int].name == name@);
                        }
                    },
                    None => {
                        assert(mv[i as int].name == name@);
                    },
                }
            }
            return Some(&ms[i]);
        }
        i = i + 1;
    }
    proof {
        lemma_method_find(mv, name@);
        if method_find(mv, name@) is Some {
            let m = method_find(mv, name@)->0;
            let k = choose|k: int| 0 <= k < mv.len() && mv[k] == m && mv[k].name == name@ && forall|j: int| 0 <= j < k ==> #[trigger] mv[j].name != name@;
            assert(mv[k].name != name@);
        }
    }
    None
}

// ── Pass 5, executable ──────────────────────────────────────────────────────

impl SemanticAnalyzer {
    /// The class whose field or method an access reads.
    fn receiver_class_exec(&self, cls: &ClassDecl, env: &TypeEnv, obj: &Expr) -> (r: Option<String>)
        ensures
            match r {
                Some(n) => receiver_class(self.cv(), cls@, env.tv(), obj@) == Some(n@),
                None => receiver_class(self.cv(), cls@, env.tv(), obj@) is None,
            },
        decreases obj, 1nat,
    {
        match obj {
            Expr::This => Some(cls.name.clone()),
            _ => match self.infer_expr_type(obj, cls, env) {
                Some(Type::Custom(n)) => Some(n),
                _ => None,
            },
        }
    }

    /// The written type of an expression where it can be told without full
    /// inference: literals, variables, `this`, fields and method results of
    /// known classes, and operators on known operands.
    pub fn infer_expr_type(&self, expr: &Expr, cls: &ClassDecl, env: &TypeEnv) -> (r: Option<Type>)
        ensures
            match r {
                Some(t) => infer_type(self.cv(), cls@, env.tv(), expr@) == Some(t@),
                None => infer_type(self.cv(), cls@, env.tv(), expr@) is None,
            },
        decreases expr, 0nat,
    {
        match expr {
            Expr::IntLit(_) => Some(Type::Int),
            Expr::StringLit(_) => Some(Type::String),
            Expr::BoolLit(_) => Some(Type::Bool),
            Expr::Ident(n) => env.get(n.as_str()),
            Expr::This => Some(Type::Custom(cls.name.clone())),
            Expr::FieldAccess(obj, field) => match self.receiver_class_exec(cls, env, obj) {
                Some(n) => match self.find_class(n.as_str()) {
                    Some(c) => match find_field_t(&c.fields, field.as_str()) {
                        Some(f) => Some(f.ty.duplicate()),
                        None => None,
                    },
                    None => None,
                },
                None => None,
            },
            Expr::MethodCall { receiver, method, .. } => match self.receiver_class_exec(cls, env, receiver) {
                Some(n) => match self.find_class(n.as_str()) {
                    Some(c) => match find_method_t(&c.methods, method.as_str()) {
                        Some(m) => Some(m.return_type.duplicate()),
                        None => None,
                    },
                    None => None,
                },
                None => None,
            },
            Expr::Binary { op, left, right } => {
                let lt = match self.infer_expr_type(left, cls, env) {
                    Some(t) => t,
                    None => {
                        return None;
                    },
                };
                let rt = match self.infer_expr_type(right, cls, env) {
                    Some(t) => t,
                    None => {
                        return None;
                    },
                };
                match op {
                    BinOp::Add => if matches!(lt, Type::Int) && matches!(rt, Type::Int) {
                        Some(Type::Int)
                    } else if matches!(lt, Type::String) || matches!(rt, Type::String) {
                        Some(Type::String)
                    } else {
                        None
                    },
                    BinOp::Sub | BinOp::Mul | BinOp::Div | BinOp::Mod => if matches!(lt, Type::Int) && matches!(
                        rt,
                        Type::Int
                    ) {
                        Some(Type::Int)
                    } else {
                        None
                    },
                    _ => Some(Type::Bool),
                }
            },
            Expr::Unary { op, expr: inner } => match op {
                UnOp::Not => Some(Type::Bool),
                UnOp::Neg => match self.infer_expr_type(inner, cls, env) {
                    Some(Type::Int) => Some(Type::Int),
                    _ => None,
                },
            },
            _ => None,
        }
    }

    /// Checks one statement against annotations and the declared result.
    fn check_stmt_types(&self, stmt: &Stmt, return_type: &Type, cls: &ClassDecl, env: &mut TypeEnv) -> (r: Result<(), SemanticError>)
        ensures
            (uview(r), final(env).tv()) == stmt_types(self.cv(), cls@, return_type@, old(env).tv(), stmt@),
        decreases stmt,
    {
        match stmt {
            Stmt::Let { name, ty, init } => match ty {
                Some(declared) => {
                    match self.infer_expr_type(init, cls, env) {
                        Some(inferred) => {
                            if !type_eq(&inferred, declared) {
                                return Err(SemanticError::TypeMismatch {
                                    expected: type_text(declared),
                                    found: type_text(&inferred),
                                    span: crate::span::Span::dummy(),
                                });
                            }
                        },
                        None => {},
                    }
                    env.insert(name.clone(), declared.duplicate());
                    Ok(())
                },
                None => {
                    match self.infer_expr_type(init, cls, env) {
                        Some(t) => env.insert(name.clone(), t),
                        None => {},
                    }
                    Ok(())
                },
            },
            Stmt::Return { expr: Some(x), span } => {
                if matches!(return_type, Type::Void) {
                    return Ok(());
                }
                match self.infer_expr_type(x, cls, env) {
                    Some(found) => {
                        if !type_eq(&found, return_type) {
                            return Err(SemanticError::TypeMismatch {
                                expected: type_text(return_type),
                                found: type_text(&found),
                                span: *span,
                            });
                        }
                    },
                    None => {},
                }
                Ok(())
            },
            Stmt::If { then_body, else_body, .. } => {
                let mut then_env = env.duplicate();
                match self.check_stmts_types(then_body, return_type, cls, &mut then_env) {
                    Ok(()) => {},
                    Err(e) => {
                        return Err(e);
                    },
                }
                match else_body {
                    Some(eb) => {
                        let mut else_env = env.duplicate();
                        self.check_stmts_types(eb, return_type, cls, &mut else_env)
                    },
                    None => Ok(()),
                }
            },
            Stmt::While { body, .. } => {
                let mut inner = env.duplicate();
                self.check_stmts_types(body, return_type, cls, &mut inner)
            },
            Stmt::For { var, body, .. } => {
                let mut inner = env.duplicate();
                inner.insert(var.clone(), Type::Generic(text_t("T")));
                self.check_stmts_types(body, return_type, cls, &mut inner)
            },
            _ => Ok(()),
        }
    }

    fn check_stmts_types(&self, stmts: &Vec<Stmt>, return_type: &Type, cls: &ClassDecl, env: &mut TypeEnv) -> (r: Result<(), SemanticError>)
        ensures
            (uview(r), final(env).tv()) == stmts_types(self.cv(), cls@, return_type@, old(env).tv(), stmts_view(stmts@)),
        decreases stmts,
    {
        let ghost e0 = env.tv();
        let ghost sv = stmts_view(stmts@);
        proof {
            crate::ast::lemma_stmts_view(stmts@);
            assert(sv.take(0) =~= Seq::<SpecStmt>::empty());
        }
        let mut i: usize = 0;
        while i < stmts.len()
            invariant
                i <= stmts@.len(),
                e0 == old(env).tv(),
                sv == stmts_view(stmts@),
                sv.len() == stmts@.len(),
                forall|j: int| 0 <= j < stmts@.len() ==> #[trigger] sv[j] == stmts@[j]@,
                stmts_types(self.cv(), cls@, return_type@, e0, sv.take(i as int)) == (Ok::<(), SpecSemErr>(()), env.tv()),
            decreases stmts.len() - i,
        {
            proof {
                assert(sv.take(i + 1).drop_last() =~= sv.take(i as int));
                assert(sv.take(i + 1).last() == sv[i as int]);
                assert(decreases_to!(stmts => stmts@));
                assert(decreases_to!(stmts@ => stmts@[i as int]));
            }
            match self.check_stmt_types(&stmts[i], return_type, cls, env) {
                Ok(()) => {},
                Err(e) => {
                    proof {
                        lemma_stmts_types_err(self.cv(), cls@, return_type@, e0, sv, i + 1);
                    }
                    return Err(e);
                },
            }
            i = i + 1;
        }
        proof {
            assert(sv.take(stmts@.len() as int) =~= sv);
        }
        Ok(())
    }

    /// Pass 5 on a class: its constructor's body, then each method's body,
    /// with the fields and parameters as the first names.
    pub fn check_class_types(&self, cls: &ClassDecl) -> (r: Result<(), SemanticError>)
        ensures
            uview(r) == class_types(self.cv(), cls@),
    {
        let field_env = fields_tenv_exec(&cls.fields);
        match &cls.constructor {
            Some(ctor) => {
                let mut env = field_env.duplicate();
                add_params_t(&mut env, &ctor.params);
                match self.check_stmts_types(&ctor.body, &Type::Void, cls, &mut env) {
                    Ok(()) => {},
                    Err(e) => {
                        return Err(e);
                    },
                }
            },
            None => {},
        }
        let mut k: usize = 0;
        while k < cls.methods.len()
            invariant
                k <= cls.methods@.len(),
                field_env.tv() == fields_tenv(views(cls.fields@)),
                methods_types(self.cv(), cls@, k as nat) == Ok::<(), SpecSemErr>(()),
                class_types(self.cv(), cls@) == methods_types(self.cv(), cls@, cls@.methods.len()),
            decreases cls.methods.len() - k,
        {
            let method = &cls.methods[k];
            let mut env = field_env.duplicate();
            add_params_t(&mut env, &method.params);
            proof {
                assert(cls@.methods[k as int] == method@);
            }
            match self.check_stmts_types(&method.body, &method.return_type, cls, &mut env) {
                Ok(()) => {},
                Err(e) => {
                    proof {
                        lemma_methods_types_err(self.cv(), cls@, (k + 1) as nat, cls@.methods.len());
                    }
                    return Err(e);
                },
            }
            k = k + 1;
        }
        Ok(())
    }
}

fn text_t(s: &str) -> (r: String)
    ensures
        r@ == s@,
{
    let mut v: Vec<char> = Vec::new();
    push_str(&mut v, s);
    string_from_chars(v.as_slice())
}

proof fn lemma_stmts_types_err(cs: Seq<SpecClassDecl>, cls: SpecClassDecl, ret: SpecType, env: TEnv, sts: Seq<SpecStmt>, k: int)
    requires
        0 <= k <= sts.len(),
        stmts_types(cs, cls, ret, env, sts.take(k)).0 is Err,
    ensures
        stmts_types(cs, cls, ret, env, sts) == stmts_types(cs, cls, ret, env, sts.take(k)),
    decreases sts.len(),
{
    if k == sts.len() {
        assert(sts.take(k) =~= sts);
    } else {
        assert(sts.drop_last().take(k) =~= sts.take(k));
        lemma_stmts_types_err(cs, cls, ret, env, sts.drop_last(), k);
    }
}

proof fn lemma_methods_types_err(cs: Seq<SpecClassDecl>, cls: SpecClassDecl, k: nat, k2: nat)
    requires
        k <= k2 <= cls.methods.len(),
        methods_types(cs, cls, k) is Err,
    ensures
        methods_types(cs, cls, k2) == methods_types(cs, cls, k),
    decreases k2 - k,
{
    if k < k2 {
        lemma_methods_types_err(cs, cls, k, (k2 - 1) as nat);
    }
}

// ── Pass 6, executable ──────────────────────────────────────────────────────

fn contains_name(v: &Vec<String>, n: &str) -> (r: bool)
    ensures
        r == string_views(v@).contains(n@),
{
    let mut i: usize = 0;
    while i < v.len()
        invariant
            i <= v@.len(),
            forall|j: int| 0 <= j < i ==> string_views(v@)[j] != n@,
        decreases v.len() - i,
    {
        if str_eq(v[i].as_str(), n) {
            assert(string_views(v@)[i as int] == n@);
            return true;
        }
        i = i + 1;
    }
    false
}

pub proof fn lemma_undeclared_all(ts: Seq<SpecType>, d: Seq<Seq<char>>, k: int)
    requires
        0 <= k < ts.len(),
    ensures
        undeclared_all(ts.take(k + 1), d) == match undeclared_all(ts.take(k), d) {
            Some(p) => Some(p),
            None => undeclared(ts[k], d),
        },
{
    assert(ts.take(k + 1).drop_last() =~= ts.take(k));
}

/// The first type parameter used in `ty` and not declared.
#[verifier::loop_isolation(false)]
fn first_undeclared(ty: &Type, declared: &Vec<String>) -> (r: Option<String>)
    ensures
        match r {
            Some(p) => undeclared(ty@, string_views(declared@)) == Some(p@),
            None => undeclared(ty@, string_views(declared@)) is None,
        },
    decreases ty,
{
    match ty {
        Type::Generic(p) => if contains_name(declared, p.as_str()) {
            None
        } else {
            Some(p.clone())
        },
        Type::List(inner) => first_undeclared(inner, declared),
        Type::Function(ps, r) => {
            let ghost tv = types_view(ps@);
            proof {
                crate::ast::lemma_types_view(ps@);
                assert(tv.take(0) =~= Seq::<SpecType>::empty());
            }
            let mut i: usize = 0;
            while i < ps.len()
                invariant
                    i <= ps@.len(),
                    tv == types_view(ps@),
                    tv.len() == ps@.len(),
                    forall|j: int| 0 <= j < ps@.len() ==> #[trigger] tv[j] == ps@[j]@,
                    undeclared_all(tv.take(i as int), string_views(declared@)) is None,
                decreases ps.len() - i,
            {
                proof {
                    assert(decreases_to!(ps => ps@));
                    assert(decreases_to!(ps@ => ps@[i as int]));
                    lemma_undeclared_all(tv, string_views(declared@), i as int);
                }
                match first_undeclared(&ps[i], declared) {
                    Some(p) => {
                        proof {
                            lemma_undeclared_prefix(tv, string_views(declared@), i + 1);
                        }
                        return Some(p);
                    },
                    None => {},
                }
                i = i + 1;
            }
            proof {
                assert(tv.take(ps@.len() as int) =~= tv);
            }
            first_undeclared(r, declared)
        },
        _ => None,
    }
}

pub proof fn lemma_undeclared_prefix(ts: Seq<SpecType>, d: Seq<Seq<char>>, k: int)
    requires
        0 <= k <= ts.len(),
        undeclared_all(ts.take(k), d) is Some,
    ensures
        undeclared_all(ts, d) == undeclared_all(ts.take(k), d),
    decreases ts.len(),
{
    if k == ts.len() {
        assert(ts.take(k) =~= ts);
    } else {
        assert(ts.drop_last().take(k) =~= ts.take(k));
        lemma_undeclared_prefix(ts.drop_last(), d, k);
    }
}

proof fn lemma_push_contains(v: Seq<Seq<char>>, a: Seq<char>, x: Seq<char>)
    ensures
        v.push(a).contains(x) <==> (v.contains(x) || a == x),
{
    if v.contains(x) {
        let i = choose|i: int| 0 <= i < v.len() && v[i] == x;
        assert(v.push(a)[i] == x);
    }
    if a == x {
        assert(v.push(a)[v.len() as int] == x);
    }
    if v.push(a).contains(x) {
        let i = choose|i: int| 0 <= i < v.push(a).len() && v.push(a)[i] == x;
        if i < v.len() {
            assert(v[i] == x);
        }
    }
}

pub proof fn lemma_distinct_contains(ns: Seq<Seq<char>>, x: Seq<char>)
    ensures
        distinct(ns).contains(x) <==> ns.contains(x),
    decreases ns.len(),
{
    if ns.len() > 0 {
        let dl = ns.drop_last();
        lemma_distinct_contains(dl, x);
        assert(dl.push(ns.last()) =~= ns);
        lemma_push_contains(dl, ns.last(), x);
        if !dl.contains(ns.last()) {
            lemma_push_contains(distinct(dl), ns.last(), x);
        } else if x == ns.last() {
            assert(dl.contains(x));
        }
    } else {
        assert(distinct(ns) =~= Seq::<Seq<char>>::empty());
    }
}

/// The declared type parameters, each once, joined by `, `.
fn declared_text(tps: &Vec<String>) -> (s: String)
    ensures
        s@ == join(distinct(string_views(tps@))),
{
    let ghost tv = string_views(tps@);
    let mut seen: Vec<String> = Vec::new();
    let mut i: usize = 0;
    assert(tv.take(0) =~= Seq::<Seq<char>>::empty());
    while i < tps.len()
        invariant
            i <= tps@.len(),
            tv == string_views(tps@),
            string_views(seen@) == distinct(tv.take(i as int)),
        decreases tps.len() - i,
    {
        proof {
            assert(tv.take(i + 1).drop_last() =~= tv.take(i as int));
            assert(tv.take(i + 1).last() == tps@[i as int]@);
            lemma_distinct_contains(tv.take(i as int), tps@[i as int]@);
        }
        if !contains_name(&seen, tps[i].as_str()) {
            let ghost before = seen@;
            seen.push(tps[i].clone());
            assert(string_views(seen@) =~= string_views(before).push(tps@[i as int]@));
        }
        i = i + 1;
    }
    assert(tv.take(tps@.len() as int) =~= tv);
    let ghost sv = string_views(seen@);
    let mut out: Vec<char> = Vec::new();
    let mut k: usize = 0;
    assert(sv.take(0) =~= Seq::<Seq<char>>::empty());
    while k < seen.len()
        invariant
            k <= seen@.len(),
            sv == string_views(seen@),
            out@ == join(sv.take(k as int)),
        decreases seen.len() - k,
    {
        proof {
            let tk = sv.take(k + 1);
            assert(tk.drop_last() =~= sv.take(k as int));
            assert(tk.last() == seen@[k as int]@);
        }
        if k > 0 {
            push_str(&mut out, ", ");
        }
        push_str(&mut out, seen[k].as_str());
        proof {
            let tk = sv.take(k + 1);
            if k == 0 {
                assert(tk.len() == 1);
                assert(join(tk) == tk[0]);
                assert(out@ =~= join(tk));
            } else {
                assert(out@ =~= join(tk));
            }
        }
        k = k + 1;
    }
    assert(sv.take(seen@.len() as int) =~= sv);
    string_from_chars(out.as_slice())
}

/// A use of an undeclared type parameter among `types`, reported with the
/// declaring item's name and the declared parameters.
fn check_declared(types: &Vec<Type>, tps: &Vec<String>, context: &String) -> (r: Result<(), SemanticError>)
    ensures
        uview(r) == generics_ok(views(types@), string_views(tps@), context@),
{
    let ghost tv = views(types@);
    assert(tv.take(0) =~= Seq::<SpecType>::empty());
    let mut i: usize = 0;
    while i < types.len()
        invariant
            i <= types@.len(),
            tv == views(types@),
            undeclared_all(tv.take(i as int), string_views(tps@)) is None,
        decreases types.len() - i,
    {
        proof {
            lemma_undeclared_all(tv, string_views(tps@), i as int);
        }
        match first_undeclared(&types[i], tps) {
            Some(p) => {
                proof {
                    lemma_undeclared_prefix(tv, string_views(tps@), i + 1);
                }
                return Err(SemanticError::UndeclaredTypeParam {
                    param: p,
                    context: context.clone(),
                    declared: declared_text(tps),
                    span: crate::span::Span::dummy(),
                });
            },
            None => {},
        }
        i = i + 1;
    }
    assert(tv.take(types@.len() as int) =~= tv);
    Ok(())
}

/// Appends the parameter types to `out`.
fn push_param_types(out: &mut Vec<Type>, ps: &Vec<Param>)
    ensures
        views(final(out)@) == views(old(out)@) + param_types(views(ps@)),
{
    let ghost o0 = views(out@);
    let mut i: usize = 0;
    while i < ps.len()
        invariant
            i <= ps@.len(),
            views(out@) == o0 + param_types(views(ps@)).take(i as int),
        decreases ps.len() - i,
    {
        let ghost before = out@;
        out.push(ps[i].ty.duplicate());
        assert(views(out@) =~= views(before).push(ps@[i as int]@.ty));
        assert(param_types(views(ps@)).take(i + 1) =~= param_types(views(ps@)).take(i as int).push(ps@[i as int]@.ty));
        i = i + 1;
    }
    assert(param_types(views(ps@)).take(ps@.len() as int) =~= param_types(views(ps@)));
}

/// The types every method declares, in order.
fn method_types_exec(out: &mut Vec<Type>, ms: &Vec<Method>)
    ensures
        views(final(out)@) == views(old(out)@) + method_types(views(ms@)),
{
    let ghost o0 = views(out@);
    let ghost mv = views(ms@);
    let mut i: usize = 0;
    assert(mv.take(0) =~= Seq::<SpecMethod>::empty());
    while i < ms.len()
        invariant
            i <= ms@.len(),
            mv == views(ms@),
            views(out@) == o0 + method_types(mv.take(i as int)),
        decreases ms.len() - i,
    {
        let ghost before = views(out@);
        out.push(ms[i].return_type.duplicate());
        assert(views(out@) =~= before.push(ms@[i as int]@.return_type));
        push_param_types(out, &ms[i].params);
        proof {
            let tk = mv.take(i + 1);
            assert(tk.drop_last() =~= mv.take(i as int));
            assert(tk.last() == ms@[i as int]@);
            assert(views(out@) =~= o0 + method_types(tk));
        }
        i = i + 1;
    }
    assert(mv.take(ms@.len() as int) =~= mv);
}

fn sig_types_exec(ms: &Vec<MethodSig>) -> (out: Vec<Type>)
    ensures
        views(out@) == sig_types(views(ms@)),
{
    let ghost mv = views(ms@);
    let mut out: Vec<Type> = Vec::new();
    let mut i: usize = 0;
    assert(mv.take(0) =~= Seq::<SpecMethodSig>::empty());
    assert(views(out@) =~= Seq::<SpecType>::empty());
    while i < ms.len()
        invariant
            i <= ms@.len(),
            mv == views(ms@),
            views(out@) == sig_types(mv.take(i as int)),
        decreases ms.len() - i,
    {
        let ghost before = views(out@);
        out.push(ms[i].return_type.duplicate());
        assert(views(out@) =~= before.push(ms@[i as int]@.return_type));
        push_param_types(&mut out, &ms[i].params);
        proof {
            let tk = mv.take(i + 1);
            assert(tk.drop_last() =~= mv.take(i as int));
            assert(tk.last() == ms@[i as int]@);
            assert(views(out@) =~= sig_types(tk));
        }
        i = i + 1;
    }
    assert(mv.take(ms@.len() as int) =~= mv);
    out
}

fn class_types_exec(c: &ClassDecl) -> (out: Vec<Type>)
    ensures
        views(out@) == class_types_written(c@),
{
    let mut out: Vec<Type> = Vec::new();
    let mut i: usize = 0;
    let ghost fv = views(c.fields@);
    while i < c.fields.len()
        invariant
            i <= c.fields@.len(),
            fv == views(c.fields@),
            views(out@) == fv.map_values(|f: SpecField| f.ty).take(i as int),
        decreases c.fields.len() - i,
    {
        let ghost before = views(out@);
        out.push(c.fields[i].ty.duplicate());
        assert(views(out@) =~= before.push(c.fields@[i as int]@.ty));
        assert(fv.map_values(|f: SpecField| f.ty).take(i + 1) =~= fv.map_values(|f: SpecField| f.ty).take(i as int).push(
            c.fields@[i as int]@.ty,
        ));
        i = i + 1;
    }
    assert(fv.map_values(|f: SpecField| f.ty).take(c.fields@.len() as int) =~= fv.map_values(|f: SpecField| f.ty));
    let ghost a = views(out@);
    match &c.constructor {
        Some(k) => push_param_types(&mut out, &k.params),
        None => {},
    }
    let ghost b = views(out@);
    method_types_exec(&mut out, &c.methods);
    proof {
        let ctor_ts = match c@.constructor {
            Some(k) => param_types(k.params),
            None => Seq::<SpecType>::empty(),
        };
        assert(b =~= a + ctor_ts);
        assert(views(out@) =~= class_types_written(c@));
    }
    out
}

// ── Copies of declarations ──────────────────────────────────────────────────

fn dup_strings(v: &Vec<String>) -> (r: Vec<String>)
    ensures
        string_views(r@) == string_views(v@),
{
    let mut out: Vec<String> = Vec::new();
    let mut i: usize = 0;
    while i < v.len()
        invariant
            i <= v@.len(),
            out@.len() == i,
            forall|j: int| 0 <= j < i ==> (#[trigger] out@[j])@ == v@[j]@,
        decreases v.len() - i,
    {
        out.push(v[i].clone());
        i = i + 1;
    }
    assert(string_views(out@) =~= string_views(v@));
    out
}

fn dup_params(v: &Vec<Param>) -> (r: Vec<Param>)
    ensures
        views(r@) == views(v@),
{
    let mut out: Vec<Param> = Vec::new();
    let mut i: usize = 0;
    while i < v.len()
        invariant
            i <= v@.len(),
            out@.len() == i,
            forall|j: int| 0 <= j < i ==> (#[trigger] out@[j])@ == v@[j]@,
        decreases v.len() - i,
    {
        out.push(v[i].duplicate());
        i = i + 1;
    }
    assert(views(out@) =~= views(v@));
    out
}

pub(crate) fn dup_stmts(v: &Vec<Stmt>) -> (r: Vec<Stmt>)
    ensures
        stmts_view(r@) == stmts_view(v@),
{
    let mut out: Vec<Stmt> = Vec::new();
    let mut i: usize = 0;
    proof {
        crate::ast::lemma_stmts_view(v@);
    }
    while i < v.len()
        invariant
            i <= v@.len(),
            out@.len() == i,
            forall|j: int| 0 <= j < i ==> (#[trigger] out@[j])@ == v@[j]@,
        decreases v.len() - i,
    {
        out.push(v[i].duplicate());
        i = i + 1;
    }
    proof {
        crate::ast::lemma_stmts_view(out@);
        crate::ast::lemma_stmts_view(v@);
        assert(stmts_view(out@) =~= stmts_view(v@));
    }
    out
}

fn dup_field(f: &Field) -> (r: Field)
    ensures
        r@ == f@,
{
    Field { visibility: f.visibility, ty: f.ty.duplicate(), name: f.name.clone() }
}

fn dup_method(m: &Method) -> (r: Method)
    ensures
        r@ == m@,
{
    Method {
        visibility: m.visibility,
        is_async: m.is_async,
        name: m.name.clone(),
        params: dup_params(&m.params),
        return_type: m.return_type.duplicate(),
        body: dup_stmts(&m.body),
    }
}

fn dup_sig(m: &MethodSig) -> (r: MethodSig)
    ensures
        r@ == m@,
{
    MethodSig { name: m.name.clone(), params: dup_params(&m.params), return_type: m.return_type.duplicate() }
}

/// A copy of a class declaration with the same view.
pub fn dup_class(c: &ClassDecl) -> (r: ClassDecl)
    ensures
        r@ == c@,
{
    let mut fields: Vec<Field> = Vec::new();
    let mut i: usize = 0;
    while i < c.fields.len()
        invariant
            i <= c.fields@.len(),
            fields@.len() == i,
            forall|j: int| 0 <= j < i ==> (#[trigger] fields@[j])@ == c.fields@[j]@,
        decreases c.fields.len() - i,
    {
        fields.push(dup_field(&c.fields[i]));
        i = i + 1;
    }
    assert(views(fields@) =~= views(c.fields@));
    let mut methods: Vec<Method> = Vec::new();
    let mut k: usize = 0;
    while k < c.methods.len()
        invariant
            k <= c.methods@.len(),
            methods@.len() == k,
            forall|j: int| 0 <= j < k ==> (#[trigger] methods@[j])@ == c.methods@[j]@,
        decreases c.methods.len() - k,
    {
        methods.push(dup_method(&c.methods[k]));
        k = k + 1;
    }
    assert(views(methods@) =~= views(c.methods@));
    let constructor = match &c.constructor {
        Some(k) => Some(Constructor { params: dup_params(&k.params), body: dup_stmts(&k.body) }),
        None => None,
    };
    let extends = match &c.extends {
        Some(p) => Some(p.clone()),
        None => None,
    };
    ClassDecl {
        visibility: c.visibility,
        kind: c.kind,
        name: c.name.clone(),
        type_params: dup_strings(&c.type_params),
        extends,
        implements: dup_strings(&c.implements),
        fields,
        constructor,
        methods,
    }
}

/// A copy of an interface declaration with the same view.
pub fn dup_iface(d: &InterfaceDecl) -> (r: InterfaceDecl)
    ensures
        r@ == d@,
{
    let mut methods: Vec<MethodSig> = Vec::new();
    let mut k: usize = 0;
    while k < d.methods.len()
        invariant
            k <= d.methods@.len(),
            methods@.len() == k,
            forall|j: int| 0 <= j < k ==> (#[trigger] methods@[j])@ == d.methods@[j]@,
        decreases d.methods.len() - k,
    {
        methods.push(dup_sig(&d.methods[k]));
        k = k + 1;
    }
    assert(views(methods@) =~= views(d.methods@));
    InterfaceDecl {
        visibility: d.visibility,
        name: d.name.clone(),
        type_params: dup_strings(&d.type_params),
        methods,
    }
}

// ── Pass 7 over the program, and the whole analysis ─────────────────────────

/// Pass 7 over the class declarations in order.
pub open spec fn hm_all(cs: Seq<SpecClassDecl>, ds: Seq<SpecDeclaration>) -> Result<(), SpecSemErr>
    decreases ds.len(),
{
    if ds.len() == 0 {
        Ok(())
    } else {
        match hm_all(cs, ds.drop_last()) {
            Err(e) => Err(e),
            Ok(()) => match ds.last() {
                SpecDeclaration::Class(c) => class_hm(cs, c),
                _ => Ok(()),
            },
        }
    }
}

/// The analysis of a program by an analyzer that knows `cs0` and `is0`:
/// names (Pass 1), references (2), imports (3), routes (4), annotations and
/// returns (5), type parameters (6) and Hindley-Milner inference (7), each
/// over the whole program before the next, stopping at the first error.
pub open spec fn analyze_spec(cs0: Seq<SpecClassDecl>, is0: Seq<SpecInterfaceDecl>, p: SpecProgram) -> Result<(), SpecSemErr> {
    match collect(cs0, is0, p.declarations) {
        Err(e) => Err(e),
        Ok((cs, is)) => match refs_all(cs, is, p.declarations) {
            Err(e) => Err(e),
            Ok(()) => match imports_ok(cs, is, p.imports) {
                Err(e) => Err(e),
                Ok(()) => match routes_ok(cs, p.routes) {
                    Err(e) => Err(e),
                    Ok(()) => match types_all(cs, p.declarations) {
                        Err(e) => Err(e),
                        Ok(()) => match decls_generics(p.declarations) {
                            Err(e) => Err(e),
                            Ok(()) => hm_all(cs, p.declarations),
                        },
                    },
                },
            },
        },
    }
}

/// Pass 7 on every class of the program stays within the `u32` variable ids.
pub open spec fn analysis_fits(cs0: Seq<SpecClassDecl>, is0: Seq<SpecInterfaceDecl>, p: SpecProgram) -> bool {
    match collect(cs0, is0, p.declarations) {
        Ok((cs, _)) => forall|i: int|
            0 <= i < p.declarations.len() ==> (#[trigger] p.declarations[i] matches SpecDeclaration::Class(c) ==> class_fits(cs, c)),
        Err(_) => true,
    }
}

proof fn lemma_collect_err(cs: Seq<SpecClassDecl>, is: Seq<SpecInterfaceDecl>, ds: Seq<SpecDeclaration>, k: int)
    requires
        0 <= k <= ds.len(),
        collect(cs, is, ds.take(k)) is Err,
    ensures
        collect(cs, is, ds) == collect(cs, is, ds.take(k)),
    decreases ds.len(),
{
    if k == ds.len() {
        assert(ds.take(k) =~= ds);
    } else {
        assert(ds.drop_last().take(k) =~= ds.take(k));
        lemma_collect_err(cs, is, ds.drop_last(), k);
    }
}

proof fn lemma_refs_err(cs: Seq<SpecClassDecl>, is: Seq<SpecInterfaceDecl>, ds: Seq<SpecDeclaration>, k: int)
    requires
        0 <= k <= ds.len(),
        refs_all(cs, is, ds.take(k)) is Err,
    ensures
        refs_all(cs, is, ds) == refs_all(cs, is, ds.take(k)),
    decreases ds.len(),
{
    if k == ds.len() {
        assert(ds.take(k) =~= ds);
    } else {
        assert(ds.drop_last().take(k) =~= ds.take(k));
        lemma_refs_err(cs, is, ds.drop_last(), k);
    }
}

proof fn lemma_imports_err(cs: Seq<SpecClassDecl>, is: Seq<SpecInterfaceDecl>, ps: Seq<Seq<char>>, k: int)
    requires
        0 <= k <= ps.len(),
        imports_ok(cs, is, ps.take(k)) is Err,
    ensures
        imports_ok(cs, is, ps) == imports_ok(cs, is, ps.take(k)),
    decreases ps.len(),
{
    if k == ps.len() {
        assert(ps.take(k) =~= ps);
    } else {
        assert(ps.drop_last().take(k) =~= ps.take(k));
        lemma_imports_err(cs, is, ps.drop_last(), k);
    }
}

proof fn lemma_routes_err(cs: Seq<SpecClassDecl>, rs: Seq<SpecRoute>, k: int)
    requires
        0 <= k <= rs.len(),
        routes_ok(cs, rs.take(k)) is Err,
    ensures
        routes_ok(cs, rs) == routes_ok(cs, rs.take(k)),
    decreases rs.len(),
{
    if k == rs.len() {
        assert(rs.take(k) =~= rs);
    } else {
        assert(rs.drop_last().take(k) =~= rs.take(k));
        lemma_routes_err(cs, rs.drop_last(), k);
    }
}

proof fn lemma_types_all_err(cs: Seq<SpecClassDecl>, ds: Seq<SpecDeclaration>, k: int)
    requires
        0 <= k <= ds.len(),
        types_all(cs, ds.take(k)) is Err,
    ensures
        types_all(cs, ds) == types_all(cs, ds.take(k)),
    decreases ds.len(),
{
    if k == ds.len() {
        assert(ds.take(k) =~= ds);
    } else {
        assert(ds.drop_last().take(k) =~= ds.take(k));
        lemma_types_all_err(cs, ds.drop_last(), k);
    }
}

proof fn lemma_generics_err(ds: Seq<SpecDeclaration>, k: int)
    requires
        0 <= k <= ds.len(),
        decls_generics(ds.take(k)) is Err,
    ensures
        decls_generics(ds) == decls_generics(ds.take(k)),
    decreases ds.len(),
{
    if k == ds.len() {
        assert(ds.take(k) =~= ds);
    } else {
        assert(ds.drop_last().take(k) =~= ds.take(k));
        lemma_generics_err(ds.drop_last(), k);
    }
}

proof fn lemma_hm_all_err(cs: Seq<SpecClassDecl>, ds: Seq<SpecDeclaration>, k: int)
    requires
        0 <= k <= ds.len(),
        hm_all(cs, ds.take(k)) is Err,
    ensures
        hm_all(cs, ds) == hm_all(cs, ds.take(k)),
    decreases ds.len(),
{
    if k == ds.len() {
        assert(ds.take(k) =~= ds);
    } else {
        assert(ds.drop_last().take(k) =~= ds.take(k));
        lemma_hm_all_err(cs, ds.drop_last(), k);
    }
}

pub proof fn lemma_iface_index(is: Seq<SpecInterfaceDecl>, name: Seq<char>)
    ensures
        match iface_index(is, name) {
            Some(i) => 0 <= i < is.len() && is[i].name == name && forall|j: int| 0 <= j < i ==> #[trigger] is[j].name != name,
            None => forall|j: int| 0 <= j < is.len() ==> #[trigger] is[j].name != name,
        },
    decreases is.len(),
{
    if is.len() > 0 {
        lemma_iface_index(is.drop_last(), name);
        match iface_index(is.drop_last(), name) {
            Some(i) => {
                assert(is.drop_last()[i] == is[i]);
                assert forall|j: int| 0 <= j < i implies #[trigger] is[j].name != name by {
                    assert(is.drop_last()[j] == is[j]);
                }
            },
            None => {
                assert forall|j: int| 0 <= j < is.len() - 1 implies #[trigger] is[j].name != name by {
                    assert(is.drop_last()[j] == is[j]);
                }
            },
        }
    }
}

/// The last `.`-separated segment of a path.
fn last_segment_exec(path: &str) -> (r: String)
    ensures
        r@ == last_segment(path@),
{
    let cs = crate::text::chars_vec(path);
    let mut start: usize = 0;
    let mut i: usize = 0;
    assert(cs@.take(0) =~= Seq::<char>::empty());
    while i < cs.len()
        invariant
            i <= cs@.len(),
            start <= i,
            cs@ == path@,
            last_segment(cs@.take(i as int)) == cs@.take(i as int).skip(start as int),
        decreases cs.len() - i,
    {
        proof {
            let t = cs@.take(i + 1);
            assert(t.drop_last() =~= cs@.take(i as int));
            assert(t.last() == cs@[i as int]);
        }
        if cs[i] == '.' {
            start = i + 1;
            assert(cs@.take(i + 1).skip(start as int) =~= Seq::<char>::empty());
        } else {
            assert(cs@.take(i + 1).skip(start as int) =~= cs@.take(i as int).skip(start as int).push(cs@[i as int]));
        }
        i = i + 1;
    }
    assert(cs@.take(cs@.len() as int) =~= cs@);
    let mut out: Vec<char> = Vec::new();
    let mut k: usize = start;
    while k < cs.len()
        invariant
            start <= k <= cs@.len(),
            out@ == cs@.subrange(start as int, k as int),
        decreases cs.len() - k,
    {
        out.push(cs[k]);
        assert(out@ =~= cs@.subrange(start as int, k + 1));
        k = k + 1;
    }
    assert(out@ =~= cs@.skip(start as int));
    string_from_chars(out.as_slice())
}

impl SemanticAnalyzer {
    /// The first known interface named `name`.
    fn find_iface(&self, name: &str) -> (r: Option<&InterfaceDecl>)
        ensures
            match r {
                Some(d) => iface_index(self.iv(), name@) is Some,
                None => iface_index(self.iv(), name@) is None,
            },
    {
        let ghost iv = self.iv();
        let mut i: usize = 0;
        while i < self.interfaces.len()
            invariant
                i <= self.interfaces@.len(),
                iv == self.iv(),
                forall|j: int| 0 <= j < i ==> #[trigger] iv[j].name != name@,
            decreases self.interfaces.len() - i,
        {
            if str_eq(self.interfaces[i].name.as_str(), name) {
                proof {
                    lemma_iface_index(iv, name@);
                    if iface_index(iv, name@) is None {
                        assert(iv[i as int].name == name@);
                    }
                }
                return Some(&self.interfaces[i]);
            }
            i = i + 1;
        }
        proof {
            lemma_iface_index(iv, name@);
            if iface_index(iv, name@) is Some {
                let k = iface_index(iv, name@)->0;
                assert(iv[k].name != name@);
            }
        }
        None
    }

    /// Pass 1: records every class and interface; a repeated name is a
    /// duplicate.
    fn collect_names(&mut self, ds: &Vec<Declaration>) -> (r: Result<(), SemanticError>)
        ensures
            match collect(old(self).cv(), old(self).iv(), views(ds@)) {
                Ok((c, i)) => r is Ok && final(self).cv() == c && final(self).iv() == i,
                Err(e) => r matches Err(x) && x@ == e,
            },
    {
        let ghost c0 = self.cv();
        let ghost i0 = self.iv();
        let ghost dv = views(ds@);
        let mut k: usize = 0;
        assert(dv.take(0) =~= Seq::<SpecDeclaration>::empty());
        while k < ds.len()
            invariant
                k <= ds@.len(),
                c0 == old(self).cv(),
                i0 == old(self).iv(),
                dv == views(ds@),
                collect(c0, i0, dv.take(k as int)) == Ok::<(Seq<SpecClassDecl>, Seq<SpecInterfaceDecl>), SpecSemErr>((self.cv(), self.iv())),
            decreases ds.len() - k,
        {
            proof {
                assert(dv.take(k + 1).drop_last() =~= dv.take(k as int));
                assert(dv.take(k + 1).last() == ds@[k as int]@);
            }
            match &ds[k] {
                Declaration::Class(c) => {
                    if self.find_class(c.name.as_str()).is_some() {
                        proof {
                            lemma_collect_err(c0, i0, dv, k + 1);
                        }
                        return Err(SemanticError::Duplicate { name: c.name.clone(), span: crate::span::Span::dummy() });
                    }
                    let ghost before = self.classes@;
                    self.classes.push(dup_class(c));
                    assert(views(self.classes@) =~= views(before).push(c@));
                },
                Declaration::Interface(d) => {
                    if self.find_iface(d.name.as_str()).is_some() {
                        proof {
                            lemma_collect_err(c0, i0, dv, k + 1);
                        }
                        return Err(SemanticError::Duplicate { name: d.name.clone(), span: crate::span::Span::dummy() });
                    }
                    let ghost before = self.interfaces@;
                    self.interfaces.push(dup_iface(d));
                    assert(views(self.interfaces@) =~= views(before).push(d@));
                },
                _ => {},
            }
            k = k + 1;
        }
        assert(dv.take(ds@.len() as int) =~= dv);
        Ok(())
    }

    /// Pass 2 on a class: it extends a known class and implements known
    /// interfaces.
    fn check_class(&self, c: &ClassDecl) -> (r: Result<(), SemanticError>)
        ensures
            uview(r) == class_refs(self.cv(), self.iv(), c@),
    {
        match &c.extends {
            Some(p) => {
                if self.find_class(p.as_str()).is_none() {
                    return Err(SemanticError::UndefinedType { name: p.clone(), span: crate::span::Span::dummy() });
                }
            },
            None => {},
        }
        let ghost nv = string_views(c.implements@);
        let mut k: usize = 0;
        assert(nv.take(0) =~= Seq::<Seq<char>>::empty());
        while k < c.implements.len()
            invariant
                k <= c.implements@.len(),
                nv == string_views(c.implements@),
                unknown_iface(self.iv(), nv.take(k as int)) is None,
                class_refs(self.cv(), self.iv(), c@) == match unknown_iface(self.iv(), nv) {
                    Some(n) => Err(SpecSemErr::UndefinedType(n, dummy())),
                    None => Ok(()),
                },
            decreases c.implements.len() - k,
        {
            proof {
                assert(nv.take(k + 1).drop_last() =~= nv.take(k as int));
                assert(nv.take(k + 1).last() == c.implements@[k as int]@);
            }
            if self.find_iface(c.implements[k].as_str()).is_none() {
                proof {
                    lemma_unknown_prefix(self.iv(), nv, k + 1);
                }
                return Err(SemanticError::UndefinedType { name: c.implements[k].clone(), span: crate::span::Span::dummy() });
            }
            k = k + 1;
        }
        assert(nv.take(c.implements@.len() as int) =~= nv);
        Ok(())
    }
}

proof fn lemma_unknown_prefix(is: Seq<SpecInterfaceDecl>, ns: Seq<Seq<char>>, k: int)
    requires
        0 <= k <= ns.len(),
        unknown_iface(is, ns.take(k)) is Some,
    ensures
        unknown_iface(is, ns) == unknown_iface(is, ns.take(k)),
    decreases ns.len(),
{
    if k == ns.len() {
        assert(ns.take(k) =~= ns);
    } else {
        assert(ns.drop_last().take(k) =~= ns.take(k));
        lemma_unknown_prefix(is, ns.drop_last(), k);
    }
}

impl SemanticAnalyzer {
    /// Pass 2 over the declarations.
    fn pass_refs(&self, ds: &Vec<Declaration>) -> (r: Result<(), SemanticError>)
        ensures
            uview(r) == refs_all(self.cv(), self.iv(), views(ds@)),
    {
        let ghost dv = views(ds@);
        let mut k: usize = 0;
        assert(dv.take(0) =~= Seq::<SpecDeclaration>::empty());
        while k < ds.len()
            invariant
                k <= ds@.len(),
                dv == views(ds@),
                refs_all(self.cv(), self.iv(), dv.take(k as int)) == Ok::<(), SpecSemErr>(()),
            decreases ds.len() - k,
        {
            proof {
                assert(dv.take(k + 1).drop_last() =~= dv.take(k as int));
                assert(dv.take(k + 1).last() == ds@[k as int]@);
            }
            match &ds[k] {
                Declaration::Class(c) => match self.check_class(c) {
                    Ok(()) => {},
                    Err(e) => {
                        proof {
                            lemma_refs_err(self.cv(), self.iv(), dv, k + 1);
                        }
                        return Err(e);
                    },
                },
                _ => {},
            }
            k = k + 1;
        }
        assert(dv.take(ds@.len() as int) =~= dv);
        Ok(())
    }

    /// Pass 3 over the imports.
    fn pass_imports(&self, imports: &Vec<ImportDecl>) -> (r: Result<(), SemanticError>)
        ensures
            uview(r) == imports_ok(self.cv(), self.iv(), views(imports@)),
    {
        let ghost pv = views(imports@);
        let ghost cs = self.cv();
        let ghost is = self.iv();
        let mut k: usize = 0;
        assert(pv.take(0) =~= Seq::<Seq<char>>::empty());
        while k < imports.len()
            invariant
                k <= imports@.len(),
                pv == views(imports@),
                cs == self.cv(),
                is == self.iv(),
                imports_ok(cs, is, pv.take(k as int)) == Ok::<(), SpecSemErr>(()),
            decreases imports.len() - k,
        {
            proof {
                assert(pv.take(k + 1).drop_last() =~= pv.take(k as int));
                assert(pv.take(k + 1).last() == imports@[k as int].path@);
            }
            let path = &imports[k].path;
            let sym = last_segment_exec(path.as_str());
            if self.find_class(sym.as_str()).is_none() && self.find_iface(sym.as_str()).is_none() {
                proof {
                    lemma_class_index(cs, sym@);
                    lemma_imports_err(cs, is, pv, k + 1);
                }
                return Err(SemanticError::UnknownImport { path: path.clone(), span: crate::span::Span::dummy() });
            }
            match self.find_class(sym.as_str()) {
                Some(c) => match c.visibility {
                    Visibility::Public => {},
                    _ => {
                        proof {
                            lemma_imports_err(cs, is, pv, k + 1);
                        }
                        return Err(SemanticError::NotPublic { name: sym, span: crate::span::Span::dummy() });
                    },
                },
                None => {},
            }
            k = k + 1;
        }
        assert(pv.take(imports@.len() as int) =~= pv);
        Ok(())
    }

    /// Pass 4 over the routes.
    fn pass_routes(&self, routes: &Vec<Route>) -> (r: Result<(), SemanticError>)
        ensures
            uview(r) == routes_ok(self.cv(), views(routes@)),
    {
        let ghost rv = views(routes@);
        let ghost cs = self.cv();
        let mut k: usize = 0;
        assert(rv.take(0) =~= Seq::<SpecRoute>::empty());
        while k < routes.len()
            invariant
                k <= routes@.len(),
                rv == views(routes@),
                cs == self.cv(),
                routes_ok(cs, rv.take(k as int)) == Ok::<(), SpecSemErr>(()),
            decreases routes.len() - k,
        {
            proof {
                assert(rv.take(k + 1).drop_last() =~= rv.take(k as int));
                assert(rv.take(k + 1).last() == routes@[k as int]@);
            }
            let route = &routes[k];
            match self.find_class(route.target.as_str()) {
                None => {
                    proof {
                        lemma_routes_err(cs, rv, k + 1);
                    }
                    return Err(SemanticError::UndefinedType { name: route.target.clone(), span: crate::span::Span::dummy() });
                },
                Some(c) => match c.kind {
                    ClassKind::Window => {},
                    _ => {
                        proof {
                            lemma_routes_err(cs, rv, k + 1);
                        }
                        return Err(SemanticError::NotAWindow { name: route.target.clone(), span: crate::span::Span::dummy() });
                    },
                },
            }
            k = k + 1;
        }
        assert(rv.take(routes@.len() as int) =~= rv);
        Ok(())
    }

    /// Pass 5 over the declarations.
    fn pass_types(&self, ds: &Vec<Declaration>) -> (r: Result<(), SemanticError>)
        ensures
            uview(r) == types_all(self.cv(), views(ds@)),
    {
        let ghost dv = views(ds@);
        let mut k: usize = 0;
        assert(dv.take(0) =~= Seq::<SpecDeclaration>::empty());
        while k < ds.len()
            invariant
                k <= ds@.len(),
                dv == views(ds@),
                types_all(self.cv(), dv.take(k as int)) == Ok::<(), SpecSemErr>(()),
            decreases ds.len() - k,
        {
            proof {
                assert(dv.take(k + 1).drop_last() =~= dv.take(k as int));
                assert(dv.take(k + 1).last() == ds@[k as int]@);
            }
            match &ds[k] {
                Declaration::Class(c) => match self.check_class_types(c) {
                    Ok(()) => {},
                    Err(e) => {
                        proof {
                            lemma_types_all_err(self.cv(), dv, k + 1);
                        }
                        return Err(e);
                    },
                },
                _ => {},
            }
            k = k + 1;
        }
        assert(dv.take(ds@.len() as int) =~= dv);
        Ok(())
    }

    /// Pass 7 over the declarations.
    fn pass_hm(&self, ds: &Vec<Declaration>) -> (r: Result<(), SemanticError>)
        requires
            forall|i: int| 0 <= i < ds@.len() ==> (#[trigger] ds@[i]@ matches SpecDeclaration::Class(c) ==> class_fits(self.cv(), c)),
        ensures
            uview(r) == hm_all(self.cv(), views(ds@)),
    {
        let ghost dv = views(ds@);
        let mut k: usize = 0;
        assert(dv.take(0) =~= Seq::<SpecDeclaration>::empty());
        while k < ds.len()
            invariant
                k <= ds@.len(),
                dv == views(ds@),
                forall|i: int| 0 <= i < ds@.len() ==> (#[trigger] ds@[i]@ matches SpecDeclaration::Class(c) ==> class_fits(self.cv(), c)),
                hm_all(self.cv(), dv.take(k as int)) == Ok::<(), SpecSemErr>(()),
            decreases ds.len() - k,
        {
            proof {
                assert(dv.take(k + 1).drop_last() =~= dv.take(k as int));
                assert(dv.take(k + 1).last() == ds@[k as int]@);
            }
            match &ds[k] {
                Declaration::Class(c) => {
                    proof {
                        assert(ds@[k as int]@ matches SpecDeclaration::Class(x) ==> class_fits(self.cv(), x));
                    }
                    match self.check_class_hm(c) {
                        Ok(()) => {},
                        Err(e) => {
                            proof {
                                lemma_hm_all_err(self.cv(), dv, k + 1);
                            }
                            return Err(e);
                        },
                    }
                },
                _ => {},
            }
            k = k + 1;
        }
        assert(dv.take(ds@.len() as int) =~= dv);
        Ok(())
    }

    /// Analyzes a program: names (Pass 1), references (2), imports (3),
    /// routes (4), annotations and returns (5), type parameters (6) and
    /// Hindley-Milner inference (7), each over the whole program before the
    /// next; the first error found is the result.
    pub fn analyze(&mut self, program: &Program) -> (r: Result<(), SemanticError>)
        requires
            analysis_fits(old(self).cv(), old(self).iv(), program@),
        ensures
            uview(r) == analyze_spec(old(self).cv(), old(self).iv(), program@),
    {
        match self.collect_names(&program.declarations) {
            Ok(()) => {},
            Err(e) => {
                return Err(e);
            },
        }
        match self.pass_refs(&program.declarations) {
            Ok(()) => {},
            Err(e) => {
                return Err(e);
            },
        }
        match self.pass_imports(&program.imports) {
            Ok(()) => {},
            Err(e) => {
                return Err(e);
            },
        }
        match self.pass_routes(&program.routes) {
            Ok(()) => {},
            Err(e) => {
                return Err(e);
            },
        }
        match self.pass_types(&program.declarations) {
            Ok(()) => {},
            Err(e) => {
                return Err(e);
            },
        }
        match pass_generics(&program.declarations) {
            Ok(()) => {},
            Err(e) => {
                return Err(e);
            },
        }
        proof {
            assert forall|i: int| 0 <= i < program.declarations@.len() implies (#[trigger] program.declarations@[i]@ matches SpecDeclaration::Class(c) ==> class_fits(self.cv(), c)) by {
                assert(program@.declarations[i] == program.declarations@[i]@);
            }
        }
        self.pass_hm(&program.declarations)
    }
}

/// Pass 6 over the declarations.
fn pass_generics(ds: &Vec<Declaration>) -> (r: Result<(), SemanticError>)
    ensures
        uview(r) == decls_generics(views(ds@)),
{
    let ghost dv = views(ds@);
    let mut k: usize = 0;
    assert(dv.take(0) =~= Seq::<SpecDeclaration>::empty());
    while k < ds.len()
        invariant
            k <= ds@.len(),
            dv == views(ds@),
            decls_generics(dv.take(k as int)) == Ok::<(), SpecSemErr>(()),
        decreases ds.len() - k,
    {
        proof {
            assert(dv.take(k + 1).drop_last() =~= dv.take(k as int));
            assert(dv.take(k + 1).last() == ds@[k as int]@);
        }
        let res = match &ds[k] {
            Declaration::Class(c) => check_declared(&class_types_exec(c), &c.type_params, &c.name),
            Declaration::Interface(d) => check_declared(&sig_types_exec(&d.methods), &d.type_params, &d.name),
            _ => Ok(()),
        };
        match res {
            Ok(()) => {},
            Err(e) => {
                proof {
                    lemma_generics_err(dv, k + 1);
                }
                return Err(e);
            },
        }
        k = k + 1;
    }
    assert(dv.take(ds@.len() as int) =~= dv);
    Ok(())
}

// ── What a successful analysis guarantees ────────────────────────────────────

/// The class declarations of a program, in order.
pub open spec fn classes_of(ds: Seq<SpecDeclaration>) -> Seq<SpecClassDecl>
    decreases ds.len(),
{
    if ds.len() == 0 {
        Seq::empty()
    } else {
        match ds.last() {
            SpecDeclaration::Class(c) => classes_of(ds.drop_last()).push(c),
            _ => classes_of(ds.drop_last()),
        }
    }
}

pub open spec fn distinct_names(cs: Seq<SpecClassDecl>) -> bool {
    forall|i: int, j: int| 0 <= i < j < cs.len() ==> #[trigger] cs[i].name != #[trigger] cs[j].name
}

proof fn lemma_collect_classes(cs0: Seq<SpecClassDecl>, is0: Seq<SpecInterfaceDecl>, ds: Seq<SpecDeclaration>)
    requires
        distinct_names(cs0),
        collect(cs0, is0, ds) is Ok,
    ensures
        collect(cs0, is0, ds)->Ok_0.0 == cs0 + classes_of(ds),
        distinct_names(collect(cs0, is0, ds)->Ok_0.0),
    decreases ds.len(),
{
    if ds.len() > 0 {
        lemma_collect_classes(cs0, is0, ds.drop_last());
        let (c1, i1) = collect(cs0, is0, ds.drop_last())->Ok_0;
        match ds.last() {
            SpecDeclaration::Class(c) => {
                lemma_class_index(c1, c.name);
                assert(c1.push(c) =~= cs0 + classes_of(ds));
                assert forall|i: int, j: int| 0 <= i < j < c1.push(c).len() implies #[trigger] c1.push(c)[i].name
                    != #[trigger] c1.push(c)[j].name by {
                    if j == c1.len() {
                        assert(c1[i].name != c.name);
                    } else {
                        assert(c1[i].name != c1[j].name);
                    }
                }
            },
            _ => {
                assert(c1 =~= cs0 + classes_of(ds));
            },
        }
    } else {
        assert(cs0 + classes_of(ds) =~= cs0);
    }
}

proof fn lemma_routes_each(cs: Seq<SpecClassDecl>, rs: Seq<SpecRoute>)
    requires
        routes_ok(cs, rs) is Ok,
    ensures
        forall|k: int| 0 <= k < rs.len() ==> #[trigger] route_ok(cs, rs[k]) is Ok,
    decreases rs.len(),
{
    if rs.len() > 0 {
        lemma_routes_each(cs, rs.drop_last());
        assert forall|k: int| 0 <= k < rs.len() implies #[trigger] route_ok(cs, rs[k]) is Ok by {
            if k < rs.len() - 1 {
                assert(rs.drop_last()[k] == rs[k]);
            }
        }
    }
}

/// A program that passes the analysis declares each class name once, and
/// every route of it targets one of its window classes.
pub proof fn lemma_analysis_guarantees(p: SpecProgram)
    requires
        analyze_spec(Seq::empty(), Seq::empty(), p) is Ok,
    ensures
        distinct_names(classes_of(p.declarations)),
        forall|k: int|
            0 <= k < p.routes.len() ==> exists|i: int|
                0 <= i < classes_of(p.declarations).len() && #[trigger] classes_of(p.declarations)[i].name
                    == #[trigger] p.routes[k].target && classes_of(p.declarations)[i].kind == ClassKind::Window,
{
    let e0 = Seq::<SpecClassDecl>::empty();
    let i0 = Seq::<SpecInterfaceDecl>::empty();
    lemma_collect_classes(e0, i0, p.declarations);
    let cs = collect(e0, i0, p.declarations)->Ok_0.0;
    assert(cs =~= classes_of(p.declarations));
    lemma_routes_each(cs, p.routes);
    assert forall|k: int| 0 <= k < p.routes.len() implies exists|i: int|
        0 <= i < classes_of(p.declarations).len() && #[trigger] classes_of(p.declarations)[i].name
            == #[trigger] p.routes[k].target && classes_of(p.declarations)[i].kind == ClassKind::Window by {
        assert(route_ok(cs, p.routes[k]) is Ok);
        lemma_class_index(cs, p.routes[k].target);
        let i = class_index(cs, p.routes[k].target)->0;
        assert(cs[i].name == p.routes[k].target);
    }
}

} // verus!
