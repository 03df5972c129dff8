//! Nexa Intermediate Representation (NIR).
//!
//! The IR sits between the optimized AST and any backend (JS, WASM, native).
//! It is intentionally target-agnostic: no JS syntax, no HTML concepts.
use vstd::prelude::*;
use crate::ast::views;

verus! {

// ── Value types ───────────────────────────────────────────────────────────────

/// A resolved type in the IR.
#[derive(Debug)]
pub enum IrType {
    Int,
    Bool,
    String,
    Void,
    /// An opaque user-defined class/component/window.
    Named(String),
    /// A list of values.
    List(Box<IrType>),
    /// A callable: (params) → return_type.
    Fn(Vec<IrType>, Box<IrType>),
    /// Type not yet inferred (placeholder from lower pass).
    Unknown,
}

/// The mathematical value of an [`IrType`].
pub enum SpecIrType {
    Int,
    Bool,
    String,
    Void,
    Named(Seq<char>),
    List(Box<SpecIrType>),
    Fn(Seq<SpecIrType>, Box<SpecIrType>),
    Unknown,
}

pub open spec fn ir_type_view(t: IrType) -> SpecIrType
    decreases t,
{
    match t {
        IrType::Int => SpecIrType::Int,
        IrType::Bool => SpecIrType::Bool,
        IrType::String => SpecIrType::String,
        IrType::Void => SpecIrType::Void,
        IrType::Named(n) => SpecIrType::Named(n@),
        IrType::List(inner) => SpecIrType::List(Box::new(ir_type_view(*inner))),
        IrType::Fn(ps, r) => SpecIrType::Fn(ir_types_view(ps@), Box::new(ir_type_view(*r))),
        IrType::Unknown => SpecIrType::Unknown,
    }
}

pub open spec fn ir_types_view(s: Seq<IrType>) -> Seq<SpecIrType>
    decreases s,
{
    if s.len() == 0 {
        Seq::empty()
    } else {
        ir_types_view(s.drop_last()).push(ir_type_view(s.last()))
    }
}

impl View for IrType {
    type V = SpecIrType;

    open spec fn view(&self) -> SpecIrType {
        ir_type_view(*self)
    }
}

impl IrType {
    /// A copy with the same view.
    #[verifier::loop_isolation(false)]
    pub fn duplicate(&self) -> (t: IrType)
        ensures
            t@ == self@,
        decreases self,
    {
        match self {
            IrType::Int => IrType::Int,
            IrType::Bool => IrType::Bool,
            IrType::String => IrType::String,
            IrType::Void => IrType::Void,
            IrType::Named(n) => IrType::Named(n.clone()),
            IrType::List(inner) => IrType::List(Box::new((**inner).duplicate())),
            IrType::Fn(ps, r) => {
                let mut out: Vec<IrType> = Vec::new();
                let mut i: usize = 0;
                while i < ps.len()
                    invariant
                        i <= ps.len(),
                        ir_types_view(out@) == ir_types_view(ps@.take(i as int)),
                    decreases ps.len() - i,
                {
                    proof {
                        assert(decreases_to!(ps => ps@));
                        assert(decreases_to!(ps@ => ps@[i as int]));
                    }
                    let t = ps[i].duplicate();
                    let ghost prev = out@;
                    out.push(t);
                    assert(ps@.take(i + 1).drop_last() =~= ps@.take(i as int));
                    assert(out@.drop_last() =~= prev);
                    i = i + 1;
                }
                assert(ps@.take(ps.len() as int) =~= ps@);
                IrType::Fn(out, Box::new((**r).duplicate()))
            },
            IrType::Unknown => IrType::Unknown,
        }
    }
}

impl Clone for IrType {
    fn clone(&self) -> (t: IrType)
        ensures
            t@ == self@,
    {
        self.duplicate()
    }
}

// ── Expressions ───────────────────────────────────────────────────────────────

#[derive(Debug)]
pub enum IrExpr {
    Int(i64),
    Bool(bool),
    Str(String),
    /// A local variable or parameter reference.
    Local(String),
    /// `self` / `this` reference.
    SelfRef,
    /// Field access: `receiver.field`.
    Field { receiver: Box<IrExpr>, name: String },
    /// Method call: `receiver.method(args)`.
    Call { receiver: Box<IrExpr>, method: String, args: Vec<IrExpr> },
    /// Free function / constructor call: `callee(args)`.
    Invoke { callee: String, args: Vec<IrExpr> },
    /// Anonymous function: `|params| body`.
    Closure { params: Vec<IrParam>, body: Box<IrExpr> },
    /// UI node: a named tag with children (replaces AST Block).
    Node { tag: String, children: Vec<IrExpr> },
    /// Binary operation.
    Bin { op: IrBinOp, lhs: Box<IrExpr>, rhs: Box<IrExpr> },
    /// Unary operation.
    Unary { op: IrUnOp, operand: Box<IrExpr> },
    /// `await expr`  — inside an async method.
    Await(Box<IrExpr>),
    /// `[e1, e2, ...]`  — list / array literal.
    List(Vec<IrExpr>),
    /// `import("path")`  — dynamic lazy import.
    DynamicImport(String),
}

/// The mathematical value of an [`IrExpr`].
pub enum SpecIrExpr {
    Int(i64),
    Bool(bool),
    Str(Seq<char>),
    Local(Seq<char>),
    SelfRef,
    Field { receiver: Box<SpecIrExpr>, name: Seq<char> },
    Call { receiver: Box<SpecIrExpr>, method: Seq<char>, args: Seq<SpecIrExpr> },
    Invoke { callee: Seq<char>, args: Seq<SpecIrExpr> },
    Closure { params: Seq<SpecIrParam>, body: Box<SpecIrExpr> },
    Node { tag: Seq<char>, children: Seq<SpecIrExpr> },
    Bin { op: IrBinOp, lhs: Box<SpecIrExpr>, rhs: Box<SpecIrExpr> },
    Unary { op: IrUnOp, operand: Box<SpecIrExpr> },
    Await(Box<SpecIrExpr>),
    List(Seq<SpecIrExpr>),
    DynamicImport(Seq<char>),
}

pub open spec fn ir_expr_view(e: IrExpr) -> SpecIrExpr
    decreases e,
{
    match e {
        IrExpr::Int(n) => SpecIrExpr::Int(n),
        IrExpr::Bool(b) => SpecIrExpr::Bool(b),
        IrExpr::Str(s) => SpecIrExpr::Str(s@),
        IrExpr::Local(s) => SpecIrExpr::Local(s@),
        IrExpr::SelfRef => SpecIrExpr::SelfRef,
        IrExpr::Field { receiver, name } => SpecIrExpr::Field {
            receiver: Box::new(ir_expr_view(*receiver)),
            name: name@,
        },
        IrExpr::Call { receiver, method, args } => SpecIrExpr::Call {
            receiver: Box::new(ir_expr_view(*receiver)),
            method: method@,
            args: ir_exprs_view(args@),
        },
        IrExpr::Invoke { callee, args } => SpecIrExpr::Invoke { callee: callee@, args: ir_exprs_view(args@) },
        IrExpr::Closure { params, body } => SpecIrExpr::Closure {
            params: views(params@),
            body: Box::new(ir_expr_view(*body)),
        },
        IrExpr::Node { tag, children } => SpecIrExpr::Node { tag: tag@, children: ir_exprs_view(children@) },
        IrExpr::Bin { op, lhs, rhs } => SpecIrExpr::Bin {
            op,
            lhs: Box::new(ir_expr_view(*lhs)),
            rhs: Box::new(ir_expr_view(*rhs)),
        },
        IrExpr::Unary { op, operand } => SpecIrExpr::Unary { op, operand: Box::new(ir_expr_view(*operand)) },
        IrExpr::Await(inner) => SpecIrExpr::Await(Box::new(ir_expr_view(*inner))),
        IrExpr::List(items) => SpecIrExpr::List(ir_exprs_view(items@)),
        IrExpr::DynamicImport(p) => SpecIrExpr::DynamicImport(p@),
    }
}

pub open spec fn ir_exprs_view(s: Seq<IrExpr>) -> Seq<SpecIrExpr>
    decreases s,
{
    if s.len() == 0 {
        Seq::empty()
    } else {
        ir_exprs_view(s.drop_last()).push(ir_expr_view(s.last()))
    }
}

impl View for IrExpr {
    type V = SpecIrExpr;

    open spec fn view(&self) -> SpecIrExpr {
        ir_expr_view(*self)
    }
}

#[derive(Debug, Clone, Copy, PartialEq, Eq, Structural)]
pub enum IrBinOp {
    Add,
    Sub,
    Mul,
    Div,
    Mod,
    Eq,
    Ne,
    Lt,
    Gt,
    Le,
    Ge,
    And,
    Or,
}

#[derive(Debug, Clone, Copy, PartialEq, Eq, Structural)]
pub enum IrUnOp {
    Not,
    Neg,
}

// ── Statements ────────────────────────────────────────────────────────────────

#[derive(Debug)]
pub enum IrStmt {
    /// `let name: ty = init`
    Let { name: String, ty: IrType, init: IrExpr },
    /// `target = value` (field or local).
    Assign { target: IrExpr, value: IrExpr },
    /// `return expr?`
    Return(Option<IrExpr>),
    /// `if cond { then } else { else_ }`
    If { cond: IrExpr, then_body: Vec<IrStmt>, else_body: Option<Vec<IrStmt>> },
    /// `while cond { body }`
    While { cond: IrExpr, body: Vec<IrStmt> },
    /// `for var in iter { body }`
    For { var: String, iter: IrExpr, body: Vec<IrStmt> },
    Break,
    Continue,
    /// Expression used as statement (side effects).
    Discard(IrExpr),
}

/// The mathematical value of an [`IrStmt`].
pub enum SpecIrStmt {
    Let { name: Seq<char>, ty: SpecIrType, init: SpecIrExpr },
    Assign { target: SpecIrExpr, value: SpecIrExpr },
    Return(Option<SpecIrExpr>),
    If { cond: SpecIrExpr, then_body: Seq<SpecIrStmt>, else_body: Option<Seq<SpecIrStmt>> },
    While { cond: SpecIrExpr, body: Seq<SpecIrStmt> },
    For { var: Seq<char>, iter: SpecIrExpr, body: Seq<SpecIrStmt> },
    Break,
    Continue,
    Discard(SpecIrExpr),
}

pub open spec fn ir_stmt_view(s: IrStmt) -> SpecIrStmt
    decreases s,
{
    match s {
        IrStmt::Let { name, ty, init } => SpecIrStmt::Let { name: name@, ty: ty@, init: init@ },
        IrStmt::Assign { target, value } => SpecIrStmt::Assign { target: target@, value: value@ },
        IrStmt::Return(e) => SpecIrStmt::Return(
            match e {
                Some(x) => Some(x@),
                None => None,
            },
        ),
        IrStmt::If { cond, then_body, else_body } => SpecIrStmt::If {
            cond: cond@,
            then_body: ir_stmts_view(then_body@),
            else_body: match else_body {
                Some(b) => Some(ir_stmts_view(b@)),
                None => None,
            },
        },
        IrStmt::While { cond, body } => SpecIrStmt::While { cond: cond@, body: ir_stmts_view(body@) },
        IrStmt::For { var, iter, body } => SpecIrStmt::For { var: var@, iter: iter@, body: ir_stmts_view(body@) },
        IrStmt::Break => SpecIrStmt::Break,
        IrStmt::Continue => SpecIrStmt::Continue,
        IrStmt::Discard(e) => SpecIrStmt::Discard(e@),
    }
}

pub open spec fn ir_stmts_view(s: Seq<IrStmt>) -> Seq<SpecIrStmt>
    decreases s,
{
    if s.len() == 0 {
        Seq::empty()
    } else {
        ir_stmts_view(s.drop_last()).push(ir_stmt_view(s.last()))
    }
}

impl View for IrStmt {
    type V = SpecIrStmt;

    open spec fn view(&self) -> SpecIrStmt {
        ir_stmt_view(*self)
    }
}

// ── Top-level definitions ─────────────────────────────────────────────────────

#[derive(Debug)]
pub struct IrParam {
    pub name: String,
    pub ty: IrType,
}

pub struct SpecIrParam {
    pub name: Seq<char>,
    pub ty: SpecIrType,
}

impl View for IrParam {
    type V = SpecIrParam;

    open spec fn view(&self) -> SpecIrParam {
        SpecIrParam { name: self.name@, ty: self.ty@ }
    }
}

#[derive(Debug)]
pub struct IrMethod {
    pub name: String,
    pub params: Vec<IrParam>,
    pub return_ty: IrType,
    pub body: Vec<IrStmt>,
    pub is_public: bool,
    pub is_async: bool,
}

pub struct SpecIrMethod {
    pub name: Seq<char>,
    pub params: Seq<SpecIrParam>,
    pub return_ty: SpecIrType,
    pub body: Seq<SpecIrStmt>,
    pub is_public: bool,
    pub is_async: bool,
}

impl View for IrMethod {
    type V = SpecIrMethod;

    open spec fn view(&self) -> SpecIrMethod {
        SpecIrMethod {
            name: self.name@,
            params: views(self.params@),
            return_ty: self.return_ty@,
            body: ir_stmts_view(self.body@),
            is_public: self.is_public,
            is_async: self.is_async,
        }
    }
}

#[derive(Debug)]
pub struct IrField {
    pub name: String,
    pub ty: IrType,
    pub is_public: bool,
}

pub struct SpecIrField {
    pub name: Seq<char>,
    pub ty: SpecIrType,
    pub is_public: bool,
}

impl View for IrField {
    type V = SpecIrField;

    open spec fn view(&self) -> SpecIrField {
        SpecIrField { name: self.name@, ty: self.ty@, is_public: self.is_public }
    }
}

/// Kind of a class-like definition.
#[derive(Debug, Clone, Copy, PartialEq, Eq, Structural)]
pub enum IrClassKind {
    /// Plain data / logic class.
    Class,
    /// Reusable UI component.
    Component,
    /// Top-level page (routable).
    Window,
}

#[derive(Debug)]
pub struct IrClass {
    pub name: String,
    pub kind: IrClassKind,
    pub is_public: bool,
    pub fields: Vec<IrField>,
    pub constructor_params: Vec<IrParam>,
    pub constructor_body: Vec<IrStmt>,
    pub methods: Vec<IrMethod>,
}

pub struct SpecIrClass {
    pub name: Seq<char>,
    pub kind: IrClassKind,
    pub is_public: bool,
    pub fields: Seq<SpecIrField>,
    pub constructor_params: Seq<SpecIrParam>,
    pub constructor_body: Seq<SpecIrStmt>,
    pub methods: Seq<SpecIrMethod>,
}

impl View for IrClass {
    type V = SpecIrClass;

    open spec fn view(&self) -> SpecIrClass {
        SpecIrClass {
            name: self.name@,
            kind: self.kind,
            is_public: self.is_public,
            fields: views(self.fields@),
            constructor_params: views(self.constructor_params@),
            constructor_body: ir_stmts_view(self.constructor_body@),
            methods: views(self.methods@),
        }
    }
}

/// A server port declaration.
#[derive(Debug, Clone, Copy, PartialEq, Eq, Structural)]
pub struct IrServer {
    pub port: u16,
}

/// A route binding: `path → window_class`.
#[derive(Debug)]
pub struct IrRoute {
    pub path: String,
    pub target: String,
}

pub struct SpecIrRoute {
    pub path: Seq<char>,
    pub target: Seq<char>,
}

impl View for IrRoute {
    type V = SpecIrRoute;

    open spec fn view(&self) -> SpecIrRoute {
        SpecIrRoute { path: self.path@, target: self.target@ }
    }
}

/// The root IR module — one per Nexa source file / module.
#[derive(Debug)]
pub struct IrModule {
    /// Application name (from `app Foo { }` or package declaration).
    pub name: String,
    pub server: Option<IrServer>,
    pub classes: Vec<IrClass>,
    pub routes: Vec<IrRoute>,
}

pub struct SpecIrModule {
    pub name: Seq<char>,
    pub server: Option<IrServer>,
    pub classes: Seq<SpecIrClass>,
    pub routes: Seq<SpecIrRoute>,
}

impl View for IrModule {
    type V = SpecIrModule;

    open spec fn view(&self) -> SpecIrModule {
        SpecIrModule {
            name: self.name@,
            server: self.server,
            classes: views(self.classes@),
            routes: views(self.routes@),
        }
    }
}

} // verus!
