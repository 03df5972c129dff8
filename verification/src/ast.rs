//! The abstract syntax tree of a Nexa program, and its mathematical view.
use vstd::prelude::*;
use crate::span::Span;

verus! {

#[derive(Debug, Clone, Copy, PartialEq, Eq, Structural)]
pub enum Visibility {
    Public,
    Private,
}

#[derive(Debug, Clone, Copy, PartialEq, Eq, Structural)]
pub enum ClassKind {
    Class,
    Component,
    Window,
}

#[derive(Debug)]
pub enum Type {
    Int,
    String,
    Bool,
    Void,
    Custom(String),
    Generic(String),
    List(Box<Type>),
    Function(Vec<Type>, Box<Type>),
}

// ── Binary / Unary operators ────────────────────────────────────────────────

#[derive(Debug, Clone, Copy, PartialEq, Eq, Structural)]
pub enum BinOp {
    Add,
    Sub,
    Mul,
    Div,
    Mod,
    Eq,
    Ne,
    Lt,
    Gt,
    Le,
    Ge,
    And,
    Or,
}

/// The JavaScript spelling of an operator.
pub open spec fn js_operator(op: BinOp) -> Seq<char> {
    match op {
        BinOp::Add => "+"@,
        BinOp::Sub => "-"@,
        BinOp::Mul => "*"@,
        BinOp::Div => "/"@,
        BinOp::Mod => "%"@,
        BinOp::Eq => "==="@,
        BinOp::Ne => "!=="@,
        BinOp::Lt => "<"@,
        BinOp::Gt => ">"@,
        BinOp::Le => "<="@,
        BinOp::Ge => ">="@,
        BinOp::And => "&&"@,
        BinOp::Or => "||"@,
    }
}

/// Binding power `(left, right)` of an operator: higher binds tighter, and the
/// right power is one more than the left, so operators of one level associate
/// to the left.
pub open spec fn binding(op: BinOp) -> (u8, u8) {
    match op {
        BinOp::Or => (1, 2),
        BinOp::And => (3, 4),
        BinOp::Eq | BinOp::Ne => (5, 6),
        BinOp::Lt | BinOp::Gt | BinOp::Le | BinOp::Ge => (7, 8),
        BinOp::Add | BinOp::Sub => (9, 10),
        BinOp::Mul | BinOp::Div | BinOp::Mod => (11, 12),
    }
}

impl BinOp {
    pub fn as_js(&self) -> (s: &'static str)
        ensures
            s@ == js_operator(*self),
    {
        match self {
            BinOp::Add => "+",
            BinOp::Sub => "-",
            BinOp::Mul => "*",
            BinOp::Div => "/",
            BinOp::Mod => "%",
            BinOp::Eq => "===",
            BinOp::Ne => "!==",
            BinOp::Lt => "<",
            BinOp::Gt => ">",
            BinOp::Le => "<=",
            BinOp::Ge => ">=",
            BinOp::And => "&&",
            BinOp::Or => "||",
        }
    }

    /// Binding power: higher = tighter. Returns (left_bp, right_bp).
    pub fn binding_power(&self) -> (bp: (u8, u8))
        ensures
            bp == binding(*self),
    {
        match self {
            BinOp::Or => (1, 2),
            BinOp::And => (3, 4),
            BinOp::Eq | BinOp::Ne => (5, 6),
            BinOp::Lt | BinOp::Gt | BinOp::Le | BinOp::Ge => (7, 8),
            BinOp::Add | BinOp::Sub => (9, 10),
            BinOp::Mul | BinOp::Div | BinOp::Mod => (11, 12),
        }
    }
}

#[derive(Debug, Clone, Copy, PartialEq, Eq, Structural)]
pub enum UnOp {
    Not,
    Neg,
}

// ── Top-level program ───────────────────────────────────────────────────────

#[derive(Debug, Clone)]
pub struct Program {
    pub name: String,
    pub package: Option<String>,
    pub imports: Vec<ImportDecl>,
    pub server: Option<ServerConfig>,
    pub declarations: Vec<Declaration>,
    pub routes: Vec<Route>,
}

#[derive(Debug, Clone)]
pub struct ImportDecl {
    /// Fully-qualified path, e.g. "com.myapp.models.User"
    pub path: String,
}

#[derive(Debug, Clone, Copy, PartialEq, Eq, Structural)]
pub struct ServerConfig {
    pub port: u16,
}

#[derive(Debug, Clone)]
pub enum Declaration {
    Class(ClassDecl),
    Interface(InterfaceDecl),
    Enum(EnumDecl),
    Test(TestDecl),
}

// ── Class / Component / Window ──────────────────────────────────────────────

#[derive(Debug, Clone)]
pub struct ClassDecl {
    pub visibility: Visibility,
    pub kind: ClassKind,
    pub name: String,
    pub type_params: Vec<String>,
    pub extends: Option<String>,
    pub implements: Vec<String>,
    pub fields: Vec<Field>,
    pub constructor: Option<Constructor>,
    pub methods: Vec<Method>,
}

#[derive(Debug, Clone)]
pub struct Field {
    pub visibility: Visibility,
    pub ty: Type,
    pub name: String,
}

#[derive(Debug, Clone)]
pub struct Method {
    pub visibility: Visibility,
    pub is_async: bool,
    pub name: String,
    pub params: Vec<Param>,
    pub return_type: Type,
    pub body: Vec<Stmt>,
}

#[derive(Debug, Clone)]
pub struct Constructor {
    pub params: Vec<Param>,
    pub body: Vec<Stmt>,
}

#[derive(Debug, Clone)]
pub struct Param {
    pub name: String,
    pub ty: Type,
}

#[derive(Debug, Clone)]
pub struct InterfaceDecl {
    pub visibility: Visibility,
    pub name: String,
    pub type_params: Vec<String>,
    pub methods: Vec<MethodSig>,
}

#[derive(Debug, Clone)]
pub struct MethodSig {
    pub name: String,
    pub params: Vec<Param>,
    pub return_type: Type,
}

/// `enum Shape { Circle(Int), Point }`
#[derive(Debug, Clone)]
pub struct EnumDecl {
    pub visibility: Visibility,
    pub name: String,
    pub variants: Vec<EnumVariant>,
}

#[derive(Debug, Clone)]
pub struct EnumVariant {
    pub name: String,
    pub fields: Vec<Type>,
}

/// `test "description" { stmts }`
#[derive(Debug, Clone)]
pub struct TestDecl {
    pub name: String,
    pub body: Vec<Stmt>,
}

#[derive(Debug, Clone)]
pub struct Route {
    pub path: String,
    pub target: String,
}

// ── Statements ───────────────────────────────────────────────────────────────

#[derive(Debug)]
pub enum Stmt {
    Return { expr: Option<Expr>, span: Span },
    /// this.field = value  OR  ident = value
    Assign { object: Expr, field: String, value: Expr },
    /// let name [: Type] = expr;
    Let { name: String, ty: Option<Type>, init: Expr },
    If { cond: Expr, then_body: Vec<Stmt>, else_body: Option<Vec<Stmt>> },
    While { cond: Expr, body: Vec<Stmt> },
    /// for (name in iter) { body }
    For { var: String, iter: Expr, body: Vec<Stmt> },
    Break,
    Continue,
    Expr(Expr),
    /// match (expr) { pattern => { body } ... }
    Match { expr: Expr, arms: Vec<MatchArm> },
}

#[derive(Debug)]
pub struct MatchArm {
    pub pattern: Pattern,
    pub body: Vec<Stmt>,
}

#[derive(Debug, Clone)]
pub enum Pattern {
    LitBool(bool),
    LitInt(i64),
    LitStr(String),
    /// `EnumName.Variant`
    QualifiedVariant { enum_name: String, variant: String },
    /// `_`
    Wildcard,
    /// A bare variant name or binding.
    Name(String),
}

// ── Expressions ──────────────────────────────────────────────────────────────

#[derive(Debug)]
pub enum Expr {
    StringLit(String),
    IntLit(i64),
    BoolLit(bool),
    Ident(String),
    This,
    FieldAccess(Box<Expr>, String),
    MethodCall { receiver: Box<Expr>, method: String, args: Vec<Expr> },
    Call { callee: String, args: Vec<Expr> },
    Lambda { params: Vec<Param>, body: Box<Expr> },
    /// JSX-like block: Tag { child1; child2; }
    Block { tag: String, children: Vec<Expr> },
    Binary { op: BinOp, left: Box<Expr>, right: Box<Expr> },
    Unary { op: UnOp, expr: Box<Expr> },
    /// `await expr`
    Await(Box<Expr>),
    /// `[e1, e2, ...]`
    ListLiteral(Vec<Expr>),
    /// `import("path")`
    LazyImport(String),
}

// ── Mathematical views: text becomes character sequences ────────────────────

pub enum SpecType {
    Int,
    String,
    Bool,
    Void,
    Custom(Seq<char>),
    Generic(Seq<char>),
    List(Box<SpecType>),
    Function(Seq<SpecType>, Box<SpecType>),
}

pub open spec fn type_view(t: Type) -> SpecType
    decreases t,
{
    match t {
        Type::Int => SpecType::Int,
        Type::String => SpecType::String,
        Type::Bool => SpecType::Bool,
        Type::Void => SpecType::Void,
        Type::Custom(n) => SpecType::Custom(n@),
        Type::Generic(n) => SpecType::Generic(n@),
        Type::List(inner) => SpecType::List(Box::new(type_view(*inner))),
        Type::Function(ps, r) => SpecType::Function(types_view(ps@), Box::new(type_view(*r))),
    }
}

pub open spec fn types_view(s: Seq<Type>) -> Seq<SpecType>
    decreases s,
{
    if s.len() == 0 {
        Seq::empty()
    } else {
        types_view(s.drop_last()).push(type_view(s.last()))
    }
}

/// One view per type, in order.
pub proof fn lemma_types_view(s: Seq<Type>)
    ensures
        types_view(s).len() == s.len(),
        forall|i: int| 0 <= i < s.len() ==> #[trigger] types_view(s)[i] == s[i]@,
    decreases s.len(),
{
    if s.len() > 0 {
        lemma_types_view(s.drop_last());
        assert forall|i: int| 0 <= i < s.len() implies #[trigger] types_view(s)[i] == s[i]@ by {
            if i < s.len() - 1 {
                assert(s.drop_last()[i] == s[i]);
            }
        }
    }
}

impl Type {
    /// A copy with the same view.
    #[verifier::loop_isolation(false)]
    pub fn duplicate(&self) -> (t: Type)
        ensures
            t@ == self@,
        decreases self,
    {
        match self {
            Type::Int => Type::Int,
            Type::String => Type::String,
            Type::Bool => Type::Bool,
            Type::Void => Type::Void,
            Type::Custom(n) => Type::Custom(n.clone()),
            Type::Generic(n) => Type::Generic(n.clone()),
            Type::List(inner) => Type::List(Box::new((**inner).duplicate())),
            Type::Function(ps, r) => {
                let mut out: Vec<Type> = Vec::new();
                let mut i: usize = 0;
                while i < ps.len()
                    invariant
                        i <= ps.len(),
                        types_view(out@) == types_view(ps@.take(i as int)),
                    decreases ps.len() - i,
                {
                    proof {
                        assert(decreases_to!(ps => ps@));
                        assert(decreases_to!(ps@ => ps@[i as int]));
                    }
                    let t = ps[i].duplicate();
                    let ghost prev = out@;
                    out.push(t);
                    assert(ps@.take(i + 1).drop_last() =~= ps@.take(i as int));
                    assert(out@.drop_last() =~= prev);
                    i = i + 1;
                }
                assert(ps@.take(ps.len() as int) =~= ps@);
                Type::Function(out, Box::new((**r).duplicate()))
            },
        }
    }
}

impl Clone for Type {
    fn clone(&self) -> (t: Type)
        ensures
            t@ == self@,
    {
        self.duplicate()
    }
}

impl View for Type {
    type V = SpecType;

    open spec fn view(&self) -> SpecType {
        type_view(*self)
    }
}

pub struct SpecParam {
    pub name: Seq<char>,
    pub ty: SpecType,
}

impl View for Param {
    type V = SpecParam;

    open spec fn view(&self) -> SpecParam {
        SpecParam { name: self.name@, ty: self.ty@ }
    }
}

/// The views of a sequence of values.
pub open spec fn views<T: View>(s: Seq<T>) -> Seq<T::V> {
    s.map_values(|x: T| x@)
}

/// Appending to a sequence appends its view.
pub proof fn lemma_views_push<T: View>(s: Seq<T>, x: T)
    ensures
        views(s.push(x)) == views(s).push(x@),
{
    assert(views(s.push(x)) =~= views(s).push(x@));
}

/// The views of a sequence of strings.
pub open spec fn string_views(s: Seq<String>) -> Seq<Seq<char>> {
    s.map_values(|x: String| x@)
}

pub enum SpecExpr {
    StringLit(Seq<char>),
    IntLit(i64),
    BoolLit(bool),
    Ident(Seq<char>),
    This,
    FieldAccess(Box<SpecExpr>, Seq<char>),
    MethodCall { receiver: Box<SpecExpr>, method: Seq<char>, args: Seq<SpecExpr> },
    Call { callee: Seq<char>, args: Seq<SpecExpr> },
    Lambda { params: Seq<SpecParam>, body: Box<SpecExpr> },
    Block { tag: Seq<char>, children: Seq<SpecExpr> },
    Binary { op: BinOp, left: Box<SpecExpr>, right: Box<SpecExpr> },
    Unary { op: UnOp, expr: Box<SpecExpr> },
    Await(Box<SpecExpr>),
    ListLiteral(Seq<SpecExpr>),
    LazyImport(Seq<char>),
}

pub open spec fn expr_view(e: Expr) -> SpecExpr
    decreases e,
{
    match e {
        Expr::StringLit(s) => SpecExpr::StringLit(s@),
        Expr::IntLit(n) => SpecExpr::IntLit(n),
        Expr::BoolLit(b) => SpecExpr::BoolLit(b),
        Expr::Ident(s) => SpecExpr::Ident(s@),
        Expr::This => SpecExpr::This,
        Expr::FieldAccess(r, f) => SpecExpr::FieldAccess(Box::new(expr_view(*r)), f@),
        Expr::MethodCall { receiver, method, args } => SpecExpr::MethodCall {
            receiver: Box::new(expr_view(*receiver)),
            method: method@,
            args: exprs_view(args@),
        },
        Expr::Call { callee, args } => SpecExpr::Call { callee: callee@, args: exprs_view(args@) },
        Expr::Lambda { params, body } => SpecExpr::Lambda {
            params: views(params@),
            body: Box::new(expr_view(*body)),
        },
        Expr::Block { tag, children } => SpecExpr::Block { tag: tag@, children: exprs_view(children@) },
        Expr::Binary { op, left, right } => SpecExpr::Binary {
            op,
            left: Box::new(expr_view(*left)),
            right: Box::new(expr_view(*right)),
        },
        Expr::Unary { op, expr } => SpecExpr::Unary { op, expr: Box::new(expr_view(*expr)) },
        Expr::Await(inner) => SpecExpr::Await(Box::new(expr_view(*inner))),
        Expr::ListLiteral(items) => SpecExpr::ListLiteral(exprs_view(items@)),
        Expr::LazyImport(p) => SpecExpr::LazyImport(p@),
    }
}

pub open spec fn exprs_view(s: Seq<Expr>) -> Seq<SpecExpr>
    decreases s,
{
    if s.len() == 0 {
        Seq::empty()
    } else {
        exprs_view(s.drop_last()).push(expr_view(s.last()))
    }
}

/// One view per expression, in order.
pub proof fn lemma_exprs_view(s: Seq<Expr>)
    ensures
        exprs_view(s).len() == s.len(),
        forall|i: int| 0 <= i < s.len() ==> #[trigger] exprs_view(s)[i] == s[i]@,
    decreases s.len(),
{
    if s.len() > 0 {
        lemma_exprs_view(s.drop_last());
        assert forall|i: int| 0 <= i < s.len() implies #[trigger] exprs_view(s)[i] == s[i]@ by {
            if i < s.len() - 1 {
                assert(s.drop_last()[i] == s[i]);
            }
        }
    }
}

impl Expr {
    /// A copy with the same view.
    #[verifier::loop_isolation(false)]
    pub fn duplicate(&self) -> (e: Expr)
        ensures
            e@ == self@,
        decreases self,
    {
        match self {
            Expr::StringLit(s) => Expr::StringLit(s.clone()),
            Expr::IntLit(n) => Expr::IntLit(*n),
            Expr::BoolLit(b) => Expr::BoolLit(*b),
            Expr::Ident(s) => Expr::Ident(s.clone()),
            Expr::This => Expr::This,
            Expr::FieldAccess(r, f) => Expr::FieldAccess(Box::new((**r).duplicate()), f.clone()),
            Expr::MethodCall { receiver, method, args } => {
                let mut out: Vec<Expr> = Vec::new();
                let mut i: usize = 0;
                while i < args.len()
                    invariant
                        i <= args.len(),
                        exprs_view(out@) == exprs_view(args@.take(i as int)),
                    decreases args.len() - i,
                {
                    proof {
                        assert(decreases_to!(args => args@));
                        assert(decreases_to!(args@ => args@[i as int]));
                    }
                    let x = args[i].duplicate();
                    let ghost prev = out@;
                    out.push(x);
                    assert(args@.take(i + 1).drop_last() =~= args@.take(i as int));
                    assert(out@.drop_last() =~= prev);
                    i = i + 1;
                }
                assert(args@.take(args.len() as int) =~= args@);
                Expr::MethodCall { receiver: Box::new((**receiver).duplicate()), method: method.clone(), args: out }
            },
            Expr::Call { callee, args } => {
                let mut out: Vec<Expr> = Vec::new();
                let mut i: usize = 0;
                while i < args.len()
                    invariant
                        i <= args.len(),
                        exprs_view(out@) == exprs_view(args@.take(i as int)),
                    decreases args.len() - i,
                {
                    proof {
                        assert(decreases_to!(args => args@));
                        assert(decreases_to!(args@ => args@[i as int]));
                    }
                    let x = args[i].duplicate();
                    let ghost prev = out@;
                    out.push(x);
                    assert(args@.take(i + 1).drop_last() =~= args@.take(i as int));
                    assert(out@.drop_last() =~= prev);
                    i = i + 1;
                }
                assert(args@.take(args.len() as int) =~= args@);
                Expr::Call { callee: callee.clone(), args: out }
            },
            Expr::Lambda { params, body } => {
                let mut out: Vec<Param> = Vec::new();
                let mut i: usize = 0;
                while i < params.len()
                    invariant
                        i <= params.len(),
                        views(out@) == views(params@.take(i as int)),
                    decreases params.len() - i,
                {
                    let x = params[i].duplicate();
                    let ghost prev = out@;
                    out.push(x);
                    assert(params@.take(i + 1) =~= params@.take(i as int).push(params@[i as int]));
                    proof {
                        lemma_views_push(params@.take(i as int), params@[i as int]);
                        lemma_views_push(prev, x);
                    }
                    i = i + 1;
                }
                assert(params@.take(params.len() as int) =~= params@);
                Expr::Lambda { params: out, body: Box::new((**body).duplicate()) }
            },
            Expr::Block { tag, children } => {
                let mut out: Vec<Expr> = Vec::new();
                let mut i: usize = 0;
                while i < children.len()
                    invariant
                        i <= children.len(),
                        exprs_view(out@) == exprs_view(children@.take(i as int)),
                    decreases children.len() - i,
                {
                    proof {
                        assert(decreases_to!(children => children@));
                        assert(decreases_to!(children@ => children@[i as int]));
                    }
                    let x = children[i].duplicate();
                    let ghost prev = out@;
                    out.push(x);
                    assert(children@.take(i + 1).drop_last() =~= children@.take(i as int));
                    assert(out@.drop_last() =~= prev);
                    i = i + 1;
                }
                assert(children@.take(children.len() as int) =~= children@);
                Expr::Block { tag: tag.clone(), children: out }
            },
            Expr::Binary { op, left, right } => Expr::Binary {
                op: *op,
                left: Box::new((**left).duplicate()),
                right: Box::new((**right).duplicate()),
            },
            Expr::Unary { op, expr } => Expr::Unary { op: *op, expr: Box::new((**expr).duplicate()) },
            Expr::Await(inner) => Expr::Await(Box::new((**inner).duplicate())),
            Expr::ListLiteral(items) => {
                let mut out: Vec<Expr> = Vec::new();
                let mut i: usize = 0;
                while i < items.len()
                    invariant
                        i <= items.len(),
                        exprs_view(out@) == exprs_view(items@.take(i as int)),
                    decreases items.len() - i,
                {
                    proof {
                        assert(decreases_to!(items => items@));
                        assert(decreases_to!(items@ => items@[i as int]));
                    }
                    let x = items[i].duplicate();
                    let ghost prev = out@;
                    out.push(x);
                    assert(items@.take(i + 1).drop_last() =~= items@.take(i as int));
                    assert(out@.drop_last() =~= prev);
                    i = i + 1;
                }
                assert(items@.take(items.len() as int) =~= items@);
                Expr::ListLiteral(out)
            },
            Expr::LazyImport(p) => Expr::LazyImport(p.clone()),
        }
    }
}

impl Clone for Expr {
    fn clone(&self) -> (e: Expr)
        ensures
            e@ == self@,
    {
        self.duplicate()
    }
}

impl Param {
    /// A copy with the same view.
    pub fn duplicate(&self) -> (p: Param)
        ensures
            p@ == self@,
    {
        Param { name: self.name.clone(), ty: self.ty.duplicate() }
    }
}

impl View for Expr {
    type V = SpecExpr;

    open spec fn view(&self) -> SpecExpr {
        expr_view(*self)
    }
}

pub enum SpecPattern {
    LitBool(bool),
    LitInt(i64),
    LitStr(Seq<char>),
    QualifiedVariant { enum_name: Seq<char>, variant: Seq<char> },
    Wildcard,
    Name(Seq<char>),
}

impl View for Pattern {
    type V = SpecPattern;

    open spec fn view(&self) -> SpecPattern {
        match self {
            Pattern::LitBool(b) => SpecPattern::LitBool(*b),
            Pattern::LitInt(n) => SpecPattern::LitInt(*n),
            Pattern::LitStr(s) => SpecPattern::LitStr(s@),
            Pattern::QualifiedVariant { enum_name, variant } => SpecPattern::QualifiedVariant {
                enum_name: enum_name@,
                variant: variant@,
            },
            Pattern::Wildcard => SpecPattern::Wildcard,
            Pattern::Name(s) => SpecPattern::Name(s@),
        }
    }
}

pub enum SpecStmt {
    Return { expr: Option<SpecExpr>, span: Span },
    Assign { object: SpecExpr, field: Seq<char>, value: SpecExpr },
    Let { name: Seq<char>, ty: Option<SpecType>, init: SpecExpr },
    If { cond: SpecExpr, then_body: Seq<SpecStmt>, else_body: Option<Seq<SpecStmt>> },
    While { cond: SpecExpr, body: Seq<SpecStmt> },
    For { var: Seq<char>, iter: SpecExpr, body: Seq<SpecStmt> },
    Break,
    Continue,
    Expr(SpecExpr),
    Match { expr: SpecExpr, arms: Seq<SpecMatchArm> },
}

pub struct SpecMatchArm {
    pub pattern: SpecPattern,
    pub body: Seq<SpecStmt>,
}

pub open spec fn opt_expr_view(e: Option<Expr>) -> Option<SpecExpr> {
    match e {
        Some(x) => Some(x@),
        None => None,
    }
}

pub open spec fn opt_type_view(t: Option<Type>) -> Option<SpecType> {
    match t {
        Some(x) => Some(x@),
        None => None,
    }
}

pub open spec fn stmt_view(s: Stmt) -> SpecStmt
    decreases s,
{
    match s {
        Stmt::Return { expr, span } => SpecStmt::Return { expr: opt_expr_view(expr), span },
        Stmt::Assign { object, field, value } => SpecStmt::Assign {
            object: object@,
            field: field@,
            value: value@,
        },
        Stmt::Let { name, ty, init } => SpecStmt::Let { name: name@, ty: opt_type_view(ty), init: init@ },
        Stmt::If { cond, then_body, else_body } => SpecStmt::If {
            cond: cond@,
            then_body: stmts_view(then_body@),
            else_body: match else_body {
                Some(b) => Some(stmts_view(b@)),
                None => None,
            },
        },
        Stmt::While { cond, body } => SpecStmt::While { cond: cond@, body: stmts_view(body@) },
        Stmt::For { var, iter, body } => SpecStmt::For { var: var@, iter: iter@, body: stmts_view(body@) },
        Stmt::Break => SpecStmt::Break,
        Stmt::Continue => SpecStmt::Continue,
        Stmt::Expr(e) => SpecStmt::Expr(e@),
        Stmt::Match { expr, arms } => SpecStmt::Match { expr: expr@, arms: arms_view(arms@) },
    }
}

pub open spec fn stmts_view(s: Seq<Stmt>) -> Seq<SpecStmt>
    decreases s,
{
    if s.len() == 0 {
        Seq::empty()
    } else {
        stmts_view(s.drop_last()).push(stmt_view(s.last()))
    }
}

/// One view per statement, in order.
pub proof fn lemma_stmts_view(s: Seq<Stmt>)
    ensures
        stmts_view(s).len() == s.len(),
        forall|i: int| 0 <= i < s.len() ==> #[trigger] stmts_view(s)[i] == s[i]@,
    decreases s.len(),
{
    if s.len() > 0 {
        lemma_stmts_view(s.drop_last());
        assert forall|i: int| 0 <= i < s.len() implies #[trigger] stmts_view(s)[i] == s[i]@ by {
            if i < s.len() - 1 {
                assert(s.drop_last()[i] == s[i]);
            }
        }
    }
}

pub open spec fn arm_view(a: MatchArm) -> SpecMatchArm
    decreases a,
{
    SpecMatchArm { pattern: a.pattern@, body: stmts_view(a.body@) }
}

pub open spec fn arms_view(s: Seq<MatchArm>) -> Seq<SpecMatchArm>
    decreases s,
{
    if s.len() == 0 {
        Seq::empty()
    } else {
        arms_view(s.drop_last()).push(arm_view(s.last()))
    }
}

impl Stmt {
    /// A copy with the same view.
    #[verifier::loop_isolation(false)]
    pub fn duplicate(&self) -> (r: Stmt)
        ensures
            r@ == self@,
        decreases self,
    {
        match self {
            Stmt::Return { expr, span } => Stmt::Return {
                expr: match expr {
                    Some(e) => Some(e.duplicate()),
                    None => None,
                },
                span: *span,
            },
            Stmt::Assign { object, field, value } => Stmt::Assign {
                object: object.duplicate(),
                field: field.clone(),
                value: value.duplicate(),
            },
            Stmt::Let { name, ty, init } => Stmt::Let {
                name: name.clone(),
                ty: match ty {
                    Some(t) => Some(t.duplicate()),
                    None => None,
                },
                init: init.duplicate(),
            },
            Stmt::If { cond, then_body, else_body } => {
                let mut out: Vec<Stmt> = Vec::new();
                let mut i: usize = 0;
                while i < then_body.len()
                    invariant
                        i <= then_body.len(),
                        stmts_view(out@) == stmts_view(then_body@.take(i as int)),
                    decreases then_body.len() - i,
                {
                    proof {
                        assert(decreases_to!(then_body => then_body@));
                        assert(decreases_to!(then_body@ => then_body@[i as int]));
                    }
                    let x = then_body[i].duplicate();
                    let ghost prev = out@;
                    out.push(x);
                    assert(then_body@.take(i + 1).drop_last() =~= then_body@.take(i as int));
                    assert(out@.drop_last() =~= prev);
                    i = i + 1;
                }
                assert(then_body@.take(then_body.len() as int) =~= then_body@);
                let e = match else_body {
                    Some(b) => {
                        let mut eb: Vec<Stmt> = Vec::new();
                        let mut i: usize = 0;
                        while i < b.len()
                            invariant
                                i <= b.len(),
                                stmts_view(eb@) == stmts_view(b@.take(i as int)),
                            decreases b.len() - i,
                        {
                            proof {
                                assert(decreases_to!(b => b@));
                                assert(decreases_to!(b@ => b@[i as int]));
                            }
                            let x = b[i].duplicate();
                            let ghost prev = eb@;
                            eb.push(x);
                            assert(b@.take(i + 1).drop_last() =~= b@.take(i as int));
                            assert(eb@.drop_last() =~= prev);
                            i = i + 1;
                        }
                        assert(b@.take(b.len() as int) =~= b@);
                        Some(eb)
                    },
                    None => None,
                };
                Stmt::If { cond: cond.duplicate(), then_body: out, else_body: e }
            },
            Stmt::While { cond, body } => {
                let mut out: Vec<Stmt> = Vec::new();
                let mut i: usize = 0;
                while i < body.len()
                    invariant
                        i <= body.len(),
                        stmts_view(out@) == stmts_view(body@.take(i as int)),
                    decreases body.len() - i,
                {
                    proof {
                        assert(decreases_to!(body => body@));
                        assert(decreases_to!(body@ => body@[i as int]));
                    }
                    let x = body[i].duplicate();
                    let ghost prev = out@;
                    out.push(x);
                    assert(body@.take(i + 1).drop_last() =~= body@.take(i as int));
                    assert(out@.drop_last() =~= prev);
                    i = i + 1;
                }
                assert(body@.take(body.len() as int) =~= body@);
                Stmt::While { cond: cond.duplicate(), body: out }
            },
            Stmt::For { var, iter, body } => {
                let mut out: Vec<Stmt> = Vec::new();
                let mut i: usize = 0;
                while i < body.len()
                    invariant
                        i <= body.len(),
                        stmts_view(out@) == stmts_view(body@.take(i as int)),
                    decreases body.len() - i,
                {
                    proof {
                        assert(decreases_to!(body => body@));
                        assert(decreases_to!(body@ => body@[i as int]));
                    }
                    let x = body[i].duplicate();
                    let ghost prev = out@;
                    out.push(x);
                    assert(body@.take(i + 1).drop_last() =~= body@.take(i as int));
                    assert(out@.drop_last() =~= prev);
                    i = i + 1;
                }
                assert(body@.take(body.len() as int) =~= body@);
                Stmt::For { var: var.clone(), iter: iter.duplicate(), body: out }
            },
            Stmt::Break => Stmt::Break,
            Stmt::Continue => Stmt::Continue,
            Stmt::Expr(e) => Stmt::Expr(e.duplicate()),
            Stmt::Match { expr, arms } => {
                let mut out: Vec<MatchArm> = Vec::new();
                let mut i: usize = 0;
                while i < arms.len()
                    invariant
                        i <= arms.len(),
                        arms_view(out@) == arms_view(arms@.take(i as int)),
                    decreases arms.len() - i,
                {
                    proof {
                        assert(decreases_to!(arms => arms@));
                        assert(decreases_to!(arms@ => arms@[i as int]));
                    }
                    let x = arms[i].duplicate();
                    let ghost prev = out@;
                    out.push(x);
                    assert(arms@.take(i + 1).drop_last() =~= arms@.take(i as int));
                    assert(out@.drop_last() =~= prev);
                    i = i + 1;
                }
                assert(arms@.take(arms.len() as int) =~= arms@);
                Stmt::Match { expr: expr.duplicate(), arms: out }
            },
        }
    }
}

impl MatchArm {
    /// A copy with the same view.
    #[verifier::loop_isolation(false)]
    pub fn duplicate(&self) -> (r: MatchArm)
        ensures
            r@ == self@,
        decreases self,
    {
        let mut out: Vec<Stmt> = Vec::new();
        let mut i: usize = 0;
        while i < self.body.len()
            invariant
                i <= self.body.len(),
                stmts_view(out@) == stmts_view(self.body@.take(i as int)),
            decreases self.body.len() - i,
        {
            proof {
                assert(decreases_to!(self.body => self.body@));
                assert(decreases_to!(self.body@ => self.body@[i as int]));
            }
            let x = self.body[i].duplicate();
            let ghost prev = out@;
            out.push(x);
            assert(self.body@.take(i + 1).drop_last() =~= self.body@.take(i as int));
            assert(out@.drop_last() =~= prev);
            i = i + 1;
        }
        assert(self.body@.take(self.body.len() as int) =~= self.body@);
        MatchArm { pattern: self.pattern.duplicate(), body: out }
    }
}

impl Pattern {
    /// A copy with the same view.
    pub fn duplicate(&self) -> (r: Pattern)
        ensures
            r@ == self@,
    {
        match self {
            Pattern::LitBool(b) => Pattern::LitBool(*b),
            Pattern::LitInt(n) => Pattern::LitInt(*n),
            Pattern::LitStr(s) => Pattern::LitStr(s.clone()),
            Pattern::QualifiedVariant { enum_name, variant } => Pattern::QualifiedVariant {
                enum_name: enum_name.clone(),
                variant: variant.clone(),
            },
            Pattern::Wildcard => Pattern::Wildcard,
            Pattern::Name(s) => Pattern::Name(s.clone()),
        }
    }
}

impl Clone for Stmt {
    fn clone(&self) -> (r: Stmt)
        ensures
            r@ == self@,
    {
        self.duplicate()
    }
}

impl Clone for MatchArm {
    fn clone(&self) -> (r: MatchArm)
        ensures
            r@ == self@,
    {
        self.duplicate()
    }
}

impl View for Stmt {
    type V = SpecStmt;

    open spec fn view(&self) -> SpecStmt {
        stmt_view(*self)
    }
}

impl View for MatchArm {
    type V = SpecMatchArm;

    open spec fn view(&self) -> SpecMatchArm {
        arm_view(*self)
    }
}

pub struct SpecField {
    pub visibility: Visibility,
    pub ty: SpecType,
    pub name: Seq<char>,
}

impl View for Field {
    type V = SpecField;

    open spec fn view(&self) -> SpecField {
        SpecField { visibility: self.visibility, ty: self.ty@, name: self.name@ }
    }
}

pub struct SpecMethod {
    pub visibility: Visibility,
    pub is_async: bool,
    pub name: Seq<char>,
    pub params: Seq<SpecParam>,
    pub return_type: SpecType,
    pub body: Seq<SpecStmt>,
}

impl View for Method {
    type V = SpecMethod;

    open spec fn view(&self) -> SpecMethod {
        SpecMethod {
            visibility: self.visibility,
            is_async: self.is_async,
            name: self.name@,
            params: views(self.params@),
            return_type: self.return_type@,
            body: stmts_view(self.body@),
        }
    }
}

pub struct SpecConstructor {
    pub params: Seq<SpecParam>,
    pub body: Seq<SpecStmt>,
}

impl View for Constructor {
    type V = SpecConstructor;

    open spec fn view(&self) -> SpecConstructor {
        SpecConstructor { params: views(self.params@), body: stmts_view(self.body@) }
    }
}

pub struct SpecClassDecl {
    pub visibility: Visibility,
    pub kind: ClassKind,
    pub name: Seq<char>,
    pub type_params: Seq<Seq<char>>,
    pub extends: Option<Seq<char>>,
    pub implements: Seq<Seq<char>>,
    pub fields: Seq<SpecField>,
    pub constructor: Option<SpecConstructor>,
    pub methods: Seq<SpecMethod>,
}

pub open spec fn opt_string_view(s: Option<String>) -> Option<Seq<char>> {
    match s {
        Some(x) => Some(x@),
        None => None,
    }
}

impl View for ClassDecl {
    type V = SpecClassDecl;

    open spec fn view(&self) -> SpecClassDecl {
        SpecClassDecl {
            visibility: self.visibility,
            kind: self.kind,
            name: self.name@,
            type_params: string_views(self.type_params@),
            extends: opt_string_view(self.extends),
            implements: string_views(self.implements@),
            fields: views(self.fields@),
            constructor: match self.constructor {
                Some(c) => Some(c@),
                None => None,
            },
            methods: views(self.methods@),
        }
    }
}

pub struct SpecMethodSig {
    pub name: Seq<char>,
    pub params: Seq<SpecParam>,
    pub return_type: SpecType,
}

impl View for MethodSig {
    type V = SpecMethodSig;

    open spec fn view(&self) -> SpecMethodSig {
        SpecMethodSig { name: self.name@, params: views(self.params@), return_type: self.return_type@ }
    }
}

pub struct SpecInterfaceDecl {
    pub visibility: Visibility,
    pub name: Seq<char>,
    pub type_params: Seq<Seq<char>>,
    pub methods: Seq<SpecMethodSig>,
}

impl View for InterfaceDecl {
    type V = SpecInterfaceDecl;

    open spec fn view(&self) -> SpecInterfaceDecl {
        SpecInterfaceDecl {
            visibility: self.visibility,
            name: self.name@,
            type_params: string_views(self.type_params@),
            methods: views(self.methods@),
        }
    }
}

pub struct SpecEnumVariant {
    pub name: Seq<char>,
    pub fields: Seq<SpecType>,
}

impl View for EnumVariant {
    type V = SpecEnumVariant;

    open spec fn view(&self) -> SpecEnumVariant {
        SpecEnumVariant { name: self.name@, fields: types_view(self.fields@) }
    }
}

pub struct SpecEnumDecl {
    pub visibility: Visibility,
    pub name: Seq<char>,
    pub variants: Seq<SpecEnumVariant>,
}

impl View for EnumDecl {
    type V = SpecEnumDecl;

    open spec fn view(&self) -> SpecEnumDecl {
        SpecEnumDecl { visibility: self.visibility, name: self.name@, variants: views(self.variants@) }
    }
}

pub struct SpecTestDecl {
    pub name: Seq<char>,
    pub body: Seq<SpecStmt>,
}

impl View for TestDecl {
    type V = SpecTestDecl;

    open spec fn view(&self) -> SpecTestDecl {
        SpecTestDecl { name: self.name@, body: stmts_view(self.body@) }
    }
}

pub enum SpecDeclaration {
    Class(SpecClassDecl),
    Interface(SpecInterfaceDecl),
    Enum(SpecEnumDecl),
    Test(SpecTestDecl),
}

impl View for Declaration {
    type V = SpecDeclaration;

    open spec fn view(&self) -> SpecDeclaration {
        match self {
            Declaration::Class(c) => SpecDeclaration::Class(c@),
            Declaration::Interface(i) => SpecDeclaration::Interface(i@),
            Declaration::Enum(e) => SpecDeclaration::Enum(e@),
            Declaration::Test(t) => SpecDeclaration::Test(t@),
        }
    }
}

pub struct SpecRoute {
    pub path: Seq<char>,
    pub target: Seq<char>,
}

impl View for Route {
    type V = SpecRoute;

    open spec fn view(&self) -> SpecRoute {
        SpecRoute { path: self.path@, target: self.target@ }
    }
}

impl View for ImportDecl {
    type V = Seq<char>;

    open spec fn view(&self) -> Seq<char> {
        self.path@
    }
}

pub struct SpecProgram {
    pub name: Seq<char>,
    pub package: Option<Seq<char>>,
    pub imports: Seq<Seq<char>>,
    pub server: Option<ServerConfig>,
    pub declarations: Seq<SpecDeclaration>,
    pub routes: Seq<SpecRoute>,
}

impl View for Program {
    type V = SpecProgram;

    open spec fn view(&self) -> SpecProgram {
        SpecProgram {
            name: self.name@,
            package: opt_string_view(self.package),
            imports: views(self.imports@),
            server: self.server,
            declarations: views(self.declarations@),
            routes: views(self.routes@),
        }
    }
}

} // verus!
