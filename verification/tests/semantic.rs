use nexa::ast::{
    BinOp, ClassDecl, ClassKind, Constructor, Declaration, Expr, Field, Method, Param, Program, Route, Stmt, Type,
    Visibility,
};
use nexa::hm::{generalize, HmEnv, HmType, TypeScheme, Unifier};
use nexa::semantic::{SemanticAnalyzer, SemanticError};
use nexa::span::Span;

fn make_class(name: &str, kind: ClassKind, vis: Visibility) -> ClassDecl {
    ClassDecl {
        visibility: vis,
        kind,
        name: name.into(),
        type_params: vec![],
        extends: None,
        implements: vec![],
        fields: vec![],
        constructor: None,
        methods: vec![],
    }
}

fn make_program(decls: Vec<Declaration>, routes: Vec<Route>) -> Program {
    Program {
        name: "test".into(),
        package: None,
        imports: vec![],
        server: None,
        declarations: decls,
        routes,
    }
}

// ── Pass 1-4 ─────────────────────────────────────────────────────────────

#[test]
fn duplicate_class_error() {
    let prog = make_program(
        vec![
            Declaration::Class(make_class("Foo", ClassKind::Class, Visibility::Public)),
            Declaration::Class(make_class("Foo", ClassKind::Class, Visibility::Public)),
        ],
        vec![],
    );
    let err = SemanticAnalyzer::new().analyze(&prog).unwrap_err();
    assert!(matches!(err, SemanticError::Duplicate { .. }));
}

#[test]
fn route_must_target_window() {
    let prog = make_program(
        vec![Declaration::Class(make_class("Home", ClassKind::Class, Visibility::Public))],
        vec![Route { path: "/".into(), target: "Home".into() }],
    );
    let err = SemanticAnalyzer::new().analyze(&prog).unwrap_err();
    assert!(matches!(err, SemanticError::NotAWindow { .. }));
}

#[test]
fn valid_window_route_passes() {
    let prog = make_program(
        vec![Declaration::Class(make_class("Home", ClassKind::Window, Visibility::Public))],
        vec![Route { path: "/".into(), target: "Home".into() }],
    );
    assert!(SemanticAnalyzer::new().analyze(&prog).is_ok());
}

// ── Pass 5: type checking ─────────────────────────────────────────────────

#[test]
fn let_type_mismatch_detected() {
    // let x: String = 42  → should fail
    let method = Method {
        visibility: Visibility::Public,
        is_async: false,
        name: "run".into(),
        params: vec![],
        return_type: Type::Void,
        body: vec![Stmt::Let {
            name: "x".into(),
            ty: Some(Type::String),
            init: Expr::IntLit(42),
        }],
    };
    let cls = ClassDecl {
        methods: vec![method],
        ..make_class("App", ClassKind::Class, Visibility::Public)
    };
    let prog = make_program(vec![Declaration::Class(cls)], vec![]);
    let err = SemanticAnalyzer::new().analyze(&prog).unwrap_err();
    assert!(
        matches!(err, SemanticError::TypeMismatch { .. }),
        "expected TypeMismatch, got {err:?}"
    );
}

#[test]
fn let_no_annotation_infers_int() {
    // let x = 42  → should pass (inferred as Int)
    let method = Method {
        visibility: Visibility::Public,
        is_async: false,
        name: "run".into(),
        params: vec![],
        return_type: Type::Void,
        body: vec![Stmt::Let {
            name: "x".into(),
            ty: None,
            init: Expr::IntLit(42),
        }],
    };
    let cls = ClassDecl {
        methods: vec![method],
        ..make_class("App", ClassKind::Class, Visibility::Public)
    };
    let prog = make_program(vec![Declaration::Class(cls)], vec![]);
    assert!(SemanticAnalyzer::new().analyze(&prog).is_ok());
}

#[test]
fn return_type_mismatch_detected() {
    // fn get(): Int { return "oops" }  → should fail
    let method = Method {
        visibility: Visibility::Public,
        is_async: false,
        name: "get".into(),
        params: vec![],
        return_type: Type::Int,
        body: vec![Stmt::Return { expr: Some(Expr::StringLit("oops".into())), span: Span::dummy() }],
    };
    let cls = ClassDecl {
        methods: vec![method],
        ..make_class("App", ClassKind::Class, Visibility::Public)
    };
    let prog = make_program(vec![Declaration::Class(cls)], vec![]);
    let err = SemanticAnalyzer::new().analyze(&prog).unwrap_err();
    assert!(
        matches!(err, SemanticError::TypeMismatch { .. }),
        "expected TypeMismatch, got {err:?}"
    );
}

#[test]
fn return_type_match_passes() {
    // fn get(): Int { return 7 }  → should pass
    let method = Method {
        visibility: Visibility::Public,
        is_async: false,
        name: "get".into(),
        params: vec![],
        return_type: Type::Int,
        body: vec![Stmt::Return { expr: Some(Expr::IntLit(7)), span: Span::dummy() }],
    };
    let cls = ClassDecl {
        methods: vec![method],
        ..make_class("App", ClassKind::Class, Visibility::Public)
    };
    let prog = make_program(vec![Declaration::Class(cls)], vec![]);
    assert!(SemanticAnalyzer::new().analyze(&prog).is_ok());
}

// ── Pass 6: generics ──────────────────────────────────────────────────────

fn class_with_generic(type_params: Vec<String>, field_ty: Type) -> ClassDecl {
    ClassDecl {
        type_params,
        fields: vec![Field {
            visibility: Visibility::Private,
            ty: field_ty,
            name: "value".into(),
        }],
        ..make_class("Box", ClassKind::Class, Visibility::Public)
    }
}

#[test]
fn generic_param_declared_and_used_passes() {
    // class Box<T> { value: T }  → ok
    let cls = class_with_generic(vec!["T".into()], Type::Generic("T".into()));
    let prog = make_program(vec![Declaration::Class(cls)], vec![]);
    assert!(SemanticAnalyzer::new().analyze(&prog).is_ok());
}

#[test]
fn undeclared_generic_in_field_is_rejected() {
    // class Box { value: T }  — T not declared → error
    let cls = class_with_generic(vec![], Type::Generic("T".into()));
    let prog = make_program(vec![Declaration::Class(cls)], vec![]);
    let err = SemanticAnalyzer::new().analyze(&prog).unwrap_err();
    assert!(
        matches!(err, SemanticError::UndeclaredTypeParam { ref param, .. } if param == "T"),
        "expected UndeclaredTypeParam for T, got {err:?}"
    );
}

#[test]
fn undeclared_generic_in_method_param_is_rejected() {
    // class Foo { fn get(x: U): Void }  — U not declared → error
    let method = Method {
        visibility: Visibility::Public,
        is_async: false,
        name: "get".into(),
        params: vec![Param { name: "x".into(), ty: Type::Generic("U".into()) }],
        return_type: Type::Void,
        body: vec![],
    };
    let cls = ClassDecl {
        methods: vec![method],
        ..make_class("Foo", ClassKind::Class, Visibility::Public)
    };
    let prog = make_program(vec![Declaration::Class(cls)], vec![]);
    let err = SemanticAnalyzer::new().analyze(&prog).unwrap_err();
    assert!(matches!(err, SemanticError::UndeclaredTypeParam { .. }));
}

#[test]
fn generic_in_list_field_checks_inner_type() {
    // class Bag<T> { items: List<T> }  → ok
    let cls = class_with_generic(
        vec!["T".into()],
        Type::List(Box::new(Type::Generic("T".into()))),
    );
    let prog = make_program(vec![Declaration::Class(cls)], vec![]);
    assert!(SemanticAnalyzer::new().analyze(&prog).is_ok());
}

#[test]
fn undeclared_generic_in_list_field_is_rejected() {
    // class Bag { items: List<X> }  — X not declared → error
    let cls = class_with_generic(
        vec![],
        Type::List(Box::new(Type::Generic("X".into()))),
    );
    let prog = make_program(vec![Declaration::Class(cls)], vec![]);
    let err = SemanticAnalyzer::new().analyze(&prog).unwrap_err();
    assert!(matches!(err, SemanticError::UndeclaredTypeParam { ref param, .. } if param == "X"));
}

// ── Enhanced type inference ───────────────────────────────────────────────

#[test]
fn field_access_on_this_infers_field_type() {
    // class App { count: Int; fn get(): Int { return this.count; } }  → ok
    let cls = ClassDecl {
        fields: vec![Field {
            visibility: Visibility::Private,
            ty: Type::Int,
            name: "count".into(),
        }],
        methods: vec![Method {
            visibility: Visibility::Public,
        is_async: false,
            name: "get".into(),
            params: vec![],
            return_type: Type::Int,
            body: vec![Stmt::Return { expr: Some(Expr::FieldAccess(
                Box::new(Expr::This),
                "count".into(),
            )), span: Span::dummy() }],
        }],
        ..make_class("App", ClassKind::Class, Visibility::Public)
    };
    let prog = make_program(vec![Declaration::Class(cls)], vec![]);
    assert!(SemanticAnalyzer::new().analyze(&prog).is_ok());
}

#[test]
fn field_access_type_mismatch_detected() {
    // class App { count: Int; fn get(): String { return this.count; } }  → error
    let cls = ClassDecl {
        fields: vec![Field {
            visibility: Visibility::Private,
            ty: Type::Int,
            name: "count".into(),
        }],
        methods: vec![Method {
            visibility: Visibility::Public,
        is_async: false,
            name: "get".into(),
            params: vec![],
            return_type: Type::String,
            body: vec![Stmt::Return { expr: Some(Expr::FieldAccess(
                Box::new(Expr::This),
                "count".into(),
            )), span: Span::dummy() }],
        }],
        ..make_class("App", ClassKind::Class, Visibility::Public)
    };
    let prog = make_program(vec![Declaration::Class(cls)], vec![]);
    let err = SemanticAnalyzer::new().analyze(&prog).unwrap_err();
    assert!(matches!(err, SemanticError::TypeMismatch { .. }));
}

#[test]
fn method_call_return_type_inferred() {
    // class Counter {
    //   fn get(): Int { return 0; }
    //   fn run(): Int { return this.get(); }
    // }  → ok (method return type propagated)
    let cls = ClassDecl {
        methods: vec![
            Method {
                visibility: Visibility::Public,
        is_async: false,
                name: "get".into(),
                params: vec![],
                return_type: Type::Int,
                body: vec![Stmt::Return { expr: Some(Expr::IntLit(0)), span: Span::dummy() }],
            },
            Method {
                visibility: Visibility::Public,
        is_async: false,
                name: "run".into(),
                params: vec![],
                return_type: Type::Int,
                body: vec![Stmt::Return { expr: Some(Expr::MethodCall {
                    receiver: Box::new(Expr::This),
                    method: "get".into(),
                    args: vec![],
                }), span: Span::dummy() }],
            },
        ],
        ..make_class("Counter", ClassKind::Class, Visibility::Public)
    };
    let prog = make_program(vec![Declaration::Class(cls)], vec![]);
    assert!(SemanticAnalyzer::new().analyze(&prog).is_ok());
}

#[test]
fn inferred_let_used_in_binary() {
    // let x = 1; let y = x + 2  → should pass (y inferred as Int)
    let method = Method {
        visibility: Visibility::Public,
        is_async: false,
        name: "run".into(),
        params: vec![],
        return_type: Type::Void,
        body: vec![
            Stmt::Let { name: "x".into(), ty: None, init: Expr::IntLit(1) },
            Stmt::Let {
                name: "y".into(),
                ty: None,
                init: Expr::Binary {
                    op: BinOp::Add,
                    left: Box::new(Expr::Ident("x".into())),
                    right: Box::new(Expr::IntLit(2)),
                },
            },
        ],
    };
    let cls = ClassDecl {
        methods: vec![method],
        ..make_class("App", ClassKind::Class, Visibility::Public)
    };
    let prog = make_program(vec![Declaration::Class(cls)], vec![]);
    assert!(SemanticAnalyzer::new().analyze(&prog).is_ok());
}

// ── Pass 7: Hindley-Milner tests ──────────────────────────────────────────

// Helper: build a Unifier and call infer_expr_hm on a standalone expression.
// `env` entries are treated as monotypes (no generalization).
fn infer(expr: Expr, env: &[(&str, HmType)], cls_name: &str) -> HmType {
    let mut env_map = HmEnv::new();
    for (k, v) in env {
        env_map.insert(k.to_string(), TypeScheme::mono(v.clone()));
    }
    let cls = make_class(cls_name, ClassKind::Class, Visibility::Public);
    let mut u = Unifier::new();
    let analyzer = SemanticAnalyzer::new();
    let ty = analyzer.infer_expr_hm(&expr, &env_map, &cls, &mut u).unwrap();
    u.apply(&ty)
}

// ── literal inference ─────────────────────────────────────────────────────

#[test]
fn hm_int_literal() {
    assert_eq!(infer(Expr::IntLit(0), &[], "A"), HmType::Int);
}

#[test]
fn hm_bool_literal() {
    assert_eq!(infer(Expr::BoolLit(true), &[], "A"), HmType::Bool);
}

#[test]
fn hm_string_literal() {
    assert_eq!(infer(Expr::StringLit("hi".into()), &[], "A"), HmType::String);
}

// ── arithmetic unification ────────────────────────────────────────────────

#[test]
fn hm_arithmetic_resolves_to_int() {
    // 1 + 2 → Int
    let expr = Expr::Binary {
        op: BinOp::Add,
        left: Box::new(Expr::IntLit(1)),
        right: Box::new(Expr::IntLit(2)),
    };
    assert_eq!(infer(expr, &[], "A"), HmType::Int);
}

#[test]
fn hm_comparison_resolves_to_bool() {
    // 3 < 5 → Bool
    let expr = Expr::Binary {
        op: BinOp::Lt,
        left: Box::new(Expr::IntLit(3)),
        right: Box::new(Expr::IntLit(5)),
    };
    assert_eq!(infer(expr, &[], "A"), HmType::Bool);
}

// ── lambda type inference ─────────────────────────────────────────────────

#[test]
fn hm_lambda_param_inferred_from_body() {
    // x => x + 1  —  x unifies with Int (via Int + Int)
    let body = Expr::Binary {
        op: BinOp::Add,
        left: Box::new(Expr::Ident("x".into())),
        right: Box::new(Expr::IntLit(1)),
    };
    let lambda = Expr::Lambda {
        params: vec![Param { name: "x".into(), ty: Type::Custom("T".into()) }],
        body: Box::new(body),
    };
    let ty = infer(lambda, &[], "A");
    // should be Function([Int], Int)
    assert!(
        matches!(&ty, HmType::Function(params, ret) if params.len() == 1
            && params[0] == HmType::Int
            && **ret == HmType::Int),
        "expected (Int) => Int, got {:?}",
        ty
    );
}

#[test]
fn hm_lambda_typed_param_preserved() {
    // (x: String) => x  — no unification needed, param stays String
    let lambda = Expr::Lambda {
        params: vec![Param { name: "x".into(), ty: Type::String }],
        body: Box::new(Expr::Ident("x".into())),
    };
    let ty = infer(lambda, &[], "A");
    assert!(
        matches!(&ty, HmType::Function(params, ret)
            if params[0] == HmType::String && **ret == HmType::String),
        "{:?}",
        ty
    );
}

// ── let propagation through method calls ──────────────────────────────────

#[test]
fn hm_let_propagates_method_return_type() {
    // class Counter { get(): Int { ... } }
    // let c = Counter();  let v = c.get();  v should be Int
    let counter = ClassDecl {
        methods: vec![Method {
            visibility: Visibility::Public,
        is_async: false,
            name: "get".into(),
            params: vec![],
            return_type: Type::Int,
            body: vec![Stmt::Return { expr: Some(Expr::IntLit(0)), span: Span::dummy() }],
        }],
        ..make_class("Counter", ClassKind::Class, Visibility::Public)
    };
    let checker_cls = make_class("App", ClassKind::Class, Visibility::Public);
    let method = Method {
        visibility: Visibility::Public,
        is_async: false,
        name: "run".into(),
        params: vec![],
        return_type: Type::Void,
        body: vec![
            // let c = Counter();
            Stmt::Let {
                name: "c".into(),
                ty: None,
                init: Expr::Call { callee: "Counter".into(), args: vec![] },
            },
            // let v: Int = c.get();
            Stmt::Let {
                name: "v".into(),
                ty: Some(Type::Int),
                init: Expr::MethodCall {
                    receiver: Box::new(Expr::Ident("c".into())),
                    method: "get".into(),
                    args: vec![],
                },
            },
        ],
    };
    let app = ClassDecl { methods: vec![method], ..checker_cls };
    let mut analyzer = SemanticAnalyzer::new();
    analyzer.insert_class(counter);
    analyzer.insert_class(app.clone());
    // check_class_hm should not error
    assert!(analyzer.check_class_hm(&app).is_ok());
}

// ── type mismatch via HM ──────────────────────────────────────────────────

#[test]
fn hm_detects_string_plus_int_mismatch_in_subtraction() {
    // "hello" - 1  — Sub requires both Int → error
    let expr = Expr::Binary {
        op: BinOp::Sub,
        left: Box::new(Expr::StringLit("hello".into())),
        right: Box::new(Expr::IntLit(1)),
    };
    let env_map = HmEnv::new();
    let cls = make_class("A", ClassKind::Class, Visibility::Public);
    let mut u = Unifier::new();
    let analyzer = SemanticAnalyzer::new();
    let res = analyzer.infer_expr_hm(&expr, &env_map, &cls, &mut u);
    assert!(res.is_err(), "expected type error for String - Int");
}

#[test]
fn hm_detects_let_annotation_mismatch() {
    // let x: Bool = 42  — should fail through Pass 7
    let method = Method {
        visibility: Visibility::Public,
        is_async: false,
        name: "run".into(),
        params: vec![],
        return_type: Type::Void,
        body: vec![Stmt::Let {
            name: "x".into(),
            ty: Some(Type::Bool),
            init: Expr::IntLit(42),
        }],
    };
    let cls = ClassDecl {
        methods: vec![method],
        ..make_class("App", ClassKind::Class, Visibility::Public)
    };
    let prog = make_program(vec![Declaration::Class(cls)], vec![]);
    let err = SemanticAnalyzer::new().analyze(&prog).unwrap_err();
    assert!(matches!(err, SemanticError::TypeMismatch { .. }), "{err:?}");
}

// ── occurs check ─────────────────────────────────────────────────────────

#[test]
fn hm_occurs_check_prevents_infinite_type() {
    // Unifier::unify(α0, List<α0>) must fail with an occurs-check error.
    let mut u = Unifier::new();
    let id = u.fresh();
    let t1 = HmType::Var(id);
    let t2 = HmType::List(Box::new(HmType::Var(id)));
    let res = u.unify(&t1, &t2);
    assert!(res.is_err(), "expected infinite-type error");
    let msg = res.unwrap_err();
    assert!(msg.contains("infinite"), "message should mention 'infinite': {msg}");
}

// ── generic constructor instantiation ─────────────────────────────────────

#[test]
fn hm_generic_constructor_unifies_arg_type() {
    // class Box<T> { constructor(val: T) {} }
    // Box(42)  →  T unified with Int, result is Custom("Box")
    let box_cls = ClassDecl {
        type_params: vec!["T".into()],
        constructor: Some(Constructor {
            params: vec![Param { name: "val".into(), ty: Type::Generic("T".into()) }],
            body: vec![],
        }),
        ..make_class("Box", ClassKind::Class, Visibility::Public)
    };
    let caller = make_class("App", ClassKind::Class, Visibility::Public);
    let env_map = HmEnv::new();
    let mut u = Unifier::new();
    let mut analyzer = SemanticAnalyzer::new();
    analyzer.insert_class(box_cls);

    let call = Expr::Call {
        callee: "Box".into(),
        args: vec![Expr::IntLit(42)],
    };
    let ty = analyzer.infer_expr_hm(&call, &env_map, &caller, &mut u).unwrap();
    assert_eq!(ty, HmType::Custom("Box".into()));
}

// ── equality operand unification ──────────────────────────────────────────

#[test]
fn hm_equality_on_different_types_fails() {
    // 42 == "hi"  — Eq requires both sides to unify → error
    let expr = Expr::Binary {
        op: BinOp::Eq,
        left: Box::new(Expr::IntLit(42)),
        right: Box::new(Expr::StringLit("hi".into())),
    };
    let env_map = HmEnv::new();
    let cls = make_class("A", ClassKind::Class, Visibility::Public);
    let mut u = Unifier::new();
    let analyzer = SemanticAnalyzer::new();
    let res = analyzer.infer_expr_hm(&expr, &env_map, &cls, &mut u);
    assert!(res.is_err(), "expected type error for Int == String");
}

// ── Damas-Milner let-polymorphism ─────────────────────────────────────────

/// `let id = x => x` generalizes to `∀α. α → α`.
/// Using `id` at both Int and String in the same scope must pass —
/// each call gets independent fresh variables.
#[test]
fn hm_let_polymorphism_identity() {
    // fn run(): Void {
    //   let id = x => x;   // id : ∀α. α → α
    //   let a: Int    = id(1);
    //   let b: String = id("hi");
    // }
    let id_lambda = Expr::Lambda {
        params: vec![Param { name: "x".into(), ty: Type::Custom("T".into()) }],
        body: Box::new(Expr::Ident("x".into())),
    };
    let method = Method {
        visibility: Visibility::Public,
        is_async: false,
        name: "run".into(),
        params: vec![],
        return_type: Type::Void,
        body: vec![
            Stmt::Let { name: "id".into(), ty: None, init: id_lambda },
            Stmt::Let {
                name: "a".into(),
                ty: Some(Type::Int),
                init: Expr::Call { callee: "id".into(), args: vec![Expr::IntLit(1)] },
            },
            Stmt::Let {
                name: "b".into(),
                ty: Some(Type::String),
                init: Expr::Call {
                    callee: "id".into(),
                    args: vec![Expr::StringLit("hi".into())],
                },
            },
        ],
    };
    let cls = ClassDecl {
        methods: vec![method],
        ..make_class("App", ClassKind::Class, Visibility::Public)
    };
    let prog = make_program(vec![Declaration::Class(cls)], vec![]);
    assert!(
        SemanticAnalyzer::new().analyze(&prog).is_ok(),
        "let-polymorphism: id used at Int and String must both typecheck"
    );
}

/// Monomorphic let (type annotation) is NOT generalized.
/// `let f: (Int) => Int = x => x` fixes `f` to Int→Int;
/// using `f("hi")` must fail.
#[test]
fn hm_annotated_let_is_not_polymorphic() {
    // fn run(): Void {
    //   let f: (Int) => Int = x => x;
    //   let b: String = f("hi");   // must fail: f is monomorphic
    // }
    let id_lambda = Expr::Lambda {
        params: vec![Param { name: "x".into(), ty: Type::Custom("T".into()) }],
        body: Box::new(Expr::Ident("x".into())),
    };
    let method = Method {
        visibility: Visibility::Public,
        is_async: false,
        name: "run".into(),
        params: vec![],
        return_type: Type::Void,
        body: vec![
            Stmt::Let {
                name: "f".into(),
                ty: Some(Type::Function(vec![Type::Int], Box::new(Type::Int))),
                init: id_lambda,
            },
            Stmt::Let {
                name: "b".into(),
                ty: Some(Type::String),
                init: Expr::Call {
                    callee: "f".into(),
                    args: vec![Expr::StringLit("hi".into())],
                },
            },
        ],
    };
    let cls = ClassDecl {
        methods: vec![method],
        ..make_class("App", ClassKind::Class, Visibility::Public)
    };
    let prog = make_program(vec![Declaration::Class(cls)], vec![]);
    // f("hi") should fail because f : Int → Int was fixed by annotation
    assert!(
        SemanticAnalyzer::new().analyze(&prog).is_err(),
        "annotated monomorphic let must not allow String argument"
    );
}

/// `let add = (x, y) => x + y` — both params unify to Int via the `+` body.
/// The scheme is `∀. (Int, Int) → Int` (no free vars to generalize).
/// Using it at Int twice must pass; passing a String must fail.
#[test]
fn hm_let_infers_int_function_from_arithmetic_body() {
    let add_lambda = Expr::Lambda {
        params: vec![
            Param { name: "x".into(), ty: Type::Custom("T".into()) },
            Param { name: "y".into(), ty: Type::Custom("T".into()) },
        ],
        body: Box::new(Expr::Binary {
            op: BinOp::Add,
            left: Box::new(Expr::Ident("x".into())),
            right: Box::new(Expr::Ident("y".into())),
        }),
    };
    let method = Method {
        visibility: Visibility::Public,
        is_async: false,
        name: "run".into(),
        params: vec![],
        return_type: Type::Void,
        body: vec![
            Stmt::Let { name: "add".into(), ty: None, init: add_lambda },
            // let r: Int = add(1, 2)  → ok
            Stmt::Let {
                name: "r".into(),
                ty: Some(Type::Int),
                init: Expr::Call {
                    callee: "add".into(),
                    args: vec![Expr::IntLit(1), Expr::IntLit(2)],
                },
            },
        ],
    };
    let cls = ClassDecl {
        methods: vec![method],
        ..make_class("App", ClassKind::Class, Visibility::Public)
    };
    let prog = make_program(vec![Declaration::Class(cls)], vec![]);
    assert!(SemanticAnalyzer::new().analyze(&prog).is_ok());
}

/// Two independent uses of a polymorphic binding with different types
/// must not interfere with each other (independent unification chains).
#[test]
fn hm_polymorphic_uses_are_independent() {
    // let wrap = x => x;
    // let p = wrap(true);    — Bool use
    // let q = wrap(99);      — Int use  (must not see Bool constraint)
    let wrap_lambda = Expr::Lambda {
        params: vec![Param { name: "x".into(), ty: Type::Custom("T".into()) }],
        body: Box::new(Expr::Ident("x".into())),
    };
    let cls_def = make_class("App", ClassKind::Class, Visibility::Public);
    let analyzer = SemanticAnalyzer::new();
    let mut env = HmEnv::new();
    let cls = cls_def.clone();
    let mut u = Unifier::new();

    // Insert let wrap = x => x into env (simulating check_stmt_hm LET rule).
    let lambda_ty = analyzer.infer_expr_hm(&wrap_lambda, &env, &cls, &mut u).unwrap();
    let scheme = generalize(&env, &lambda_ty, &mut u);
    assert!(!scheme.quantified.is_empty(), "wrap should be polymorphic");
    env.insert("wrap".into(), scheme);

    // Use wrap(true) → should produce Bool.
    let call_bool = Expr::Call {
        callee: "wrap".into(),
        args: vec![Expr::BoolLit(true)],
    };
    // Use wrap(99) → should produce Int (independent var).
    let call_int = Expr::Call {
        callee: "wrap".into(),
        args: vec![Expr::IntLit(99)],
    };

    // Both calls through check_stmt_hm must not interfere.
    let method = Method {
        visibility: Visibility::Public,
        is_async: false,
        name: "run".into(),
        params: vec![],
        return_type: Type::Void,
        body: vec![
            Stmt::Let { name: "wrap".into(), ty: None, init: Expr::Lambda {
                params: vec![Param { name: "x".into(), ty: Type::Custom("T".into()) }],
                body: Box::new(Expr::Ident("x".into())),
            }},
            Stmt::Let { name: "p".into(), ty: Some(Type::Bool), init: call_bool },
            Stmt::Let { name: "q".into(), ty: Some(Type::Int), init: call_int },
        ],
    };
    let cls2 = ClassDecl {
        methods: vec![method],
        ..cls_def
    };
    let prog = make_program(vec![Declaration::Class(cls2)], vec![]);
    assert!(
        SemanticAnalyzer::new().analyze(&prog).is_ok(),
        "polymorphic uses of wrap must not interfere"
    );
}

// ── Further checks of the analysis and of unification ────────────────────────

fn program_of(decls: Vec<Declaration>, routes: Vec<Route>) -> Program {
    Program { name: "test".into(), package: None, imports: vec![], server: None, declarations: decls, routes }
}

#[test]
fn unify_binds_variable_so_both_sides_agree() {
    let mut u = Unifier::new();
    let a = u.fresh();
    let list_a = HmType::List(Box::new(HmType::Var(a)));
    let list_int = HmType::List(Box::new(HmType::Int));
    assert!(u.unify(&list_a, &list_int).is_ok());
    assert_eq!(u.apply(&list_a), u.apply(&list_int));
    assert_eq!(u.apply(&HmType::Var(a)), HmType::Int);
}

#[test]
fn unify_chains_are_resolved_fully() {
    let mut u = Unifier::new();
    let a = u.fresh();
    let b = u.fresh();
    assert!(u.unify(&HmType::Var(a), &HmType::Var(b)).is_ok());
    assert!(u.unify(&HmType::Var(b), &HmType::Bool).is_ok());
    assert_eq!(u.apply(&HmType::Var(a)), HmType::Bool);
}

#[test]
fn unify_reports_clash_and_arity() {
    let mut u = Unifier::new();
    let err = u.unify(&HmType::Int, &HmType::String).unwrap_err();
    assert_eq!(err, "cannot unify Int with String");
    let f1 = HmType::Function(vec![HmType::Int], Box::new(HmType::Int));
    let f2 = HmType::Function(vec![HmType::Int, HmType::Int], Box::new(HmType::Int));
    assert_eq!(u.unify(&f1, &f2).unwrap_err(), "function arity mismatch: 1 vs 2");
}

#[test]
fn occurs_message_names_the_variable() {
    let mut u = Unifier::new();
    let id = u.fresh();
    let t = HmType::List(Box::new(HmType::Var(id)));
    assert_eq!(u.unify(&HmType::Var(id), &t).unwrap_err(), "infinite type: α0 = List<α0>");
}

#[test]
fn display_writes_functions_and_lists() {
    let f = HmType::Function(vec![HmType::Int, HmType::Custom("Box".into())], Box::new(HmType::List(Box::new(HmType::Bool))));
    assert_eq!(f.display(), "(Int, Box) => List<Bool>");
}

#[test]
fn generalize_quantifies_only_free_variables() {
    let mut u = Unifier::new();
    let a = u.fresh();
    let b = u.fresh();
    let mut env = HmEnv::new();
    env.insert("x".into(), TypeScheme::mono(HmType::Var(a)));
    let t = HmType::Function(vec![HmType::Var(a)], Box::new(HmType::Var(b)));
    let sc = generalize(&env, &t, &u);
    assert_eq!(sc.quantified, vec![b]);
}

#[test]
fn duplicate_interface_and_unknown_parent_are_reported() {
    let iface = nexa::ast::InterfaceDecl { visibility: Visibility::Public, name: "I".into(), type_params: vec![], methods: vec![] };
    let prog = program_of(vec![Declaration::Interface(iface.clone()), Declaration::Interface(iface)], vec![]);
    let err = SemanticAnalyzer::new().analyze(&prog).unwrap_err();
    assert!(matches!(err, SemanticError::Duplicate { ref name, .. } if name == "I"));
    let mut c = ClassDecl {
        visibility: Visibility::Public,
        kind: ClassKind::Class,
        name: "A".into(),
        type_params: vec![],
        extends: Some("Missing".into()),
        implements: vec![],
        fields: vec![],
        constructor: None,
        methods: vec![],
    };
    let prog = program_of(vec![Declaration::Class(c.clone())], vec![]);
    let err = SemanticAnalyzer::new().analyze(&prog).unwrap_err();
    assert!(matches!(err, SemanticError::UndefinedType { ref name, .. } if name == "Missing"));
    c.extends = None;
    c.implements = vec!["Nope".into()];
    let prog = program_of(vec![Declaration::Class(c)], vec![]);
    let err = SemanticAnalyzer::new().analyze(&prog).unwrap_err();
    assert!(matches!(err, SemanticError::UndefinedType { ref name, .. } if name == "Nope"));
}

#[test]
fn imports_must_name_public_symbols() {
    let private = ClassDecl {
        visibility: Visibility::Private,
        kind: ClassKind::Class,
        name: "Secret".into(),
        type_params: vec![],
        extends: None,
        implements: vec![],
        fields: vec![],
        constructor: None,
        methods: vec![],
    };
    let mut prog = program_of(vec![Declaration::Class(private)], vec![]);
    prog.imports = vec![nexa::ast::ImportDecl { path: "com.app.Secret".into() }];
    let err = SemanticAnalyzer::new().analyze(&prog).unwrap_err();
    assert!(matches!(err, SemanticError::NotPublic { ref name, .. } if name == "Secret"));
    prog.imports = vec![nexa::ast::ImportDecl { path: "com.app.Other".into() }];
    let err = SemanticAnalyzer::new().analyze(&prog).unwrap_err();
    assert!(matches!(err, SemanticError::UnknownImport { ref path, .. } if path == "com.app.Other"));
}

#[test]
fn undeclared_generic_lists_declared_parameters_once() {
    let cls = ClassDecl {
        visibility: Visibility::Public,
        kind: ClassKind::Class,
        name: "Pair".into(),
        type_params: vec!["A".into(), "B".into(), "A".into()],
        extends: None,
        implements: vec![],
        fields: vec![Field { visibility: Visibility::Private, ty: Type::Generic("C".into()), name: "x".into() }],
        constructor: None,
        methods: vec![],
    };
    let err = SemanticAnalyzer::new().analyze(&program_of(vec![Declaration::Class(cls)], vec![])).unwrap_err();
    match err {
        SemanticError::UndeclaredTypeParam { param, context, declared, .. } => {
            assert_eq!(param, "C");
            assert_eq!(context, "Pair");
            assert_eq!(declared, "A, B");
        },
        other => panic!("unexpected {other:?}"),
    }
}

#[test]
fn route_to_unknown_class_is_undefined() {
    let prog = program_of(vec![], vec![Route { path: "/".into(), target: "Nowhere".into() }]);
    let err = SemanticAnalyzer::new().analyze(&prog).unwrap_err();
    assert!(matches!(err, SemanticError::UndefinedType { ref name, .. } if name == "Nowhere"));
}
