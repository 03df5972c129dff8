use nexa::ast::{ClassDecl, ClassKind, Declaration, Expr, Method, Program, Stmt, Type, Visibility};
use nexa::semantic::{SemanticAnalyzer, SemanticError};
use nexa::spelling::type_text;

fn same_as_debug(t: Type) {
    assert_eq!(type_text(&t), format!("{:?}", t));
}

#[test]
fn spelling_of_simple_types() {
    assert_eq!(type_text(&Type::Int), "Int");
    assert_eq!(type_text(&Type::String), "String");
    assert_eq!(type_text(&Type::Bool), "Bool");
    assert_eq!(type_text(&Type::Void), "Void");
}

#[test]
fn spelling_of_named_types() {
    assert_eq!(type_text(&Type::Custom("User".into())), "Custom(\"User\")");
    assert_eq!(type_text(&Type::Generic("T".into())), "Generic(\"T\")");
    assert_eq!(type_text(&Type::List(Box::new(Type::Custom("A".into())))), "List(Custom(\"A\"))");
}

#[test]
fn spelling_of_function_types() {
    let f = Type::Function(vec![Type::Int, Type::String], Box::new(Type::Bool));
    assert_eq!(type_text(&f), "Function([Int, String], Bool)");
    let g = Type::Function(vec![], Box::new(Type::Void));
    assert_eq!(type_text(&g), "Function([], Void)");
}

#[test]
fn spelling_matches_debug() {
    same_as_debug(Type::Custom("q\"b\\s\n\r\t\0".into()));
    same_as_debug(Type::Custom("\u{1}\u{1f}\u{7f}x'y".into()));
    same_as_debug(Type::Generic("Énorme".into()));
    same_as_debug(Type::List(Box::new(Type::Function(
        vec![Type::Generic("T".into()), Type::List(Box::new(Type::Int))],
        Box::new(Type::Custom("R".into())),
    ))));
}

#[test]
fn let_mismatch_message_spells_types() {
    let method = Method {
        visibility: Visibility::Public,
        is_async: false,
        name: "run".into(),
        params: vec![],
        return_type: Type::Void,
        body: vec![Stmt::Let { name: "x".into(), ty: Some(Type::String), init: Expr::IntLit(42) }],
    };
    let cls = ClassDecl {
        visibility: Visibility::Public,
        kind: ClassKind::Class,
        name: "App".into(),
        type_params: vec![],
        extends: None,
        implements: vec![],
        fields: vec![],
        constructor: None,
        methods: vec![method],
    };
    let prog = Program {
        name: "test".into(),
        package: None,
        imports: vec![],
        server: None,
        declarations: vec![Declaration::Class(cls)],
        routes: vec![],
    };
    match SemanticAnalyzer::new().analyze(&prog).unwrap_err() {
        SemanticError::TypeMismatch { expected, found, .. } => {
            assert_eq!(expected, "String");
            assert_eq!(found, "Int");
        }
        other => panic!("expected TypeMismatch, got {other:?}"),
    }
}
