use nexa::ast::{ClassKind, Declaration, Expr, Program, Stmt, Type};
use nexa::ir::{IrExpr, IrStmt, IrType};
use nexa::lexer::Lexer;
use nexa::lower::lower;
use nexa::optimizer::{optimize, optimize_checked};
use nexa::parser::Parser;
use nexa::semantic::SemanticError;
use nexa::span::Span;
use nexa::token::Token;
use nexa::types::{type_to_js, types_compatible};

fn parse(src: &str) -> Program {
    let tokens = Lexer::new(src).tokenize().expect("lex error");
    Parser::new(tokens).parse().expect("parse error")
}

fn class_names(p: &Program) -> Vec<String> {
    p.declarations
        .iter()
        .map(|d| match d {
            Declaration::Class(c) => c.name.clone(),
            Declaration::Interface(i) => i.name.clone(),
            Declaration::Enum(e) => e.name.clone(),
            Declaration::Test(t) => t.name.clone(),
        })
        .collect()
}

#[test]
fn tokens_always_end_with_one_eof() {
    for src in ["", "app A { }", "// only a comment", "let x = \"s\";"] {
        let toks = Lexer::new(src).tokenize().unwrap();
        assert_eq!(toks.last().unwrap().token, Token::Eof);
        assert_eq!(toks.iter().filter(|t| t.token == Token::Eof).count(), 1);
    }
}

#[test]
fn dead_code_keeps_only_what_routes_reach() {
    let src = r#"
        app A {
            route "/" => Home;
            window Home { render() => Void { return Page { Card(); }; } }
            class Card extends Base { }
            class Base { }
            class Unused { }
            interface Lonely { f() => Void; }
        }
    "#;
    let p = optimize(parse(src));
    assert_eq!(class_names(&p), vec!["Home", "Card", "Base"]);
}

#[test]
fn dead_code_follows_field_and_parameter_types() {
    let src = r#"
        app A {
            route "/" => Home;
            window Home {
                public Store s;
                run(x: Helper) => Other { return x; }
            }
            class Store { }
            class Helper { }
            class Other { }
            class Dropped { }
        }
    "#;
    let p = optimize(parse(src));
    assert_eq!(class_names(&p), vec!["Home", "Store", "Helper", "Other"]);
}

#[test]
fn nothing_survives_without_routes() {
    let p = optimize(parse("app A { class Foo { } window W { } }"));
    assert!(p.declarations.is_empty());
}

#[test]
fn trivial_component_is_inlined_and_removed() {
    let src = r#"
        app A {
            route "/" => Home;
            window Home { render() => Void { return Badge(); } }
            component Badge { render() => Void { return Text("hi"); } }
        }
    "#;
    let p = optimize(parse(src));
    assert_eq!(class_names(&p), vec!["Home"]);
    if let Declaration::Class(c) = &p.declarations[0] {
        match &c.methods[0].body[0] {
            Stmt::Return { expr: Some(Expr::Call { callee, .. }), .. } => assert_eq!(callee, "Text"),
            other => panic!("expected the inlined call, got {:?}", other),
        }
    } else {
        panic!("expected a class");
    }
}

#[test]
fn constants_fold_inside_method_bodies() {
    let src = r#"
        app A {
            route "/" => Home;
            window Home { run() => Int { return 2 * 3 + 4; } }
        }
    "#;
    let p = optimize(parse(src));
    if let Declaration::Class(c) = &p.declarations[0] {
        assert!(matches!(c.methods[0].body[0], Stmt::Return { expr: Some(Expr::IntLit(10)), .. }));
        assert!(matches!(c.kind, ClassKind::Window));
    } else {
        panic!("expected a class");
    }
}

#[test]
fn optimize_keeps_name_routes_and_server() {
    let src = r#"app Shop { server { port: 8080; } route "/" => Home; window Home { } }"#;
    let p = optimize(parse(src));
    assert_eq!(p.name, "Shop");
    assert_eq!(p.routes.len(), 1);
    assert_eq!(p.server.unwrap().port, 8080);
}

#[test]
fn lowering_keeps_classes_and_types_bodies() {
    let src = r#"
        app A {
            class Counter {
                public Int count;
                get() => Int { return this.count + 1; }
            }
            interface I { f() => Void; }
        }
    "#;
    let m = lower(&parse(src));
    assert_eq!(m.name, "A");
    assert_eq!(m.classes.len(), 1);
    let c = &m.classes[0];
    assert_eq!(c.name, "Counter");
    assert_eq!(c.fields.len(), 1);
    assert!(matches!(c.fields[0].ty, IrType::Int));
    assert!(matches!(c.methods[0].return_ty, IrType::Int));
    match &c.methods[0].body[0] {
        IrStmt::Return(Some(IrExpr::Bin { .. })) => {}
        other => panic!("expected a lowered binary return, got {:?}", other),
    }
}

#[test]
fn typescript_spelling_of_types() {
    assert_eq!(type_to_js(&Type::Int), "number");
    assert_eq!(type_to_js(&Type::List(Box::new(Type::String))), "Array<string>");
    assert_eq!(
        type_to_js(&Type::Function(vec![Type::Int, Type::Bool], Box::new(Type::Void))),
        "(number, boolean) => void"
    );
    assert_eq!(type_to_js(&Type::Custom("Foo".into())), "Foo");
}

#[test]
fn type_compatibility() {
    assert!(types_compatible(&Type::Int, &Type::Int));
    assert!(!types_compatible(&Type::Int, &Type::String));
    assert!(types_compatible(&Type::Custom("A".into()), &Type::Int));
    assert!(types_compatible(&Type::Bool, &Type::Generic("T".into())));
    assert!(!types_compatible(&Type::List(Box::new(Type::Int)), &Type::List(Box::new(Type::Bool))));
}

#[test]
fn semantic_errors_carry_their_span() {
    let s = Span::new(3, 7, 2);
    let e = SemanticError::TypeMismatch { expected: "Int".into(), found: "String".into(), span: s };
    assert_eq!(e.span(), s);
    assert_eq!(SemanticError::InfiniteType("t".into(), s).span(), s);
}

#[test]
fn overflowing_constants_are_refused_before_folding() {
    let src = r#"
        app A {
            route "/" => Home;
            window Home { run() => Int { return 9223372036854775807 + 1; } }
        }
    "#;
    assert!(optimize_checked(parse(src)).is_none());
    let ok = r#"app A { route "/" => Home; window Home { run() => Int { return 1 + 1; } } }"#;
    assert!(optimize_checked(parse(ok)).is_some());
}
