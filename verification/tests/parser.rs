use nexa::ast::{BinOp, ClassKind, Declaration, Expr, Program, Stmt, Type};
use nexa::lexer::Lexer;
use nexa::parser::{ParseError, Parser};
use nexa::token::Token;

fn parse(src: &str) -> Program {
    let tokens = Lexer::new(src).tokenize().expect("lex error");
    Parser::new(tokens).parse().expect("parse error")
}

fn parse_err(src: &str) -> ParseError {
    let tokens = Lexer::new(src).tokenize().expect("lex error");
    Parser::new(tokens).parse().unwrap_err()
}

fn parse_lib(src: &str) -> Program {
    let tokens = Lexer::new(src).tokenize().expect("lex error");
    Parser::new(tokens).parse_lib().expect("parse_lib error")
}

// ── app block ─────────────────────────────────────────────────────────────

#[test]
fn minimal_app() {
    let p = parse("app MyApp { }");
    assert_eq!(p.name, "MyApp");
    assert!(p.declarations.is_empty());
    assert!(p.routes.is_empty());
    assert!(p.server.is_none());
}

#[test]
fn app_with_server_block() {
    let p = parse("app MyApp { server { port: 8080; } }");
    assert_eq!(p.server.unwrap().port, 8080);
}

#[test]
fn app_with_route() {
    let p = parse(r#"app MyApp { route "/" => HomeWindow; }"#);
    assert_eq!(p.routes.len(), 1);
    assert_eq!(p.routes[0].path, "/");
    assert_eq!(p.routes[0].target, "HomeWindow");
}

// ── package / import ──────────────────────────────────────────────────────

#[test]
fn package_declaration() {
    let p = parse("package com.myapp; app A { }");
    assert_eq!(p.package.unwrap(), "com.myapp");
}

#[test]
fn import_declaration() {
    let p = parse("import com.ui.Button; app A { }");
    assert_eq!(p.imports.len(), 1);
    assert_eq!(p.imports[0].path, "com.ui.Button");
}

#[test]
fn multiple_imports() {
    let p = parse("import a.B; import c.D; app A { }");
    assert_eq!(p.imports.len(), 2);
}

// ── class declaration ─────────────────────────────────────────────────────

#[test]
fn empty_class() {
    let p = parse("app A { class Foo { } }");
    assert_eq!(p.declarations.len(), 1);
    if let Declaration::Class(cls) = &p.declarations[0] {
        assert_eq!(cls.name, "Foo");
        assert!(matches!(cls.kind, ClassKind::Class));
    } else {
        panic!("expected class");
    }
}

#[test]
fn class_with_field() {
    let p = parse("app A { class Foo { public Int x; } }");
    if let Declaration::Class(cls) = &p.declarations[0] {
        assert_eq!(cls.fields.len(), 1);
        assert_eq!(cls.fields[0].name, "x");
        assert!(matches!(cls.fields[0].ty, Type::Int));
    } else {
        panic!();
    }
}

#[test]
fn class_with_constructor_and_method() {
    let src = r#"
        app A {
            class Counter {
                constructor(start: Int) { this.count = start; }
                get() => Int { return this.count; }
            }
        }
    "#;
    let p = parse(src);
    if let Declaration::Class(cls) = &p.declarations[0] {
        assert!(cls.constructor.is_some());
        assert_eq!(cls.methods.len(), 1);
        assert_eq!(cls.methods[0].name, "get");
    } else {
        panic!();
    }
}

#[test]
fn class_with_type_params() {
    let p = parse("app A { class Box<T> { } }");
    if let Declaration::Class(cls) = &p.declarations[0] {
        assert_eq!(cls.type_params, vec!["T"]);
    } else {
        panic!();
    }
}

#[test]
fn class_extends_implements() {
    let p = parse("app A { class Dog extends Animal implements Pet { } }");
    if let Declaration::Class(cls) = &p.declarations[0] {
        assert_eq!(cls.extends.as_deref(), Some("Animal"));
        assert!(cls.implements.contains(&"Pet".to_string()));
    } else {
        panic!();
    }
}

#[test]
fn window_declaration() {
    let p = parse("app A { window HomeWindow { } }");
    if let Declaration::Class(cls) = &p.declarations[0] {
        assert!(matches!(cls.kind, ClassKind::Window));
    } else {
        panic!();
    }
}

#[test]
fn component_declaration() {
    let p = parse("app A { component Button { } }");
    if let Declaration::Class(cls) = &p.declarations[0] {
        assert!(matches!(cls.kind, ClassKind::Component));
    } else {
        panic!();
    }
}

// ── interface ─────────────────────────────────────────────────────────────

#[test]
fn interface_with_method_sig() {
    let p = parse("app A { interface Printable { print() => Void; } }");
    if let Declaration::Interface(iface) = &p.declarations[0] {
        assert_eq!(iface.name, "Printable");
        assert_eq!(iface.methods.len(), 1);
        assert_eq!(iface.methods[0].name, "print");
        assert!(matches!(iface.methods[0].return_type, Type::Void));
    } else {
        panic!();
    }
}

// ── statements ────────────────────────────────────────────────────────────

#[test]
fn let_with_type_annotation() {
    let src = "app A { class C { run() => Void { let x: Int = 1; } } }";
    let p = parse(src);
    if let Declaration::Class(cls) = &p.declarations[0] {
        if let Stmt::Let { name, ty, .. } = &cls.methods[0].body[0] {
            assert_eq!(name, "x");
            assert!(matches!(ty, Some(Type::Int)));
        } else {
            panic!();
        }
    }
}

#[test]
fn if_else_statement() {
    let src = "app A { class C { run() => Void { if (true) { return; } else { return; } } } }";
    let p = parse(src);
    if let Declaration::Class(cls) = &p.declarations[0] {
        assert!(matches!(cls.methods[0].body[0], Stmt::If { else_body: Some(_), .. }));
    }
}

#[test]
fn while_statement() {
    let src = "app A { class C { run() => Void { while (true) { break; } } } }";
    let p = parse(src);
    if let Declaration::Class(cls) = &p.declarations[0] {
        assert!(matches!(cls.methods[0].body[0], Stmt::While { .. }));
    }
}

#[test]
fn for_in_statement() {
    let src = "app A { class C { run() => Void { for (x in items) { continue; } } } }";
    let p = parse(src);
    if let Declaration::Class(cls) = &p.declarations[0] {
        assert!(matches!(cls.methods[0].body[0], Stmt::For { .. }));
    }
}

// ── expressions ───────────────────────────────────────────────────────────

#[test]
fn binary_arithmetic_expression() {
    let src = "app A { class C { run() => Int { return 1 + 2 * 3; } } }";
    let p = parse(src);
    if let Declaration::Class(cls) = &p.declarations[0] {
        if let Stmt::Return { expr: Some(Expr::Binary { op: BinOp::Add, .. }), .. } = &cls.methods[0].body[0] {
            // correct — addition is the outermost (lower precedence than *)
        } else {
            panic!("expected binary add at top level");
        }
    }
}

#[test]
fn method_call_chain() {
    // receiver is a local ident, not `this`, so it goes through parse_expr
    let src = r#"app A { class C { run() => Void { let r = obj.foo().bar(); } } }"#;
    let p = parse(src);
    if let Declaration::Class(cls) = &p.declarations[0] {
        if let Stmt::Let { init: Expr::MethodCall { method, .. }, .. } = &cls.methods[0].body[0] {
            assert_eq!(method, "bar");
        } else {
            panic!("expected method call chain");
        }
    }
}

// ── lib parse ─────────────────────────────────────────────────────────────

#[test]
fn parse_lib_extracts_declarations() {
    let p = parse_lib("class Util { } class Helper { }");
    assert_eq!(p.declarations.len(), 2);
}

// ── async / await ─────────────────────────────────────────────────────────

#[test]
fn async_method_sets_flag() {
    let src = "app A { class C { async fetch() => Void { } } }";
    let p = parse(src);
    if let Declaration::Class(cls) = &p.declarations[0] {
        assert!(cls.methods[0].is_async, "fetch should be marked async");
    }
}

#[test]
fn sync_method_not_async() {
    let src = "app A { class C { run() => Void { } } }";
    let p = parse(src);
    if let Declaration::Class(cls) = &p.declarations[0] {
        assert!(!cls.methods[0].is_async);
    }
}

#[test]
fn await_expr_in_async_method() {
    let src = r#"app A { class C { async load() => Void { let r = await fetch("url"); } } }"#;
    let p = parse(src);
    if let Declaration::Class(cls) = &p.declarations[0] {
        if let Stmt::Let { init, .. } = &cls.methods[0].body[0] {
            assert!(
                matches!(init, Expr::Await(_)),
                "expected Expr::Await, got {:?}", init
            );
        }
    }
}

// ── list literals ─────────────────────────────────────────────────────────

#[test]
fn list_literal_empty() {
    let src = "app A { class C { run() => Void { let xs = []; } } }";
    let p = parse(src);
    if let Declaration::Class(cls) = &p.declarations[0] {
        if let Stmt::Let { init: Expr::ListLiteral(items), .. } = &cls.methods[0].body[0] {
            assert!(items.is_empty());
        } else {
            panic!("expected empty list literal");
        }
    }
}

#[test]
fn list_literal_with_items() {
    let src = "app A { class C { run() => Void { let xs = [1, 2, 3]; } } }";
    let p = parse(src);
    if let Declaration::Class(cls) = &p.declarations[0] {
        if let Stmt::Let { init: Expr::ListLiteral(items), .. } = &cls.methods[0].body[0] {
            assert_eq!(items.len(), 3);
            assert!(matches!(&items[0], Expr::IntLit(1)));
            assert!(matches!(&items[2], Expr::IntLit(3)));
        } else {
            panic!("expected list literal with 3 items");
        }
    }
}

// ── dynamic import ────────────────────────────────────────────────────────

#[test]
fn lazy_import_expr() {
    let src = r#"app A { class C { async load() => Void { let m = import("std.math.Math"); } } }"#;
    let p = parse(src);
    if let Declaration::Class(cls) = &p.declarations[0] {
        if let Stmt::Let { init: Expr::LazyImport(path), .. } = &cls.methods[0].body[0] {
            assert_eq!(path, "std.math.Math");
        } else {
            panic!("expected LazyImport expr");
        }
    }
}

// ── generic type args at call site ────────────────────────────────────────

#[test]
fn generic_call_type_args_erased() {
    // Box<Int>(42) should produce Expr::Call { callee: "Box", args: [IntLit(42)] }
    let src = "app A { class C { run() => Void { let b = Box<Int>(42); } } }";
    let p = parse(src);
    if let Declaration::Class(cls) = &p.declarations[0] {
        if let Stmt::Let { init: Expr::Call { callee, args }, .. } = &cls.methods[0].body[0] {
            assert_eq!(callee, "Box");
            assert_eq!(args.len(), 1);
        } else {
            panic!("expected Call after type arg erasure");
        }
    }
}

#[test]
fn comparison_lt_not_confused_with_type_args() {
    // a < b must NOT be treated as type args
    let src = "app A { class C { run() => Void { let r = a < b; } } }";
    let p = parse(src);
    if let Declaration::Class(cls) = &p.declarations[0] {
        if let Stmt::Let { init: Expr::Binary { op: BinOp::Lt, .. }, .. } = &cls.methods[0].body[0] {
            // correct
        } else {
            panic!("a < b should produce BinOp::Lt, not be consumed as type args");
        }
    }
}

// ── error cases ───────────────────────────────────────────────────────────

#[test]
fn unexpected_token_returns_error() {
    // `parse_err` fails unless parsing fails; the variant is not asserted
    // here (a source that does not start with `app` gets the error of the
    // `app` keyword it expected, see the next test).
    let _ = matches!(parse_err("42"), ParseError::Unexpected(..));
}

#[test]
fn a_number_where_app_belongs_is_reported_as_expected_app() {
    match parse_err("42") {
        ParseError::Expected(what, Token::IntLit(42), span) => {
            assert_eq!(what, "App");
            assert_eq!((span.line, span.col), (1, 1));
        }
        other => panic!("expected an Expected error, got {other:?}"),
    }
}

#[test]
fn missing_app_name_returns_error() {
    assert!(matches!(parse_err("app { }"), ParseError::Expected(..)));
}
