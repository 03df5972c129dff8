use nexa::ast::{BinOp, Expr, MatchArm, Param, Pattern, Stmt, TestDecl, Type, UnOp};
use nexa::lexer::Lexer;
use nexa::parser::Parser;
use nexa::testgen::{
    build_test_runner, emit_expr_js, parse_result_line, select_tests, TEST_RUNNER_BOOT, TEST_RUNTIME,
};

fn b(e: Expr) -> Box<Expr> {
    Box::new(e)
}

#[test]
fn expressions_to_javascript() {
    assert_eq!(emit_expr_js(&Expr::IntLit(-42)), "-42");
    assert_eq!(emit_expr_js(&Expr::IntLit(i64::MIN)), "-9223372036854775808");
    assert_eq!(emit_expr_js(&Expr::StringLit("a\"b\\c".into())), r#""a\"b\\c""#);
    assert_eq!(
        emit_expr_js(&Expr::Binary { op: BinOp::Add, left: b(Expr::IntLit(1)), right: b(Expr::Ident("x".into())) }),
        "(1 + x)"
    );
    assert_eq!(
        emit_expr_js(&Expr::MethodCall {
            receiver: b(Expr::This),
            method: "f".into(),
            args: vec![Expr::IntLit(1), Expr::BoolLit(true)],
        }),
        "this.f(1, true)"
    );
    assert_eq!(
        emit_expr_js(&Expr::Block { tag: "Col".into(), children: vec![Expr::StringLit("a".into())] }),
        r#"Col(["a"])"#
    );
    assert_eq!(
        emit_expr_js(&Expr::Lambda {
            params: vec![
                Param { name: "x".into(), ty: Type::Int },
                Param { name: "y".into(), ty: Type::Int },
            ],
            body: b(Expr::Ident("x".into())),
        }),
        "(x, y) => x"
    );
    assert_eq!(emit_expr_js(&Expr::Unary { op: UnOp::Not, expr: b(Expr::BoolLit(false)) }), "(!false)");
    assert_eq!(
        emit_expr_js(&Expr::Await(b(Expr::Call { callee: "f".into(), args: vec![] }))),
        "(await f())"
    );
    assert_eq!(emit_expr_js(&Expr::ListLiteral(vec![])), "[]");
    assert_eq!(emit_expr_js(&Expr::LazyImport("m".into())), r#"import("m")"#);
    assert_eq!(emit_expr_js(&Expr::FieldAccess(b(Expr::This), "n".into())), "this.n");
}

#[test]
fn runner_for_parsed_tests() {
    let src = r#"test "adds" { let x = 1 + 2; assert(x == 3); } test "other" { return; }"#;
    let tokens = Lexer::new(src).tokenize().unwrap();
    let p = Parser::new(tokens).parse_lib().unwrap();
    let all = select_tests(&p, None);
    assert_eq!(all.len(), 2);
    let some = select_tests(&p, Some("add"));
    assert_eq!(some.len(), 1);
    assert_eq!(some[0].name, "adds");
    assert_eq!(select_tests(&p, Some("zzz")).len(), 0);
    let js = build_test_runner(&some);
    let expected = format!(
        "{TEST_RUNTIME}const _tests = [];\n_tests.push({{ name: \"adds\", fn: async () => {{\n  let x = (1 + 2);\n  assert((x === 3));\n}}}}));\n{TEST_RUNNER_BOOT}"
    );
    assert_eq!(js, expected);
}

#[test]
fn statements_to_javascript() {
    let body = vec![
        Stmt::Assign { object: Expr::This, field: "n".into(), value: Expr::IntLit(1) },
        Stmt::Assign { object: Expr::Ident("n".into()), field: "n".into(), value: Expr::IntLit(2) },
        Stmt::Assign { object: Expr::Ident("o".into()), field: "n".into(), value: Expr::IntLit(3) },
        Stmt::While {
            cond: Expr::BoolLit(true),
            body: vec![Stmt::If { cond: Expr::Ident("c".into()), then_body: vec![Stmt::Break], else_body: Some(vec![Stmt::Continue]) }],
        },
        Stmt::Match {
            expr: Expr::Ident("v".into()),
            arms: vec![
                MatchArm { pattern: Pattern::LitInt(1), body: vec![Stmt::Return { expr: None, span: nexa::span::Span::dummy() }] },
                MatchArm { pattern: Pattern::Name("Red".into()), body: vec![] },
                MatchArm { pattern: Pattern::Wildcard, body: vec![] },
            ],
        },
        Stmt::For { var: "i".into(), iter: Expr::Ident("xs".into()), body: vec![] },
    ];
    let t = TestDecl { name: "q\"t".into(), body };
    let js = build_test_runner(&[&t]);
    let expected_body = "_tests.push({ name: \"q\\\"t\", fn: async () => {\n  this.n = 1;\n  n = 2;\n  o.n = 3;\n  while (true) {\n    if (c) {\n      break;\n    } else {\n      continue;\n    }\n  }\n  const _m = v;\n  if (_m === 1) {\n    return;\n  } else if (_m._tag === \"Red\") {\n  } else {\n  }\n  for (const i of xs) {\n  }\n}}));\n";
    assert_eq!(js, format!("{TEST_RUNTIME}const _tests = [];\n{expected_body}{TEST_RUNNER_BOOT}"));
}

#[test]
fn result_lines() {
    assert_eq!(parse_result_line("PASS:3 FAIL:1"), Some((3, 1)));
    assert_eq!(parse_result_line(""), Some((0, 0)));
    assert_eq!(parse_result_line("PASS:x FAIL:1"), None);
    assert_eq!(parse_result_line("  FAIL:2   PASS:5 junk "), Some((5, 2)));
    assert_eq!(parse_result_line("PASS:1 PASS:4"), Some((4, 0)));
    assert_eq!(parse_result_line("PASS:+7"), Some((7, 0)));
    assert_eq!(parse_result_line("PASS:"), None);
    assert_eq!(parse_result_line("xPASS:1"), Some((0, 0)));
}
