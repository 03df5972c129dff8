use nexa::ast::{BinOp, Expr, UnOp};
use nexa::optimizer::{flatten_expr, fold_expr};

#[test]
fn precompute_int_add() {
    let expr = Expr::Binary {
        op: BinOp::Add,
        left: Box::new(Expr::IntLit(2)),
        right: Box::new(Expr::IntLit(3)),
    };
    assert!(matches!(fold_expr(expr), Expr::IntLit(5)));
}

#[test]
fn precompute_string_concat() {
    let expr = Expr::Binary {
        op: BinOp::Add,
        left: Box::new(Expr::StringLit("hello ".into())),
        right: Box::new(Expr::StringLit("world".into())),
    };
    assert!(matches!(fold_expr(expr), Expr::StringLit(s) if s == "hello world"));
}

#[test]
fn precompute_neg() {
    let expr = Expr::Unary {
        op: UnOp::Neg,
        expr: Box::new(Expr::IntLit(5)),
    };
    assert!(matches!(fold_expr(expr), Expr::IntLit(-5)));
}

#[test]
fn precompute_not() {
    let expr = Expr::Unary {
        op: UnOp::Not,
        expr: Box::new(Expr::BoolLit(true)),
    };
    assert!(matches!(fold_expr(expr), Expr::BoolLit(false)));
}

#[test]
fn flatten_nested_same_tag() {
    let inner = Expr::Block {
        tag: "Page".into(),
        children: vec![Expr::IntLit(1)],
    };
    let outer = Expr::Block {
        tag: "Page".into(),
        children: vec![inner],
    };
    let result = flatten_expr(outer);
    match result {
        Expr::Block { tag, children } => {
            assert_eq!(tag, "Page");
            assert_eq!(children.len(), 1);
            assert!(matches!(children[0], Expr::IntLit(1)));
        }
        _ => panic!("expected Block"),
    }
}

#[test]
fn flatten_different_tags_unchanged() {
    let inner = Expr::Block {
        tag: "Column".into(),
        children: vec![Expr::IntLit(1)],
    };
    let outer = Expr::Block {
        tag: "Page".into(),
        children: vec![inner],
    };
    let result = flatten_expr(outer);
    match result {
        Expr::Block { tag, children } => {
            assert_eq!(tag, "Page");
            assert_eq!(children.len(), 1);
            assert!(matches!(&children[0], Expr::Block { tag, .. } if tag == "Column"));
        }
        _ => panic!("expected Block"),
    }
}

#[test]
fn no_div_by_zero_fold() {
    let expr = Expr::Binary {
        op: BinOp::Div,
        left: Box::new(Expr::IntLit(10)),
        right: Box::new(Expr::IntLit(0)),
    };
    // Should NOT fold — return Binary unchanged
    assert!(matches!(fold_expr(expr), Expr::Binary { .. }));
}

fn lit(n: i64) -> Box<Expr> {
    Box::new(Expr::IntLit(n))
}

#[test]
fn folding_twice_changes_nothing() {
    let make = || Expr::Binary {
        op: BinOp::Add,
        left: Box::new(Expr::Binary { op: BinOp::Mul, left: lit(2), right: lit(3) }),
        right: Box::new(Expr::Binary { op: BinOp::Div, left: Box::new(Expr::Ident("x".into())), right: lit(0) }),
    };
    let once = fold_expr(make());
    let twice = fold_expr(fold_expr(make()));
    assert_eq!(format!("{:?}", once), format!("{:?}", twice));
    assert!(matches!(&once, Expr::Binary { left, .. } if matches!(**left, Expr::IntLit(6))));
}

#[test]
fn truncating_division_and_remainder() {
    let div = Expr::Binary { op: BinOp::Div, left: lit(-7), right: lit(2) };
    assert!(matches!(fold_expr(div), Expr::IntLit(-3)));
    let rem = Expr::Binary { op: BinOp::Mod, left: lit(-7), right: lit(2) };
    assert!(matches!(fold_expr(rem), Expr::IntLit(-1)));
    let and = Expr::Binary { op: BinOp::And, left: Box::new(Expr::BoolLit(true)), right: Box::new(Expr::BoolLit(false)) };
    assert!(matches!(fold_expr(and), Expr::BoolLit(false)));
    let mixed = Expr::Binary { op: BinOp::Add, left: lit(1), right: Box::new(Expr::StringLit("a".into())) };
    assert!(matches!(fold_expr(mixed), Expr::Binary { .. }));
    let neg = Expr::Unary { op: UnOp::Neg, expr: Box::new(Expr::Unary { op: UnOp::Neg, expr: lit(4) }) };
    assert!(matches!(fold_expr(neg), Expr::IntLit(4)));
}

#[test]
fn flatten_lifts_nested_chains() {
    let e = Expr::Block {
        tag: "Page".into(),
        children: vec![Expr::Block {
            tag: "Page".into(),
            children: vec![Expr::Block { tag: "Page".into(), children: vec![Expr::IntLit(1), Expr::IntLit(2)] }],
        }],
    };
    match flatten_expr(e) {
        Expr::Block { tag, children } => {
            assert_eq!(tag, "Page");
            assert_eq!(children.len(), 2);
        }
        _ => panic!("expected Block"),
    }
}
