//! `nexa test`: test blocks compiled to a JavaScript runner script.
use vstd::prelude::*;
use crate::ast::{
    js_operator, Declaration, Expr, Program, SpecDeclaration, MatchArm, Param, Pattern, SpecExpr, SpecMatchArm, SpecParam, SpecPattern, SpecStmt,
    SpecTestDecl, Stmt, TestDecl, UnOp, arms_view, exprs_view, stmts_view, views,
};
use crate::optimizer::{lemma_stmts_view_at, lemma_stmts_view_len};
use crate::text::{chars_vec, push_str, string_from_chars, str_eq};
use crate::types::join;
use crate::updater::{decimal, digit_char, digits_value, is_digit, lemma_digits_value_prefix};
use crate::text::{is_whitespace, unicode_whitespace};

verus! {

// ── The JavaScript of expressions ───────────────────────────────────────────

/// The decimal text of an integer, with a `-` when negative.
pub open spec fn int_text(n: i64) -> Seq<char> {
    if n < 0 {
        seq!['-'] + decimal((-(n as int)) as nat)
    } else {
        decimal(n as nat)
    }
}

/// The text of a boolean.
pub open spec fn bool_text(b: bool) -> Seq<char> {
    if b {
        "true"@
    } else {
        "false"@
    }
}

/// A string's characters with `\` and `"` escaped by a backslash.
pub open spec fn js_escape(s: Seq<char>) -> Seq<char>
    decreases s.len(),
{
    if s.len() == 0 {
        Seq::empty()
    } else {
        let c = s.last();
        js_escape(s.drop_last()) + if c == '\\' {
            seq!['\\', '\\']
        } else if c == '"' {
            seq!['\\', '"']
        } else {
            seq![c]
        }
    }
}

/// The names of the parameters, in order.
pub open spec fn param_names(ps: Seq<SpecParam>) -> Seq<Seq<char>> {
    ps.map_values(|p: SpecParam| p.name)
}

/// The JavaScript of an expression.
pub open spec fn js_expr(e: SpecExpr) -> Seq<char>
    decreases e,
{
    match e {
        SpecExpr::IntLit(n) => int_text(n),
        SpecExpr::StringLit(s) => seq!['"'] + js_escape(s) + seq!['"'],
        SpecExpr::BoolLit(b) => bool_text(b),
        SpecExpr::Ident(n) => n,
        SpecExpr::This => "this"@,
        SpecExpr::FieldAccess(o, f) => js_expr(*o) + seq!['.'] + f,
        SpecExpr::MethodCall { receiver, method, args } => js_expr(*receiver) + seq!['.'] + method + seq!['(']
            + join(js_exprs(args), ", "@) + seq![')'],
        SpecExpr::Call { callee, args } => callee + seq!['('] + join(js_exprs(args), ", "@) + seq![')'],
        SpecExpr::Binary { op, left, right } => seq!['('] + js_expr(*left) + seq![' '] + js_operator(op) + seq![' ']
            + js_expr(*right) + seq![')'],
        SpecExpr::Unary { op, expr } => seq!['('] + (if op == UnOp::Not {
            "!"@
        } else {
            "-"@
        }) + js_expr(*expr) + seq![')'],
        SpecExpr::ListLiteral(items) => seq!['['] + join(js_exprs(items), ", "@) + seq![']'],
        SpecExpr::Await(inner) => "(await "@ + js_expr(*inner) + seq![')'],
        SpecExpr::Block { tag, children } => tag + "(["@ + join(js_exprs(children), ", "@) + "])"@,
        SpecExpr::Lambda { params, body } => seq!['('] + join(param_names(params), ", "@) + ") => "@ + js_expr(
            *body,
        ),
        SpecExpr::LazyImport(p) => "import(\""@ + p + "\")"@,
    }
}

/// The JavaScript of each expression.
pub open spec fn js_exprs(s: Seq<SpecExpr>) -> Seq<Seq<char>>
    decreases s,
{
    if s.len() == 0 {
        Seq::empty()
    } else {
        js_exprs(s.drop_last()).push(js_expr(s.last()))
    }
}

/// Appends the decimal digits of `n` to `out`.
pub(crate) fn push_decimal(out: &mut Vec<char>, n: u64)
    ensures
        final(out)@ == old(out)@ + decimal(n as nat),
    decreases n,
{
    if n >= 10 {
        push_decimal(out, n / 10);
    }
    let d = n % 10;
    let c = if d == 0 { '0' } else if d == 1 { '1' } else if d == 2 { '2' } else if d == 3 { '3' } else if d == 4 {
        '4'
    } else if d == 5 { '5' } else if d == 6 { '6' } else if d == 7 { '7' } else if d == 8 { '8' } else { '9' };
    assert(c == digit_char(d as nat));
    out.push(c);
    assert(out@ =~= old(out)@ + decimal(n as nat));
}

/// Appends the decimal text of `n` to `out`.
pub(crate) fn push_int(out: &mut Vec<char>, n: i64)
    ensures
        final(out)@ == old(out)@ + int_text(n),
{
    if n < 0 {
        out.push('-');
        let m: u64 = if n == i64::MIN {
            9_223_372_036_854_775_808u64
        } else {
            (-n) as u64
        };
        let ghost mid = out@;
        push_decimal(out, m);
        assert(out@ =~= old(out)@ + int_text(n));
    } else {
        push_decimal(out, n as u64);
    }
}

/// Appends `s` to `out` with `\` and `"` escaped.
fn push_escaped(out: &mut Vec<char>, s: &String)
    ensures
        final(out)@ == old(out)@ + js_escape(s@),
{
    let cs = chars_vec(s.as_str());
    let mut i: usize = 0;
    while i < cs.len()
        invariant
            i <= cs.len(),
            cs@ == s@,
            out@ == old(out)@ + js_escape(cs@.take(i as int)),
        decreases cs.len() - i,
    {
        let c = cs[i];
        assert(cs@.take(i + 1).drop_last() =~= cs@.take(i as int));
        if c == '\\' {
            out.push('\\');
            out.push('\\');
        } else if c == '"' {
            out.push('\\');
            out.push('"');
        } else {
            out.push(c);
        }
        assert(out@ =~= old(out)@ + js_escape(cs@.take(i + 1)));
        i = i + 1;
    }
    assert(cs@.take(cs.len() as int) =~= cs@);
}

/// Appends the characters of `s` to `out`.
fn push_string(out: &mut Vec<char>, s: &String)
    ensures
        final(out)@ == old(out)@ + s@,
{
    push_str(out, s.as_str());
}

/// A list with one more element joined: the separator goes between.
proof fn lemma_join_push(parts: Seq<Seq<char>>, x: Seq<char>, sep: Seq<char>)
    ensures
        join(parts.push(x), sep) == if parts.len() == 0 {
            x
        } else {
            join(parts, sep) + sep + x
        },
{
    assert(parts.push(x).drop_last() =~= parts);
    if parts.len() == 0 {
        assert(parts.push(x)[0] == x);
    }
}

/// Appends the JavaScript of the expressions, separated by `, `.
fn emit_exprs_js(v: &Vec<Expr>, out: &mut Vec<char>)
    ensures
        final(out)@ == old(out)@ + join(js_exprs(exprs_view(v@)), ", "@),
    decreases v, 0nat,
{
    let mut i: usize = 0;
    while i < v.len()
        invariant
            i <= v.len(),
            out@ == old(out)@ + join(js_exprs(exprs_view(v@.take(i as int))), ", "@),
        decreases v.len() - i,
    {
        proof {
            assert(decreases_to!(v => v@));
            assert(decreases_to!(v@ => v@[i as int]));
            assert(v@.take(i + 1).drop_last() =~= v@.take(i as int));
        }
        let ghost before = out@;
        let ghost prev = js_exprs(exprs_view(v@.take(i as int)));
        let ghost sv = exprs_view(v@.take(i + 1));
        assert(sv == exprs_view(v@.take(i as int)).push(v@[i as int]@));
        assert(sv.drop_last() =~= exprs_view(v@.take(i as int)));
        assert(js_exprs(sv) == prev.push(js_expr(v@[i as int]@)));
        proof {
            crate::optimizer::lemma_exprs_view_len(v@.take(i as int));
            lemma_js_exprs_len(exprs_view(v@.take(i as int)));
            lemma_join_push(prev, js_expr(v@[i as int]@), ", "@);
        }
        if i > 0 {
            push_str(out, ", ");
        }
        let ghost mid = out@;
        write_expr_js(&v[i], out);
        assert(out@ =~= old(out)@ + join(js_exprs(sv), ", "@));
        i = i + 1;
    }
    assert(v@.take(v.len() as int) =~= v@);
}

/// As many JavaScript texts as expressions.
proof fn lemma_js_exprs_len(s: Seq<SpecExpr>)
    ensures
        js_exprs(s).len() == s.len(),
    decreases s.len(),
{
    if s.len() > 0 {
        lemma_js_exprs_len(s.drop_last());
    }
}

/// Appends the parameter names, separated by `, `.
fn emit_param_names(ps: &Vec<Param>, out: &mut Vec<char>)
    ensures
        final(out)@ == old(out)@ + join(param_names(views(ps@)), ", "@),
{
    let mut i: usize = 0;
    while i < ps.len()
        invariant
            i <= ps.len(),
            out@ == old(out)@ + join(param_names(views(ps@.take(i as int))), ", "@),
        decreases ps.len() - i,
    {
        let ghost prev = param_names(views(ps@.take(i as int)));
        assert(param_names(views(ps@.take(i + 1))) =~= prev.push(ps@[i as int].name@));
        proof {
            lemma_join_push(prev, ps@[i as int].name@, ", "@);
        }
        if i > 0 {
            push_str(out, ", ");
        }
        push_string(out, &ps[i].name);
        assert(out@ =~= old(out)@ + join(param_names(views(ps@.take(i + 1))), ", "@));
        i = i + 1;
    }
    assert(ps@.take(ps.len() as int) =~= ps@);
}

/// Appends the JavaScript of an expression to `out`.
fn write_expr_js(expr: &Expr, out: &mut Vec<char>)
    ensures
        final(out)@ == old(out)@ + js_expr(expr@),
    decreases expr, 1nat,
{
    let ghost start = out@;
    match expr {
        Expr::IntLit(n) => push_int(out, *n),
        Expr::StringLit(s) => {
            out.push('"');
            push_escaped(out, s);
            out.push('"');
        },
        Expr::BoolLit(b) => {
            if *b {
                push_str(out, "true");
            } else {
                push_str(out, "false");
            }
        },
        Expr::Ident(n) => push_string(out, n),
        Expr::This => push_str(out, "this"),
        Expr::FieldAccess(obj, field) => {
            write_expr_js(obj, out);
            out.push('.');
            push_string(out, field);
        },
        Expr::MethodCall { receiver, method, args } => {
            write_expr_js(receiver, out);
            out.push('.');
            push_string(out, method);
            out.push('(');
            emit_exprs_js(args, out);
            out.push(')');
        },
        Expr::Call { callee, args } => {
            push_string(out, callee);
            out.push('(');
            emit_exprs_js(args, out);
            out.push(')');
        },
        Expr::Binary { op, left, right } => {
            out.push('(');
            write_expr_js(left, out);
            out.push(' ');
            push_str(out, op.as_js());
            out.push(' ');
            write_expr_js(right, out);
            out.push(')');
        },
        Expr::Unary { op, expr: inner } => {
            out.push('(');
            match op {
                UnOp::Not => push_str(out, "!"),
                UnOp::Neg => push_str(out, "-"),
            }
            write_expr_js(inner, out);
            out.push(')');
        },
        Expr::ListLiteral(items) => {
            out.push('[');
            emit_exprs_js(items, out);
            out.push(']');
        },
        Expr::Await(inner) => {
            push_str(out, "(await ");
            write_expr_js(inner, out);
            out.push(')');
        },
        Expr::Block { tag, children } => {
            push_string(out, tag);
            push_str(out, "([");
            emit_exprs_js(children, out);
            push_str(out, "])");
        },
        Expr::Lambda { params, body } => {
            out.push('(');
            emit_param_names(params, out);
            push_str(out, ") => ");
            write_expr_js(body, out);
        },
        Expr::LazyImport(path) => {
            push_str(out, "import(\"");
            push_string(out, path);
            push_str(out, "\")");
        },
    }
    assert(out@ =~= start + js_expr(expr@));
}

/// The JavaScript of an expression.
pub fn emit_expr_js(expr: &Expr) -> (s: String)
    ensures
        s@ == js_expr(expr@),
{
    let mut out: Vec<char> = Vec::new();
    write_expr_js(expr, &mut out);
    assert(out@ =~= js_expr(expr@));
    string_from_chars(out.as_slice())
}


// ── The JavaScript of statements ────────────────────────────────────────────

/// Two spaces per indentation level.
pub open spec fn pad(indent: nat) -> Seq<char> {
    Seq::new(2 * indent, |_i: int| ' ')
}

/// The target of an assignment: `this.f`, a bare name assigned its own
/// field name, or `<object>.f`.
pub open spec fn assign_target(object: SpecExpr, field: Seq<char>) -> Seq<char> {
    match object {
        SpecExpr::This => "this."@ + field,
        SpecExpr::Ident(n) => if n == field {
            n
        } else {
            js_expr(object) + seq!['.'] + field
        },
        _ => js_expr(object) + seq!['.'] + field,
    }
}

/// The test a `match` arm's pattern makes of the scrutinee `_m`; none for
/// a catch-all.
pub open spec fn arm_cond(p: SpecPattern) -> Option<Seq<char>> {
    match p {
        SpecPattern::Wildcard => None,
        SpecPattern::Name(n) => if n == "_"@ {
            None
        } else {
            Some("_m._tag === \""@ + n + "\""@)
        },
        SpecPattern::QualifiedVariant { variant, .. } => Some("_m._tag === \""@ + variant + "\""@),
        SpecPattern::LitBool(b) => Some("_m === "@ + bool_text(b)),
        SpecPattern::LitInt(n) => Some("_m === "@ + int_text(n)),
        SpecPattern::LitStr(s) => Some("_m === \""@ + s + "\""@),
    }
}

/// The line opening an arm: the first arm opens an `if` (or a plain block
/// for a catch-all), later ones continue with `else`.
pub open spec fn arm_head(cond: Option<Seq<char>>, first: bool, indent: nat) -> Seq<char> {
    match cond {
        Some(c) => if first {
            pad(indent) + "if ("@ + c + ") {\n"@
        } else {
            pad(indent) + "} else if ("@ + c + ") {\n"@
        },
        None => if first {
            pad(indent) + "{\n"@
        } else {
            pad(indent) + "} else {\n"@
        },
    }
}

/// The JavaScript of a statement at an indentation level.
pub open spec fn js_stmt(s: SpecStmt, indent: nat) -> Seq<char>
    decreases s,
{
    let p = pad(indent);
    match s {
        SpecStmt::Let { name, init, .. } => p + "let "@ + name + " = "@ + js_expr(init) + ";\n"@,
        SpecStmt::Assign { object, field, value } => p + assign_target(object, field) + " = "@ + js_expr(value)
            + ";\n"@,
        SpecStmt::Return { expr: Some(e), .. } => p + "return "@ + js_expr(e) + ";\n"@,
        SpecStmt::Return { expr: None, .. } => p + "return;\n"@,
        SpecStmt::Expr(e) => p + js_expr(e) + ";\n"@,
        SpecStmt::If { cond, then_body, else_body } => p + "if ("@ + js_expr(cond) + ") {\n"@ + js_stmts(
            then_body,
            indent + 1,
        ) + match else_body {
            Some(b) => p + "} else {\n"@ + js_stmts(b, indent + 1),
            None => Seq::empty(),
        } + p + "}\n"@,
        SpecStmt::While { cond, body } => p + "while ("@ + js_expr(cond) + ") {\n"@ + js_stmts(body, indent + 1) + p
            + "}\n"@,
        SpecStmt::For { var, iter, body } => p + "for (const "@ + var + " of "@ + js_expr(iter) + ") {\n"@
            + js_stmts(body, indent + 1) + p + "}\n"@,
        SpecStmt::Break => p + "break;\n"@,
        SpecStmt::Continue => p + "continue;\n"@,
        SpecStmt::Match { expr, arms } => p + "const _m = "@ + js_expr(expr) + ";\n"@ + js_arms(arms, indent) + (
        if arms.len() > 0 {
            p + "}\n"@
        } else {
            Seq::empty()
        }),
    }
}

/// The JavaScript of the statements, one after another.
pub open spec fn js_stmts(s: Seq<SpecStmt>, indent: nat) -> Seq<char>
    decreases s,
{
    if s.len() == 0 {
        Seq::empty()
    } else {
        js_stmts(s.drop_last(), indent) + js_stmt(s.last(), indent)
    }
}

/// The JavaScript of one arm: its opening line, then its body one level in.
pub open spec fn arm_js(a: SpecMatchArm, indent: nat, first: bool) -> Seq<char>
    decreases a,
{
    arm_head(arm_cond(a.pattern), first, indent) + js_stmts(a.body, indent + 1)
}

/// The JavaScript of the arms, the first opening the chain.
pub open spec fn js_arms(s: Seq<SpecMatchArm>, indent: nat) -> Seq<char>
    decreases s,
{
    if s.len() == 0 {
        Seq::empty()
    } else {
        js_arms(s.drop_last(), indent) + arm_js(s.last(), indent, s.len() == 1)
    }
}

/// How deeply bodies nest inside a statement.
pub open spec fn stmt_depth(s: SpecStmt) -> nat
    decreases s,
{
    match s {
        SpecStmt::If { then_body, else_body, .. } => 1 + match else_body {
            Some(b) => max_nat(stmts_depth(then_body), stmts_depth(b)),
            None => stmts_depth(then_body),
        },
        SpecStmt::While { body, .. } => 1 + stmts_depth(body),
        SpecStmt::For { body, .. } => 1 + stmts_depth(body),
        SpecStmt::Match { arms, .. } => 1 + arms_depth(arms),
        _ => 0,
    }
}

/// How deeply bodies nest inside any of the statements.
pub open spec fn stmts_depth(s: Seq<SpecStmt>) -> nat
    decreases s,
{
    if s.len() == 0 {
        0
    } else {
        max_nat(stmts_depth(s.drop_last()), stmt_depth(s.last()))
    }
}

/// How deeply bodies nest inside an arm's body.
pub open spec fn arm_depth(a: SpecMatchArm) -> nat
    decreases a,
{
    stmts_depth(a.body)
}

/// How deeply bodies nest inside any of the arms.
pub open spec fn arms_depth(s: Seq<SpecMatchArm>) -> nat
    decreases s,
{
    if s.len() == 0 {
        0
    } else {
        max_nat(arms_depth(s.drop_last()), arm_depth(s.last()))
    }
}

/// The larger of two naturals.
pub open spec fn max_nat(a: nat, b: nat) -> nat {
    if a >= b {
        a
    } else {
        b
    }
}

/// A statement of a list nests no deeper than the list.
proof fn lemma_stmts_depth_at(s: Seq<SpecStmt>, i: int)
    requires
        0 <= i < s.len(),
    ensures
        stmt_depth(s[i]) <= stmts_depth(s),
    decreases s.len(),
{
    if i < s.len() - 1 {
        lemma_stmts_depth_at(s.drop_last(), i);
    }
}

/// An arm of a list nests no deeper than the list.
proof fn lemma_arms_depth_at(s: Seq<SpecMatchArm>, i: int)
    requires
        0 <= i < s.len(),
    ensures
        arm_depth(s[i]) <= arms_depth(s),
    decreases s.len(),
{
    if i < s.len() - 1 {
        lemma_arms_depth_at(s.drop_last(), i);
    }
}

/// The view of the arm list, arm by arm.
proof fn lemma_arms_view_at(s: Seq<MatchArm>, i: int)
    requires
        0 <= i < s.len(),
    ensures
        arms_view(s).len() == s.len(),
        arms_view(s)[i] == s[i]@,
    decreases s.len(),
{
    lemma_arms_view_len(s);
    lemma_arms_view_len(s.drop_last());
    if i < s.len() - 1 {
        assert(s.drop_last()[i] == s[i]);
        lemma_arms_view_at(s.drop_last(), i);
    }
}

/// One view per arm.
proof fn lemma_arms_view_len(s: Seq<MatchArm>)
    ensures
        arms_view(s).len() == s.len(),
    decreases s.len(),
{
    if s.len() > 0 {
        lemma_arms_view_len(s.drop_last());
    }
}

/// Appends the indentation of `indent` levels.
fn push_pad(out: &mut Vec<char>, indent: usize)
    ensures
        final(out)@ == old(out)@ + pad(indent as nat),
{
    let mut k: usize = 0;
    while k < indent
        invariant
            k <= indent,
            out@ == old(out)@ + pad(k as nat),
        decreases indent - k,
    {
        out.push(' ');
        out.push(' ');
        assert(out@ =~= old(out)@ + pad((k + 1) as nat));
        k = k + 1;
    }
}

/// Appends the target of an assignment.
fn emit_assign_target(object: &Expr, field: &String, out: &mut Vec<char>)
    ensures
        final(out)@ == old(out)@ + assign_target(object@, field@),
{
    match object {
        Expr::This => {
            push_str(out, "this.");
            push_string(out, field);
        },
        Expr::Ident(n) => {
            if n.eq(field) {
                push_string(out, n);
            } else {
                write_expr_js(object, out);
                out.push('.');
                push_string(out, field);
            }
        },
        _ => {
            write_expr_js(object, out);
            out.push('.');
            push_string(out, field);
        },
    }
    assert(out@ =~= old(out)@ + assign_target(object@, field@));
}

/// Appends an `if` statement.
fn emit_if_js(stmt: &Stmt, out: &mut Vec<char>, indent: usize)
    requires
        stmt is If,
        indent + stmt_depth(stmt@) <= usize::MAX,
    ensures
        final(out)@ == old(out)@ + js_stmt(stmt@, indent as nat),
    decreases stmt, 0nat,
{
    if let Stmt::If { cond, then_body, else_body } = stmt {
        proof {
            assert(decreases_to!(stmt => then_body));
            assert(decreases_to!(stmt => else_body));
        }
        push_pad(out, indent);
        push_str(out, "if (");
        write_expr_js(cond, out);
        push_str(out, ") {\n");
        emit_stmts_js(then_body, out, indent + 1);
        let ghost mid = out@;
        if let Some(eb) = else_body {
            proof {
                assert(decreases_to!(else_body => eb));
            }
            push_pad(out, indent);
            push_str(out, "} else {\n");
            emit_stmts_js(eb, out, indent + 1);
        }
        let ghost tail = out@;
        push_pad(out, indent);
        push_str(out, "}\n");
        assert(out@ =~= old(out)@ + js_stmt(stmt@, indent as nat));
    }
}

/// Appends a `match` statement: the scrutinee, then the chain of arms.
fn emit_match_js(stmt: &Stmt, out: &mut Vec<char>, indent: usize)
    requires
        stmt is Match,
        indent + stmt_depth(stmt@) <= usize::MAX,
    ensures
        final(out)@ == old(out)@ + js_stmt(stmt@, indent as nat),
    decreases stmt, 0nat,
{
    if let Stmt::Match { expr, arms } = stmt {
        proof {
            assert(decreases_to!(stmt => arms));
        }
        push_pad(out, indent);
        push_str(out, "const _m = ");
        write_expr_js(expr, out);
        push_str(out, ";\n");
        emit_arms_js(arms, out, indent);
        proof {
            lemma_arms_view_len(arms@);
        }
        let ghost mid = out@;
        if arms.len() > 0 {
            push_pad(out, indent);
            push_str(out, "}\n");
        }
        assert(out@ =~= old(out)@ + js_stmt(stmt@, indent as nat));
    }
}

/// Appends the JavaScript of a statement at `indent` levels.
fn emit_stmt_js(stmt: &Stmt, out: &mut Vec<char>, indent: usize)
    requires
        indent + stmt_depth(stmt@) <= usize::MAX,
    ensures
        final(out)@ == old(out)@ + js_stmt(stmt@, indent as nat),
    decreases stmt, 1nat,
{
    let ghost start = out@;
    match stmt {
        Stmt::Let { name, init, .. } => {
            push_pad(out, indent);
            push_str(out, "let ");
            push_string(out, name);
            push_str(out, " = ");
            write_expr_js(init, out);
            push_str(out, ";\n");
            assert(out@ =~= start + js_stmt(stmt@, indent as nat));
        },
        Stmt::Assign { object, field, value } => {
            push_pad(out, indent);
            emit_assign_target(object, field, out);
            push_str(out, " = ");
            write_expr_js(value, out);
            push_str(out, ";\n");
            assert(out@ =~= start + js_stmt(stmt@, indent as nat));
        },
        Stmt::Return { expr: Some(e), .. } => {
            push_pad(out, indent);
            push_str(out, "return ");
            write_expr_js(e, out);
            push_str(out, ";\n");
            assert(out@ =~= start + js_stmt(stmt@, indent as nat));
        },
        Stmt::Return { expr: None, .. } => {
            push_pad(out, indent);
            push_str(out, "return;\n");
            assert(out@ =~= start + js_stmt(stmt@, indent as nat));
        },
        Stmt::Expr(e) => {
            push_pad(out, indent);
            write_expr_js(e, out);
            push_str(out, ";\n");
            assert(out@ =~= start + js_stmt(stmt@, indent as nat));
        },
        Stmt::If { .. } => emit_if_js(stmt, out, indent),
        Stmt::While { cond, body } => {
            push_pad(out, indent);
            push_str(out, "while (");
            write_expr_js(cond, out);
            push_str(out, ") {\n");
            emit_stmts_js(body, out, indent + 1);
            push_pad(out, indent);
            push_str(out, "}\n");
            assert(out@ =~= start + js_stmt(stmt@, indent as nat));
        },
        Stmt::For { var, iter, body } => {
            push_pad(out, indent);
            push_str(out, "for (const ");
            push_string(out, var);
            push_str(out, " of ");
            write_expr_js(iter, out);
            push_str(out, ") {\n");
            emit_stmts_js(body, out, indent + 1);
            push_pad(out, indent);
            push_str(out, "}\n");
            assert(out@ =~= start + js_stmt(stmt@, indent as nat));
        },
        Stmt::Break => {
            push_pad(out, indent);
            push_str(out, "break;\n");
            assert(out@ =~= start + js_stmt(stmt@, indent as nat));
        },
        Stmt::Continue => {
            push_pad(out, indent);
            push_str(out, "continue;\n");
            assert(out@ =~= start + js_stmt(stmt@, indent as nat));
        },
        Stmt::Match { .. } => emit_match_js(stmt, out, indent),
    }
}

/// Appends the JavaScript of the statements at `indent` levels.
fn emit_stmts_js(v: &Vec<Stmt>, out: &mut Vec<char>, indent: usize)
    requires
        indent + stmts_depth(stmts_view(v@)) <= usize::MAX,
    ensures
        final(out)@ == old(out)@ + js_stmts(stmts_view(v@), indent as nat),
    decreases v, 0nat,
{
    let mut i: usize = 0;
    while i < v.len()
        invariant
            i <= v.len(),
            indent + stmts_depth(stmts_view(v@)) <= usize::MAX,
            out@ == old(out)@ + js_stmts(stmts_view(v@.take(i as int)), indent as nat),
        decreases v.len() - i,
    {
        proof {
            assert(decreases_to!(v => v@));
            assert(decreases_to!(v@ => v@[i as int]));
            assert(v@.take(i + 1).drop_last() =~= v@.take(i as int));
            lemma_stmts_view_at(v@, i as int);
            lemma_stmts_view_len(v@);
            lemma_stmts_depth_at(stmts_view(v@), i as int);
        }
        let ghost sv = stmts_view(v@.take(i + 1));
        assert(sv == stmts_view(v@.take(i as int)).push(v@[i as int]@));
        assert(sv.drop_last() =~= stmts_view(v@.take(i as int)));
        emit_stmt_js(&v[i], out, indent);
        assert(out@ =~= old(out)@ + js_stmts(sv, indent as nat));
        i = i + 1;
    }
    assert(v@.take(v.len() as int) =~= v@);
}

/// Appends the JavaScript of the arms at `indent` levels.
fn emit_arms_js(v: &Vec<MatchArm>, out: &mut Vec<char>, indent: usize)
    requires
        indent + 1 + arms_depth(arms_view(v@)) <= usize::MAX,
    ensures
        final(out)@ == old(out)@ + js_arms(arms_view(v@), indent as nat),
    decreases v, 0nat,
{
    let mut i: usize = 0;
    while i < v.len()
        invariant
            i <= v.len(),
            indent + 1 + arms_depth(arms_view(v@)) <= usize::MAX,
            out@ == old(out)@ + js_arms(arms_view(v@.take(i as int)), indent as nat),
        decreases v.len() - i,
    {
        proof {
            assert(decreases_to!(v => v@));
            assert(decreases_to!(v@ => v@[i as int]));
            assert(decreases_to!(v@[i as int] => v@[i as int].body));
            assert(v@.take(i + 1).drop_last() =~= v@.take(i as int));
            lemma_arms_view_at(v@, i as int);
            lemma_arms_depth_at(arms_view(v@), i as int);
            lemma_arms_view_len(v@.take(i as int));
        }
        let ghost av = arms_view(v@.take(i + 1));
        assert(av == arms_view(v@.take(i as int)).push(v@[i as int]@));
        assert(av.drop_last() =~= arms_view(v@.take(i as int)));
        let arm = &v[i];
        let ghost before = out@;
        assert(v@[i as int]@ == SpecMatchArm { pattern: arm.pattern@, body: stmts_view(arm.body@) });
        assert(arm_depth(v@[i as int]@) == stmts_depth(stmts_view(arm.body@)));
        emit_arm_head(&arm.pattern, i == 0, out, indent);
        let ghost mid = out@;
        emit_stmts_js(&arm.body, out, indent + 1);
        assert(av.len() == i + 1);
        assert(arm_js(v@[i as int]@, indent as nat, i == 0) == arm_head(arm_cond(arm.pattern@), i == 0, indent as nat)
            + js_stmts(stmts_view(arm.body@), indent as nat + 1));
        assert(js_arms(av, indent as nat) == js_arms(arms_view(v@.take(i as int)), indent as nat) + arm_js(
            v@[i as int]@,
            indent as nat,
            i == 0,
        ));
        assert(out@ =~= old(out)@ + js_arms(av, indent as nat));
        i = i + 1;
    }
    assert(v@.take(v.len() as int) =~= v@);
}

/// Appends the opening line of an arm.
fn emit_arm_head(pattern: &Pattern, first: bool, out: &mut Vec<char>, indent: usize)
    ensures
        final(out)@ == old(out)@ + arm_head(arm_cond(pattern@), first, indent as nat),
{
    let mut cond: Vec<char> = Vec::new();
    let has_cond = match pattern {
        Pattern::Wildcard => false,
        Pattern::Name(n) => {
            if str_eq(n.as_str(), "_") {
                false
            } else {
                push_str(&mut cond, "_m._tag === \"");
                push_string(&mut cond, n);
                push_str(&mut cond, "\"");
                true
            }
        },
        Pattern::QualifiedVariant { variant, .. } => {
            push_str(&mut cond, "_m._tag === \"");
            push_string(&mut cond, variant);
            push_str(&mut cond, "\"");
            true
        },
        Pattern::LitBool(b) => {
            push_str(&mut cond, "_m === ");
            if *b {
                push_str(&mut cond, "true");
            } else {
                push_str(&mut cond, "false");
            }
            true
        },
        Pattern::LitInt(n) => {
            push_str(&mut cond, "_m === ");
            push_int(&mut cond, *n);
            true
        },
        Pattern::LitStr(s) => {
            push_str(&mut cond, "_m === \"");
            push_string(&mut cond, s);
            push_str(&mut cond, "\"");
            true
        },
    };
    assert(has_cond == arm_cond(pattern@) is Some);
    assert(has_cond ==> arm_cond(pattern@) == Some(cond@));
    push_pad(out, indent);
    if has_cond {
        if first {
            push_str(out, "if (");
        } else {
            push_str(out, "} else if (");
        }
        let mut k: usize = 0;
        let ghost mid = out@;
        while k < cond.len()
            invariant
                k <= cond.len(),
                out@ == mid + cond@.take(k as int),
            decreases cond.len() - k,
        {
            out.push(cond[k]);
            assert(out@ =~= mid + cond@.take(k + 1));
            k = k + 1;
        }
        assert(cond@.take(cond.len() as int) =~= cond@);
        push_str(out, ") {\n");
    } else {
        if first {
            push_str(out, "{\n");
        } else {
            push_str(out, "} else {\n");
        }
    }
    assert(out@ =~= old(out)@ + arm_head(arm_cond(pattern@), first, indent as nat));
}


// ── The runner script ───────────────────────────────────────────────────────

/// The helpers every runner script starts with.
pub const TEST_RUNTIME: &'static str = r#"
// Nexa test runtime
function assert(cond, msg) {
  if (!cond) throw new Error(msg || "Assertion failed");
}
function assertEqual(a, b, msg) {
  if (a !== b) throw new Error(msg || `Expected ${JSON.stringify(a)} to equal ${JSON.stringify(b)}`);
}
function assertNotEqual(a, b, msg) {
  if (a === b) throw new Error(msg || `Expected values to differ, both were ${JSON.stringify(a)}`);
}

"#;

/// The loop every runner script ends with: it runs the tests in order,
/// reports each, and prints `PASS:<n> FAIL:<m>` last.
pub const TEST_RUNNER_BOOT: &'static str = r#"
// Test runner
let _pass = 0, _fail = 0;
(async () => {
  for (const t of _tests) {
    try {
      await t.fn();
      _pass++;
      process.stdout.write("  \u2713 " + t.name + "\n");
    } catch (e) {
      _fail++;
      process.stdout.write("  \u2717 " + t.name + ": " + e.message + "\n");
    }
  }
  process.stdout.write("PASS:" + _pass + " FAIL:" + _fail + "\n");
  process.exit(_fail > 0 ? 1 : 0);
})();
"#;

/// The registration of one test: an async function holding its body.
pub open spec fn test_js(t: SpecTestDecl) -> Seq<char> {
    "_tests.push({ name: \""@ + js_escape(t.name) + "\", fn: async () => {\n"@ + js_stmts(t.body, 1) + "}}));\n"@
}

/// The registrations of the tests, in order.
pub open spec fn tests_js(ts: Seq<SpecTestDecl>) -> Seq<char>
    decreases ts.len(),
{
    if ts.len() == 0 {
        Seq::empty()
    } else {
        tests_js(ts.drop_last()) + test_js(ts.last())
    }
}

/// The runner script of the tests.
pub open spec fn runner_js(ts: Seq<SpecTestDecl>) -> Seq<char> {
    TEST_RUNTIME@ + "const _tests = [];\n"@ + tests_js(ts) + TEST_RUNNER_BOOT@
}

/// The views of a list of test references.
pub open spec fn test_views(ts: Seq<&TestDecl>) -> Seq<SpecTestDecl> {
    ts.map_values(|t: &TestDecl| t@)
}

/// The Node.js script that runs the tests and prints their results.
pub fn build_test_runner(tests: &[&TestDecl]) -> (js: String)
    requires
        forall|i: int| 0 <= i < tests@.len() ==> 1 + stmts_depth(#[trigger] tests@[i]@.body) <= usize::MAX,
    ensures
        js@ == runner_js(test_views(tests@)),
{
    let mut out: Vec<char> = Vec::new();
    push_str(&mut out, TEST_RUNTIME);
    push_str(&mut out, "const _tests = [];\n");
    let ghost head = out@;
    let mut i: usize = 0;
    while i < tests.len()
        invariant
            i <= tests@.len(),
            forall|j: int| 0 <= j < tests@.len() ==> 1 + stmts_depth(#[trigger] tests@[j]@.body) <= usize::MAX,
            out@ == head + tests_js(test_views(tests@.take(i as int))),
        decreases tests.len() - i,
    {
        let t = tests[i];
        assert(test_views(tests@.take(i + 1)) =~= test_views(tests@.take(i as int)).push(t@));
        assert(test_views(tests@.take(i + 1)).drop_last() =~= test_views(tests@.take(i as int)));
        assert(1 + stmts_depth(tests@[i as int]@.body) <= usize::MAX);
        let ghost before = out@;
        push_str(&mut out, "_tests.push({ name: \"");
        push_escaped(&mut out, &t.name);
        push_str(&mut out, "\", fn: async () => {\n");
        emit_stmts_js(&t.body, &mut out, 1);
        push_str(&mut out, "}}));\n");
        assert(out@ =~= before + test_js(t@));
        i = i + 1;
    }
    assert(tests@.take(tests@.len() as int) =~= tests@);
    push_str(&mut out, TEST_RUNNER_BOOT);
    assert(out@ =~= runner_js(test_views(tests@)));
    string_from_chars(out.as_slice())
}

/// `f` occurs in `s` as a contiguous piece.
pub open spec fn has_piece(s: Seq<char>, f: Seq<char>) -> bool {
    exists|i: int| 0 <= i && i + f.len() <= s.len() && #[trigger] s.subrange(i, i + f.len()) == f
}

/// The test declarations of the program, in order, whose names hold the
/// filter (all of them without a filter).
pub open spec fn selected(ds: Seq<SpecDeclaration>, filter: Option<Seq<char>>) -> Seq<SpecTestDecl>
    decreases ds.len(),
{
    if ds.len() == 0 {
        Seq::empty()
    } else {
        let rest = selected(ds.drop_last(), filter);
        match ds.last() {
            SpecDeclaration::Test(t) => if (match filter {
                Some(f) => has_piece(t.name, f),
                None => true,
            }) {
                rest.push(t)
            } else {
                rest
            },
            _ => rest,
        }
    }
}

/// Whether `f` occurs in `s`.
fn contains_piece(s: &String, f: &str) -> (b: bool)
    ensures
        b == has_piece(s@, f@),
{
    let cs = chars_vec(s.as_str());
    let fs = chars_vec(f);
    if fs.len() > cs.len() {
        return false;
    }
    let last = cs.len() - fs.len();
    let mut i: usize = 0;
    while i <= last
        invariant
            last == cs.len() - fs.len(),
            cs@ == s@,
            fs@ == f@,
            fs.len() <= cs.len(),
            i <= cs.len() - fs.len() + 1,
            forall|k: int| 0 <= k < i ==> #[trigger] cs@.subrange(k, k + fs@.len()) != fs@,
        decreases cs.len() - i,
    {
        let mut j: usize = 0;
        while j < fs.len() && cs[i + j] == fs[j]
            invariant
                j <= fs.len(),
                i + fs.len() <= cs.len(),
                forall|k: int| 0 <= k < j ==> cs@[i + k] == fs@[k],
            decreases fs.len() - j,
        {
            j = j + 1;
        }
        if j == fs.len() {
            assert(cs@.subrange(i as int, i + fs@.len()) =~= fs@);
            return true;
        }
        assert(cs@.subrange(i as int, i + fs@.len())[j as int] != fs@[j as int]);
        i = i + 1;
    }
    assert forall|k: int| 0 <= k && k + f@.len() <= s@.len() implies #[trigger] s@.subrange(k, k + f@.len()) != f@ by {
        assert(k < i);
    }
    false
}

/// The test blocks of a program to run: those whose names hold `filter`,
/// or all of them.
pub fn select_tests<'a>(program: &'a Program, filter: Option<&str>) -> (ts: Vec<&'a TestDecl>)
    ensures
        test_views(ts@) == selected(
            program@.declarations,
            match filter {
                Some(f) => Some(f@),
                None => None,
            },
        ),
{
    let ghost fv = match filter {
        Some(f) => Some(f@),
        None => None::<Seq<char>>,
    };
    let mut out: Vec<&'a TestDecl> = Vec::new();
    let mut i: usize = 0;
    while i < program.declarations.len()
        invariant
            i <= program.declarations.len(),
            fv == match filter {
                Some(f) => Some(f@),
                None => None::<Seq<char>>,
            },
            test_views(out@) == selected(views(program.declarations@.take(i as int)), fv),
        decreases program.declarations.len() - i,
    {
        assert(views(program.declarations@.take(i + 1)).drop_last() =~= views(program.declarations@.take(i as int)));
        assert(views(program.declarations@.take(i + 1)).last() == program.declarations@[i as int]@);
        if let Declaration::Test(t) = &program.declarations[i] {
            let keep = match filter {
                Some(f) => contains_piece(&t.name, f),
                None => true,
            };
            if keep {
                let ghost prev = out@;
                out.push(t);
                assert(test_views(out@) =~= test_views(prev).push(t@));
            }
        }
        i = i + 1;
    }
    assert(program.declarations@.take(program.declarations.len() as int) =~= program.declarations@);
    out
}


// ── Reading the runner's result line ────────────────────────────────────────

/// The number of leading characters of `s` that are not whitespace.
pub open spec fn word_len(s: Seq<char>) -> nat
    decreases s.len(),
{
    if s.len() == 0 || unicode_whitespace(s[0]) {
        0
    } else {
        1 + word_len(s.skip(1))
    }
}

/// A word is no longer than what it is taken from.
pub proof fn lemma_word_len_bound(s: Seq<char>)
    ensures
        word_len(s) <= s.len(),
    decreases s.len(),
{
    if s.len() > 0 && !unicode_whitespace(s[0]) {
        lemma_word_len_bound(s.skip(1));
    }
}

/// The whitespace-separated words of `s`, in order.
pub open spec fn words(s: Seq<char>) -> Seq<Seq<char>>
    decreases s.len(),
{
    if s.len() == 0 {
        Seq::empty()
    } else if unicode_whitespace(s[0]) {
        words(s.skip(1))
    } else {
        proof {
            lemma_word_len_bound(s.skip(1));
        }
        seq![s.take(word_len(s) as int)] + words(s.skip(word_len(s) as int))
    }
}

/// What `str::parse::<usize>` accepts: an optional `+`, then one or more
/// decimal digits whose value fits in a `usize`.
pub open spec fn parse_count(s: Seq<char>) -> Option<usize> {
    if s.len() > 0 && s[0] == '+' {
        digits_count(s.skip(1))
    } else {
        digits_count(s)
    }
}

/// The value of a nonempty string of decimal digits that fits in a `usize`.
pub open spec fn digits_count(d: Seq<char>) -> Option<usize> {
    if d.len() > 0 && (forall|i: int| 0 <= i < d.len() ==> is_digit(#[trigger] d[i])) && digits_value(d)
        <= usize::MAX {
        Some(digits_value(d) as usize)
    } else {
        None
    }
}

/// One word of the result line read into the counts so far: `PASS:<n>`
/// sets the passed count, `FAIL:<n>` the failed one, a bad number spoils
/// the line, and other words change nothing.
pub open spec fn count_word(acc: Option<(usize, usize)>, w: Seq<char>) -> Option<(usize, usize)> {
    match acc {
        None => None,
        Some((p, f)) => if w.len() >= 5 && w.take(5) == "PASS:"@ {
            match parse_count(w.skip(5)) {
                Some(n) => Some((n, f)),
                None => None,
            }
        } else if w.len() >= 5 && w.take(5) == "FAIL:"@ {
            match parse_count(w.skip(5)) {
                Some(n) => Some((p, n)),
                None => None,
            }
        } else {
            Some((p, f))
        },
    }
}

/// The words read one after another from `acc`.
pub open spec fn count_words(acc: Option<(usize, usize)>, ws: Seq<Seq<char>>) -> Option<(usize, usize)>
    decreases ws.len(),
{
    if ws.len() == 0 {
        acc
    } else {
        count_words(count_word(acc, ws[0]), ws.skip(1))
    }
}

/// `str::parse::<usize>` of the characters `v[lo..hi]`.
fn parse_count_range(v: &Vec<char>, lo: usize, hi: usize) -> (r: Option<usize>)
    requires
        lo <= hi <= v@.len(),
    ensures
        r == parse_count(v@.subrange(lo as int, hi as int)),
{
    let ghost s = v@.subrange(lo as int, hi as int);
    let start = if lo < hi && v[lo] == '+' {
        lo + 1
    } else {
        lo
    };
    let ghost d = v@.subrange(start as int, hi as int);
    assert(start == lo + 1 ==> s.skip(1) =~= d);
    assert(start == lo ==> s =~= d);
    assert(parse_count(s) == digits_count(d));
    if start == hi {
        return None;
    }
    let mut i = start;
    while i < hi
        invariant
            start <= i <= hi <= v@.len(),
            d == v@.subrange(start as int, hi as int),
            parse_count(v@.subrange(lo as int, hi as int)) == digits_count(d),
            forall|j: int| 0 <= j < i - start ==> is_digit(#[trigger] d[j]),
        decreases hi - i,
    {
        assert(d[i - start] == v@[i as int]);
        if !(v[i] >= '0' && v[i] <= '9') {
            assert(!is_digit(d[i - start]));
            return None;
        }
        i = i + 1;
    }
    let mut acc: usize = 0;
    let mut k = start;
    while k < hi
        invariant
            start <= k <= hi <= v@.len(),
            d == v@.subrange(start as int, hi as int),
            parse_count(v@.subrange(lo as int, hi as int)) == digits_count(d),
            forall|j: int| 0 <= j < d.len() ==> is_digit(#[trigger] d[j]),
            acc as int == digits_value(d.take(k - start)),
        decreases hi - k,
    {
        assert(d[k - start] == v@[k as int]);
        assert(is_digit(d[k - start]));
        assert('0' <= v@[k as int] <= '9');
        let digit = (v[k] as u32 - '0' as u32) as usize;
        assert(d.take(k - start + 1).drop_last() =~= d.take(k - start));
        proof {
            lemma_digits_value_prefix(d, k - start + 1);
        }
        if acc > (usize::MAX - digit) / 10 {
            assert(digits_value(d.take(k - start + 1)) > usize::MAX) by (nonlinear_arith)
                requires
                    digits_value(d.take(k - start + 1)) == acc * 10 + digit,
                    acc > (usize::MAX - digit) / 10,
                    digit <= 9,
            ;
            assert(digits_value(d) > usize::MAX);
            return None;
        }
        assert(acc * 10 + digit <= usize::MAX) by (nonlinear_arith)
            requires
                acc <= (usize::MAX - digit) / 10,
                digit <= 9,
        ;
        acc = acc * 10 + digit;
        k = k + 1;
    }
    assert(d.take(hi - start) =~= d);
    Some(acc)
}

/// Whether the characters `v[lo..hi]` begin with `p`.
fn starts_with_at(v: &Vec<char>, lo: usize, hi: usize, p: &str) -> (b: bool)
    requires
        lo <= hi <= v@.len(),
    ensures
        b == (hi - lo >= p@.len() && v@.subrange(lo as int, hi as int).take(p@.len() as int) == p@),
{
    let ps = chars_vec(p);
    if hi - lo < ps.len() {
        return false;
    }
    let mut j: usize = 0;
    while j < ps.len()
        invariant
            j <= ps.len(),
            ps@ == p@,
            lo + ps.len() <= hi <= v@.len(),
            forall|k: int| 0 <= k < j ==> v@[lo + k] == ps@[k],
        decreases ps.len() - j,
    {
        if v[lo + j] != ps[j] {
            assert(v@.subrange(lo as int, hi as int).take(p@.len() as int)[j as int] != p@[j as int]);
            return false;
        }
        j = j + 1;
    }
    assert(v@.subrange(lo as int, hi as int).take(p@.len() as int) =~= p@);
    true
}

/// The counts of a runner's last line, `PASS:<n> FAIL:<m>` in any order
/// among other words; `None` when a count is not a number.
pub fn parse_result_line(line: &str) -> (r: Option<(usize, usize)>)
    ensures
        r == count_words(Some((0usize, 0usize)), words(line@)),
{
    proof {
        reveal_strlit("PASS:");
        reveal_strlit("FAIL:");
    }
    let cs = chars_vec(line);
    let n = cs.len();
    let mut pass: usize = 0;
    let mut fail: usize = 0;
    let mut start: usize = 0;
    assert(cs@.skip(0) =~= cs@);
    while start < n
        invariant
            start <= n,
            n == cs@.len(),
            cs@ == line@,
            count_words(Some((pass, fail)), words(cs@.skip(start as int))) == count_words(
                Some((0usize, 0usize)),
                words(line@),
            ),
        decreases n - start,
    {
        proof {
            reveal_strlit("PASS:");
            reveal_strlit("FAIL:");
        }
        let ghost rest = cs@.skip(start as int);
        if is_whitespace(cs[start]) {
            assert(rest.skip(1) =~= cs@.skip(start + 1));
            start = start + 1;
        } else {
            let mut j = start;
            while j < n && !is_whitespace(cs[j])
                invariant
                    start <= j <= n,
                    n == cs@.len(),
                    word_len(rest) == (j - start) + word_len(cs@.skip(j as int)),
                decreases n - j,
            {
                assert(cs@.skip(j as int).skip(1) =~= cs@.skip(j + 1));
                j = j + 1;
            }
            assert(word_len(cs@.skip(j as int)) == 0);
            let ghost w = cs@.subrange(start as int, j as int);
            assert(rest.take(word_len(rest) as int) =~= w);
            assert(rest.skip(word_len(rest) as int) =~= cs@.skip(j as int));
            let ghost ws = words(rest);
            assert(ws == seq![w] + words(cs@.skip(j as int)));
            assert(ws[0] == w);
            assert(ws.skip(1) =~= words(cs@.skip(j as int)));
            if starts_with_at(&cs, start, j, "PASS:") {
                assert(w.take(5) == "PASS:"@);
                match parse_count_range(&cs, start + 5, j) {
                    Some(v) => {
                        assert(w.skip(5) =~= cs@.subrange(start + 5, j as int));
                        pass = v;
                    },
                    None => {
                        assert(w.skip(5) =~= cs@.subrange(start + 5, j as int));
                        proof {
                            lemma_count_none(words(cs@.skip(j as int)));
                        }
                        return None;
                    },
                }
            } else if starts_with_at(&cs, start, j, "FAIL:") {
                assert(w.take(5) == "FAIL:"@);
                match parse_count_range(&cs, start + 5, j) {
                    Some(v) => {
                        assert(w.skip(5) =~= cs@.subrange(start + 5, j as int));
                        fail = v;
                    },
                    None => {
                        assert(w.skip(5) =~= cs@.subrange(start + 5, j as int));
                        proof {
                            lemma_count_none(words(cs@.skip(j as int)));
                        }
                        return None;
                    },
                }
            }
            start = j;
        }
    }
    assert(cs@.skip(n as int) =~= Seq::<char>::empty());
    Some((pass, fail))
}

/// Once spoiled, the line stays spoiled.
proof fn lemma_count_none(ws: Seq<Seq<char>>)
    ensures
        count_words(None, ws) is None,
    decreases ws.len(),
{
    if ws.len() > 0 {
        lemma_count_none(ws.skip(1));
    }
}

} // verus!
