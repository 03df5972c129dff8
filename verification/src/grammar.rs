//! The Nexa grammar, stated over token sequences.
//!
//! Each function reads tokens from a parser state and yields a result together
//! with the state after it: the position reached and the errors collected by
//! statement-level recovery. Positions only move forward; a step that would
//! not move forward where the grammar requires progress ends the construct.
use vstd::prelude::*;
use crate::ast::{
    BinOp, ClassKind, SpecClassDecl, SpecConstructor, SpecDeclaration, SpecEnumDecl, SpecEnumVariant, SpecExpr, SpecField, SpecInterfaceDecl, SpecMatchArm, SpecMethod, SpecMethodSig, SpecParam, SpecPattern, SpecProgram, SpecRoute, SpecStmt, SpecTestDecl, SpecType, UnOp, Visibility, ServerConfig,
};
use crate::span::Span;
use crate::ast::binding;
use crate::lexer::{LexState, scan_token};
use crate::text::{unicode_alphabetic, unicode_uppercase};
use crate::token::{SpecSpanned, SpecToken};

verus! {

/// The mathematical value of a parse error.
pub enum SpecParseError {
    Unexpected(SpecToken, Span),
    Expected(Seq<char>, SpecToken, Span),
    Eof,
}

/// Position within the token sequence and the errors collected so far.
pub struct PState {
    pub pos: int,
    pub errs: Seq<SpecParseError>,
}

/// A result with the state after it.
pub type Parsed<T> = (Result<T, SpecParseError>, PState);

/// Token sequences a parser accepts: non-empty and ending in `Eof`.
pub open spec fn wf_tokens(toks: Seq<SpecSpanned>) -> bool {
    toks.len() > 0 && toks.last().token == SpecToken::Eof
}

/// A state within well-formed tokens.
pub open spec fn valid(toks: Seq<SpecSpanned>, st: PState) -> bool {
    wf_tokens(toks) && 0 <= st.pos < toks.len()
}

/// The token at `pos`, or `Eof` past the end.
pub open spec fn tok_at(toks: Seq<SpecSpanned>, pos: int) -> SpecToken {
    if 0 <= pos < toks.len() {
        toks[pos].token
    } else {
        SpecToken::Eof
    }
}

/// The current token.
pub open spec fn peek(toks: Seq<SpecSpanned>, st: PState) -> SpecToken {
    tok_at(toks, st.pos)
}

/// The current spanned token, the last one once the position is past it.
pub open spec fn current(toks: Seq<SpecSpanned>, st: PState) -> SpecSpanned {
    if st.pos < toks.len() - 1 {
        toks[st.pos]
    } else {
        toks[toks.len() - 1]
    }
}

/// Move to the next token, staying on the last one.
pub open spec fn adv(toks: Seq<SpecSpanned>, st: PState) -> PState {
    if st.pos + 1 < toks.len() {
        PState { pos: st.pos + 1, errs: st.errs }
    } else {
        st
    }
}

/// An error at the current token: "unexpected".
pub open spec fn unexpected(toks: Seq<SpecSpanned>, st: PState) -> SpecParseError {
    SpecParseError::Unexpected(current(toks, st).token, current(toks, st).span)
}

/// An error at the current token: "expected `what`".
pub open spec fn expected(toks: Seq<SpecSpanned>, st: PState, what: Seq<char>) -> SpecParseError {
    SpecParseError::Expected(what, current(toks, st).token, current(toks, st).span)
}

/// The `Debug` spelling of a token without payload (its variant name).
pub open spec fn token_name(t: SpecToken) -> Seq<char> {
    match t {
        SpecToken::App => "App"@,
        SpecToken::Server => "Server"@,
        SpecToken::Route => "Route"@,
        SpecToken::Package => "Package"@,
        SpecToken::Import => "Import"@,
        SpecToken::Class => "Class"@,
        SpecToken::Interface => "Interface"@,
        SpecToken::Component => "Component"@,
        SpecToken::Window => "Window"@,
        SpecToken::Public => "Public"@,
        SpecToken::Private => "Private"@,
        SpecToken::Extends => "Extends"@,
        SpecToken::Implements => "Implements"@,
        SpecToken::Constructor => "Constructor"@,
        SpecToken::Return => "Return"@,
        SpecToken::This => "This"@,
        SpecToken::Async => "Async"@,
        SpecToken::Await => "Await"@,
        SpecToken::Enum => "Enum"@,
        SpecToken::Match => "Match"@,
        SpecToken::Test => "Test"@,
        SpecToken::If => "If"@,
        SpecToken::Else => "Else"@,
        SpecToken::For => "For"@,
        SpecToken::While => "While"@,
        SpecToken::Break => "Break"@,
        SpecToken::Continue => "Continue"@,
        SpecToken::Let => "Let"@,
        SpecToken::In => "In"@,
        SpecToken::TInt => "TInt"@,
        SpecToken::TString => "TString"@,
        SpecToken::TBool => "TBool"@,
        SpecToken::TVoid => "TVoid"@,
        SpecToken::TList => "TList"@,
        SpecToken::LBrace => "LBrace"@,
        SpecToken::RBrace => "RBrace"@,
        SpecToken::LParen => "LParen"@,
        SpecToken::RParen => "RParen"@,
        SpecToken::LBracket => "LBracket"@,
        SpecToken::RBracket => "RBracket"@,
        SpecToken::LAngle => "LAngle"@,
        SpecToken::RAngle => "RAngle"@,
        SpecToken::FatArrow => "FatArrow"@,
        SpecToken::Semicolon => "Semicolon"@,
        SpecToken::Colon => "Colon"@,
        SpecToken::Comma => "Comma"@,
        SpecToken::Dot => "Dot"@,
        SpecToken::Equals => "Equals"@,
        SpecToken::EqualEqual => "EqualEqual"@,
        SpecToken::BangEqual => "BangEqual"@,
        SpecToken::LessEqual => "LessEqual"@,
        SpecToken::GreaterEqual => "GreaterEqual"@,
        SpecToken::Plus => "Plus"@,
        SpecToken::Minus => "Minus"@,
        SpecToken::Star => "Star"@,
        SpecToken::Slash => "Slash"@,
        SpecToken::Percent => "Percent"@,
        SpecToken::And => "And"@,
        SpecToken::Or => "Or"@,
        SpecToken::Bang => "Bang"@,
        SpecToken::Eof => "Eof"@,
        _ => Seq::empty(),
    }
}

/// A token without payload.
pub open spec fn is_plain(t: SpecToken) -> bool {
    !(t is StringLit || t is IntLit || t is BoolLit || t is Ident)
}

/// Consume the token `t`, or fail with "expected t".
pub open spec fn g_expect(toks: Seq<SpecSpanned>, st: PState, t: SpecToken) -> Parsed<()> {
    if current(toks, st).token == t {
        (Ok(()), adv(toks, st))
    } else {
        (Err(expected(toks, st, token_name(t))), st)
    }
}

/// Tokens that may stand as an identifier: identifiers and the contextual
/// keywords `test`, `match`, `enum`, `async`, `server`.
pub open spec fn ident_like(t: SpecToken) -> bool {
    t is Ident || t is Test || t is Match || t is Enum || t is Async || t is Server
}

/// The text of an identifier-like token.
pub open spec fn ident_text(t: SpecToken) -> Seq<char> {
    match t {
        SpecToken::Ident(n) => n,
        SpecToken::Test => "test"@,
        SpecToken::Match => "match"@,
        SpecToken::Enum => "enum"@,
        SpecToken::Async => "async"@,
        SpecToken::Server => "server"@,
        _ => Seq::empty(),
    }
}

/// An identifier (or contextual keyword).
pub open spec fn g_ident(toks: Seq<SpecSpanned>, st: PState) -> Parsed<Seq<char>> {
    let t = current(toks, st).token;
    if ident_like(t) {
        (Ok(ident_text(t)), adv(toks, st))
    } else {
        (Err(expected(toks, st, "identifier"@)), st)
    }
}

/// The `.name` parts of a dotted path after its first name; `acc` is the path so far.
pub open spec fn g_dotted_rest(toks: Seq<SpecSpanned>, st: PState, acc: Seq<char>) -> Parsed<Seq<char>>
    decreases toks.len() - st.pos,
    when valid(toks, st)
{
    if peek(toks, st) == SpecToken::Dot && ident_like(tok_at(toks, st.pos + 1)) {
        match g_ident(toks, adv(toks, st)) {
            (Ok(n), s2) => if s2.pos > st.pos && s2.pos < toks.len() {
                g_dotted_rest(toks, s2, acc + seq!['.'] + n)
            } else {
                (Ok(acc), s2)
            },
            (Err(e), s2) => (Err(e), s2),
        }
    } else {
        (Ok(acc), st)
    }
}

/// A dotted path such as `com.myapp.models.User`.
pub open spec fn g_dotted(toks: Seq<SpecSpanned>, st: PState) -> Parsed<Seq<char>> {
    match g_ident(toks, st) {
        (Ok(n), s1) => g_dotted_rest(toks, s1, n),
        (Err(e), s1) => (Err(e), s1),
    }
}

/// Optional visibility; absent means public.
pub open spec fn g_visibility(toks: Seq<SpecSpanned>, st: PState) -> (Visibility, PState) {
    match peek(toks, st) {
        SpecToken::Public => (Visibility::Public, adv(toks, st)),
        SpecToken::Private => (Visibility::Private, adv(toks, st)),
        _ => (Visibility::Public, st),
    }
}

/// `b` lies strictly after `a` and within the tokens.
pub open spec fn ahead(toks: Seq<SpecSpanned>, a: PState, b: PState) -> bool {
    a.pos < b.pos < toks.len()
}

/// `b` lies at or after `a` and within the tokens.
pub open spec fn within(toks: Seq<SpecSpanned>, a: PState, b: PState) -> bool {
    a.pos <= b.pos < toks.len()
}

/// `<T, U>` after a class or interface name; absent gives no parameters.
pub open spec fn g_type_params(toks: Seq<SpecSpanned>, st: PState) -> Parsed<Seq<Seq<char>>> {
    if peek(toks, st) != SpecToken::LAngle {
        (Ok(Seq::empty()), st)
    } else {
        match g_ident(toks, adv(toks, st)) {
            (Ok(n), s1) => g_type_params_rest(toks, s1, seq![n]),
            (Err(e), s1) => (Err(e), s1),
        }
    }
}

/// The `, U` parts and the closing `>` of type parameters.
pub open spec fn g_type_params_rest(toks: Seq<SpecSpanned>, st: PState, acc: Seq<Seq<char>>) -> Parsed<
    Seq<Seq<char>>,
>
    decreases toks.len() - st.pos,
    when valid(toks, st)
{
    if peek(toks, st) == SpecToken::Comma {
        match g_ident(toks, adv(toks, st)) {
            (Ok(n), s2) => if ahead(toks, st, s2) {
                g_type_params_rest(toks, s2, acc.push(n))
            } else {
                (Ok(acc), s2)
            },
            (Err(e), s2) => (Err(e), s2),
        }
    } else {
        match g_expect(toks, st, SpecToken::RAngle) {
            (Ok(_), s1) => (Ok(acc), s1),
            (Err(e), s1) => (Err(e), s1),
        }
    }
}

/// A type: a function type `(T, U) => R`, a built-in type, `List<T>`, or a
/// named type (whose `<...>` argument is read and dropped).
pub open spec fn g_type(toks: Seq<SpecSpanned>, st: PState) -> Parsed<SpecType>
    decreases toks.len() - st.pos, 1int,
    when valid(toks, st)
{
    let t = peek(toks, st);
    if t == SpecToken::LParen {
        let s1 = adv(toks, st);
        if ahead(toks, st, s1) {
            match g_type_list(toks, s1, Seq::empty()) {
                (Ok(ps), s2) => match g_expect(toks, s2, SpecToken::RParen) {
                    (Ok(_), s3) => match g_expect(toks, s3, SpecToken::FatArrow) {
                        (Ok(_), s4) => if ahead(toks, st, s4) {
                            match g_type(toks, s4) {
                                (Ok(r), s5) => (Ok(SpecType::Function(ps, Box::new(r))), s5),
                                (Err(e), s5) => (Err(e), s5),
                            }
                        } else {
                            (Err(SpecParseError::Eof), s4)
                        },
                        (Err(e), s4) => (Err(e), s4),
                    },
                    (Err(e), s3) => (Err(e), s3),
                },
                (Err(e), s2) => (Err(e), s2),
            }
        } else {
            (Err(SpecParseError::Eof), s1)
        }
    } else if t == SpecToken::TInt {
        (Ok(SpecType::Int), adv(toks, st))
    } else if t == SpecToken::TString {
        (Ok(SpecType::String), adv(toks, st))
    } else if t == SpecToken::TBool {
        (Ok(SpecType::Bool), adv(toks, st))
    } else if t == SpecToken::TVoid {
        (Ok(SpecType::Void), adv(toks, st))
    } else if t == SpecToken::TList {
        match g_expect(toks, adv(toks, st), SpecToken::LAngle) {
            (Ok(_), s2) => if ahead(toks, st, s2) {
                match g_type(toks, s2) {
                    (Ok(inner), s3) => match g_expect(toks, s3, SpecToken::RAngle) {
                        (Ok(_), s4) => (Ok(SpecType::List(Box::new(inner))), s4),
                        (Err(e), s4) => (Err(e), s4),
                    },
                    (Err(e), s3) => (Err(e), s3),
                }
            } else {
                (Err(SpecParseError::Eof), s2)
            },
            (Err(e), s2) => (Err(e), s2),
        }
    } else if t is Ident {
        let s1 = adv(toks, st);
        if peek(toks, s1) == SpecToken::LAngle {
            let s2 = adv(toks, s1);
            if ahead(toks, st, s2) {
                match g_type(toks, s2) {
                    (Ok(_), s3) => match g_expect(toks, s3, SpecToken::RAngle) {
                        (Ok(_), s4) => (Ok(SpecType::Custom(t->Ident_0)), s4),
                        (Err(e), s4) => (Err(e), s4),
                    },
                    (Err(e), s3) => (Err(e), s3),
                }
            } else {
                (Err(SpecParseError::Eof), s2)
            }
        } else {
            (Ok(SpecType::Custom(t->Ident_0)), s1)
        }
    } else {
        (Err(expected(toks, st, "type"@)), st)
    }
}

/// The parameter types of a function type, up to (not including) `)`.
pub open spec fn g_type_list(toks: Seq<SpecSpanned>, st: PState, acc: Seq<SpecType>) -> Parsed<Seq<SpecType>>
    decreases toks.len() - st.pos, 2int,
    when valid(toks, st)
{
    let t = peek(toks, st);
    if t == SpecToken::RParen || t == SpecToken::Eof {
        (Ok(acc), st)
    } else {
        match g_type(toks, st) {
            (Ok(ty), s1) => {
                let s2 = if peek(toks, s1) == SpecToken::Comma { adv(toks, s1) } else { s1 };
                if ahead(toks, st, s2) {
                    g_type_list(toks, s2, acc.push(ty))
                } else {
                    (Ok(acc.push(ty)), s2)
                }
            },
            (Err(e), s1) => (Err(e), s1),
        }
    }
}

/// The binary operator a token stands for, if any.
pub open spec fn binop_of(t: SpecToken) -> Option<BinOp> {
    match t {
        SpecToken::Or => Some(BinOp::Or),
        SpecToken::And => Some(BinOp::And),
        SpecToken::EqualEqual => Some(BinOp::Eq),
        SpecToken::BangEqual => Some(BinOp::Ne),
        SpecToken::LAngle => Some(BinOp::Lt),
        SpecToken::RAngle => Some(BinOp::Gt),
        SpecToken::LessEqual => Some(BinOp::Le),
        SpecToken::GreaterEqual => Some(BinOp::Ge),
        SpecToken::Plus => Some(BinOp::Add),
        SpecToken::Minus => Some(BinOp::Sub),
        SpecToken::Star => Some(BinOp::Mul),
        SpecToken::Slash => Some(BinOp::Div),
        SpecToken::Percent => Some(BinOp::Mod),
        _ => None,
    }
}

/// An expression: a binary expression with no binding floor.
pub open spec fn g_expr(toks: Seq<SpecSpanned>, st: PState) -> Parsed<SpecExpr>
    decreases toks.len() - st.pos, 6int,
    when valid(toks, st)
{
    g_binary(toks, st, 0)
}

/// Precedence climbing: a unary operand followed by operators binding at
/// least `min_bp` on the left.
pub open spec fn g_binary(toks: Seq<SpecSpanned>, st: PState, min_bp: u8) -> Parsed<SpecExpr>
    decreases toks.len() - st.pos, 5int,
    when valid(toks, st)
{
    match g_unary(toks, st) {
        (Ok(left), s1) => if within(toks, st, s1) {
            g_binary_ops(toks, s1, left, min_bp)
        } else {
            (Ok(left), s1)
        },
        (Err(e), s1) => (Err(e), s1),
    }
}

/// The operators (and right operands) that follow `left`.
pub open spec fn g_binary_ops(toks: Seq<SpecSpanned>, st: PState, left: SpecExpr, min_bp: u8) -> Parsed<
    SpecExpr,
>
    decreases toks.len() - st.pos, 4int,
    when valid(toks, st)
{
    match binop_of(peek(toks, st)) {
        Some(op) => if binding(op).0 < min_bp {
            (Ok(left), st)
        } else {
            let s1 = adv(toks, st);
            if ahead(toks, st, s1) {
                match g_binary(toks, s1, binding(op).1) {
                    (Ok(right), s2) => {
                        let e = SpecExpr::Binary { op, left: Box::new(left), right: Box::new(right) };
                        if ahead(toks, st, s2) {
                            g_binary_ops(toks, s2, e, min_bp)
                        } else {
                            (Ok(e), s2)
                        }
                    },
                    (Err(e), s2) => (Err(e), s2),
                }
            } else {
                (Err(SpecParseError::Eof), s1)
            }
        },
        None => (Ok(left), st),
    }
}

/// The precedence level of an operator, loosest first: `||`, `&&`,
/// equality, ordering, additive, multiplicative.
pub open spec fn prec_level(op: BinOp) -> int {
    match op {
        BinOp::Or => 0,
        BinOp::And => 1,
        BinOp::Eq | BinOp::Ne => 2,
        BinOp::Lt | BinOp::Gt | BinOp::Le | BinOp::Ge => 3,
        BinOp::Add | BinOp::Sub => 4,
        BinOp::Mul | BinOp::Div | BinOp::Mod => 5,
    }
}

/// Precedence and associativity. After an operator `p`, its right operand
/// ends before the next operator `q` when `q` binds no tighter than `p`:
/// so `a - b - c` is `(a - b) - c` and `a * b + c` is `(a * b) + c`. When
/// `q` binds tighter, the right operand does not end before `q`, as in
/// `a + b * c`.
pub proof fn lemma_operator_precedence(
    toks: Seq<SpecSpanned>,
    s1: PState,
    s2: PState,
    b: SpecExpr,
    p: BinOp,
    q: BinOp,
)
    requires
        valid(toks, s1),
        g_unary(toks, s1) == (Ok::<SpecExpr, SpecParseError>(b), s2),
        within(toks, s1, s2),
        binop_of(peek(toks, s2)) == Some(q),
    ensures
        prec_level(q) <= prec_level(p) ==> g_binary(toks, s1, binding(p).1) == (Ok::<SpecExpr, SpecParseError>(b), s2),
        prec_level(q) > prec_level(p) ==> binding(q).0 >= binding(p).1,
{
    assert(valid(toks, s2));
}

/// How a binary operator is written in source.
pub open spec fn op_text(op: BinOp) -> Seq<char> {
    match op {
        BinOp::Add => "+"@,
        BinOp::Sub => "-"@,
        BinOp::Mul => "*"@,
        BinOp::Div => "/"@,
        BinOp::Mod => "%"@,
        BinOp::Eq => "=="@,
        BinOp::Ne => "!="@,
        BinOp::Lt => "<"@,
        BinOp::Gt => ">"@,
        BinOp::Le => "<="@,
        BinOp::Ge => ">="@,
        BinOp::And => "&&"@,
        BinOp::Or => "||"@,
    }
}

/// Each operator, written in source and followed by a space, is read as
/// one token that the parser takes for that operator. (That the operator
/// characters are not alphabetic is what `char::is_alphabetic` answers; it
/// is named here, not stated.)
pub proof fn lemma_operator_tokens(op: BinOp, chars: Seq<char>, st: LexState)
    requires
        0 <= st.pos,
        st.pos + op_text(op).len() < chars.len(),
        chars.subrange(st.pos, st.pos + op_text(op).len()) == op_text(op),
        chars[st.pos + op_text(op).len()] == ' ',
        !unicode_alphabetic(op_text(op)[0]),
    ensures
        scan_token(chars, st) matches Ok((t, s2)) && binop_of(t) == Some(op) && s2.pos == st.pos + op_text(op).len(),
{
    reveal_strlit("+");
    reveal_strlit("-");
    reveal_strlit("*");
    reveal_strlit("/");
    reveal_strlit("%");
    reveal_strlit("==");
    reveal_strlit("!=");
    reveal_strlit("<");
    reveal_strlit(">");
    reveal_strlit("<=");
    reveal_strlit(">=");
    reveal_strlit("&&");
    reveal_strlit("||");
    assert("+"@.len() == 1 && "+"@[0] == '+');
    assert("-"@.len() == 1 && "-"@[0] == '-');
    assert("*"@.len() == 1 && "*"@[0] == '*');
    assert("/"@.len() == 1 && "/"@[0] == '/');
    assert("%"@.len() == 1 && "%"@[0] == '%');
    assert("=="@.len() == 2 && "=="@[0] == '=' && "=="@[1] == '=');
    assert("!="@.len() == 2 && "!="@[0] == '!' && "!="@[1] == '=');
    assert("<"@.len() == 1 && "<"@[0] == '<');
    assert(">"@.len() == 1 && ">"@[0] == '>');
    assert("<="@.len() == 2 && "<="@[0] == '<' && "<="@[1] == '=');
    assert(">="@.len() == 2 && ">="@[0] == '>' && ">="@[1] == '=');
    assert("&&"@.len() == 2 && "&&"@[0] == '&' && "&&"@[1] == '&');
    assert("||"@.len() == 2 && "||"@[0] == '|' && "||"@[1] == '|');
    let k = op_text(op).len();
    assert(chars[st.pos] == op_text(op)[0]) by {
        assert(chars.subrange(st.pos, st.pos + k)[0] == chars[st.pos]);
    }
    if k > 1 {
        assert(chars[st.pos + 1] == op_text(op)[1]) by {
            assert(chars.subrange(st.pos, st.pos + k)[1] == chars[st.pos + 1]);
        }
    }
}

/// Prefix operators `!`, `-` and `await`, then a postfix expression.
pub open spec fn g_unary(toks: Seq<SpecSpanned>, st: PState) -> Parsed<SpecExpr>
    decreases toks.len() - st.pos, 4int,
    when valid(toks, st)
{
    let t = peek(toks, st);
    if t == SpecToken::Bang || t == SpecToken::Minus || t == SpecToken::Await {
        let s1 = adv(toks, st);
        if ahead(toks, st, s1) {
            match g_unary(toks, s1) {
                (Ok(e), s2) => (
                    Ok(
                        if t == SpecToken::Bang {
                            SpecExpr::Unary { op: UnOp::Not, expr: Box::new(e) }
                        } else if t == SpecToken::Minus {
                            SpecExpr::Unary { op: UnOp::Neg, expr: Box::new(e) }
                        } else {
                            SpecExpr::Await(Box::new(e))
                        },
                    ),
                    s2,
                ),
                (Err(e), s2) => (Err(e), s2),
            }
        } else {
            (Err(SpecParseError::Eof), s1)
        }
    } else {
        g_postfix(toks, st)
    }
}

/// A primary expression followed by `.field` and `.method(args)` suffixes.
pub open spec fn g_postfix(toks: Seq<SpecSpanned>, st: PState) -> Parsed<SpecExpr>
    decreases toks.len() - st.pos, 3int,
    when valid(toks, st)
{
    match g_primary(toks, st) {
        (Ok(e), s1) => if within(toks, st, s1) {
            g_suffixes(toks, s1, e)
        } else {
            (Ok(e), s1)
        },
        (Err(e), s1) => (Err(e), s1),
    }
}

/// The `.field` and `.method(args)` suffixes applied to `e`.
pub open spec fn g_suffixes(toks: Seq<SpecSpanned>, st: PState, e: SpecExpr) -> Parsed<SpecExpr>
    decreases toks.len() - st.pos, 2int,
    when valid(toks, st)
{
    if peek(toks, st) == SpecToken::Dot {
        match g_ident(toks, adv(toks, st)) {
            (Ok(f), s2) => if !ahead(toks, st, s2) {
                (Err(SpecParseError::Eof), s2)
            } else if peek(toks, s2) == SpecToken::LParen {
                match g_call_args(toks, s2) {
                    (Ok(args), s3) => {
                        let e2 = SpecExpr::MethodCall { receiver: Box::new(e), method: f, args };
                        if ahead(toks, st, s3) {
                            g_suffixes(toks, s3, e2)
                        } else {
                            (Ok(e2), s3)
                        }
                    },
                    (Err(x), s3) => (Err(x), s3),
                }
            } else {
                g_suffixes(toks, s2, SpecExpr::FieldAccess(Box::new(e), f))
            },
            (Err(x), s2) => (Err(x), s2),
        }
    } else {
        (Ok(e), st)
    }
}

/// Tokens after `<` that make `Name<...>` type arguments rather than a
/// comparison: a built-in type, or a name starting with an uppercase letter.
pub open spec fn starts_type_arg(t: SpecToken) -> bool {
    match t {
        SpecToken::TInt | SpecToken::TString | SpecToken::TBool | SpecToken::TVoid | SpecToken::TList => true,
        SpecToken::Ident(s) => s.len() > 0 && unicode_uppercase(s[0]),
        _ => false,
    }
}

/// Skip tokens until the `>` that closes `depth` open angle brackets, or `Eof`.
pub open spec fn skip_angles(toks: Seq<SpecSpanned>, st: PState, depth: nat) -> PState
    decreases toks.len() - st.pos,
    when valid(toks, st)
{
    let t = peek(toks, st);
    if depth == 0 || t == SpecToken::Eof {
        st
    } else {
        let s1 = adv(toks, st);
        let d: nat = if t == SpecToken::LAngle {
            depth + 1
        } else if t == SpecToken::RAngle {
            (depth - 1) as nat
        } else {
            depth
        };
        if ahead(toks, st, s1) {
            skip_angles(toks, s1, d)
        } else {
            s1
        }
    }
}

/// `<T1, T2>` type arguments at a call site, read and dropped.
pub open spec fn g_call_type_args(toks: Seq<SpecSpanned>, st: PState) -> Parsed<()> {
    match g_expect(toks, st, SpecToken::LAngle) {
        (Ok(_), s1) => (Ok(()), skip_angles(toks, s1, 1)),
        (Err(e), s1) => (Err(e), s1),
    }
}

/// `(a, b, ...)`: arguments of a call.
pub open spec fn g_call_args(toks: Seq<SpecSpanned>, st: PState) -> Parsed<Seq<SpecExpr>>
    decreases toks.len() - st.pos, 1int,
    when valid(toks, st)
{
    match g_expect(toks, st, SpecToken::LParen) {
        (Ok(_), s1) => if ahead(toks, st, s1) {
            match g_expr_items(toks, s1, Seq::empty(), SpecToken::RParen, SpecToken::Comma) {
                (Ok(args), s2) => match g_expect(toks, s2, SpecToken::RParen) {
                    (Ok(_), s3) => (Ok(args), s3),
                    (Err(e), s3) => (Err(e), s3),
                },
                (Err(e), s2) => (Err(e), s2),
            }
        } else {
            (Err(SpecParseError::Eof), s1)
        },
        (Err(e), s1) => (Err(e), s1),
    }
}

/// Expressions up to (not including) `close` or `Eof`, each optionally
/// followed by one `sep`.
pub open spec fn g_expr_items(
    toks: Seq<SpecSpanned>,
    st: PState,
    acc: Seq<SpecExpr>,
    close: SpecToken,
    sep: SpecToken,
) -> Parsed<Seq<SpecExpr>>
    decreases toks.len() - st.pos, 7int,
    when valid(toks, st)
{
    let t = peek(toks, st);
    if t == close || t == SpecToken::Eof {
        (Ok(acc), st)
    } else {
        match g_expr(toks, st) {
            (Ok(x), s1) => {
                let s2 = if peek(toks, s1) == sep {
                    adv(toks, s1)
                } else {
                    s1
                };
                if ahead(toks, st, s2) {
                    g_expr_items(toks, s2, acc.push(x), close, sep)
                } else {
                    (Ok(acc.push(x)), s2)
                }
            },
            (Err(e), s1) => (Err(e), s1),
        }
    }
}

/// A primary expression: a one-parameter lambda `x => e`, a literal, `this`,
/// a parenthesised expression, a list literal, `import("path")`, or a name.
pub open spec fn g_primary(toks: Seq<SpecSpanned>, st: PState) -> Parsed<SpecExpr>
    decreases toks.len() - st.pos, 2int,
    when valid(toks, st)
{
    let t = peek(toks, st);
    if t is Ident && tok_at(toks, st.pos + 1) == SpecToken::FatArrow {
        g_lambda(toks, st)
    } else {
        match t {
            SpecToken::StringLit(s) => (Ok(SpecExpr::StringLit(s)), adv(toks, st)),
            SpecToken::IntLit(n) => (Ok(SpecExpr::IntLit(n)), adv(toks, st)),
            SpecToken::BoolLit(b) => (Ok(SpecExpr::BoolLit(b)), adv(toks, st)),
            SpecToken::This => (Ok(SpecExpr::This), adv(toks, st)),
            SpecToken::LParen => g_paren(toks, st),
            SpecToken::LBracket => g_list_literal(toks, st),
            SpecToken::Import => g_lazy_import(toks, st),
            SpecToken::Ident(_) => g_name_expr(toks, st),
            _ => (Err(unexpected(toks, st)), st),
        }
    }
}

/// `x => body`: a lambda of one parameter, typed `T`.
pub open spec fn g_lambda(toks: Seq<SpecSpanned>, st: PState) -> Parsed<SpecExpr>
    decreases toks.len() - st.pos, 1int,
    when valid(toks, st)
{
    let s2 = adv(toks, adv(toks, st));
    if ahead(toks, st, s2) {
        match g_expr(toks, s2) {
            (Ok(body), s3) => (
                Ok(
                    SpecExpr::Lambda {
                        params: seq![SpecParam { name: ident_text(peek(toks, st)), ty: SpecType::Custom("T"@) }],
                        body: Box::new(body),
                    },
                ),
                s3,
            ),
            (Err(e), s3) => (Err(e), s3),
        }
    } else {
        (Err(SpecParseError::Eof), s2)
    }
}

/// `( e )`.
pub open spec fn g_paren(toks: Seq<SpecSpanned>, st: PState) -> Parsed<SpecExpr>
    decreases toks.len() - st.pos, 1int,
    when valid(toks, st)
{
    let s1 = adv(toks, st);
    if ahead(toks, st, s1) {
        match g_expr(toks, s1) {
            (Ok(e), s2) => match g_expect(toks, s2, SpecToken::RParen) {
                (Ok(_), s3) => (Ok(e), s3),
                (Err(x), s3) => (Err(x), s3),
            },
            (Err(x), s2) => (Err(x), s2),
        }
    } else {
        (Err(SpecParseError::Eof), s1)
    }
}

/// `[e1, e2, ...]`.
pub open spec fn g_list_literal(toks: Seq<SpecSpanned>, st: PState) -> Parsed<SpecExpr>
    decreases toks.len() - st.pos, 1int,
    when valid(toks, st)
{
    let s1 = adv(toks, st);
    if ahead(toks, st, s1) {
        match g_expr_items(toks, s1, Seq::empty(), SpecToken::RBracket, SpecToken::Comma) {
            (Ok(items), s2) => match g_expect(toks, s2, SpecToken::RBracket) {
                (Ok(_), s3) => (Ok(SpecExpr::ListLiteral(items)), s3),
                (Err(x), s3) => (Err(x), s3),
            },
            (Err(x), s2) => (Err(x), s2),
        }
    } else {
        (Err(SpecParseError::Eof), s1)
    }
}

/// `import("path")`: a lazily imported module.
pub open spec fn g_lazy_import(toks: Seq<SpecSpanned>, st: PState) -> Parsed<SpecExpr> {
    match g_expect(toks, adv(toks, st), SpecToken::LParen) {
        (Ok(_), s2) => match peek(toks, s2) {
            SpecToken::StringLit(path) => match g_expect(toks, adv(toks, s2), SpecToken::RParen) {
                (Ok(_), s4) => (Ok(SpecExpr::LazyImport(path)), s4),
                (Err(x), s4) => (Err(x), s4),
            },
            _ => (Err(expected(toks, s2, "string literal"@)), s2),
        },
        (Err(x), s2) => (Err(x), s2),
    }
}

/// A name, then (after erased type arguments) a call `name(args)`, a block
/// `Tag { children }`, or nothing more.
pub open spec fn g_name_expr(toks: Seq<SpecSpanned>, st: PState) -> Parsed<SpecExpr>
    decreases toks.len() - st.pos, 1int,
    when valid(toks, st)
{
    let name = ident_text(peek(toks, st));
    let s1 = adv(toks, st);
    let targs = if peek(toks, s1) == SpecToken::LAngle && starts_type_arg(tok_at(toks, s1.pos + 1)) {
        g_call_type_args(toks, s1)
    } else {
        (Ok(()), s1)
    };
    match targs {
        (Ok(_), s2) => if ahead(toks, st, s2) {
            g_name_tail(toks, s2, name)
        } else {
            (Err(SpecParseError::Eof), s2)
        },
        (Err(x), s2) => (Err(x), s2),
    }
}

/// What follows a name `name`: call arguments, a block, or nothing.
pub open spec fn g_name_tail(toks: Seq<SpecSpanned>, st: PState, name: Seq<char>) -> Parsed<SpecExpr>
    decreases toks.len() - st.pos, 2int,
    when valid(toks, st)
{
    if peek(toks, st) == SpecToken::LParen {
        match g_call_args(toks, st) {
            (Ok(args), s3) => (Ok(SpecExpr::Call { callee: name, args }), s3),
            (Err(x), s3) => (Err(x), s3),
        }
    } else if peek(toks, st) == SpecToken::LBrace {
        let s3 = adv(toks, st);
        if ahead(toks, st, s3) {
            match g_expr_items(toks, s3, Seq::empty(), SpecToken::RBrace, SpecToken::Semicolon) {
                (Ok(children), s4) => match g_expect(toks, s4, SpecToken::RBrace) {
                    (Ok(_), s5) => (Ok(SpecExpr::Block { tag: name, children }), s5),
                    (Err(x), s5) => (Err(x), s5),
                },
                (Err(x), s4) => (Err(x), s4),
            }
        } else {
            (Err(SpecParseError::Eof), s3)
        }
    } else {
        (Ok(SpecExpr::Ident(name)), st)
    }
}

/// Tokens that begin a statement of their own; recovery stops before them.
pub open spec fn stmt_keyword(t: SpecToken) -> bool {
    t == SpecToken::Return || t == SpecToken::Let || t == SpecToken::If || t == SpecToken::While || t
        == SpecToken::For || t == SpecToken::Break || t == SpecToken::Continue || t == SpecToken::Match
}

/// Recovery after a failed statement: skip to just after a `;`, or to a `}`,
/// the end, or a statement keyword.
pub open spec fn g_sync(toks: Seq<SpecSpanned>, st: PState) -> PState
    decreases toks.len() - st.pos,
    when valid(toks, st)
{
    let t = peek(toks, st);
    if t == SpecToken::Eof || t == SpecToken::RBrace || stmt_keyword(t) {
        st
    } else if t == SpecToken::Semicolon {
        adv(toks, st)
    } else {
        let s1 = adv(toks, st);
        if ahead(toks, st, s1) {
            g_sync(toks, s1)
        } else {
            s1
        }
    }
}

/// Statements up to `}` or the end. A statement that fails is recorded in
/// the state's errors and skipped by recovery; the body itself never fails.
pub open spec fn g_body(toks: Seq<SpecSpanned>, st: PState, acc: Seq<SpecStmt>) -> Parsed<Seq<SpecStmt>>
    decreases toks.len() - st.pos, 3int,
    when valid(toks, st)
{
    let t = peek(toks, st);
    if t == SpecToken::RBrace || t == SpecToken::Eof {
        (Ok(acc), st)
    } else {
        match g_stmt(toks, st) {
            (Ok(x), s1) => if ahead(toks, st, s1) {
                g_body(toks, s1, acc.push(x))
            } else {
                (Ok(acc.push(x)), s1)
            },
            (Err(e), s1) => {
                let s2 = g_sync(toks, PState { pos: s1.pos, errs: s1.errs.push(e) });
                if ahead(toks, st, s2) {
                    g_body(toks, s2, acc)
                } else {
                    (Ok(acc), s2)
                }
            },
        }
    }
}

/// `{ statements }`.
pub open spec fn g_block(toks: Seq<SpecSpanned>, st: PState) -> Parsed<Seq<SpecStmt>>
    decreases toks.len() - st.pos, 1int,
    when valid(toks, st)
{
    match g_expect(toks, st, SpecToken::LBrace) {
        (Ok(_), s1) => if ahead(toks, st, s1) {
            match g_body(toks, s1, Seq::empty()) {
                (Ok(b), s2) => match g_expect(toks, s2, SpecToken::RBrace) {
                    (Ok(_), s3) => (Ok(b), s3),
                    (Err(e), s3) => (Err(e), s3),
                },
                (Err(e), s2) => (Err(e), s2),
            }
        } else {
            (Err(SpecParseError::Eof), s1)
        },
        (Err(e), s1) => (Err(e), s1),
    }
}

/// One statement.
pub open spec fn g_stmt(toks: Seq<SpecSpanned>, st: PState) -> Parsed<SpecStmt>
    decreases toks.len() - st.pos, 2int,
    when valid(toks, st)
{
    let t = peek(toks, st);
    if t == SpecToken::Return {
        g_return(toks, st)
    } else if t == SpecToken::Let {
        g_let(toks, st)
    } else if t == SpecToken::If {
        g_if(toks, st)
    } else if t == SpecToken::While {
        g_while(toks, st)
    } else if t == SpecToken::For {
        g_for(toks, st)
    } else if t == SpecToken::Break || t == SpecToken::Continue {
        match g_expect(toks, adv(toks, st), SpecToken::Semicolon) {
            (Ok(_), s2) => (
                Ok(
                    if t == SpecToken::Break {
                        SpecStmt::Break
                    } else {
                        SpecStmt::Continue
                    },
                ),
                s2,
            ),
            (Err(e), s2) => (Err(e), s2),
        }
    } else if t == SpecToken::Match {
        g_match_stmt(toks, st)
    } else {
        g_expr_stmt(toks, st)
    }
}

/// `return;` or `return e;`; the statement keeps the position of `return`.
pub open spec fn g_return(toks: Seq<SpecSpanned>, st: PState) -> Parsed<SpecStmt> {
    let span = current(toks, st).span;
    let s1 = adv(toks, st);
    if peek(toks, s1) == SpecToken::Semicolon {
        (Ok(SpecStmt::Return { expr: None, span }), adv(toks, s1))
    } else {
        match g_expr(toks, s1) {
            (Ok(e), s2) => match g_expect(toks, s2, SpecToken::Semicolon) {
                (Ok(_), s3) => (Ok(SpecStmt::Return { expr: Some(e), span }), s3),
                (Err(x), s3) => (Err(x), s3),
            },
            (Err(x), s2) => (Err(x), s2),
        }
    }
}

/// The optional `: Type` of a `let`.
pub open spec fn g_let_type(toks: Seq<SpecSpanned>, st: PState) -> Parsed<Option<SpecType>> {
    if peek(toks, st) == SpecToken::Colon {
        match g_type(toks, adv(toks, st)) {
            (Ok(ty), s1) => (Ok(Some(ty)), s1),
            (Err(x), s1) => (Err(x), s1),
        }
    } else {
        (Ok(None), st)
    }
}

/// `let name [: Type] = e;`.
pub open spec fn g_let(toks: Seq<SpecSpanned>, st: PState) -> Parsed<SpecStmt> {
    match g_ident(toks, adv(toks, st)) {
        (Ok(name), s2) => match g_let_type(toks, s2) {
            (Ok(ty), s3) => match g_expect(toks, s3, SpecToken::Equals) {
                (Ok(_), s4) => match g_expr(toks, s4) {
                    (Ok(init), s5) => match g_expect(toks, s5, SpecToken::Semicolon) {
                        (Ok(_), s6) => (Ok(SpecStmt::Let { name, ty, init }), s6),
                        (Err(x), s6) => (Err(x), s6),
                    },
                    (Err(x), s5) => (Err(x), s5),
                },
                (Err(x), s4) => (Err(x), s4),
            },
            (Err(x), s3) => (Err(x), s3),
        },
        (Err(x), s2) => (Err(x), s2),
    }
}

/// `( e )` after a statement keyword: the condition of `if` and `while`.
pub open spec fn g_cond(toks: Seq<SpecSpanned>, st: PState) -> Parsed<SpecExpr> {
    match g_expect(toks, st, SpecToken::LParen) {
        (Ok(_), s1) => match g_expr(toks, s1) {
            (Ok(e), s2) => match g_expect(toks, s2, SpecToken::RParen) {
                (Ok(_), s3) => (Ok(e), s3),
                (Err(x), s3) => (Err(x), s3),
            },
            (Err(x), s2) => (Err(x), s2),
        },
        (Err(x), s1) => (Err(x), s1),
    }
}

/// `if (c) { ... } [else { ... }]`.
pub open spec fn g_if(toks: Seq<SpecSpanned>, st: PState) -> Parsed<SpecStmt>
    decreases toks.len() - st.pos, 1int,
    when valid(toks, st)
{
    match g_cond(toks, adv(toks, st)) {
        (Ok(cond), s1) => if !ahead(toks, st, s1) {
            (Err(SpecParseError::Eof), s1)
        } else {
            match g_block(toks, s1) {
                (Ok(then_body), s2) => if ahead(toks, st, s2) {
                    g_else(toks, s2, cond, then_body)
                } else {
                    (Err(SpecParseError::Eof), s2)
                },
                (Err(x), s2) => (Err(x), s2),
            }
        },
        (Err(x), s1) => (Err(x), s1),
    }
}

/// The optional `else { ... }` of an `if` with condition `cond` and body `then_body`.
pub open spec fn g_else(toks: Seq<SpecSpanned>, st: PState, cond: SpecExpr, then_body: Seq<SpecStmt>) -> Parsed<
    SpecStmt,
>
    decreases toks.len() - st.pos, 1int,
    when valid(toks, st)
{
    if peek(toks, st) == SpecToken::Else {
        let s1 = adv(toks, st);
        if ahead(toks, st, s1) {
            match g_block(toks, s1) {
                (Ok(b), s2) => (Ok(SpecStmt::If { cond, then_body, else_body: Some(b) }), s2),
                (Err(x), s2) => (Err(x), s2),
            }
        } else {
            (Err(SpecParseError::Eof), s1)
        }
    } else {
        (Ok(SpecStmt::If { cond, then_body, else_body: None }), st)
    }
}

/// `while (c) { ... }`.
pub open spec fn g_while(toks: Seq<SpecSpanned>, st: PState) -> Parsed<SpecStmt>
    decreases toks.len() - st.pos, 1int,
    when valid(toks, st)
{
    match g_cond(toks, adv(toks, st)) {
        (Ok(cond), s1) => if ahead(toks, st, s1) {
            match g_block(toks, s1) {
                (Ok(body), s2) => (Ok(SpecStmt::While { cond, body }), s2),
                (Err(x), s2) => (Err(x), s2),
            }
        } else {
            (Err(SpecParseError::Eof), s1)
        },
        (Err(x), s1) => (Err(x), s1),
    }
}

/// The `(var in iter)` header of a `for`.
pub open spec fn g_for_header(toks: Seq<SpecSpanned>, st: PState) -> Parsed<(Seq<char>, SpecExpr)> {
    match g_expect(toks, st, SpecToken::LParen) {
        (Ok(_), s1) => match g_ident(toks, s1) {
            (Ok(var), s2) => match g_expect(toks, s2, SpecToken::In) {
                (Ok(_), s3) => match g_expr(toks, s3) {
                    (Ok(iter), s4) => match g_expect(toks, s4, SpecToken::RParen) {
                        (Ok(_), s5) => (Ok((var, iter)), s5),
                        (Err(x), s5) => (Err(x), s5),
                    },
                    (Err(x), s4) => (Err(x), s4),
                },
                (Err(x), s3) => (Err(x), s3),
            },
            (Err(x), s2) => (Err(x), s2),
        },
        (Err(x), s1) => (Err(x), s1),
    }
}

/// `for (var in iter) { ... }`.
pub open spec fn g_for(toks: Seq<SpecSpanned>, st: PState) -> Parsed<SpecStmt>
    decreases toks.len() - st.pos, 1int,
    when valid(toks, st)
{
    match g_for_header(toks, adv(toks, st)) {
        (Ok(h), s1) => if ahead(toks, st, s1) {
            match g_block(toks, s1) {
                (Ok(body), s2) => (Ok(SpecStmt::For { var: h.0, iter: h.1, body }), s2),
                (Err(x), s2) => (Err(x), s2),
            }
        } else {
            (Err(SpecParseError::Eof), s1)
        },
        (Err(x), s1) => (Err(x), s1),
    }
}

/// `match (e) { pattern => { ... } ... }`.
pub open spec fn g_match_stmt(toks: Seq<SpecSpanned>, st: PState) -> Parsed<SpecStmt>
    decreases toks.len() - st.pos, 1int,
    when valid(toks, st)
{
    match g_expect(toks, st, SpecToken::Match) {
        (Ok(_), s1) => match g_cond(toks, s1) {
            (Ok(e), s2) => match g_expect(toks, s2, SpecToken::LBrace) {
                (Ok(_), s3) => if ahead(toks, st, s3) {
                    match g_arms(toks, s3, Seq::empty()) {
                        (Ok(arms), s4) => match g_expect(toks, s4, SpecToken::RBrace) {
                            (Ok(_), s5) => (Ok(SpecStmt::Match { expr: e, arms }), s5),
                            (Err(x), s5) => (Err(x), s5),
                        },
                        (Err(x), s4) => (Err(x), s4),
                    }
                } else {
                    (Err(SpecParseError::Eof), s3)
                },
                (Err(x), s3) => (Err(x), s3),
            },
            (Err(x), s2) => (Err(x), s2),
        },
        (Err(x), s1) => (Err(x), s1),
    }
}

/// The arms of a `match`, up to `}` or the end.
pub open spec fn g_arms(toks: Seq<SpecSpanned>, st: PState, acc: Seq<SpecMatchArm>) -> Parsed<
    Seq<SpecMatchArm>,
>
    decreases toks.len() - st.pos, 1int,
    when valid(toks, st)
{
    let t = peek(toks, st);
    if t == SpecToken::RBrace || t == SpecToken::Eof {
        (Ok(acc), st)
    } else {
        match g_pattern(toks, st) {
            (Ok(p), s1) => match g_expect(toks, s1, SpecToken::FatArrow) {
                (Ok(_), s2) => if ahead(toks, st, s2) {
                    match g_block(toks, s2) {
                        (Ok(body), s3) => {
                            let acc2 = acc.push(SpecMatchArm { pattern: p, body });
                            if ahead(toks, st, s3) {
                                g_arms(toks, s3, acc2)
                            } else {
                                (Ok(acc2), s3)
                            }
                        },
                        (Err(x), s3) => (Err(x), s3),
                    }
                } else {
                    (Err(SpecParseError::Eof), s2)
                },
                (Err(x), s2) => (Err(x), s2),
            },
            (Err(x), s1) => (Err(x), s1),
        }
    }
}

/// A `match` pattern: a literal, `Enum.Variant`, `_`, or a name.
#[verifier::opaque]
pub open spec fn g_pattern(toks: Seq<SpecSpanned>, st: PState) -> Parsed<SpecPattern> {
    match peek(toks, st) {
        SpecToken::BoolLit(b) => (Ok(SpecPattern::LitBool(b)), adv(toks, st)),
        SpecToken::IntLit(n) => (Ok(SpecPattern::LitInt(n)), adv(toks, st)),
        SpecToken::StringLit(s) => (Ok(SpecPattern::LitStr(s)), adv(toks, st)),
        SpecToken::Ident(name) => {
            let s1 = adv(toks, st);
            if peek(toks, s1) == SpecToken::Dot && tok_at(toks, s1.pos + 1) is Ident {
                match g_ident(toks, adv(toks, s1)) {
                    (Ok(variant), s3) => (Ok(SpecPattern::QualifiedVariant { enum_name: name, variant }), s3),
                    (Err(x), s3) => (Err(x), s3),
                }
            } else if name == "_"@ {
                (Ok(SpecPattern::Wildcard), s1)
            } else {
                (Ok(SpecPattern::Name(name)), s1)
            }
        },
        _ => (Err(expected(toks, st, "pattern"@)), st),
    }
}

/// The `= value;` of an assignment to `object.field` (or to a local).
pub open spec fn g_assign(toks: Seq<SpecSpanned>, st: PState, object: SpecExpr, field: Seq<char>) -> Parsed<
    SpecStmt,
> {
    match g_expr(toks, adv(toks, st)) {
        (Ok(value), s2) => match g_expect(toks, s2, SpecToken::Semicolon) {
            (Ok(_), s3) => (Ok(SpecStmt::Assign { object, field, value }), s3),
            (Err(x), s3) => (Err(x), s3),
        },
        (Err(x), s2) => (Err(x), s2),
    }
}

/// An expression statement `e;`, or an assignment `name = e;` or
/// `this.field = e;`.
pub open spec fn g_expr_stmt(toks: Seq<SpecSpanned>, st: PState) -> Parsed<SpecStmt> {
    match g_expr(toks, st) {
        (Ok(e), s1) => g_expr_stmt_tail(toks, s1, e),
        (Err(x), s1) => (Err(x), s1),
    }
}

/// What follows the expression `e` at the start of a statement.
pub open spec fn g_expr_stmt_tail(toks: Seq<SpecSpanned>, st: PState, e: SpecExpr) -> Parsed<SpecStmt> {
    if peek(toks, st) == SpecToken::Equals && e is Ident {
        g_assign(toks, st, e, e->Ident_0)
    } else if peek(toks, st) == SpecToken::Equals && (e matches SpecExpr::FieldAccess(obj, _) && *obj
        == SpecExpr::This) {
        g_assign(toks, st, SpecExpr::This, e->FieldAccess_1)
    } else {
        match g_expect(toks, st, SpecToken::Semicolon) {
            (Ok(_), s2) => (Ok(SpecStmt::Expr(e)), s2),
            (Err(x), s2) => (Err(x), s2),
        }
    }
}

/// Parameters up to (not including) `)` or the end: `name: Type`, each
/// optionally followed by `,`.
pub open spec fn g_param_items(toks: Seq<SpecSpanned>, st: PState, acc: Seq<SpecParam>) -> Parsed<Seq<SpecParam>>
    decreases toks.len() - st.pos,
    when valid(toks, st)
{
    let t = peek(toks, st);
    if t == SpecToken::RParen || t == SpecToken::Eof {
        (Ok(acc), st)
    } else {
        match g_param(toks, st) {
            (Ok(p), s1) => {
                let s2 = if peek(toks, s1) == SpecToken::Comma {
                    adv(toks, s1)
                } else {
                    s1
                };
                if ahead(toks, st, s2) {
                    g_param_items(toks, s2, acc.push(p))
                } else {
                    (Ok(acc.push(p)), s2)
                }
            },
            (Err(e), s1) => (Err(e), s1),
        }
    }
}

/// One parameter `name: Type`.
#[verifier::opaque]
pub open spec fn g_param(toks: Seq<SpecSpanned>, st: PState) -> Parsed<SpecParam> {
    match g_ident(toks, st) {
        (Ok(name), s1) => match g_expect(toks, s1, SpecToken::Colon) {
            (Ok(_), s2) => match g_type(toks, s2) {
                (Ok(ty), s3) => (Ok(SpecParam { name, ty }), s3),
                (Err(e), s3) => (Err(e), s3),
            },
            (Err(e), s2) => (Err(e), s2),
        },
        (Err(e), s1) => (Err(e), s1),
    }
}

/// A parameter list `(a: A, b: B)`.
pub open spec fn g_params(toks: Seq<SpecSpanned>, st: PState) -> Parsed<Seq<SpecParam>> {
    match g_expect(toks, st, SpecToken::LParen) {
        (Ok(_), s1) => match g_param_items(toks, s1, Seq::empty()) {
            (Ok(ps), s2) => match g_expect(toks, s2, SpecToken::RParen) {
                (Ok(_), s3) => (Ok(ps), s3),
                (Err(e), s3) => (Err(e), s3),
            },
            (Err(e), s2) => (Err(e), s2),
        },
        (Err(e), s1) => (Err(e), s1),
    }
}

/// Skip tokens up to the next `>` or the end.
pub open spec fn skip_to_rangle(toks: Seq<SpecSpanned>, st: PState) -> PState
    decreases toks.len() - st.pos,
    when valid(toks, st)
{
    let t = peek(toks, st);
    if t == SpecToken::RAngle || t == SpecToken::Eof {
        st
    } else {
        let s1 = adv(toks, st);
        if ahead(toks, st, s1) {
            skip_to_rangle(toks, s1)
        } else {
            s1
        }
    }
}

/// A method: `[async] name[<...>](params) => Type { body }`, with visibility `vis`.
#[verifier::opaque]
pub open spec fn g_method(toks: Seq<SpecSpanned>, st: PState, vis: Visibility) -> Parsed<SpecMethod> {
    let is_async = peek(toks, st) == SpecToken::Async;
    let s1 = if is_async {
        adv(toks, st)
    } else {
        st
    };
    match g_ident(toks, s1) {
        (Ok(name), s2) => {
            let generics = if peek(toks, s2) == SpecToken::LAngle {
                g_expect(toks, skip_to_rangle(toks, adv(toks, s2)), SpecToken::RAngle)
            } else {
                (Ok(()), s2)
            };
            match generics {
                (Ok(_), s3) => g_method_rest(toks, s3, vis, is_async, name),
                (Err(e), s3) => (Err(e), s3),
            }
        },
        (Err(e), s2) => (Err(e), s2),
    }
}

/// The parameters, return type and body of a method.
#[verifier::opaque]
pub open spec fn g_method_rest(
    toks: Seq<SpecSpanned>,
    st: PState,
    vis: Visibility,
    is_async: bool,
    name: Seq<char>,
) -> Parsed<SpecMethod> {
    match g_params(toks, st) {
        (Ok(params), s1) => match g_expect(toks, s1, SpecToken::FatArrow) {
            (Ok(_), s2) => match g_type(toks, s2) {
                (Ok(return_type), s3) => match g_block(toks, s3) {
                    (Ok(body), s4) => (
                        Ok(SpecMethod { visibility: vis, is_async, name, params, return_type, body }),
                        s4,
                    ),
                    (Err(e), s4) => (Err(e), s4),
                },
                (Err(e), s3) => (Err(e), s3),
            },
            (Err(e), s2) => (Err(e), s2),
        },
        (Err(e), s1) => (Err(e), s1),
    }
}

/// A field `Type name;` with visibility `vis`.
#[verifier::opaque]
pub open spec fn g_field(toks: Seq<SpecSpanned>, st: PState, vis: Visibility) -> Parsed<SpecField> {
    match g_type(toks, st) {
        (Ok(ty), s1) => match g_ident(toks, s1) {
            (Ok(name), s2) => match g_expect(toks, s2, SpecToken::Semicolon) {
                (Ok(_), s3) => (Ok(SpecField { visibility: vis, ty, name }), s3),
                (Err(e), s3) => (Err(e), s3),
            },
            (Err(e), s2) => (Err(e), s2),
        },
        (Err(e), s1) => (Err(e), s1),
    }
}

/// Tokens that begin a type written before a field name.
pub open spec fn type_start(t: SpecToken) -> bool {
    t == SpecToken::TInt || t == SpecToken::TString || t == SpecToken::TBool || t == SpecToken::TVoid || t
        == SpecToken::TList || t == SpecToken::LParen
}

/// A member starting here is a field: a type keyword, or two names in a row
/// (`T value`), which a method (`name(...)`) never has.
pub open spec fn field_start(toks: Seq<SpecSpanned>, st: PState) -> bool {
    type_start(peek(toks, st)) || (peek(toks, st) is Ident && tok_at(toks, st.pos + 1) is Ident)
}

/// The members of a class read so far.
pub struct Members {
    pub fields: Seq<SpecField>,
    pub constructor: Option<SpecConstructor>,
    pub methods: Seq<SpecMethod>,
}

/// One class member: the constructor, a field or a method.
#[verifier::opaque]
pub open spec fn g_member(toks: Seq<SpecSpanned>, st: PState, m: Members) -> Parsed<Members> {
    let t = peek(toks, st);
    if t == SpecToken::Constructor {
        match g_params(toks, adv(toks, st)) {
            (Ok(params), s1) => match g_block(toks, s1) {
                (Ok(body), s2) => (Ok(Members { constructor: Some(SpecConstructor { params, body }), ..m }), s2),
                (Err(e), s2) => (Err(e), s2),
            },
            (Err(e), s1) => (Err(e), s1),
        }
    } else if t == SpecToken::Public || t == SpecToken::Private {
        let (vis, s1) = g_visibility(toks, st);
        g_field_or_method(toks, s1, vis, m)
    } else if field_start(toks, st) || t == SpecToken::Async || t is Ident {
        g_field_or_method(toks, st, if field_start(toks, st) { Visibility::Private } else { Visibility::Public }, m)
    } else {
        (Err(unexpected(toks, st)), st)
    }
}

/// A field if one starts here, else a method; with visibility `vis`.
#[verifier::opaque]
pub open spec fn g_field_or_method(toks: Seq<SpecSpanned>, st: PState, vis: Visibility, m: Members) -> Parsed<
    Members,
> {
    if field_start(toks, st) {
        match g_field(toks, st, vis) {
            (Ok(f), s1) => (Ok(Members { fields: m.fields.push(f), ..m }), s1),
            (Err(e), s1) => (Err(e), s1),
        }
    } else {
        match g_method(toks, st, vis) {
            (Ok(x), s1) => (Ok(Members { methods: m.methods.push(x), ..m }), s1),
            (Err(e), s1) => (Err(e), s1),
        }
    }
}

/// Class members up to (not including) `}` or the end.
pub open spec fn g_members(toks: Seq<SpecSpanned>, st: PState, m: Members) -> Parsed<Members>
    decreases toks.len() - st.pos,
    when valid(toks, st)
{
    let t = peek(toks, st);
    if t == SpecToken::RBrace || t == SpecToken::Eof {
        (Ok(m), st)
    } else {
        match g_member(toks, st, m) {
            (Ok(m2), s1) => if ahead(toks, st, s1) {
                g_members(toks, s1, m2)
            } else {
                (Ok(m2), s1)
            },
            (Err(e), s1) => (Err(e), s1),
        }
    }
}

/// The `, name` parts of a name list.
pub open spec fn g_names_rest(toks: Seq<SpecSpanned>, st: PState, acc: Seq<Seq<char>>) -> Parsed<Seq<Seq<char>>>
    decreases toks.len() - st.pos,
    when valid(toks, st)
{
    if peek(toks, st) == SpecToken::Comma {
        match g_ident(toks, adv(toks, st)) {
            (Ok(n), s2) => if ahead(toks, st, s2) {
                g_names_rest(toks, s2, acc.push(n))
            } else {
                (Ok(acc.push(n)), s2)
            },
            (Err(e), s2) => (Err(e), s2),
        }
    } else {
        (Ok(acc), st)
    }
}

/// The optional `extends Base`.
pub open spec fn g_extends(toks: Seq<SpecSpanned>, st: PState) -> Parsed<Option<Seq<char>>> {
    if peek(toks, st) == SpecToken::Extends {
        match g_ident(toks, adv(toks, st)) {
            (Ok(n), s1) => (Ok(Some(n)), s1),
            (Err(e), s1) => (Err(e), s1),
        }
    } else {
        (Ok(None), st)
    }
}

/// The optional `implements A, B`.
pub open spec fn g_implements(toks: Seq<SpecSpanned>, st: PState) -> Parsed<Seq<Seq<char>>> {
    if peek(toks, st) == SpecToken::Implements {
        match g_ident(toks, adv(toks, st)) {
            (Ok(n), s1) => if valid(toks, s1) {
                g_names_rest(toks, s1, seq![n])
            } else {
                (Ok(seq![n]), s1)
            },
            (Err(e), s1) => (Err(e), s1),
        }
    } else {
        (Ok(Seq::empty()), st)
    }
}

/// The kind a class-like keyword gives.
pub open spec fn class_kind(t: SpecToken) -> Option<ClassKind> {
    match t {
        SpecToken::Class => Some(ClassKind::Class),
        SpecToken::Component => Some(ClassKind::Component),
        SpecToken::Window => Some(ClassKind::Window),
        _ => None,
    }
}

/// A class, component or window declaration (public until told otherwise).
#[verifier::opaque]
pub open spec fn g_class(toks: Seq<SpecSpanned>, st: PState) -> Parsed<SpecClassDecl> {
    match class_kind(peek(toks, st)) {
        Some(kind) => match g_ident(toks, adv(toks, st)) {
            (Ok(name), s2) => match g_type_params(toks, s2) {
                (Ok(type_params), s3) => match g_extends(toks, s3) {
                    (Ok(extends), s4) => match g_implements(toks, s4) {
                        (Ok(implements), s5) => g_class_body(
                            toks,
                            s5,
                            SpecClassDecl {
                                visibility: Visibility::Public,
                                kind,
                                name,
                                type_params,
                                extends,
                                implements,
                                fields: Seq::empty(),
                                constructor: None,
                                methods: Seq::empty(),
                            },
                        ),
                        (Err(e), s5) => (Err(e), s5),
                    },
                    (Err(e), s4) => (Err(e), s4),
                },
                (Err(e), s3) => (Err(e), s3),
            },
            (Err(e), s2) => (Err(e), s2),
        },
        None => (Err(unexpected(toks, st)), st),
    }
}

/// `{ members }` of the class whose header is `head`.
#[verifier::opaque]
pub open spec fn g_class_body(toks: Seq<SpecSpanned>, st: PState, head: SpecClassDecl) -> Parsed<SpecClassDecl> {
    match g_expect(toks, st, SpecToken::LBrace) {
        (Ok(_), s1) => match g_members(
            toks,
            s1,
            Members { fields: Seq::empty(), constructor: None, methods: Seq::empty() },
        ) {
            (Ok(m), s2) => match g_expect(toks, s2, SpecToken::RBrace) {
                (Ok(_), s3) => (
                    Ok(SpecClassDecl { fields: m.fields, constructor: m.constructor, methods: m.methods, ..head }),
                    s3,
                ),
                (Err(e), s3) => (Err(e), s3),
            },
            (Err(e), s2) => (Err(e), s2),
        },
        (Err(e), s1) => (Err(e), s1),
    }
}

/// One interface method signature `name(params) => Type;`.
#[verifier::opaque]
pub open spec fn g_sig(toks: Seq<SpecSpanned>, st: PState) -> Parsed<SpecMethodSig> {
    match g_ident(toks, st) {
        (Ok(name), s1) => match g_params(toks, s1) {
            (Ok(params), s2) => match g_expect(toks, s2, SpecToken::FatArrow) {
                (Ok(_), s3) => match g_type(toks, s3) {
                    (Ok(return_type), s4) => match g_expect(toks, s4, SpecToken::Semicolon) {
                        (Ok(_), s5) => (Ok(SpecMethodSig { name, params, return_type }), s5),
                        (Err(e), s5) => (Err(e), s5),
                    },
                    (Err(e), s4) => (Err(e), s4),
                },
                (Err(e), s3) => (Err(e), s3),
            },
            (Err(e), s2) => (Err(e), s2),
        },
        (Err(e), s1) => (Err(e), s1),
    }
}

/// Method signatures up to (not including) `}` or the end.
pub open spec fn g_sigs(toks: Seq<SpecSpanned>, st: PState, acc: Seq<SpecMethodSig>) -> Parsed<Seq<SpecMethodSig>>
    decreases toks.len() - st.pos,
    when valid(toks, st)
{
    let t = peek(toks, st);
    if t == SpecToken::RBrace || t == SpecToken::Eof {
        (Ok(acc), st)
    } else {
        match g_sig(toks, st) {
            (Ok(x), s1) => if ahead(toks, st, s1) {
                g_sigs(toks, s1, acc.push(x))
            } else {
                (Ok(acc.push(x)), s1)
            },
            (Err(e), s1) => (Err(e), s1),
        }
    }
}

/// An interface declaration (public until told otherwise).
#[verifier::opaque]
pub open spec fn g_interface(toks: Seq<SpecSpanned>, st: PState) -> Parsed<SpecInterfaceDecl> {
    match g_expect(toks, st, SpecToken::Interface) {
        (Ok(_), s1) => match g_ident(toks, s1) {
            (Ok(name), s2) => match g_type_params(toks, s2) {
                (Ok(type_params), s3) => match g_expect(toks, s3, SpecToken::LBrace) {
                    (Ok(_), s4) => match g_sigs(toks, s4, Seq::empty()) {
                        (Ok(methods), s5) => match g_expect(toks, s5, SpecToken::RBrace) {
                            (Ok(_), s6) => (
                                Ok(SpecInterfaceDecl { visibility: Visibility::Public, name, type_params, methods }),
                                s6,
                            ),
                            (Err(e), s6) => (Err(e), s6),
                        },
                        (Err(e), s5) => (Err(e), s5),
                    },
                    (Err(e), s4) => (Err(e), s4),
                },
                (Err(e), s3) => (Err(e), s3),
            },
            (Err(e), s2) => (Err(e), s2),
        },
        (Err(e), s1) => (Err(e), s1),
    }
}

/// One enum variant: a name with optional field types `(A, B)`.
#[verifier::opaque]
pub open spec fn g_variant(toks: Seq<SpecSpanned>, st: PState) -> Parsed<SpecEnumVariant> {
    match g_ident(toks, st) {
        (Ok(name), s1) => if peek(toks, s1) == SpecToken::LParen {
            match g_type_list(toks, adv(toks, s1), Seq::empty()) {
                (Ok(fields), s2) => match g_expect(toks, s2, SpecToken::RParen) {
                    (Ok(_), s3) => (Ok(SpecEnumVariant { name, fields }), s3),
                    (Err(e), s3) => (Err(e), s3),
                },
                (Err(e), s2) => (Err(e), s2),
            }
        } else {
            (Ok(SpecEnumVariant { name, fields: Seq::empty() }), s1)
        },
        (Err(e), s1) => (Err(e), s1),
    }
}

/// Enum variants up to (not including) `}` or the end, each optionally
/// followed by `,`.
pub open spec fn g_variants(toks: Seq<SpecSpanned>, st: PState, acc: Seq<SpecEnumVariant>) -> Parsed<
    Seq<SpecEnumVariant>,
>
    decreases toks.len() - st.pos,
    when valid(toks, st)
{
    let t = peek(toks, st);
    if t == SpecToken::RBrace || t == SpecToken::Eof {
        (Ok(acc), st)
    } else {
        match g_variant(toks, st) {
            (Ok(v), s1) => {
                let s2 = if peek(toks, s1) == SpecToken::Comma {
                    adv(toks, s1)
                } else {
                    s1
                };
                if ahead(toks, st, s2) {
                    g_variants(toks, s2, acc.push(v))
                } else {
                    (Ok(acc.push(v)), s2)
                }
            },
            (Err(e), s1) => (Err(e), s1),
        }
    }
}

/// An enum declaration (public until told otherwise).
#[verifier::opaque]
pub open spec fn g_enum(toks: Seq<SpecSpanned>, st: PState) -> Parsed<SpecEnumDecl> {
    match g_expect(toks, st, SpecToken::Enum) {
        (Ok(_), s1) => match g_ident(toks, s1) {
            (Ok(name), s2) => match g_expect(toks, s2, SpecToken::LBrace) {
                (Ok(_), s3) => match g_variants(toks, s3, Seq::empty()) {
                    (Ok(variants), s4) => match g_expect(toks, s4, SpecToken::RBrace) {
                        (Ok(_), s5) => (Ok(SpecEnumDecl { visibility: Visibility::Public, name, variants }), s5),
                        (Err(e), s5) => (Err(e), s5),
                    },
                    (Err(e), s4) => (Err(e), s4),
                },
                (Err(e), s3) => (Err(e), s3),
            },
            (Err(e), s2) => (Err(e), s2),
        },
        (Err(e), s1) => (Err(e), s1),
    }
}

/// `test "name" { body }`.
#[verifier::opaque]
pub open spec fn g_test_decl(toks: Seq<SpecSpanned>, st: PState) -> Parsed<SpecDeclaration> {
    match g_expect(toks, st, SpecToken::Test) {
        (Ok(_), s1) => match peek(toks, s1) {
            SpecToken::StringLit(name) => match g_block(toks, adv(toks, s1)) {
                (Ok(body), s3) => (Ok(SpecDeclaration::Test(SpecTestDecl { name, body })), s3),
                (Err(e), s3) => (Err(e), s3),
            },
            _ => (Err(expected(toks, s1, "test name string"@)), s1),
        },
        (Err(e), s1) => (Err(e), s1),
    }
}

/// A class, interface or enum declaration with optional visibility.
#[verifier::opaque]
pub open spec fn g_declaration(toks: Seq<SpecSpanned>, st: PState) -> Parsed<SpecDeclaration> {
    let (vis, s1) = g_visibility(toks, st);
    let t = peek(toks, s1);
    if t == SpecToken::Interface {
        match g_interface(toks, s1) {
            (Ok(i), s2) => (Ok(SpecDeclaration::Interface(SpecInterfaceDecl { visibility: vis, ..i })), s2),
            (Err(e), s2) => (Err(e), s2),
        }
    } else if class_kind(t) is Some {
        match g_class(toks, s1) {
            (Ok(c), s2) => (Ok(SpecDeclaration::Class(SpecClassDecl { visibility: vis, ..c })), s2),
            (Err(e), s2) => (Err(e), s2),
        }
    } else if t == SpecToken::Enum {
        match g_enum(toks, s1) {
            (Ok(en), s2) => (Ok(SpecDeclaration::Enum(SpecEnumDecl { visibility: vis, ..en })), s2),
            (Err(e), s2) => (Err(e), s2),
        }
    } else {
        (Err(unexpected(toks, s1)), s1)
    }
}

/// `key: value;` settings of a server block; `port` takes an integer,
/// truncated to 16 bits, and other keys are read and ignored.
pub open spec fn g_server_items(toks: Seq<SpecSpanned>, st: PState, port: u16) -> Parsed<u16>
    decreases toks.len() - st.pos,
    when valid(toks, st)
{
    let t = peek(toks, st);
    if t == SpecToken::RBrace || t == SpecToken::Eof {
        (Ok(port), st)
    } else {
        match g_ident(toks, st) {
            (Ok(key), s1) => match g_expect(toks, s1, SpecToken::Colon) {
                (Ok(_), s2) => {
                    let v = peek(toks, s2);
                    let (p2, s3) = if key == "port"@ && v is IntLit {
                        (v->IntLit_0 as u16, adv(toks, s2))
                    } else {
                        (port, s2)
                    };
                    match g_expect(toks, s3, SpecToken::Semicolon) {
                        (Ok(_), s4) => if ahead(toks, st, s4) {
                            g_server_items(toks, s4, p2)
                        } else {
                            (Ok(p2), s4)
                        },
                        (Err(e), s4) => (Err(e), s4),
                    }
                },
                (Err(e), s2) => (Err(e), s2),
            },
            (Err(e), s1) => (Err(e), s1),
        }
    }
}

/// `server { ... }`; the port defaults to 3000.
#[verifier::opaque]
pub open spec fn g_server(toks: Seq<SpecSpanned>, st: PState) -> Parsed<ServerConfig> {
    match g_expect(toks, st, SpecToken::Server) {
        (Ok(_), s1) => match g_expect(toks, s1, SpecToken::LBrace) {
            (Ok(_), s2) => match g_server_items(toks, s2, 3000) {
                (Ok(port), s3) => match g_expect(toks, s3, SpecToken::RBrace) {
                    (Ok(_), s4) => (Ok(ServerConfig { port }), s4),
                    (Err(e), s4) => (Err(e), s4),
                },
                (Err(e), s3) => (Err(e), s3),
            },
            (Err(e), s2) => (Err(e), s2),
        },
        (Err(e), s1) => (Err(e), s1),
    }
}

/// `route "path" => Target;`.
#[verifier::opaque]
pub open spec fn g_route(toks: Seq<SpecSpanned>, st: PState) -> Parsed<SpecRoute> {
    match g_expect(toks, st, SpecToken::Route) {
        (Ok(_), s1) => match peek(toks, s1) {
            SpecToken::StringLit(path) => match g_expect(toks, adv(toks, s1), SpecToken::FatArrow) {
                (Ok(_), s3) => match g_ident(toks, s3) {
                    (Ok(target), s4) => match g_expect(toks, s4, SpecToken::Semicolon) {
                        (Ok(_), s5) => (Ok(SpecRoute { path, target }), s5),
                        (Err(e), s5) => (Err(e), s5),
                    },
                    (Err(e), s4) => (Err(e), s4),
                },
                (Err(e), s3) => (Err(e), s3),
            },
            _ => (Err(expected(toks, s1, "string literal"@)), s1),
        },
        (Err(e), s1) => (Err(e), s1),
    }
}

/// The optional `package a.b;`.
#[verifier::opaque]
pub open spec fn g_package(toks: Seq<SpecSpanned>, st: PState) -> Parsed<Option<Seq<char>>> {
    if peek(toks, st) == SpecToken::Package {
        match g_dotted(toks, adv(toks, st)) {
            (Ok(p), s2) => match g_expect(toks, s2, SpecToken::Semicolon) {
                (Ok(_), s3) => (Ok(Some(p)), s3),
                (Err(e), s3) => (Err(e), s3),
            },
            (Err(e), s2) => (Err(e), s2),
        }
    } else {
        (Ok(None), st)
    }
}

/// `import a.b.C;` declarations.
pub open spec fn g_imports(toks: Seq<SpecSpanned>, st: PState, acc: Seq<Seq<char>>) -> Parsed<Seq<Seq<char>>>
    decreases toks.len() - st.pos,
    when valid(toks, st)
{
    if peek(toks, st) == SpecToken::Import {
        match g_dotted(toks, adv(toks, st)) {
            (Ok(p), s2) => match g_expect(toks, s2, SpecToken::Semicolon) {
                (Ok(_), s3) => if ahead(toks, st, s3) {
                    g_imports(toks, s3, acc.push(p))
                } else {
                    (Ok(acc.push(p)), s3)
                },
                (Err(e), s3) => (Err(e), s3),
            },
            (Err(e), s2) => (Err(e), s2),
        }
    } else {
        (Ok(acc), st)
    }
}

/// What an app block holds so far.
pub struct AppItems {
    pub server: Option<ServerConfig>,
    pub declarations: Seq<SpecDeclaration>,
    pub routes: Seq<SpecRoute>,
}

/// Tokens that begin a declaration inside an app block.
pub open spec fn declaration_start(t: SpecToken) -> bool {
    t == SpecToken::Public || t == SpecToken::Private || t == SpecToken::Class || t == SpecToken::Interface
        || t == SpecToken::Component || t == SpecToken::Window || t == SpecToken::Enum
}

/// One item of an app block: the server settings (a later block replaces an
/// earlier one), a route, or a declaration.
#[verifier::opaque]
pub open spec fn g_app_item(toks: Seq<SpecSpanned>, st: PState, items: AppItems) -> Parsed<AppItems> {
    let t = peek(toks, st);
    if t == SpecToken::Server {
        match g_server(toks, st) {
            (Ok(c), s1) => (Ok(AppItems { server: Some(c), ..items }), s1),
            (Err(e), s1) => (Err(e), s1),
        }
    } else if t == SpecToken::Route {
        match g_route(toks, st) {
            (Ok(r), s1) => (Ok(AppItems { routes: items.routes.push(r), ..items }), s1),
            (Err(e), s1) => (Err(e), s1),
        }
    } else if declaration_start(t) {
        match g_declaration(toks, st) {
            (Ok(d), s1) => (Ok(AppItems { declarations: items.declarations.push(d), ..items }), s1),
            (Err(e), s1) => (Err(e), s1),
        }
    } else {
        (Err(unexpected(toks, st)), st)
    }
}

/// App block items up to (not including) `}` or the end.
pub open spec fn g_app_items(toks: Seq<SpecSpanned>, st: PState, items: AppItems) -> Parsed<AppItems>
    decreases toks.len() - st.pos,
    when valid(toks, st)
{
    let t = peek(toks, st);
    if t == SpecToken::RBrace || t == SpecToken::Eof {
        (Ok(items), st)
    } else {
        match g_app_item(toks, st, items) {
            (Ok(i2), s1) => if ahead(toks, st, s1) {
                g_app_items(toks, s1, i2)
            } else {
                (Ok(i2), s1)
            },
            (Err(e), s1) => (Err(e), s1),
        }
    }
}

/// A program file: optional package, imports, then `app Name { ... }`.
pub open spec fn g_program(toks: Seq<SpecSpanned>, st: PState) -> Parsed<SpecProgram> {
    match g_package(toks, st) {
        (Ok(package), s1) => if valid(toks, s1) {
            match g_imports(toks, s1, Seq::empty()) {
                (Ok(imports), s2) => g_app(toks, s2, package, imports),
                (Err(e), s2) => (Err(e), s2),
            }
        } else {
            (Err(SpecParseError::Eof), s1)
        },
        (Err(e), s1) => (Err(e), s1),
    }
}

/// `app Name { items }` after the package and imports.
#[verifier::opaque]
pub open spec fn g_app(toks: Seq<SpecSpanned>, st: PState, package: Option<Seq<char>>, imports: Seq<Seq<char>>) -> Parsed<
    SpecProgram,
> {
    match g_expect(toks, st, SpecToken::App) {
        (Ok(_), s1) => match g_ident(toks, s1) {
            (Ok(name), s2) => match g_expect(toks, s2, SpecToken::LBrace) {
                (Ok(_), s3) => match g_app_items(
                    toks,
                    s3,
                    AppItems { server: None, declarations: Seq::empty(), routes: Seq::empty() },
                ) {
                    (Ok(items), s4) => match g_expect(toks, s4, SpecToken::RBrace) {
                        (Ok(_), s5) => (
                            Ok(
                                SpecProgram {
                                    name,
                                    package,
                                    imports,
                                    server: items.server,
                                    declarations: items.declarations,
                                    routes: items.routes,
                                },
                            ),
                            s5,
                        ),
                        (Err(e), s5) => (Err(e), s5),
                    },
                    (Err(e), s4) => (Err(e), s4),
                },
                (Err(e), s3) => (Err(e), s3),
            },
            (Err(e), s2) => (Err(e), s2),
        },
        (Err(e), s1) => (Err(e), s1),
    }
}

/// Declarations and tests of a library file, up to the end.
pub open spec fn g_lib_decls(toks: Seq<SpecSpanned>, st: PState, acc: Seq<SpecDeclaration>) -> Parsed<
    Seq<SpecDeclaration>,
>
    decreases toks.len() - st.pos,
    when valid(toks, st)
{
    if peek(toks, st) == SpecToken::Eof {
        (Ok(acc), st)
    } else {
        let r = if peek(toks, st) == SpecToken::Test {
            g_test_decl(toks, st)
        } else {
            g_declaration(toks, st)
        };
        match r {
            (Ok(d), s1) => if ahead(toks, st, s1) {
                g_lib_decls(toks, s1, acc.push(d))
            } else {
                (Ok(acc.push(d)), s1)
            },
            (Err(e), s1) => (Err(e), s1),
        }
    }
}

/// A library file: optional package, imports, then declarations and tests.
pub open spec fn g_lib(toks: Seq<SpecSpanned>, st: PState) -> Parsed<SpecProgram> {
    match g_package(toks, st) {
        (Ok(package), s1) => if valid(toks, s1) {
            match g_imports(toks, s1, Seq::empty()) {
                (Ok(imports), s2) => if valid(toks, s2) {
                    match g_lib_decls(toks, s2, Seq::empty()) {
                        (Ok(declarations), s3) => (
                            Ok(
                                SpecProgram {
                                    name: Seq::empty(),
                                    package,
                                    imports,
                                    server: None,
                                    declarations,
                                    routes: Seq::empty(),
                                },
                            ),
                            s3,
                        ),
                        (Err(e), s3) => (Err(e), s3),
                    }
                } else {
                    (Err(SpecParseError::Eof), s2)
                },
                (Err(e), s2) => (Err(e), s2),
            }
        } else {
            (Err(SpecParseError::Eof), s1)
        },
        (Err(e), s1) => (Err(e), s1),
    }
}

} // verus!
