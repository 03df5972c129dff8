//! The Nexa parser: recursive descent over the lexer's tokens, with
//! panic-mode recovery inside statement bodies.
use vstd::prelude::*;
use crate::ast::{
    Constructor,
    Expr,
    Field,
    ImportDecl,
    MatchArm,
    Method,
    Route,
    ServerConfig,
    Stmt,
    Type,
    Visibility,
    SpecExpr,
    SpecType,
    exprs_view,
    string_views,
    types_view,
    views,
    SpecStmt,
    SpecMatchArm,
    stmts_view,
    arms_view,
    lemma_views_push,
    opt_string_view,
};
use crate::grammar::{
    PState,
    SpecParseError,
    adv,
    current,
    g_dotted,
    g_dotted_rest,
    g_expect,
    g_ident,
    g_type,
    g_type_list,
    g_type_params,
    g_type_params_rest,
    g_visibility,
    ident_like,
    is_plain,
    peek,
    tok_at,
    token_name,
    g_call_type_args,
    skip_angles,
    Members,
    valid,
    wf_tokens,
};
use crate::span::Span;

use crate::token::{SpecSpanned, SpecToken, Spanned, Token};

mod decl;
mod expr;
mod stmt;

verus! {

/// Errors reported by the parser.
#[derive(Debug)]
pub enum ParseError {
    Unexpected(Token, Span),
    Expected(String, Token, Span),
    Eof,
}

impl View for ParseError {
    type V = SpecParseError;

    open spec fn view(&self) -> SpecParseError {
        match self {
            ParseError::Unexpected(t, s) => SpecParseError::Unexpected(t@, *s),
            ParseError::Expected(m, t, s) => SpecParseError::Expected(m@, t@, *s),
            ParseError::Eof => SpecParseError::Eof,
        }
    }
}

/// The position an error carries; `Eof` carries none.
pub open spec fn error_span(e: SpecParseError) -> Span {
    match e {
        SpecParseError::Unexpected(_, s) => s,
        SpecParseError::Expected(_, _, s) => s,
        SpecParseError::Eof => Span { line: 0, col: 0, len: 0 },
    }
}

impl ParseError {
    pub fn span(&self) -> (s: Span)
        ensures
            s == error_span(self@),
    {
        match self {
            ParseError::Unexpected(_, s) => *s,
            ParseError::Expected(_, _, s) => *s,
            ParseError::Eof => Span::dummy(),
        }
    }
}

/// The view of a parse outcome.
pub open spec fn res_view<T: View>(r: Result<T, ParseError>) -> Result<T::V, SpecParseError> {
    match r {
        Ok(v) => Ok(v@),
        Err(e) => Err(e@),
    }
}

/// The view of a parse outcome without value.
pub open spec fn unit_view(r: Result<(), ParseError>) -> Result<(), SpecParseError> {
    match r {
        Ok(_) => Ok(()),
        Err(e) => Err(e@),
    }
}

/// The view of an outcome holding strings.
pub open spec fn strings_res(r: Result<Vec<String>, ParseError>) -> Result<Seq<Seq<char>>, SpecParseError> {
    match r {
        Ok(v) => Ok(string_views(v@)),
        Err(e) => Err(e@),
    }
}

/// The view of an outcome holding expressions.
pub open spec fn exprs_res(r: Result<Vec<Expr>, ParseError>) -> Result<Seq<SpecExpr>, SpecParseError> {
    match r {
        Ok(v) => Ok(exprs_view(v@)),
        Err(e) => Err(e@),
    }
}

/// The view of an outcome holding statements.
pub open spec fn stmts_res(r: Result<Vec<Stmt>, ParseError>) -> Result<Seq<SpecStmt>, SpecParseError> {
    match r {
        Ok(v) => Ok(stmts_view(v@)),
        Err(e) => Err(e@),
    }
}

/// The view of an outcome holding match arms.
pub open spec fn arms_res(r: Result<Vec<MatchArm>, ParseError>) -> Result<Seq<SpecMatchArm>, SpecParseError> {
    match r {
        Ok(v) => Ok(arms_view(v@)),
        Err(e) => Err(e@),
    }
}

/// The view of an outcome holding a vector, element by element.
pub open spec fn vec_res<T: View>(r: Result<Vec<T>, ParseError>) -> Result<Seq<T::V>, SpecParseError> {
    match r {
        Ok(v) => Ok(views(v@)),
        Err(e) => Err(e@),
    }
}

/// The view of an outcome holding an optional name.
pub open spec fn opt_string_res(r: Result<Option<String>, ParseError>) -> Result<Option<Seq<char>>, SpecParseError> {
    match r {
        Ok(v) => Ok(opt_string_view(v)),
        Err(e) => Err(e@),
    }
}

/// The view of an outcome holding server settings.
pub open spec fn res_unit_server(r: Result<ServerConfig, ParseError>) -> Result<ServerConfig, SpecParseError> {
    match r {
        Ok(v) => Ok(v),
        Err(e) => Err(e@),
    }
}

/// The view of an outcome holding a port.
pub open spec fn res_port(r: Result<u16, ParseError>) -> Result<u16, SpecParseError> {
    match r {
        Ok(v) => Ok(v),
        Err(e) => Err(e@),
    }
}

/// The view of an outcome holding imports.
pub open spec fn imports_res(r: Result<Vec<ImportDecl>, ParseError>) -> Result<Seq<Seq<char>>, SpecParseError> {
    match r {
        Ok(v) => Ok(views(v@)),
        Err(e) => Err(e@),
    }
}

/// The members of a class as read so far.
pub open spec fn members_view(fields: Seq<Field>, constructor: Option<Constructor>, methods: Seq<Method>) -> Members {
    Members {
        fields: views(fields),
        constructor: match constructor {
            Some(c) => Some(c@),
            None => None,
        },
        methods: views(methods),
    }
}

/// The view of an outcome holding types.
pub open spec fn types_res(r: Result<Vec<Type>, ParseError>) -> Result<Seq<SpecType>, SpecParseError> {
    match r {
        Ok(v) => Ok(types_view(v@)),
        Err(e) => Err(e@),
    }
}

/// Append the characters of `s`.
fn push_str_chars(v: &mut Vec<char>, s: &str)
    ensures
        final(v)@ == old(v)@ + s@,
{
    for c in it: s.chars()
        invariant
            it.seq() == s@,
            v@ == old(v)@ + it.seq().take(it.index() as int),
    {
        v.push(c);
    }
    assert(s@.take(s@.len() as int) =~= s@);
}

/// A parser always ends at a valid position, at or after where it started.
pub proof fn lemma_adv(toks: Seq<SpecSpanned>, st: PState)
    requires
        valid(toks, st),
    ensures
        valid(toks, adv(toks, st)),
        adv(toks, st).pos >= st.pos,
        adv(toks, st).errs == st.errs,
        peek(toks, st) != SpecToken::Eof ==> adv(toks, st).pos == st.pos + 1,
        current(toks, st) == toks[st.pos],
{
}

pub struct Parser {
    tokens: Vec<Spanned>,
    pos: usize,
    /// Non-fatal errors accumulated during recovery (panic-mode).
    collected_errors: Vec<ParseError>,
}

impl Parser {
    /// The tokens being parsed.
    pub closed spec fn toks(&self) -> Seq<SpecSpanned> {
        views(self.tokens@)
    }

    /// The current position and the errors collected so far.
    pub closed spec fn pstate(&self) -> PState {
        PState { pos: self.pos as int, errs: views(self.collected_errors@) }
    }

    /// The parser stands at a valid position of well-formed tokens.
    pub closed spec fn wf(&self) -> bool {
        valid(self.toks(), self.pstate())
    }

    /// `after` reads the same tokens as `before`, validly and not behind it.
    pub open spec fn follows(before: Parser, after: Parser) -> bool {
        &&& after.wf()
        &&& after.toks() == before.toks()
        &&& before.pstate().pos <= after.pstate().pos
    }

    pub fn new(tokens: Vec<Spanned>) -> (p: Self)
        ensures
            p.toks() == views(tokens@),
            p.pstate() == (PState { pos: 0, errs: Seq::empty() }),
            wf_tokens(views(tokens@)) ==> p.wf(),
    {
        let p = Parser { tokens, pos: 0, collected_errors: Vec::new() };
        assert(views(p.collected_errors@) =~= Seq::<SpecParseError>::empty());
        p
    }

    /// Errors collected via panic-mode recovery during the last parse call.
    /// These are in addition to any fatal error returned by `parse()`.
    pub fn collected_errors(&self) -> (errs: &[ParseError])
        ensures
            views(errs@) == self.pstate().errs,
    {
        self.collected_errors.as_slice()
    }

    /// The tokens' views, one for one.
    proof fn lemma_view(&self)
        ensures
            self.toks().len() == self.tokens@.len(),
            forall|i: int| 0 <= i < self.tokens@.len() ==> #[trigger] self.toks()[i] == self.tokens@[i]@,
    {
    }

    // ── Token navigation ────────────────────────────────────────────────────

    pub(crate) fn peek(&self) -> (t: &Token)
        requires
            self.wf(),
        ensures
            t@ == peek(self.toks(), self.pstate()),
    {
        proof {
            self.lemma_view();
        }
        &self.tokens[self.pos].token
    }

    /// The token after the current one, if any.
    pub(crate) fn peek_next(&self) -> (t: Option<&Token>)
        requires
            self.wf(),
        ensures
            self.pstate().pos + 1 < self.toks().len() ==> (t matches Some(x) && x@ == tok_at(self.toks(), self.pstate().pos + 1)),
            self.pstate().pos + 1 >= self.toks().len() ==> t is None,
    {
        proof {
            self.lemma_view();
        }
        let n = self.tokens.len();
        if self.pos + 1 < n {
            Some(&self.tokens[self.pos + 1].token)
        } else {
            None
        }
    }

    pub(crate) fn peek_spanned(&self) -> (s: Spanned)
        requires
            self.wf(),
        ensures
            s@ == current(self.toks(), self.pstate()),
    {
        proof {
            self.lemma_view();
        }
        let i = if self.pos < self.tokens.len() - 1 {
            self.pos
        } else {
            self.tokens.len() - 1
        };
        self.tokens[i].duplicate()
    }

    pub(crate) fn advance(&mut self)
        requires
            old(self).wf(),
        ensures
            final(self).wf(),
            final(self).toks() == old(self).toks(),
            final(self).pstate() == adv(old(self).toks(), old(self).pstate()),
    {
        proof {
            self.lemma_view();
        }
        let n = self.tokens.len();
        if self.pos + 1 < n {
            self.pos += 1;
        }
    }

    pub(crate) fn expect(&mut self, expected: &Token) -> (r: Result<(), ParseError>)
        requires
            old(self).wf(),
            is_plain(expected@),
        ensures
            Parser::follows(*old(self), *final(self)),
            unit_view(r) == g_expect(old(self).toks(), old(self).pstate(), expected@).0,
            final(self).pstate() == g_expect(old(self).toks(), old(self).pstate(), expected@).1,
    {
        let s = self.peek_spanned();
        if s.token.same(expected) {
            self.advance();
            Ok(())
        } else {
            Err(ParseError::Expected(expected.name(), s.token, s.span))
        }
    }

    pub(crate) fn expect_ident(&mut self) -> (r: Result<String, ParseError>)
        requires
            old(self).wf(),
        ensures
            Parser::follows(*old(self), *final(self)),
            res_view(r) == g_ident(old(self).toks(), old(self).pstate()).0,
            final(self).pstate() == g_ident(old(self).toks(), old(self).pstate()).1,
    {
        let s = self.peek_spanned();
        match s.token {
            Token::Ident(name) => {
                self.advance();
                Ok(name)
            },
            // Contextual keywords: valid as identifiers when in identifier position.
            Token::Test => {
                self.advance();
                Ok("test".to_owned())
            },
            Token::Match => {
                self.advance();
                Ok("match".to_owned())
            },
            Token::Enum => {
                self.advance();
                Ok("enum".to_owned())
            },
            Token::Async => {
                self.advance();
                Ok("async".to_owned())
            },
            Token::Server => {
                self.advance();
                Ok("server".to_owned())
            },
            _ => Err(ParseError::Expected("identifier".to_owned(), s.token, s.span)),
        }
    }

    // ── Dotted identifier (for package/import paths) ─────────────────────────
    // Parses: com.myapp.models.User  as a String
    pub(crate) fn parse_dotted_ident(&mut self) -> (r: Result<String, ParseError>)
        requires
            old(self).wf(),
        ensures
            Parser::follows(*old(self), *final(self)),
            res_view(r) == g_dotted(old(self).toks(), old(self).pstate()).0,
            final(self).pstate() == g_dotted(old(self).toks(), old(self).pstate()).1,
    {
        let ghost toks = self.toks();
        let first = self.expect_ident()?;
        let mut acc: Vec<char> = Vec::new();
        push_str_chars(&mut acc, first.as_str());
        assert(acc@ =~= first@);
        while self.at_dot_then_ident()
            invariant
                Parser::follows(*old(self), *self),
                toks == self.toks(),
                g_dotted(toks, old(self).pstate()) == g_dotted_rest(toks, self.pstate(), acc@),
            decreases self.toks().len() - self.pos,
        {
            let ghost st = self.pstate();
            proof {
                lemma_adv(toks, st);
            }
            self.advance();
            proof {
                lemma_adv(toks, self.pstate());
            }
            let n = self.expect_ident()?;
            let ghost prev = acc@;
            acc.push('.');
            push_str_chars(&mut acc, n.as_str());
            assert(acc@ =~= prev + seq!['.'] + n@);
        }
        Ok(crate::text::string_from_chars(&acc))
    }

    /// The current token is `.` and the next one may stand as an identifier.
    pub(crate) fn at_dot_then_ident(&self) -> (b: bool)
        requires
            self.wf(),
        ensures
            b == (peek(self.toks(), self.pstate()) == SpecToken::Dot && ident_like(
                tok_at(self.toks(), self.pstate().pos + 1),
            )),
    {
        proof {
            self.lemma_view();
        }
        if !matches!(self.peek(), Token::Dot) {
            return false;
        }
        match self.peek_next() {
            Some(t) => matches!(t, Token::Ident(_) | Token::Test | Token::Match | Token::Enum | Token::Async | Token::Server),
            None => false,
        }
    }

    // ── Visibility ──────────────────────────────────────────────────────────
    pub(crate) fn parse_visibility(&mut self) -> (v: Visibility)
        requires
            old(self).wf(),
        ensures
            Parser::follows(*old(self), *final(self)),
            v == g_visibility(old(self).toks(), old(self).pstate()).0,
            final(self).pstate() == g_visibility(old(self).toks(), old(self).pstate()).1,
    {
        match self.peek() {
            Token::Public => {
                self.advance();
                Visibility::Public
            },
            Token::Private => {
                self.advance();
                Visibility::Private
            },
            _ => Visibility::Public,
        }
    }

    // ── Generic type params <T, U> ──────────────────────────────────────────
    pub(crate) fn parse_type_params(&mut self) -> (r: Result<Vec<String>, ParseError>)
        requires
            old(self).wf(),
        ensures
            Parser::follows(*old(self), *final(self)),
            strings_res(r) == g_type_params(old(self).toks(), old(self).pstate()).0,
            final(self).pstate() == g_type_params(old(self).toks(), old(self).pstate()).1,
    {
        let ghost toks = self.toks();
        proof {
            lemma_adv(toks, self.pstate());
        }
        if !matches!(self.peek(), Token::LAngle) {
            let v: Vec<String> = Vec::new();
            assert(string_views(v@) =~= Seq::<Seq<char>>::empty());
            return Ok(v);
        }
        self.advance();
        let first = self.expect_ident()?;
        let mut params: Vec<String> = Vec::new();
        params.push(first);
        assert(string_views(params@) =~= seq![first@]);
        while matches!(self.peek(), Token::Comma)
            invariant
                Parser::follows(*old(self), *self),
                toks == self.toks(),
                g_type_params(toks, old(self).pstate()) == g_type_params_rest(
                    toks,
                    self.pstate(),
                    string_views(params@),
                ),
            decreases self.toks().len() - self.pos,
        {
            let ghost st = self.pstate();
            proof {
                lemma_adv(toks, st);
            }
            self.advance();
            proof {
                lemma_adv(toks, self.pstate());
            }
            let n = self.expect_ident()?;
            let ghost prev = params@;
            params.push(n);
            assert(string_views(params@) =~= string_views(prev).push(n@));
        }
        self.expect(&Token::RAngle)?;
        Ok(params)
    }

    // ── Type parsing ────────────────────────────────────────────────────────
    pub(crate) fn parse_type(&mut self) -> (r: Result<Type, ParseError>)
        requires
            old(self).wf(),
        ensures
            Parser::follows(*old(self), *final(self)),
            r is Ok ==> old(self).pstate().pos < final(self).pstate().pos,
            res_view(r) == g_type(old(self).toks(), old(self).pstate()).0,
            final(self).pstate() == g_type(old(self).toks(), old(self).pstate()).1,
        decreases old(self).toks().len() - old(self).pstate().pos, 1int,
    {
        let ghost st = self.pstate();
        let ghost toks = self.toks();
        proof {
            lemma_adv(toks, st);
        }
        // Function type: (T, U) => RetType
        if matches!(self.peek(), Token::LParen) {
            self.advance();
            let ghost s1 = self.pstate();
            let mut param_types: Vec<Type> = Vec::new();
            assert(types_view(param_types@) =~= Seq::<SpecType>::empty());
            while !matches!(self.peek(), Token::RParen | Token::Eof)
                invariant
                    Parser::follows(*old(self), *self),
                    toks == self.toks(),
                    st == old(self).pstate(),
                    valid(toks, st),
                    peek(toks, st) == SpecToken::LParen,
                    s1 == adv(toks, st),
                    valid(toks, s1),
                    st.pos < s1.pos <= self.pos,
                    g_type_list(toks, s1, Seq::empty()) == g_type_list(
                        toks,
                        self.pstate(),
                        types_view(param_types@),
                    ),
                decreases self.toks().len() - self.pos,
            {
                let ghost cur = self.pstate();
                let t = self.parse_type()?;
                if matches!(self.peek(), Token::Comma) {
                    self.advance();
                }
                let ghost prev = param_types@;
                param_types.push(t);
                assert(param_types@.drop_last() =~= prev);
            }
            self.expect(&Token::RParen)?;
            self.expect(&Token::FatArrow)?;
            let ret = self.parse_type()?;
            return Ok(Type::Function(param_types, Box::new(ret)));
        }
        match self.peek() {
            Token::TInt => {
                self.advance();
                Ok(Type::Int)
            },
            Token::TString => {
                self.advance();
                Ok(Type::String)
            },
            Token::TBool => {
                self.advance();
                Ok(Type::Bool)
            },
            Token::TVoid => {
                self.advance();
                Ok(Type::Void)
            },
            Token::TList => {
                self.advance();
                self.expect(&Token::LAngle)?;
                let inner = self.parse_type()?;
                self.expect(&Token::RAngle)?;
                Ok(Type::List(Box::new(inner)))
            },
            Token::Ident(name) => {
                let name = name.clone();
                self.advance();
                if matches!(self.peek(), Token::LAngle) {
                    self.advance();
                    self.parse_type()?;  // consume inner generic (ignored structurally)
                    self.expect(&Token::RAngle)?;
                }
                Ok(Type::Custom(name))
            },
            _ => {
                let s = self.peek_spanned();
                Err(ParseError::Expected("type".to_owned(), s.token, s.span))
            },
        }
    }

    /// Consume and discard `<T1, T2, ...>` at a call site (type erasure).
    pub(crate) fn parse_call_type_args(&mut self) -> (r: Result<(), ParseError>)
        requires
            old(self).wf(),
        ensures
            Parser::follows(*old(self), *final(self)),
            unit_view(r) == g_call_type_args(old(self).toks(), old(self).pstate()).0,
            final(self).pstate() == g_call_type_args(old(self).toks(), old(self).pstate()).1,
    {
        let ghost toks = self.toks();
        self.expect(&Token::LAngle)?;
        let ghost s1 = self.pstate();
        let mut depth: usize = 1;
        while depth > 0 && !matches!(self.peek(), Token::Eof)
            invariant
                Parser::follows(*old(self), *self),
                toks == self.toks(),
                valid(toks, s1),
                0 < s1.pos <= self.pos,
                depth <= self.pos - s1.pos + 1,
                skip_angles(toks, s1, 1) == skip_angles(toks, self.pstate(), depth as nat),
            decreases self.toks().len() - self.pos,
        {
            proof {
                lemma_adv(toks, self.pstate());
            }
            match self.peek() {
                Token::LAngle => {
                    proof {
                        self.lemma_view();
                    }
                    let n = self.tokens.len();
                    assert(depth < n);
                    depth += 1;
                    self.advance();
                },
                Token::RAngle => {
                    depth -= 1;
                    self.advance();
                },
                _ => {
                    self.advance();
                },
            }
        }
        Ok(())
    }

    /// Record a recovered error.
    pub(crate) fn record_error(&mut self, e: ParseError)
        requires
            old(self).wf(),
        ensures
            final(self).wf(),
            final(self).toks() == old(self).toks(),
            final(self).pstate() == (PState { pos: old(self).pstate().pos, errs: old(self).pstate().errs.push(e@) }),
    {
        let ghost before = self.collected_errors@;
        self.collected_errors.push(e);
        proof {
            lemma_views_push(before, e);
        }
    }

}

impl Token {
    /// The `Debug` spelling of a token without payload.
    pub fn name(&self) -> (s: String)
        requires
            is_plain(self@),
        ensures
            s@ == token_name(self@),
    {
        match self {
            Token::App => "App".to_owned(),
            Token::Server => "Server".to_owned(),
            Token::Route => "Route".to_owned(),
            Token::Package => "Package".to_owned(),
            Token::Import => "Import".to_owned(),
            Token::Class => "Class".to_owned(),
            Token::Interface => "Interface".to_owned(),
            Token::Component => "Component".to_owned(),
            Token::Window => "Window".to_owned(),
            Token::Public => "Public".to_owned(),
            Token::Private => "Private".to_owned(),
            Token::Extends => "Extends".to_owned(),
            Token::Implements => "Implements".to_owned(),
            Token::Constructor => "Constructor".to_owned(),
            Token::Return => "Return".to_owned(),
            Token::This => "This".to_owned(),
            Token::Async => "Async".to_owned(),
            Token::Await => "Await".to_owned(),
            Token::Enum => "Enum".to_owned(),
            Token::Match => "Match".to_owned(),
            Token::Test => "Test".to_owned(),
            Token::If => "If".to_owned(),
            Token::Else => "Else".to_owned(),
            Token::For => "For".to_owned(),
            Token::While => "While".to_owned(),
            Token::Break => "Break".to_owned(),
            Token::Continue => "Continue".to_owned(),
            Token::Let => "Let".to_owned(),
            Token::In => "In".to_owned(),
            Token::TInt => "TInt".to_owned(),
            Token::TString => "TString".to_owned(),
            Token::TBool => "TBool".to_owned(),
            Token::TVoid => "TVoid".to_owned(),
            Token::TList => "TList".to_owned(),
            Token::LBrace => "LBrace".to_owned(),
            Token::RBrace => "RBrace".to_owned(),
            Token::LParen => "LParen".to_owned(),
            Token::RParen => "RParen".to_owned(),
            Token::LBracket => "LBracket".to_owned(),
            Token::RBracket => "RBracket".to_owned(),
            Token::LAngle => "LAngle".to_owned(),
            Token::RAngle => "RAngle".to_owned(),
            Token::FatArrow => "FatArrow".to_owned(),
            Token::Semicolon => "Semicolon".to_owned(),
            Token::Colon => "Colon".to_owned(),
            Token::Comma => "Comma".to_owned(),
            Token::Dot => "Dot".to_owned(),
            Token::Equals => "Equals".to_owned(),
            Token::EqualEqual => "EqualEqual".to_owned(),
            Token::BangEqual => "BangEqual".to_owned(),
            Token::LessEqual => "LessEqual".to_owned(),
            Token::GreaterEqual => "GreaterEqual".to_owned(),
            Token::Plus => "Plus".to_owned(),
            Token::Minus => "Minus".to_owned(),
            Token::Star => "Star".to_owned(),
            Token::Slash => "Slash".to_owned(),
            Token::Percent => "Percent".to_owned(),
            Token::And => "And".to_owned(),
            Token::Or => "Or".to_owned(),
            Token::Bang => "Bang".to_owned(),
            Token::Eof => "Eof".to_owned(),
            _ => String::new(),
        }
    }
}

} // verus!
