//! Expressions: precedence climbing over unary, postfix and primary forms.
use vstd::prelude::*;
use crate::ast::{BinOp, Expr, Param, Type, UnOp, SpecExpr, exprs_view, views};
use crate::grammar::{
    SpecParseError,
    ahead,
    current,
    is_plain,
    peek,
    tok_at,
    binop_of,
    g_binary,
    g_binary_ops,
    g_call_args,
    g_expr,
    g_expr_items,
    g_postfix,
    g_primary,
    g_suffixes,
    g_unary,
    starts_type_arg,
    g_lambda,
    g_paren,
    g_list_literal,
    g_lazy_import,
    g_name_expr,
    g_name_tail,
    valid,
};
use crate::text::{is_uppercase};
use crate::token::{SpecToken, Token};

use super::{ParseError, Parser, exprs_res, lemma_adv, res_view};

verus! {

impl Parser {
    // ── Expression parsing (Pratt / precedence climbing) ───────────────────

    pub fn parse_expr(&mut self) -> (r: Result<Expr, ParseError>)
        requires
            old(self).wf(),
        ensures
            Parser::follows(*old(self), *final(self)),
            r is Ok ==> old(self).pstate().pos < final(self).pstate().pos,
            res_view(r) == g_expr(old(self).toks(), old(self).pstate()).0,
            final(self).pstate() == g_expr(old(self).toks(), old(self).pstate()).1,
        decreases old(self).toks().len() - old(self).pstate().pos, 6int,
    {
        self.parse_binary(0)
    }

    pub(crate) fn parse_binary(&mut self, min_bp: u8) -> (r: Result<Expr, ParseError>)
        requires
            old(self).wf(),
        ensures
            Parser::follows(*old(self), *final(self)),
            r is Ok ==> old(self).pstate().pos < final(self).pstate().pos,
            res_view(r) == g_binary(old(self).toks(), old(self).pstate(), min_bp).0,
            final(self).pstate() == g_binary(old(self).toks(), old(self).pstate(), min_bp).1,
        decreases old(self).toks().len() - old(self).pstate().pos, 5int,
    {
        let ghost toks = self.toks();
        let ghost st0 = self.pstate();
        let mut left = self.parse_unary()?;
        loop
            invariant
                Parser::follows(*old(self), *self),
                toks == self.toks(),
                st0 == old(self).pstate(),
                valid(toks, st0),
                st0.pos < self.pstate().pos,
                g_binary(toks, st0, min_bp) == g_binary_ops(toks, self.pstate(), left@, min_bp),
            ensures
                Parser::follows(*old(self), *self),
                st0.pos < self.pstate().pos,
                g_binary(toks, st0, min_bp).0 == Ok::<SpecExpr, SpecParseError>(left@),
                g_binary(toks, st0, min_bp).1 == self.pstate(),
            decreases self.toks().len() - self.pstate().pos,
        {
            let ghost cur = self.pstate();
            proof {
                lemma_adv(toks, cur);
            }
            let op = match self.token_to_binop() {
                Some(op) => op,
                None => break,
            };
            let (l_bp, r_bp) = op.binding_power();
            if l_bp < min_bp {
                break;
            }
            self.advance();  // consume operator
            let right = self.parse_binary(r_bp)?;
            left = Expr::Binary { op, left: Box::new(left), right: Box::new(right) };
        }
        Ok(left)
    }

    pub(crate) fn token_to_binop(&self) -> (op: Option<BinOp>)
        requires
            self.wf(),
        ensures
            op == binop_of(peek(self.toks(), self.pstate())),
    {
        match self.peek() {
            Token::Or => Some(BinOp::Or),
            Token::And => Some(BinOp::And),
            Token::EqualEqual => Some(BinOp::Eq),
            Token::BangEqual => Some(BinOp::Ne),
            Token::LAngle => Some(BinOp::Lt),
            Token::RAngle => Some(BinOp::Gt),
            Token::LessEqual => Some(BinOp::Le),
            Token::GreaterEqual => Some(BinOp::Ge),
            Token::Plus => Some(BinOp::Add),
            Token::Minus => Some(BinOp::Sub),
            Token::Star => Some(BinOp::Mul),
            Token::Slash => Some(BinOp::Div),
            Token::Percent => Some(BinOp::Mod),
            _ => None,
        }
    }

    pub(crate) fn parse_unary(&mut self) -> (r: Result<Expr, ParseError>)
        requires
            old(self).wf(),
        ensures
            Parser::follows(*old(self), *final(self)),
            r is Ok ==> old(self).pstate().pos < final(self).pstate().pos,
            res_view(r) == g_unary(old(self).toks(), old(self).pstate()).0,
            final(self).pstate() == g_unary(old(self).toks(), old(self).pstate()).1,
        decreases old(self).toks().len() - old(self).pstate().pos, 4int,
    {
        proof {
            lemma_adv(self.toks(), self.pstate());
        }
        match self.peek() {
            Token::Bang => {
                self.advance();
                let expr = self.parse_unary()?;
                Ok(Expr::Unary { op: UnOp::Not, expr: Box::new(expr) })
            },
            Token::Minus => {
                self.advance();
                let expr = self.parse_unary()?;
                Ok(Expr::Unary { op: UnOp::Neg, expr: Box::new(expr) })
            },
            // `await expr`
            Token::Await => {
                self.advance();
                let expr = self.parse_unary()?;
                Ok(Expr::Await(Box::new(expr)))
            },
            _ => self.parse_postfix(),
        }
    }

    pub(crate) fn parse_postfix(&mut self) -> (r: Result<Expr, ParseError>)
        requires
            old(self).wf(),
        ensures
            Parser::follows(*old(self), *final(self)),
            r is Ok ==> old(self).pstate().pos < final(self).pstate().pos,
            res_view(r) == g_postfix(old(self).toks(), old(self).pstate()).0,
            final(self).pstate() == g_postfix(old(self).toks(), old(self).pstate()).1,
        decreases old(self).toks().len() - old(self).pstate().pos, 3int,
    {
        let ghost toks = self.toks();
        let ghost st0 = self.pstate();
        let mut expr = self.parse_primary()?;
        while matches!(self.peek(), Token::Dot)
            invariant
                Parser::follows(*old(self), *self),
                toks == self.toks(),
                st0 == old(self).pstate(),
                valid(toks, st0),
                st0.pos < self.pstate().pos,
                g_postfix(toks, st0) == g_suffixes(toks, self.pstate(), expr@),
            decreases self.toks().len() - self.pstate().pos,
        {
            let ghost cur = self.pstate();
            proof {
                lemma_adv(toks, cur);
            }
            self.advance();
            let field = self.expect_ident()?;
            if matches!(self.peek(), Token::LParen) {
                let args = self.parse_call_args()?;
                expr = Expr::MethodCall { receiver: Box::new(expr), method: field, args };
            } else {
                expr = Expr::FieldAccess(Box::new(expr), field);
            }
        }
        Ok(expr)
    }

    /// The token after the current one starts type arguments.
    pub(crate) fn next_starts_type_arg(&self) -> (b: bool)
        requires
            self.wf(),
        ensures
            b == starts_type_arg(tok_at(self.toks(), self.pstate().pos + 1)),
    {
        match self.peek_next() {
            Some(Token::TInt) | Some(Token::TString) | Some(Token::TBool) | Some(Token::TVoid) | Some(
                Token::TList,
            ) => true,
            Some(Token::Ident(s)) => {
                let s = s.as_str();
                s.unicode_len() > 0 && is_uppercase(s.get_char(0))
            },
            _ => false,
        }
    }

    pub(crate) fn parse_primary(&mut self) -> (r: Result<Expr, ParseError>)
        requires
            old(self).wf(),
        ensures
            Parser::follows(*old(self), *final(self)),
            r is Ok ==> old(self).pstate().pos < final(self).pstate().pos,
            res_view(r) == g_primary(old(self).toks(), old(self).pstate()).0,
            final(self).pstate() == g_primary(old(self).toks(), old(self).pstate()).1,
        decreases old(self).toks().len() - old(self).pstate().pos, 2int,
    {
        proof {
            lemma_adv(self.toks(), self.pstate());
        }
        // Check for single-ident lambda: ident => expr
        let is_lambda = match self.peek() {
            Token::Ident(_) => matches!(self.peek_next(), Some(Token::FatArrow)),
            _ => false,
        };
        if is_lambda {
            return self.parse_lambda();
        }
        match self.peek() {
            Token::StringLit(s) => {
                let s = s.clone();
                self.advance();
                Ok(Expr::StringLit(s))
            },
            Token::IntLit(n) => {
                let n = *n;
                self.advance();
                Ok(Expr::IntLit(n))
            },
            Token::BoolLit(b) => {
                let b = *b;
                self.advance();
                Ok(Expr::BoolLit(b))
            },
            Token::This => {
                self.advance();
                Ok(Expr::This)
            },
            // Parenthesised expression
            Token::LParen => self.parse_paren(),
            // `[e1, e2, ...]`  — list literal
            Token::LBracket => self.parse_list_literal(),
            // `import("path")`  — dynamic lazy import
            Token::Import => self.parse_lazy_import(),
            Token::Ident(_) => self.parse_name_expr(),
            _ => {
                let s = self.peek_spanned();
                Err(ParseError::Unexpected(s.token, s.span))
            },
        }
    }

    /// `x => body`, at `x`.
    pub(crate) fn parse_lambda(&mut self) -> (r: Result<Expr, ParseError>)
        requires
            old(self).wf(),
            peek(old(self).toks(), old(self).pstate()) is Ident,
        ensures
            Parser::follows(*old(self), *final(self)),
            r is Ok ==> old(self).pstate().pos < final(self).pstate().pos,
            res_view(r) == g_lambda(old(self).toks(), old(self).pstate()).0,
            final(self).pstate() == g_lambda(old(self).toks(), old(self).pstate()).1,
        decreases old(self).toks().len() - old(self).pstate().pos, 1int,
    {
        let ghost toks = self.toks();
        proof {
            lemma_adv(toks, self.pstate());
        }
        let name = match self.peek() {
            Token::Ident(name) => name.clone(),
            _ => String::new(),
        };
        self.advance();  // ident
        proof {
            lemma_adv(toks, self.pstate());
        }
        self.advance();  // =>
        let body = self.parse_expr()?;
        let params = vec![Param { name, ty: Type::Custom("T".to_owned()) }];
        assert(views(params@) =~= seq![params@[0]@]);
        Ok(Expr::Lambda { params, body: Box::new(body) })
    }

    /// `( e )`, at `(`.
    pub(crate) fn parse_paren(&mut self) -> (r: Result<Expr, ParseError>)
        requires
            old(self).wf(),
            peek(old(self).toks(), old(self).pstate()) == SpecToken::LParen,
        ensures
            Parser::follows(*old(self), *final(self)),
            r is Ok ==> old(self).pstate().pos < final(self).pstate().pos,
            res_view(r) == g_paren(old(self).toks(), old(self).pstate()).0,
            final(self).pstate() == g_paren(old(self).toks(), old(self).pstate()).1,
        decreases old(self).toks().len() - old(self).pstate().pos, 1int,
    {
        proof {
            lemma_adv(self.toks(), self.pstate());
        }
        self.advance();
        let expr = self.parse_expr()?;
        self.expect(&Token::RParen)?;
        Ok(expr)
    }

    /// `[e1, e2, ...]`, at `[`.
    pub(crate) fn parse_list_literal(&mut self) -> (r: Result<Expr, ParseError>)
        requires
            old(self).wf(),
            peek(old(self).toks(), old(self).pstate()) == SpecToken::LBracket,
        ensures
            Parser::follows(*old(self), *final(self)),
            r is Ok ==> old(self).pstate().pos < final(self).pstate().pos,
            res_view(r) == g_list_literal(old(self).toks(), old(self).pstate()).0,
            final(self).pstate() == g_list_literal(old(self).toks(), old(self).pstate()).1,
        decreases old(self).toks().len() - old(self).pstate().pos, 1int,
    {
        proof {
            lemma_adv(self.toks(), self.pstate());
        }
        self.advance();
        let items = self.parse_expr_items(&Token::RBracket, &Token::Comma)?;
        self.expect(&Token::RBracket)?;
        Ok(Expr::ListLiteral(items))
    }

    /// `import("path")`, at `import`.
    pub(crate) fn parse_lazy_import(&mut self) -> (r: Result<Expr, ParseError>)
        requires
            old(self).wf(),
            peek(old(self).toks(), old(self).pstate()) == SpecToken::Import,
        ensures
            Parser::follows(*old(self), *final(self)),
            r is Ok ==> old(self).pstate().pos < final(self).pstate().pos,
            res_view(r) == g_lazy_import(old(self).toks(), old(self).pstate()).0,
            final(self).pstate() == g_lazy_import(old(self).toks(), old(self).pstate()).1,
    {
        let ghost toks = self.toks();
        proof {
            lemma_adv(toks, self.pstate());
        }
        self.advance();
        self.expect(&Token::LParen)?;
        let path = match self.peek() {
            Token::StringLit(s) => s.clone(),
            _ => {
                let s = self.peek_spanned();
                return Err(ParseError::Expected("string literal".to_owned(), s.token, s.span));
            },
        };
        proof {
            lemma_adv(toks, self.pstate());
        }
        self.advance();
        self.expect(&Token::RParen)?;
        Ok(Expr::LazyImport(path))
    }

    /// A name, then a call, a block, or nothing more; at the name.
    #[verifier::rlimit(60)]
    pub(crate) fn parse_name_expr(&mut self) -> (r: Result<Expr, ParseError>)
        requires
            old(self).wf(),
            peek(old(self).toks(), old(self).pstate()) is Ident,
        ensures
            Parser::follows(*old(self), *final(self)),
            r is Ok ==> old(self).pstate().pos < final(self).pstate().pos,
            res_view(r) == g_name_expr(old(self).toks(), old(self).pstate()).0,
            final(self).pstate() == g_name_expr(old(self).toks(), old(self).pstate()).1,
        decreases old(self).toks().len() - old(self).pstate().pos, 1int,
    {
        let ghost toks = self.toks();
        proof {
            lemma_adv(toks, self.pstate());
        }
        let name = match self.peek() {
            Token::Ident(name) => name.clone(),
            _ => String::new(),
        };
        self.advance();
        // Optional generic type args: Callee<T1, T2>(args) — parsed and erased.
        // A built-in type or an uppercase-starting name after `<` makes type
        // arguments; anything else leaves `<` as a comparison.
        if matches!(self.peek(), Token::LAngle) && self.next_starts_type_arg() {
            self.parse_call_type_args()?;  // consume and discard
        }
        self.parse_name_tail(name)
    }

    /// What follows the name `name`: a call, a block, or nothing.
    pub(crate) fn parse_name_tail(&mut self, name: String) -> (r: Result<Expr, ParseError>)
        requires
            old(self).wf(),
        ensures
            Parser::follows(*old(self), *final(self)),
            res_view(r) == g_name_tail(old(self).toks(), old(self).pstate(), name@).0,
            final(self).pstate() == g_name_tail(old(self).toks(), old(self).pstate(), name@).1,
        decreases old(self).toks().len() - old(self).pstate().pos, 2int,
    {
        proof {
            lemma_adv(self.toks(), self.pstate());
        }
        if matches!(self.peek(), Token::LParen) {
            // Function / constructor call
            let args = self.parse_call_args()?;
            Ok(Expr::Call { callee: name, args })
        } else if matches!(self.peek(), Token::LBrace) {
            // JSX-like block: Tag { child1; child2; }
            self.advance();
            let children = self.parse_expr_items(&Token::RBrace, &Token::Semicolon)?;
            self.expect(&Token::RBrace)?;
            Ok(Expr::Block { tag: name, children })
        } else {
            Ok(Expr::Ident(name))
        }
    }

    pub(crate) fn parse_call_args(&mut self) -> (r: Result<Vec<Expr>, ParseError>)
        requires
            old(self).wf(),
        ensures
            Parser::follows(*old(self), *final(self)),
            r is Ok ==> old(self).pstate().pos < final(self).pstate().pos,
            exprs_res(r) == g_call_args(old(self).toks(), old(self).pstate()).0,
            final(self).pstate() == g_call_args(old(self).toks(), old(self).pstate()).1,
        decreases old(self).toks().len() - old(self).pstate().pos, 1int,
    {
        let ghost toks = self.toks();
        let ghost st0 = self.pstate();
        proof {
            lemma_adv(toks, st0);
        }
        self.expect(&Token::LParen)?;
        let ghost s1 = self.pstate();
        assert(ahead(toks, st0, s1));
        let args = match self.parse_expr_items(&Token::RParen, &Token::Comma) {
            Ok(a) => a,
            Err(e) => {
                let ghost x = g_expr_items(toks, s1, Seq::empty(), SpecToken::RParen, SpecToken::Comma);
                assert(g_call_args(toks, st0) == (x.0, x.1));
                return Err(e);
            },
        };
        self.expect(&Token::RParen)?;
        Ok(args)
    }

    /// Expressions up to (not including) `close` or the end, each optionally
    /// followed by one `sep`.
    pub(crate) fn parse_expr_items(&mut self, close: &Token, sep: &Token) -> (r: Result<Vec<Expr>, ParseError>)
        requires
            old(self).wf(),
            is_plain(close@),
            is_plain(sep@),
        ensures
            Parser::follows(*old(self), *final(self)),
            exprs_res(r) == g_expr_items(old(self).toks(), old(self).pstate(), Seq::empty(), close@, sep@).0,
            final(self).pstate() == g_expr_items(
                old(self).toks(),
                old(self).pstate(),
                Seq::empty(),
                close@,
                sep@,
            ).1,
        decreases old(self).toks().len() - old(self).pstate().pos, 7int,
    {
        let ghost toks = self.toks();
        let ghost st0 = self.pstate();
        let mut items: Vec<Expr> = Vec::new();
        assert(exprs_view(items@) =~= Seq::<SpecExpr>::empty());
        while !(self.peek().same(close) || matches!(self.peek(), Token::Eof))
            invariant
                Parser::follows(*old(self), *self),
                toks == self.toks(),
                st0 == old(self).pstate(),
                valid(toks, st0),
                g_expr_items(toks, st0, Seq::empty(), close@, sep@) == g_expr_items(
                    toks,
                    self.pstate(),
                    exprs_view(items@),
                    close@,
                    sep@,
                ),
            decreases self.toks().len() - self.pstate().pos,
        {
            let ghost cur = self.pstate();
            let item = self.parse_expr()?;
            if self.peek().same(sep) {
                self.advance();
            }
            let ghost prev = items@;
            items.push(item);
            assert(items@.drop_last() =~= prev);
        }
        Ok(items)
    }
}

} // verus!
