//! Statements and statement bodies, with panic-mode recovery.
use vstd::prelude::*;
use crate::ast::{
    Expr,
    MatchArm,
    Pattern,
    Stmt,
    Type,
    SpecExpr,
    SpecType,
    SpecStmt,
    SpecMatchArm,
    stmts_view,
    arms_view,
    opt_type_view,
};
use crate::grammar::{
    SpecParseError,
    ahead,
    peek,
    stmt_keyword,
    g_sync,
    g_body,
    g_block,
    g_stmt,
    g_return,
    g_let,
    g_let_type,
    g_cond,
    g_if,
    g_while,
    g_for_header,
    g_for,
    g_match_stmt,
    g_arms,
    g_pattern,
    g_assign,
    g_expr_stmt,
    g_expr_stmt_tail,
    g_else,
    valid,
};

use crate::token::{SpecToken, Token};

use super::{ParseError, Parser, arms_res, lemma_adv, res_view, stmts_res};

verus! {

/// An expression's view is `this` exactly when it is `this`; a field access
/// keeps its object's view.
proof fn lemma_expr_view_this(e: Expr)
    ensures
        (e@ == SpecExpr::This) == (e is This),
        e is FieldAccess ==> e@ == SpecExpr::FieldAccess(Box::new(e->FieldAccess_0@), e->FieldAccess_1@),
        e is FieldAccess ==> ((e->FieldAccess_0@ == SpecExpr::This) == (*e->FieldAccess_0 is This)),
        (e@ is Ident) == (e is Ident),
        e is Ident ==> e@ == SpecExpr::Ident(e->Ident_0@),
{
    match e {
        Expr::FieldAccess(obj, _) => {
            assert((obj@ == SpecExpr::This) == (*obj is This)) by {
                reveal_with_fuel(crate::ast::expr_view, 2);
            }
        },
        _ => {},
    }
}

impl Parser {
    // ── Panic-mode recovery ──────────────────────────────────────────────────
    /// Skip tokens until we reach a likely statement boundary (`;` or `}`)
    /// so that parsing can resume after an error.
    pub(crate) fn synchronize(&mut self)
        requires
            old(self).wf(),
        ensures
            Parser::follows(*old(self), *final(self)),
            final(self).pstate() == g_sync(old(self).toks(), old(self).pstate()),
            !(peek(old(self).toks(), old(self).pstate()) == SpecToken::Eof || peek(
                old(self).toks(),
                old(self).pstate(),
            ) == SpecToken::RBrace || stmt_keyword(peek(old(self).toks(), old(self).pstate())))
                ==> old(self).pstate().pos < final(self).pstate().pos,
    {
        let ghost toks = self.toks();
        loop
            invariant
                Parser::follows(*old(self), *self),
                toks == self.toks(),
                g_sync(toks, old(self).pstate()) == g_sync(toks, self.pstate()),
                self.pstate().pos == old(self).pstate().pos ==> self.pstate() == old(self).pstate(),
            decreases self.toks().len() - self.pstate().pos,
        {
            proof {
                lemma_adv(toks, self.pstate());
            }
            match self.peek() {
                Token::Eof | Token::RBrace => return ,
                Token::Semicolon => {
                    self.advance();
                    return ;
                },
                // Keyword that starts a new statement — stop before consuming it
                Token::Return | Token::Let | Token::If | Token::While | Token::For | Token::Break
                | Token::Continue | Token::Match => return ,
                _ => {
                    self.advance();
                },
            }
        }
    }

    // ── Statement body ──────────────────────────────────────────────────────
    /// Parse a sequence of statements, recovering from errors at statement
    /// boundaries instead of aborting on the first failure.
    pub(crate) fn parse_body(&mut self) -> (r: Result<Vec<Stmt>, ParseError>)
        requires
            old(self).wf(),
        ensures
            Parser::follows(*old(self), *final(self)),
            stmts_res(r) == g_body(old(self).toks(), old(self).pstate(), Seq::empty()).0,
            final(self).pstate() == g_body(old(self).toks(), old(self).pstate(), Seq::empty()).1,
        decreases old(self).toks().len() - old(self).pstate().pos, 3int,
    {
        let ghost toks = self.toks();
        let ghost st0 = self.pstate();
        let mut stmts: Vec<Stmt> = Vec::new();
        assert(stmts_view(stmts@) =~= Seq::<SpecStmt>::empty());
        while !matches!(self.peek(), Token::RBrace | Token::Eof)
            invariant
                Parser::follows(*old(self), *self),
                toks == self.toks(),
                st0 == old(self).pstate(),
                valid(toks, st0),
                g_body(toks, st0, Seq::empty()) == g_body(toks, self.pstate(), stmts_view(stmts@)),
            decreases self.toks().len() - self.pstate().pos,
        {
            let ghost cur = self.pstate();
            match self.parse_stmt() {
                Ok(stmt) => {
                    let ghost prev = stmts@;
                    stmts.push(stmt);
                    assert(stmts@.drop_last() =~= prev);
                },
                Err(e) => {
                    // Record the error and skip to the next safe boundary.
                    self.record_error(e);
                    self.synchronize();
                },
            }
        }
        Ok(stmts)
    }

    /// `{ statements }`.
    pub(crate) fn parse_block(&mut self) -> (r: Result<Vec<Stmt>, ParseError>)
        requires
            old(self).wf(),
        ensures
            Parser::follows(*old(self), *final(self)),
            r is Ok ==> old(self).pstate().pos < final(self).pstate().pos,
            stmts_res(r) == g_block(old(self).toks(), old(self).pstate()).0,
            final(self).pstate() == g_block(old(self).toks(), old(self).pstate()).1,
        decreases old(self).toks().len() - old(self).pstate().pos, 1int,
    {
        proof {
            lemma_adv(self.toks(), self.pstate());
        }
        self.expect(&Token::LBrace)?;
        let body = self.parse_body()?;
        self.expect(&Token::RBrace)?;
        Ok(body)
    }

    pub(crate) fn parse_stmt(&mut self) -> (r: Result<Stmt, ParseError>)
        requires
            old(self).wf(),
        ensures
            Parser::follows(*old(self), *final(self)),
            r is Ok ==> old(self).pstate().pos < final(self).pstate().pos,
            stmt_keyword(peek(old(self).toks(), old(self).pstate())) ==> old(self).pstate().pos
                < final(self).pstate().pos,
            res_view(r) == g_stmt(old(self).toks(), old(self).pstate()).0,
            final(self).pstate() == g_stmt(old(self).toks(), old(self).pstate()).1,
        decreases old(self).toks().len() - old(self).pstate().pos, 2int,
    {
        let ghost toks = self.toks();
        proof {
            lemma_adv(toks, self.pstate());
        }
        match self.peek() {
            // return [expr];
            Token::Return => self.parse_return(),
            // let name [: Type] = expr;
            Token::Let => self.parse_let(),
            // if (cond) { ... } [else { ... }]
            Token::If => self.parse_if(),
            // while (cond) { body }
            Token::While => self.parse_while(),
            // for (var in iter) { body }
            Token::For => self.parse_for(),
            Token::Break => {
                self.advance();
                self.expect(&Token::Semicolon)?;
                Ok(Stmt::Break)
            },
            Token::Continue => {
                self.advance();
                self.expect(&Token::Semicolon)?;
                Ok(Stmt::Continue)
            },
            // match (expr) { pattern => { body } ... }
            Token::Match => self.parse_match_stmt(),
            // expr;  — or  ident = expr;  — or  this.field = expr;
            _ => self.parse_expr_stmt(),
        }
    }

    /// `return [expr];`, at `return`.
    pub(crate) fn parse_return(&mut self) -> (r: Result<Stmt, ParseError>)
        requires
            old(self).wf(),
            peek(old(self).toks(), old(self).pstate()) == SpecToken::Return,
        ensures
            Parser::follows(*old(self), *final(self)),
            old(self).pstate().pos < final(self).pstate().pos,
            res_view(r) == g_return(old(self).toks(), old(self).pstate()).0,
            final(self).pstate() == g_return(old(self).toks(), old(self).pstate()).1,
    {
        let ghost toks = self.toks();
        proof {
            lemma_adv(toks, self.pstate());
        }
        let span = self.peek_spanned().span;
        self.advance();
        if matches!(self.peek(), Token::Semicolon) {
            self.advance();
            return Ok(Stmt::Return { expr: None, span });
        }
        let expr = self.parse_expr()?;
        self.expect(&Token::Semicolon)?;
        Ok(Stmt::Return { expr: Some(expr), span })
    }

    /// `let name [: Type] = expr;`, at `let`.
    pub(crate) fn parse_let(&mut self) -> (r: Result<Stmt, ParseError>)
        requires
            old(self).wf(),
            peek(old(self).toks(), old(self).pstate()) == SpecToken::Let,
        ensures
            Parser::follows(*old(self), *final(self)),
            old(self).pstate().pos < final(self).pstate().pos,
            res_view(r) == g_let(old(self).toks(), old(self).pstate()).0,
            final(self).pstate() == g_let(old(self).toks(), old(self).pstate()).1,
    {
        let ghost toks = self.toks();
        proof {
            lemma_adv(toks, self.pstate());
        }
        self.advance();
        let name = self.expect_ident()?;
        let ghost s2 = self.pstate();
        proof {
            lemma_adv(toks, s2);
        }
        let ty = if matches!(self.peek(), Token::Colon) {
            self.advance();
            Some(self.parse_type()?)
        } else {
            None
        };
        assert(g_let_type(toks, s2).0 == Ok::<Option<SpecType>, SpecParseError>(opt_type_view(ty)));
        self.expect(&Token::Equals)?;
        let init = self.parse_expr()?;
        self.expect(&Token::Semicolon)?;
        Ok(Stmt::Let { name, ty, init })
    }

    /// `( expr )`: the condition of `if`, `while` and `match`.
    pub(crate) fn parse_cond(&mut self) -> (r: Result<Expr, ParseError>)
        requires
            old(self).wf(),
        ensures
            Parser::follows(*old(self), *final(self)),
            res_view(r) == g_cond(old(self).toks(), old(self).pstate()).0,
            final(self).pstate() == g_cond(old(self).toks(), old(self).pstate()).1,
    {
        self.expect(&Token::LParen)?;
        let cond = self.parse_expr()?;
        self.expect(&Token::RParen)?;
        Ok(cond)
    }

    /// `if (cond) { ... } [else { ... }]`, at `if`.
    pub(crate) fn parse_if(&mut self) -> (r: Result<Stmt, ParseError>)
        requires
            old(self).wf(),
            peek(old(self).toks(), old(self).pstate()) == SpecToken::If,
        ensures
            Parser::follows(*old(self), *final(self)),
            old(self).pstate().pos < final(self).pstate().pos,
            res_view(r) == g_if(old(self).toks(), old(self).pstate()).0,
            final(self).pstate() == g_if(old(self).toks(), old(self).pstate()).1,
        decreases old(self).toks().len() - old(self).pstate().pos, 1int,
    {
        let ghost toks = self.toks();
        proof {
            lemma_adv(toks, self.pstate());
        }
        self.advance();
        let cond = self.parse_cond()?;
        let then_body = self.parse_block()?;
        self.parse_else(cond, then_body)
    }

    /// The optional `else { ... }` of an `if`.
    pub(crate) fn parse_else(&mut self, cond: Expr, then_body: Vec<Stmt>) -> (r: Result<Stmt, ParseError>)
        requires
            old(self).wf(),
        ensures
            Parser::follows(*old(self), *final(self)),
            res_view(r) == g_else(old(self).toks(), old(self).pstate(), cond@, stmts_view(then_body@)).0,
            final(self).pstate() == g_else(old(self).toks(), old(self).pstate(), cond@, stmts_view(then_body@)).1,
        decreases old(self).toks().len() - old(self).pstate().pos, 1int,
    {
        proof {
            lemma_adv(self.toks(), self.pstate());
        }
        let else_body = if matches!(self.peek(), Token::Else) {
            self.advance();
            Some(self.parse_block()?)
        } else {
            None
        };
        Ok(Stmt::If { cond, then_body, else_body })
    }

    /// `while (cond) { body }`, at `while`.
    pub(crate) fn parse_while(&mut self) -> (r: Result<Stmt, ParseError>)
        requires
            old(self).wf(),
            peek(old(self).toks(), old(self).pstate()) == SpecToken::While,
        ensures
            Parser::follows(*old(self), *final(self)),
            old(self).pstate().pos < final(self).pstate().pos,
            res_view(r) == g_while(old(self).toks(), old(self).pstate()).0,
            final(self).pstate() == g_while(old(self).toks(), old(self).pstate()).1,
        decreases old(self).toks().len() - old(self).pstate().pos, 1int,
    {
        proof {
            lemma_adv(self.toks(), self.pstate());
        }
        self.advance();
        let cond = self.parse_cond()?;
        let body = self.parse_block()?;
        Ok(Stmt::While { cond, body })
    }

    /// `(var in iter)` after `for`.
    pub(crate) fn parse_for_header(&mut self) -> (r: Result<(String, Expr), ParseError>)
        requires
            old(self).wf(),
        ensures
            Parser::follows(*old(self), *final(self)),
            (r matches Ok(h) ==> g_for_header(old(self).toks(), old(self).pstate()).0 == Ok::<
                (Seq<char>, SpecExpr),
                SpecParseError,
            >((h.0@, h.1@))),
            (r matches Err(e) ==> g_for_header(old(self).toks(), old(self).pstate()).0 == Err::<
                (Seq<char>, SpecExpr),
                SpecParseError,
            >(e@)),
            final(self).pstate() == g_for_header(old(self).toks(), old(self).pstate()).1,
    {
        self.expect(&Token::LParen)?;
        let var = self.expect_ident()?;
        self.expect(&Token::In)?;
        let iter = self.parse_expr()?;
        self.expect(&Token::RParen)?;
        Ok((var, iter))
    }

    /// `for (var in iter) { body }`, at `for`.
    pub(crate) fn parse_for(&mut self) -> (r: Result<Stmt, ParseError>)
        requires
            old(self).wf(),
            peek(old(self).toks(), old(self).pstate()) == SpecToken::For,
        ensures
            Parser::follows(*old(self), *final(self)),
            old(self).pstate().pos < final(self).pstate().pos,
            res_view(r) == g_for(old(self).toks(), old(self).pstate()).0,
            final(self).pstate() == g_for(old(self).toks(), old(self).pstate()).1,
        decreases old(self).toks().len() - old(self).pstate().pos, 1int,
    {
        proof {
            lemma_adv(self.toks(), self.pstate());
        }
        self.advance();
        let (var, iter) = self.parse_for_header()?;
        let body = self.parse_block()?;
        Ok(Stmt::For { var, iter, body })
    }

    // ── match statement ──────────────────────────────────────────────────────
    // match (expr) {
    //     PatternA => { body }
    //     PatternB => { body }
    //     _        => { body }
    // }
    pub(crate) fn parse_match_stmt(&mut self) -> (r: Result<Stmt, ParseError>)
        requires
            old(self).wf(),
            peek(old(self).toks(), old(self).pstate()) == SpecToken::Match,
        ensures
            Parser::follows(*old(self), *final(self)),
            old(self).pstate().pos < final(self).pstate().pos,
            res_view(r) == g_match_stmt(old(self).toks(), old(self).pstate()).0,
            final(self).pstate() == g_match_stmt(old(self).toks(), old(self).pstate()).1,
        decreases old(self).toks().len() - old(self).pstate().pos, 1int,
    {
        let ghost toks = self.toks();
        let ghost st0 = self.pstate();
        proof {
            lemma_adv(toks, st0);
        }
        self.expect(&Token::Match)?;
        let expr = self.parse_cond()?;
        self.expect(&Token::LBrace)?;
        let arms = self.parse_arms()?;
        self.expect(&Token::RBrace)?;
        Ok(Stmt::Match { expr, arms })
    }

    /// The arms of a `match`, up to `}` or the end.
    pub(crate) fn parse_arms(&mut self) -> (r: Result<Vec<MatchArm>, ParseError>)
        requires
            old(self).wf(),
        ensures
            Parser::follows(*old(self), *final(self)),
            arms_res(r) == g_arms(old(self).toks(), old(self).pstate(), Seq::empty()).0,
            final(self).pstate() == g_arms(old(self).toks(), old(self).pstate(), Seq::empty()).1,
        decreases old(self).toks().len() - old(self).pstate().pos, 1int,
    {
        let ghost toks = self.toks();
        let ghost st0 = self.pstate();
        let mut arms: Vec<MatchArm> = Vec::new();
        assert(arms_view(arms@) =~= Seq::<SpecMatchArm>::empty());
        while !matches!(self.peek(), Token::RBrace | Token::Eof)
            invariant
                Parser::follows(*old(self), *self),
                toks == self.toks(),
                st0 == old(self).pstate(),
                valid(toks, st0),
                g_arms(toks, st0, Seq::empty()) == g_arms(toks, self.pstate(), arms_view(arms@)),
            decreases self.toks().len() - self.pstate().pos,
        {
            let ghost cur = self.pstate();
            let pattern = self.parse_pattern()?;
            let ghost s1 = self.pstate();
            self.expect(&Token::FatArrow)?;
            let ghost s2 = self.pstate();
            let body = self.parse_block()?;
            let ghost s3 = self.pstate();
            let ghost prev = arms@;
            let arm = MatchArm { pattern, body };
            assert(arm@ == SpecMatchArm { pattern: pattern@, body: stmts_view(body@) });
            arms.push(arm);
            assert(arms@.drop_last() =~= prev);
            assert(arms_view(arms@) == arms_view(prev).push(arm@));
            assert(ahead(toks, cur, s2));
            assert(ahead(toks, cur, s3));
            assert(g_arms(toks, cur, arms_view(prev)) == g_arms(toks, s3, arms_view(prev).push(arm@)));
        }
        Ok(arms)
    }

    pub(crate) fn parse_pattern(&mut self) -> (r: Result<Pattern, ParseError>)
        requires
            old(self).wf(),
        ensures
            Parser::follows(*old(self), *final(self)),
            r is Ok ==> old(self).pstate().pos < final(self).pstate().pos,
            res_view(r) == g_pattern(old(self).toks(), old(self).pstate()).0,
            final(self).pstate() == g_pattern(old(self).toks(), old(self).pstate()).1,
    {
        reveal(g_pattern);
        let ghost toks = self.toks();
        proof {
            lemma_adv(toks, self.pstate());
        }
        match self.peek() {
            Token::BoolLit(b) => {
                let b = *b;
                self.advance();
                Ok(Pattern::LitBool(b))
            },
            Token::IntLit(n) => {
                let n = *n;
                self.advance();
                Ok(Pattern::LitInt(n))
            },
            Token::StringLit(s) => {
                let s = s.clone();
                self.advance();
                Ok(Pattern::LitStr(s))
            },
            Token::Ident(name) => {
                let name = name.clone();
                self.advance();
                proof {
                    lemma_adv(toks, self.pstate());
                }
                // Check for qualified variant: EnumName.VariantName
                if matches!(self.peek(), Token::Dot) && matches!(self.peek_next(), Some(Token::Ident(_))) {
                    self.advance();  // dot
                    let variant = self.expect_ident()?;
                    return Ok(Pattern::QualifiedVariant { enum_name: name, variant });
                }
                // `_` is the wildcard; any other bare name is a variant/binding
                let wildcard = "_".to_owned();
                if name.eq(&wildcard) {
                    Ok(Pattern::Wildcard)
                } else {
                    Ok(Pattern::Name(name))
                }
            },
            _ => {
                let s = self.peek_spanned();
                Err(ParseError::Expected("pattern".to_owned(), s.token, s.span))
            },
        }
    }

    /// `= value;` after the target `object.field` of an assignment.
    pub(crate) fn parse_assign(&mut self, object: Expr, field: String) -> (r: Result<Stmt, ParseError>)
        requires
            old(self).wf(),
        ensures
            Parser::follows(*old(self), *final(self)),
            res_view(r) == g_assign(old(self).toks(), old(self).pstate(), object@, field@).0,
            final(self).pstate() == g_assign(old(self).toks(), old(self).pstate(), object@, field@).1,
    {
        self.advance();  // =
        let value = self.parse_expr()?;
        self.expect(&Token::Semicolon)?;
        Ok(Stmt::Assign { object, field, value })
    }

    /// `expr;`, `ident = expr;` or `this.field = expr;`.
    pub(crate) fn parse_expr_stmt(&mut self) -> (r: Result<Stmt, ParseError>)
        requires
            old(self).wf(),
        ensures
            Parser::follows(*old(self), *final(self)),
            r is Ok ==> old(self).pstate().pos < final(self).pstate().pos,
            res_view(r) == g_expr_stmt(old(self).toks(), old(self).pstate()).0,
            final(self).pstate() == g_expr_stmt(old(self).toks(), old(self).pstate()).1,
    {
        let expr = self.parse_expr()?;
        self.parse_expr_stmt_tail(expr)
    }

    /// What follows the expression at the start of a statement: `= value;`
    /// for an assignable target, else `;`.
    pub(crate) fn parse_expr_stmt_tail(&mut self, expr: Expr) -> (r: Result<Stmt, ParseError>)
        requires
            old(self).wf(),
        ensures
            Parser::follows(*old(self), *final(self)),
            res_view(r) == g_expr_stmt_tail(old(self).toks(), old(self).pstate(), expr@).0,
            final(self).pstate() == g_expr_stmt_tail(old(self).toks(), old(self).pstate(), expr@).1,
    {
        proof {
            lemma_expr_view_this(expr);
        }
        if matches!(self.peek(), Token::Equals) {
            match &expr {
                // ident = value;  (local variable assignment)
                Expr::Ident(name) => {
                    let name = name.clone();
                    return self.parse_assign(Expr::Ident(name.clone()), name);
                },
                // this.field = value;  (field assignment)
                Expr::FieldAccess(obj, field) => {
                    if matches!(**obj, Expr::This) {
                        let field = field.clone();
                        return self.parse_assign(Expr::This, field);
                    }
                },
                _ => {},
            }
        }
        self.expect(&Token::Semicolon)?;
        Ok(Stmt::Expr(expr))
    }
}

} // verus!
