//! Declarations, app blocks and library files.
use vstd::prelude::*;
use crate::ast::{
    ClassDecl,
    ClassKind,
    Constructor,
    Declaration,
    EnumDecl,
    EnumVariant,
    Field,
    ImportDecl,
    InterfaceDecl,
    Method,
    MethodSig,
    Param,
    Program,
    Route,
    ServerConfig,
    TestDecl,
    Type,
    Visibility,
    SpecType,
    string_views,
    types_view,
    views,
    lemma_views_push,
    opt_string_view,
    SpecParam,
    SpecField,
    SpecMethod,
    SpecMethodSig,
    SpecEnumVariant,
    SpecDeclaration,
    SpecRoute,
};
use crate::grammar::{
    SpecParseError,
    current,
    g_type_list,
    peek,
    tok_at,
    g_param_items,
    g_param,
    g_params,
    skip_to_rangle,
    g_field_or_method,
    g_method,
    g_method_rest,
    g_field,
    type_start,
    field_start,
    Members,
    g_member,
    g_members,
    g_names_rest,
    g_extends,
    g_implements,
    g_class,
    g_class_body,
    g_sig,
    g_sigs,
    g_interface,
    g_variant,
    g_variants,
    g_enum,
    g_test_decl,
    g_declaration,
    g_server_items,
    g_server,
    g_route,
    g_package,
    g_imports,
    AppItems,
    g_app_item,
    g_app_items,
    g_program,
    g_app,
    g_lib_decls,
    g_lib,
};

use crate::token::{Token};

use super::{
    ParseError,
    Parser,
    imports_res,
    lemma_adv,
    members_view,
    opt_string_res,
    res_unit_server,
    res_view,
    strings_res,
    types_res,
    vec_res,
    res_port,
};

verus! {

impl Parser {
    // ── Parameter list ──────────────────────────────────────────────────────
    pub(crate) fn parse_params(&mut self) -> (r: Result<Vec<Param>, ParseError>)
        requires
            old(self).wf(),
        ensures
            Parser::follows(*old(self), *final(self)),
            r is Ok ==> old(self).pstate().pos < final(self).pstate().pos,
            vec_res(r) == g_params(old(self).toks(), old(self).pstate()).0,
            final(self).pstate() == g_params(old(self).toks(), old(self).pstate()).1,
    {
        let ghost toks = self.toks();
        proof {
            lemma_adv(toks, self.pstate());
        }
        self.expect(&Token::LParen)?;
        let params = self.parse_param_items()?;
        self.expect(&Token::RParen)?;
        Ok(params)
    }

    /// Parameters up to (not including) `)` or the end.
    pub(crate) fn parse_param_items(&mut self) -> (r: Result<Vec<Param>, ParseError>)
        requires
            old(self).wf(),
        ensures
            Parser::follows(*old(self), *final(self)),
            vec_res(r) == g_param_items(old(self).toks(), old(self).pstate(), Seq::empty()).0,
            final(self).pstate() == g_param_items(old(self).toks(), old(self).pstate(), Seq::empty()).1,
    {
        let ghost toks = self.toks();
        let mut params: Vec<Param> = Vec::new();
        assert(views(params@) =~= Seq::<SpecParam>::empty());
        while !matches!(self.peek(), Token::RParen | Token::Eof)
            invariant
                Parser::follows(*old(self), *self),
                toks == self.toks(),
                g_param_items(toks, old(self).pstate(), Seq::empty()) == g_param_items(
                    toks,
                    self.pstate(),
                    views(params@),
                ),
            decreases self.toks().len() - self.pstate().pos,
        {
            let p = self.parse_param()?;
            if matches!(self.peek(), Token::Comma) {
                self.advance();
            }
            proof {
                lemma_views_push(params@, p);
            }
            params.push(p);
        }
        Ok(params)
    }

    /// One parameter `name: Type`.
    pub(crate) fn parse_param(&mut self) -> (r: Result<Param, ParseError>)
        requires
            old(self).wf(),
        ensures
            Parser::follows(*old(self), *final(self)),
            r is Ok ==> old(self).pstate().pos < final(self).pstate().pos,
            res_view(r) == g_param(old(self).toks(), old(self).pstate()).0,
            final(self).pstate() == g_param(old(self).toks(), old(self).pstate()).1,
    {
        reveal(g_param);
        let name = self.expect_ident()?;
        self.expect(&Token::Colon)?;
        let ty = self.parse_type()?;
        Ok(Param { name, ty })
    }

    /// A method with visibility `vis`: `[async] name[<...>](params) => Type { body }`.
    pub(crate) fn parse_method(&mut self, vis: Visibility) -> (r: Result<Method, ParseError>)
        requires
            old(self).wf(),
        ensures
            Parser::follows(*old(self), *final(self)),
            r is Ok ==> old(self).pstate().pos < final(self).pstate().pos,
            res_view(r) == g_method(old(self).toks(), old(self).pstate(), vis).0,
            final(self).pstate() == g_method(old(self).toks(), old(self).pstate(), vis).1,
    {
        reveal(g_method);
        let ghost toks = self.toks();
        proof {
            lemma_adv(toks, self.pstate());
        }
        // Optional `async` modifier before the method name.
        let is_async = if matches!(self.peek(), Token::Async) {
            self.advance();
            true
        } else {
            false
        };
        let name = self.expect_ident()?;
        // Optional generic type params: method<T, U>(...)  — consumed and discarded.
        if matches!(self.peek(), Token::LAngle) {
            proof {
                lemma_adv(toks, self.pstate());
            }
            self.advance();
            self.skip_generic_params();
            self.expect(&Token::RAngle)?;
        }
        self.parse_method_rest(vis, is_async, name)
    }

    /// Skip tokens up to the next `>` or the end.
    pub(crate) fn skip_generic_params(&mut self)
        requires
            old(self).wf(),
        ensures
            Parser::follows(*old(self), *final(self)),
            final(self).pstate() == skip_to_rangle(old(self).toks(), old(self).pstate()),
    {
        let ghost toks = self.toks();
        while !matches!(self.peek(), Token::RAngle | Token::Eof)
            invariant
                Parser::follows(*old(self), *self),
                toks == self.toks(),
                skip_to_rangle(toks, old(self).pstate()) == skip_to_rangle(toks, self.pstate()),
            decreases self.toks().len() - self.pstate().pos,
        {
            proof {
                lemma_adv(toks, self.pstate());
            }
            self.advance();
        }
    }

    /// The parameters, return type and body of a method.
    pub(crate) fn parse_method_rest(&mut self, vis: Visibility, is_async: bool, name: String) -> (r: Result<
        Method,
        ParseError,
    >)
        requires
            old(self).wf(),
        ensures
            Parser::follows(*old(self), *final(self)),
            res_view(r) == g_method_rest(old(self).toks(), old(self).pstate(), vis, is_async, name@).0,
            final(self).pstate() == g_method_rest(old(self).toks(), old(self).pstate(), vis, is_async, name@).1,
    {
        reveal(g_method_rest);
        let params = self.parse_params()?;
        self.expect(&Token::FatArrow)?;
        let return_type = self.parse_type()?;
        let body = self.parse_block()?;
        Ok(Method { visibility: vis, is_async, name, params, return_type, body })
    }

    /// A field `Type name;` with visibility `vis`.
    pub(crate) fn parse_field(&mut self, vis: Visibility) -> (r: Result<Field, ParseError>)
        requires
            old(self).wf(),
        ensures
            Parser::follows(*old(self), *final(self)),
            r is Ok ==> old(self).pstate().pos < final(self).pstate().pos,
            res_view(r) == g_field(old(self).toks(), old(self).pstate(), vis).0,
            final(self).pstate() == g_field(old(self).toks(), old(self).pstate(), vis).1,
    {
        reveal(g_field);
        let ty = self.parse_type()?;
        let name = self.expect_ident()?;
        self.expect(&Token::Semicolon)?;
        Ok(Field { visibility: vis, ty, name })
    }

    pub(crate) fn is_type_start(&self) -> (b: bool)
        requires
            self.wf(),
        ensures
            b == type_start(peek(self.toks(), self.pstate())),
    {
        matches!(
            self.peek(),
            Token::TInt | Token::TString | Token::TBool | Token::TVoid | Token::TList | Token::LParen  // function-typed field: (T) => R fieldName;
        )
    }

    /// Returns `true` when the current token is a custom-type identifier that starts
    /// a **field declaration** (not a method).  Uses 2-token lookahead: the current
    /// token must be an `Ident` (the type name, e.g. `T` or `MyClass`) and the next
    /// token must also be an `Ident` (the field name).  This distinguishes
    /// `private T value;` (field) from `private render()` (method).
    pub(crate) fn is_custom_type_field_start(&self) -> (b: bool)
        requires
            self.wf(),
        ensures
            b == (peek(self.toks(), self.pstate()) is Ident && tok_at(self.toks(), self.pstate().pos + 1) is Ident),
    {
        if matches!(self.peek(), Token::Ident(_)) {
            return matches!(self.peek_next(), Some(Token::Ident(_)));
        }
        false
    }

    /// The optional `extends Base`.
    pub(crate) fn parse_extends(&mut self) -> (r: Result<Option<String>, ParseError>)
        requires
            old(self).wf(),
        ensures
            Parser::follows(*old(self), *final(self)),
            opt_string_res(r) == g_extends(old(self).toks(), old(self).pstate()).0,
            final(self).pstate() == g_extends(old(self).toks(), old(self).pstate()).1,
    {
        if matches!(self.peek(), Token::Extends) {
            self.advance();
            return Ok(Some(self.expect_ident()?));
        }
        Ok(None)
    }

    /// The optional `implements A, B`.
    pub(crate) fn parse_implements(&mut self) -> (r: Result<Vec<String>, ParseError>)
        requires
            old(self).wf(),
        ensures
            Parser::follows(*old(self), *final(self)),
            strings_res(r) == g_implements(old(self).toks(), old(self).pstate()).0,
            final(self).pstate() == g_implements(old(self).toks(), old(self).pstate()).1,
    {
        let ghost toks = self.toks();
        let mut implements: Vec<String> = Vec::new();
        if !matches!(self.peek(), Token::Implements) {
            assert(string_views(implements@) =~= Seq::<Seq<char>>::empty());
            return Ok(implements);
        }
        self.advance();
        let first = self.expect_ident()?;
        implements.push(first);
        assert(string_views(implements@) =~= seq![first@]);
        while matches!(self.peek(), Token::Comma)
            invariant
                Parser::follows(*old(self), *self),
                toks == self.toks(),
                g_implements(toks, old(self).pstate()) == g_names_rest(
                    toks,
                    self.pstate(),
                    string_views(implements@),
                ),
            decreases self.toks().len() - self.pstate().pos,
        {
            let ghost st = self.pstate();
            proof {
                lemma_adv(toks, st);
            }
            self.advance();
            proof {
                lemma_adv(toks, self.pstate());
            }
            let n = self.expect_ident()?;
            let ghost prev = implements@;
            implements.push(n);
            assert(string_views(implements@) =~= string_views(prev).push(n@));
        }
        Ok(implements)
    }

    // ── Class / Component / Window ──────────────────────────────────────────
    pub(crate) fn parse_class(&mut self) -> (r: Result<ClassDecl, ParseError>)
        requires
            old(self).wf(),
        ensures
            Parser::follows(*old(self), *final(self)),
            r is Ok ==> old(self).pstate().pos < final(self).pstate().pos,
            res_view(r) == g_class(old(self).toks(), old(self).pstate()).0,
            final(self).pstate() == g_class(old(self).toks(), old(self).pstate()).1,
    {
        reveal(g_class);
        proof {
            lemma_adv(self.toks(), self.pstate());
        }
        let kind = match self.peek() {
            Token::Class => {
                self.advance();
                ClassKind::Class
            },
            Token::Component => {
                self.advance();
                ClassKind::Component
            },
            Token::Window => {
                self.advance();
                ClassKind::Window
            },
            _ => {
                let s = self.peek_spanned();
                return Err(ParseError::Unexpected(s.token, s.span));
            },
        };
        let name = self.expect_ident()?;
        let type_params = self.parse_type_params()?;
        let extends = self.parse_extends()?;
        let implements = self.parse_implements()?;
        let head = ClassDecl {
            visibility: Visibility::Public,
            kind,
            name,
            type_params,
            extends,
            implements,
            fields: Vec::new(),
            constructor: None,
            methods: Vec::new(),
        };
        assert(views(head.fields@) =~= Seq::<SpecField>::empty());
        assert(views(head.methods@) =~= Seq::<SpecMethod>::empty());
        self.parse_class_body(head)
    }

    /// `{ members }` of a class whose header is `head`.
    pub(crate) fn parse_class_body(&mut self, head: ClassDecl) -> (r: Result<ClassDecl, ParseError>)
        requires
            old(self).wf(),
        ensures
            Parser::follows(*old(self), *final(self)),
            res_view(r) == g_class_body(old(self).toks(), old(self).pstate(), head@).0,
            final(self).pstate() == g_class_body(old(self).toks(), old(self).pstate(), head@).1,
    {
        reveal(g_class_body);
        self.expect(&Token::LBrace)?;
        let (fields, constructor, methods) = self.parse_members()?;
        self.expect(&Token::RBrace)?;
        Ok(ClassDecl { fields, constructor, methods, ..head })
    }

    /// Class members up to (not including) `}` or the end.
    pub(crate) fn parse_members(&mut self) -> (r: Result<(Vec<Field>, Option<Constructor>, Vec<Method>), ParseError>)
        requires
            old(self).wf(),
        ensures
            Parser::follows(*old(self), *final(self)),
            ({
                let g = g_members(
                    old(self).toks(),
                    old(self).pstate(),
                    Members { fields: Seq::empty(), constructor: None, methods: Seq::empty() },
                );
                &&& final(self).pstate() == g.1
                &&& r matches Ok(m) ==> g.0 == Ok::<Members, SpecParseError>(members_view(m.0@, m.1, m.2@))
                &&& r matches Err(e) ==> g.0 == Err::<Members, SpecParseError>(e@)
            }),
    {
        let ghost toks = self.toks();
        let mut fields: Vec<Field> = Vec::new();
        let mut constructor: Option<Constructor> = None;
        let mut methods: Vec<Method> = Vec::new();
        assert(views(fields@) =~= Seq::<SpecField>::empty());
        assert(views(methods@) =~= Seq::<SpecMethod>::empty());
        while !matches!(self.peek(), Token::RBrace | Token::Eof)
            invariant
                Parser::follows(*old(self), *self),
                toks == self.toks(),
                g_members(
                    toks,
                    old(self).pstate(),
                    Members { fields: Seq::empty(), constructor: None, methods: Seq::empty() },
                ) == g_members(toks, self.pstate(), members_view(fields@, constructor, methods@)),
            decreases self.toks().len() - self.pstate().pos,
        {
            self.parse_member(&mut fields, &mut constructor, &mut methods)?;
        }
        Ok((fields, constructor, methods))
    }

    /// One class member, added to `fields`, `constructor` or `methods`.
    pub(crate) fn parse_member(
        &mut self,
        fields: &mut Vec<Field>,
        constructor: &mut Option<Constructor>,
        methods: &mut Vec<Method>,
    ) -> (r: Result<(), ParseError>)
        requires
            old(self).wf(),
        ensures
            Parser::follows(*old(self), *final(self)),
            r is Ok ==> old(self).pstate().pos < final(self).pstate().pos,
            ({
                let g = g_member(
                    old(self).toks(),
                    old(self).pstate(),
                    members_view(old(fields)@, *old(constructor), old(methods)@),
                );
                &&& final(self).pstate() == g.1
                &&& r is Ok ==> g.0 == Ok::<Members, SpecParseError>(
                    members_view(final(fields)@, *final(constructor), final(methods)@),
                )
                &&& r matches Err(e) ==> g.0 == Err::<Members, SpecParseError>(e@)
            }),
    {
        reveal(g_member);
        let ghost toks = self.toks();
        proof {
            lemma_adv(toks, self.pstate());
        }
        if matches!(self.peek(), Token::Constructor) {
            self.advance();
            let params = self.parse_params()?;
            let body = self.parse_block()?;
            *constructor = Some(Constructor { params, body });
            return Ok(());
        }
        if matches!(self.peek(), Token::Public | Token::Private) {
            let vis = self.parse_visibility();
            return self.parse_field_or_method(vis, fields, constructor, methods);
        }
        if self.is_type_start_or_field() {
            return self.parse_field_or_method(Visibility::Private, fields, constructor, methods);
        }
        if matches!(self.peek(), Token::Async | Token::Ident(_)) {
            return self.parse_field_or_method(Visibility::Public, fields, constructor, methods);
        }
        let s = self.peek_spanned();
        Err(ParseError::Unexpected(s.token, s.span))
    }

    /// A field if one starts here, else a method, with visibility `vis`.
    pub(crate) fn parse_field_or_method(
        &mut self,
        vis: Visibility,
        fields: &mut Vec<Field>,
        constructor: &Option<Constructor>,
        methods: &mut Vec<Method>,
    ) -> (r: Result<(), ParseError>)
        requires
            old(self).wf(),
        ensures
            Parser::follows(*old(self), *final(self)),
            r is Ok ==> old(self).pstate().pos < final(self).pstate().pos,
            ({
                let g = g_field_or_method(
                    old(self).toks(),
                    old(self).pstate(),
                    vis,
                    members_view(old(fields)@, *constructor, old(methods)@),
                );
                &&& final(self).pstate() == g.1
                &&& r is Ok ==> g.0 == Ok::<Members, SpecParseError>(
                    members_view(final(fields)@, *constructor, final(methods)@),
                )
                &&& r matches Err(e) ==> g.0 == Err::<Members, SpecParseError>(e@)
            }),
    {
        reveal(g_field_or_method);
        if self.is_type_start_or_field() {
            let f = self.parse_field(vis)?;
            proof {
                lemma_views_push(fields@, f);
            }
            fields.push(f);
        } else {
            // Handles both `public async fn` and `public fn`
            let m = self.parse_method(vis)?;
            proof {
                lemma_views_push(methods@, m);
            }
            methods.push(m);
        }
        Ok(())
    }

    pub(crate) fn is_type_start_or_field(&self) -> (b: bool)
        requires
            self.wf(),
        ensures
            b == field_start(self.toks(), self.pstate()),
    {
        self.is_type_start() || self.is_custom_type_field_start()
    }

    // ── Interface ───────────────────────────────────────────────────────────
    pub(crate) fn parse_interface(&mut self) -> (r: Result<InterfaceDecl, ParseError>)
        requires
            old(self).wf(),
        ensures
            Parser::follows(*old(self), *final(self)),
            r is Ok ==> old(self).pstate().pos < final(self).pstate().pos,
            res_view(r) == g_interface(old(self).toks(), old(self).pstate()).0,
            final(self).pstate() == g_interface(old(self).toks(), old(self).pstate()).1,
    {
        reveal(g_interface);
        proof {
            lemma_adv(self.toks(), self.pstate());
        }
        let ghost toks = self.toks();
        self.expect(&Token::Interface)?;
        let name = self.expect_ident()?;
        let type_params = self.parse_type_params()?;
        self.expect(&Token::LBrace)?;
        let methods = self.parse_sigs()?;
        self.expect(&Token::RBrace)?;
        Ok(InterfaceDecl { visibility: Visibility::Public, name, type_params, methods })
    }

    /// Method signatures up to (not including) `}` or the end.
    pub(crate) fn parse_sigs(&mut self) -> (r: Result<Vec<MethodSig>, ParseError>)
        requires
            old(self).wf(),
        ensures
            Parser::follows(*old(self), *final(self)),
            vec_res(r) == g_sigs(old(self).toks(), old(self).pstate(), Seq::empty()).0,
            final(self).pstate() == g_sigs(old(self).toks(), old(self).pstate(), Seq::empty()).1,
    {
        let ghost toks = self.toks();
        let mut methods: Vec<MethodSig> = Vec::new();
        assert(views(methods@) =~= Seq::<SpecMethodSig>::empty());
        while !matches!(self.peek(), Token::RBrace | Token::Eof)
            invariant
                Parser::follows(*old(self), *self),
                toks == self.toks(),
                g_sigs(toks, old(self).pstate(), Seq::empty()) == g_sigs(toks, self.pstate(), views(methods@)),
            decreases self.toks().len() - self.pstate().pos,
        {
            let sig = self.parse_sig()?;
            proof {
                lemma_views_push(methods@, sig);
            }
            methods.push(sig);
        }
        Ok(methods)
    }

    /// One interface method signature `name(params) => Type;`.
    pub(crate) fn parse_sig(&mut self) -> (r: Result<MethodSig, ParseError>)
        requires
            old(self).wf(),
        ensures
            Parser::follows(*old(self), *final(self)),
            r is Ok ==> old(self).pstate().pos < final(self).pstate().pos,
            res_view(r) == g_sig(old(self).toks(), old(self).pstate()).0,
            final(self).pstate() == g_sig(old(self).toks(), old(self).pstate()).1,
    {
        reveal(g_sig);
        let method_name = self.expect_ident()?;
        let params = self.parse_params()?;
        self.expect(&Token::FatArrow)?;
        let return_type = self.parse_type()?;
        self.expect(&Token::Semicolon)?;
        Ok(MethodSig { name: method_name, params, return_type })
    }

    // ── Enum declaration ─────────────────────────────────────────────────────
    // enum Color { Red, Green, Blue }
    // enum Shape { Circle(Int), Rectangle(Int, Int), Point }
    pub(crate) fn parse_enum(&mut self) -> (r: Result<EnumDecl, ParseError>)
        requires
            old(self).wf(),
        ensures
            Parser::follows(*old(self), *final(self)),
            r is Ok ==> old(self).pstate().pos < final(self).pstate().pos,
            res_view(r) == g_enum(old(self).toks(), old(self).pstate()).0,
            final(self).pstate() == g_enum(old(self).toks(), old(self).pstate()).1,
    {
        reveal(g_enum);
        proof {
            lemma_adv(self.toks(), self.pstate());
        }
        let ghost toks = self.toks();
        self.expect(&Token::Enum)?;
        let name = self.expect_ident()?;
        self.expect(&Token::LBrace)?;
        let variants = self.parse_variants()?;
        self.expect(&Token::RBrace)?;
        Ok(EnumDecl { visibility: Visibility::Public, name, variants })
    }

    /// Enum variants up to (not including) `}` or the end.
    pub(crate) fn parse_variants(&mut self) -> (r: Result<Vec<EnumVariant>, ParseError>)
        requires
            old(self).wf(),
        ensures
            Parser::follows(*old(self), *final(self)),
            vec_res(r) == g_variants(old(self).toks(), old(self).pstate(), Seq::empty()).0,
            final(self).pstate() == g_variants(old(self).toks(), old(self).pstate(), Seq::empty()).1,
    {
        let ghost toks = self.toks();
        let mut variants: Vec<EnumVariant> = Vec::new();
        assert(views(variants@) =~= Seq::<SpecEnumVariant>::empty());
        while !matches!(self.peek(), Token::RBrace | Token::Eof)
            invariant
                Parser::follows(*old(self), *self),
                toks == self.toks(),
                g_variants(toks, old(self).pstate(), Seq::empty()) == g_variants(
                    toks,
                    self.pstate(),
                    views(variants@),
                ),
            decreases self.toks().len() - self.pstate().pos,
        {
            let v = self.parse_variant()?;
            if matches!(self.peek(), Token::Comma) {
                self.advance();
            }
            proof {
                lemma_views_push(variants@, v);
            }
            variants.push(v);
        }
        Ok(variants)
    }

    /// Types up to (not including) `)` or the end, each optionally followed by `,`.
    pub(crate) fn parse_type_list(&mut self) -> (r: Result<Vec<Type>, ParseError>)
        requires
            old(self).wf(),
        ensures
            Parser::follows(*old(self), *final(self)),
            types_res(r) == g_type_list(old(self).toks(), old(self).pstate(), Seq::empty()).0,
            final(self).pstate() == g_type_list(old(self).toks(), old(self).pstate(), Seq::empty()).1,
    {
        let ghost toks = self.toks();
        let mut flds: Vec<Type> = Vec::new();
        assert(types_view(flds@) =~= Seq::<SpecType>::empty());
        while !matches!(self.peek(), Token::RParen | Token::Eof)
            invariant
                Parser::follows(*old(self), *self),
                toks == self.toks(),
                g_type_list(toks, old(self).pstate(), Seq::empty()) == g_type_list(
                    toks,
                    self.pstate(),
                    types_view(flds@),
                ),
            decreases self.toks().len() - self.pstate().pos,
        {
            let t = self.parse_type()?;
            if matches!(self.peek(), Token::Comma) {
                self.advance();
            }
            let ghost prev = flds@;
            flds.push(t);
            assert(flds@.drop_last() =~= prev);
        }
        Ok(flds)
    }

    /// One enum variant: a name with optional field types.
    pub(crate) fn parse_variant(&mut self) -> (r: Result<EnumVariant, ParseError>)
        requires
            old(self).wf(),
        ensures
            Parser::follows(*old(self), *final(self)),
            r is Ok ==> old(self).pstate().pos < final(self).pstate().pos,
            res_view(r) == g_variant(old(self).toks(), old(self).pstate()).0,
            final(self).pstate() == g_variant(old(self).toks(), old(self).pstate()).1,
    {
        reveal(g_variant);
        let ghost toks = self.toks();
        let vname = self.expect_ident()?;
        let ghost s1 = self.pstate();
        proof {
            lemma_adv(toks, s1);
        }
        let fields = if matches!(self.peek(), Token::LParen) {
            self.advance();  // (
            let flds = self.parse_type_list()?;
            self.expect(&Token::RParen)?;
            flds
        } else {
            let v: Vec<Type> = Vec::new();
            assert(types_view(v@) =~= Seq::<SpecType>::empty());
            v
        };
        Ok(EnumVariant { name: vname, fields })
    }

    // ── Test declaration ─────────────────────────────────────────────────────
    // test "description" { stmts }
    pub(crate) fn parse_test_decl(&mut self) -> (r: Result<Declaration, ParseError>)
        requires
            old(self).wf(),
        ensures
            Parser::follows(*old(self), *final(self)),
            r is Ok ==> old(self).pstate().pos < final(self).pstate().pos,
            res_view(r) == g_test_decl(old(self).toks(), old(self).pstate()).0,
            final(self).pstate() == g_test_decl(old(self).toks(), old(self).pstate()).1,
    {
        reveal(g_test_decl);
        proof {
            lemma_adv(self.toks(), self.pstate());
        }
        let ghost toks = self.toks();
        self.expect(&Token::Test)?;
        let name = match self.peek() {
            Token::StringLit(s) => s.clone(),
            _ => {
                let s = self.peek_spanned();
                return Err(ParseError::Expected("test name string".to_owned(), s.token, s.span));
            },
        };
        self.advance();
        let body = self.parse_block()?;
        Ok(Declaration::Test(TestDecl { name, body }))
    }

    // ── Declaration (class | interface | enum) ──────────────────────────────
    pub(crate) fn parse_declaration(&mut self) -> (r: Result<Declaration, ParseError>)
        requires
            old(self).wf(),
        ensures
            Parser::follows(*old(self), *final(self)),
            r is Ok ==> old(self).pstate().pos < final(self).pstate().pos,
            res_view(r) == g_declaration(old(self).toks(), old(self).pstate()).0,
            final(self).pstate() == g_declaration(old(self).toks(), old(self).pstate()).1,
    {
        reveal(g_declaration);
        let vis = self.parse_visibility();
        match self.peek() {
            Token::Interface => {
                let mut iface = self.parse_interface()?;
                iface.visibility = vis;
                Ok(Declaration::Interface(iface))
            },
            Token::Class | Token::Component | Token::Window => {
                let mut cls = self.parse_class()?;
                cls.visibility = vis;
                Ok(Declaration::Class(cls))
            },
            Token::Enum => {
                let mut en = self.parse_enum()?;
                en.visibility = vis;
                Ok(Declaration::Enum(en))
            },
            _ => {
                let s = self.peek_spanned();
                Err(ParseError::Unexpected(s.token, s.span))
            },
        }
    }

    // ── server block ────────────────────────────────────────────────────────
    pub(crate) fn parse_server(&mut self) -> (r: Result<ServerConfig, ParseError>)
        requires
            old(self).wf(),
        ensures
            Parser::follows(*old(self), *final(self)),
            r is Ok ==> old(self).pstate().pos < final(self).pstate().pos,
            res_unit_server(r) == g_server(old(self).toks(), old(self).pstate()).0,
            final(self).pstate() == g_server(old(self).toks(), old(self).pstate()).1,
    {
        reveal(g_server);
        proof {
            lemma_adv(self.toks(), self.pstate());
        }
        let ghost toks = self.toks();
        self.expect(&Token::Server)?;
        self.expect(&Token::LBrace)?;
        let port = self.parse_server_items(3000)?;
        self.expect(&Token::RBrace)?;
        Ok(ServerConfig { port })
    }

    /// `key: value;` settings of a server block, starting from `port`.
    pub(crate) fn parse_server_items(&mut self, start: u16) -> (r: Result<u16, ParseError>)
        requires
            old(self).wf(),
        ensures
            Parser::follows(*old(self), *final(self)),
            res_port(r) == g_server_items(old(self).toks(), old(self).pstate(), start).0,
            final(self).pstate() == g_server_items(old(self).toks(), old(self).pstate(), start).1,
    {
        let ghost toks = self.toks();
        let mut port = start;
        while !matches!(self.peek(), Token::RBrace | Token::Eof)
            invariant
                Parser::follows(*old(self), *self),
                toks == self.toks(),
                g_server_items(toks, old(self).pstate(), start) == g_server_items(toks, self.pstate(), port),
            decreases self.toks().len() - self.pstate().pos,
        {
            let key = self.expect_ident()?;
            self.expect(&Token::Colon)?;
            let port_key = "port".to_owned();
            if key.eq(&port_key) {
                if let Token::IntLit(n) = self.peek() {
                    let n = *n;
                    self.advance();
                    port = n as u16;
                }
            }
            self.expect(&Token::Semicolon)?;
        }
        Ok(port)
    }

    // ── route ───────────────────────────────────────────────────────────────
    pub(crate) fn parse_route(&mut self) -> (r: Result<Route, ParseError>)
        requires
            old(self).wf(),
        ensures
            Parser::follows(*old(self), *final(self)),
            r is Ok ==> old(self).pstate().pos < final(self).pstate().pos,
            res_view(r) == g_route(old(self).toks(), old(self).pstate()).0,
            final(self).pstate() == g_route(old(self).toks(), old(self).pstate()).1,
    {
        reveal(g_route);
        proof {
            lemma_adv(self.toks(), self.pstate());
        }
        self.expect(&Token::Route)?;
        let path = match self.peek() {
            Token::StringLit(s) => s.clone(),
            _ => {
                let s = self.peek_spanned();
                return Err(ParseError::Expected("string literal".to_owned(), s.token, s.span));
            },
        };
        self.advance();
        self.expect(&Token::FatArrow)?;
        let target = self.expect_ident()?;
        self.expect(&Token::Semicolon)?;
        Ok(Route { path, target })
    }

    /// The optional `package a.b;`.
    pub(crate) fn parse_package(&mut self) -> (r: Result<Option<String>, ParseError>)
        requires
            old(self).wf(),
        ensures
            Parser::follows(*old(self), *final(self)),
            opt_string_res(r) == g_package(old(self).toks(), old(self).pstate()).0,
            final(self).pstate() == g_package(old(self).toks(), old(self).pstate()).1,
    {
        reveal(g_package);
        if matches!(self.peek(), Token::Package) {
            self.advance();
            let p = self.parse_dotted_ident()?;
            self.expect(&Token::Semicolon)?;
            return Ok(Some(p));
        }
        Ok(None)
    }

    /// `import a.b.C;` declarations.
    pub(crate) fn parse_imports(&mut self) -> (r: Result<Vec<ImportDecl>, ParseError>)
        requires
            old(self).wf(),
        ensures
            Parser::follows(*old(self), *final(self)),
            imports_res(r) == g_imports(old(self).toks(), old(self).pstate(), Seq::empty()).0,
            final(self).pstate() == g_imports(old(self).toks(), old(self).pstate(), Seq::empty()).1,
    {
        let ghost toks = self.toks();
        let mut imports: Vec<ImportDecl> = Vec::new();
        assert(views(imports@) =~= Seq::<Seq<char>>::empty());
        while matches!(self.peek(), Token::Import)
            invariant
                Parser::follows(*old(self), *self),
                toks == self.toks(),
                g_imports(toks, old(self).pstate(), Seq::empty()) == g_imports(toks, self.pstate(), views(imports@)),
            decreases self.toks().len() - self.pstate().pos,
        {
            let ghost st = self.pstate();
            proof {
                lemma_adv(toks, st);
            }
            self.advance();
            let path = self.parse_dotted_ident()?;
            self.expect(&Token::Semicolon)?;
            let d = ImportDecl { path };
            proof {
                lemma_views_push(imports@, d);
            }
            imports.push(d);
        }
        Ok(imports)
    }

    // ── Entry point (a full .nx file) ────────────────────────────────────
    /// Parse a program: optional `package`, `import`s, then the mandatory
    /// `app Name { ... }` block.
    pub fn parse(&mut self) -> (r: Result<Program, ParseError>)
        requires
            old(self).wf(),
        ensures
            Parser::follows(*old(self), *final(self)),
            res_view(r) == g_program(old(self).toks(), old(self).pstate()).0,
            final(self).pstate() == g_program(old(self).toks(), old(self).pstate()).1,
    {
        // Optional: package declaration
        let package = self.parse_package()?;
        // Optional: import declarations
        let imports = self.parse_imports()?;
        self.parse_app(package, imports)
    }

    /// The mandatory `app Name { ... }` block.
    pub(crate) fn parse_app(&mut self, package: Option<String>, imports: Vec<ImportDecl>) -> (r: Result<Program, ParseError>)
        requires
            old(self).wf(),
        ensures
            Parser::follows(*old(self), *final(self)),
            res_view(r) == g_app(old(self).toks(), old(self).pstate(), opt_string_view(package), views(imports@)).0,
            final(self).pstate() == g_app(
                old(self).toks(),
                old(self).pstate(),
                opt_string_view(package),
                views(imports@),
            ).1,
    {
        reveal(g_app);
        let ghost toks = self.toks();
        self.expect(&Token::App)?;
        let name = self.expect_ident()?;
        self.expect(&Token::LBrace)?;
        let (server, declarations, routes) = self.parse_app_items()?;
        self.expect(&Token::RBrace)?;
        Ok(Program { name, package, imports, server, declarations, routes })
    }

    /// App block items up to (not including) `}` or the end.
    pub(crate) fn parse_app_items(&mut self) -> (r: Result<(Option<ServerConfig>, Vec<Declaration>, Vec<Route>), ParseError>)
        requires
            old(self).wf(),
        ensures
            Parser::follows(*old(self), *final(self)),
            ({
                let g = g_app_items(
                    old(self).toks(),
                    old(self).pstate(),
                    AppItems { server: None, declarations: Seq::empty(), routes: Seq::empty() },
                );
                &&& final(self).pstate() == g.1
                &&& r matches Ok(x) ==> g.0 == Ok::<AppItems, SpecParseError>(
                    AppItems { server: x.0, declarations: views(x.1@), routes: views(x.2@) },
                )
                &&& r matches Err(e) ==> g.0 == Err::<AppItems, SpecParseError>(e@)
            }),
    {
        let ghost toks = self.toks();
        let mut server: Option<ServerConfig> = None;
        let mut declarations: Vec<Declaration> = Vec::new();
        let mut routes: Vec<Route> = Vec::new();
        assert(views(declarations@) =~= Seq::<SpecDeclaration>::empty());
        assert(views(routes@) =~= Seq::<SpecRoute>::empty());
        while !matches!(self.peek(), Token::RBrace | Token::Eof)
            invariant
                Parser::follows(*old(self), *self),
                toks == self.toks(),
                g_app_items(
                    toks,
                    old(self).pstate(),
                    AppItems { server: None, declarations: Seq::empty(), routes: Seq::empty() },
                ) == g_app_items(
                    toks,
                    self.pstate(),
                    AppItems { server, declarations: views(declarations@), routes: views(routes@) },
                ),
            decreases self.toks().len() - self.pstate().pos,
        {
            self.parse_app_item(&mut server, &mut declarations, &mut routes)?;
        }
        Ok((server, declarations, routes))
    }

    /// One item of an app block.
    pub(crate) fn parse_app_item(
        &mut self,
        server: &mut Option<ServerConfig>,
        declarations: &mut Vec<Declaration>,
        routes: &mut Vec<Route>,
    ) -> (r: Result<(), ParseError>)
        requires
            old(self).wf(),
        ensures
            Parser::follows(*old(self), *final(self)),
            r is Ok ==> old(self).pstate().pos < final(self).pstate().pos,
            ({
                let g = g_app_item(
                    old(self).toks(),
                    old(self).pstate(),
                    AppItems { server: *old(server), declarations: views(old(declarations)@), routes: views(old(routes)@) },
                );
                &&& final(self).pstate() == g.1
                &&& r is Ok ==> g.0 == Ok::<AppItems, SpecParseError>(
                    AppItems { server: *final(server), declarations: views(final(declarations)@), routes: views(final(routes)@) },
                )
                &&& r matches Err(e) ==> g.0 == Err::<AppItems, SpecParseError>(e@)
            }),
    {
        reveal(g_app_item);
        let ghost toks = self.toks();
        proof {
            lemma_adv(toks, self.pstate());
        }
        match self.peek() {
            Token::Server => {
                *server = Some(self.parse_server()?);
            },
            Token::Route => {
                let r = self.parse_route()?;
                proof {
                    lemma_views_push(routes@, r);
                }
                routes.push(r);
            },
            Token::Public | Token::Private | Token::Class | Token::Interface | Token::Component | Token::Window
            | Token::Enum => {
                let d = self.parse_declaration()?;
                proof {
                    lemma_views_push(declarations@, d);
                }
                declarations.push(d);
            },
            _ => {
                let s = self.peek_spanned();
                return Err(ParseError::Unexpected(s.token, s.span));
            },
        }
        Ok(())
    }

    /// Parse a library file: only package + declarations (no `app` block).
    pub fn parse_lib(&mut self) -> (r: Result<Program, ParseError>)
        requires
            old(self).wf(),
        ensures
            Parser::follows(*old(self), *final(self)),
            res_view(r) == g_lib(old(self).toks(), old(self).pstate()).0,
            final(self).pstate() == g_lib(old(self).toks(), old(self).pstate()).1,
    {
        let ghost toks = self.toks();
        let package = self.parse_package()?;
        let imports = self.parse_imports()?;
        let declarations = self.parse_lib_decls()?;
        let routes: Vec<Route> = Vec::new();
        assert(views(routes@) =~= Seq::<SpecRoute>::empty());
        Ok(Program { name: String::new(), package, imports, server: None, declarations, routes })
    }

    /// Declarations and tests of a library file, up to the end.
    pub(crate) fn parse_lib_decls(&mut self) -> (r: Result<Vec<Declaration>, ParseError>)
        requires
            old(self).wf(),
        ensures
            Parser::follows(*old(self), *final(self)),
            vec_res(r) == g_lib_decls(old(self).toks(), old(self).pstate(), Seq::empty()).0,
            final(self).pstate() == g_lib_decls(old(self).toks(), old(self).pstate(), Seq::empty()).1,
    {
        let ghost toks = self.toks();
        let mut declarations: Vec<Declaration> = Vec::new();
        assert(views(declarations@) =~= Seq::<SpecDeclaration>::empty());
        while !matches!(self.peek(), Token::Eof)
            invariant
                Parser::follows(*old(self), *self),
                toks == self.toks(),
                g_lib_decls(toks, old(self).pstate(), Seq::empty()) == g_lib_decls(
                    toks,
                    self.pstate(),
                    views(declarations@),
                ),
            decreases self.toks().len() - self.pstate().pos,
        {
            let d = if matches!(self.peek(), Token::Test) {
                self.parse_test_decl()?
            } else {
                self.parse_declaration()?
            };
            proof {
                lemma_views_push(declarations@, d);
            }
            declarations.push(d);
        }
        Ok(declarations)
    }
}

} // verus!
