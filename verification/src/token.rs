use vstd::prelude::*;
use crate::span::Span;

verus! {

/// A lexical token of the Nexa language.
#[derive(Debug, Clone, PartialEq)]
pub enum Token {
    App,
    Server,
    Route,
    Package,
    Import,
    Class,
    Interface,
    Component,
    Window,
    Public,
    Private,
    Extends,
    Implements,
    Constructor,
    Return,
    This,
    Async,
    Await,
    Enum,
    Match,
    Test,
    If,
    Else,
    For,
    While,
    Break,
    Continue,
    Let,
    In,
    TInt,
    TString,
    TBool,
    TVoid,
    TList,
    LBrace,
    RBrace,
    LParen,
    RParen,
    /// `[`
    LBracket,
    /// `]`
    RBracket,
    /// `<`
    LAngle,
    /// `>`
    RAngle,
    /// `=>`
    FatArrow,
    Semicolon,
    Colon,
    Comma,
    Dot,
    /// `=`
    Equals,
    /// `==`
    EqualEqual,
    /// `!=`
    BangEqual,
    /// `<=`
    LessEqual,
    /// `>=`
    GreaterEqual,
    Plus,
    Minus,
    Star,
    Slash,
    Percent,
    /// `&&`
    And,
    /// `||`
    Or,
    /// `!`
    Bang,
    StringLit(String),
    IntLit(i64),
    BoolLit(bool),
    Ident(String),
    Eof,
}

/// The mathematical value of a [`Token`]: text payloads are character sequences.
pub enum SpecToken {
    App,
    Server,
    Route,
    Package,
    Import,
    Class,
    Interface,
    Component,
    Window,
    Public,
    Private,
    Extends,
    Implements,
    Constructor,
    Return,
    This,
    Async,
    Await,
    Enum,
    Match,
    Test,
    If,
    Else,
    For,
    While,
    Break,
    Continue,
    Let,
    In,
    TInt,
    TString,
    TBool,
    TVoid,
    TList,
    LBrace,
    RBrace,
    LParen,
    RParen,
    LBracket,
    RBracket,
    LAngle,
    RAngle,
    FatArrow,
    Semicolon,
    Colon,
    Comma,
    Dot,
    Equals,
    EqualEqual,
    BangEqual,
    LessEqual,
    GreaterEqual,
    Plus,
    Minus,
    Star,
    Slash,
    Percent,
    And,
    Or,
    Bang,
    StringLit(Seq<char>),
    IntLit(i64),
    BoolLit(bool),
    Ident(Seq<char>),
    Eof,
}

impl View for Token {
    type V = SpecToken;

    open spec fn view(&self) -> SpecToken {
        match self {
            Token::App => SpecToken::App,
            Token::Server => SpecToken::Server,
            Token::Route => SpecToken::Route,
            Token::Package => SpecToken::Package,
            Token::Import => SpecToken::Import,
            Token::Class => SpecToken::Class,
            Token::Interface => SpecToken::Interface,
            Token::Component => SpecToken::Component,
            Token::Window => SpecToken::Window,
            Token::Public => SpecToken::Public,
            Token::Private => SpecToken::Private,
            Token::Extends => SpecToken::Extends,
            Token::Implements => SpecToken::Implements,
            Token::Constructor => SpecToken::Constructor,
            Token::Return => SpecToken::Return,
            Token::This => SpecToken::This,
            Token::Async => SpecToken::Async,
            Token::Await => SpecToken::Await,
            Token::Enum => SpecToken::Enum,
            Token::Match => SpecToken::Match,
            Token::Test => SpecToken::Test,
            Token::If => SpecToken::If,
            Token::Else => SpecToken::Else,
            Token::For => SpecToken::For,
            Token::While => SpecToken::While,
            Token::Break => SpecToken::Break,
            Token::Continue => SpecToken::Continue,
            Token::Let => SpecToken::Let,
            Token::In => SpecToken::In,
            Token::TInt => SpecToken::TInt,
            Token::TString => SpecToken::TString,
            Token::TBool => SpecToken::TBool,
            Token::TVoid => SpecToken::TVoid,
            Token::TList => SpecToken::TList,
            Token::LBrace => SpecToken::LBrace,
            Token::RBrace => SpecToken::RBrace,
            Token::LParen => SpecToken::LParen,
            Token::RParen => SpecToken::RParen,
            Token::LBracket => SpecToken::LBracket,
            Token::RBracket => SpecToken::RBracket,
            Token::LAngle => SpecToken::LAngle,
            Token::RAngle => SpecToken::RAngle,
            Token::FatArrow => SpecToken::FatArrow,
            Token::Semicolon => SpecToken::Semicolon,
            Token::Colon => SpecToken::Colon,
            Token::Comma => SpecToken::Comma,
            Token::Dot => SpecToken::Dot,
            Token::Equals => SpecToken::Equals,
            Token::EqualEqual => SpecToken::EqualEqual,
            Token::BangEqual => SpecToken::BangEqual,
            Token::LessEqual => SpecToken::LessEqual,
            Token::GreaterEqual => SpecToken::GreaterEqual,
            Token::Plus => SpecToken::Plus,
            Token::Minus => SpecToken::Minus,
            Token::Star => SpecToken::Star,
            Token::Slash => SpecToken::Slash,
            Token::Percent => SpecToken::Percent,
            Token::And => SpecToken::And,
            Token::Or => SpecToken::Or,
            Token::Bang => SpecToken::Bang,
            Token::StringLit(s) => SpecToken::StringLit(s@),
            Token::IntLit(n) => SpecToken::IntLit(*n),
            Token::BoolLit(b) => SpecToken::BoolLit(*b),
            Token::Ident(s) => SpecToken::Ident(s@),
            Token::Eof => SpecToken::Eof,
        }
    }
}

impl Token {
    /// A copy of this token with the same value.
    pub fn duplicate(&self) -> (t: Token)
        ensures
            t@ == self@,
    {
        match self {
            Token::App => Token::App,
            Token::Server => Token::Server,
            Token::Route => Token::Route,
            Token::Package => Token::Package,
            Token::Import => Token::Import,
            Token::Class => Token::Class,
            Token::Interface => Token::Interface,
            Token::Component => Token::Component,
            Token::Window => Token::Window,
            Token::Public => Token::Public,
            Token::Private => Token::Private,
            Token::Extends => Token::Extends,
            Token::Implements => Token::Implements,
            Token::Constructor => Token::Constructor,
            Token::Return => Token::Return,
            Token::This => Token::This,
            Token::Async => Token::Async,
            Token::Await => Token::Await,
            Token::Enum => Token::Enum,
            Token::Match => Token::Match,
            Token::Test => Token::Test,
            Token::If => Token::If,
            Token::Else => Token::Else,
            Token::For => Token::For,
            Token::While => Token::While,
            Token::Break => Token::Break,
            Token::Continue => Token::Continue,
            Token::Let => Token::Let,
            Token::In => Token::In,
            Token::TInt => Token::TInt,
            Token::TString => Token::TString,
            Token::TBool => Token::TBool,
            Token::TVoid => Token::TVoid,
            Token::TList => Token::TList,
            Token::LBrace => Token::LBrace,
            Token::RBrace => Token::RBrace,
            Token::LParen => Token::LParen,
            Token::RParen => Token::RParen,
            Token::LBracket => Token::LBracket,
            Token::RBracket => Token::RBracket,
            Token::LAngle => Token::LAngle,
            Token::RAngle => Token::RAngle,
            Token::FatArrow => Token::FatArrow,
            Token::Semicolon => Token::Semicolon,
            Token::Colon => Token::Colon,
            Token::Comma => Token::Comma,
            Token::Dot => Token::Dot,
            Token::Equals => Token::Equals,
            Token::EqualEqual => Token::EqualEqual,
            Token::BangEqual => Token::BangEqual,
            Token::LessEqual => Token::LessEqual,
            Token::GreaterEqual => Token::GreaterEqual,
            Token::Plus => Token::Plus,
            Token::Minus => Token::Minus,
            Token::Star => Token::Star,
            Token::Slash => Token::Slash,
            Token::Percent => Token::Percent,
            Token::And => Token::And,
            Token::Or => Token::Or,
            Token::Bang => Token::Bang,
            Token::StringLit(s) => Token::StringLit(s.clone()),
            Token::IntLit(n) => Token::IntLit(*n),
            Token::BoolLit(b) => Token::BoolLit(*b),
            Token::Ident(s) => Token::Ident(s.clone()),
            Token::Eof => Token::Eof,
        }
    }

    /// Whether two tokens are equal: same kind and same payload.
    pub fn same(&self, other: &Token) -> (b: bool)
        ensures
            b == (self@ == other@),
    {
        match (self, other) {
            (Token::App, Token::App) => true,
            (Token::Server, Token::Server) => true,
            (Token::Route, Token::Route) => true,
            (Token::Package, Token::Package) => true,
            (Token::Import, Token::Import) => true,
            (Token::Class, Token::Class) => true,
            (Token::Interface, Token::Interface) => true,
            (Token::Component, Token::Component) => true,
            (Token::Window, Token::Window) => true,
            (Token::Public, Token::Public) => true,
            (Token::Private, Token::Private) => true,
            (Token::Extends, Token::Extends) => true,
            (Token::Implements, Token::Implements) => true,
            (Token::Constructor, Token::Constructor) => true,
            (Token::Return, Token::Return) => true,
            (Token::This, Token::This) => true,
            (Token::Async, Token::Async) => true,
            (Token::Await, Token::Await) => true,
            (Token::Enum, Token::Enum) => true,
            (Token::Match, Token::Match) => true,
            (Token::Test, Token::Test) => true,
            (Token::If, Token::If) => true,
            (Token::Else, Token::Else) => true,
            (Token::For, Token::For) => true,
            (Token::While, Token::While) => true,
            (Token::Break, Token::Break) => true,
            (Token::Continue, Token::Continue) => true,
            (Token::Let, Token::Let) => true,
            (Token::In, Token::In) => true,
            (Token::TInt, Token::TInt) => true,
            (Token::TString, Token::TString) => true,
            (Token::TBool, Token::TBool) => true,
            (Token::TVoid, Token::TVoid) => true,
            (Token::TList, Token::TList) => true,
            (Token::LBrace, Token::LBrace) => true,
            (Token::RBrace, Token::RBrace) => true,
            (Token::LParen, Token::LParen) => true,
            (Token::RParen, Token::RParen) => true,
            (Token::LBracket, Token::LBracket) => true,
            (Token::RBracket, Token::RBracket) => true,
            (Token::LAngle, Token::LAngle) => true,
            (Token::RAngle, Token::RAngle) => true,
            (Token::FatArrow, Token::FatArrow) => true,
            (Token::Semicolon, Token::Semicolon) => true,
            (Token::Colon, Token::Colon) => true,
            (Token::Comma, Token::Comma) => true,
            (Token::Dot, Token::Dot) => true,
            (Token::Equals, Token::Equals) => true,
            (Token::EqualEqual, Token::EqualEqual) => true,
            (Token::BangEqual, Token::BangEqual) => true,
            (Token::LessEqual, Token::LessEqual) => true,
            (Token::GreaterEqual, Token::GreaterEqual) => true,
            (Token::Plus, Token::Plus) => true,
            (Token::Minus, Token::Minus) => true,
            (Token::Star, Token::Star) => true,
            (Token::Slash, Token::Slash) => true,
            (Token::Percent, Token::Percent) => true,
            (Token::And, Token::And) => true,
            (Token::Or, Token::Or) => true,
            (Token::Bang, Token::Bang) => true,
            (Token::StringLit(a), Token::StringLit(b)) => a.eq(b),
            (Token::IntLit(a), Token::IntLit(b)) => *a == *b,
            (Token::BoolLit(a), Token::BoolLit(b)) => *a == *b,
            (Token::Ident(a), Token::Ident(b)) => a.eq(b),
            (Token::Eof, Token::Eof) => true,
            _ => false,
        }
    }
}

/// A token together with its source location.
#[derive(Debug, Clone)]
pub struct Spanned {
    pub token: Token,
    pub span: Span,
}

/// The mathematical value of a [`Spanned`] token.
pub struct SpecSpanned {
    pub token: SpecToken,
    pub span: Span,
}

impl View for Spanned {
    type V = SpecSpanned;

    open spec fn view(&self) -> SpecSpanned {
        SpecSpanned { token: self.token@, span: self.span }
    }
}

impl Spanned {
    /// A copy of this spanned token with the same value.
    pub fn duplicate(&self) -> (s: Spanned)
        ensures
            s@ == self@,
    {
        Spanned { token: self.token.duplicate(), span: self.span }
    }
}

} // verus!
