//! The Nexa lexer: turns source text into a sequence of spanned tokens.
use vstd::prelude::*;
use crate::grammar::wf_tokens;
use crate::span::Span;
use crate::text::{
    chars_eq, is_alphabetic, is_alphanumeric, is_whitespace, push_char, string_from_chars,
    unicode_alphabetic, unicode_numeric, unicode_whitespace,
};
use crate::token::{SpecSpanned, SpecToken, Spanned, Token};

verus! {

/// Errors reported while lexing.
#[derive(Debug, Clone, Copy, PartialEq, Eq, Structural)]
pub enum LexError {
    /// A character that starts no token, with its position.
    UnexpectedChar(char, Span),
    /// A string literal that reaches a newline or the end of input.
    UnterminatedString(Span),
}

impl LexError {
    /// The position carried by an error.
    pub open spec fn location(self) -> Span {
        match self {
            LexError::UnexpectedChar(_, s) => s,
            LexError::UnterminatedString(s) => s,
        }
    }

    /// The position carried by this error.
    pub fn span(&self) -> (s: Span)
        ensures
            s == self.location(),
    {
        match self {
            LexError::UnexpectedChar(_, s) => *s,
            LexError::UnterminatedString(s) => *s,
        }
    }
}

// ── The lexical grammar, stated over the character sequence ─────────────────

/// Position and 1-based line/column of the lexer within its source.
pub struct LexState {
    pub pos: int,
    pub line: int,
    pub col: int,
}

/// The character at `pos`, if any.
pub open spec fn char_at(chars: Seq<char>, pos: int) -> Option<char> {
    if 0 <= pos < chars.len() {
        Some(chars[pos])
    } else {
        None
    }
}

/// One more, saturating at the largest machine word.
pub open spec fn bump(n: int) -> int {
    if n < usize::MAX {
        n + 1
    } else {
        n
    }
}

/// Consume one character: a newline moves to column 1 of the next line,
/// anything else moves one column right. At the end of input nothing changes.
pub open spec fn step(chars: Seq<char>, st: LexState) -> LexState {
    if 0 <= st.pos < chars.len() {
        if chars[st.pos] == '\n' {
            LexState { pos: st.pos + 1, line: bump(st.line), col: 1 }
        } else {
            LexState { pos: st.pos + 1, line: st.line, col: bump(st.col) }
        }
    } else {
        st
    }
}

/// Consume `n` characters.
pub open spec fn steps(chars: Seq<char>, st: LexState, n: nat) -> LexState
    decreases n,
{
    if n == 0 {
        st
    } else {
        step(chars, steps(chars, st, (n - 1) as nat))
    }
}

/// Skip whitespace and `//` line comments. `in_comment` holds inside a comment,
/// which runs up to (not including) the next newline.
pub open spec fn skip_trivia(chars: Seq<char>, st: LexState, in_comment: bool) -> LexState
    decreases chars.len() - st.pos, (if in_comment { 1int } else { 0int }),
{
    if in_comment {
        match char_at(chars, st.pos) {
            Some(c) => if c != '\n' {
                skip_trivia(chars, step(chars, st), true)
            } else {
                skip_trivia(chars, st, false)
            },
            None => skip_trivia(chars, st, false),
        }
    } else {
        match char_at(chars, st.pos) {
            Some(c) => if unicode_whitespace(c) {
                skip_trivia(chars, step(chars, st), false)
            } else if c == '/' && char_at(chars, st.pos + 1) == Some('/') {
                skip_trivia(chars, step(chars, step(chars, st)), true)
            } else {
                st
            },
            None => st,
        }
    }
}

/// The span of a token starting at `line`/`col` (narrowed to 32 bits).
pub open spec fn mk_span(line: int, col: int, len: u32) -> Span {
    Span { line: line as u32, col: col as u32, len }
}

/// The character an escape sequence `\e` stands for; other escapes are dropped.
pub open spec fn escaped(e: char) -> Option<char> {
    if e == 'n' {
        Some('\n')
    } else if e == 't' {
        Some('\t')
    } else if e == '"' {
        Some('"')
    } else if e == '\\' {
        Some('\\')
    } else {
        None
    }
}

/// The rest of a string literal after its opening quote; `acc` is the text so far
/// and `start` the position of the opening quote.
pub open spec fn scan_string(chars: Seq<char>, st: LexState, acc: Seq<char>, start: LexState) -> Result<
    (SpecToken, LexState),
    LexError,
>
    decreases chars.len() - st.pos,
{
    match char_at(chars, st.pos) {
        None => Err(LexError::UnterminatedString(mk_span(start.line, start.col, 1))),
        Some(c) => if c == '\n' {
            Err(LexError::UnterminatedString(mk_span(start.line, start.col, 1)))
        } else if c == '"' {
            Ok((SpecToken::StringLit(acc), step(chars, st)))
        } else if c == '\\' {
            let s1 = step(chars, st);
            match char_at(chars, s1.pos) {
                None => scan_string(chars, s1, acc, start),
                Some(e) => match escaped(e) {
                    Some(x) => scan_string(chars, step(chars, s1), acc.push(x), start),
                    None => scan_string(chars, step(chars, s1), acc, start),
                },
            }
        } else {
            scan_string(chars, step(chars, st), acc.push(c), start)
        },
    }
}

/// An ASCII decimal digit.
pub open spec fn is_digit(c: char) -> bool {
    '0' <= c && c <= '9'
}

/// Length of the run of ASCII digits starting at `pos`.
pub open spec fn digits_len(chars: Seq<char>, pos: int) -> nat
    decreases chars.len() - pos,
{
    if 0 <= pos < chars.len() && is_digit(chars[pos]) {
        1 + digits_len(chars, pos + 1)
    } else {
        0
    }
}

/// A character that may continue an identifier.
pub open spec fn is_ident_char(c: char) -> bool {
    unicode_alphabetic(c) || unicode_numeric(c) || c == '_'
}

/// Length of the run of identifier characters starting at `pos`.
pub open spec fn ident_len(chars: Seq<char>, pos: int) -> nat
    decreases chars.len() - pos,
{
    if 0 <= pos < chars.len() && is_ident_char(chars[pos]) {
        1 + ident_len(chars, pos + 1)
    } else {
        0
    }
}

/// The value of a digit character.
pub open spec fn digit_value(c: char) -> int {
    (c as int) - ('0' as int)
}

/// The decimal number written by a digit sequence.
pub open spec fn decimal_value(s: Seq<char>) -> int
    decreases s.len(),
{
    if s.len() == 0 {
        0
    } else {
        decimal_value(s.drop_last()) * 10 + digit_value(s.last())
    }
}

/// The integer literal a digit sequence denotes: its value when it fits in
/// `i64`, and 0 when it does not.
pub open spec fn int_literal_value(s: Seq<char>) -> i64 {
    if decimal_value(s) <= i64::MAX {
        decimal_value(s) as i64
    } else {
        0
    }
}

/// The token an identifier-shaped word stands for: a keyword, a type name,
/// a boolean literal, or a plain identifier.
pub open spec fn keyword_or_ident(s: Seq<char>) -> SpecToken {
    if s == "app"@ { SpecToken::App }
    else if s == "server"@ { SpecToken::Server }
    else if s == "route"@ { SpecToken::Route }
    else if s == "package"@ { SpecToken::Package }
    else if s == "import"@ { SpecToken::Import }
    else if s == "class"@ { SpecToken::Class }
    else if s == "interface"@ { SpecToken::Interface }
    else if s == "component"@ { SpecToken::Component }
    else if s == "window"@ { SpecToken::Window }
    else if s == "public"@ { SpecToken::Public }
    else if s == "private"@ { SpecToken::Private }
    else if s == "extends"@ { SpecToken::Extends }
    else if s == "implements"@ { SpecToken::Implements }
    else if s == "constructor"@ { SpecToken::Constructor }
    else if s == "return"@ { SpecToken::Return }
    else if s == "this"@ { SpecToken::This }
    else if s == "if"@ { SpecToken::If }
    else if s == "else"@ { SpecToken::Else }
    else if s == "for"@ { SpecToken::For }
    else if s == "while"@ { SpecToken::While }
    else if s == "break"@ { SpecToken::Break }
    else if s == "continue"@ { SpecToken::Continue }
    else if s == "async"@ { SpecToken::Async }
    else if s == "await"@ { SpecToken::Await }
    else if s == "enum"@ { SpecToken::Enum }
    else if s == "match"@ { SpecToken::Match }
    else if s == "test"@ { SpecToken::Test }
    else if s == "let"@ { SpecToken::Let }
    else if s == "in"@ { SpecToken::In }
    else if s == "Int"@ { SpecToken::TInt }
    else if s == "String"@ { SpecToken::TString }
    else if s == "Bool"@ { SpecToken::TBool }
    else if s == "Void"@ { SpecToken::TVoid }
    else if s == "List"@ { SpecToken::TList }
    else if s == "true"@ { SpecToken::BoolLit(true) }
    else if s == "false"@ { SpecToken::BoolLit(false) }
    else { SpecToken::Ident(s) }
}

/// How a reserved word is written in source: each keyword, built-in type
/// name and boolean literal; `None` for the other tokens.
pub open spec fn keyword_text(t: SpecToken) -> Option<Seq<char>> {
    match t {
        SpecToken::App => Some("app"@),
        SpecToken::Server => Some("server"@),
        SpecToken::Route => Some("route"@),
        SpecToken::Package => Some("package"@),
        SpecToken::Import => Some("import"@),
        SpecToken::Class => Some("class"@),
        SpecToken::Interface => Some("interface"@),
        SpecToken::Component => Some("component"@),
        SpecToken::Window => Some("window"@),
        SpecToken::Public => Some("public"@),
        SpecToken::Private => Some("private"@),
        SpecToken::Extends => Some("extends"@),
        SpecToken::Implements => Some("implements"@),
        SpecToken::Constructor => Some("constructor"@),
        SpecToken::Return => Some("return"@),
        SpecToken::This => Some("this"@),
        SpecToken::If => Some("if"@),
        SpecToken::Else => Some("else"@),
        SpecToken::For => Some("for"@),
        SpecToken::While => Some("while"@),
        SpecToken::Break => Some("break"@),
        SpecToken::Continue => Some("continue"@),
        SpecToken::Async => Some("async"@),
        SpecToken::Await => Some("await"@),
        SpecToken::Enum => Some("enum"@),
        SpecToken::Match => Some("match"@),
        SpecToken::Test => Some("test"@),
        SpecToken::Let => Some("let"@),
        SpecToken::In => Some("in"@),
        SpecToken::TInt => Some("Int"@),
        SpecToken::TString => Some("String"@),
        SpecToken::TBool => Some("Bool"@),
        SpecToken::TVoid => Some("Void"@),
        SpecToken::TList => Some("List"@),
        SpecToken::BoolLit(true) => Some("true"@),
        SpecToken::BoolLit(false) => Some("false"@),
        _ => None,
    }
}

/// The reserved words: the spelling of each keyword, type name or boolean
/// literal is read as that token and never as an identifier; a word read as
/// anything but an identifier is the spelling of the token it is read as;
/// every other word is an identifier of its own text.
pub proof fn lemma_reserved_words(t: SpecToken, w: Seq<char>)
    ensures
        keyword_text(t) matches Some(k) ==> keyword_or_ident(k) == t,
        !(keyword_or_ident(w) is Ident) ==> keyword_text(keyword_or_ident(w)) == Some(w),
        keyword_or_ident(w) is Ident ==> keyword_or_ident(w) == SpecToken::Ident(w),
{
    reveal_strlit("app");
    reveal_strlit("server");
    reveal_strlit("route");
    reveal_strlit("package");
    reveal_strlit("import");
    reveal_strlit("class");
    reveal_strlit("interface");
    reveal_strlit("component");
    reveal_strlit("window");
    reveal_strlit("public");
    reveal_strlit("private");
    reveal_strlit("extends");
    reveal_strlit("implements");
    reveal_strlit("constructor");
    reveal_strlit("return");
    reveal_strlit("this");
    reveal_strlit("if");
    reveal_strlit("else");
    reveal_strlit("for");
    reveal_strlit("while");
    reveal_strlit("break");
    reveal_strlit("continue");
    reveal_strlit("async");
    reveal_strlit("await");
    reveal_strlit("enum");
    reveal_strlit("match");
    reveal_strlit("test");
    reveal_strlit("let");
    reveal_strlit("in");
    reveal_strlit("Int");
    reveal_strlit("String");
    reveal_strlit("Bool");
    reveal_strlit("Void");
    reveal_strlit("List");
    reveal_strlit("true");
    reveal_strlit("false");
    assert("app"@.len() == 3 && "app"@[0] == 'a' && "app"@[1] == 'p');
    assert("server"@.len() == 6 && "server"@[0] == 's' && "server"@[1] == 'e');
    assert("route"@.len() == 5 && "route"@[0] == 'r' && "route"@[1] == 'o');
    assert("package"@.len() == 7 && "package"@[0] == 'p' && "package"@[1] == 'a');
    assert("import"@.len() == 6 && "import"@[0] == 'i' && "import"@[1] == 'm');
    assert("class"@.len() == 5 && "class"@[0] == 'c' && "class"@[1] == 'l');
    assert("interface"@.len() == 9 && "interface"@[0] == 'i' && "interface"@[1] == 'n');
    assert("component"@.len() == 9 && "component"@[0] == 'c' && "component"@[1] == 'o');
    assert("window"@.len() == 6 && "window"@[0] == 'w' && "window"@[1] == 'i');
    assert("public"@.len() == 6 && "public"@[0] == 'p' && "public"@[1] == 'u');
    assert("private"@.len() == 7 && "private"@[0] == 'p' && "private"@[1] == 'r');
    assert("extends"@.len() == 7 && "extends"@[0] == 'e' && "extends"@[1] == 'x');
    assert("implements"@.len() == 10 && "implements"@[0] == 'i' && "implements"@[1] == 'm');
    assert("constructor"@.len() == 11 && "constructor"@[0] == 'c' && "constructor"@[1] == 'o');
    assert("return"@.len() == 6 && "return"@[0] == 'r' && "return"@[1] == 'e');
    assert("this"@.len() == 4 && "this"@[0] == 't' && "this"@[1] == 'h');
    assert("if"@.len() == 2 && "if"@[0] == 'i' && "if"@[1] == 'f');
    assert("else"@.len() == 4 && "else"@[0] == 'e' && "else"@[1] == 'l');
    assert("for"@.len() == 3 && "for"@[0] == 'f' && "for"@[1] == 'o');
    assert("while"@.len() == 5 && "while"@[0] == 'w' && "while"@[1] == 'h');
    assert("break"@.len() == 5 && "break"@[0] == 'b' && "break"@[1] == 'r');
    assert("continue"@.len() == 8 && "continue"@[0] == 'c' && "continue"@[1] == 'o');
    assert("async"@.len() == 5 && "async"@[0] == 'a' && "async"@[1] == 's');
    assert("await"@.len() == 5 && "await"@[0] == 'a' && "await"@[1] == 'w');
    assert("enum"@.len() == 4 && "enum"@[0] == 'e' && "enum"@[1] == 'n');
    assert("match"@.len() == 5 && "match"@[0] == 'm' && "match"@[1] == 'a');
    assert("test"@.len() == 4 && "test"@[0] == 't' && "test"@[1] == 'e');
    assert("let"@.len() == 3 && "let"@[0] == 'l' && "let"@[1] == 'e');
    assert("in"@.len() == 2 && "in"@[0] == 'i' && "in"@[1] == 'n');
    assert("Int"@.len() == 3 && "Int"@[0] == 'I' && "Int"@[1] == 'n');
    assert("String"@.len() == 6 && "String"@[0] == 'S' && "String"@[1] == 't');
    assert("Bool"@.len() == 4 && "Bool"@[0] == 'B' && "Bool"@[1] == 'o');
    assert("Void"@.len() == 4 && "Void"@[0] == 'V' && "Void"@[1] == 'o');
    assert("List"@.len() == 4 && "List"@[0] == 'L' && "List"@[1] == 'i');
    assert("true"@.len() == 4 && "true"@[0] == 't' && "true"@[1] == 'r');
    assert("false"@.len() == 5 && "false"@[0] == 'f' && "false"@[1] == 'a');
}

/// The token of a character that forms a token on its own.
pub open spec fn single_symbol(c: char) -> Option<SpecToken> {
    if c == '[' { Some(SpecToken::LBracket) }
    else if c == ']' { Some(SpecToken::RBracket) }
    else if c == '{' { Some(SpecToken::LBrace) }
    else if c == '}' { Some(SpecToken::RBrace) }
    else if c == '(' { Some(SpecToken::LParen) }
    else if c == ')' { Some(SpecToken::RParen) }
    else if c == ';' { Some(SpecToken::Semicolon) }
    else if c == ':' { Some(SpecToken::Colon) }
    else if c == ',' { Some(SpecToken::Comma) }
    else if c == '.' { Some(SpecToken::Dot) }
    else if c == '+' { Some(SpecToken::Plus) }
    else if c == '-' { Some(SpecToken::Minus) }
    else if c == '*' { Some(SpecToken::Star) }
    else if c == '%' { Some(SpecToken::Percent) }
    else if c == '/' { Some(SpecToken::Slash) }
    else { None }
}

/// An operator that is `first` alone, or `two` when `first` is followed by `second`.
pub open spec fn one_or_two(
    chars: Seq<char>,
    st: LexState,
    second: char,
    two: SpecToken,
    one: SpecToken,
) -> (SpecToken, LexState) {
    let s1 = step(chars, st);
    if char_at(chars, s1.pos) == Some(second) {
        (two, step(chars, s1))
    } else {
        (one, s1)
    }
}

/// The token that starts at `st` (which is not at the end of input) and the
/// state after it.
pub open spec fn scan_token(chars: Seq<char>, st: LexState) -> Result<(SpecToken, LexState), LexError> {
    let c = chars[st.pos];
    if c == '"' {
        scan_string(chars, step(chars, st), Seq::empty(), st)
    } else if is_digit(c) {
        let n = digits_len(chars, st.pos);
        Ok((SpecToken::IntLit(int_literal_value(chars.subrange(st.pos, st.pos + n))), steps(chars, st, n)))
    } else if unicode_alphabetic(c) || c == '_' {
        let n = ident_len(chars, st.pos);
        Ok((keyword_or_ident(chars.subrange(st.pos, st.pos + n)), steps(chars, st, n)))
    } else if single_symbol(c) is Some {
        Ok((single_symbol(c)->0, step(chars, st)))
    } else if c == '=' {
        let s1 = step(chars, st);
        if char_at(chars, s1.pos) == Some('>') {
            Ok((SpecToken::FatArrow, step(chars, s1)))
        } else {
            Ok(one_or_two(chars, st, '=', SpecToken::EqualEqual, SpecToken::Equals))
        }
    } else if c == '!' {
        Ok(one_or_two(chars, st, '=', SpecToken::BangEqual, SpecToken::Bang))
    } else if c == '<' {
        Ok(one_or_two(chars, st, '=', SpecToken::LessEqual, SpecToken::LAngle))
    } else if c == '>' {
        Ok(one_or_two(chars, st, '=', SpecToken::GreaterEqual, SpecToken::RAngle))
    } else if c == '&' || c == '|' {
        let s1 = step(chars, st);
        if char_at(chars, s1.pos) == Some(c) {
            Ok((if c == '&' { SpecToken::And } else { SpecToken::Or }, step(chars, s1)))
        } else {
            Err(LexError::UnexpectedChar(c, mk_span(st.line, st.col, 1)))
        }
    } else {
        Err(LexError::UnexpectedChar(c, mk_span(st.line, st.col, 1)))
    }
}

/// `a - b` on 32-bit columns, stopping at zero.
pub open spec fn sat_sub(a: u32, b: u32) -> u32 {
    if a >= b {
        (a - b) as u32
    } else {
        0
    }
}

/// Prepend already-lexed tokens to the outcome of lexing the rest.
pub open spec fn prepend(
    done: Seq<SpecSpanned>,
    rest: Result<Seq<SpecSpanned>, LexError>,
) -> Result<Seq<SpecSpanned>, LexError> {
    match rest {
        Ok(r) => Ok(done + r),
        Err(e) => Err(e),
    }
}

/// Lexing from `st` to the end: each token with its span, ending in `Eof`,
/// or the first error.
pub open spec fn lex_from(chars: Seq<char>, st: LexState) -> Result<Seq<SpecSpanned>, LexError>
    decreases chars.len() - st.pos,
    when 0 <= st.pos <= chars.len()
{
    let s1 = skip_trivia(chars, st, false);
    if char_at(chars, s1.pos) is None {
        Ok(seq![SpecSpanned { token: SpecToken::Eof, span: mk_span(s1.line, s1.col, 0) }])
    } else {
        match scan_token(chars, s1) {
            Err(e) => Err(e),
            Ok((tok, s2)) => {
                proof {
                    lemma_skip_trivia_forward(chars, st, false);
                    lemma_scan_token_forward(chars, s1);
                }
                prepend(
                    seq![SpecSpanned { token: tok, span: mk_span(s1.line, s1.col, sat_sub(s2.col as u32, s1.col as u32)) }],
                    lex_from(chars, s2),
                )
            },
        }
    }
}

/// The view of a token vector.
pub open spec fn spanned_views(v: Seq<Spanned>) -> Seq<SpecSpanned> {
    v.map_values(|s: Spanned| s@)
}

// ── Lemmas about how far the lexical functions move ─────────────────────────

/// `steps` moves exactly `n` characters while they exist.
pub proof fn lemma_steps_pos(chars: Seq<char>, st: LexState, n: nat)
    requires
        0 <= st.pos,
        st.pos + n <= chars.len(),
    ensures
        steps(chars, st, n).pos == st.pos + n,
    decreases n,
{
    if n > 0 {
        lemma_steps_pos(chars, st, (n - 1) as nat);
    }
}

proof fn lemma_digits_len_bound(chars: Seq<char>, pos: int)
    requires
        0 <= pos <= chars.len(),
    ensures
        pos + digits_len(chars, pos) <= chars.len(),
    decreases chars.len() - pos,
{
    if pos < chars.len() {
        lemma_digits_len_bound(chars, pos + 1);
    }
}

proof fn lemma_ident_len_bound(chars: Seq<char>, pos: int)
    requires
        0 <= pos <= chars.len(),
    ensures
        pos + ident_len(chars, pos) <= chars.len(),
    decreases chars.len() - pos,
{
    if pos < chars.len() {
        lemma_ident_len_bound(chars, pos + 1);
    }
}

/// Skipping trivia never moves backwards nor past the end.
pub proof fn lemma_skip_trivia_forward(chars: Seq<char>, st: LexState, in_comment: bool)
    requires
        0 <= st.pos <= chars.len(),
    ensures
        st.pos <= skip_trivia(chars, st, in_comment).pos <= chars.len(),
    decreases chars.len() - st.pos, (if in_comment { 1int } else { 0int }),
{
    if in_comment {
        match char_at(chars, st.pos) {
            Some(c) => if c != '\n' {
                lemma_skip_trivia_forward(chars, step(chars, st), true);
            } else {
                lemma_skip_trivia_forward(chars, st, false);
            },
            None => lemma_skip_trivia_forward(chars, st, false),
        }
    } else {
        match char_at(chars, st.pos) {
            Some(c) => if unicode_whitespace(c) {
                lemma_skip_trivia_forward(chars, step(chars, st), false);
            } else if c == '/' && char_at(chars, st.pos + 1) == Some('/') {
                lemma_skip_trivia_forward(chars, step(chars, step(chars, st)), true);
            },
            None => {},
        }
    }
}

proof fn lemma_scan_string_forward(chars: Seq<char>, st: LexState, acc: Seq<char>, start: LexState)
    requires
        0 <= st.pos <= chars.len(),
    ensures
        scan_string(chars, st, acc, start) matches Ok((_, s2)) ==> st.pos < s2.pos <= chars.len(),
    decreases chars.len() - st.pos,
{
    match char_at(chars, st.pos) {
        None => {},
        Some(c) => if c == '\n' {
        } else if c == '"' {
        } else if c == '\\' {
            let s1 = step(chars, st);
            match char_at(chars, s1.pos) {
                None => lemma_scan_string_forward(chars, s1, acc, start),
                Some(e) => match escaped(e) {
                    Some(x) => lemma_scan_string_forward(chars, step(chars, s1), acc.push(x), start),
                    None => lemma_scan_string_forward(chars, step(chars, s1), acc, start),
                },
            }
        } else {
            lemma_scan_string_forward(chars, step(chars, st), acc.push(c), start);
        },
    }
}

/// A scanned token always consumes at least one character.
pub proof fn lemma_scan_token_forward(chars: Seq<char>, st: LexState)
    requires
        0 <= st.pos < chars.len(),
    ensures
        scan_token(chars, st) matches Ok((_, s2)) ==> st.pos < s2.pos <= chars.len(),
{
    let c = chars[st.pos];
    if c == '"' {
        lemma_scan_string_forward(chars, step(chars, st), Seq::empty(), st);
    } else if is_digit(c) {
        lemma_digits_len_bound(chars, st.pos);
        lemma_steps_pos(chars, st, digits_len(chars, st.pos));
    } else if unicode_alphabetic(c) || c == '_' {
        lemma_ident_len_bound(chars, st.pos);
        lemma_steps_pos(chars, st, ident_len(chars, st.pos));
    }
}

/// A scanned string literal is a `StringLit` token.
proof fn lemma_scan_string_token(chars: Seq<char>, st: LexState, acc: Seq<char>, start: LexState)
    ensures
        scan_string(chars, st, acc, start) matches Ok((t, _)) ==> t is StringLit,
    decreases chars.len() - st.pos,
{
    match char_at(chars, st.pos) {
        None => {},
        Some(c) => if c == '\\' {
            let s1 = step(chars, st);
            match char_at(chars, s1.pos) {
                None => lemma_scan_string_token(chars, s1, acc, start),
                Some(e) => match escaped(e) {
                    Some(x) => lemma_scan_string_token(chars, step(chars, s1), acc.push(x), start),
                    None => lemma_scan_string_token(chars, step(chars, s1), acc, start),
                },
            }
        } else if c != '\n' && c != '"' {
            lemma_scan_string_token(chars, step(chars, st), acc.push(c), start);
        },
    }
}

/// Scanning never yields the end-of-input token.
proof fn lemma_scan_token_not_eof(chars: Seq<char>, st: LexState)
    requires
        0 <= st.pos < chars.len(),
    ensures
        scan_token(chars, st) matches Ok((t, _)) ==> t != SpecToken::Eof,
{
    if chars[st.pos] == '"' {
        lemma_scan_string_token(chars, step(chars, st), Seq::empty(), st);
    }
}

/// A lexing position whose line and column are at least 1 and at most one
/// past the number of characters read, in a source shorter than `u32::MAX`.
pub open spec fn pos_ok(chars: Seq<char>, st: LexState) -> bool {
    &&& chars.len() < u32::MAX
    &&& 0 <= st.pos <= chars.len()
    &&& 1 <= st.line <= st.pos + 1
    &&& 1 <= st.col <= st.pos + 1
}

/// `a` comes before `b`: on an earlier line, or earlier on the same line.
pub open spec fn before(a: LexState, b: LexState) -> bool {
    a.line < b.line || (a.line == b.line && a.col < b.col)
}

/// Span `a` starts before span `b`: on an earlier line, or earlier on the
/// same line.
pub open spec fn span_before(a: Span, b: Span) -> bool {
    a.line < b.line || (a.line == b.line && a.col < b.col)
}

proof fn lemma_step_order(chars: Seq<char>, st: LexState)
    requires
        pos_ok(chars, st),
        st.pos < chars.len(),
    ensures
        pos_ok(chars, step(chars, st)),
        before(st, step(chars, st)),
        step(chars, st).pos == st.pos + 1,
{
}

proof fn lemma_steps_order(chars: Seq<char>, st: LexState, n: nat)
    requires
        pos_ok(chars, st),
        st.pos + n <= chars.len(),
    ensures
        pos_ok(chars, steps(chars, st, n)),
        steps(chars, st, n).pos == st.pos + n,
        n > 0 ==> before(st, steps(chars, st, n)),
    decreases n,
{
    if n > 0 {
        lemma_steps_order(chars, st, (n - 1) as nat);
        lemma_step_order(chars, steps(chars, st, (n - 1) as nat));
    }
}

proof fn lemma_skip_order(chars: Seq<char>, st: LexState, in_comment: bool)
    requires
        pos_ok(chars, st),
    ensures
        pos_ok(chars, skip_trivia(chars, st, in_comment)),
        skip_trivia(chars, st, in_comment).pos >= st.pos,
        skip_trivia(chars, st, in_comment).pos == st.pos ==> skip_trivia(chars, st, in_comment) == st,
        skip_trivia(chars, st, in_comment).pos > st.pos ==> before(st, skip_trivia(chars, st, in_comment)),
    decreases chars.len() - st.pos, (if in_comment { 1int } else { 0int }),
{
    if in_comment {
        match char_at(chars, st.pos) {
            Some(c) => if c != '\n' {
                lemma_step_order(chars, st);
                lemma_skip_order(chars, step(chars, st), true);
            } else {
                lemma_skip_order(chars, st, false);
            },
            None => lemma_skip_order(chars, st, false),
        }
    } else {
        match char_at(chars, st.pos) {
            Some(c) => if unicode_whitespace(c) {
                lemma_step_order(chars, st);
                lemma_skip_order(chars, step(chars, st), false);
            } else if c == '/' && char_at(chars, st.pos + 1) == Some('/') {
                lemma_step_order(chars, st);
                lemma_step_order(chars, step(chars, st));
                lemma_skip_order(chars, step(chars, step(chars, st)), true);
            },
            None => {},
        }
    }
}

proof fn lemma_scan_string_order(chars: Seq<char>, st: LexState, acc: Seq<char>, start: LexState)
    requires
        pos_ok(chars, st),
    ensures
        scan_string(chars, st, acc, start) matches Ok((_, s2)) ==> pos_ok(chars, s2) && before(st, s2),
    decreases chars.len() - st.pos,
{
    match char_at(chars, st.pos) {
        None => {},
        Some(c) => {
            lemma_step_order(chars, st);
            if c == '\\' {
                let s1 = step(chars, st);
                match char_at(chars, s1.pos) {
                    None => lemma_scan_string_order(chars, s1, acc, start),
                    Some(e) => {
                        lemma_step_order(chars, s1);
                        match escaped(e) {
                            Some(x) => lemma_scan_string_order(chars, step(chars, s1), acc.push(x), start),
                            None => lemma_scan_string_order(chars, step(chars, s1), acc, start),
                        }
                    },
                }
            } else if c != '\n' && c != '"' {
                lemma_scan_string_order(chars, step(chars, st), acc.push(c), start);
            }
        },
    }
}

proof fn lemma_scan_token_order(chars: Seq<char>, st: LexState)
    requires
        pos_ok(chars, st),
        st.pos < chars.len(),
    ensures
        scan_token(chars, st) matches Ok((_, s2)) ==> pos_ok(chars, s2) && before(st, s2),
{
    let c = chars[st.pos];
    lemma_step_order(chars, st);
    let s1 = step(chars, st);
    if s1.pos < chars.len() {
        lemma_step_order(chars, s1);
    }
    if c == '"' {
        lemma_scan_string_order(chars, s1, Seq::empty(), st);
    } else if is_digit(c) {
        lemma_digits_len_bound(chars, st.pos);
        lemma_steps_order(chars, st, digits_len(chars, st.pos));
    } else if unicode_alphabetic(c) || c == '_' {
        lemma_ident_len_bound(chars, st.pos);
        lemma_steps_order(chars, st, ident_len(chars, st.pos));
    }
}

/// Every span starts at a line and column of at least 1, and each starts
/// strictly after the one before it.
pub open spec fn spans_ordered(ts: Seq<SpecSpanned>) -> bool {
    &&& forall|i: int| 0 <= i < ts.len() ==> #[trigger] ts[i].span.line >= 1 && ts[i].span.col >= 1
    &&& forall|i: int, j: int| 0 <= i < j < ts.len() ==> span_before(#[trigger] ts[i].span, #[trigger] ts[j].span)
}

/// Every token of a successful lexing starts at a line and column of at
/// least 1, no earlier than where lexing started, and each token starts
/// strictly after the one before it (by line, then column), for sources
/// shorter than `u32::MAX` characters.
pub proof fn lemma_lex_from_spans(chars: Seq<char>, st: LexState)
    requires
        pos_ok(chars, st),
    ensures
        lex_from(chars, st) matches Ok(ts) ==> {
            &&& spans_ordered(ts)
            &&& forall|i: int| 0 <= i < ts.len() ==> !(#[trigger] ts[i].span.line < st.line || (ts[i].span.line
                == st.line && ts[i].span.col < st.col))
        },
    decreases chars.len() - st.pos,
{
    let s1 = skip_trivia(chars, st, false);
    lemma_skip_order(chars, st, false);
    if char_at(chars, s1.pos) is Some {
        lemma_scan_token_order(chars, s1);
        lemma_scan_token_forward(chars, s1);
        match scan_token(chars, s1) {
            Err(_) => {},
            Ok((tok, s2)) => {
                lemma_lex_from_spans(chars, s2);
                match lex_from(chars, s2) {
                    Err(_) => {},
                    Ok(r) => {
                        let head = SpecSpanned { token: tok, span: mk_span(s1.line, s1.col, sat_sub(s2.col as u32, s1.col as u32)) };
                        let ts = seq![head] + r;
                        assert(lex_from(chars, st) == Ok::<Seq<SpecSpanned>, LexError>(ts));
                        assert(head.span.line == s1.line && head.span.col == s1.col);
                        assert forall|i: int| 0 <= i < ts.len() implies #[trigger] ts[i].span.line >= 1 && ts[i].span.col >= 1
                            && !(ts[i].span.line < st.line || (ts[i].span.line == st.line && ts[i].span.col < st.col)) by {
                            if i > 0 {
                                assert(ts[i] == r[i - 1]);
                            }
                        }
                        assert forall|i: int, j: int| 0 <= i < j < ts.len() implies span_before(#[trigger] ts[i].span, #[trigger] ts[j].span) by {
                            assert(ts[j] == r[j - 1]);
                            if i > 0 {
                                assert(ts[i] == r[i - 1]);
                            }
                        }
                    },
                }
            },
        }
    } else {
        let ts = seq![SpecSpanned { token: SpecToken::Eof, span: mk_span(s1.line, s1.col, 0) }];
        assert(lex_from(chars, st) == Ok::<Seq<SpecSpanned>, LexError>(ts));
    }
}

/// A successful lexing ends in exactly one `Eof`: it is the last token and
/// no earlier token is `Eof`.
pub proof fn lemma_lex_from_one_eof(chars: Seq<char>, st: LexState)
    requires
        0 <= st.pos <= chars.len(),
    ensures
        lex_from(chars, st) matches Ok(ts) ==> {
            &&& ts.len() > 0
            &&& ts.last().token == SpecToken::Eof
            &&& forall|i: int| 0 <= i < ts.len() - 1 ==> #[trigger] ts[i].token != SpecToken::Eof
        },
    decreases chars.len() - st.pos,
{
    let s1 = skip_trivia(chars, st, false);
    lemma_skip_trivia_forward(chars, st, false);
    if char_at(chars, s1.pos) is Some {
        lemma_scan_token_forward(chars, s1);
        lemma_scan_token_not_eof(chars, s1);
        match scan_token(chars, s1) {
            Err(_) => {},
            Ok((tok, s2)) => {
                lemma_lex_from_one_eof(chars, s2);
                match lex_from(chars, s2) {
                    Err(_) => {},
                    Ok(r) => {
                        let head = seq![SpecSpanned { token: tok, span: mk_span(s1.line, s1.col, sat_sub(s2.col as u32, s1.col as u32)) }];
                        let ts = head + r;
                        assert(lex_from(chars, st) == Ok::<Seq<SpecSpanned>, LexError>(ts));
                        assert(ts.last() == r.last());
                        assert forall|i: int| 0 <= i < ts.len() - 1 implies #[trigger] ts[i].token != SpecToken::Eof by {
                            if i > 0 {
                                assert(ts[i] == r[i - 1]);
                            }
                        }
                    },
                }
            },
        }
    }
}

// ── The executable lexer ─────────────────────────────────────────────────────

/// A lexer over the characters of one source text.
pub struct Lexer {
    chars: Vec<char>,
    pos: usize,
    line: usize,
    col: usize,
}

impl Lexer {
    /// The source characters.
    pub closed spec fn source(&self) -> Seq<char> {
        self.chars@
    }

    /// The current position, line and column.
    pub closed spec fn state(&self) -> LexState {
        LexState { pos: self.pos as int, line: self.line as int, col: self.col as int }
    }

    /// The position lies within the source.
    pub closed spec fn wf(&self) -> bool {
        self.pos <= self.chars.len()
    }

    /// A lexer at the start (line 1, column 1) of `source`.
    pub fn new(source: &str) -> (l: Self)
        ensures
            l.wf(),
            l.source() == source@,
            l.state() == (LexState { pos: 0, line: 1, col: 1 }),
    {
        let mut chars: Vec<char> = Vec::new();
        for c in it: source.chars()
            invariant
                it.seq() == source@,
                chars@ == it.seq().take(it.index() as int),
        {
            chars.push(c);
        }
        assert(chars@ =~= source@);
        Lexer { chars, pos: 0, line: 1, col: 1 }
    }

    fn peek(&self) -> (c: Option<char>)
        ensures
            c == char_at(self.chars@, self.pos as int),
    {
        if self.pos < self.chars.len() {
            Some(self.chars[self.pos])
        } else {
            None
        }
    }

    fn peek2(&self) -> (c: Option<char>)
        requires
            self.wf(),
        ensures
            c == char_at(self.chars@, self.pos + 1),
    {
        if self.pos < self.chars.len() && self.pos + 1 < self.chars.len() {
            Some(self.chars[self.pos + 1])
        } else {
            None
        }
    }

    fn at_whitespace(&self) -> (b: bool)
        ensures
            b == (char_at(self.chars@, self.pos as int) matches Some(c) && unicode_whitespace(c)),
    {
        match self.peek() {
            Some(c) => is_whitespace(c),
            None => false,
        }
    }

    fn at_comment_text(&self) -> (b: bool)
        ensures
            b == (char_at(self.chars@, self.pos as int) matches Some(c) && c != '\n'),
    {
        match self.peek() {
            Some(c) => c != '\n',
            None => false,
        }
    }

    fn at_digit(&self) -> (b: bool)
        ensures
            b == (char_at(self.chars@, self.pos as int) matches Some(c) && is_digit(c)),
    {
        match self.peek() {
            Some(c) => '0' <= c && c <= '9',
            None => false,
        }
    }

    fn at_ident_char(&self) -> (b: bool)
        ensures
            b == (char_at(self.chars@, self.pos as int) matches Some(c) && is_ident_char(c)),
    {
        match self.peek() {
            Some(c) => is_alphanumeric(c) || c == '_',
            None => false,
        }
    }

    fn advance(&mut self) -> (c: Option<char>)
        requires
            old(self).wf(),
        ensures
            final(self).wf(),
            final(self).chars == old(self).chars,
            final(self).state() == step(old(self).chars@, old(self).state()),
            c == char_at(old(self).chars@, old(self).pos as int),
    {
        let c = self.peek();
        if let Some(ch) = c {
            self.pos += 1;
            if ch == '\n' {
                self.line = self.line.saturating_add(1);
                self.col = 1;
            } else {
                self.col = self.col.saturating_add(1);
            }
        }
        c
    }

    fn skip_whitespace_and_comments(&mut self)
        requires
            old(self).wf(),
        ensures
            final(self).wf(),
            final(self).chars == old(self).chars,
            final(self).state() == skip_trivia(old(self).chars@, old(self).state(), false),
    {
        let ghost target = skip_trivia(self.chars@, self.state(), false);
        loop
            invariant
                self.wf(),
                self.chars == old(self).chars,
                target == skip_trivia(old(self).chars@, old(self).state(), false),
                skip_trivia(self.chars@, self.state(), false) == target,
            decreases self.chars.len() - self.pos,
        {
            let ghost p_outer = self.pos;
            while self.at_whitespace()
                invariant
                    self.wf(),
                    self.chars == old(self).chars,
                    p_outer <= self.pos,
                    skip_trivia(self.chars@, self.state(), false) == target,
                decreases self.chars.len() - self.pos,
            {
                self.advance();
            }
            if self.peek() == Some('/') && self.peek2() == Some('/') {
                self.advance();
                self.advance();
                while self.at_comment_text()
                    invariant
                        self.wf(),
                        self.chars == old(self).chars,
                        p_outer + 2 <= self.pos,
                        skip_trivia(self.chars@, self.state(), true) == target,
                    decreases self.chars.len() - self.pos,
                {
                    self.advance();
                }
                continue;
            }
            assert(skip_trivia(self.chars@, self.state(), false) == self.state());
            return;
        }
    }

    fn read_string(&mut self) -> (r: Result<Token, LexError>)
        requires
            old(self).wf(),
            char_at(old(self).chars@, old(self).pos as int) == Some('"'),
        ensures
            final(self).wf(),
            final(self).chars == old(self).chars,
            match scan_string(old(self).chars@, step(old(self).chars@, old(self).state()), Seq::empty(), old(self).state()) {
                Ok((t, s)) => r matches Ok(tok) && tok@ == t && final(self).state() == s,
                Err(e) => r == Err::<Token, LexError>(e),
            },
    {
        let line = self.line;
        let start_col = self.col;
        let ghost start = self.state();
        self.advance();
        let mut s = String::new();
        loop
            invariant
                self.wf(),
                self.chars == old(self).chars,
                start == old(self).state(),
                line == start.line,
                start_col == start.col,
                scan_string(self.chars@, self.state(), s@, start) == scan_string(
                    self.chars@,
                    step(self.chars@, start),
                    Seq::empty(),
                    start,
                ),
            decreases self.chars.len() - self.pos,
        {
            match self.peek() {
                None => {
                    return Err(LexError::UnterminatedString(Span::new(line as u32, start_col as u32, 1)));
                },
                Some(c) => {
                    if c == '\n' {
                        return Err(LexError::UnterminatedString(Span::new(line as u32, start_col as u32, 1)));
                    } else if c == '"' {
                        self.advance();
                        return Ok(Token::StringLit(s));
                    } else if c == '\\' {
                        self.advance();
                        match self.advance() {
                            Some('n') => push_char(&mut s, '\n'),
                            Some('t') => push_char(&mut s, '\t'),
                            Some('"') => push_char(&mut s, '"'),
                            Some('\\') => push_char(&mut s, '\\'),
                            _ => {},
                        }
                    } else {
                        push_char(&mut s, c);
                        self.advance();
                    }
                },
            }
        }
    }

    fn read_number(&mut self) -> (t: Token)
        requires
            old(self).wf(),
        ensures
            final(self).wf(),
            final(self).chars == old(self).chars,
            ({
                let n = digits_len(old(self).chars@, old(self).pos as int);
                &&& t@ == SpecToken::IntLit(
                    int_literal_value(old(self).chars@.subrange(old(self).pos as int, old(self).pos + n)),
                )
                &&& final(self).state() == steps(old(self).chars@, old(self).state(), n)
            }),
    {
        let ghost p0 = self.pos as int;
        let mut value: i64 = 0;
        let mut too_big = false;
        proof {
            lemma_digits_len_bound(self.chars@, p0);
        }
        while self.at_digit()
            invariant
                self.wf(),
                self.chars == old(self).chars,
                p0 == old(self).pos,
                p0 <= self.pos,
                self.state() == steps(self.chars@, old(self).state(), (self.pos - p0) as nat),
                digits_len(self.chars@, p0) == (self.pos - p0) + digits_len(self.chars@, self.pos as int),
                !too_big ==> value == decimal_value(self.chars@.subrange(p0, self.pos as int)),
                too_big ==> decimal_value(self.chars@.subrange(p0, self.pos as int)) > i64::MAX,
                decimal_value(self.chars@.subrange(p0, self.pos as int)) >= 0,
            decreases self.chars.len() - self.pos,
        {
            let c = self.peek().unwrap();
            let d = (c as u32 - '0' as u32) as i64;
            let ghost prefix = self.chars@.subrange(p0, self.pos as int);
            assert(self.chars@.subrange(p0, self.pos + 1).drop_last() =~= prefix);
            let ghost dv = decimal_value(prefix);
            assert(decimal_value(self.chars@.subrange(p0, self.pos + 1)) == dv * 10 + d);
            if !too_big {
                if value <= (i64::MAX - d) / 10 {
                    value = value * 10 + d;
                } else {
                    too_big = true;
                }
            }
            self.advance();
        }
        assert(digits_len(self.chars@, self.pos as int) == 0);
        if too_big {
            Token::IntLit(0)
        } else {
            Token::IntLit(value)
        }
    }

    fn read_ident_or_keyword(&mut self) -> (t: Token)
        requires
            old(self).wf(),
        ensures
            final(self).wf(),
            final(self).chars == old(self).chars,
            ({
                let n = ident_len(old(self).chars@, old(self).pos as int);
                &&& t@ == keyword_or_ident(old(self).chars@.subrange(old(self).pos as int, old(self).pos + n))
                &&& final(self).state() == steps(old(self).chars@, old(self).state(), n)
            }),
    {
        let ghost p0 = self.pos as int;
        let mut s: Vec<char> = Vec::new();
        proof {
            lemma_ident_len_bound(self.chars@, p0);
        }
        while self.at_ident_char()
            invariant
                self.wf(),
                self.chars == old(self).chars,
                p0 == old(self).pos,
                p0 <= self.pos,
                self.state() == steps(self.chars@, old(self).state(), (self.pos - p0) as nat),
                ident_len(self.chars@, p0) == (self.pos - p0) + ident_len(self.chars@, self.pos as int),
                s@ == self.chars@.subrange(p0, self.pos as int),
            decreases self.chars.len() - self.pos,
        {
            let c = self.advance().unwrap();
            s.push(c);
            assert(s@ =~= self.chars@.subrange(p0, self.pos as int));
        }
        assert(ident_len(self.chars@, self.pos as int) == 0);
        if chars_eq(&s, "app") { Token::App }
        else if chars_eq(&s, "server") { Token::Server }
        else if chars_eq(&s, "route") { Token::Route }
        else if chars_eq(&s, "package") { Token::Package }
        else if chars_eq(&s, "import") { Token::Import }
        else if chars_eq(&s, "class") { Token::Class }
        else if chars_eq(&s, "interface") { Token::Interface }
        else if chars_eq(&s, "component") { Token::Component }
        else if chars_eq(&s, "window") { Token::Window }
        else if chars_eq(&s, "public") { Token::Public }
        else if chars_eq(&s, "private") { Token::Private }
        else if chars_eq(&s, "extends") { Token::Extends }
        else if chars_eq(&s, "implements") { Token::Implements }
        else if chars_eq(&s, "constructor") { Token::Constructor }
        else if chars_eq(&s, "return") { Token::Return }
        else if chars_eq(&s, "this") { Token::This }
        else if chars_eq(&s, "if") { Token::If }
        else if chars_eq(&s, "else") { Token::Else }
        else if chars_eq(&s, "for") { Token::For }
        else if chars_eq(&s, "while") { Token::While }
        else if chars_eq(&s, "break") { Token::Break }
        else if chars_eq(&s, "continue") { Token::Continue }
        else if chars_eq(&s, "async") { Token::Async }
        else if chars_eq(&s, "await") { Token::Await }
        else if chars_eq(&s, "enum") { Token::Enum }
        else if chars_eq(&s, "match") { Token::Match }
        else if chars_eq(&s, "test") { Token::Test }
        else if chars_eq(&s, "let") { Token::Let }
        else if chars_eq(&s, "in") { Token::In }
        else if chars_eq(&s, "Int") { Token::TInt }
        else if chars_eq(&s, "String") { Token::TString }
        else if chars_eq(&s, "Bool") { Token::TBool }
        else if chars_eq(&s, "Void") { Token::TVoid }
        else if chars_eq(&s, "List") { Token::TList }
        else if chars_eq(&s, "true") { Token::BoolLit(true) }
        else if chars_eq(&s, "false") { Token::BoolLit(false) }
        else { Token::Ident(string_from_chars(&s)) }
    }

    /// Scan the token that starts at the current (non-final) position.
    fn scan(&mut self) -> (r: Result<Token, LexError>)
        requires
            old(self).wf(),
            old(self).pos < old(self).chars.len(),
        ensures
            final(self).wf(),
            final(self).chars == old(self).chars,
            match scan_token(old(self).chars@, old(self).state()) {
                Ok((t, s)) => r matches Ok(tok) && tok@ == t && final(self).state() == s,
                Err(e) => r == Err::<Token, LexError>(e),
            },
    {
        let line = self.line;
        let col = self.col;
        let c = self.chars[self.pos];
        if c == '"' {
            self.read_string()
        } else if '0' <= c && c <= '9' {
            Ok(self.read_number())
        } else if is_alphabetic(c) || c == '_' {
            Ok(self.read_ident_or_keyword())
        } else if let Some(t) = symbol_token(c) {
            self.advance();
            Ok(t)
        } else if c == '=' {
            self.advance();
            if self.peek() == Some('>') {
                self.advance();
                Ok(Token::FatArrow)
            } else if self.peek() == Some('=') {
                self.advance();
                Ok(Token::EqualEqual)
            } else {
                Ok(Token::Equals)
            }
        } else if c == '!' {
            self.advance();
            if self.peek() == Some('=') {
                self.advance();
                Ok(Token::BangEqual)
            } else {
                Ok(Token::Bang)
            }
        } else if c == '<' {
            self.advance();
            if self.peek() == Some('=') {
                self.advance();
                Ok(Token::LessEqual)
            } else {
                Ok(Token::LAngle)
            }
        } else if c == '>' {
            self.advance();
            if self.peek() == Some('=') {
                self.advance();
                Ok(Token::GreaterEqual)
            } else {
                Ok(Token::RAngle)
            }
        } else if c == '&' {
            self.advance();
            if self.peek() == Some('&') {
                self.advance();
                Ok(Token::And)
            } else {
                Err(LexError::UnexpectedChar('&', Span::new(line as u32, col as u32, 1)))
            }
        } else if c == '|' {
            self.advance();
            if self.peek() == Some('|') {
                self.advance();
                Ok(Token::Or)
            } else {
                Err(LexError::UnexpectedChar('|', Span::new(line as u32, col as u32, 1)))
            }
        } else {
            Err(LexError::UnexpectedChar(c, Span::new(line as u32, col as u32, 1)))
        }
    }

    /// Tokenize the rest of the source: every token with its span, ending in
    /// `Eof`, or the first lexical error.
    pub fn tokenize(&mut self) -> (r: Result<Vec<Spanned>, LexError>)
        requires
            old(self).wf(),
        ensures
            final(self).wf(),
            r matches Ok(v) ==> lex_from(old(self).source(), old(self).state()) == Ok::<
                Seq<SpecSpanned>,
                LexError,
            >(spanned_views(v@)),
            r matches Ok(v) ==> wf_tokens(spanned_views(v@)),
            r matches Ok(v) ==> forall|i: int| 0 <= i < v@.len() - 1 ==> #[trigger] spanned_views(v@)[i].token != SpecToken::Eof,
            r matches Ok(v) ==> pos_ok(old(self).source(), old(self).state()) ==> spans_ordered(spanned_views(v@)),
            r matches Err(e) ==> lex_from(old(self).source(), old(self).state()) == Err::<
                Seq<SpecSpanned>,
                LexError,
            >(e),
    {
        let mut tokens: Vec<Spanned> = Vec::new();
        proof {
            lemma_lex_from_one_eof(self.chars@, self.state());
            if pos_ok(self.chars@, self.state()) {
                lemma_lex_from_spans(self.chars@, self.state());
            }
        }
        loop
            invariant
                self.wf(),
                self.chars == old(self).chars,
                lex_from(old(self).chars@, old(self).state()) matches Ok(ts) ==> forall|i: int|
                    0 <= i < ts.len() - 1 ==> #[trigger] ts[i].token != SpecToken::Eof,
                pos_ok(old(self).chars@, old(self).state()) ==> (lex_from(old(self).chars@, old(self).state()) matches Ok(
                    ts,
                ) ==> spans_ordered(ts)),
                prepend(spanned_views(tokens@), lex_from(self.chars@, self.state())) == lex_from(
                    old(self).chars@,
                    old(self).state(),
                ),
            decreases self.chars.len() - self.pos,
        {
            let ghost st0 = self.state();
            let ghost before = spanned_views(tokens@);
            self.skip_whitespace_and_comments();
            proof {
                lemma_skip_trivia_forward(self.chars@, st0, false);
            }
            let line = self.line;
            let col = self.col;
            if self.pos >= self.chars.len() {
                let eof = Spanned { token: Token::Eof, span: Span::new(line as u32, col as u32, 0) };
                tokens.push(eof);
                assert(spanned_views(tokens@) =~= before + seq![eof@]);
                assert(spanned_views(tokens@).last() == eof@);
                return Ok(tokens);
            }
            let ghost s1 = self.state();
            proof {
                lemma_scan_token_forward(self.chars@, s1);
            }
            let tok = self.scan()?;
            let len = (self.col as u32).saturating_sub(col as u32);
            let sp = Spanned { token: tok, span: Span::new(line as u32, col as u32, len) };
            tokens.push(sp);
            proof {
                let rest = lex_from(self.chars@, self.state());
                assert(spanned_views(tokens@) =~= before + seq![sp@]);
                match rest {
                    Ok(r) => {
                        assert(before + (seq![sp@] + r) =~= (before + seq![sp@]) + r);
                    },
                    Err(_) => {},
                }
            }
        }
    }
}

/// The token of a character that forms a token on its own.
fn symbol_token(c: char) -> (t: Option<Token>)
    ensures
        match single_symbol(c) {
            Some(s) => t matches Some(x) && x@ == s,
            None => t is None,
        },
{
    if c == '[' { Some(Token::LBracket) }
    else if c == ']' { Some(Token::RBracket) }
    else if c == '{' { Some(Token::LBrace) }
    else if c == '}' { Some(Token::RBrace) }
    else if c == '(' { Some(Token::LParen) }
    else if c == ')' { Some(Token::RParen) }
    else if c == ';' { Some(Token::Semicolon) }
    else if c == ':' { Some(Token::Colon) }
    else if c == ',' { Some(Token::Comma) }
    else if c == '.' { Some(Token::Dot) }
    else if c == '+' { Some(Token::Plus) }
    else if c == '-' { Some(Token::Minus) }
    else if c == '*' { Some(Token::Star) }
    else if c == '%' { Some(Token::Percent) }
    else if c == '/' { Some(Token::Slash) }
    else { None }
}

} // verus!
