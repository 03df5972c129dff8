//! Checks and escaping used by the package registry's HTTP interface.
use vstd::prelude::*;
use crate::text::{chars_vec, push_str, string_from_chars};

verus! {

/// The longest package name accepted, in characters.
pub const MAX_PACKAGE_NAME_CHARS: usize = 214;

/// An ASCII letter or digit: `a-z`, `A-Z` or `0-9`.
pub open spec fn ascii_alnum(c: char) -> bool {
    ('a' <= c && c <= 'z') || ('A' <= c && c <= 'Z') || ('0' <= c && c <= '9')
}

/// A character allowed in a package name: `a-z A-Z 0-9 - _ .`.
pub open spec fn name_char(c: char) -> bool {
    ascii_alnum(c) || c == '-' || c == '_' || c == '.'
}

/// Package names: 1–214 characters, starting with an ASCII letter or digit,
/// made of `a-z A-Z 0-9 - _ .` only, with no two dots in a row.
pub open spec fn package_name_ok(n: Seq<char>) -> bool {
    &&& n.len() > 0
    &&& n.len() <= MAX_PACKAGE_NAME_CHARS
    &&& ascii_alnum(n[0])
    &&& forall|i: int| 0 <= i < n.len() ==> name_char(#[trigger] n[i])
    &&& !(exists|i: int| 0 <= i < n.len() - 1 && #[trigger] n[i] == '.' && n[i + 1] == '.')
}

/// Whether `c` is an ASCII letter or digit.
fn is_ascii_alnum(c: char) -> (b: bool)
    ensures
        b == ascii_alnum(c),
{
    ('a' <= c && c <= 'z') || ('A' <= c && c <= 'Z') || ('0' <= c && c <= '9')
}

/// Package names: 1–214 chars, start with alphanumeric, only `a-z A-Z 0-9 - _ .`,
/// no consecutive dots (prevents `..` path traversal).
pub fn valid_package_name(name: &str) -> (b: bool)
    ensures
        b == package_name_ok(name@),
{
    let cs = chars_vec(name);
    if cs.len() == 0 || cs.len() > MAX_PACKAGE_NAME_CHARS {
        return false;
    }
    if !is_ascii_alnum(cs[0]) {
        return false;
    }
    let mut i: usize = 0;
    while i < cs.len()
        invariant
            i <= cs.len(),
            cs@ == name@,
            forall|j: int| 0 <= j < i ==> name_char(#[trigger] cs@[j]),
            forall|j: int| 0 <= j < i - 1 ==> !(#[trigger] cs@[j] == '.' && cs@[j + 1] == '.'),
        decreases cs.len() - i,
    {
        let c = cs[i];
        if !(is_ascii_alnum(c) || c == '-' || c == '_' || c == '.') {
            assert(!name_char(cs@[i as int]));
            return false;
        }
        if i > 0 && c == '.' && cs[i - 1] == '.' {
            assert(cs@[i - 1] == '.' && cs@[(i - 1) + 1] == '.');
            return false;
        }
        i = i + 1;
    }
    assert forall|j: int| 0 <= j < cs@.len() - 1 implies !(#[trigger] cs@[j] == '.' && cs@[j + 1] == '.') by {}
    true
}

/// The HTML text of one character: `&`, `<`, `>` and `"` as entities.
pub open spec fn escape_char(c: char) -> Seq<char> {
    if c == '&' {
        "&amp;"@
    } else if c == '<' {
        "&lt;"@
    } else if c == '>' {
        "&gt;"@
    } else if c == '"' {
        "&quot;"@
    } else {
        seq![c]
    }
}

/// The HTML text of a string, character by character.
pub open spec fn escaped(s: Seq<char>) -> Seq<char>
    decreases s.len(),
{
    if s.len() == 0 {
        Seq::empty()
    } else {
        escaped(s.drop_last()) + escape_char(s.last())
    }
}

/// Minimal HTML escaping to safely embed source code in a <pre> block.
pub fn html_escape(s: &str) -> (r: String)
    ensures
        r@ == escaped(s@),
{
    let cs = chars_vec(s);
    let mut out: Vec<char> = Vec::new();
    let mut i: usize = 0;
    while i < cs.len()
        invariant
            i <= cs.len(),
            cs@ == s@,
            out@ == escaped(cs@.take(i as int)),
        decreases cs.len() - i,
    {
        let c = cs[i];
        assert(cs@.take(i + 1).drop_last() =~= cs@.take(i as int));
        if c == '&' {
            push_str(&mut out, "&amp;");
        } else if c == '<' {
            push_str(&mut out, "&lt;");
        } else if c == '>' {
            push_str(&mut out, "&gt;");
        } else if c == '"' {
            push_str(&mut out, "&quot;");
        } else {
            out.push(c);
        }
        assert(out@ =~= escaped(cs@.take(i + 1)));
        i = i + 1;
    }
    assert(cs@.take(cs.len() as int) =~= cs@);
    string_from_chars(out.as_slice())
}

/// The token of an `Authorization` header: what follows `Bearer `.
pub open spec fn bearer(header: Seq<char>) -> Option<Seq<char>> {
    let p = "Bearer "@;
    if header.len() >= p.len() && header.take(p.len() as int) == p {
        Some(header.skip(p.len() as int))
    } else {
        None
    }
}

/// The bearer token of an `Authorization` header value, if it has one.
pub fn bearer_token(header: &str) -> (r: Option<String>)
    ensures
        match bearer(header@) {
            Some(t) => r matches Some(x) && x@ == t,
            None => r is None,
        },
{
    proof {
        reveal_strlit("Bearer ");
    }
    let cs = chars_vec(header);
    let p = chars_vec("Bearer ");
    if cs.len() < p.len() {
        return None;
    }
    let mut i: usize = 0;
    while i < p.len()
        invariant
            i <= p.len() <= cs.len(),
            p@ == "Bearer "@,
            cs@ == header@,
            forall|j: int| 0 <= j < i ==> cs@[j] == p@[j],
        decreases p.len() - i,
    {
        if cs[i] != p[i] {
            assert(header@.take(p.len() as int)[i as int] != "Bearer "@[i as int]);
            return None;
        }
        i = i + 1;
    }
    assert(header@.take(p.len() as int) =~= "Bearer "@);
    let mut out: Vec<char> = Vec::new();
    let mut k = p.len();
    while k < cs.len()
        invariant
            p.len() <= k <= cs.len(),
            out@ == cs@.subrange(p.len() as int, k as int),
        decreases cs.len() - k,
    {
        out.push(cs[k]);
        assert(out@ =~= cs@.subrange(p.len() as int, k + 1));
        k = k + 1;
    }
    assert(out@ =~= header@.skip(p@.len() as int));
    Some(string_from_chars(out.as_slice()))
}

} // verus!
