//! How a written type is spelled in diagnostics: the form that `{:?}`
//! gives for the derived `Debug` of [`Type`], such as `List(Custom("User"))`
//! or `Function([Int, String], Bool)`.
use vstd::prelude::*;
use crate::ast::{SpecType, Type, types_view, lemma_types_view};
use crate::text::{chars_vec, push_str, string_from_chars};

verus! {

/// A hexadecimal digit in lower case.
pub open spec fn hex_digit(d: nat) -> char {
    if d < 10 {
        (48 + d) as char
    } else {
        (87 + d) as char
    }
}

/// A code point below 128 in lower-case hexadecimal, without leading zeros.
pub open spec fn hex_text(n: nat) -> Seq<char> {
    if n < 16 {
        seq![hex_digit(n)]
    } else {
        seq![hex_digit(n / 16), hex_digit(n % 16)]
    }
}

/// One character inside a quoted string: quote and backslash escaped,
/// `\n \r \t \0` by name, other ASCII control characters as `\u{..}`,
/// anything else as it is.
pub open spec fn debug_char(c: char) -> Seq<char> {
    if c == '"' {
        seq!['\\', '"']
    } else if c == '\\' {
        seq!['\\', '\\']
    } else if c == '\n' {
        seq!['\\', 'n']
    } else if c == '\r' {
        seq!['\\', 'r']
    } else if c == '\t' {
        seq!['\\', 't']
    } else if c == '\0' {
        seq!['\\', '0']
    } else if (c as u32) < 32 || (c as u32) == 127 {
        seq!['\\', 'u', '{'] + hex_text((c as u32) as nat) + seq!['}']
    } else {
        seq![c]
    }
}

/// The escaped characters of a string, in order.
pub open spec fn debug_chars(s: Seq<char>) -> Seq<char>
    decreases s.len(),
{
    if s.len() == 0 {
        Seq::empty()
    } else {
        debug_chars(s.drop_last()) + debug_char(s.last())
    }
}

/// A string in double quotes, escaped.
pub open spec fn quoted(s: Seq<char>) -> Seq<char> {
    seq!['"'] + debug_chars(s) + seq!['"']
}

/// The spelling of a type.
pub open spec fn type_text_spec(t: SpecType) -> Seq<char>
    decreases t,
{
    match t {
        SpecType::Int => "Int"@,
        SpecType::String => "String"@,
        SpecType::Bool => "Bool"@,
        SpecType::Void => "Void"@,
        SpecType::Custom(n) => "Custom("@ + quoted(n) + ")"@,
        SpecType::Generic(n) => "Generic("@ + quoted(n) + ")"@,
        SpecType::List(inner) => "List("@ + type_text_spec(*inner) + ")"@,
        SpecType::Function(ps, r) => "Function(["@ + type_list_text(ps) + "], "@ + type_text_spec(*r)
            + ")"@,
    }
}

/// The spellings of several types, separated by `", "`.
pub open spec fn type_list_text(ps: Seq<SpecType>) -> Seq<char>
    decreases ps,
{
    if ps.len() == 0 {
        Seq::empty()
    } else {
        let sep: Seq<char> = if ps.len() > 1 {
            ", "@
        } else {
            Seq::empty()
        };
        type_list_text(ps.drop_last()) + sep + type_text_spec(ps.last())
    }
}

/// The hexadecimal digit of `d`.
fn hex_char(d: u32) -> (c: char)
    requires
        d < 16,
    ensures
        c == hex_digit(d as nat),
{
    if d < 10 {
        ((48 + d) as u8) as char
    } else {
        ((87 + d) as u8) as char
    }
}

/// Appends the escaped form of one character.
fn push_debug_char(out: &mut Vec<char>, c: char)
    ensures
        final(out)@ == old(out)@ + debug_char(c),
{
    if c == '"' {
        out.push('\\');
        out.push('"');
    } else if c == '\\' {
        out.push('\\');
        out.push('\\');
    } else if c == '\n' {
        out.push('\\');
        out.push('n');
    } else if c == '\r' {
        out.push('\\');
        out.push('r');
    } else if c == '\t' {
        out.push('\\');
        out.push('t');
    } else if c == '\0' {
        out.push('\\');
        out.push('0');
    } else {
        let v: u32 = c as u32;
        if v < 32 || v == 127 {
            out.push('\\');
            out.push('u');
            out.push('{');
            if v < 16 {
                out.push(hex_char(v));
            } else {
                out.push(hex_char(v / 16));
                out.push(hex_char(v % 16));
            }
            out.push('}');
        } else {
            out.push(c);
        }
    }
    assert(out@ =~= old(out)@ + debug_char(c));
}

/// Appends a string in double quotes, escaped.
fn push_quoted(out: &mut Vec<char>, s: &String)
    ensures
        final(out)@ == old(out)@ + quoted(s@),
{
    let cs = chars_vec(s.as_str());
    out.push('"');
    let ghost start = out@;
    let mut i: usize = 0;
    while i < cs.len()
        invariant
            i <= cs.len(),
            cs@ == s@,
            start == old(out)@.push('"'),
            out@ == start + debug_chars(cs@.take(i as int)),
        decreases cs.len() - i,
    {
        assert(cs@.take(i + 1).drop_last() =~= cs@.take(i as int));
        push_debug_char(out, cs[i]);
        assert(out@ =~= start + debug_chars(cs@.take(i + 1)));
        i = i + 1;
    }
    assert(cs@.take(cs.len() as int) =~= cs@);
    out.push('"');
    assert(out@ =~= old(out)@ + quoted(s@));
}

/// Appends the spelling of a type.
#[verifier::loop_isolation(false)]
fn push_type(out: &mut Vec<char>, t: &Type)
    ensures
        final(out)@ == old(out)@ + type_text_spec(t@),
    decreases t,
{
    match t {
        Type::Int => push_str(out, "Int"),
        Type::String => push_str(out, "String"),
        Type::Bool => push_str(out, "Bool"),
        Type::Void => push_str(out, "Void"),
        Type::Custom(n) => {
            push_str(out, "Custom(");
            push_quoted(out, n);
            push_str(out, ")");
            assert(out@ =~= old(out)@ + type_text_spec(t@));
        },
        Type::Generic(n) => {
            push_str(out, "Generic(");
            push_quoted(out, n);
            push_str(out, ")");
            assert(out@ =~= old(out)@ + type_text_spec(t@));
        },
        Type::List(inner) => {
            push_str(out, "List(");
            push_type(out, &**inner);
            push_str(out, ")");
            assert(out@ =~= old(out)@ + type_text_spec(t@));
        },
        Type::Function(ps, r) => {
            push_str(out, "Function([");
            let ghost start = out@;
            let mut i: usize = 0;
            while i < ps.len()
                invariant
                    i <= ps.len(),
                    start == old(out)@ + "Function(["@,
                    out@ == start + type_list_text(types_view(ps@.take(i as int))),
                decreases ps.len() - i,
            {
                proof {
                    assert(decreases_to!(ps => ps@));
                    assert(decreases_to!(ps@ => ps@[i as int]));
                    assert(ps@.take(i + 1).drop_last() =~= ps@.take(i as int));
                    lemma_types_view(ps@.take(i + 1));
                    lemma_types_view(ps@.take(i as int));
                    assert(types_view(ps@.take(i + 1)).drop_last() =~= types_view(ps@.take(i as int)));
                }
                let ghost mid = out@;
                if i > 0 {
                    push_str(out, ", ");
                }
                push_type(out, &ps[i]);
                proof {
                    let vs = types_view(ps@.take(i + 1));
                    assert(vs.last() == ps@[i as int]@);
                    assert(vs.len() == i + 1);
                }
                assert(out@ =~= start + type_list_text(types_view(ps@.take(i + 1))));
                i = i + 1;
            }
            assert(ps@.take(ps.len() as int) =~= ps@);
            push_str(out, "], ");
            push_type(out, &**r);
            push_str(out, ")");
            assert(out@ =~= old(out)@ + type_text_spec(t@));
        },
    }
}

/// The spelling of a written type in diagnostics.
pub fn type_text(t: &Type) -> (s: String)
    ensures
        s@ == type_text_spec(t@),
{
    let mut out: Vec<char> = Vec::new();
    push_type(&mut out, t);
    assert(out@ =~= type_text_spec(t@));
    string_from_chars(out.as_slice())
}

} // verus!
