//! Checks on the credentials the package registry accepts.
use vstd::prelude::*;
use vstd::utf8::encode_utf8;
use crate::text::chars_vec;
use crate::updater::{find_char_from, find_from};

verus! {

/// The longest address RFC 5321 allows, in bytes.
pub const MAX_EMAIL_BYTES: usize = 254;

/// A plausible address: at most 254 bytes of UTF-8, a nonempty part before
/// the first `@`, and after it a nonempty domain that holds a `.`.
pub open spec fn email_ok(e: Seq<char>) -> bool {
    let at = find_from(e, '@', 0);
    &&& encode_utf8(e).len() <= MAX_EMAIL_BYTES
    &&& at > 0
    &&& at + 1 < e.len()
    &&& e.subrange(at + 1, e.len() as int).contains('.')
}

/// Basic structural email check: non-empty local + `@` + non-empty domain with at least one `.`.
/// Max length 254 (RFC 5321). Does not perform DNS lookup.
pub fn valid_email(email: &str) -> (b: bool)
    ensures
        b == email_ok(email@),
{
    let bytes = email.as_bytes();
    if bytes.len() > MAX_EMAIL_BYTES {
        return false;
    }
    let cs = chars_vec(email);
    let at = match find_char_from(&cs, '@', 0) {
        Some(i) => i,
        None => return false,
    };
    if at == 0 || at + 1 >= cs.len() {
        return false;
    }
    // the domain must contain a '.'
    match find_char_from(&cs, '.', at + 1) {
        Some(j) => {
            proof {
                crate::updater::lemma_find_from_at_least(cs@, '.', at + 1);
                let dom = cs@.subrange(at + 1, cs@.len() as int);
                assert(dom[j - (at + 1)] == '.');
                assert(dom.contains('.'));
            }
            true
        },
        None => {
            proof {
                crate::updater::lemma_find_from_none(cs@, '.', at + 1);
                let dom = cs@.subrange(at + 1, cs@.len() as int);
                assert forall|k: int| 0 <= k < dom.len() implies #[trigger] dom[k] != '.' by {
                    assert(dom[k] == cs@[at + 1 + k]);
                }
            }
            false
        },
    }
}

} // verus!
