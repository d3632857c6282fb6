//! Pure credential handling.
//!
//! The credential itself lives in an opaque store behind a get/set/delete
//! surface that the unverified shell talks to. The rules here are the
//! verified part: a credential is usable only when it is non-blank, a
//! missing store entry surfaces as the empty credential (never as an
//! error), and a preview masks all but the last four characters.

use vstd::prelude::*;

use crate::text::is_blank;
use crate::text::is_ws_char;

verus! {

/// The mask shown in place of a credential's leading characters.
pub open spec fn mask_chars() -> Seq<char> {
    seq!['*', '*', '*', '*']
}

/// Whether a credential is usable: not empty and not whitespace only.
pub fn validate_api_key(api_key: &str) -> (r: bool)
    ensures
        r == !is_blank(api_key@),
{
    let n = api_key.unicode_len();
    let mut i: usize = 0;
    while i < n
        invariant
            n == api_key@.len(),
            i <= n,
            forall|j: int| 0 <= j < i ==> is_ws_char(#[trigger] api_key@[j]),
        decreases n - i,
    {
        let c = api_key.get_char(i);
        if !(c == ' ' || c == '\t' || c == '\r' || c == '\n') {
            return true;
        }
        i += 1;
    }
    false
}

/// A masked preview of a stored credential: empty when the credential is
/// blank, the mask alone when it has four or fewer characters, and the
/// mask followed by the last four characters otherwise.
pub fn api_key_preview(api_key: &str) -> (r: String)
    ensures
        is_blank(api_key@) ==> r@ == Seq::<char>::empty(),
        !is_blank(api_key@) && api_key@.len() > 4 ==> r@ == mask_chars() + api_key@.skip(
            api_key@.len() - 4,
        ),
        !is_blank(api_key@) && api_key@.len() <= 4 ==> r@ == mask_chars(),
{
    if !validate_api_key(api_key) {
        let r = String::new();
        proof {
            assert(r@ =~= Seq::<char>::empty());
        }
        return r;
    }
    let n = api_key.unicode_len();
    let mut out = String::from_str("****");
    proof {
        reveal_strlit("****");
        assert(out@ =~= mask_chars());
    }
    if n > 4 {
        let tail = api_key.substring_char(n - 4, n);
        proof {
            assert(tail@ =~= api_key@.skip(api_key@.len() - 4));
        }
        out.append(tail);
    }
    out
}

/// Turns a store lookup into the credential value: a missing entry is the
/// empty credential, never an error.
pub fn credential_or_empty(found: Option<String>) -> (r: String)
    ensures
        found is Some ==> r@ == found->0@,
        found is None ==> r@ == Seq::<char>::empty(),
{
    match found {
        Some(key) => key,
        None => {
            let r = String::new();
            proof {
                assert(r@ =~= Seq::<char>::empty());
            }
            r
        },
    }
}

} // verus!
