//! Small text helpers of the HTTP providers.
use vstd::prelude::*;
use vstd::utf8::{decode_utf8, encode_utf8, is_char_boundary};
use vstd::string::StringSliceAdditionalSpecFns;
use crate::text::{CharClass, chars_of, is_trail_start, lemma_trail_start_unique, push_str,
    string_from_range, trim_end_by};

verus! {

/// A base URL without its trailing slashes.
pub fn normalize_base_url(base_url: &str) -> (r: String)
    ensures
        r@ == trim_end_by(base_url@, CharClass::One('/')),
{
    let cs = chars_of(base_url);
    let n = cs.len();
    let mut b: usize = n;
    while b > 0 && cs[b - 1] == '/'
        invariant
            b <= n == cs@.len(),
            cs@ == base_url@,
            forall|j: int| b <= j < n ==> #[trigger] cs@[j] == '/',
        decreases b,
    {
        b = b - 1;
    }
    proof {
        assert(is_trail_start(cs@, CharClass::One('/'), b as int));
        lemma_trail_start_unique(cs@, CharClass::One('/'), b as int);
    }
    string_from_range(&cs, 0, b)
}

/// How many bytes of a response body an error message keeps.
pub const BODY_LIMIT: usize = 2048;

pub open spec fn truncation_suffix() -> Seq<char> {
    "…(truncated)"@
}

/// A response body cut to its first 2048 bytes, with a marker when it was
/// cut.  The cut must fall on a character boundary.
pub fn truncate_body(body: &str) -> (r: String)
    requires
        body.spec_bytes().len() <= usize::MAX,
        body.spec_bytes().len() > BODY_LIMIT ==> is_char_boundary(body.spec_bytes(), BODY_LIMIT as int),
    ensures
        body.spec_bytes().len() <= BODY_LIMIT ==> r@ == body@,
        body.spec_bytes().len() > BODY_LIMIT ==> r@ == decode_utf8(
            body.spec_bytes().subrange(0, BODY_LIMIT as int),
        ) + truncation_suffix(),
{
    if body.len() <= BODY_LIMIT {
        return body.to_owned();
    }
    let (head, _) = body.split_at(BODY_LIMIT);
    proof {
        vstd::utf8::encode_utf8_decode_utf8(head@);
        assert(head.spec_bytes() == encode_utf8(head@));
    }
    let mut truncated = head.to_owned();
    push_str(&mut truncated, "…(truncated)");
    truncated
}

} // verus!
