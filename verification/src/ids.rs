//! Fresh identifiers and secret tokens: random UUIDs in text form, and the
//! prefixed tokens built from them.
use vstd::prelude::*;

use crate::text::owned;

verus! {

/// A lowercase hexadecimal digit.
pub open spec fn is_hex_lower(c: char) -> bool {
    ('0' <= c && c <= '9') || ('a' <= c && c <= 'f')
}

/// The hyphenated text form of a UUID: 8-4-4-4-12 lowercase hexadecimal digits.
pub open spec fn is_uuid_text(s: Seq<char>) -> bool {
    &&& s.len() == 36
    &&& forall|i: int|
        0 <= i < 36 ==> if i == 8 || i == 13 || i == 18 || i == 23 {
            #[trigger] s[i] == '-'
        } else {
            is_hex_lower(s[i])
        }
}

/// The simple text form of a UUID: 32 lowercase hexadecimal digits.
pub open spec fn is_uuid_simple_text(s: Seq<char>) -> bool {
    &&& s.len() == 32
    &&& forall|i: int| 0 <= i < 32 ==> is_hex_lower(#[trigger] s[i])
}

/// Calls `uuid::Uuid::new_v4` and writes it hyphenated.  The value is random;
/// only its textual shape is claimed.
#[verifier::external_body]
pub(crate) fn new_uuid_text() -> (r: String)
    ensures
        is_uuid_text(r@),
{
    uuid::Uuid::new_v4().to_string()
}

/// Calls `uuid::Uuid::new_v4` and writes it in the simple form.  The value is
/// random; only its textual shape is claimed.
#[verifier::external_body]
pub(crate) fn new_uuid_simple_text() -> (r: String)
    ensures
        is_uuid_simple_text(r@),
{
    uuid::Uuid::new_v4().simple().to_string()
}

/// `prefix` followed by two fresh UUIDs, each after an underscore.
pub open spec fn is_token_with(prefix: Seq<char>, t: Seq<char>) -> bool {
    exists|a: Seq<char>, b: Seq<char>|
        is_uuid_text(a) && is_uuid_text(b) && t == prefix + a + seq!['_'] + b
}

/// A fresh secret token: `<prefix><uuid>_<uuid>`.
pub fn new_token(prefix: &str) -> (r: String)
    ensures
        is_token_with(prefix@, r@),
{
    proof {
        reveal_strlit("_");
    }
    let a = new_uuid_text();
    let b = new_uuid_text();
    let mut t = owned(prefix);
    t.append(a.as_str());
    t.append("_");
    t.append(b.as_str());
    assert(t@ == prefix@ + a@ + seq!['_'] + b@);
    t
}

/// The lowercase form of `s` under Unicode's full lowercase mapping.
pub uninterp spec fn lowercase(s: Seq<char>) -> Seq<char>;

/// Calls `str::to_lowercase` (Unicode full lowercase mapping).
#[verifier::external_body]
pub(crate) fn to_lowercase(s: &str) -> (r: String)
    ensures
        r@ == lowercase(s@),
{
    s.to_lowercase()
}

} // verus!
