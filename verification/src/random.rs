//! Random choices.

use vstd::prelude::*;

verus! {

/// `fastrand::i64` over an inclusive range: some number in the range. The function panics on an
/// empty range.
#[verifier::external_body]
pub(crate) fn random_i64(min: i64, max: i64) -> (r: i64)
    requires
        min <= max,
    ensures
        min <= r <= max,
{
    fastrand::i64(min..=max)
}

/// `fastrand::usize` over an inclusive range: some number in the range. The function panics on an
/// empty range.
#[verifier::external_body]
pub(crate) fn random_usize(min: usize, max: usize) -> (r: usize)
    requires
        min <= max,
    ensures
        min <= r <= max,
{
    fastrand::usize(min..=max)
}

/// An ASCII letter.
pub open spec fn is_letter(c: char) -> bool {
    ('a' <= c <= 'z') || ('A' <= c <= 'Z')
}

/// `fastrand::alphabetic`: some letter of a-z and A-Z.
#[verifier::external_body]
pub(crate) fn random_letter() -> (c: char)
    ensures
        is_letter(c),
{
    fastrand::alphabetic()
}

/// A digit of a lower case hexadecimal number.
pub open spec fn is_hex(c: char) -> bool {
    ('0' <= c <= '9') || ('a' <= c <= 'f')
}

/// Groups of 8, 4, 4, 4 and 12 hexadecimal digits with hyphens between them.
pub open spec fn is_uuid(s: Seq<char>) -> bool {
    &&& s.len() == 36
    &&& forall|i: int|
        0 <= i < 36 ==> if i == 8 || i == 13 || i == 18 || i == 23 {
            #[trigger] s[i] == '-'
        } else {
            is_hex(s[i])
        }
}

/// `uuid::Uuid::new_v4`, as its `Display` writes it: some identifier, in hyphenated lower case
/// form.
#[verifier::external_body]
pub(crate) fn random_uuid() -> (r: String)
    ensures
        is_uuid(r@),
{
    uuid::Uuid::new_v4().to_string()
}

} // verus!
