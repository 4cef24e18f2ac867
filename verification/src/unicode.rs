//! Properties of characters that the Unicode tables of the standard library decide.

use vstd::prelude::*;

verus! {

/// The lowercase equivalent of a text.
pub uninterp spec fn lowercase(s: Seq<char>) -> Seq<char>;

/// Whether a character is alphabetic or numeric.
pub uninterp spec fn alphanumeric(c: char) -> bool;

/// The lowercase equivalent of `s`, as `str::to_lowercase` gives it. Nothing is said of
/// it but that it is determined by the text.
#[verifier::external_body]
pub(crate) fn to_lower(s: &str) -> (r: String)
    ensures
        r@ == lowercase(s@),
{
    s.to_lowercase()
}

/// Whether `char::is_alphanumeric` holds of `c`. Nothing is said of it but that it is
/// determined by the character.
#[verifier::external_body]
pub(crate) fn is_alphanumeric(c: char) -> (r: bool)
    ensures
        r == alphanumeric(c),
{
    c.is_alphanumeric()
}

} // verus!
