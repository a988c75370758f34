//! Names for the Unicode character facts the language leans on, and the
//! trusted calls into std that compute them.
use vstd::prelude::*;

verus! {

/// The Unicode lowercase mapping of a character sequence, as
/// `str::to_lowercase` computes it. It is a function of the characters alone.
pub uninterp spec fn lowercase_of(s: Seq<char>) -> Seq<char>;

/// Whether a character has the Unicode `White_Space` property, as
/// `char::is_whitespace` decides it. It is a function of the character alone.
pub uninterp spec fn whitespace_char(c: char) -> bool;

/// Whether a character is Unicode alphanumeric, as `char::is_alphanumeric`
/// decides it. It is a function of the character alone.
pub uninterp spec fn alphanumeric_char(c: char) -> bool;

/// Relies on `str::to_lowercase`: the Unicode lowercase mapping of the
/// characters, named `lowercase_of` here.
#[verifier::external_body]
pub(crate) fn to_lowercase(s: &str) -> (r: String)
    ensures
        r@ == lowercase_of(s@),
{
    s.to_lowercase()
}

/// Relies on `char::is_whitespace`: the Unicode `White_Space` property,
/// named `whitespace_char` here.
#[verifier::external_body]
pub(crate) fn is_whitespace(c: char) -> (r: bool)
    ensures
        r == whitespace_char(c),
{
    c.is_whitespace()
}

/// Relies on `char::is_alphanumeric`: the Unicode `Alphabetic` and numeric
/// character categories, named `alphanumeric_char` here.
#[verifier::external_body]
pub(crate) fn is_alphanumeric(c: char) -> (r: bool)
    ensures
        r == alphanumeric_char(c),
{
    c.is_alphanumeric()
}

} // verus!
