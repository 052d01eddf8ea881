//! Character classification and conversions between `str` and `Vec<char>`.
//!
//! Unicode classes and case mappings are computed by std; their results are
//! named here and the rest of the library is proved over those names.
use vstd::prelude::*;

verus! {

/// Whether `c` is alphabetic or numeric under Unicode (`char::is_alphanumeric`).
pub uninterp spec fn is_alnum(c: char) -> bool;

/// Whether `c` has the Unicode `Uppercase` property (`char::is_uppercase`).
pub uninterp spec fn is_upper(c: char) -> bool;

/// Whether `c` has the Unicode `Lowercase` property (`char::is_lowercase`).
pub uninterp spec fn is_lower(c: char) -> bool;

/// The Unicode lowercase mapping of `c` (`char::to_lowercase`).
pub uninterp spec fn lower_of(c: char) -> Seq<char>;

/// The Unicode uppercase mapping of `c` (`char::to_uppercase`).
pub uninterp spec fn upper_of(c: char) -> Seq<char>;

/// Relies on `str::chars`: yields the characters of `s` in order.
#[verifier::external_body]
pub(crate) fn chars_of(s: &str) -> (r: Vec<char>)
    ensures
        r@ == s@,
{
    s.chars().collect()
}

/// Relies on `String`'s `FromIterator<&char>`: the string of exactly these characters.
#[verifier::external_body]
pub(crate) fn string_of(v: &Vec<char>) -> (r: String)
    ensures
        r@ == v@,
{
    v.iter().collect()
}

/// Relies on `char::is_alphanumeric`.
#[verifier::external_body]
pub(crate) fn alnum(c: char) -> (r: bool)
    ensures
        r == is_alnum(c),
{
    c.is_alphanumeric()
}

/// Relies on `char::is_uppercase`.
#[verifier::external_body]
pub(crate) fn upper(c: char) -> (r: bool)
    ensures
        r == is_upper(c),
{
    c.is_uppercase()
}

/// Relies on `char::is_lowercase`.
#[verifier::external_body]
pub(crate) fn lower(c: char) -> (r: bool)
    ensures
        r == is_lower(c),
{
    c.is_lowercase()
}

/// Relies on `char::to_lowercase`: the characters of its lowercase mapping.
#[verifier::external_body]
pub(crate) fn to_lower(c: char) -> (r: Vec<char>)
    ensures
        r@ == lower_of(c),
{
    c.to_lowercase().collect()
}

/// Relies on `char::to_uppercase`: the characters of its uppercase mapping.
#[verifier::external_body]
pub(crate) fn to_upper(c: char) -> (r: Vec<char>)
    ensures
        r@ == upper_of(c),
{
    c.to_uppercase().collect()
}

} // verus!
