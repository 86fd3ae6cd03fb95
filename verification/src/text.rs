//! Trusted bindings for the Unicode-aware character and string operations of
//! std that the parsers and the normalizer rely on. The classification and
//! case-mapping tables are far too large to restate, so each result is given
//! a name (an uninterpreted spec function); the rest of the crate is verified
//! against those names.

use vstd::prelude::*;

verus! {

/// What `char::is_alphanumeric` returns: whether the character is in the
/// Unicode categories Alphabetic, Nd, Nl or No. A function of the character
/// alone.
pub uninterp spec fn is_unicode_alphanumeric(c: char) -> bool;

/// What `char::is_alphabetic` returns: whether the character has the Unicode
/// Alphabetic property. A function of the character alone.
pub uninterp spec fn is_unicode_alphabetic(c: char) -> bool;

/// What `str::to_uppercase` returns, as a sequence of characters: the Unicode
/// uppercase equivalent of the input sequence. A function of the characters
/// alone; the result may be longer than the input.
pub uninterp spec fn upper_of(s: Seq<char>) -> Seq<char>;

/// The first character yielded by `char::to_uppercase`: the leading character
/// of the Unicode uppercase mapping of `c`. A function of the character alone.
pub uninterp spec fn upper_first_of(c: char) -> char;

/// Relies on char::is_alphanumeric: a pure classification by the Unicode
/// character tables.
pub assume_specification[ char::is_alphanumeric ](c: char) -> (r: bool)
    ensures
        r == is_unicode_alphanumeric(c),
;

/// Relies on char::is_alphabetic: a pure classification by the Unicode
/// character tables.
pub assume_specification[ char::is_alphabetic ](c: char) -> (r: bool)
    ensures
        r == is_unicode_alphabetic(c),
;

/// Relies on str::to_uppercase: the uppercase equivalent of the string,
/// determined by the characters alone.
pub assume_specification[ str::to_uppercase ](s: &str) -> (r: String)
    ensures
        r@ == upper_of(s@),
;

/// Relies on String::push: appends exactly the given character to the end of
/// the string.
pub assume_specification[ String::push ](s: &mut String, c: char)
    ensures
        final(s)@ == old(s)@.push(c),
;

/// Relies on char::to_uppercase: its documentation guarantees the iterator
/// yields at least one character, so the unwrap cannot panic; the first
/// character of the mapping is returned.
#[verifier::external_body]
pub(crate) fn uppercase_char(c: char) -> (r: char)
    ensures
        r == upper_first_of(c),
{
    c.to_uppercase().next().unwrap()
}

} // verus!
