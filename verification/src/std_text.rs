//! Contracts for the few `String` and `char` operations of std that vstd
//! leaves without a specification.

use vstd::prelude::*;

verus! {

/// `String::push` appends one character (std documentation: "Appends the
/// given char to the end of this String").
pub assume_specification[ String::push ](s: &mut String, ch: char)
    ensures
        final(s)@ == old(s)@.push(ch),
;

/// `std::io::Error`, carried through as the error of terminal operations.
#[verifier::external_type_specification]
#[verifier::external_body]
pub struct ExIoError(std::io::Error);

/// What `str::to_lowercase` gives for a string.
pub uninterp spec fn lowercase(s: Seq<char>) -> Seq<char>;

/// `str::to_lowercase`: the Unicode lowercase mapping of the string (std
/// documentation; a final sigma is mapped by its context, so the mapping
/// is of the whole string, not of each character alone); the result is
/// named `lowercase` of the argument.
#[verifier::external_body]
pub(crate) fn to_lowercase(s: &str) -> (r: String)
    ensures
        r@ == lowercase(s@),
{
    s.to_lowercase()
}

/// `String::pop` removes the last character and gives it, or gives `None`
/// for an empty string (std documentation).
pub assume_specification[ String::pop ](s: &mut String) -> (r: Option<char>)
    ensures
        old(s)@.len() == 0 ==> r is None && final(s)@ == old(s)@,
        old(s)@.len() > 0 ==> r == Some(old(s)@.last()) && final(s)@ == old(s)@.drop_last(),
;

/// What `str::to_uppercase` gives for a string.
pub uninterp spec fn uppercase(s: Seq<char>) -> Seq<char>;

/// `str::to_uppercase`: the uppercase mapping of each character, in order
/// (std documentation); the result is named `uppercase` of the argument.
#[verifier::external_body]
pub(crate) fn to_uppercase(s: &str) -> (r: String)
    ensures
        r@ == uppercase(s@),
{
    s.to_uppercase()
}

/// What `char::to_uppercase` yields for a character (one to three
/// characters).
pub uninterp spec fn char_uppercase(c: char) -> Seq<char>;

/// `char::to_uppercase`, collected into a string: the characters of the
/// uppercase mapping of `c` (std documentation); they are named
/// `char_uppercase` of `c`.
#[verifier::external_body]
pub(crate) fn char_to_uppercase(c: char) -> (r: String)
    ensures
        r@ == char_uppercase(c),
{
    c.to_uppercase().collect::<String>()
}

/// Whether two strings hold the same characters.
pub fn same_text(a: &str, b: &str) -> (r: bool)
    ensures
        r == (a@ == b@),
{
    let x = a.to_owned();
    let y = b.to_owned();
    x == y
}

/// Whether `char::is_alphanumeric` holds of a character.
pub uninterp spec fn alphanumeric(c: char) -> bool;

/// `char::is_alphanumeric`: the character is alphabetic or numeric in
/// Unicode (std documentation); the answer is named `alphanumeric`.
#[verifier::external_body]
pub(crate) fn is_alphanumeric(c: char) -> (b: bool)
    ensures
        b == alphanumeric(c),
{
    c.is_alphanumeric()
}

} // verus!
