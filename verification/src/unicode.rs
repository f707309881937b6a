//! The Unicode-table queries of std that the text logic relies on. Their
//! answers come from Unicode data tables that take pages to state, so each is
//! named here and the std function is called behind a wrapper whose contract
//! ties the result to that name.
use vstd::prelude::*;

use crate::text::{ascii_lower, is_ascii_alphanumeric_char, is_ascii_lower_char, is_ascii_upper_char};

verus! {

/// What `char::is_alphanumeric` answers for a character (the Unicode
/// `Alphabetic` property or a numeric general category).
pub uninterp spec fn alphanumeric(c: char) -> bool;

/// What `char::is_alphabetic` answers for a character (the Unicode
/// `Alphabetic` property).
pub uninterp spec fn alphabetic(c: char) -> bool;

/// What `str::to_lowercase` returns for a string (full Unicode lower-case
/// mapping, with the context-dependent final sigma).
pub uninterp spec fn lowercase_str(s: Seq<char>) -> Seq<char>;

/// The characters that `char::to_lowercase` yields for a character.
pub uninterp spec fn lowercase_char(c: char) -> Seq<char>;

/// What `String::from_utf8_lossy` decodes a byte string to.
pub uninterp spec fn utf8_lossy(bytes: Seq<u8>) -> Seq<char>;

/// Calls `char::is_alphanumeric`; the contract claims that the answer is the
/// one the name `alphanumeric` stands for and, for an ASCII character, that it
/// is a letter or a digit.
#[verifier::external_body]
pub(crate) fn is_alphanumeric(c: char) -> (b: bool)
    ensures
        b == alphanumeric(c),
        c <= '\x7F' ==> (b <==> is_ascii_alphanumeric_char(c)),
{
    c.is_alphanumeric()
}

/// Calls `char::is_alphabetic`; the contract claims that the answer is the
/// one the name `alphabetic` stands for and, for an ASCII character, that it
/// is a letter.
#[verifier::external_body]
pub(crate) fn is_alphabetic(c: char) -> (b: bool)
    ensures
        b == alphabetic(c),
        c <= '\x7F' ==> (b <==> (is_ascii_upper_char(c) || is_ascii_lower_char(c))),
{
    c.is_alphabetic()
}

/// Calls `str::to_lowercase`; the contract claims that the result is the
/// string the name `lowercase_str` stands for and that an ASCII string has
/// its capital letters lowered and nothing else changed.
#[verifier::external_body]
pub(crate) fn to_lowercase(s: &str) -> (r: String)
    ensures
        r@ == lowercase_str(s@),
        (forall|i: int| 0 <= i < s@.len() ==> #[trigger] s@[i] <= '\x7F') ==> r@ == s@.map_values(
            |c: char| ascii_lower(c),
        ),
{
    s.to_lowercase()
}

/// Calls `char::to_lowercase` and collects what it yields; the contract claims
/// that those characters are the ones the name `lowercase_char` stands for
/// and that an ASCII character yields itself, lowered if it is a capital.
#[verifier::external_body]
pub(crate) fn char_to_lowercase(c: char) -> (r: Vec<char>)
    ensures
        r@ == lowercase_char(c),
        c <= '\x7F' ==> r@ == seq![ascii_lower(c)],
{
    c.to_lowercase().collect()
}

/// Calls `String::from_utf8_lossy`. The contract claims that the result is
/// the decoding the name `utf8_lossy` stands for and, as the std
/// documentation states, that valid UTF-8 is decoded unchanged.
#[verifier::external_body]
pub(crate) fn from_utf8_lossy(bytes: &[u8]) -> (r: String)
    ensures
        r@ == utf8_lossy(bytes@),
        vstd::utf8::valid_utf8(bytes@) ==> r@ == vstd::utf8::decode_utf8(bytes@),
{
    String::from_utf8_lossy(bytes).into_owned()
}

} // verus!
