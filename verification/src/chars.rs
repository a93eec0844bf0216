//! Character classes of the language, and the contracts assumed of the two
//! standard-library functions whose behaviour is not proved here.

use vstd::prelude::*;

verus! {

/// Whether `c` is alphabetic or numeric in the sense of the Unicode standard.
///
/// This is the answer of `char::is_alphanumeric`; it depends on nothing but the
/// character, and the Unicode tables behind it are not restated here.
pub uninterp spec fn alphanumeric(c: char) -> bool;

/// Trusted: `char::is_alphanumeric` returns the Unicode classification that
/// [`alphanumeric`] names. Nothing more is assumed of it.
pub assume_specification[ char::is_alphanumeric ](c: char) -> (b: bool)
    ensures
        b == alphanumeric(c),
;

/// Trusted: `String::push` appends the character to the end of the string and
/// leaves the characters before it as they were.
pub assume_specification[ std::string::String::push ](s: &mut std::string::String, ch: char)
    ensures
        final(s)@ == old(s)@.push(ch),
;

/// Space, tab and carriage return separate tokens and carry no meaning.
pub open spec fn is_blank(c: char) -> bool {
    c == ' ' || c == '\t' || c == '\r'
}

/// The ASCII decimal digits.
pub open spec fn is_digit(c: char) -> bool {
    '0' <= c <= '9'
}

/// The ASCII letters, in either case.
pub open spec fn is_letter(c: char) -> bool {
    ('a' <= c <= 'z') || ('A' <= c <= 'Z')
}

/// A character that may open an identifier or keyword.
pub open spec fn is_word_start(c: char) -> bool {
    is_letter(c) || c == '_'
}

/// A character that may begin a numeric literal.
pub open spec fn is_number_start(c: char) -> bool {
    is_digit(c) || c == '.'
}

pub fn blank(c: char) -> (b: bool)
    ensures
        b == is_blank(c),
{
    c == ' ' || c == '\t' || c == '\r'
}

pub fn digit(c: char) -> (b: bool)
    ensures
        b == is_digit(c),
{
    '0' <= c && c <= '9'
}

pub fn word_start(c: char) -> (b: bool)
    ensures
        b == is_word_start(c),
{
    ('a' <= c && c <= 'z') || ('A' <= c && c <= 'Z') || c == '_'
}

pub fn number_start(c: char) -> (b: bool)
    ensures
        b == is_number_start(c),
{
    digit(c) || c == '.'
}

} // verus!
