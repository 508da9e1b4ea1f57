//! Character classes of the term syntax: whitespace, letters, digits, and the
//! characters that may form a name.
//!
//! ASCII characters are classified here, so that what is proved of the
//! punctuation does not rest on tables; for all other characters the Unicode
//! tables of the standard library decide.

use vstd::prelude::*;

verus! {

/// What `char::is_whitespace` returns for the character: whether it has the
/// Unicode property `White_Space`.
pub uninterp spec fn unicode_white_space(c: char) -> bool;

/// What `char::is_alphabetic` returns for the character: whether it has the
/// Unicode property `Alphabetic`.
pub uninterp spec fn unicode_alphabetic(c: char) -> bool;

/// What `char::is_numeric` returns for the character: whether it is in one
/// of the Unicode categories for numbers.
pub uninterp spec fn unicode_numeric(c: char) -> bool;

/// `char::is_whitespace` returns the same for the same character. Nothing
/// more is assumed of it.
pub assume_specification[ char::is_whitespace ](c: char) -> (r: bool)
    ensures
        r == unicode_white_space(c),
;

/// `char::is_alphabetic` returns the same for the same character. Nothing
/// more is assumed of it.
pub assume_specification[ char::is_alphabetic ](c: char) -> (r: bool)
    ensures
        r == unicode_alphabetic(c),
;

/// `char::is_numeric` returns the same for the same character. Nothing more
/// is assumed of it.
pub assume_specification[ char::is_numeric ](c: char) -> (r: bool)
    ensures
        r == unicode_numeric(c),
;

/// The character is in the ASCII range.
pub open spec fn is_ascii_char(c: char) -> bool {
    c <= '\x7f'
}

/// Whitespace: space, tab, line feed, vertical tab, form feed and carriage
/// return in ASCII, and the Unicode whitespace beyond it.
pub open spec fn is_blank(c: char) -> bool {
    if is_ascii_char(c) {
        c == ' ' || ('\t' <= c && c <= '\r')
    } else {
        unicode_white_space(c)
    }
}

/// A letter: `a` to `z` and `A` to `Z` in ASCII, and the Unicode alphabetic
/// characters beyond it.
pub open spec fn is_letter(c: char) -> bool {
    if is_ascii_char(c) {
        ('a' <= c && c <= 'z') || ('A' <= c && c <= 'Z')
    } else {
        unicode_alphabetic(c)
    }
}

/// A digit: `0` to `9` in ASCII, and the Unicode numeric characters beyond it.
pub open spec fn is_digit(c: char) -> bool {
    if is_ascii_char(c) {
        '0' <= c && c <= '9'
    } else {
        unicode_numeric(c)
    }
}

/// The punctuation of the term syntax.
pub open spec fn is_punctuation(c: char) -> bool {
    c == '(' || c == ')' || c == '\\' || c == '.' || c == '$'
}

/// A character that may stand anywhere in a name: a letter, a digit or an
/// underscore. Whitespace is never part of a name, whatever the Unicode
/// tables say of a character.
pub open spec fn is_name_char(c: char) -> bool {
    c == '_' || ((is_letter(c) || is_digit(c)) && !is_blank(c))
}

/// A character that may begin a name: a letter or an underscore, not a digit.
pub open spec fn is_name_start(c: char) -> bool {
    c == '_' || (is_letter(c) && !is_blank(c))
}

/// Punctuation and whitespace never occur in a name, a name's first
/// character may also continue it, and neither punctuation nor an underscore
/// is whitespace.
pub proof fn lemma_classes_disjoint(c: char)
    ensures
        is_name_start(c) ==> is_name_char(c),
        is_name_char(c) ==> !is_punctuation(c) && !is_blank(c),
        is_punctuation(c) ==> !is_blank(c),
{
}

/// Whether the character is whitespace.
pub fn blank(c: char) -> (r: bool)
    ensures
        r == is_blank(c),
{
    if c <= '\x7f' {
        c == ' ' || ('\t' <= c && c <= '\r')
    } else {
        c.is_whitespace()
    }
}

/// Whether the character is a letter.
pub fn letter(c: char) -> (r: bool)
    ensures
        r == is_letter(c),
{
    if c <= '\x7f' {
        ('a' <= c && c <= 'z') || ('A' <= c && c <= 'Z')
    } else {
        c.is_alphabetic()
    }
}

/// Whether the character is a digit.
pub fn digit(c: char) -> (r: bool)
    ensures
        r == is_digit(c),
{
    if c <= '\x7f' {
        '0' <= c && c <= '9'
    } else {
        c.is_numeric()
    }
}

/// Whether the character may stand in a name.
pub fn name_char(c: char) -> (r: bool)
    ensures
        r == is_name_char(c),
{
    c == '_' || ((letter(c) || digit(c)) && !blank(c))
}

/// Whether the character may begin a name.
pub fn name_start(c: char) -> (r: bool)
    ensures
        r == is_name_start(c),
{
    c == '_' || (letter(c) && !blank(c))
}

} // verus!
