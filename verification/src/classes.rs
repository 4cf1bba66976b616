//! Character classification used by the lexer.
//!
//! The decimal, hexadecimal and whitespace classes are small fixed sets and
//! are defined outright. The identifier classes follow Unicode, so their
//! non-ASCII part is named abstractly and supplied by `char`'s own methods.

use vstd::prelude::*;

verus! {

/// A decimal digit, `0` through `9`.
pub open spec fn dec_digit(c: char) -> bool {
    '0' <= c && c <= '9'
}

/// A hexadecimal digit: decimal, or `a` through `f` in either case.
pub open spec fn hex_digit(c: char) -> bool {
    dec_digit(c) || ('a' <= c && c <= 'f') || ('A' <= c && c <= 'F')
}

/// The Unicode `White_Space` set, which `char::is_whitespace` recognizes.
pub open spec fn whitespace_char(c: char) -> bool {
    ('\u{9}' <= c && c <= '\u{d}') || c == ' ' || c == '\u{85}' || c == '\u{a0}'
        || c == '\u{1680}' || ('\u{2000}' <= c && c <= '\u{200a}') || c == '\u{2028}'
        || c == '\u{2029}' || c == '\u{202f}' || c == '\u{205f}' || c == '\u{3000}'
}

/// Whether `c` lies in the ASCII range.
pub open spec fn ascii_char(c: char) -> bool {
    c <= '\u{7f}'
}

/// What `char::is_lowercase` holds of characters beyond ASCII.
pub uninterp spec fn ext_lowercase(c: char) -> bool;

/// What `char::is_uppercase` holds of characters beyond ASCII.
pub uninterp spec fn ext_uppercase(c: char) -> bool;

/// What `char::is_alphabetic` holds of characters beyond ASCII.
pub uninterp spec fn ext_alphabetic(c: char) -> bool;

/// What `char::is_numeric` holds of characters beyond ASCII.
pub uninterp spec fn ext_numeric(c: char) -> bool;

/// The class `char::is_lowercase` decides: `a`-`z` in ASCII.
pub open spec fn lowercase_char(c: char) -> bool {
    if ascii_char(c) {
        'a' <= c && c <= 'z'
    } else {
        ext_lowercase(c)
    }
}

/// The class `char::is_uppercase` decides: `A`-`Z` in ASCII.
pub open spec fn uppercase_char(c: char) -> bool {
    if ascii_char(c) {
        'A' <= c && c <= 'Z'
    } else {
        ext_uppercase(c)
    }
}

/// The class `char::is_alphabetic` decides: the letters in ASCII; beyond,
/// the `Alphabetic` property, which no `White_Space` character has.
pub open spec fn alphabetic_char(c: char) -> bool {
    if ascii_char(c) {
        ('a' <= c && c <= 'z') || ('A' <= c && c <= 'Z')
    } else {
        !whitespace_char(c) && ext_alphabetic(c)
    }
}

/// The class `char::is_alphanumeric` decides: letters and digits in ASCII;
/// beyond, alphabetic or numeric, which no `White_Space` character is.
pub open spec fn alphanumeric_char(c: char) -> bool {
    if ascii_char(c) {
        ('a' <= c && c <= 'z') || ('A' <= c && c <= 'Z') || dec_digit(c)
    } else {
        !whitespace_char(c) && (ext_alphabetic(c) || ext_numeric(c))
    }
}

/// A character that opens a lowercase identifier.
pub open spec fn lower_start(c: char) -> bool {
    lowercase_char(c) && alphabetic_char(c)
}

/// A character that opens an uppercase identifier.
pub open spec fn upper_start(c: char) -> bool {
    uppercase_char(c) && alphabetic_char(c)
}

/// Relies on `char::is_lowercase`: in ASCII it accepts exactly `a`-`z`;
/// beyond ASCII its verdict depends on the character alone.
#[verifier::external_body]
pub(crate) fn char_lowercase(c: char) -> (r: bool)
    ensures
        r == lowercase_char(c),
        !ascii_char(c) ==> r == ext_lowercase(c),
{
    c.is_lowercase()
}

/// Relies on `char::is_uppercase`: in ASCII it accepts exactly `A`-`Z`;
/// beyond ASCII its verdict depends on the character alone.
#[verifier::external_body]
pub(crate) fn char_uppercase(c: char) -> (r: bool)
    ensures
        r == uppercase_char(c),
        !ascii_char(c) ==> r == ext_uppercase(c),
{
    c.is_uppercase()
}

/// Relies on `char::is_alphabetic`: in ASCII it accepts exactly the letters;
/// beyond ASCII its verdict depends on the character alone, and it accepts
/// no `White_Space` character (the two Unicode properties are disjoint).
#[verifier::external_body]
pub(crate) fn char_alphabetic(c: char) -> (r: bool)
    ensures
        r == alphabetic_char(c),
        !ascii_char(c) ==> r == ext_alphabetic(c),
{
    c.is_alphabetic()
}

/// Relies on `char::is_alphanumeric`, which accepts exactly what
/// `char::is_alphabetic` or `char::is_numeric` accepts: in ASCII the letters
/// and digits; beyond ASCII its verdict depends on the character alone, and
/// it accepts no `White_Space` character (that property is disjoint from
/// both).
#[verifier::external_body]
pub(crate) fn char_alphanumeric(c: char) -> (r: bool)
    ensures
        r == alphanumeric_char(c),
        !ascii_char(c) ==> r == (ext_alphabetic(c) || ext_numeric(c)),
{
    c.is_alphanumeric()
}

/// Decides `whitespace_char` by listing the `White_Space` set.
pub(crate) fn char_whitespace(c: char) -> (r: bool)
    ensures
        r == whitespace_char(c),
{
    ('\u{9}' <= c && c <= '\u{d}') || c == ' ' || c == '\u{85}' || c == '\u{a0}'
        || c == '\u{1680}' || ('\u{2000}' <= c && c <= '\u{200a}') || c == '\u{2028}'
        || c == '\u{2029}' || c == '\u{202f}' || c == '\u{205f}' || c == '\u{3000}'
}

/// Decides `dec_digit`.
pub(crate) fn char_dec_digit(c: char) -> (r: bool)
    ensures
        r == dec_digit(c),
{
    '0' <= c && c <= '9'
}

/// Decides `hex_digit`.
pub(crate) fn char_hex_digit(c: char) -> (r: bool)
    ensures
        r == hex_digit(c),
{
    char_dec_digit(c) || ('a' <= c && c <= 'f') || ('A' <= c && c <= 'F')
}

/// Decides `lower_start`.
pub(crate) fn char_lower_start(c: char) -> (r: bool)
    ensures
        r == lower_start(c),
{
    char_lowercase(c) && char_alphabetic(c)
}

/// Decides `upper_start`.
pub(crate) fn char_upper_start(c: char) -> (r: bool)
    ensures
        r == upper_start(c),
{
    char_uppercase(c) && char_alphabetic(c)
}

} // verus!
