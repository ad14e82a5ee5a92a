//! The one table that says what a character means to the scanner.

use vstd::prelude::*;

verus! {

/// What a character is to the scanner.
#[derive(Clone, Copy, Debug, PartialEq, Eq, Structural)]
pub enum CharClass {
    /// `#`, which opens a hashtag.
    Marker,
    /// Space, tab, carriage return or line feed.
    Whitespace,
    /// Punctuation that cannot stand inside a hashtag.
    Terminator,
    /// Anything else: letters, digits, `_`, other scripts, emoji.
    Ordinary,
}

/// The punctuation that ends a hashtag, beside the marker and whitespace.
pub open spec fn is_terminator_char(c: char) -> bool {
    c == '\'' || c == '%' || c == '"' || c == '!' || c == '@' || c == '\u{20ac}' || c == '$'
        || c == '^' || c == '&' || c == '*' || c == '(' || c == ')' || c == '.' || c == ','
        || c == '-' || c == '<' || c == '>' || c == '/' || c == '\\' || c == '|' || c == '['
        || c == ']' || c == '{' || c == '}' || c == '`' || c == '~' || c == '=' || c == '+'
        || c == ';' || c == '?' || c == '\u{a3}' || c == '\u{2022}' || c == '\u{b4}' || c == ':'
}

/// The class of `c`. Every other classification in this crate is derived
/// from this function.
pub open spec fn char_class(c: char) -> CharClass {
    if c == '#' {
        CharClass::Marker
    } else if c == ' ' || c == '\t' || c == '\r' || c == '\n' {
        CharClass::Whitespace
    } else if is_terminator_char(c) {
        CharClass::Terminator
    } else {
        CharClass::Ordinary
    }
}

/// Classifies one character.
pub fn classify(c: char) -> (class: CharClass)
    ensures
        class == char_class(c),
{
    if c == '#' {
        CharClass::Marker
    } else if c == ' ' || c == '\t' || c == '\r' || c == '\n' {
        CharClass::Whitespace
    } else if c == '\'' || c == '%' || c == '"' || c == '!' || c == '@' || c == '\u{20ac}' || c
        == '$' || c == '^' || c == '&' || c == '*' || c == '(' || c == ')' || c == '.' || c == ','
        || c == '-' || c == '<' || c == '>' || c == '/' || c == '\\' || c == '|' || c == '[' || c
        == ']' || c == '{' || c == '}' || c == '`' || c == '~' || c == '=' || c == '+' || c == ';'
        || c == '?' || c == '\u{a3}' || c == '\u{2022}' || c == '\u{b4}' || c == ':' {
        CharClass::Terminator
    } else {
        CharClass::Ordinary
    }
}

/// Whether `c` ends a hashtag that is being read: true of everything but
/// ordinary characters.
pub open spec fn ends_hashtag(c: char) -> bool {
    char_class(c) != CharClass::Ordinary
}

/// Whether `c` ends a hashtag that is being read.
pub fn is_end_of_hashtag(c: char) -> (b: bool)
    ensures
        b == ends_hashtag(c),
{
    match classify(c) {
        CharClass::Ordinary => false,
        _ => true,
    }
}

} // verus!
