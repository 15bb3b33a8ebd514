//! The lexical classes of the characters that WKT text is made of.

use vstd::prelude::*;

use crate::parse_error::{ParseError, ParseErrorView, ParseResult};

verus! {

/// The lexical class of a character.
#[derive(PartialEq, Eq, Structural, Debug, Copy, Clone)]
pub enum CharClass {
    Whitespace,
    Character,
    LeftParen,
    RightParen,
    /// A decimal digit or the decimal point.
    Digit,
    Comma,
}

/// An ASCII letter, `A` to `Z` or `a` to `z`.
pub open spec fn is_letter(c: char) -> bool {
    ('A' <= c && c <= 'Z') || ('a' <= c && c <= 'z')
}

/// A decimal digit.
pub open spec fn is_decimal_digit(c: char) -> bool {
    '0' <= c && c <= '9'
}

/// A character with the Unicode property `White_Space`.
pub open spec fn is_whitespace(c: char) -> bool {
    ||| ('\u{9}' <= c && c <= '\u{d}')
    ||| c == ' '
    ||| c == '\u{85}'
    ||| c == '\u{a0}'
    ||| c == '\u{1680}'
    ||| ('\u{2000}' <= c && c <= '\u{200a}')
    ||| c == '\u{2028}'
    ||| c == '\u{2029}'
    ||| c == '\u{202f}'
    ||| c == '\u{205f}'
    ||| c == '\u{3000}'
}

/// The class of `c`, or `None` where `c` is outside the alphabet of WKT.
pub open spec fn class_of(c: char) -> Option<CharClass> {
    if c == '(' {
        Some(CharClass::LeftParen)
    } else if c == ')' {
        Some(CharClass::RightParen)
    } else if c == ',' {
        Some(CharClass::Comma)
    } else if is_letter(c) {
        Some(CharClass::Character)
    } else if is_decimal_digit(c) || c == '.' {
        Some(CharClass::Digit)
    } else if is_whitespace(c) {
        Some(CharClass::Whitespace)
    } else {
        None
    }
}

/// Whether `c` has the Unicode property `White_Space`.
pub fn char_is_whitespace(c: char) -> (r: bool)
    ensures
        r == is_whitespace(c),
{
    (c >= '\u{9}' && c <= '\u{d}') || c == ' ' || c == '\u{85}' || c == '\u{a0}' || c
        == '\u{1680}' || (c >= '\u{2000}' && c <= '\u{200a}') || c == '\u{2028}' || c
        == '\u{2029}' || c == '\u{202f}' || c == '\u{205f}' || c == '\u{3000}'
}

impl CharClass {
    /// Classifies one character. A character outside the alphabet is
    /// reported as `InvalidCharClass`, which carries it.
    pub fn of(c: char) -> (r: ParseResult<CharClass>)
        ensures
            match r {
                Ok(class) => class_of(c) == Some(class),
                Err(e) => class_of(c) is None && e@ == ParseErrorView::InvalidCharClass(c),
            },
    {
        if c == '(' {
            Ok(CharClass::LeftParen)
        } else if c == ')' {
            Ok(CharClass::RightParen)
        } else if c == ',' {
            Ok(CharClass::Comma)
        } else if (c >= 'A' && c <= 'Z') || (c >= 'a' && c <= 'z') {
            Ok(CharClass::Character)
        } else if (c >= '0' && c <= '9') || c == '.' {
            Ok(CharClass::Digit)
        } else if char_is_whitespace(c) {
            Ok(CharClass::Whitespace)
        } else {
            Err(ParseError::invalid_char_class(c))
        }
    }
}

} // verus!
