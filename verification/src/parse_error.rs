//! The errors that reading WKT text can end in.

use vstd::prelude::*;
use vstd::string::*;

use crate::decimal::{decimal, push_decimal};
use crate::tokenizer::Token;

verus! {

/// The result of reading: a value, or the error that stopped the reading.
pub type ParseResult<T> = Result<T, ParseError>;

/// An error met while reading WKT text.
#[derive(Debug, Clone, PartialEq)]
pub struct ParseError {
    pub error_type: ParseErrorType,
}

/// What went wrong, with the place or the text at fault.
#[derive(Debug, Clone, PartialEq)]
pub enum ParseErrorType {
    /// A token that cannot stand where it was found: its offset and text.
    InvalidToken(usize, String),
    /// A character outside the alphabet of WKT.
    InvalidCharClass(char),
    /// A leading word that names no geometry type.
    UnknownGeometryType(String),
    /// A first token that is not a word.
    UnexpectedInitialChars(String),
    /// Text without any token.
    EmptyWkt,
    /// Text that ends inside a coordinate group: the offset of its end.
    EmptyCoordinateSequence(usize),
}

/// The mathematical value of a [`ParseError`].
pub enum ParseErrorView {
    InvalidToken(nat, Seq<char>),
    InvalidCharClass(char),
    UnknownGeometryType(Seq<char>),
    UnexpectedInitialChars(Seq<char>),
    EmptyWkt,
    EmptyCoordinateSequence(nat),
}

impl View for ParseErrorType {
    type V = ParseErrorView;

    open spec fn view(&self) -> ParseErrorView {
        match *self {
            ParseErrorType::InvalidToken(index, text) => ParseErrorView::InvalidToken(
                index as nat,
                text@,
            ),
            ParseErrorType::InvalidCharClass(c) => ParseErrorView::InvalidCharClass(c),
            ParseErrorType::UnknownGeometryType(text) => ParseErrorView::UnknownGeometryType(
                text@,
            ),
            ParseErrorType::UnexpectedInitialChars(text) => ParseErrorView::UnexpectedInitialChars(
                text@,
            ),
            ParseErrorType::EmptyWkt => ParseErrorView::EmptyWkt,
            ParseErrorType::EmptyCoordinateSequence(index) => ParseErrorView::EmptyCoordinateSequence(
                index as nat,
            ),
        }
    }
}

impl View for ParseError {
    type V = ParseErrorView;

    open spec fn view(&self) -> ParseErrorView {
        self.error_type@
    }
}

/// The message of an error, as it is shown to a reader.
pub open spec fn message(e: ParseErrorView) -> Seq<char> {
    "Error parsing wkt string. "@ + match e {
        ParseErrorView::InvalidCharClass(c) => "Invalid character '"@ + seq![c] + "'"@,
        ParseErrorView::UnknownGeometryType(text) => "Unknown geometry type: "@ + text,
        ParseErrorView::UnexpectedInitialChars(text) => "Unexpected initial characters: '"@
            + text + "'"@,
        ParseErrorView::EmptyWkt => "Empty WKT"@,
        ParseErrorView::InvalidToken(index, text) => "Invalid token at index "@ + decimal(index)
            + ": '"@ + text + "'"@,
        ParseErrorView::EmptyCoordinateSequence(index) => "Empty coordinate sequence at index "@
            + decimal(index),
    }
}

impl ParseError {
    /// The message of the error.
    pub fn to_string(&self) -> (s: String)
        ensures
            s@ == message(self@),
    {
        let mut s = String::new();
        s.append("Error parsing wkt string. ");
        match &self.error_type {
            ParseErrorType::InvalidCharClass(c) => {
                s.append("Invalid character '");
                s.push(*c);
                s.append("'");
            },
            ParseErrorType::UnknownGeometryType(text) => {
                s.append("Unknown geometry type: ");
                s.append(text.as_str());
            },
            ParseErrorType::UnexpectedInitialChars(text) => {
                s.append("Unexpected initial characters: '");
                s.append(text.as_str());
                s.append("'");
            },
            ParseErrorType::EmptyWkt => {
                s.append("Empty WKT");
            },
            ParseErrorType::InvalidToken(index, text) => {
                s.append("Invalid token at index ");
                push_decimal(&mut s, *index);
                s.append(": '");
                s.append(text.as_str());
                s.append("'");
            },
            ParseErrorType::EmptyCoordinateSequence(index) => {
                s.append("Empty coordinate sequence at index ");
                push_decimal(&mut s, *index);
            },
        }
        s
    }

    /// The error for `c`, a character outside the alphabet.
    pub fn invalid_char_class(c: char) -> (e: ParseError)
        ensures
            e@ == ParseErrorView::InvalidCharClass(c),
    {
        ParseError { error_type: ParseErrorType::InvalidCharClass(c) }
    }

    /// The error for `s`, a word that names no geometry type.
    pub fn unknown_geometry_type(s: &str) -> (e: ParseError)
        ensures
            e@ == ParseErrorView::UnknownGeometryType(s@),
    {
        ParseError { error_type: ParseErrorType::UnknownGeometryType(s.to_owned()) }
    }

    /// The error for `s`, a first token that is not a word.
    pub fn unexpected_initial_chars(s: &str) -> (e: ParseError)
        ensures
            e@ == ParseErrorView::UnexpectedInitialChars(s@),
    {
        ParseError { error_type: ParseErrorType::UnexpectedInitialChars(s.to_owned()) }
    }

    /// The error for text without any token.
    pub fn empty_wkt() -> (e: ParseError)
        ensures
            e@ == ParseErrorView::EmptyWkt,
    {
        ParseError { error_type: ParseErrorType::EmptyWkt }
    }

    /// The error for `token`, which cannot stand where it was found.
    pub fn invalid_token(token: &Token) -> (e: ParseError)
        ensures
            e@ == ParseErrorView::InvalidToken(token@.index, token@.value),
    {
        ParseError { error_type: ParseErrorType::InvalidToken(token.index, token.value.to_owned()) }
    }

    /// The error for text that ends, at `index`, inside a coordinate group.
    pub fn empty_coordinate_sequence(index: usize) -> (e: ParseError)
        ensures
            e@ == ParseErrorView::EmptyCoordinateSequence(index as nat),
    {
        ParseError { error_type: ParseErrorType::EmptyCoordinateSequence(index) }
    }
}

} // verus!
