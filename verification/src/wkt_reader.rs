//! The reader of a WKT text. It starts in the phase `Start`; reading the
//! word that heads the text moves it to the phase `Geometry`, in which the
//! geometry type is known.

use vstd::prelude::*;

use crate::char_class::CharClass;
use crate::cursor::{start_of, Cursor};
use crate::geometry::{
    expect_end, geometry_view, read_body, whole_at, GeometryView, ParsedGeometry,
};
use crate::geometry_type::{geometry_type_named, GeometryType};
use crate::parse_error::{ParseError, ParseErrorView, ParseResult};
use crate::tokenizer::Tokenizer;

verus! {

/// The geometry type that heads the text at `cursor`: the first token that
/// is not whitespace has to be a word, and the word has to name a geometry
/// type.
pub open spec fn header_at(cursor: Cursor) -> Result<GeometryType, ParseErrorView> {
    match cursor.first_significant() {
        None => Err(ParseErrorView::EmptyWkt),
        Some(Err(e)) => Err(e),
        Some(Ok(token)) => if token.char_class != CharClass::Character {
            Err(ParseErrorView::UnexpectedInitialChars(token.value))
        } else {
            match geometry_type_named(token.value) {
                Some(geometry_type) => Ok(geometry_type),
                None => Err(ParseErrorView::UnknownGeometryType(token.value)),
            }
        },
    }
}

/// The geometry type that heads `text`.
pub open spec fn header_of(text: Seq<char>) -> Result<GeometryType, ParseErrorView> {
    header_at(start_of(text))
}

/// The geometry that the text at `cursor` describes: the word that names
/// its type, then its coordinates, then nothing but whitespace.
pub open spec fn geometry_at(cursor: Cursor) -> Result<GeometryView, ParseErrorView> {
    match header_at(cursor) {
        Err(e) => Err(e),
        Ok(geometry_type) => whole_at(geometry_type, cursor.after_first_significant()),
    }
}

/// The geometry that `text` describes.
pub open spec fn geometry_of(text: Seq<char>) -> Result<GeometryView, ParseErrorView> {
    geometry_at(start_of(text))
}

/// The mathematical value of the result of reading a geometry type.
pub open spec fn header_view(r: ParseResult<GeometryType>) -> Result<
    GeometryType,
    ParseErrorView,
> {
    match r {
        Ok(geometry_type) => Ok(geometry_type),
        Err(e) => Err(e@),
    }
}

/// A phase of reading.
pub trait ParseState {}

/// The phase before the geometry type has been read.
pub struct Start {}

impl ParseState for Start {}

/// The phase in which the geometry type is known.
pub struct Geometry {
    geometry_type: GeometryType,
}

impl ParseState for Geometry {}

/// A reader of one WKT text, in the phase `S`.
pub struct WktReader<'a, S: ParseState> {
    tokens: Tokenizer<'a>,
    state: S,
}

impl<'a, S: ParseState> WktReader<'a, S> {
    /// What the reader has still to read.
    pub closed spec fn cursor(&self) -> Cursor {
        self.tokens@
    }
}

impl<'a> WktReader<'a, Start> {
    /// A reader at the start of `wkt`.
    pub fn new(wkt: &'a str) -> (reader: Self)
        ensures
            reader.cursor() == start_of(wkt@),
    {
        Self { tokens: Tokenizer::new(wkt), state: Start {} }
    }

    /// The geometry type that heads the text.
    pub fn parse(self) -> (r: ParseResult<GeometryType>)
        ensures
            header_view(r) == header_at(self.cursor()),
    {
        match self.read() {
            Ok(reader) => Ok(reader.get_type()),
            Err(e) => Err(e),
        }
    }

    /// Reads the word that heads the text, and with it enters the phase
    /// `Geometry`.
    pub fn read(self) -> (r: ParseResult<WktReader<'a, Geometry>>)
        ensures
            match r {
                Ok(reader) => header_at(self.cursor()) == Ok::<GeometryType, ParseErrorView>(
                    reader.geometry_type(),
                ) && reader.cursor() == self.cursor().after_first_significant(),
                Err(e) => header_at(self.cursor()) == Err::<GeometryType, ParseErrorView>(e@),
            },
    {
        let mut tokens = self.tokens;
        let token = match tokens.next_non_whitespace() {
            None => {
                return Err(ParseError::empty_wkt());
            },
            Some(Err(e)) => {
                return Err(e);
            },
            Some(Ok(token)) => token,
        };
        if token.char_class != CharClass::Character {
            Err(ParseError::unexpected_initial_chars(token.value))
        } else {
            match GeometryType::of(token.value) {
                Ok(geometry_type) => Ok(
                    WktReader::<Geometry> { tokens, state: Geometry { geometry_type } },
                ),
                Err(e) => Err(e),
            }
        }
    }
}

impl<'a> WktReader<'a, Geometry> {
    /// The geometry type that was read.
    pub closed spec fn geometry_type(&self) -> GeometryType {
        self.state.geometry_type
    }

    /// The geometry type that was read.
    pub fn get_type(&self) -> (geometry_type: GeometryType)
        ensures
            geometry_type == self.geometry_type(),
    {
        self.state.geometry_type
    }

    /// Reads the coordinates in the shape that the geometry type asks for.
    /// Nothing but whitespace may follow them.
    pub fn read(self) -> (r: ParseResult<ParsedGeometry<'a>>)
        ensures
            geometry_view(r) == whole_at(self.geometry_type(), self.cursor()),
    {
        let mut tokens = self.tokens;
        let geometry = match read_body(self.state.geometry_type, &mut tokens) {
            Ok(geometry) => geometry,
            Err(e) => {
                return Err(e);
            },
        };
        match expect_end(&mut tokens) {
            Ok(_) => Ok(geometry),
            Err(e) => Err(e),
        }
    }
}

/// The geometry type that heads `text`. Nothing after the word that names
/// it is read.
pub fn parse_geometry_type(text: &str) -> (r: ParseResult<GeometryType>)
    ensures
        header_view(r) == header_of(text@),
{
    WktReader::new(text).parse()
}

/// The geometry that `text` describes.
pub fn parse(text: &str) -> (r: ParseResult<ParsedGeometry<'_>>)
    ensures
        geometry_view(r) == geometry_of(text@),
{
    match WktReader::new(text).read() {
        Ok(reader) => reader.read(),
        Err(e) => Err(e),
    }
}

/// A geometry has the type that heads its text, and a text whose head is in
/// error describes no geometry: reading it ends in the error of the head.
pub proof fn lemma_geometry_has_the_type_of_its_head(text: Seq<char>)
    ensures
        geometry_of(text) matches Ok(geometry) ==> header_of(text) == Ok::<
            GeometryType,
            ParseErrorView,
        >(geometry.geometry_type()),
        header_of(text) matches Err(e) ==> geometry_of(text) == Err::<
            GeometryView,
            ParseErrorView,
        >(e),
{
}

/// Reading holds no state between calls: what it returns depends on the
/// text alone, so two readings of one text return the same.
pub proof fn lemma_reading_twice_agrees(
    text: Seq<char>,
    first: ParseResult<GeometryType>,
    second: ParseResult<GeometryType>,
)
    requires
        header_view(first) == header_of(text),
        header_view(second) == header_of(text),
    ensures
        header_view(first) == header_view(second),
{
}

/// So it is with a whole geometry: two readings of one text return the
/// same.
pub proof fn lemma_parsing_twice_agrees(
    text: Seq<char>,
    first: ParseResult<ParsedGeometry<'_>>,
    second: ParseResult<ParsedGeometry<'_>>,
)
    requires
        geometry_view(first) == geometry_of(text),
        geometry_view(second) == geometry_of(text),
    ensures
        geometry_view(first) == geometry_view(second),
{
}

} // verus!
