//! The geometry that a WKT text describes: its type, and its coordinates in
//! the shape that the type asks for.

use vstd::prelude::*;

use crate::coordinate_reader::{ordinate_views, CoordinateReader, ReaderView};
use crate::cursor::Cursor;
use crate::geometry_type::GeometryType;
use crate::nested::{polygons_read, read_polygons, read_rings, rings_read, NestView};
use crate::ordinate::{
    coordinate_views, polygon_views, ring_views, Coordinate, CoordinateView, Ordinate,
    OrdinateView,
};
use crate::parse_error::{ParseError, ParseErrorType, ParseErrorView, ParseResult};
use crate::tokenizer::Tokenizer;

verus! {

/// A geometry as it is written in a text.
#[derive(Debug, PartialEq, Eq)]
pub enum ParsedGeometry<'s> {
    /// One coordinate, or none.
    Point(Option<Coordinate<'s>>),
    MultiPoint(Vec<Coordinate<'s>>),
    LineString(Vec<Coordinate<'s>>),
    /// The line strings, each a list of coordinates.
    MultiLineString(Vec<Vec<Coordinate<'s>>>),
    /// The rings, each a list of coordinates.
    Polygon(Vec<Vec<Coordinate<'s>>>),
    /// The polygons, each a list of rings.
    MultiPolygon(Vec<Vec<Vec<Coordinate<'s>>>>),
}

/// The mathematical value of a [`ParsedGeometry`].
pub enum GeometryView {
    Point(Option<CoordinateView>),
    MultiPoint(Seq<CoordinateView>),
    LineString(Seq<CoordinateView>),
    MultiLineString(Seq<Seq<CoordinateView>>),
    Polygon(Seq<Seq<CoordinateView>>),
    MultiPolygon(Seq<Seq<Seq<CoordinateView>>>),
}

impl<'s> View for ParsedGeometry<'s> {
    type V = GeometryView;

    open spec fn view(&self) -> GeometryView {
        match *self {
            ParsedGeometry::Point(None) => GeometryView::Point(None),
            ParsedGeometry::Point(Some(coordinate)) => GeometryView::Point(Some(coordinate@)),
            ParsedGeometry::MultiPoint(coordinates) => GeometryView::MultiPoint(
                coordinate_views(coordinates@),
            ),
            ParsedGeometry::LineString(coordinates) => GeometryView::LineString(
                coordinate_views(coordinates@),
            ),
            ParsedGeometry::MultiLineString(lines) => GeometryView::MultiLineString(
                ring_views(lines@),
            ),
            ParsedGeometry::Polygon(rings) => GeometryView::Polygon(ring_views(rings@)),
            ParsedGeometry::MultiPolygon(polygons) => GeometryView::MultiPolygon(
                polygon_views(polygons@),
            ),
        }
    }
}

impl GeometryView {
    /// The type of the geometry.
    pub open spec fn geometry_type(self) -> GeometryType {
        match self {
            GeometryView::Point(_) => GeometryType::Point,
            GeometryView::MultiPoint(_) => GeometryType::MultiPoint,
            GeometryView::LineString(_) => GeometryType::LineString,
            GeometryView::MultiLineString(_) => GeometryType::MultiLineString,
            GeometryView::Polygon(_) => GeometryType::Polygon,
            GeometryView::MultiPolygon(_) => GeometryType::MultiPolygon,
        }
    }
}

impl<'s> ParsedGeometry<'s> {
    /// The type of the geometry.
    pub fn geometry_type(&self) -> (geometry_type: GeometryType)
        ensures
            geometry_type == self@.geometry_type(),
    {
        match self {
            ParsedGeometry::Point(_) => GeometryType::Point,
            ParsedGeometry::MultiPoint(_) => GeometryType::MultiPoint,
            ParsedGeometry::LineString(_) => GeometryType::LineString,
            ParsedGeometry::MultiLineString(_) => GeometryType::MultiLineString,
            ParsedGeometry::Polygon(_) => GeometryType::Polygon,
            ParsedGeometry::MultiPolygon(_) => GeometryType::MultiPolygon,
        }
    }
}

/// The numbers of `flat`, two by two. A number left over at the end is in
/// no pair.
pub open spec fn pairs_of(flat: Seq<OrdinateView>) -> Seq<CoordinateView> {
    Seq::new(
        (flat.len() / 2) as nat,
        |i: int| CoordinateView { x: flat[2 * i], y: flat[2 * i + 1] },
    )
}

/// The numbers of `flat`, two by two. A number left over at the end is in
/// no pair.
pub fn pairs<'s>(flat: &[Ordinate<'s>]) -> (pairs: Vec<Coordinate<'s>>)
    ensures
        coordinate_views(pairs@) == pairs_of(ordinate_views(flat@)),
{
    let mut pairs: Vec<Coordinate<'s>> = Vec::new();
    let mut i: usize = 0;
    while i + 1 < flat.len()
        invariant
            i % 2 == 0,
            i <= flat.len(),
            pairs@.len() == i / 2,
            forall|k: int|
                0 <= k < pairs@.len() ==> (#[trigger] pairs@[k])@ == (CoordinateView {
                    x: flat@[2 * k]@,
                    y: flat@[2 * k + 1]@,
                }),
        decreases flat.len() - i,
    {
        pairs.push(Coordinate { x: flat[i], y: flat[i + 1] });
        i = i + 2;
    }
    pairs
}

/// What stands for the coordinates of a geometry, with the cursor after it.
pub struct Body {
    pub geometry: Result<GeometryView, ParseErrorView>,
    pub cursor: Cursor,
}

/// The coordinate of a point whose coordinate group holds `pairs`. A point
/// has one coordinate or none: the first number of a second pair is a token
/// that cannot stand in it.
pub open spec fn single_of(pairs: Seq<CoordinateView>) -> Result<
    Option<CoordinateView>,
    ParseErrorView,
> {
    if pairs.len() == 0 {
        Ok(None)
    } else if pairs.len() == 1 {
        Ok(Some(pairs[0]))
    } else {
        Err(ParseErrorView::InvalidToken(pairs[1].x.index, pairs[1].x.text))
    }
}

/// What follows the word that names the geometry type. For a point, a
/// multi-point and a line string it is one coordinate group; for a
/// multi-line-string and a polygon a list of such groups, and for a
/// multi-polygon a list of such lists.
pub open spec fn body_at(geometry_type: GeometryType, cursor: Cursor) -> Body {
    match geometry_type {
        GeometryType::Point | GeometryType::MultiPoint | GeometryType::LineString => {
            let outcome = ReaderView::start(cursor).run();
            let pairs = pairs_of(outcome.reader.coordinates);
            Body {
                geometry: match outcome.error {
                    Some(e) => Err(e),
                    None => match geometry_type {
                        GeometryType::Point => match single_of(pairs) {
                            Ok(coordinate) => Ok(GeometryView::Point(coordinate)),
                            Err(e) => Err(e),
                        },
                        GeometryType::MultiPoint => Ok(GeometryView::MultiPoint(pairs)),
                        _ => Ok(GeometryView::LineString(pairs)),
                    },
                },
                cursor: outcome.reader.cursor,
            }
        },
        GeometryType::MultiLineString => {
            let outcome = NestView::start(2).run(cursor);
            Body {
                geometry: match rings_read(outcome) {
                    Err(e) => Err(e),
                    Ok(lines) => Ok(GeometryView::MultiLineString(lines)),
                },
                cursor: outcome.cursor,
            }
        },
        GeometryType::Polygon => {
            let outcome = NestView::start(2).run(cursor);
            Body {
                geometry: match rings_read(outcome) {
                    Err(e) => Err(e),
                    Ok(rings) => Ok(GeometryView::Polygon(rings)),
                },
                cursor: outcome.cursor,
            }
        },
        GeometryType::MultiPolygon => {
            let outcome = NestView::start(3).run(cursor);
            Body {
                geometry: match polygons_read(outcome) {
                    Err(e) => Err(e),
                    Ok(polygons) => Ok(GeometryView::MultiPolygon(polygons)),
                },
                cursor: outcome.cursor,
            }
        },
    }
}

/// Nothing but whitespace may follow a geometry: a token there is one that
/// cannot stand where it is.
pub open spec fn end_at(cursor: Cursor) -> Option<ParseErrorView> {
    match cursor.first_significant() {
        None => None,
        Some(Err(e)) => Some(e),
        Some(Ok(token)) => Some(ParseErrorView::InvalidToken(token.index, token.value)),
    }
}

/// The geometry of type `geometry_type` that stands at `cursor`, after the
/// word that names the type: its coordinates, then nothing but whitespace.
pub open spec fn whole_at(geometry_type: GeometryType, cursor: Cursor) -> Result<
    GeometryView,
    ParseErrorView,
> {
    let body = body_at(geometry_type, cursor);
    match body.geometry {
        Err(e) => Err(e),
        Ok(geometry) => match end_at(body.cursor) {
            Some(e) => Err(e),
            None => Ok(geometry),
        },
    }
}

/// The mathematical value of the result of reading a geometry.
pub open spec fn geometry_view(r: ParseResult<ParsedGeometry<'_>>) -> Result<
    GeometryView,
    ParseErrorView,
> {
    match r {
        Ok(geometry) => Ok(geometry@),
        Err(e) => Err(e@),
    }
}

/// The coordinate of a point whose coordinate group holds `pairs`.
pub fn single<'s>(pairs: Vec<Coordinate<'s>>) -> (r: ParseResult<Option<Coordinate<'s>>>)
    ensures
        match r {
            Ok(None) => single_of(coordinate_views(pairs@)) == Ok::<
                Option<CoordinateView>,
                ParseErrorView,
            >(None),
            Ok(Some(coordinate)) => single_of(coordinate_views(pairs@)) == Ok::<
                Option<CoordinateView>,
                ParseErrorView,
            >(Some(coordinate@)),
            Err(e) => single_of(coordinate_views(pairs@)) == Err::<
                Option<CoordinateView>,
                ParseErrorView,
            >(e@),
        },
{
    if pairs.len() == 0 {
        Ok(None)
    } else if pairs.len() == 1 {
        Ok(Some(pairs[0]))
    } else {
        let surplus = pairs[1].x;
        Err(
            ParseError {
                error_type: ParseErrorType::InvalidToken(
                    surplus.index(),
                    surplus.as_str().to_owned(),
                ),
            },
        )
    }
}

/// Reads what follows the word that names the geometry type.
pub fn read_body<'s>(geometry_type: GeometryType, tokens: &mut Tokenizer<'s>) -> (r: ParseResult<
    ParsedGeometry<'s>,
>)
    ensures
        geometry_view(r) == body_at(geometry_type, old(tokens)@).geometry,
        final(tokens)@ == body_at(geometry_type, old(tokens)@).cursor,
{
    match geometry_type {
        GeometryType::Point | GeometryType::MultiPoint | GeometryType::LineString => {
            let mut reader = CoordinateReader::new(tokens);
            let result = reader.read_all();
            let flat = reader.into_coordinates();
            if let Err(e) = result {
                return Err(e);
            }
            let pairs = pairs(flat.as_slice());
            match geometry_type {
                GeometryType::Point => match single(pairs) {
                    Ok(coordinate) => Ok(ParsedGeometry::Point(coordinate)),
                    Err(e) => Err(e),
                },
                GeometryType::MultiPoint => Ok(ParsedGeometry::MultiPoint(pairs)),
                _ => Ok(ParsedGeometry::LineString(pairs)),
            }
        },
        GeometryType::MultiLineString => match read_rings(tokens) {
            Ok(lines) => Ok(ParsedGeometry::MultiLineString(lines)),
            Err(e) => Err(e),
        },
        GeometryType::Polygon => match read_rings(tokens) {
            Ok(rings) => Ok(ParsedGeometry::Polygon(rings)),
            Err(e) => Err(e),
        },
        GeometryType::MultiPolygon => match read_polygons(tokens) {
            Ok(polygons) => Ok(ParsedGeometry::MultiPolygon(polygons)),
            Err(e) => Err(e),
        },
    }
}

/// Fails unless nothing but whitespace is left to read.
pub fn expect_end(tokens: &mut Tokenizer<'_>) -> (r: ParseResult<()>)
    ensures
        match r {
            Ok(_) => end_at(old(tokens)@) is None,
            Err(e) => end_at(old(tokens)@) == Some(e@),
        },
        final(tokens)@ == old(tokens)@.after_first_significant(),
{
    match tokens.next_non_whitespace() {
        None => Ok(()),
        Some(Err(e)) => Err(e),
        Some(Ok(token)) => Err(ParseError::invalid_token(&token)),
    }
}

} // verus!
