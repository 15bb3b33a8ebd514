//! The geometry types that WKT text can describe.

use vstd::prelude::*;

use crate::keyword::{is_keyword, matches_keyword};
use crate::parse_error::{ParseError, ParseErrorView, ParseResult};

verus! {

/// The type of a geometry, as the word that heads its text names it.
#[derive(PartialEq, Eq, Structural, Debug, Copy, Clone)]
pub enum GeometryType {
    Point,
    MultiPoint,
    LineString,
    MultiLineString,
    Polygon,
    MultiPolygon,
}

/// The geometry type that `word` names, without regard to case.
pub open spec fn geometry_type_named(word: Seq<char>) -> Option<GeometryType> {
    if is_keyword(word, "point"@) {
        Some(GeometryType::Point)
    } else if is_keyword(word, "multipoint"@) {
        Some(GeometryType::MultiPoint)
    } else if is_keyword(word, "linestring"@) {
        Some(GeometryType::LineString)
    } else if is_keyword(word, "multilinestring"@) {
        Some(GeometryType::MultiLineString)
    } else if is_keyword(word, "polygon"@) {
        Some(GeometryType::Polygon)
    } else if is_keyword(word, "multipolygon"@) {
        Some(GeometryType::MultiPolygon)
    } else {
        None
    }
}

impl GeometryType {
    /// The geometry type that `s` names, without regard to case. A word
    /// that names none is reported as `UnknownGeometryType`, which carries
    /// it.
    pub fn of(s: &str) -> (r: ParseResult<Self>)
        ensures
            match r {
                Ok(geometry_type) => geometry_type_named(s@) == Some(geometry_type),
                Err(e) => geometry_type_named(s@) is None && e@
                    == ParseErrorView::UnknownGeometryType(s@),
            },
    {
        if matches_keyword(s, "point") {
            Ok(GeometryType::Point)
        } else if matches_keyword(s, "multipoint") {
            Ok(GeometryType::MultiPoint)
        } else if matches_keyword(s, "linestring") {
            Ok(GeometryType::LineString)
        } else if matches_keyword(s, "multilinestring") {
            Ok(GeometryType::MultiLineString)
        } else if matches_keyword(s, "polygon") {
            Ok(GeometryType::Polygon)
        } else if matches_keyword(s, "multipolygon") {
            Ok(GeometryType::MultiPolygon)
        } else {
            Err(ParseError::unknown_geometry_type(s))
        }
    }
}

} // verus!
