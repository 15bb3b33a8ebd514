use wkt_parser::geometry::ParsedGeometry;
use wkt_parser::geometry_type::GeometryType;
use wkt_parser::nested::{read_polygons, read_rings};
use wkt_parser::ordinate::Coordinate;
use wkt_parser::parse_error::{ParseError, ParseErrorType};
use wkt_parser::tokenizer::Tokenizer;
use wkt_parser::wkt_reader::{parse, WktReader};

type Pair = (f64, f64);

fn pair(coordinate: &Coordinate) -> Pair {
    (
        coordinate.x.as_str().parse::<f64>().unwrap(),
        coordinate.y.as_str().parse::<f64>().unwrap(),
    )
}

fn line(coordinates: &[Coordinate]) -> Vec<Pair> {
    coordinates.iter().map(pair).collect()
}

fn lines(rings: &[Vec<Coordinate>]) -> Vec<Vec<Pair>> {
    rings.iter().map(|ring| line(ring)).collect()
}

fn invalid_token(index: usize, text: &str) -> ParseError {
    ParseError { error_type: ParseErrorType::InvalidToken(index, String::from(text)) }
}

fn ends_early(index: usize) -> ParseError {
    ParseError { error_type: ParseErrorType::EmptyCoordinateSequence(index) }
}

fn invalid_char(c: char) -> ParseError {
    ParseError { error_type: ParseErrorType::InvalidCharClass(c) }
}

fn point(text: &str) -> Option<Pair> {
    match parse(text).unwrap() {
        ParsedGeometry::Point(coordinate) => coordinate.as_ref().map(pair),
        other => panic!("{:?}", other),
    }
}

fn polygon(text: &str) -> Vec<Vec<Pair>> {
    match parse(text).unwrap() {
        ParsedGeometry::Polygon(rings) => lines(&rings),
        other => panic!("{:?}", other),
    }
}

fn multi_polygon(text: &str) -> Vec<Vec<Vec<Pair>>> {
    match parse(text).unwrap() {
        ParsedGeometry::MultiPolygon(polygons) => polygons.iter().map(|p| lines(p)).collect(),
        other => panic!("{:?}", other),
    }
}

#[test]
fn a_point() {
    assert_eq!(point("POINT(1.234 1234.)"), Some((1.234, 1234.0)));
    assert_eq!(point("  point ( 30  10 ) "), Some((30.0, 10.0)));
}

#[test]
fn a_point_without_a_coordinate() {
    assert_eq!(point("POINT EMPTY"), None);
    assert_eq!(point("POINT()"), None);
    assert_eq!(point("Point empty\n"), None);
}

#[test]
fn a_point_has_one_coordinate() {
    assert_eq!(parse("POINT(1 2, 3 4)"), Err(invalid_token(11, "3")));
    assert_eq!(parse("POINT(1 2, 3 4, 5 6)"), Err(invalid_token(11, "3")));
}

#[test]
fn a_group_is_read_before_its_pairs_are_counted() {
    assert_eq!(parse("POINT(1 2, 3"), Err(ends_early(12)));
    assert_eq!(parse("POINT(1 2, 3 4 5)"), Err(invalid_token(15, "5")));
}

#[test]
fn a_multi_point_and_a_line_string() {
    match parse("MULTIPOINT(10 40, 40 30, 20 20)").unwrap() {
        ParsedGeometry::MultiPoint(coordinates) => {
            assert_eq!(line(&coordinates), vec![(10.0, 40.0), (40.0, 30.0), (20.0, 20.0)])
        }
        other => panic!("{:?}", other),
    }
    match parse("LineString (30 10,10 30 , 40 40)").unwrap() {
        ParsedGeometry::LineString(coordinates) => {
            assert_eq!(line(&coordinates), vec![(30.0, 10.0), (10.0, 30.0), (40.0, 40.0)])
        }
        other => panic!("{:?}", other),
    }
    assert_eq!(parse("MULTIPOINT EMPTY"), Ok(ParsedGeometry::MultiPoint(vec![])));
    assert_eq!(parse("LINESTRING()"), Ok(ParsedGeometry::LineString(vec![])));
}

#[test]
fn a_polygon() {
    assert_eq!(
        polygon("POLYGON((30 10, 40 40, 20 40, 10 20, 30 10))"),
        vec![vec![(30.0, 10.0), (40.0, 40.0), (20.0, 40.0), (10.0, 20.0), (30.0, 10.0)]]
    );
    assert_eq!(
        polygon("POLYGON ((35 10, 45 45, 15 40, 35 10), (20 30, 35 35, 30 20, 20 30))"),
        vec![
            vec![(35.0, 10.0), (45.0, 45.0), (15.0, 40.0), (35.0, 10.0)],
            vec![(20.0, 30.0), (35.0, 35.0), (30.0, 20.0), (20.0, 30.0)],
        ]
    );
}

#[test]
fn parentheses_apart_and_together() {
    let expected = vec![vec![(1.0, 2.0)], vec![(3.0, 4.0)]];
    assert_eq!(polygon("polygon((1 2),(3 4))"), expected);
    assert_eq!(polygon("polygon ( ( 1 2 ) , ( 3 4 ) )"), expected);
    assert_eq!(polygon("polygon( (1 2), (3 4) )"), expected);
}

#[test]
fn a_run_of_commas_is_one_separator() {
    assert_eq!(polygon("polygon((1 2),,(3 4))"), vec![vec![(1.0, 2.0)], vec![(3.0, 4.0)]]);
    assert_eq!(polygon("polygon((1 2,,3 4))"), vec![vec![(1.0, 2.0), (3.0, 4.0)]]);
}

#[test]
fn one_coordinate_group_goes_by_tokens() {
    assert_eq!(point("POINT((1 2))"), Some((1.0, 2.0)));
    assert_eq!(parse("LINESTRING((1 2), (3 4))"), Err(invalid_token(16, ",")));
}

#[test]
fn a_multi_line_string() {
    match parse("MULTILINESTRING((10 10, 20 20), (40 40, 30 30, 40 20))").unwrap() {
        ParsedGeometry::MultiLineString(parts) => assert_eq!(
            lines(&parts),
            vec![
                vec![(10.0, 10.0), (20.0, 20.0)],
                vec![(40.0, 40.0), (30.0, 30.0), (40.0, 20.0)],
            ]
        ),
        other => panic!("{:?}", other),
    }
}

#[test]
fn a_multi_polygon() {
    assert_eq!(
        multi_polygon("MULTIPOLYGON(((30 20, 45 40, 10 40, 30 20)), ((15 5, 40 10, 10 20, 15 5)))"),
        vec![
            vec![vec![(30.0, 20.0), (45.0, 40.0), (10.0, 40.0), (30.0, 20.0)]],
            vec![vec![(15.0, 5.0), (40.0, 10.0), (10.0, 20.0), (15.0, 5.0)]],
        ]
    );
    assert_eq!(
        multi_polygon("multipolygon (((1 2, 3 4), (5 6)), ((7 8)),((9 10),(11 12)))"),
        vec![
            vec![vec![(1.0, 2.0), (3.0, 4.0)], vec![(5.0, 6.0)]],
            vec![vec![(7.0, 8.0)]],
            vec![vec![(9.0, 10.0)], vec![(11.0, 12.0)]],
        ]
    );
}

#[test]
fn empty_lists_and_rings() {
    assert_eq!(parse("POLYGON EMPTY"), Ok(ParsedGeometry::Polygon(vec![])));
    assert_eq!(parse("POLYGON()"), Ok(ParsedGeometry::Polygon(vec![])));
    assert_eq!(parse("POLYGON(())"), Ok(ParsedGeometry::Polygon(vec![vec![]])));
    assert_eq!(parse("MULTILINESTRING empty"), Ok(ParsedGeometry::MultiLineString(vec![])));
    assert_eq!(parse("MULTIPOLYGON EMPTY"), Ok(ParsedGeometry::MultiPolygon(vec![])));
    assert_eq!(parse("MULTIPOLYGON()"), Ok(ParsedGeometry::MultiPolygon(vec![])));
    assert_eq!(parse("MULTIPOLYGON(())"), Ok(ParsedGeometry::MultiPolygon(vec![vec![]])));
    assert_eq!(parse("MULTIPOLYGON((()))"), Ok(ParsedGeometry::MultiPolygon(vec![vec![vec![]]])));
    assert_eq!(polygon("POLYGON((), (1 2))"), vec![vec![], vec![(1.0, 2.0)]]);
}

#[test]
fn the_geometry_type_of_what_was_read() {
    let cases = [
        ("point(1 2)", GeometryType::Point),
        ("multipoint(1 2)", GeometryType::MultiPoint),
        ("linestring(1 2)", GeometryType::LineString),
        ("multilinestring((1 2))", GeometryType::MultiLineString),
        ("polygon((1 2))", GeometryType::Polygon),
        ("multipolygon(((1 2)))", GeometryType::MultiPolygon),
    ];
    for (text, geometry_type) in cases {
        assert_eq!(parse(text).unwrap().geometry_type(), geometry_type);
        let reader = WktReader::new(text).read().unwrap();
        assert_eq!(reader.get_type(), geometry_type);
        assert_eq!(reader.read(), parse(text));
    }
}

#[test]
fn errors_of_the_header_come_first() {
    assert_eq!(parse(""), Err(ParseError { error_type: ParseErrorType::EmptyWkt }));
    assert_eq!(
        parse("(1 2)"),
        Err(ParseError { error_type: ParseErrorType::UnexpectedInitialChars(String::from("(")) })
    );
    assert_eq!(
        parse("circle(1 2)"),
        Err(ParseError { error_type: ParseErrorType::UnknownGeometryType(String::from("circle")) })
    );
    assert_eq!(parse("point#"), Err(invalid_char('#')));
}

#[test]
fn text_after_the_geometry() {
    assert_eq!(parse("POINT(1 2) POINT(3 4)"), Err(invalid_token(11, "POINT")));
    assert_eq!(parse("POINT(1 2),"), Err(invalid_token(10, ",")));
    assert_eq!(parse("POINT EMPTY EMPTY"), Err(invalid_token(12, "EMPTY")));
    assert_eq!(parse("POLYGON((1 2)) 7"), Err(invalid_token(15, "7")));
    assert_eq!(parse("POINT(1 2) #"), Err(invalid_char('#')));
    assert_eq!(parse("POINT(1 2) \n\t "), parse("POINT(1 2)"));
}

#[test]
fn text_that_ends_inside_the_geometry() {
    assert_eq!(parse("POINT"), Err(ends_early(5)));
    assert_eq!(parse("POINT  "), Err(ends_early(7)));
    assert_eq!(parse("POINT(1 2"), Err(ends_early(9)));
    assert_eq!(parse("POLYGON"), Err(ends_early(7)));
    assert_eq!(parse("POLYGON("), Err(ends_early(8)));
    assert_eq!(parse("POLYGON((1 2)"), Err(ends_early(13)));
    assert_eq!(parse("POLYGON((1 2),"), Err(ends_early(14)));
    assert_eq!(parse("MULTIPOLYGON(((1 2))"), Err(ends_early(20)));
}

#[test]
fn too_many_or_too_few_parentheses() {
    assert_eq!(parse("POLYGON(((1 2)))"), Err(invalid_token(7, "(((")));
    assert_eq!(parse("POLYGON((1 2)))"), Err(invalid_token(12, ")))")));
    assert_eq!(parse("POLYGON(1 2)"), Err(invalid_token(8, "1")));
    assert_eq!(parse("MULTIPOLYGON((1 2))"), Err(invalid_token(14, "1")));
    assert_eq!(parse("MULTIPOLYGON((((1 2))))"), Err(invalid_token(12, "((((")));
    assert_eq!(parse("POLYGON)"), Err(invalid_token(7, ")")));
}

#[test]
fn commas_where_none_can_stand() {
    assert_eq!(parse("POLYGON(,(1 2))"), Err(invalid_token(8, ",")));
    assert_eq!(parse("POLYGON((1 2),)"), Err(invalid_token(14, ")")));
    assert_eq!(parse("POLYGON((1 2) (3 4))"), Err(invalid_token(14, "(")));
    assert_eq!(parse("POLYGON((1 2,))"), Err(invalid_token(13, "))")));
    assert_eq!(parse("POLYGON((1, 2))"), Err(invalid_token(10, ",")));
    assert_eq!(parse("POLYGON,"), Err(invalid_token(7, ",")));
}

#[test]
fn words_and_numbers_where_none_can_stand() {
    assert_eq!(parse("POLYGON(EMPTY)"), Err(invalid_token(8, "EMPTY")));
    assert_eq!(parse("POLYGON((1 2), EMPTY)"), Err(invalid_token(15, "EMPTY")));
    assert_eq!(parse("POLYGON nothing"), Err(invalid_token(8, "nothing")));
    assert_eq!(parse("POLYGON 1"), Err(invalid_token(8, "1")));
    assert_eq!(parse("POLYGON((1 2 3))"), Err(invalid_token(13, "3")));
    assert_eq!(parse("POLYGON((1.2.3 4))"), Err(invalid_token(9, "1.2.3")));
    assert_eq!(parse("POLYGON((1 2)(3 4))"), Err(invalid_token(13, "(")));
    assert_eq!(parse("POLYGON((1 -2))"), Err(invalid_char('-')));
}

#[test]
fn lists_of_rings_from_a_tokenizer() {
    let mut tokens = Tokenizer::new(" ((1 2), (3 4, 5 6)) , rest");
    let rings = read_rings(&mut tokens).unwrap();
    assert_eq!(lines(&rings), vec![vec![(1.0, 2.0)], vec![(3.0, 4.0), (5.0, 6.0)]]);
    assert_eq!(tokens.index(), 20);

    let mut tokens = Tokenizer::new("(((1 2)),((3 4),(5 6)))x");
    let polygons = read_polygons(&mut tokens).unwrap();
    let got: Vec<Vec<Vec<Pair>>> = polygons.iter().map(|p| lines(p)).collect();
    assert_eq!(got, vec![vec![vec![(1.0, 2.0)]], vec![vec![(3.0, 4.0)], vec![(5.0, 6.0)]]]);
    assert_eq!(tokens.index(), 23);

    let mut tokens = Tokenizer::new("((1 2) 3");
    assert_eq!(read_rings(&mut tokens), Err(invalid_token(7, "3")));
    assert_eq!(tokens.index(), 8);
}

#[test]
fn coordinates_carry_their_offsets() {
    match parse("POINT(1.5 22)").unwrap() {
        ParsedGeometry::Point(Some(coordinate)) => {
            assert_eq!((coordinate.x.index(), coordinate.x.as_str()), (6, "1.5"));
            assert_eq!((coordinate.y.index(), coordinate.y.as_str()), (10, "22"));
        }
        other => panic!("{:?}", other),
    }
}

#[test]
fn parsing_twice_gives_the_same() {
    for text in [
        "POINT(1.234 1234.)",
        "POLYGON((1 2), (3 4))",
        "MULTIPOLYGON(((1 2)))",
        "POINT(1 2, 3 4)",
        "emptier",
        "",
        "POLYGON((1 2",
    ] {
        assert_eq!(parse(text), parse(text));
    }
}
