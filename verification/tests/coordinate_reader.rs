use wkt_parser::coordinate_reader::{CoordinateReader, CoordinateState};
use wkt_parser::ordinate::Ordinate;
use wkt_parser::parse_error::{ParseError, ParseErrorType, ParseResult};
use wkt_parser::tokenizer::{Token, Tokenizer};
use wkt_parser::char_class::CharClass;

fn read_all(reader: &mut CoordinateReader) -> ParseResult<()> {
    while reader.state() != CoordinateState::Finished {
        reader.read()?;
    }
    Ok(())
}

fn numbers(ordinates: &[Ordinate]) -> Vec<f64> {
    ordinates.iter().map(|o| o.as_str().parse::<f64>().unwrap()).collect()
}

fn invalid_token(index: usize, text: &str) -> ParseError {
    ParseError { error_type: ParseErrorType::InvalidToken(index, String::from(text)) }
}

fn group(text: &str) -> Result<Vec<f64>, ParseError> {
    let mut tokenizer = Tokenizer::new(text);
    let mut reader = CoordinateReader::new(&mut tokenizer);
    reader.read_all()?;
    assert_eq!(reader.state(), CoordinateState::Finished);
    Ok(numbers(reader.coordinates()))
}

#[test]
fn test_empty() {
    let s = "empty";
    let mut tokenizer = Tokenizer::new(s);
    let mut reader = CoordinateReader::new(&mut tokenizer);
    read_all(&mut reader).unwrap();
    assert_eq!(numbers(reader.coordinates()), Vec::<f64>::new());
    assert_eq!(reader.coordinates(), &[]);
}

#[test]
fn test_error() {
    let s = "emptier";
    let mut tokenizer = Tokenizer::new(s);
    let mut reader = CoordinateReader::new(&mut tokenizer);
    assert!(reader.read().is_err());
}

#[test]
fn test_empty_seq() {
    let s = "( )";
    let mut tokenizer = Tokenizer::new(s);
    let mut reader = CoordinateReader::new(&mut tokenizer);
    read_all(&mut reader).unwrap();
    assert_eq!(numbers(reader.coordinates()), Vec::<f64>::new());
    assert_eq!(reader.coordinates(), &[]);
}

#[test]
fn test_single_coord() {
    let s = "(1.2)";
    let mut tokenizer = Tokenizer::new(s);
    let mut reader = CoordinateReader::new(&mut tokenizer);
    assert!(read_all(&mut reader).is_err());
}

#[test]
fn test_single_coord_pair() {
    let s = "(1.2 0.1)";
    let mut tokenizer = Tokenizer::new(s);
    let mut reader = CoordinateReader::new(&mut tokenizer);
    read_all(&mut reader).unwrap();
    assert_eq!(numbers(reader.coordinates()), &[1.2, 0.1]);
}

#[test]
fn the_keyword_for_an_empty_group_in_capitals() {
    let mut tokenizer = Tokenizer::new("EMPTY");
    let mut reader = CoordinateReader::new(&mut tokenizer);
    assert_eq!(reader.state(), CoordinateState::Start);
    assert_eq!(reader.read(), Ok(()));
    assert_eq!(reader.state(), CoordinateState::Finished);
    assert_eq!(reader.coordinates(), &[]);
    assert_eq!(group("  Empty "), Ok(vec![]));
}

#[test]
fn a_single_number_cannot_close_the_group() {
    assert_eq!(group("(1.2)"), Err(invalid_token(4, ")")));
}

#[test]
fn the_states_of_a_group_of_two_pairs() {
    let mut tokenizer = Tokenizer::new("(1 2, 3.5 .25)");
    let mut reader = CoordinateReader::new(&mut tokenizer);
    let mut states = vec![reader.state()];
    let mut counts = vec![reader.coordinates().len()];
    while reader.state() != CoordinateState::Finished {
        reader.read().unwrap();
        states.push(reader.state());
        counts.push(reader.coordinates().len());
    }
    assert_eq!(
        states,
        vec![
            CoordinateState::Start,
            CoordinateState::ReadingFirstCooordinate,
            CoordinateState::ReadingNextCoordinate,
            CoordinateState::FinishedCoordinate,
            CoordinateState::ReadingFirstCooordinate,
            CoordinateState::ReadingNextCoordinate,
            CoordinateState::FinishedCoordinate,
            CoordinateState::Finished,
        ]
    );
    assert_eq!(counts, vec![0, 0, 1, 2, 2, 3, 4, 4]);
    assert_eq!(numbers(reader.coordinates()), vec![1.0, 2.0, 3.5, 0.25]);
    let texts: Vec<&str> = reader.coordinates().iter().map(|o| o.as_str()).collect();
    assert_eq!(texts, vec!["1", "2", "3.5", ".25"]);
}

#[test]
fn groups_of_whole_pairs() {
    assert_eq!(group("(1 2)"), Ok(vec![1.0, 2.0]));
    assert_eq!(group("(1 2,3 4 , 5 6)"), Ok(vec![1.0, 2.0, 3.0, 4.0, 5.0, 6.0]));
    assert_eq!(group("(\n10.5\t20.\n)"), Ok(vec![10.5, 20.0]));
    assert_eq!(group("()"), Ok(vec![]));
}

#[test]
fn tokens_that_cannot_stand_where_they_are() {
    assert_eq!(group(")"), Err(invalid_token(0, ")")));
    assert_eq!(group(","), Err(invalid_token(0, ",")));
    assert_eq!(group("1 2"), Err(invalid_token(0, "1")));
    assert_eq!(group("emptier"), Err(invalid_token(0, "emptier")));
    assert_eq!(group("( ("), Err(invalid_token(2, "(")));
    assert_eq!(group("(empty)"), Err(invalid_token(1, "empty")));
    assert_eq!(group("(,"), Err(invalid_token(1, ",")));
    assert_eq!(group("(1,"), Err(invalid_token(2, ",")));
    assert_eq!(group("(1 2 3)"), Err(invalid_token(5, "3")));
    assert_eq!(group("(1 2 ("), Err(invalid_token(5, "(")));
    assert_eq!(group("(1 2 x"), Err(invalid_token(5, "x")));
    assert_eq!(group("(1 (2"), Err(invalid_token(3, "(")));
}

#[test]
fn a_run_of_parentheses_or_commas_is_one_token() {
    assert_eq!(group("((1 2))"), Ok(vec![1.0, 2.0]));
    assert_eq!(group("(1 2,,3 4)"), Ok(vec![1.0, 2.0, 3.0, 4.0]));
    assert_eq!(group("(()"), Ok(vec![]));
    let empty = |index| Err(ParseError { error_type: ParseErrorType::EmptyCoordinateSequence(index) });
    assert_eq!(group("(("), empty(2));
    assert_eq!(group("(1 2,,"), empty(6));
}

#[test]
fn a_comma_has_to_be_followed_by_a_pair() {
    assert_eq!(group("(1 2,)"), Err(invalid_token(5, ")")));
    assert_eq!(group("(1 2, )"), Err(invalid_token(6, ")")));
}

#[test]
fn numbers_that_are_none() {
    assert_eq!(group("(1.2.3 4)"), Err(invalid_token(1, "1.2.3")));
    assert_eq!(group("(. 4)"), Err(invalid_token(1, ".")));
    assert_eq!(group("(1 ..)"), Err(invalid_token(3, "..")));
}

#[test]
fn text_that_ends_inside_a_group() {
    let empty = |index| Err(ParseError { error_type: ParseErrorType::EmptyCoordinateSequence(index) });
    assert_eq!(group(""), empty(0));
    assert_eq!(group("   "), empty(3));
    assert_eq!(group("("), empty(1));
    assert_eq!(group("(1"), empty(2));
    assert_eq!(group("(1 2"), empty(4));
    assert_eq!(group("(1 2, "), empty(6));
    assert_eq!(group("(1 2,\u{2003}"), empty(8));
}

#[test]
fn a_character_outside_the_alphabet_in_a_group() {
    let invalid = |c| Err(ParseError { error_type: ParseErrorType::InvalidCharClass(c) });
    assert_eq!(group("(1 -2)"), invalid('-'));
    assert_eq!(group("(1e5 2)"), Err(invalid_token(2, "e")));
    assert_eq!(group("#"), invalid('#'));
}

#[test]
fn a_failed_step_leaves_state_and_numbers() {
    let mut tokenizer = Tokenizer::new("(1 2 3");
    let mut reader = CoordinateReader::new(&mut tokenizer);
    assert_eq!(reader.read_all(), Err(invalid_token(5, "3")));
    assert_eq!(reader.state(), CoordinateState::FinishedCoordinate);
    assert_eq!(numbers(reader.coordinates()), vec![1.0, 2.0]);
}

#[test]
fn a_complete_group_takes_no_further_token() {
    let mut tokenizer = Tokenizer::new("(1 2) (3 4)");
    let mut reader = CoordinateReader::new(&mut tokenizer);
    assert_eq!(reader.read_all(), Ok(()));
    assert_eq!(reader.read_all(), Ok(()));
    assert_eq!(reader.read(), Err(invalid_token(6, "(")));
    assert_eq!(reader.state(), CoordinateState::Finished);
    assert_eq!(numbers(reader.coordinates()), vec![1.0, 2.0]);
}

#[test]
fn the_tokenizer_stands_after_the_group() {
    let mut tokenizer = Tokenizer::new("(1 2) , (3 4)");
    {
        let mut reader = CoordinateReader::new(&mut tokenizer);
        reader.read_all().unwrap();
    }
    assert_eq!(tokenizer.index(), 5);
    let comma = tokenizer.next_non_whitespace().unwrap().unwrap();
    assert_eq!(comma, Token { index: 6, char_class: CharClass::Comma, value: "," });
    {
        let mut reader = CoordinateReader::new(&mut tokenizer);
        reader.read_all().unwrap();
        assert_eq!(numbers(reader.coordinates()), vec![3.0, 4.0]);
    }
    assert_eq!(tokenizer.index(), 13);
}

#[test]
fn require_state_tells_the_state() {
    let mut tokenizer = Tokenizer::new("(");
    let reader = CoordinateReader::new(&mut tokenizer);
    let token = Token { index: 3, char_class: CharClass::Comma, value: "," };
    assert_eq!(reader.require_state(CoordinateState::Start, &token), Ok(()));
    assert_eq!(
        reader.require_state(CoordinateState::Finished, &token),
        Err(invalid_token(3, ","))
    );
    assert_eq!(reader.require_state_not(CoordinateState::Finished, &token), Ok(()));
    assert_eq!(
        reader.require_state_not(CoordinateState::Start, &token),
        Err(invalid_token(3, ","))
    );
}

#[test]
fn the_numbers_outlive_the_reader() {
    let mut tokenizer = Tokenizer::new("(1 2, 3 4) x");
    let mut reader = CoordinateReader::new(&mut tokenizer);
    reader.read_all().unwrap();
    let coordinates = reader.into_coordinates();
    assert_eq!(numbers(&coordinates), vec![1.0, 2.0, 3.0, 4.0]);
    assert_eq!(tokenizer.index(), 10);
}

#[test]
fn numbers_carry_their_offsets() {
    let mut tokenizer = Tokenizer::new("( 12 3.5 )");
    let mut reader = CoordinateReader::new(&mut tokenizer);
    reader.read_all().unwrap();
    let got: Vec<(usize, &str)> =
        reader.coordinates().iter().map(|o| (o.index(), o.as_str())).collect();
    assert_eq!(got, vec![(2, "12"), (5, "3.5")]);
}

#[test]
fn numbers_come_in_pairs() {
    for text in ["empty", "()", "(1 2)", "(1 2, 3 4)", "(1 2, 3 4, 5 6)"] {
        let mut tokenizer = Tokenizer::new(text);
        let mut reader = CoordinateReader::new(&mut tokenizer);
        reader.read_all().unwrap();
        assert_eq!(reader.coordinates().len() % 2, 0);
    }
}
