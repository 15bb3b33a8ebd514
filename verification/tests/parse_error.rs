use wkt_parser::char_class::CharClass;
use wkt_parser::parse_error::{ParseError, ParseErrorType};
use wkt_parser::tokenizer::Token;

#[test]
fn constructors_give_their_variant() {
    assert_eq!(ParseError::invalid_char_class('#').error_type, ParseErrorType::InvalidCharClass('#'));
    assert_eq!(
        ParseError::unknown_geometry_type("circle").error_type,
        ParseErrorType::UnknownGeometryType(String::from("circle"))
    );
    assert_eq!(
        ParseError::unexpected_initial_chars("((").error_type,
        ParseErrorType::UnexpectedInitialChars(String::from("(("))
    );
    assert_eq!(ParseError::empty_wkt().error_type, ParseErrorType::EmptyWkt);
    assert_eq!(
        ParseError::empty_coordinate_sequence(17).error_type,
        ParseErrorType::EmptyCoordinateSequence(17)
    );
    let token = Token { index: 12, char_class: CharClass::Digit, value: "1.2.3" };
    assert_eq!(
        ParseError::invalid_token(&token).error_type,
        ParseErrorType::InvalidToken(12, String::from("1.2.3"))
    );
}

#[test]
fn messages() {
    assert_eq!(
        ParseError::invalid_char_class('#').to_string(),
        "Error parsing wkt string. Invalid character '#'"
    );
    assert_eq!(
        ParseError::unknown_geometry_type("circle").to_string(),
        "Error parsing wkt string. Unknown geometry type: circle"
    );
    assert_eq!(
        ParseError::unexpected_initial_chars("12").to_string(),
        "Error parsing wkt string. Unexpected initial characters: '12'"
    );
    assert_eq!(ParseError::empty_wkt().to_string(), "Error parsing wkt string. Empty WKT");
    let token = Token { index: 12, char_class: CharClass::Digit, value: "1.2.3" };
    assert_eq!(
        ParseError::invalid_token(&token).to_string(),
        "Error parsing wkt string. Invalid token at index 12: '1.2.3'"
    );
    assert_eq!(
        ParseError::empty_coordinate_sequence(6).to_string(),
        "Error parsing wkt string. Empty coordinate sequence at index 6"
    );
}

#[test]
fn offsets_in_messages_are_written_in_decimal() {
    for index in [0usize, 7, 9, 10, 11, 99, 100, 101, 4096, 1234567890, usize::MAX] {
        assert_eq!(
            ParseError::empty_coordinate_sequence(index).to_string(),
            format!("Error parsing wkt string. Empty coordinate sequence at index {}", index)
        );
        let token = Token { index, char_class: CharClass::Comma, value: "," };
        assert_eq!(
            ParseError::invalid_token(&token).to_string(),
            format!("Error parsing wkt string. Invalid token at index {}: ','", index)
        );
    }
}

#[test]
fn a_message_carries_any_character() {
    for c in ['é', '越', '\'', '\u{1F600}'] {
        assert_eq!(
            ParseError::invalid_char_class(c).to_string(),
            format!("Error parsing wkt string. Invalid character '{}'", c)
        );
    }
}

#[test]
fn errors_are_equal_when_their_parts_are() {
    assert_eq!(ParseError::empty_wkt(), ParseError::empty_wkt().clone());
    assert_ne!(ParseError::invalid_char_class('a'), ParseError::invalid_char_class('b'));
    assert_ne!(
        ParseError::empty_coordinate_sequence(1),
        ParseError::empty_coordinate_sequence(2)
    );
}
