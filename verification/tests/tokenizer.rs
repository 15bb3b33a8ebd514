use wkt_parser::char_class::CharClass;
use wkt_parser::parse_error::{ParseError, ParseErrorType, ParseResult};
use wkt_parser::tokenizer::{tokenize, Token, Tokenizer};

fn assert_token_value(
    result: Option<ParseResult<Token>>,
    expected_char_class: CharClass,
    expected_value: &str,
) {
    let Token {
        char_class, value, ..
    } = result.unwrap().unwrap();
    assert_eq!(char_class, expected_char_class);
    assert_eq!(value, expected_value);
}

fn invalid_char(c: char) -> ParseError {
    ParseError { error_type: ParseErrorType::InvalidCharClass(c) }
}

#[test]
fn test_tokens() {
    let mut tokens = Tokenizer::new("POINT(1.234, 1234.)");
    assert_token_value(tokens.next(), CharClass::Character, "POINT");
    assert_token_value(tokens.next(), CharClass::LeftParen, "(");
    assert_token_value(tokens.next(), CharClass::Digit, "1.234");
    assert_token_value(tokens.next(), CharClass::Comma, ",");
    assert_token_value(tokens.next(), CharClass::Whitespace, " ");
    assert_token_value(tokens.next(), CharClass::Digit, "1234.");
    assert_token_value(tokens.next(), CharClass::RightParen, ")");
    assert_eq!(tokens.next(), None);
}

#[test]
fn test_non_whitespace() {
    let mut tokens = Tokenizer::new("   X  Y   () ");
    assert_token_value(tokens.next_non_whitespace(), CharClass::Character, "X");
    assert_token_value(tokens.next_non_whitespace(), CharClass::Character, "Y");
    assert_token_value(tokens.next_non_whitespace(), CharClass::LeftParen, "(");
    assert_token_value(tokens.next_non_whitespace(), CharClass::RightParen, ")");
    assert_eq!(tokens.next_non_whitespace(), None);
}

#[test]
fn tokenize_gives_class_and_text_of_each_token() {
    let tokens = tokenize("POINT(1.234, 1234.)").unwrap();
    let got: Vec<(CharClass, &str)> = tokens.iter().map(|t| (t.char_class, t.value)).collect();
    assert_eq!(
        got,
        vec![
            (CharClass::Character, "POINT"),
            (CharClass::LeftParen, "("),
            (CharClass::Digit, "1.234"),
            (CharClass::Comma, ","),
            (CharClass::Whitespace, " "),
            (CharClass::Digit, "1234."),
            (CharClass::RightParen, ")"),
        ]
    );
}

#[test]
fn tokens_carry_the_offset_of_their_start() {
    let tokens = tokenize("POINT(1.234, 1234.)").unwrap();
    let got: Vec<usize> = tokens.iter().map(|t| t.index).collect();
    assert_eq!(got, vec![0, 5, 6, 11, 12, 13, 18]);
}

#[test]
fn offsets_are_counted_in_bytes() {
    // U+2003 takes three bytes, U+00A0 two.
    let text = "ab\u{2003}\u{a0}12";
    let tokens = tokenize(text).unwrap();
    assert_eq!(
        tokens,
        vec![
            Token { index: 0, char_class: CharClass::Character, value: "ab" },
            Token { index: 2, char_class: CharClass::Whitespace, value: "\u{2003}\u{a0}" },
            Token { index: 7, char_class: CharClass::Digit, value: "12" },
        ]
    );
    for token in &tokens {
        assert_eq!(&text[token.index..token.index + token.value.len()], token.value);
    }
}

#[test]
fn index_follows_the_tokens() {
    let mut tokens = Tokenizer::new("ab \u{3000}(");
    assert_eq!(tokens.index(), 0);
    tokens.next().unwrap().unwrap();
    assert_eq!(tokens.index(), 2);
    tokens.next().unwrap().unwrap();
    assert_eq!(tokens.index(), 6);
    tokens.next().unwrap().unwrap();
    assert_eq!(tokens.index(), 7);
    assert_eq!(tokens.next(), None);
    assert_eq!(tokens.index(), 7);
}

#[test]
fn joined_tokens_are_the_text() {
    for text in [
        "",
        " ",
        "POINT(1.234, 1234.)",
        "  multipolygon (((0 0,\t1 1)) ,\n((2 2)))  ",
        "a1b2c3...,,,)))(((",
        "x\u{2028}\u{2029}y\u{85}",
    ] {
        let tokens = tokenize(text).unwrap();
        let joined: String = tokens.iter().map(|t| t.value).collect();
        assert_eq!(joined, text);
        let mut offset = 0;
        for token in &tokens {
            assert_eq!(token.index, offset);
            assert!(!token.value.is_empty());
            for c in token.value.chars() {
                assert_eq!(CharClass::of(c).unwrap(), token.char_class);
            }
            offset += token.value.len();
        }
        assert_eq!(offset, text.len());
        for pair in tokens.windows(2) {
            assert_ne!(pair[0].char_class, pair[1].char_class);
        }
    }
}

#[test]
fn empty_text_has_no_token() {
    let mut tokens = Tokenizer::new("");
    assert_eq!(tokens.next(), None);
    assert_eq!(tokens.next_non_whitespace(), None);
    assert_eq!(tokenize(""), Ok(vec![]));
}

#[test]
fn a_character_outside_the_alphabet_is_an_error() {
    let mut tokens = Tokenizer::new("#");
    assert_eq!(tokens.next(), Some(Err(invalid_char('#'))));
    assert_eq!(tokens.index(), 0);
    assert_eq!(tokenize("POINT(1 2)#"), Err(invalid_char('#')));
    assert_eq!(tokenize("POINT-1"), Err(invalid_char('-')));
}

#[test]
fn the_character_that_ends_a_run_is_scanned_with_it() {
    let mut tokens = Tokenizer::new("abc#");
    assert_eq!(tokens.next(), Some(Err(invalid_char('#'))));
    assert_eq!(tokens.index(), 0);
    assert_eq!(tokens.next(), Some(Err(invalid_char('#'))));

    let mut tokens = Tokenizer::new("abc(#");
    assert_token_value(tokens.next(), CharClass::Character, "abc");
    assert_eq!(tokens.next(), Some(Err(invalid_char('#'))));
    assert_eq!(tokens.index(), 3);
}

#[test]
fn the_first_character_outside_the_alphabet_is_reported() {
    assert_eq!(tokenize("ab ?cd !"), Err(invalid_char('?')));
}

#[test]
fn whitespace_before_an_error_is_passed_over() {
    let mut tokens = Tokenizer::new("  (#");
    assert_eq!(tokens.next_non_whitespace(), Some(Err(invalid_char('#'))));
    assert_eq!(tokens.index(), 2);

    let mut tokens = Tokenizer::new("x  ");
    assert_token_value(tokens.next_non_whitespace(), CharClass::Character, "x");
    assert_eq!(tokens.next_non_whitespace(), None);
    assert_eq!(tokens.index(), 3);
}

#[test]
fn whitespace_that_ends_in_an_error_is_not_passed_over() {
    let mut tokens = Tokenizer::new("  #");
    assert_eq!(tokens.next_non_whitespace(), Some(Err(invalid_char('#'))));
    assert_eq!(tokens.index(), 0);
}
