use wkt_parser::keyword::{matches_keyword, to_lower};

#[test]
fn capital_letters_in_lower_case() {
    for c in '\0'..=char::MAX {
        assert_eq!(to_lower(c), c.to_ascii_lowercase(), "U+{:04X}", c as u32);
    }
}

#[test]
fn keywords_without_regard_to_case() {
    assert!(matches_keyword("empty", "empty"));
    assert!(matches_keyword("EMPTY", "empty"));
    assert!(matches_keyword("eMpTy", "empty"));
    assert!(matches_keyword("", ""));
}

#[test]
fn words_that_are_not_the_keyword() {
    assert!(!matches_keyword("emptier", "empty"));
    assert!(!matches_keyword("empt", "empty"));
    assert!(!matches_keyword("", "empty"));
    assert!(!matches_keyword("empty", ""));
    assert!(!matches_keyword("empty ", "empty"));
    assert!(!matches_keyword("émpty", "empty"));
    assert!(!matches_keyword("empty", "EMPTY"));
}
