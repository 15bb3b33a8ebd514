use wkt_parser::decimal::push_decimal;
use wkt_parser::encoding::{char_utf8_len, str_utf8_len};

#[test]
fn the_length_of_a_character_in_bytes() {
    assert_eq!(char_utf8_len('a'), 1);
    assert_eq!(char_utf8_len('\u{7f}'), 1);
    assert_eq!(char_utf8_len('\u{80}'), 2);
    assert_eq!(char_utf8_len('\u{7ff}'), 2);
    assert_eq!(char_utf8_len('\u{800}'), 3);
    assert_eq!(char_utf8_len('\u{ffff}'), 3);
    assert_eq!(char_utf8_len('\u{10000}'), 4);
    for c in '\0'..=char::MAX {
        assert_eq!(char_utf8_len(c), c.len_utf8());
    }
}

#[test]
fn the_length_of_text_in_bytes() {
    assert_eq!(str_utf8_len(""), 0);
    assert_eq!(str_utf8_len("POINT"), 5);
    assert_eq!(str_utf8_len("a\u{2003}b"), 5);
    assert_eq!(str_utf8_len("越"), 3);
}

#[test]
fn numbers_in_decimal() {
    for (n, written) in [(0usize, "0"), (9, "9"), (10, "10"), (42, "42"), (1000, "1000")] {
        let mut out = String::from("at ");
        push_decimal(&mut out, n);
        assert_eq!(out, format!("at {}", written));
    }
    let mut out = String::new();
    push_decimal(&mut out, usize::MAX);
    assert_eq!(out, usize::MAX.to_string());
}
