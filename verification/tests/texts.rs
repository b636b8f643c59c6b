use uv_resolver::text::{replace_first, uncapitalize, usize_to_string};

#[test]
fn uncapitalize_lowers_the_first_character() {
    assert_eq!(uncapitalize("Hello World"), "hello World");
    assert_eq!(uncapitalize("hello"), "hello");
    assert_eq!(uncapitalize(""), "");
    assert_eq!(uncapitalize("X"), "x");
    assert_eq!(uncapitalize("\u{c9}T\u{c9}"), "\u{e9}T\u{c9}");
    // The lowercase of one character may be several.
    assert_eq!(uncapitalize("\u{130}X"), "i\u{307}X");
}

#[test]
fn the_first_character_is_replaced() {
    assert_eq!(replace_first("Hello", "ss".to_string()), "ssello");
    assert_eq!(replace_first("H", String::new()), "");
}

#[test]
fn numbers_are_written_in_decimal_digits() {
    assert_eq!(usize_to_string(0), "0");
    assert_eq!(usize_to_string(7), "7");
    assert_eq!(usize_to_string(10), "10");
    assert_eq!(usize_to_string(90210), "90210");
    assert_eq!(usize_to_string(usize::MAX), usize::MAX.to_string());
}
