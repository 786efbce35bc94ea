//! Characters, numerals and lengths.

use genrex::text::{char_string, chars_of, decimal_string, parse_usize, string_of, utf8_len};

fn parsed(text: &str) -> Option<usize> {
    let chars: Vec<char> = text.chars().collect();
    parse_usize(&chars, 0, chars.len())
}

#[test]
fn chars_of_lists_the_characters() {
    assert_eq!(chars_of("aé€b"), vec!['a', 'é', '€', 'b']);
    assert_eq!(chars_of(""), Vec::<char>::new());
}

#[test]
fn string_of_takes_a_range() {
    let chars = vec!['h', 'e', 'l', 'l', 'o'];
    assert_eq!(string_of(&chars, 1, 4), "ell");
    assert_eq!(string_of(&chars, 0, 5), "hello");
    assert_eq!(string_of(&chars, 2, 2), "");
}

#[test]
fn char_string_holds_one_character() {
    assert_eq!(char_string('x'), "x");
    assert_eq!(char_string('€'), "€");
}

#[test]
fn utf8_len_counts_bytes() {
    assert_eq!(utf8_len(&"".to_string()), 0);
    assert_eq!(utf8_len(&"abc".to_string()), 3);
    assert_eq!(utf8_len(&"é".to_string()), 2);
    assert_eq!(utf8_len(&"a€𝄞".to_string()), 8);
}

#[test]
fn decimal_string_writes_numerals() {
    assert_eq!(decimal_string(0), "0");
    assert_eq!(decimal_string(7), "7");
    assert_eq!(decimal_string(10), "10");
    assert_eq!(decimal_string(4096), "4096");
    assert_eq!(decimal_string(usize::MAX), format!("{}", usize::MAX));
}

#[test]
fn parse_usize_reads_numerals() {
    assert_eq!(parsed("0"), Some(0));
    assert_eq!(parsed("42"), Some(42));
    assert_eq!(parsed("007"), Some(7));
    assert_eq!(parsed("+7"), Some(7));
    assert_eq!(parsed(&format!("{}", usize::MAX)), Some(usize::MAX));
}

#[test]
fn parse_usize_rejects_what_is_no_numeral() {
    assert_eq!(parsed(""), None);
    assert_eq!(parsed("+"), None);
    assert_eq!(parsed("-1"), None);
    assert_eq!(parsed("4a"), None);
    assert_eq!(parsed(" 4"), None);
    assert_eq!(parsed("++4"), None);
    assert_eq!(parsed("4+"), None);
    assert_eq!(parsed("٣"), None);
}

#[test]
fn parse_usize_rejects_overflow() {
    assert_eq!(parsed("18446744073709551616"), None);
    assert_eq!(parsed("99999999999999999999999999"), None);
    assert_eq!(parsed("99999999999999999999999999x"), None);
}

#[test]
fn parse_usize_reads_a_range() {
    let chars: Vec<char> = "a{12,34}".chars().collect();
    assert_eq!(parse_usize(&chars, 2, 4), Some(12));
    assert_eq!(parse_usize(&chars, 5, 7), Some(34));
    assert_eq!(parse_usize(&chars, 2, 5), None);
    assert_eq!(parse_usize(&chars, 4, 4), None);
}

#[test]
fn parse_agrees_with_the_standard_parser() {
    for text in ["0", "1", "+1", "-1", "12345", "", "+", "1 ", "0x10", "١", "00000000000000000000000001"] {
        assert_eq!(parsed(text), text.parse::<usize>().ok(), "{:?}", text);
    }
}
