//! Words, fields and numbers.

use procmetrics::number::{
    is_str_numeric, parse_i32, parse_u32, parse_u64, parse_u8, write_i32, ParseIntError,
};
use procmetrics::text::{
    chars_of, find, is_whitespace, next_word, same_text, split, strip_prefix, substring, trim,
};
use std::num::IntErrorKind;

fn chars(s: &str) -> Vec<char> {
    s.chars().collect()
}

fn string(s: &[char]) -> String {
    s.iter().collect()
}

fn kind(e: std::num::ParseIntError) -> ParseIntError {
    match e.kind() {
        IntErrorKind::Empty => ParseIntError::Empty,
        IntErrorKind::InvalidDigit => ParseIntError::InvalidDigit,
        IntErrorKind::PosOverflow => ParseIntError::PosOverflow,
        IntErrorKind::NegOverflow => ParseIntError::NegOverflow,
        _ => unreachable!(),
    }
}

const NUMBERS: [&str; 32] = [
    "",
    "+",
    "-",
    "0",
    "00",
    "7",
    "+7",
    "-7",
    "--7",
    "+-7",
    "-0",
    "255",
    "256",
    "0000000000000000000000000255",
    "x",
    "12x",
    "12 ",
    " 12",
    "1_000",
    "2147483647",
    "2147483648",
    "-2147483648",
    "-2147483649",
    "4294967295",
    "4294967296",
    "18446744073709551615",
    "18446744073709551616",
    "18446744073709551616x",
    "99999999999999999999999999",
    "-99999999999999999999999999",
    "x99999999999999999999999999",
    "\u{663}",
];

#[test]
fn white_space_is_that_of_unicode() {
    for code in 0..=0x10ffffu32 {
        if let Some(c) = char::from_u32(code) {
            assert_eq!(is_whitespace(c), c.is_whitespace(), "{:?}", c);
        }
    }
}

#[test]
fn trim_takes_both_ends() {
    for s in ["", " ", "a", " a ", "\u{3000}\ta b\u{85}\n", "D0\n", "\u{200b}x"] {
        assert_eq!(string(trim(&chars(s))), s.trim());
    }
}

#[test]
fn words_are_found_one_after_the_other() {
    for s in ["", "  ", "a", " a", "a ", "read_bytes: 12\n", "\u{2003}x\u{a0}y z\u{1680}"] {
        let text = chars(s);
        let mut rest: &[char] = &text;
        let mut words: Vec<String> = Vec::new();
        while let Some((word, tail)) = next_word(rest) {
            words.push(string(word));
            rest = tail;
        }
        assert_eq!(words, s.split_whitespace().collect::<Vec<_>>());
    }
}

#[test]
fn pieces_lie_between_the_separators() {
    for s in ["", " ", "a", "a b", " a  b ", "S 1 2"] {
        let text = chars(s);
        let parts: Vec<String> = split(&text, ' ').into_iter().map(string).collect();
        assert_eq!(parts, s.split(' ').collect::<Vec<_>>());
    }
}

#[test]
fn the_first_occurrence_is_found() {
    assert_eq!(find(&chars("1 (a) (b)"), '('), Some(2));
    assert_eq!(find(&chars("1 (a) (b)"), ')'), Some(4));
    assert_eq!(find(&chars("1 a"), '('), None);
    assert_eq!(find(&chars(""), '('), None);
}

#[test]
fn a_prefix_is_taken_off() {
    assert_eq!(strip_prefix(&chars("VmData: 1"), "VmData:").map(string), Some(" 1".to_string()));
    assert_eq!(strip_prefix(&chars("VmData:"), "VmData:").map(string), Some(String::new()));
    assert_eq!(strip_prefix(&chars("VmData"), "VmData:"), None);
    assert_eq!(strip_prefix(&chars("vmData: 1"), "VmData:"), None);
}

#[test]
fn texts_are_the_same_character_by_character() {
    assert!(same_text(&chars(""), &chars("")));
    assert!(same_text(&chars("1\u{e9}"), &chars("1\u{e9}")));
    assert!(!same_text(&chars("1"), &chars("12")));
    assert!(!same_text(&chars("12"), &chars("13")));
}

#[test]
fn characters_of_a_text() {
    assert_eq!(chars_of("a\u{e9}\u{1f600}"), vec!['a', '\u{e9}', '\u{1f600}']);
    assert_eq!(substring("a\u{e9}\u{1f600}b", 1, 3), "\u{e9}\u{1f600}");
    assert_eq!(substring("ab", 1, 1), "");
}

#[test]
fn numbers_are_parsed_as_the_standard_library_does() {
    for s in NUMBERS {
        let text = chars(s);
        assert_eq!(parse_u64(&text), s.parse::<u64>().map_err(kind), "{:?}", s);
        assert_eq!(parse_u32(&text), s.parse::<u32>().map_err(kind), "{:?}", s);
        assert_eq!(parse_u8(&text), s.parse::<u8>().map_err(kind), "{:?}", s);
        assert_eq!(parse_i32(&text), s.parse::<i32>().map_err(kind), "{:?}", s);
    }
}

#[test]
fn each_kind_of_number_error() {
    assert_eq!(parse_u64(&chars("")), Err(ParseIntError::Empty));
    assert_eq!(parse_u64(&chars("1a")), Err(ParseIntError::InvalidDigit));
    assert_eq!(parse_u8(&chars("256")), Err(ParseIntError::PosOverflow));
    assert_eq!(parse_i32(&chars("-2147483649")), Err(ParseIntError::NegOverflow));
}

#[test]
fn decimal_notation_is_read_back() {
    for n in [0, 1, 9, 10, 42, 99, 100, 12345, i32::MAX, -1, -10, i32::MIN] {
        let text = write_i32(n);
        assert_eq!(string(&text), n.to_string());
        assert_eq!(parse_i32(&text), Ok(n));
    }
}

#[test]
fn numeric_names() {
    assert!(is_str_numeric(&chars("0123456789")));
    assert!(is_str_numeric(&chars("")));
    assert!(!is_str_numeric(&chars("12a")));
    assert!(!is_str_numeric(&chars("-12")));
    assert!(!is_str_numeric(&chars("\u{663}")));
}
