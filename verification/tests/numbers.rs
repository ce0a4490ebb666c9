use parallel_matmul::numbers::{parse_number, parse_numbers, separates};

fn chars(text: &str) -> Vec<char> {
    text.chars().collect()
}

fn token(text: &str) -> Option<i32> {
    let text = chars(text);
    parse_number(&text, 0, text.len())
}

#[test]
fn plain_and_signed_numbers() {
    assert_eq!(token("0"), Some(0));
    assert_eq!(token("12"), Some(12));
    assert_eq!(token("-7"), Some(-7));
    assert_eq!(token("+5"), Some(5));
    assert_eq!(token("-0"), Some(0));
    assert_eq!(token("007"), Some(7));
}

#[test]
fn limits_of_32_bits() {
    assert_eq!(token("2147483647"), Some(i32::MAX));
    assert_eq!(token("2147483648"), None);
    assert_eq!(token("-2147483648"), Some(i32::MIN));
    assert_eq!(token("-2147483649"), None);
    assert_eq!(token("+2147483648"), None);
    assert_eq!(token("99999999999999999999999999"), None);
    assert_eq!(token("000000000000000000000000012"), Some(12));
}

#[test]
fn tokens_that_are_no_numbers() {
    assert_eq!(token("-"), None);
    assert_eq!(token("+"), None);
    assert_eq!(token("12a"), None);
    assert_eq!(token("a12"), None);
    assert_eq!(token("1-2"), None);
    assert_eq!(token("--1"), None);
    assert_eq!(token("+-1"), None);
    assert_eq!(token("1.5"), None);
    assert_eq!(token("0x10"), None);
    assert_eq!(token("\u{0661}"), None);
}

#[test]
fn a_token_inside_a_text() {
    let text = chars("ab-42cd");
    assert_eq!(parse_number(&text, 2, 5), Some(-42));
    assert_eq!(parse_number(&text, 3, 5), Some(42));
    assert_eq!(parse_number(&text, 2, 6), None);
}

#[test]
fn numbers_between_white_space() {
    assert_eq!(parse_numbers(&chars("1 2 3")), Some(vec![1, 2, 3]));
    assert_eq!(parse_numbers(&chars("  1\t-2\r\n+3\n\n")), Some(vec![1, -2, 3]));
    assert_eq!(parse_numbers(&chars("4\u{00A0}5\u{2003}6\u{3000}7")), Some(vec![4, 5, 6, 7]));
    assert_eq!(parse_numbers(&chars("")), Some(vec![]));
    assert_eq!(parse_numbers(&chars(" \n\t ")), Some(vec![]));
    assert_eq!(parse_numbers(&chars("15")), Some(vec![15]));
}

#[test]
fn one_bad_token_spoils_the_text() {
    assert_eq!(parse_numbers(&chars("1 2 x 3")), None);
    assert_eq!(parse_numbers(&chars("1 2 3 4294967296")), None);
    assert_eq!(parse_numbers(&chars("1,2")), None);
    assert_eq!(parse_numbers(&chars("1\u{200B}2")), None);
}

#[test]
fn separators_are_the_white_space_characters() {
    for c in ['\t', '\n', '\u{000B}', '\u{000C}', '\r', ' ', '\u{0085}', '\u{00A0}', '\u{1680}',
        '\u{2000}', '\u{200A}', '\u{2028}', '\u{2029}', '\u{202F}', '\u{205F}', '\u{3000}']
    {
        assert!(separates(c));
    }
    for c in ['0', 'a', '-', '\u{0008}', '\u{000E}', '\u{001F}', '\u{200B}', '\u{180E}', '\u{FEFF}'] {
        assert!(!separates(c));
    }
}

#[test]
fn separators_agree_with_the_standard_library() {
    for code in 0..0x11_0000u32 {
        if let Some(c) = char::from_u32(code) {
            assert_eq!(separates(c), c.is_whitespace());
        }
    }
}

#[test]
fn numbers_agree_with_the_standard_library() {
    for text in ["0", "-1", "+1", "2147483647", "-2147483648", "2147483648", "", "+", "-", "1_0",
        "٣", "00", "-00", "1e3", " 1"]
    {
        if !text.is_empty() {
            assert_eq!(token(text), text.parse::<i32>().ok());
        }
    }
}
