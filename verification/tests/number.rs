use rule_expr::ast::number::{decimal_string, is_digit_char, parse_i64, push_decimal};
use rule_expr::ast::text::{char_string, to_chars};

#[test]
fn parse_i64_reads_signed_decimals() {
    assert_eq!(parse_i64("0"), Some(0));
    assert_eq!(parse_i64("-0"), Some(0));
    assert_eq!(parse_i64("007"), Some(7));
    assert_eq!(parse_i64("-15"), Some(-15));
    assert_eq!(parse_i64("+10"), Some(10));
    assert_eq!(parse_i64("9223372036854775807"), Some(i64::MAX));
    assert_eq!(parse_i64("-9223372036854775808"), Some(i64::MIN));
}

#[test]
fn parse_i64_refuses_everything_else() {
    for text in [
        "", "-", "+", "--1", "+-1", "1-", "12a", "a12", " 1", "1 ", "1.0", "0x10",
        "9223372036854775808", "-9223372036854775809", "99999999999999999999999999",
        "\u{0663}", "\u{ff11}",
    ] {
        assert_eq!(parse_i64(text), None, "{:?}", text);
    }
}

#[test]
fn parse_i64_agrees_with_the_standard_library() {
    for text in ["0", "-0", "+0", "12", "-12", "+12", "", "+", "-", "1_000", "\u{0663}", "0012", "9223372036854775807", "9223372036854775808", "-9223372036854775808", "-9223372036854775809"] {
        assert_eq!(parse_i64(text), text.parse::<i64>().ok(), "{:?}", text);
    }
}

#[test]
fn decimal_string_spells_without_leading_zeros() {
    assert_eq!(decimal_string(0), "0");
    assert_eq!(decimal_string(7), "7");
    assert_eq!(decimal_string(10), "10");
    assert_eq!(decimal_string(9223372036854775807), "9223372036854775807");
    assert_eq!(decimal_string(u64::MAX), "18446744073709551615");
    let mut out = String::from("n=");
    push_decimal(&mut out, 1203);
    assert_eq!(out, "n=1203");
}

#[test]
fn spelling_and_reading_round_trip() {
    for v in [0u64, 1, 9, 10, 11, 99, 100, 12345, 9223372036854775807] {
        assert_eq!(parse_i64(&decimal_string(v)), Some(v as i64));
    }
}

#[test]
fn digits() {
    assert!(is_digit_char('0'));
    assert!(is_digit_char('9'));
    assert!(!is_digit_char('a'));
    assert!(!is_digit_char('/'));
    assert!(!is_digit_char(':'));
    assert!(!is_digit_char('\u{0663}'));
}

#[test]
fn characters_of_a_string() {
    assert_eq!(to_chars("a\u{e9}z"), vec!['a', '\u{e9}', 'z']);
    assert_eq!(to_chars(""), Vec::<char>::new());
    assert_eq!(char_string('x'), "x");
    assert_eq!(char_string('\u{e9}'), "\u{e9}");
}
