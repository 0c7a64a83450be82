use dbug_desktop::literal::is_float_literal;
use dbug_desktop::number::{decimal_string, digits, parse_i64, parse_u16};

fn number_chars(s: &str) -> Vec<char> {
    s.chars().collect()
}

#[test]
fn float_literals_are_recognised() {
    for s in [
        "0", "1", "42", "1.", ".5", "1.5", "007", "1e5", "1E5", "1e+5", "1e-5", "1.e5", ".5e-3",
        "+1", "-1", "+.5e1", "inf", "-inf", "+inf", "INF", "Infinity", "-infinity", "nan", "NaN",
        "+nan", "1e0000000000000000000009",
    ] {
        assert!(is_float_literal(&number_chars(s)), "{:?} is a literal", s);
    }
}

#[test]
fn other_texts_are_no_float_literals() {
    for s in [
        "", "+", "-", ".", "e5", "1e", "1e+", "1e-", ".e1", "+-1", "--1", "1.5.2", "1..2", "1e5.",
        "1e5e5", " 1", "1 ", "1_000", "0x10", "infinit", "infinityy", "in", "na", "nan1", "1nan",
        "true", "null", "1,", "١",
    ] {
        assert!(!is_float_literal(&number_chars(s)), "{:?} is no literal", s);
    }
}

#[test]
fn float_literals_agree_with_the_standard_parser() {
    for s in [
        "", "0", "-0", "+", ".", "1.", ".1", "..", "1e", "e", "E1", "1E1", "1e1.0", "inf", "iNf",
        "infinity", "INFINITY", "nan", "-NaN", "+-nan", "12abc", "3.14159", "-2.5e-10", "1e+",
        "+e1", "0.0.0", "İnf", "inF", "ınf", "1\u{0}",
    ] {
        assert_eq!(is_float_literal(&number_chars(s)), s.parse::<f64>().is_ok(), "for {:?}", s);
    }
}

#[test]
fn parse_i64_reads_signed_decimals() {
    assert_eq!(parse_i64(&number_chars("0")), Some(0));
    assert_eq!(parse_i64(&number_chars("1700000000000")), Some(1_700_000_000_000));
    assert_eq!(parse_i64(&number_chars("-12")), Some(-12));
    assert_eq!(parse_i64(&number_chars("+12")), Some(12));
    assert_eq!(parse_i64(&number_chars("0012")), Some(12));
    assert_eq!(parse_i64(&number_chars("9223372036854775807")), Some(i64::MAX));
    assert_eq!(parse_i64(&number_chars("-9223372036854775808")), Some(i64::MIN));
}

#[test]
fn parse_i64_refuses_everything_else() {
    for s in [
        "", "+", "-", "1 ", " 1", "1.0", "12a", "--1", "+-1", "9223372036854775808",
        "-9223372036854775809", "99999999999999999999999999", "１２",
    ] {
        assert_eq!(parse_i64(&number_chars(s)), None, "for {:?}", s);
    }
}

#[test]
fn parse_i64_agrees_with_the_standard_parser() {
    for s in [
        "", "0", "-0", "+0", "5", "-5", "+5", "00", "1e3", "18446744073709551615",
        "9223372036854775807", "9223372036854775808", "-9223372036854775808", "abc", "1-1",
    ] {
        assert_eq!(parse_i64(&number_chars(s)), s.parse::<i64>().ok(), "for {:?}", s);
    }
}

#[test]
fn parse_u16_reads_ports() {
    assert_eq!(parse_u16(&number_chars("53821")), Some(53821));
    assert_eq!(parse_u16(&number_chars("0")), Some(0));
    assert_eq!(parse_u16(&number_chars("+80")), Some(80));
    assert_eq!(parse_u16(&number_chars("65535")), Some(65535));
    assert_eq!(parse_u16(&number_chars("65536")), None);
    assert_eq!(parse_u16(&number_chars("-1")), None);
    assert_eq!(parse_u16(&number_chars("-0")), None);
    assert_eq!(parse_u16(&number_chars("")), None);
    assert_eq!(parse_u16(&number_chars("+")), None);
    assert_eq!(parse_u16(&number_chars("80 ")), None);
    assert_eq!(parse_u16(&number_chars("8o")), None);
}

#[test]
fn parse_u16_agrees_with_the_standard_parser() {
    for s in ["", "1", "+1", "-1", "-0", "+", "-", "065535", "65535", "65536", "1e2", "٣"] {
        assert_eq!(parse_u16(&number_chars(s)), s.parse::<u16>().ok(), "for {:?}", s);
    }
}

#[test]
fn digits_writes_decimal_digits() {
    assert_eq!(digits(0), vec!['0']);
    assert_eq!(digits(7), vec!['7']);
    assert_eq!(digits(10), vec!['1', '0']);
    assert_eq!(digits(120_034), number_chars("120034"));
    assert_eq!(digits(u128::MAX), number_chars("340282366920938463463374607431768211455"));
}

#[test]
fn decimal_string_agrees_with_to_string() {
    for n in [0i64, 1, -1, 9, 10, -10, 99, 100, 1_700_000_000_123, -42_000, i64::MAX, i64::MIN] {
        assert_eq!(decimal_string(n), n.to_string());
    }
}

#[test]
fn decimal_strings_parse_back() {
    for n in [0i64, 5, -5, 1234567890123, i64::MAX, i64::MIN, -1] {
        assert_eq!(parse_i64(&number_chars(&decimal_string(n))), Some(n));
    }
}
