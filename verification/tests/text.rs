use monkey::text::{append_decimal, parse_decimal};

fn numeral(n: u64) -> String {
    let mut out = String::new();
    append_decimal(&mut out, n);
    out
}

#[test]
fn append_decimal_writes_numerals() {
    assert_eq!(numeral(0), "0");
    assert_eq!(numeral(7), "7");
    assert_eq!(numeral(10), "10");
    assert_eq!(numeral(1234567890), "1234567890");
    assert_eq!(numeral(u64::MAX), "18446744073709551615");
}

#[test]
fn append_decimal_keeps_what_was_there() {
    let mut out = String::from("n = ");
    append_decimal(&mut out, 42);
    append_decimal(&mut out, 0);
    assert_eq!(out, "n = 420");
}

#[test]
fn parse_decimal_reads_numerals() {
    assert_eq!(parse_decimal(""), Some(0));
    assert_eq!(parse_decimal("0"), Some(0));
    assert_eq!(parse_decimal("5"), Some(5));
    assert_eq!(parse_decimal("0010"), Some(10));
    assert_eq!(parse_decimal("838383"), Some(838383));
    assert_eq!(parse_decimal("2147483647"), Some(i32::MAX));
}

#[test]
fn parse_decimal_refuses_what_does_not_fit() {
    assert_eq!(parse_decimal("2147483648"), None);
    assert_eq!(parse_decimal("2147483650"), None);
    assert_eq!(parse_decimal("21474836470"), None);
    assert_eq!(parse_decimal("99999999999999999999999999"), None);
    assert_eq!(parse_decimal("0000000000000000002147483648"), None);
}
