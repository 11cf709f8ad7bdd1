use gptcli::numbers::{fmt_i64, parse_i64, parse_u32, sat_add, sat_sub};

fn chars(s: &str) -> Vec<char> {
    s.chars().collect()
}

#[test]
fn parse_i64_reads_signed_decimals() {
    assert_eq!(parse_i64(&chars("0")), Some(0));
    assert_eq!(parse_i64(&chars("42")), Some(42));
    assert_eq!(parse_i64(&chars("+42")), Some(42));
    assert_eq!(parse_i64(&chars("-42")), Some(-42));
    assert_eq!(parse_i64(&chars("007")), Some(7));
    assert_eq!(parse_i64(&chars("-0")), Some(0));
}

#[test]
fn parse_i64_at_the_limits() {
    assert_eq!(parse_i64(&chars("9223372036854775807")), Some(i64::MAX));
    assert_eq!(parse_i64(&chars("-9223372036854775808")), Some(i64::MIN));
    assert_eq!(parse_i64(&chars("9223372036854775808")), None);
    assert_eq!(parse_i64(&chars("-9223372036854775809")), None);
    assert_eq!(parse_i64(&chars("99999999999999999999999999")), None);
}

#[test]
fn parse_i64_rejects_what_is_no_number() {
    for bad in ["", "+", "-", " 1", "1 ", "1.5", "a", "1a", "--1", "+-1", "0x10", "\u{662}"] {
        assert_eq!(parse_i64(&chars(bad)), None);
    }
}

#[test]
fn parse_i64_agrees_with_std() {
    for s in ["12", "-7", "+3", "", "x", "9223372036854775807", "9223372036854775808", "00", "-"] {
        assert_eq!(parse_i64(&chars(s)), s.parse::<i64>().ok());
    }
}

#[test]
fn parse_u32_agrees_with_std() {
    for s in ["0", "1200", "+5", "-5", "-0", "4294967295", "4294967296", "", "+", "12x"] {
        assert_eq!(parse_u32(&chars(s)), s.parse::<u32>().ok());
    }
}

#[test]
fn fmt_i64_writes_decimals() {
    assert_eq!(fmt_i64(0), "0");
    assert_eq!(fmt_i64(7), "7");
    assert_eq!(fmt_i64(10), "10");
    assert_eq!(fmt_i64(-1), "-1");
    assert_eq!(fmt_i64(1234567890), "1234567890");
    assert_eq!(fmt_i64(i64::MAX), "9223372036854775807");
    assert_eq!(fmt_i64(i64::MIN), "-9223372036854775808");
}

#[test]
fn fmt_then_parse_gives_the_number_back() {
    for n in [0i64, 1, -1, 9, 10, 99, 100, -100, 4711, i64::MAX, i64::MIN] {
        assert_eq!(parse_i64(&chars(&fmt_i64(n))), Some(n));
    }
}

#[test]
fn saturating_line_arithmetic() {
    assert_eq!(sat_add(1, 2), 3);
    assert_eq!(sat_add(i64::MAX, 1), i64::MAX);
    assert_eq!(sat_add(i64::MIN, -1), i64::MIN);
    assert_eq!(sat_sub(5, 7), -2);
    assert_eq!(sat_sub(i64::MIN, 1), i64::MIN);
    assert_eq!(sat_sub(i64::MAX, -1), i64::MAX);
}
