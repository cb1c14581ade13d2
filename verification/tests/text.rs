use ironshield::text::{i64_text, parse_digits, parse_i64, parse_u64, parse_usize, u64_text};

fn samples() -> Vec<String> {
    let mut out: Vec<String> = Vec::new();
    for s in [
        "", "0", "00", "007", "+", "-", "+0", "-0", "+-1", "--1", "++1", "1+", "1-", " 1", "1 ", "1_000",
        "0x10", "1e3", "1.0", "a", "\u{661}\u{662}", "\u{ff11}", "12\u{e9}", "9223372036854775807",
        "9223372036854775808", "-9223372036854775808", "-9223372036854775809", "+9223372036854775807",
        "+9223372036854775808", "18446744073709551615", "18446744073709551616", "+18446744073709551615",
        "-18446744073709551615", "00000000000000000000000000000000000001",
        "000000000000000000018446744073709551615", "000000000000000000018446744073709551616",
        "99999999999999999999", "100000000000000000000", "184467440737095516150", "-00000000000000000009223372036854775808",
    ] {
        out.push(s.to_string());
    }
    for v in [0i128, 1, 9, 10, 11, 99, 100, 12345, 4294967295, 4294967296] {
        out.push(v.to_string());
        out.push(format!("-{}", v));
        out.push(format!("+{}", v));
    }
    out
}

#[test]
fn parse_i64_agrees_with_the_standard_reading() {
    for s in samples() {
        assert_eq!(parse_i64(&s), s.parse::<i64>().ok(), "{:?}", s);
    }
}

#[test]
fn parse_u64_agrees_with_the_standard_reading() {
    for s in samples() {
        assert_eq!(parse_u64(&s), s.parse::<u64>().ok(), "{:?}", s);
    }
}

#[test]
fn parse_usize_agrees_with_the_standard_reading() {
    for s in samples() {
        assert_eq!(parse_usize(&s), s.parse::<usize>().ok(), "{:?}", s);
    }
}

#[test]
fn parse_exact_values() {
    assert_eq!(parse_i64("-9223372036854775808"), Some(i64::MIN));
    assert_eq!(parse_i64("9223372036854775807"), Some(i64::MAX));
    assert_eq!(parse_i64("9223372036854775808"), None);
    assert_eq!(parse_i64("+42"), Some(42));
    assert_eq!(parse_i64("-42"), Some(-42));
    assert_eq!(parse_u64("18446744073709551615"), Some(u64::MAX));
    assert_eq!(parse_u64("18446744073709551616"), None);
    assert_eq!(parse_u64("-1"), None);
    assert_eq!(parse_usize("4"), Some(4));
    assert_eq!(parse_digits("ab123", 2, 1000), Some(123));
    assert_eq!(parse_digits("ab123", 2, 122), None);
    assert_eq!(parse_digits("ab123", 5, 1000), None);
    assert_eq!(parse_digits("ab123", 1, 1000), None);
    assert_eq!(parse_digits("\u{e9}\u{e9}7", 2, 7), Some(7));
}

#[test]
fn integer_text_agrees_with_the_standard_writing() {
    for v in [0u64, 1, 9, 10, 11, 99, 100, 101, 12345, 1 << 32, u64::MAX - 1, u64::MAX] {
        assert_eq!(u64_text(v), v.to_string());
    }
    for v in [0i64, 1, -1, 9, -9, 10, -10, 1030000, -1030000, i64::MAX, i64::MIN, i64::MIN + 1] {
        assert_eq!(i64_text(v), v.to_string());
    }
    assert_eq!(i64_text(i64::MIN), "-9223372036854775808");
    assert_eq!(u64_text(u64::MAX), "18446744073709551615");
}

#[test]
fn text_and_reading_round_trip() {
    let mut v: i64 = 1;
    for _ in 0..62 {
        assert_eq!(parse_i64(&i64_text(v)), Some(v));
        assert_eq!(parse_i64(&i64_text(-v)), Some(-v));
        assert_eq!(parse_u64(&u64_text(v as u64)), Some(v as u64));
        v = v * 2 + (v % 3);
        if v < 0 || v > i64::MAX / 4 {
            break;
        }
    }
}
