use instocr::number::{parse_i32, parse_u32, parse_u64, push_decimal, IntErrorKind};
use std::num::IntErrorKind as StdKind;

fn kind(k: &StdKind) -> IntErrorKind {
    match k {
        StdKind::Empty => IntErrorKind::Empty,
        StdKind::InvalidDigit => IntErrorKind::InvalidDigit,
        StdKind::PosOverflow => IntErrorKind::PosOverflow,
        StdKind::NegOverflow => IntErrorKind::NegOverflow,
        other => panic!("unexpected kind {other:?}"),
    }
}

const SAMPLES: &[&str] = &[
    "", "+", "-", "0", "7", "+7", "-7", "007", "-0", "+-1", "--1", "1-", "12a", "a12", " 1", "1 ",
    "2147483647", "2147483648", "-2147483648", "-2147483649", "4294967295", "4294967296",
    "99999999999a", "-99999999999a", "18446744073709551615", "18446744073709551616",
    "٣", "１", "1_000", "0x10", "+0", "99999999999999999999999999",
];

#[test]
fn i32_matches_std() {
    for s in SAMPLES {
        let expected = s.parse::<i32>().map_err(|e| kind(e.kind()));
        assert_eq!(parse_i32(s), expected, "{s:?}");
    }
}

#[test]
fn u32_matches_std() {
    for s in SAMPLES {
        let expected = s.parse::<u32>().map_err(|e| kind(e.kind()));
        assert_eq!(parse_u32(s), expected, "{s:?}");
    }
}

#[test]
fn u64_matches_std() {
    for s in SAMPLES {
        let expected = s.parse::<u64>().map_err(|e| kind(e.kind()));
        assert_eq!(parse_u64(s), expected, "{s:?}");
    }
}

#[test]
fn integer_error_kinds() {
    assert_eq!(parse_i32(""), Err(IntErrorKind::Empty));
    assert_eq!(parse_i32("x"), Err(IntErrorKind::InvalidDigit));
    assert_eq!(parse_i32("3000000000"), Err(IntErrorKind::PosOverflow));
    assert_eq!(parse_i32("-3000000000"), Err(IntErrorKind::NegOverflow));
    assert_eq!(parse_u32("-1"), Err(IntErrorKind::InvalidDigit));
    assert_eq!(parse_i32("-42"), Ok(-42));
}

#[test]
fn decimal_text_reads_back() {
    for n in [0u32, 7, 10, 24, 99, 100, 65535, 4294967295] {
        let mut text = String::from("");
        push_decimal(&mut text, n);
        assert_eq!(text, n.to_string());
        assert_eq!(parse_u32(&text), Ok(n));
        assert_eq!(parse_u64(&text), Ok(n as u64));
    }
}
