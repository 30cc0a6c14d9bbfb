use zep_clockify::number::{parse_u32, push_decimal};

#[test]
fn parse_u32_reads_digits() {
    assert_eq!(parse_u32("0"), Some(0));
    assert_eq!(parse_u32("7"), Some(7));
    assert_eq!(parse_u32("123"), Some(123));
    assert_eq!(parse_u32("0042"), Some(42));
    assert_eq!(parse_u32("4294967295"), Some(u32::MAX));
    assert_eq!(parse_u32("00000000004294967295"), Some(u32::MAX));
}

#[test]
fn parse_u32_takes_one_leading_plus() {
    assert_eq!(parse_u32("+5"), Some(5));
    assert_eq!(parse_u32("+0"), Some(0));
    assert_eq!(parse_u32("+"), None);
    assert_eq!(parse_u32("++5"), None);
    assert_eq!(parse_u32("5+"), None);
}

#[test]
fn parse_u32_rejects_everything_else() {
    assert_eq!(parse_u32(""), None);
    assert_eq!(parse_u32("-"), None);
    assert_eq!(parse_u32("-1"), None);
    assert_eq!(parse_u32("-0"), None);
    assert_eq!(parse_u32(" 1"), None);
    assert_eq!(parse_u32("1 "), None);
    assert_eq!(parse_u32("1_000"), None);
    assert_eq!(parse_u32("12a"), None);
    assert_eq!(parse_u32("0x10"), None);
    assert_eq!(parse_u32("١٢٣"), None);
    assert_eq!(parse_u32("4294967296"), None);
    assert_eq!(parse_u32("99999999999999999999999"), None);
    assert_eq!(parse_u32("4294967295x"), None);
    assert_eq!(parse_u32("42949672950"), None);
}

#[test]
fn parse_u32_agrees_with_the_standard_library() {
    let samples = [
        "", "+", "-", "0", "+0", "-0", "1", "+1", "-1", "10", "007", "4294967295", "4294967296",
        "42949672951", "+4294967295", "+4294967296", "1e3", "1.0", " 1", "1\n", "٣", "１", "+-1",
        "2147483648", "999999999", "9999999999",
    ];
    for s in samples {
        assert_eq!(parse_u32(s), s.parse::<u32>().ok(), "{:?}", s);
    }
}

#[test]
fn push_decimal_writes_without_leading_zeros() {
    for n in [0u32, 1, 9, 10, 11, 80, 99, 100, 101, 443, 8080, 65535, 1000000, u32::MAX] {
        let mut out = String::from("port ");
        push_decimal(&mut out, n);
        assert_eq!(out, format!("port {}", n));
    }
}

#[test]
fn written_numbers_read_back() {
    for n in [0u32, 5, 10, 99, 12345, 4294967295] {
        let mut out = String::new();
        push_decimal(&mut out, n);
        assert_eq!(parse_u32(&out), Some(n));
    }
}
