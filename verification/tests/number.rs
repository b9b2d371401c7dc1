use nginx_metrics::number::{decimal_string, parse_decimal};

#[test]
fn numerals_are_read() {
    assert_eq!(parse_decimal("0", u64::MAX), Some(0));
    assert_eq!(parse_decimal("134", u64::MAX), Some(134));
    assert_eq!(parse_decimal("18446744073709551615", u64::MAX), Some(u64::MAX));
    assert_eq!(parse_decimal("65535", 65535), Some(65535));
    assert_eq!(parse_decimal("599", 599), Some(599));
}

#[test]
fn leading_zeros_count_for_nothing() {
    assert_eq!(parse_decimal("031", 65535), Some(31));
    assert_eq!(parse_decimal("000", 65535), Some(0));
    assert_eq!(parse_decimal("099", 65535), Some(99));
    assert_eq!(parse_decimal("00000000000000000000000000000000000042", u64::MAX), Some(42));
    assert_eq!(parse_decimal("0000000000000000000018446744073709551615", u64::MAX), Some(u64::MAX));
}

#[test]
fn what_is_no_numeral_or_too_great_is_refused() {
    assert_eq!(parse_decimal("", u64::MAX), None);
    assert_eq!(parse_decimal("+1", u64::MAX), None);
    assert_eq!(parse_decimal("-1", u64::MAX), None);
    assert_eq!(parse_decimal("1 ", u64::MAX), None);
    assert_eq!(parse_decimal("12a", u64::MAX), None);
    assert_eq!(parse_decimal("\u{663}", u64::MAX), None);
    assert_eq!(parse_decimal("18446744073709551616", u64::MAX), None);
    assert_eq!(parse_decimal("99999999999999999999999", u64::MAX), None);
    assert_eq!(parse_decimal("65536", 65535), None);
    assert_eq!(parse_decimal("600", 599), None);
    assert_eq!(parse_decimal("1", 0), None);
    assert_eq!(parse_decimal("0", 0), Some(0));
}

#[test]
fn numbers_are_written_in_decimal() {
    assert_eq!(decimal_string(0), "0");
    assert_eq!(decimal_string(7), "7");
    assert_eq!(decimal_string(10), "10");
    assert_eq!(decimal_string(404), "404");
    assert_eq!(decimal_string(599), "599");
    assert_eq!(decimal_string(1000000), "1000000");
    assert_eq!(decimal_string(u64::MAX), "18446744073709551615");
}
