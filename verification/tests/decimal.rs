use gpx_traite::decimal::{parse_decimal, COORDINATE_DIGITS, ELEVATION_DIGITS};
use gpx_traite::error::TrackError;

#[test]
fn decimal_with_fraction_is_scaled() {
    assert_eq!(parse_decimal(b"12.5", 3), Ok(12500));
    assert_eq!(parse_decimal(b"12.5", 0), Ok(12));
    assert_eq!(parse_decimal(b"0.001", ELEVATION_DIGITS), Ok(1));
}

#[test]
fn decimal_without_fraction_is_padded() {
    assert_eq!(parse_decimal(b"7", 3), Ok(7000));
    assert_eq!(parse_decimal(b"7.", 3), Ok(7000));
    assert_eq!(parse_decimal(b"180", COORDINATE_DIGITS), Ok(1_800_000_000));
}

#[test]
fn decimal_without_whole_part_is_read() {
    assert_eq!(parse_decimal(b".5", 3), Ok(500));
    assert_eq!(parse_decimal(b"-.25", 2), Ok(-25));
}

#[test]
fn decimal_signs_are_honoured() {
    assert_eq!(parse_decimal(b"+45.1234567", 7), Ok(451_234_567));
    assert_eq!(parse_decimal(b"-0.0000001", 7), Ok(-1));
    assert_eq!(parse_decimal(b"-0", 3), Ok(0));
    assert_eq!(parse_decimal(b"-122.4194155", COORDINATE_DIGITS), Ok(-1_224_194_155));
}

#[test]
fn decimal_further_digits_are_dropped_not_rounded() {
    assert_eq!(parse_decimal(b"45.12345678", 7), Ok(451_234_567));
    assert_eq!(parse_decimal(b"45.12345679999", 7), Ok(451_234_567));
    assert_eq!(parse_decimal(b"-1.9999", 3), Ok(-1999));
    assert_eq!(parse_decimal(b"0.9", 0), Ok(0));
}

#[test]
fn decimal_leading_zeros_do_not_overflow() {
    assert_eq!(parse_decimal(b"000000000000000000000000000000000001.5", 3), Ok(1500));
}

#[test]
fn decimal_rejects_what_is_no_literal() {
    let bad: [&[u8]; 14] = [
        b"", b"+", b"-", b".", b"+.", b"1e5", b"1.2.3", b" 1", b"1 ", b"abc", b"--1", b"1,5",
        b"1-", b"NaN",
    ];
    for text in bad {
        assert_eq!(parse_decimal(text, 3), Err(TrackError::InvalidNumericLiteral));
    }
}

#[test]
fn decimal_rejects_a_bad_digit_beyond_the_scale() {
    assert_eq!(parse_decimal(b"1.234x", 3), Err(TrackError::InvalidNumericLiteral));
    assert_eq!(parse_decimal(b"1.2345x", 3), Err(TrackError::InvalidNumericLiteral));
}

#[test]
fn decimal_limits_of_the_range() {
    assert_eq!(parse_decimal(b"9223372036854775807", 0), Ok(i64::MAX));
    assert_eq!(parse_decimal(b"-9223372036854775807", 0), Ok(-i64::MAX));
    assert_eq!(parse_decimal(b"9223372036854775.807", 3), Ok(i64::MAX));
    assert_eq!(parse_decimal(b"9223372036854775.8079", 3), Ok(i64::MAX));
    assert_eq!(
        parse_decimal(b"9223372036854775808", 0),
        Err(TrackError::InvalidNumericLiteral)
    );
    assert_eq!(
        parse_decimal(b"-9223372036854775808", 0),
        Err(TrackError::InvalidNumericLiteral)
    );
    assert_eq!(
        parse_decimal(b"9223372036854775.808", 3),
        Err(TrackError::InvalidNumericLiteral)
    );
    assert_eq!(
        parse_decimal(b"922337203685477581", 3),
        Err(TrackError::InvalidNumericLiteral)
    );
    assert_eq!(
        parse_decimal(b"99999999999999999999999999999999999999999999", 0),
        Err(TrackError::InvalidNumericLiteral)
    );
}
