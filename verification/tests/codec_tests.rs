use sugar_config::address::{encode_address, parse_address, parse_optional_address, Address};
use sugar_config::error::ConfigError;
use sugar_config::price::{parse_price, price_as_lamports, discount_price_to_lamports, UNITS_PER_WHOLE};
use sugar_config::timestamp::go_live_date_as_timestamp;

fn addr(bytes: Vec<u8>) -> Address {
    Address { bytes }
}

#[test]
fn whole_unit_is_exactly_units_per_whole() {
    let p = parse_price("1.0").unwrap();
    assert_eq!(price_as_lamports(&p), UNITS_PER_WHOLE);
    let p = parse_price("1").unwrap();
    assert_eq!(price_as_lamports(&p), UNITS_PER_WHOLE);
}

#[test]
fn one_subunit_and_below() {
    let p = parse_price("0.000000001").unwrap();
    assert_eq!(price_as_lamports(&p), 1);
    // Anything below one subunit truncates to zero.
    let p = parse_price("0.0000000001").unwrap();
    assert_eq!(price_as_lamports(&p), 0);
    let p = parse_price("0.0000000019").unwrap();
    assert_eq!(price_as_lamports(&p), 1);
}

#[test]
fn negative_price_clamps_to_zero() {
    let p = parse_price("-0.5").unwrap();
    assert_eq!(price_as_lamports(&p), 0);
}

#[test]
fn half_unit_discount() {
    let p = parse_price("0.5").unwrap();
    assert_eq!(discount_price_to_lamports(&Some(p)), Some(500000000));
    assert_eq!(discount_price_to_lamports(&None), None);
}

#[test]
fn price_rejects_non_decimal_text() {
    assert!(parse_price("").is_none());
    assert!(parse_price("abc").is_none());
    assert!(parse_price("1.").is_none());
    assert!(parse_price(".5").is_none());
    assert!(parse_price("1.2.3").is_none());
}

#[test]
fn zero_address_round_trip() {
    let a = parse_address("11111111111111111111111111111111").unwrap();
    assert_eq!(a.bytes, vec![0u8; 32]);
    let encoded: String = encode_address(&a).into_iter().collect();
    assert_eq!(encoded, "11111111111111111111111111111111");
}

#[test]
fn one_at_end_round_trip() {
    let mut bytes = vec![0u8; 32];
    bytes[31] = 1;
    let encoded: String = encode_address(&addr(bytes.clone())).into_iter().collect();
    assert_eq!(encoded, "11111111111111111111111111111112");
    let back = parse_address(&encoded).unwrap();
    assert_eq!(back.bytes, bytes);
}

#[test]
fn arbitrary_bytes_round_trip() {
    let bytes: Vec<u8> = (0u8..32u8).map(|i| i.wrapping_mul(37).wrapping_add(11)).collect();
    let encoded: String = encode_address(&addr(bytes.clone())).into_iter().collect();
    let back = parse_address(&encoded).unwrap();
    assert_eq!(back.bytes, bytes);

    let bytes = vec![255u8; 32];
    let encoded: String = encode_address(&addr(bytes.clone())).into_iter().collect();
    let back = parse_address(&encoded).unwrap();
    assert_eq!(back.bytes, bytes);
}

#[test]
fn address_wrong_width_fails() {
    // Too short a string decodes to fewer than 32 bytes.
    assert!(matches!(parse_address("2"), Err(ConfigError::InvalidAddress(_))));
    // 31 ones: one zero byte short.
    assert!(matches!(
        parse_address("1111111111111111111111111111111"),
        Err(ConfigError::InvalidAddress(_))
    ));
    // A character outside the alphabet.
    assert!(matches!(parse_address("0"), Err(ConfigError::InvalidAddress(_))));
    assert!(matches!(parse_address(""), Err(ConfigError::InvalidAddress(_))));
}

#[test]
fn optional_address_failures_are_absence() {
    assert_eq!(parse_optional_address(""), None);
    assert_eq!(parse_optional_address("not-a-valid-address"), None);
    assert!(parse_optional_address("11111111111111111111111111111111").is_some());
}

#[test]
fn epoch_of_new_year_2022() {
    assert_eq!(go_live_date_as_timestamp("2022-01-01T00:00:00Z").unwrap(), 1640995200);
}

#[test]
fn date_without_time_is_rejected() {
    assert!(matches!(
        go_live_date_as_timestamp("2022-01-01"),
        Err(ConfigError::InvalidTimestamp(_))
    ));
}

#[test]
fn timestamp_offsets_and_case() {
    // A positive offset moves the instant earlier in epoch terms.
    assert_eq!(go_live_date_as_timestamp("2022-01-01T00:00:00+01:00").unwrap(), 1640991600);
    assert_eq!(go_live_date_as_timestamp("2022-01-01T00:00:00-01:30").unwrap(), 1641000600);
    // Lowercase separators are part of the format.
    assert_eq!(go_live_date_as_timestamp("2022-01-01t00:00:00z").unwrap(), 1640995200);
    // A fraction is accepted and ignored.
    assert_eq!(go_live_date_as_timestamp("2022-01-01T00:00:00.25Z").unwrap(), 1640995200);
}

#[test]
fn timestamp_epoch_and_leap_day() {
    assert_eq!(go_live_date_as_timestamp("1970-01-01T00:00:00Z").unwrap(), 0);
    assert_eq!(go_live_date_as_timestamp("2020-02-29T12:00:00Z").unwrap(), 1582977600);
    assert_eq!(go_live_date_as_timestamp("1969-12-31T23:59:59Z").unwrap(), -1);
}

#[test]
fn timestamp_rejects_malformed_parts() {
    assert!(go_live_date_as_timestamp("2022-13-01T00:00:00Z").is_err());
    assert!(go_live_date_as_timestamp("2022-02-30T00:00:00Z").is_err());
    assert!(go_live_date_as_timestamp("2022-01-01T24:00:00Z").is_err());
    assert!(go_live_date_as_timestamp("2022-01-01T00:00:00").is_err());
    assert!(go_live_date_as_timestamp("2022-01-01T00:00:00.Z").is_err());
    assert!(go_live_date_as_timestamp("2022-01-01 00:00:00Z").is_err());
}
