use doip_tester::common::{
    bytes_to_hex_upper, compare_expect_value, find_char, hex_string_to_bytes, hex_to_u16,
    parse_duration_to_milliseconds, parse_hex_u16, parse_hex_u8, str_eq, str_starts_with,
    vec_hex_strings_to_u8,
};
use doip_tester::error::TesterError;

#[test]
fn duration_seconds() {
    assert_eq!(parse_duration_to_milliseconds("2s"), Some(2000));
    assert_eq!(parse_duration_to_milliseconds("0s"), Some(0));
    assert_eq!(parse_duration_to_milliseconds("10s"), Some(10_000));
}

#[test]
fn duration_other_units() {
    assert_eq!(parse_duration_to_milliseconds("100ms"), Some(100));
    assert_eq!(parse_duration_to_milliseconds("80m"), Some(4_800_000));
    assert_eq!(parse_duration_to_milliseconds("3h"), Some(10_800_000));
}

#[test]
fn duration_rejects_unknown_unit() {
    assert_eq!(parse_duration_to_milliseconds("5x"), None);
    assert_eq!(parse_duration_to_milliseconds("5"), None);
    assert_eq!(parse_duration_to_milliseconds("s"), None);
    assert_eq!(parse_duration_to_milliseconds(""), None);
    assert_eq!(parse_duration_to_milliseconds("5ss"), None);
}

#[test]
fn duration_overflow() {
    // the numeric prefix itself does not fit in u64
    assert_eq!(parse_duration_to_milliseconds("99999999999999999999s"), None);
    // the number fits but the conversion to milliseconds does not
    assert_eq!(parse_duration_to_milliseconds("18446744073709551615s"), None);
    // no unit conversion needed: the largest value passes through
    assert_eq!(
        parse_duration_to_milliseconds("18446744073709551615ms"),
        Some(u64::MAX)
    );
}

#[test]
fn hex_decode_with_prefix() {
    assert_eq!(
        hex_string_to_bytes("0x11223344").unwrap(),
        vec![0x11, 0x22, 0x33, 0x44]
    );
    assert_eq!(hex_string_to_bytes("ff00").unwrap(), vec![0xFF, 0x00]);
    assert_eq!(hex_string_to_bytes("").unwrap(), Vec::<u8>::new());
}

#[test]
fn hex_decode_rejects_bad_input() {
    assert_eq!(hex_string_to_bytes("0x123"), Err(TesterError::InvalidData));
    assert_eq!(hex_string_to_bytes("zz"), Err(TesterError::InvalidData));
}

#[test]
fn hex_round_trip_uppercases() {
    let bytes = hex_string_to_bytes("a1b2c3").unwrap();
    let rendered = bytes_to_hex_upper(&bytes);
    assert_eq!(rendered, vec!['A', '1', 'B', '2', 'C', '3']);
}

#[test]
fn bytes_render_as_uppercase_hex() {
    assert_eq!(
        bytes_to_hex_upper(&vec![0x0F, 0xA0, 0x00]),
        vec!['0', 'F', 'A', '0', '0', '0']
    );
}

#[test]
fn hex_to_u16_reads_first_two_bytes() {
    assert_eq!(hex_to_u16("0x0E80"), 0x0E80);
    assert_eq!(hex_to_u16("1234"), 0x1234);
    assert_eq!(hex_to_u16("0x123456"), 0x1234);
}

#[test]
fn hex_to_u16_is_zero_on_bad_input() {
    assert_eq!(hex_to_u16("zz"), 0);
    assert_eq!(hex_to_u16("0x0E"), 0);
    assert_eq!(hex_to_u16(""), 0);
}

#[test]
fn parse_hex_fields() {
    assert_eq!(parse_hex_u8("0x02"), Ok(2));
    assert_eq!(parse_hex_u8("FD"), Ok(0xFD));
    assert_eq!(parse_hex_u8("0x100"), Err(TesterError::InvalidInput));
    assert_eq!(parse_hex_u16("0x0E80"), Ok(0x0E80));
    assert_eq!(parse_hex_u16("10000"), Err(TesterError::InvalidInput));
    assert_eq!(parse_hex_u16(""), Err(TesterError::InvalidInput));
}

#[test]
fn vec_hex_strings_parse_bytes() {
    let input = vec![
        String::from("0x11"),
        String::from("0x2F"),
        String::from("0xZZ"),
        String::from("0x"),
    ];
    assert_eq!(vec_hex_strings_to_u8(&input), vec![0x11, 0x2F, 0, 0]);
}

#[test]
fn expect_pattern_matches_prefix_and_wildcard() {
    assert!(compare_expect_value("22f186*", vec![0x22, 0xF1, 0x86]));
    assert!(compare_expect_value("22f186*", vec![0x22, 0xF1, 0x86, 0x22]));
    assert!(!compare_expect_value("22f186*", vec![0x22, 0xF2, 0x87]));
    assert!(!compare_expect_value("22f186*", vec![0x12, 0x2F, 0x18]));
}

#[test]
fn expect_pattern_is_case_insensitive() {
    assert!(compare_expect_value("62F186*", vec![0x62, 0xF1, 0x86, 0x01]));
    assert!(compare_expect_value("62f186*", vec![0x62, 0xF1, 0x86, 0x01]));
}

#[test]
fn expect_pattern_literal_longer_than_data_fails() {
    assert!(!compare_expect_value("7101ff00", vec![0x71, 0x01]));
}

#[test]
fn expect_wildcard_is_monotone_in_data() {
    // a matching wildcard pattern keeps matching as the data grows
    let base = vec![0x62, 0xF1];
    assert!(compare_expect_value("62f1*", base.clone()));
    let mut longer = base.clone();
    longer.push(0x99);
    assert!(compare_expect_value("62f1*", longer.clone()));
    longer.push(0x00);
    assert!(compare_expect_value("62f1*", longer));
}

#[test]
fn string_helpers() {
    assert!(str_eq("abc", "abc"));
    assert!(!str_eq("abc", "abd"));
    assert!(!str_eq("abc", "abcd"));
    assert!(str_starts_with("securityaccess_01", "securityaccess_"));
    assert!(!str_starts_with("security", "securityaccess_"));
    assert_eq!(find_char("a:b", ':'), Some(1));
    assert_eq!(find_char("ab", ':'), None);
}
