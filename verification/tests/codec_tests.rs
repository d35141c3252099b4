use multicast_demo::codec::format_payload;
use multicast_demo::codec::parse_decimal;
use multicast_demo::codec::parse_payload;

#[test]
fn payload_format_small_index() {
    assert_eq!(format_payload(1), b"packet 1".to_vec());
    assert_eq!(format_payload(5), b"packet 5".to_vec());
    assert_eq!(format_payload(0), b"packet 0".to_vec());
}

#[test]
fn payload_format_multi_digit_index() {
    assert_eq!(format_payload(10), b"packet 10".to_vec());
    assert_eq!(format_payload(12345), b"packet 12345".to_vec());
    assert_eq!(
        format_payload(u64::MAX),
        b"packet 18446744073709551615".to_vec()
    );
}

#[test]
fn payload_round_trip_all_plan_indices() {
    for i in 0..=300u64 {
        let bytes = format_payload(i);
        assert_eq!(parse_payload(&bytes), Some(i));
    }
    assert_eq!(parse_payload(&format_payload(u64::MAX)), Some(u64::MAX));
}

#[test]
fn payload_decodes_byte_for_byte() {
    let sent = format_payload(7);
    let received = sent.clone();
    assert_eq!(received, b"packet 7".to_vec());
    assert_eq!(parse_payload(&received), Some(7));
}

#[test]
fn payload_rejects_malformed() {
    assert_eq!(parse_payload(b""), None);
    assert_eq!(parse_payload(b"packet "), None);
    assert_eq!(parse_payload(b"packet"), None);
    assert_eq!(parse_payload(b"Packet 1"), None);
    assert_eq!(parse_payload(b"packet 007"), None);
    assert_eq!(parse_payload(b"packet 1x"), None);
    assert_eq!(parse_payload(b"packet -1"), None);
    assert_eq!(parse_payload(b"packe 1"), None);
    assert_eq!(parse_payload(b"packet 18446744073709551616"), None);
}

#[test]
fn decimal_parses_canonical_numerals() {
    assert_eq!(parse_decimal(b"0"), Some(0));
    assert_eq!(parse_decimal(b"9"), Some(9));
    assert_eq!(parse_decimal(b"10"), Some(10));
    assert_eq!(parse_decimal(b"18446744073709551615"), Some(u64::MAX));
}

#[test]
fn decimal_rejects_non_canonical() {
    assert_eq!(parse_decimal(b""), None);
    assert_eq!(parse_decimal(b"00"), None);
    assert_eq!(parse_decimal(b"01"), None);
    assert_eq!(parse_decimal(b"1 "), None);
    assert_eq!(parse_decimal(b"a"), None);
    assert_eq!(parse_decimal(b"18446744073709551616"), None);
    assert_eq!(parse_decimal(b"99999999999999999999999"), None);
}
