use multicast_demo::codec::format_payload;
use multicast_demo::utf8::is_valid_utf8;

#[test]
fn utf8_accepts_ascii_and_multibyte() {
    assert!(is_valid_utf8(b""));
    assert!(is_valid_utf8(b"packet 1"));
    assert!(is_valid_utf8("caf\u{e9}".as_bytes()));
    assert!(is_valid_utf8("\u{20ac}".as_bytes()));
    assert!(is_valid_utf8("\u{10348}".as_bytes()));
    assert!(is_valid_utf8("\u{10ffff}".as_bytes()));
}

#[test]
fn utf8_rejects_malformed() {
    assert!(!is_valid_utf8(&[0xFF]));
    assert!(!is_valid_utf8(&[0x80]));
    assert!(!is_valid_utf8(&[0xC0, 0x80]));
    assert!(!is_valid_utf8(&[0xC1, 0xBF]));
    assert!(!is_valid_utf8(&[0xE0, 0x80, 0x80]));
    assert!(!is_valid_utf8(&[0xED, 0xA0, 0x80]));
    assert!(!is_valid_utf8(&[0xF4, 0x90, 0x80, 0x80]));
    assert!(!is_valid_utf8(&[0xC3]));
    assert!(!is_valid_utf8(&[0xE2, 0x82]));
    assert!(!is_valid_utf8(&[0xF0, 0x9F, 0x92]));
}

#[test]
fn utf8_agrees_with_std_decoder() {
    let samples: Vec<Vec<u8>> = vec![
        b"".to_vec(),
        b"packet 10".to_vec(),
        "caf\u{e9}".as_bytes().to_vec(),
        "\u{20ac}\u{10348}".as_bytes().to_vec(),
        vec![0xFF],
        vec![0x80, 0x80],
        vec![0xC2, 0x80],
        vec![0xC2, 0x7F],
        vec![0xC0, 0x80],
        vec![0xE0, 0xA0, 0x80],
        vec![0xE0, 0x9F, 0x80],
        vec![0xED, 0x9F, 0xBF],
        vec![0xED, 0xA0, 0x80],
        vec![0xF0, 0x90, 0x80, 0x80],
        vec![0xF0, 0x8F, 0x80, 0x80],
        vec![0xF4, 0x8F, 0xBF, 0xBF],
        vec![0xF4, 0x90, 0x80, 0x80],
        vec![0xF5, 0x80, 0x80, 0x80],
        vec![0x70, 0xC3, 0xA9, 0x70],
        vec![0x70, 0xC3],
    ];
    for bytes in samples {
        assert_eq!(
            is_valid_utf8(&bytes),
            std::str::from_utf8(&bytes).is_ok(),
            "disagreement on {:?}",
            bytes
        );
    }
}

#[test]
fn every_sender_payload_is_text() {
    for i in 1..=10u64 {
        let p = format_payload(i);
        assert!(is_valid_utf8(&p));
        assert!(std::str::from_utf8(&p).is_ok());
    }
}
