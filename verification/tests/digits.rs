use yaml_rs::digits::{is_8digits, load_le, parse_8digits, parse_digits};

#[test]
fn eight_digits_are_recognised() {
    assert!(is_8digits(u64::from_le_bytes(*b"12345678")));
    assert!(is_8digits(u64::from_le_bytes(*b"00000000")));
    assert!(is_8digits(u64::from_le_bytes(*b"99999999")));
    assert!(!is_8digits(u64::from_le_bytes(*b"1234567a")));
    assert!(!is_8digits(u64::from_le_bytes(*b"/2345678")));
    assert!(!is_8digits(u64::from_le_bytes(*b"1234:678")));
    assert!(!is_8digits(u64::from_le_bytes([0xb9, b'1', b'1', b'1', b'1', b'1', b'1', b'1'])));
    assert!(!is_8digits(u64::from_le_bytes([b'1', 0xba, 0xb9, b'1', b'1', b'1', b'1', b'1'])));
    assert!(!is_8digits(0));
    assert!(!is_8digits(u64::MAX));
}

#[test]
fn eight_digits_are_combined() {
    assert_eq!(parse_8digits(u64::from_le_bytes(*b"12345678")), 12_345_678);
    assert_eq!(parse_8digits(u64::from_le_bytes(*b"00000000")), 0);
    assert_eq!(parse_8digits(u64::from_le_bytes(*b"99999999")), 99_999_999);
    assert_eq!(parse_8digits(u64::from_le_bytes(*b"00000001")), 1);
    assert_eq!(parse_8digits(u64::from_le_bytes(*b"10000000")), 10_000_000);
}

#[test]
fn words_are_packed_first_byte_lowest() {
    assert_eq!(load_le(b"12345678", 0), u64::from_le_bytes(*b"12345678"));
    assert_eq!(load_le(b"xx12345678yy", 2), u64::from_le_bytes(*b"12345678"));
}

#[test]
fn leading_digits_are_read() {
    assert_eq!(parse_digits(b"2024-01-02", 0, 4), 2024);
    assert_eq!(parse_digits(b"2024-01-02", 5, 2), 1);
    assert_eq!(parse_digits(b"2024-01-02", 8, 2), 2);
    assert_eq!(parse_digits(b"12ab", 0, 4), 12);
    assert_eq!(parse_digits(b"ab12", 0, 4), 0);
    assert_eq!(parse_digits(b"123456789", 0, 9), 123_456_789);
    assert_eq!(parse_digits(b"12345678", 0, 8), 12_345_678);
    assert_eq!(parse_digits(b"1234567x9", 0, 9), 1_234_567);
    assert_eq!(parse_digits(b"123", 1, 0), 0);
    assert_eq!(parse_digits(b"", 0, 0), 0);
}
