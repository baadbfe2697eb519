use dice::textfmt::dec_digits;

#[test]
fn test_dec_digits() {
    assert_eq!(dec_digits(0), b"0".to_vec());
    assert_eq!(dec_digits(7), b"7".to_vec());
    assert_eq!(dec_digits(10), b"10".to_vec());
    assert_eq!(dec_digits(12345), b"12345".to_vec());
    assert_eq!(dec_digits(u64::MAX), b"18446744073709551615".to_vec());
}
