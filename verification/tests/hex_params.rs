//! Hex parameter validation: IV and nonce/counter strings must decode
//! to exactly one block and one word each, and are rejected before any
//! cryptographic operation runs.
use rc5_block::{rc5_cipher, Reason};

#[test]
fn parse_iv_valid() {
    let cipher = rc5_cipher::<u32>(&[1_u8; 16], 12).unwrap();
    // Eight bytes, little-endian words 1 and 2.
    let iv = cipher.parse_iv_from_hex("0100000002000000").unwrap();
    assert_eq!([1_u32, 2_u32], iv);
    // Upper-case hex decodes the same way.
    let iv = cipher.parse_iv_from_hex("0A00000002000000").unwrap();
    assert_eq!([10_u32, 2_u32], iv);
}

#[test]
fn parse_iv_wrong_length() {
    let cipher = rc5_cipher::<u32>(&[1_u8; 16], 12).unwrap();
    assert!(matches!(
        cipher.parse_iv_from_hex("01000000"),
        Err(Reason::IVinvalid(8))
    ));
    assert!(matches!(
        cipher.parse_iv_from_hex("010000000200000003"),
        Err(Reason::IVinvalid(8))
    ));
}

#[test]
fn parse_iv_malformed_hex() {
    let cipher = rc5_cipher::<u32>(&[1_u8; 16], 12).unwrap();
    assert!(matches!(
        cipher.parse_iv_from_hex("zz00000002000000"),
        Err(Reason::ParseHex)
    ));
    // An odd number of digits is malformed, not merely short.
    assert!(matches!(
        cipher.parse_iv_from_hex("010000000200000"),
        Err(Reason::ParseHex)
    ));
}

#[test]
fn parse_nonce_counter_valid() {
    let cipher = rc5_cipher::<u32>(&[1_u8; 16], 12).unwrap();
    let nc = cipher
        .parse_nonce_counter_from_hex("01000000", "00000000")
        .unwrap();
    assert_eq!([1_u32, 0_u32], nc);
    let nc = cipher
        .parse_nonce_counter_from_hex("ff000000", "2a000000")
        .unwrap();
    assert_eq!([255_u32, 42_u32], nc);
}

#[test]
fn parse_nonce_counter_wrong_length() {
    let cipher = rc5_cipher::<u32>(&[1_u8; 16], 12).unwrap();
    assert!(matches!(
        cipher.parse_nonce_counter_from_hex("0100", "00000000"),
        Err(Reason::NonceInvalid(4))
    ));
    assert!(matches!(
        cipher.parse_nonce_counter_from_hex("01000000", "00"),
        Err(Reason::NonceInvalid(4))
    ));
}

#[test]
fn parse_nonce_counter_malformed_hex() {
    let cipher = rc5_cipher::<u32>(&[1_u8; 16], 12).unwrap();
    assert!(matches!(
        cipher.parse_nonce_counter_from_hex("not hex!", "00000000"),
        Err(Reason::ParseHex)
    ));
    assert!(matches!(
        cipher.parse_nonce_counter_from_hex("01000000", "xx000000"),
        Err(Reason::ParseHex)
    ));
}
