use rc5_block::{pkcs7, Reason};

#[test]
fn pad_aligned_data() {
    let mut data = vec![1, 2, 3, 4, 5, 6, 7, 8];
    let block_size = 8;

    let rem = pkcs7(&mut data, block_size, true).unwrap();
    assert_eq!(rem, 0); // already aligned
    assert_eq!(data.len(), 16);
    assert_eq!(&data[8..], &[8; 8]); // full block padding
}

#[test]
fn pad_unaligned_data() {
    let mut data = b"hello".to_vec(); // 5 bytes
    let block_size = 8;

    let rem = pkcs7(&mut data, block_size, true).unwrap();
    assert_eq!(rem, 5);
    assert_eq!(data.len(), 8);
    assert_eq!(&data[5..], &[3, 3, 3]);
}

#[test]
fn unpad_valid_data() {
    let mut data = b"world\x03\x03\x03".to_vec();
    let block_size = 8;

    let pad_len = pkcs7(&mut data, block_size, false).unwrap();
    assert_eq!(pad_len, 3);
    assert_eq!(data, b"world");
}

#[test]
fn unpad_full_block_padding() {
    let mut data = b"messages\x08\x08\x08\x08\x08\x08\x08\x08".to_vec();
    let block_size = 8;

    let pad_len = pkcs7(&mut data, block_size, false).unwrap();
    assert_eq!(pad_len, 8);
    assert_eq!(data, b"messages");
}

#[test]
fn unpad_invalid_trailing_bytes() {
    let mut data = b"bad\x04\x04\x04\x02".to_vec(); // last pad byte is wrong
    let block_size = 4;

    let result = pkcs7(&mut data, block_size, false);
    assert!(matches!(result, Err(Reason::Padding)));
}

#[test]
fn unpad_invalid_padding_length_too_large() {
    let mut data = b"invalid\x09\x09\x09\x09\x09\x09\x09\x09\x09".to_vec(); // pad_len > block_size
    let block_size = 8;

    let result = pkcs7(&mut data, block_size, false);
    assert!(matches!(result, Err(Reason::Padding)));
}

#[test]
fn unpad_invalid_buffer_not_multiple_of_block_size() {
    let mut data = b"oops\x04\x04\x04".to_vec(); // total len = 7, not a multiple of 8
    let block_size = 8;

    let result = pkcs7(&mut data, block_size, false);
    assert!(matches!(result, Err(Reason::Padding)));
}

#[test]
fn unpad_empty_buffer() {
    let mut data = vec![];
    let block_size = 8;

    let result = pkcs7(&mut data, block_size, false);
    assert!(matches!(result, Err(Reason::Padding)));
}

#[test]
fn padding_fixed_blocks() {
    const BS: usize = 8; // 2 * u32 word bytes

    // An aligned buffer still receives one full block of padding.
    let mut pt = vec![1_u8; 8];
    pkcs7(&mut pt, BS, true).unwrap();
    assert_eq!(pt, vec![1, 1, 1, 1, 1, 1, 1, 1, 8, 8, 8, 8, 8, 8, 8, 8]);

    let mut pt = vec![1_u8; 4];
    pkcs7(&mut pt, BS, true).unwrap();
    assert_eq!(pt, vec![1, 1, 1, 1, 4, 4, 4, 4]);
}

#[test]
fn utils_padding_fixed_blocks() {
    const BS: usize = 8; // 2 * u32 word bytes

    // An aligned buffer still receives one full block of padding.
    let mut pt = vec![1_u8; 8];
    pkcs7(&mut pt, BS, true).unwrap();
    assert_eq!(pt, vec![1, 1, 1, 1, 1, 1, 1, 1, 8, 8, 8, 8, 8, 8, 8, 8]);

    let mut pt = vec![1_u8; 4];
    pkcs7(&mut pt, BS, true).unwrap();
    assert_eq!(pt, vec![1, 1, 1, 1, 4, 4, 4, 4]);
}

#[test]
fn unpad_rejects_zero_pad_byte() {
    let mut data = b"zeros\x00\x00\x00".to_vec(); // trailing pad byte value 0
    let block_size = 8;

    let result = pkcs7(&mut data, block_size, false);
    assert!(matches!(result, Err(Reason::Padding)));
}

#[test]
fn pad_then_unpad_restores_empty_buffer() {
    let mut data: Vec<u8> = vec![];
    let block_size = 8;

    pkcs7(&mut data, block_size, true).unwrap();
    assert_eq!(data, vec![8; 8]);
    let pad_len = pkcs7(&mut data, block_size, false).unwrap();
    assert_eq!(pad_len, 8);
    assert_eq!(data, Vec::<u8>::new());
}
