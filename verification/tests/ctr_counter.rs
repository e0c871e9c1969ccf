//! The CTR counter block: only the last word changes between successive
//! keystream blocks, and it wraps from the word's maximum back to zero.
use rc5_block::{rc5_cipher, BlockCipher, OperationMode, RC5ControlBlock};

/// The keystream CTR uses for two successive blocks, built by hand from
/// the single-block transform: the nonce word stays fixed while the
/// counter word steps, here wrapping from the maximum to zero.
#[test]
fn ctr_counter_wraps_to_zero() {
    let key = [11_u8; 16];
    let nonce: u32 = 0x51e2c0de;
    let cb = RC5ControlBlock::<u32>::new(&key, 12).unwrap();
    let cipher = rc5_cipher::<u32>(&key, 12).unwrap();

    let plain = [0_u8; 16]; // two blocks; zero bytes expose the keystream
    let ct = cipher
        .encrypt(
            &plain,
            OperationMode::CTR { nonce_and_counter: [nonce, u32::MAX] },
        )
        .unwrap();

    let first = cb.encrypt([nonce, u32::MAX]);
    let second = cb.encrypt([nonce, 0]);
    let mut expected = Vec::new();
    expected.extend(first.iter().flat_map(|w| w.to_le_bytes()));
    expected.extend(second.iter().flat_map(|w| w.to_le_bytes()));

    assert_eq!(expected, ct);
}

#[test]
fn ctr_counter_steps_by_one() {
    let key = [12_u8; 16];
    let nonce: u32 = 7;
    let cb = RC5ControlBlock::<u32>::new(&key, 12).unwrap();
    let cipher = rc5_cipher::<u32>(&key, 12).unwrap();

    let plain = [0_u8; 24]; // three blocks
    let ct = cipher
        .encrypt(
            &plain,
            OperationMode::CTR { nonce_and_counter: [nonce, 5] },
        )
        .unwrap();

    let mut expected = Vec::new();
    for counter in 5_u32..8 {
        let block = cb.encrypt([nonce, counter]);
        expected.extend(block.iter().flat_map(|w| w.to_le_bytes()));
    }

    assert_eq!(expected, ct);
}
