//! Known-answer vectors for RC5-32/12/16: 128-bit keys, the zero
//! plaintext block, and the published ciphertexts.
use rc5_block::{BlockCipher, RC5ControlBlock, Reason};

fn check_vector(key_value: u128, rounds: usize, expected_cipher_hex: &str) {
    let key = key_value.to_be_bytes();
    let plain_text = [0_u32; 2];
    let rc5_block = RC5ControlBlock::<u32>::new(&key, rounds).unwrap();

    let cipher_text = rc5_block.encrypt(plain_text);

    let bytes = cipher_text
        .iter()
        .flat_map(|word| word.to_le_bytes())
        .collect::<Vec<u8>>();

    assert_eq!(expected_cipher_hex, hex::encode_upper(bytes));

    let decipher_text = rc5_block.decrypt(cipher_text);

    assert_eq!([0_u32; 2], decipher_text);
}

#[test]
fn rc5_control_block_vector_1() {
    check_vector(0x80000000000000000000000000000000, 12, "8F681D7F285CDC2F");
}

#[test]
fn rc5_control_block_vector_2() {
    check_vector(0x40000000000000000000000000000000, 12, "DC14832CF4FE61A8");
}

#[test]
fn rc5_control_block_vector_3() {
    check_vector(0x20000000000000000000000000000000, 12, "2F2494A0D96958E7");
}

#[test]
fn rc5_control_block_vector_4() {
    check_vector(0x10000000000000000000000000000000, 12, "410BCDD35DA0963F");
}

#[test]
fn rc5_control_block_vector_5() {
    check_vector(0x08000000000000000000000000000000, 12, "0C4C1EC0EA4EA260");
}

#[test]
fn rc5_control_block_vector_6() {
    check_vector(0x04000000000000000000000000000000, 12, "3BBC9C778EDC72B3");
}

#[test]
fn rc5_control_block_vector_7() {
    check_vector(0x02000000000000000000000000000000, 12, "06381C693372158D");
}

#[test]
fn rc5_control_block_vector_8() {
    check_vector(0x01000000000000000000000000000000, 12, "587E3D5E4B11860B");
}

#[test]
fn encrypt_word_32() -> Result<(), Reason> {
    let key = vec![2_u8; 16];
    let pt = [0_u32; 2];
    let rounds = 12;

    let rc5 = RC5ControlBlock::<u32>::new(&key, rounds)?;
    let cipher = rc5.encrypt(pt);
    println!("Cipher: {:?}", cipher);

    let text = rc5.decrypt(cipher);

    println!("{:#010x?}", pt);
    println!("{:#010x?}", text);

    println!("{}", rc5.parametric_version());

    Ok(())
}

#[test]
fn rc5_ecb_32_bit() -> Result<(), Reason> {
    let key: [u8; 16] = [
        0x80, 0x00, 0x00, 0x00, 0x00, 0x00, 0x00, 0x00, 0x00, 0x00, 0x00, 0x00, 0x00, 0x00, 0x00,
        0x00,
    ];

    let rounds = 99;
    let plain_text = [0u32; 2];

    let rc5_cipher = RC5ControlBlock::<u32>::new(&key, rounds)?;

    let cipher_text = rc5_cipher.encrypt(plain_text);
    let bytes = cipher_text
        .iter()
        .flat_map(|word| word.to_le_bytes())
        .collect::<Vec<u8>>();
    println!("{:?}", hex::encode_upper(bytes));

    let a = 0x80000000000000000000000000000000u128;

    println!("{:?}", a.to_be_bytes());

    let decipher_text = rc5_cipher.decrypt(cipher_text);

    println!("{:0x?}", decipher_text);
    assert_eq!([0u32; 2], decipher_text);

    Ok(())
}
