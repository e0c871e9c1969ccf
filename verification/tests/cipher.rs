//! Round trips through the cipher facade across widths, round counts
//! and modes, determinism, the version string, and the construction
//! errors.
use rc5_block::{rc5_cipher, OperationMode, RC5ControlBlock, Reason};
use rc5_block::{random_iv, random_nonce_and_counter, BlockCipher};

#[test]
fn rc5_cipher_contructor() -> Result<(), Reason> {
    let key = vec![2_u8; 16];
    let rounds = 12;

    let cipher = rc5_cipher::<u32>(&key, rounds)?;

    let pt = b"Anees UR";

    let ct = cipher.encrypt(pt, OperationMode::ECB)?;

    println!("{} {:?}", ct.len(), ct.clone());

    let de_pt = cipher.decrypt(ct.as_ref(), OperationMode::ECB)?;

    println!("{:?}", std::str::from_utf8(&de_pt));
    assert_eq!(pt.as_slice(), de_pt.as_slice());

    Ok(())
}

#[test]
fn rc5_cbc_test() -> Result<(), Reason> {
    let key = [0_u8; 16];
    let rounds = 12;
    let cipher = rc5_cipher::<u32>(&key, rounds)?;
    let random_iv = random_iv::<u32>();

    let pt = b"Syed Anees Ur Rehman";
    let ct = cipher.encrypt(pt, OperationMode::ECB)?;
    println!("{:?}", &ct);

    let d = cipher.decrypt(&ct, OperationMode::ECB);
    println!("{:?}", d);

    let ct = cipher.encrypt(
        b"This is my cipher!!",
        OperationMode::CBC { iv: random_iv },
    )?;
    println!("{:?}", String::from_utf8_lossy(&ct));
    let recovered = cipher.decrypt(&ct, OperationMode::CBC { iv: random_iv })?;
    println!("{:?}", String::from_utf8_lossy(&recovered));
    assert_eq!(b"This is my cipher!!".as_slice(), recovered.as_slice());

    Ok(())
}

#[test]
fn rc5_ctr() -> Result<(), Reason> {
    let key: [u8; 16] = (*b"SECRET_KEY_BYTES").into();
    let rounds = 12;
    let random_nonce = random_nonce_and_counter::<u32>();
    let plain = b"This is RC5-CTR test";

    let rc5_cipher = rc5_cipher::<u32>(&key, rounds)?;

    let ct = rc5_cipher.encrypt(
        plain,
        OperationMode::CTR {
            nonce_and_counter: random_nonce,
        },
    )?;

    println!("{:?}", String::from_utf8_lossy(&ct));

    let d_plain = rc5_cipher.decrypt(
        &ct,
        OperationMode::CTR {
            nonce_and_counter: random_nonce,
        },
    )?;
    println!("{:?}", String::from_utf8(d_plain.clone()));
    assert_eq!(plain.as_slice(), d_plain.as_slice());

    Ok(())
}

fn ecb_round_trip_for<W: rc5_block::types::Word>(key: &[u8], rounds: usize, pt: &[u8]) {
    let cipher = rc5_cipher::<W>(key, rounds).unwrap();
    let ct = cipher.encrypt(pt, OperationMode::ECB).unwrap();
    let dt = cipher.decrypt(&ct, OperationMode::ECB).unwrap();
    assert_eq!(pt, dt.as_slice());
}

fn cbc_round_trip_for<W: rc5_block::types::Word>(key: &[u8], rounds: usize, pt: &[u8]) {
    let cipher = rc5_cipher::<W>(key, rounds).unwrap();
    let iv = random_iv::<W>();
    let ct = cipher.encrypt(pt, OperationMode::CBC { iv }).unwrap();
    let dt = cipher.decrypt(&ct, OperationMode::CBC { iv }).unwrap();
    assert_eq!(pt, dt.as_slice());
}

fn ctr_round_trip_for<W: rc5_block::types::Word>(key: &[u8], rounds: usize, pt: &[u8]) {
    let cipher = rc5_cipher::<W>(key, rounds).unwrap();
    let nonce_and_counter = random_nonce_and_counter::<W>();
    let ct = cipher
        .encrypt(pt, OperationMode::CTR { nonce_and_counter })
        .unwrap();
    assert_eq!(pt.len(), ct.len());
    let dt = cipher
        .decrypt(&ct, OperationMode::CTR { nonce_and_counter })
        .unwrap();
    assert_eq!(pt, dt.as_slice());
}

#[test]
fn round_trip_all_widths_all_modes() {
    let key = [7_u8; 24];
    let msg = b"Round trips must hold for every width and mode.";
    ecb_round_trip_for::<u16>(&key, 8, msg);
    ecb_round_trip_for::<u32>(&key, 12, msg);
    ecb_round_trip_for::<u64>(&key, 20, msg);
    ecb_round_trip_for::<u128>(&key, 24, msg);
    cbc_round_trip_for::<u16>(&key, 8, msg);
    cbc_round_trip_for::<u32>(&key, 12, msg);
    cbc_round_trip_for::<u64>(&key, 20, msg);
    cbc_round_trip_for::<u128>(&key, 24, msg);
    ctr_round_trip_for::<u16>(&key, 8, msg);
    ctr_round_trip_for::<u32>(&key, 12, msg);
    ctr_round_trip_for::<u64>(&key, 20, msg);
    ctr_round_trip_for::<u128>(&key, 24, msg);
}

#[test]
fn round_trip_zero_rounds_and_empty_message() {
    let key = [9_u8; 16];
    // Zero rounds is a valid parameter choice.
    ecb_round_trip_for::<u32>(&key, 0, b"zero rounds");
    ctr_round_trip_for::<u32>(&key, 0, b"zero rounds");
    // An empty message still pads to one full block in ECB/CBC and
    // unpads back to empty; CTR passes it through untouched.
    let cipher = rc5_cipher::<u32>(&key, 12).unwrap();
    let ct = cipher.encrypt(b"", OperationMode::ECB).unwrap();
    assert_eq!(ct.len(), 8);
    let dt = cipher.decrypt(&ct, OperationMode::ECB).unwrap();
    assert_eq!(dt, Vec::<u8>::new());
    let nonce_and_counter = random_nonce_and_counter::<u32>();
    let ct = cipher
        .encrypt(b"", OperationMode::CTR { nonce_and_counter })
        .unwrap();
    assert_eq!(ct, Vec::<u8>::new());
}

#[test]
fn determinism_same_key_same_ciphertext() {
    let key = [3_u8; 16];
    let cb1 = RC5ControlBlock::<u32>::new(&key, 12).unwrap();
    let cb2 = RC5ControlBlock::<u32>::new(&key, 12).unwrap();
    assert_eq!(cb1.s_table(), cb2.s_table());
    let pt = [0xdeadbeef_u32, 0x12345678_u32];
    assert_eq!(cb1.encrypt(pt), cb2.encrypt(pt));

    let cipher1 = rc5_cipher::<u32>(&key, 12).unwrap();
    let cipher2 = rc5_cipher::<u32>(&key, 12).unwrap();
    let msg = b"identical inputs, identical outputs";
    assert_eq!(
        cipher1.encrypt(msg, OperationMode::ECB).unwrap(),
        cipher2.encrypt(msg, OperationMode::ECB).unwrap()
    );
}

#[test]
fn parametric_version_string() {
    let key = [5_u8; 16];
    let cb = RC5ControlBlock::<u32>::new(&key, 12).unwrap();
    assert_eq!("RC5-v1/32/12/16", cb.parametric_version());
    assert_eq!("RC5-v1/32/12/16", cb.control_block_version());
    let cb = RC5ControlBlock::<u64>::new(&key, 255).unwrap();
    assert_eq!("RC5-v1/64/255/16", cb.parametric_version());
    let cb = RC5ControlBlock::<u16>::new(&[1u8], 0).unwrap();
    assert_eq!("RC5-v1/16/0/1", cb.parametric_version());
}

#[test]
fn construction_errors() {
    assert!(matches!(
        RC5ControlBlock::<u32>::new(&[], 12),
        Err(Reason::InvalidKey)
    ));
    let long_key = vec![1_u8; 256];
    assert!(matches!(
        RC5ControlBlock::<u32>::new(&long_key, 12),
        Err(Reason::KeyTooLong { current: 256, supported: 255 })
    ));
    assert!(matches!(
        RC5ControlBlock::<u32>::new(&[1, 2, 3], 256),
        Err(Reason::InvalidRounds(256))
    ));
    assert!(matches!(rc5_cipher::<u32>(&[], 1), Err(Reason::InvalidKey)));
}

#[test]
fn key_and_block_accessors() {
    let key = [5_u8; 16];
    let rc5_key = rc5_block::RC5Key::<u32>::from_raw(&key, 12).unwrap();
    assert_eq!(16, rc5_key.raw_len());

    let cb = RC5ControlBlock::<u32>::new(&key, 12).unwrap();
    assert_eq!(12, cb.rounds());
    assert_eq!(26, cb.s_table().len()); // 2 * (rounds + 1)
    assert_eq!(8, cb.block_size());
    assert_eq!(4, cb.word_size());

    let cipher = rc5_cipher::<u32>(&key, 12).unwrap();
    assert_eq!(8, cipher.control_block().block_size());

    let nc = random_nonce_and_counter::<u64>();
    assert_eq!(0, nc[1]); // counter initialized to zero
}

#[test]
fn version_from_parametric_vector() {
    let version = rc5_block::Version::from_parametric_vector(vec![1, 32, 12, 16]);
    assert_eq!("RC5-v1/32/12/16", version.version());
}
