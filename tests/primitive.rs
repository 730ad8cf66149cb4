use rsa::RsaPrivateKey;
use tipchune::hash::le_encode;
use tipchune::{Address, Digest, PrimitiveError, PrivateKey, PublicKey, TxOut};

#[test]
fn test_hash_pow_verify() {
    let hash_difficulty3 = Digest::from_slice(&[
        0b0001_1010_u8,
        1,
        2,
        3,
        4,
        5,
        6,
        7,
        8,
        9,
        10,
        11,
        12,
        13,
        14,
        15,
        16,
        17,
        18,
        19,
        20,
        21,
        22,
        23,
        24,
        25,
        26,
        27,
        28,
        29,
        30,
        31,
    ]);
    assert!(hash_difficulty3.pow_verified(0));
    assert!(hash_difficulty3.pow_verified(1));
    assert!(hash_difficulty3.pow_verified(2));
    assert!(hash_difficulty3.pow_verified(3));
    assert!(!hash_difficulty3.pow_verified(4));
}

#[test]
fn key_auth_sign_and_verify() {
    let mut rng = rand::thread_rng();
    let private_key =
        PrivateKey::new(RsaPrivateKey::new(&mut rng, 2048).expect("failed to create private_key"))
            .expect("failed to take private_key");
    let public_key = private_key.to_public_key().expect("failed to encode public key");

    let hash = Digest::from_slice(&[42; 32]);
    let signed = private_key.sign(&hash).expect("failed to sign the hash");
    assert_eq!(Ok(()), public_key.verify(&hash, &signed));
    let other_hash = Digest::from_slice(&[10; 32]);
    let fake_sign = private_key.sign(&other_hash).expect("failed to sign the fake hash");
    assert_ne!(Ok(()), public_key.verify(&hash, &fake_sign));
}

#[test]
fn pow_edges_of_difficulty() {
    let all_ones = Digest::from_slice(&[0xff; 32]);
    assert!(all_ones.pow_verified(0));
    assert!(!all_ones.pow_verified(1));
    let mut bytes = [0xff_u8; 32];
    bytes[0] = 0;
    let zero_first = Digest::from_slice(&bytes);
    assert!(zero_first.pow_verified(8));
    bytes[0] = 1;
    let one_first = Digest::from_slice(&bytes);
    assert!(one_first.pow_verified(7));
    assert!(!one_first.pow_verified(8));
}

#[test]
fn public_key_hash_is_sha256_of_encoding() {
    let key = PublicKey::from_der(b"abc".to_vec());
    let expected: [u8; 32] = [
        0xba, 0x78, 0x16, 0xbf, 0x8f, 0x01, 0xcf, 0xea, 0x41, 0x41, 0x40, 0xde, 0x5d, 0xae, 0x22,
        0x23, 0xb0, 0x03, 0x61, 0xa3, 0x96, 0x17, 0x7a, 0x9c, 0xb4, 0x10, 0xff, 0x61, 0xf2, 0x00,
        0x15, 0xad,
    ];
    assert_eq!(key.hash().bytes, expected);
    assert_eq!(key.address().as_hash().bytes, expected);
}

#[test]
fn little_endian_encoding() {
    assert_eq!(le_encode(0x0102, 4), vec![0x02, 0x01, 0, 0]);
    assert_eq!(le_encode(u128::MAX, 16), vec![0xff; 16]);
    assert_eq!(le_encode(7, 0), Vec::<u8>::new());
}

#[test]
fn output_digest_depends_on_amount() {
    let addr = Address(Digest::from_slice(&[3; 32]));
    let a = TxOut { rx_addr: addr, amount: 100 };
    let b = TxOut { rx_addr: addr, amount: 101 };
    assert_ne!(a.hash().bytes, b.hash().bytes);
    assert_eq!(a.hash().bytes, a.hash().bytes);
}

#[test]
fn verify_rejects_garbage_key() {
    let key = PublicKey::from_der(vec![1, 2, 3]);
    let digest = Digest::from_slice(&[0; 32]);
    assert_eq!(key.verify(&digest, &[0; 64]), Err(PrimitiveError::Verification));
}
