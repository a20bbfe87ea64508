use tcp_messenger::crypto::{decrypt, encrypt, nonce, CryptoError};

fn key() -> [u8; 32] {
    let mut k = [0u8; 32];
    let mut i = 0u8;
    while (i as usize) < 32 {
        k[i as usize] = i.wrapping_mul(7).wrapping_add(3);
        i += 1;
    }
    k
}

#[test]
fn decrypt_of_encrypt_returns_the_plaintext() {
    let k = key();
    let plain = b"attack at dawn".to_vec();
    let mut send_count: u128 = 0;
    let ct = encrypt(&plain, &k, &mut send_count).unwrap();
    assert_eq!(send_count, 1);
    let mut recv_count: u128 = 0;
    let pt = decrypt(&ct, &k, &mut recv_count).unwrap();
    assert_eq!(recv_count, 1);
    assert_eq!(pt, plain);
}

#[test]
fn empty_plaintext_round_trips() {
    let k = key();
    let mut c1: u128 = 5;
    let ct = encrypt(&[], &k, &mut c1).unwrap();
    assert_eq!(ct.len(), 16);
    let mut c2: u128 = 5;
    assert_eq!(decrypt(&ct, &k, &mut c2).unwrap(), Vec::<u8>::new());
}

#[test]
fn ciphertext_is_plaintext_plus_tag_and_differs_from_it() {
    let k = key();
    let plain = b"0123456789abcdef".to_vec();
    let mut c: u128 = 0;
    let ct = encrypt(&plain, &k, &mut c).unwrap();
    assert_eq!(ct.len(), plain.len() + 16);
    assert_ne!(&ct[..plain.len()], plain.as_slice());
}

#[test]
fn tampering_is_detected_and_counter_stays() {
    let k = key();
    let mut c1: u128 = 0;
    let mut ct = encrypt(b"hello", &k, &mut c1).unwrap();
    ct[0] ^= 1;
    let mut c2: u128 = 0;
    assert_eq!(decrypt(&ct, &k, &mut c2), Err(CryptoError::Tampered));
    assert_eq!(c2, 0);
}

#[test]
fn mismatched_counter_fails_to_decrypt() {
    let k = key();
    let mut c1: u128 = 0;
    let ct = encrypt(b"hello", &k, &mut c1).unwrap();
    let mut c2: u128 = 1;
    assert!(decrypt(&ct, &k, &mut c2).is_err());
}

#[test]
fn nonces_differ_across_counters() {
    let k = key();
    let n0 = nonce(&k, 0);
    let n1 = nonce(&k, 1);
    let n2 = nonce(&k, 2);
    assert_ne!(n0, n1);
    assert_ne!(n1, n2);
    assert_ne!(n0, n2);
}

#[test]
fn nonce_is_a_pure_function_of_key_and_counter() {
    let k = key();
    assert_eq!(nonce(&k, 41), nonce(&k, 41));
    let mut other = k;
    other[0] ^= 0xff;
    assert_ne!(nonce(&k, 41), nonce(&other, 41));
    assert_ne!(nonce(&k, 0).as_slice(), &k[..12]);
}

#[test]
fn encryption_is_deterministic_per_key_and_counter() {
    let k = key();
    let mut c1: u128 = 9;
    let mut c2: u128 = 9;
    let a = encrypt(b"same", &k, &mut c1).unwrap();
    let b = encrypt(b"same", &k, &mut c2).unwrap();
    assert_eq!(a, b);
}
