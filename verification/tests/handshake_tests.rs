use tcp_messenger::handshake::{fresh_secret_key, public_key, shared_secret};

#[test]
fn both_sides_derive_the_same_secret() {
    let a_secret = [11u8; 32];
    let b_secret = [42u8; 32];
    let a_public = public_key(&a_secret);
    let b_public = public_key(&b_secret);
    let a_shared = shared_secret(&a_secret, &b_public);
    let b_shared = shared_secret(&b_secret, &a_public);
    assert_eq!(a_shared, b_shared);
}

#[test]
fn public_key_is_not_the_secret() {
    let secret = [11u8; 32];
    let public = public_key(&secret);
    assert_ne!(public, secret);
    assert_eq!(public, public_key(&secret));
}

#[test]
fn distinct_pairs_give_distinct_secrets() {
    let a = [1u8; 32];
    let b = [2u8; 32];
    let c = [3u8; 32];
    let ab = shared_secret(&a, &public_key(&b));
    let ac = shared_secret(&a, &public_key(&c));
    assert_ne!(ab, ac);
}

#[test]
fn fresh_keys_vary() {
    let k1 = fresh_secret_key();
    let k2 = fresh_secret_key();
    assert_ne!(k1, k2);
}
