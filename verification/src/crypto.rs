//! Authenticated encryption for one connection.
//!
//! Every encrypted unit on a connection is sealed with ChaCha20-Poly1305
//! under the connection's 32-byte shared secret. The 12-byte nonce is never
//! transmitted: for message number `n` it is read off a ChaCha20 keystream
//! seeded with the secret and positioned at word offset `n`, so it is a pure
//! function of `(secret, counter)` that both peers can recompute, provided
//! their counters stay in lock-step.

use chacha20poly1305::aead::Aead;
use chacha20poly1305::{AeadCore, ChaCha20Poly1305, Key, KeyInit, Nonce};
use rand_chacha::rand_core::SeedableRng;
use rand_chacha::ChaCha20Rng;
use vstd::prelude::*;

verus! {

/// Byte length of the Poly1305 authentication tag appended to a ciphertext.
pub const TAG_LEN: u64 = 16;

/// A plaintext of this many 64-byte cipher blocks or more cannot be sealed:
/// the ChaCha20 block counter is 32 bits.
pub const MAX_BLOCKS: u64 = 0xffff_ffff;

/// The 12 nonce bytes that the keystream seeded with `key` yields at word
/// offset `counter`.
pub uninterp spec fn nonce_of(key: Seq<u8>, counter: u128) -> Seq<u8>;

/// The ciphertext (message then tag) that sealing `plaintext` under `key`
/// and `nonce` yields.
pub uninterp spec fn sealed_by(key: Seq<u8>, nonce: Seq<u8>, plaintext: Seq<u8>) -> Seq<u8>;

/// The outcome of opening `ciphertext` under `key` and `nonce`: the plaintext
/// when the tag authenticates, nothing when it does not.
pub uninterp spec fn opened_by(key: Seq<u8>, nonce: Seq<u8>, ciphertext: Seq<u8>) -> Option<
    Seq<u8>,
>;

/// Why an encrypted unit could not be produced or read.
#[derive(Clone, Copy, Debug, PartialEq, Eq, Structural)]
pub enum CryptoError {
    /// The plaintext is too long for the cipher's 32-bit block counter.
    TooLong,
    /// The authentication tag did not match: the unit was tampered with or
    /// the counters have desynchronized. Fatal for the connection.
    Tampered,
}

/// Relies on rand_chacha's `ChaCha20Rng` (`from_seed`, `set_word_pos`) and
/// chacha20poly1305's `AeadCore::generate_nonce`: the keystream is a pure
/// function of the seed, and `generate_nonce` draws the next 12 bytes from
/// it, so the result depends on `key` and `counter` alone.
#[verifier::external_body]
fn keystream_nonce(key: &[u8; 32], counter: u128) -> (r: [u8; 12])
    ensures
        r@ == nonce_of(key@, counter),
{
    let mut csprng = ChaCha20Rng::from_seed(*key);
    csprng.set_word_pos(counter);
    let nonce = ChaCha20Poly1305::generate_nonce(csprng);
    let mut out = [0u8; 12];
    out.copy_from_slice(nonce.as_slice());
    out
}

/// Relies on chacha20poly1305's `Aead::encrypt`: the ciphertext is the
/// message followed by the 16-byte Poly1305 tag, a function of key, nonce
/// and plaintext alone; opening it under the same key and nonce returns the
/// plaintext; it fails exactly when the plaintext spans at least `2^32 - 1`
/// 64-byte blocks.
#[verifier::external_body]
fn aead_seal(key: &[u8; 32], nonce: &[u8; 12], plaintext: &[u8]) -> (r: Option<Vec<u8>>)
    ensures
        match r {
            Some(ct) => {
                &&& ct@ == sealed_by(key@, nonce@, plaintext@)
                &&& ct@.len() == plaintext@.len() + TAG_LEN
                &&& opened_by(key@, nonce@, ct@) == Some(plaintext@)
            },
            None => true,
        },
        r is Some <==> plaintext@.len() / 64 < MAX_BLOCKS,
{
    let cipher = ChaCha20Poly1305::new(Key::from_slice(key));
    match cipher.encrypt(Nonce::from_slice(nonce), plaintext) {
        Ok(ct) => Some(ct),
        Err(_) => None,
    }
}

/// Relies on chacha20poly1305's `Aead::decrypt`: it authenticates the tag
/// and decrypts, failing closed on any mismatch; the outcome is a function
/// of key, nonce and ciphertext alone.
#[verifier::external_body]
fn aead_open(key: &[u8; 32], nonce: &[u8; 12], ciphertext: &[u8]) -> (r: Option<Vec<u8>>)
    ensures
        match r {
            Some(pt) => opened_by(key@, nonce@, ciphertext@) == Some(pt@),
            None => opened_by(key@, nonce@, ciphertext@) is None,
        },
{
    let cipher = ChaCha20Poly1305::new(Key::from_slice(key));
    match cipher.decrypt(Nonce::from_slice(nonce), ciphertext) {
        Ok(pt) => Some(pt),
        Err(_) => None,
    }
}

/// The nonce for message number `counter` on a connection keyed by `secret`.
/// A pure function, independently callable: both peers derive the same nonce
/// for the same message number without ever sending it.
pub fn nonce(secret: &[u8; 32], counter: u128) -> (r: [u8; 12])
    ensures
        r@ == nonce_of(secret@, counter),
{
    keystream_nonce(secret, counter)
}

/// Seals `bytes` under `key` with the nonce for message number
/// `*message_num`, then advances the counter by one, as every call must so
/// that no nonce is ever used twice on a connection.
///
/// Opening the returned ciphertext under the same key and counter returns
/// `bytes` again (see the `opened_by` clause), which `decrypt` relies on.
pub fn encrypt(bytes: &[u8], key: &[u8; 32], message_num: &mut u128) -> (r: Result<
    Vec<u8>,
    CryptoError,
>)
    requires
        *old(message_num) < u128::MAX,
    ensures
        *final (message_num) == *old(message_num) + 1,
        match r {
            Ok(ct) => {
                &&& ct@ == sealed_by(key@, nonce_of(key@, *old(message_num)), bytes@)
                &&& ct@.len() == bytes@.len() + TAG_LEN
                &&& opened_by(key@, nonce_of(key@, *old(message_num)), ct@) == Some(bytes@)
            },
            Err(e) => e == CryptoError::TooLong && bytes@.len() / 64 >= MAX_BLOCKS,
        },
        r is Ok <==> bytes@.len() / 64 < MAX_BLOCKS,
{
    let n = keystream_nonce(key, *message_num);
    *message_num = *message_num + 1;
    match aead_seal(key, &n, bytes) {
        Some(ct) => Ok(ct),
        None => Err(CryptoError::TooLong),
    }
}

/// Opens `bytes` under `key` with the nonce for message number
/// `*message_num`. The counter advances only on success: an authentication
/// failure signals tampering or a counter desync, which is fatal for the
/// connection, so no later unit could be read either way.
pub fn decrypt(bytes: &[u8], key: &[u8; 32], message_num: &mut u128) -> (r: Result<
    Vec<u8>,
    CryptoError,
>)
    requires
        *old(message_num) < u128::MAX,
    ensures
        match r {
            Ok(pt) => {
                &&& opened_by(key@, nonce_of(key@, *old(message_num)), bytes@) == Some(pt@)
                &&& *final (message_num) == *old(message_num) + 1
            },
            Err(e) => {
                &&& e == CryptoError::Tampered
                &&& opened_by(key@, nonce_of(key@, *old(message_num)), bytes@) is None
                &&& *final (message_num) == *old(message_num)
            },
        },
        r is Ok <==> opened_by(key@, nonce_of(key@, *old(message_num)), bytes@) is Some,
{
    let n = keystream_nonce(key, *message_num);
    match aead_open(key, &n, bytes) {
        Some(pt) => {
            *message_num = *message_num + 1;
            Ok(pt)
        },
        None => Err(CryptoError::Tampered),
    }
}

} // verus!
