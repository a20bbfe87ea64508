//! Key agreement: each side of a fresh connection generates an ephemeral
//! Curve25519 key pair, exchanges raw 32-byte public keys over the untrusted
//! stream, and uses the X25519 Diffie-Hellman shared point directly as the
//! symmetric key. No identity authentication follows: an active adversary on
//! the path can substitute keys undetected, an accepted non-goal.
//!
//! The stream reads and writes happen outside this library; it supplies the
//! pure computations: a fresh scalar, the public key for it, and the shared
//! secret from a scalar and the peer's public key.

use chacha20poly1305::aead::rand_core::RngCore;
use chacha20poly1305::aead::OsRng;
use vstd::prelude::*;

verus! {

/// The canonical Curve25519 base point, as the byte string the X25519
/// functions take.
pub const BASE_POINT: [u8; 32] = [
    9,
    0,
    0,
    0,
    0,
    0,
    0,
    0,
    0,
    0,
    0,
    0,
    0,
    0,
    0,
    0,
    0,
    0,
    0,
    0,
    0,
    0,
    0,
    0,
    0,
    0,
    0,
    0,
    0,
    0,
    0,
    0,
];

/// The X25519 function: the u-coordinate of the clamped scalar `k` times the
/// curve point `u`, as 32 bytes. A pure function of its two arguments.
pub uninterp spec fn x25519_of(k: Seq<u8>, u: Seq<u8>) -> Seq<u8>;

/// Relies on the operating system's random generator, reached through
/// rand_core's `OsRng`: the bytes are unpredictable, and nothing else can be
/// promised of them.
#[verifier::external_body]
fn random_bytes_32() -> [u8; 32] {
    let mut bytes = [0u8; 32];
    OsRng.fill_bytes(&mut bytes);
    bytes
}

/// Relies on x25519_dalek's `x25519`: clamped scalar multiplication on
/// Curve25519, a function of the scalar and point bytes alone.
#[verifier::external_body]
fn x25519_mul(scalar: &[u8; 32], point: &[u8; 32]) -> (r: [u8; 32])
    ensures
        r@ == x25519_of(scalar@, point@),
{
    x25519_dalek::x25519(*scalar, *point)
}

/// Draws a fresh ephemeral secret key for one connection's handshake. It is
/// used once to derive the shared secret and then discarded, which is what
/// gives the session forward secrecy.
pub fn fresh_secret_key() -> [u8; 32] {
    random_bytes_32()
}

/// The 32-byte public key to write to the peer during the handshake: the
/// secret scalar times the curve base point.
pub fn public_key(secret: &[u8; 32]) -> (r: [u8; 32])
    ensures
        r@ == x25519_of(secret@, BASE_POINT@),
{
    x25519_mul(secret, &BASE_POINT)
}

/// The 32-byte shared secret both peers arrive at: the local secret scalar
/// times the peer's public key. Used directly as the connection's symmetric
/// key.
pub fn shared_secret(secret: &[u8; 32], peer_public: &[u8; 32]) -> (r: [u8; 32])
    ensures
        r@ == x25519_of(secret@, peer_public@),
{
    x25519_mul(secret, peer_public)
}

} // verus!
