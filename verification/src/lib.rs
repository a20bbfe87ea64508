//! Core protocol library for a peer-to-peer encrypted TCP messenger.
//!
//! Each connection derives an ephemeral shared secret over X25519, frames
//! messages as `[1-byte type][7-byte big-endian length][ciphertext]`, and
//! encrypts every unit with ChaCha20-Poly1305 under a nonce derived
//! deterministically from the shared secret and a per-connection message
//! counter, so no nonce is ever transmitted.

pub mod codec;
pub mod connection;
pub mod crypto;
pub mod files;
pub mod handshake;
pub mod lines;
pub mod pieces;
pub mod registry;
pub mod session;
