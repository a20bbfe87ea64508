//! Frame codec: the fixed 8-byte header that precedes every wire unit.
//!
//! Byte 0 carries the message type; bytes 1 through 7 carry the length of the
//! payload that follows, big-endian. The effective length field is therefore
//! 7 bytes, capping a payload at `2^56 - 1` bytes.

use vstd::prelude::*;

verus! {

/// Message type tag for an encrypted text or command line.
pub const TEXT_TAG: u8 = 0;

/// Message type tag reserved for nickname changes. Nickname changes are sent
/// as text lines carrying a `/nick` command instead, so this tag is never
/// produced; a frame carrying it is treated as a protocol error.
pub const NICK_TAG: u8 = 254;

/// Message type tag that announces a file transfer; its length field carries
/// the raw (unencrypted) file size.
pub const FILE_TAG: u8 = 255;

/// Largest value the 7-byte length field can carry, plus one.
pub const LEN_LIMIT: u64 = 0x100_0000_0000_0000;

/// The 7 low-order bytes of `len`, big-endian. Meaningful for `len < LEN_LIMIT`.
pub open spec fn spec_be7_bytes(len: u64) -> Seq<u8> {
    seq![
        ((len >> 48) & 0xff) as u8,
        ((len >> 40) & 0xff) as u8,
        ((len >> 32) & 0xff) as u8,
        ((len >> 24) & 0xff) as u8,
        ((len >> 16) & 0xff) as u8,
        ((len >> 8) & 0xff) as u8,
        (len & 0xff) as u8,
    ]
}

/// The 8 header bytes for a frame of type `tag` and payload length `len`.
pub open spec fn spec_header(tag: u8, len: u64) -> Seq<u8> {
    seq![tag] + spec_be7_bytes(len)
}

/// The length read back from the last 7 bytes of a header, big-endian.
pub open spec fn spec_len_of(b: Seq<u8>) -> u64
    recommends
        b.len() == 7,
{
    (((b[0] as u64) << 48) | ((b[1] as u64) << 40) | ((b[2] as u64) << 32)
        | ((b[3] as u64) << 24) | ((b[4] as u64) << 16) | ((b[5] as u64) << 8)
        | (b[6] as u64)) as u64
}

/// The type tag of a header: its first byte.
pub open spec fn spec_tag_of(h: Seq<u8>) -> u8
    recommends
        h.len() == 8,
{
    h[0]
}

/// Builds the 8-byte header for a frame of type `msg_type` whose payload is
/// `len` bytes long.
pub fn encode_header(msg_type: u8, len: u64) -> (h: [u8; 8])
    requires
        len < LEN_LIMIT,
    ensures
        h@ == spec_header(msg_type, len),
{
    let h: [u8; 8] = [
        msg_type,
        ((len >> 48) & 0xff) as u8,
        ((len >> 40) & 0xff) as u8,
        ((len >> 32) & 0xff) as u8,
        ((len >> 24) & 0xff) as u8,
        ((len >> 16) & 0xff) as u8,
        ((len >> 8) & 0xff) as u8,
        (len & 0xff) as u8,
    ];
    proof {
        assert(h@ =~= spec_header(msg_type, len));
    }
    h
}

/// Generates the 8-byte header for `msg`: byte 0 is the message type, the
/// next 7 bytes are the big-endian length of `msg`.
pub fn header(msg: &Vec<u8>, msg_type: u8) -> (h: [u8; 8])
    requires
        msg@.len() < LEN_LIMIT,
    ensures
        h@ == spec_header(msg_type, msg@.len() as u64),
{
    encode_header(msg_type, msg.len() as u64)
}

/// Splits an 8-byte header into its type tag and payload length.
pub fn decode_header(h: &[u8]) -> (r: (u8, u64))
    requires
        h@.len() == 8,
    ensures
        r.0 == spec_tag_of(h@),
        r.1 == spec_len_of(h@.skip(1)),
        r.1 < LEN_LIMIT,
{
    let tag = h[0];
    let len: u64 = ((h[1] as u64) << 48) | ((h[2] as u64) << 40) | ((h[3] as u64) << 32)
        | ((h[4] as u64) << 24) | ((h[5] as u64) << 16) | ((h[6] as u64) << 8) | (h[7] as u64);
    proof {
        let s = h@.skip(1);
        assert(s[0] == h@[1] && s[1] == h@[2] && s[2] == h@[3] && s[3] == h@[4] && s[4] == h@[5]
            && s[5] == h@[6] && s[6] == h@[7]);
        let b1 = h@[1];
        let b2 = h@[2];
        let b3 = h@[3];
        let b4 = h@[4];
        let b5 = h@[5];
        let b6 = h@[6];
        let b7 = h@[7];
        assert((((b1 as u64) << 48) | ((b2 as u64) << 40) | ((b3 as u64) << 32) | ((b4 as u64)
            << 24) | ((b5 as u64) << 16) | ((b6 as u64) << 8) | (b7 as u64)) < 0x100_0000_0000_0000)
            by (bit_vector);
    }
    (tag, len)
}

/// Decoding a header built by `encode_header` yields the type tag and length
/// it was built from, for every tag and every length the field can carry.
pub proof fn lemma_header_round_trip(tag: u8, len: u64)
    requires
        len < LEN_LIMIT,
    ensures
        spec_tag_of(spec_header(tag, len)) == tag,
        spec_len_of(spec_header(tag, len).skip(1)) == len,
{
    let h = spec_header(tag, len);
    assert(h.skip(1) =~= spec_be7_bytes(len));
    let b = spec_be7_bytes(len);
    assert(b[0] == ((len >> 48) & 0xff) as u8 && b[1] == ((len >> 40) & 0xff) as u8 && b[2] == ((
    len >> 32) & 0xff) as u8 && b[3] == ((len >> 24) & 0xff) as u8 && b[4] == ((len >> 16)
        & 0xff) as u8 && b[5] == ((len >> 8) & 0xff) as u8 && b[6] == (len & 0xff) as u8);
    assert(len < 0x100_0000_0000_0000 ==> (((((len >> 48) & 0xff) as u8) as u64) << 48) | (((((len
        >> 40) & 0xff) as u8) as u64) << 40) | (((((len >> 32) & 0xff) as u8) as u64) << 32) | ((((
    (len >> 24) & 0xff) as u8) as u64) << 24) | (((((len >> 16) & 0xff) as u8) as u64) << 16) | ((((
    (len >> 8) & 0xff) as u8) as u64) << 8) | ((((len & 0xff) as u8) as u64)) == len)
        by (bit_vector);
}

} // verus!
