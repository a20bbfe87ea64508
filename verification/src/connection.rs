//! One peer session: the shared secret, the two message counters, and the
//! send path that encrypts and frames outbound units.
//!
//! The sent counter and the received counter each advance exactly once per
//! encrypted unit in their direction; nonce derivation is a pure function of
//! `(secret, counter)`, so each counter must stay in lock-step with the
//! matching counter at the peer. The counters are private: they move only
//! through the sealing and reading operations, which is what keeps any
//! counter value from ever being used twice on this connection.

use crate::codec;
use crate::crypto;
use crate::crypto::{nonce_of, opened_by, sealed_by, CryptoError, MAX_BLOCKS, TAG_LEN};
use crate::lines;
use crate::lines::LineClass;
use crate::pieces;
use vstd::prelude::*;

verus! {

/// The complete wire unit for `data` sealed under `key` at message number
/// `counter`: a type-0 header announcing the ciphertext length, then the
/// ciphertext itself.
pub open spec fn spec_sealed_frame(key: Seq<u8>, counter: u128, data: Seq<u8>) -> Seq<u8> {
    codec::spec_header(
        codec::TEXT_TAG,
        sealed_by(key, nonce_of(key, counter), data).len() as u64,
    ) + sealed_by(key, nonce_of(key, counter), data)
}

/// One live peer connection's protocol state. The stream itself lives with
/// the caller; this holds everything the protocol computes with.
pub struct Connection {
    /// This end's socket address, as text bytes.
    pub local_addr: Vec<u8>,
    /// The peer's socket address, as text bytes: the registry key.
    pub peer_addr: Vec<u8>,
    /// The peer's self-reported nickname: attacker-controlled text.
    pub peer_nick: Option<Vec<u8>>,
    /// Display color index, cosmetic, assigned at creation.
    pub peer_color: u8,
    pub(crate) secret: [u8; 32],
    pub(crate) sent_count: u128,
    pub(crate) recv_count: u128,
    pub(crate) reader: ReaderState,
}

impl Connection {
    /// The symmetric key this connection seals and opens units with.
    pub open(crate) spec fn key(self) -> Seq<u8> {
        self.secret@
    }

    /// How many encrypted units this end has sealed on this connection.
    pub open(crate) spec fn sent(self) -> u128 {
        self.sent_count
    }

    /// How many encrypted units this end has opened on this connection.
    pub open(crate) spec fn received(self) -> u128 {
        self.recv_count
    }

    /// Where the reader side of this connection stands.
    pub open(crate) spec fn reader_state(self) -> ReaderState {
        self.reader
    }

    /// The peer's nickname as a sequence, when one was reported.
    pub open(crate) spec fn nick_view(self) -> Option<Seq<u8>> {
        match self.peer_nick {
            Some(n) => Some(n@),
            None => None,
        }
    }

    /// This end's socket address, as a sequence.
    pub open(crate) spec fn local_addr_view(self) -> Seq<u8> {
        self.local_addr@
    }

    /// The peer's socket address, as a sequence: the registry key.
    pub open(crate) spec fn peer_addr_view(self) -> Seq<u8> {
        self.peer_addr@
    }

    /// The display color index.
    pub open(crate) spec fn color(self) -> u8 {
        self.peer_color
    }

    /// The identity fields that no protocol step changes.
    pub open spec fn same_identity(self, other: Connection) -> bool {
        &&& other.local_addr_view() == self.local_addr_view()
        &&& other.peer_addr_view() == self.peer_addr_view()
        &&& other.color() == self.color()
        &&& other.key() == self.key()
    }

    /// Opens a session over a freshly established secret: counters at zero,
    /// no nickname yet, reader expecting a header.
    pub fn new(secret: [u8; 32], local_addr: Vec<u8>, peer_addr: Vec<u8>, peer_color: u8) -> (c:
        Connection)
        ensures
            c.key() == secret@,
            c.local_addr_view() == local_addr@,
            c.peer_addr_view() == peer_addr@,
            c.color() == peer_color,
            c.nick_view() is None,
            c.sent() == 0,
            c.received() == 0,
            c.reader_state() == ReaderState::AwaitHeader,
            c.wf(),
    {
        Connection {
            local_addr,
            peer_addr,
            peer_nick: None,
            peer_color,
            secret,
            sent_count: 0,
            recv_count: 0,
            reader: ReaderState::AwaitHeader,
        }
    }

    /// Internal consistency of the reader state: announced lengths fit the
    /// 7-byte length field, and a piece countdown is never at zero.
    pub open(crate) spec fn wf(self) -> bool {
        match self.reader {
            ReaderState::AwaitNameLen { size } => size < codec::LEN_LIMIT,
            ReaderState::AwaitNameBody { size, len } => size < codec::LEN_LIMIT,
            ReaderState::AwaitPieceLen { remaining } => remaining >= 1,
            ReaderState::AwaitPieceBody { remaining, len } => remaining >= 1,
            _ => true,
        }
    }

    /// Everything one sealing step guarantees: the sent counter advanced by
    /// exactly one (so no counter is ever offered to the cipher twice), all
    /// other state stayed, sealing succeeds exactly when the payload fits
    /// the cipher's block budget, and on success the frame is the sealed
    /// wire unit whose ciphertext opens back to the payload.
    pub open(crate) spec fn spec_seal_post(
        pre: Connection,
        post: Connection,
        data: Seq<u8>,
        r: Result<Vec<u8>, CryptoError>,
    ) -> bool {
        let key = pre.key();
        let ct = sealed_by(key, nonce_of(key, pre.sent()), data);
        &&& post.sent() == pre.sent() + 1
        &&& pre.same_identity(post)
        &&& post.nick_view() == pre.nick_view()
        &&& post.received() == pre.received()
        &&& post.reader_state() == pre.reader_state()
        &&& post.wf() == pre.wf()
        &&& (r is Ok <==> data.len() / 64 < MAX_BLOCKS)
        &&& match r {
            Ok(frame) => {
                &&& ct.len() == data.len() + TAG_LEN
                &&& frame@ == spec_sealed_frame(key, pre.sent(), data)
                &&& opened_by(key, nonce_of(key, pre.sent()), ct) == Some(data)
            },
            Err(e) => e == CryptoError::TooLong,
        }
    }

    /// Seals `data` as one type-0 frame: the 8-byte header, then the
    /// ciphertext, ready to write to the stream in one piece. Advances the
    /// sent counter by one whether or not sealing succeeded, so a counter
    /// value is never offered to the cipher twice.
    pub fn seal_frame(&mut self, data: &[u8]) -> (r: Result<Vec<u8>, CryptoError>)
        requires
            old(self).sent() < u128::MAX,
        ensures
            Connection::spec_seal_post(*old(self), *final (self), data@, r),
    {
        let sealed = crypto::encrypt(data, &self.secret, &mut self.sent_count);
        match sealed {
            Ok(ct) => {
                proof {
                    assert(data@.len() < 64 * MAX_BLOCKS) by (nonlinear_arith)
                        requires
                            data@.len() / 64 < MAX_BLOCKS,
                    ;
                }
                let h = codec::header(&ct, codec::TEXT_TAG);
                let mut frame: Vec<u8> = Vec::new();
                frame.extend_from_slice(h.as_slice());
                frame.extend_from_slice(ct.as_slice());
                proof {
                    assert(frame@ =~= spec_sealed_frame(
                        old(self).key(),
                        old(self).sent(),
                        data@,
                    ));
                }
                Ok(frame)
            },
            Err(e) => Err(e),
        }
    }

    /// Announces a nickname change to this peer: encodes the nickname-change
    /// command as an ordinary text line and seals it as a type-0 frame, so
    /// the receiver's generic line classifier recognizes it.
    pub fn update_nick(&mut self, nick: &[u8]) -> (r: Result<Vec<u8>, CryptoError>)
        requires
            old(self).sent() < u128::MAX,
        ensures
            Connection::spec_seal_post(
                *old(self),
                *final (self),
                lines::spec_nick_command(nick@),
                r,
            ),
    {
        let line = lines::nick_command(nick);
        self.seal_frame(line.as_slice())
    }

    /// Seals a whole file transfer: the raw-size announcement frame, the
    /// encrypted name block, and one encrypted block per piece, in wire
    /// order. The announcement consumes no counter; the name and every piece
    /// consume one each.
    #[verifier::rlimit(50)]
    #[verifier::spinoff_prover]
    pub fn seal_file(&mut self, name: &[u8], contents: &[u8]) -> (r: Result<
        Vec<Vec<u8>>,
        CryptoError,
    >)
        requires
            old(self).sent() + 1 + pieces::spec_piece_count(contents@.len() as u64) <= u128::MAX,
            contents@.len() < codec::LEN_LIMIT,
        ensures
            old(self).same_identity(*final (self)),
            final (self).nick_view() == old(self).nick_view(),
            final (self).received() == old(self).received(),
            final (self).reader_state() == old(self).reader_state(),
            final (self).wf() == old(self).wf(),
            r is Ok <==> name@.len() / 64 < MAX_BLOCKS,
            r is Ok ==> final (self).sent() == old(self).sent() + 1 + pieces::spec_piece_count(
                contents@.len() as u64,
            ),
            r matches Err(e) ==> e == CryptoError::TooLong && final (self).sent() == old(
                self,
            ).sent() + 1,
            r matches Ok(blocks) ==> blocks.deep_view().len() == 2 + pieces::spec_piece_count(
                contents@.len() as u64,
            ),
            r matches Ok(blocks) ==> blocks.deep_view()[0] == codec::spec_header(
                codec::FILE_TAG,
                contents@.len() as u64,
            ),
            r matches Ok(blocks) ==> blocks.deep_view()[1] == spec_sealed_frame(
                old(self).key(),
                old(self).sent(),
                name@,
            ) && opened_by(
                old(self).key(),
                nonce_of(old(self).key(), old(self).sent()),
                sealed_by(old(self).key(), nonce_of(old(self).key(), old(self).sent()), name@),
            ) == Some(name@),
            r matches Ok(blocks) ==> forall|i: int|
                0 <= i < pieces::spec_piece_count(contents@.len() as u64)
                    ==> (#[trigger] blocks.deep_view()[2 + i]) == spec_sealed_frame(
                    old(self).key(),
                    (old(self).sent() + 1 + i) as u128,
                    pieces::spec_pieces(contents@)[i],
                ),
            r matches Ok(blocks) ==> forall|i: int|
                0 <= i < pieces::spec_piece_count(contents@.len() as u64) ==> #[trigger] opened_by(
                    old(self).key(),
                    nonce_of(old(self).key(), (old(self).sent() + 1 + i) as u128),
                    sealed_by(
                        old(self).key(),
                        nonce_of(old(self).key(), (old(self).sent() + 1 + i) as u128),
                        pieces::spec_pieces(contents@)[i],
                    ),
                ) == Some(pieces::spec_pieces(contents@)[i]),
    {
        let size = contents.len() as u64;
        let mut blocks: Vec<Vec<u8>> = Vec::new();
        let size_header = codec::encode_header(codec::FILE_TAG, size);
        blocks.push(slice_to_vec_u8(size_header.as_slice()));
        let name_block = match self.seal_frame(name) {
            Ok(b) => b,
            Err(e) => {
                return Err(e);
            },
        };
        blocks.push(name_block);
        let ghost key = old(self).key();
        let ghost n0 = old(self).sent();
        let ghost count = pieces::spec_piece_count(size);
        let parts = pieces::split_into_pieces(contents);
        proof {
            lemma_piece_seq_bounds(contents@);
        }
        let mut i: usize = 0;
        while i < parts.len()
            invariant
                parts.deep_view() == pieces::spec_pieces(contents@),
                parts.deep_view().len() == count,
                i <= parts@.len(),
                self.sent() == n0 + 1 + i,
                n0 + 1 + count <= u128::MAX,
                self.key() == key,
                old(self).same_identity(*self),
                self.nick_view() == old(self).nick_view(),
                self.received() == old(self).received(),
                self.reader_state() == old(self).reader_state(),
                self.wf() == old(self).wf(),
                forall|k: int|
                    0 <= k < parts.deep_view().len() ==> (#[trigger] parts.deep_view()[k]).len()
                        <= pieces::PIECE_SIZE,
                blocks.deep_view().len() == 2 + i,
                blocks.deep_view()[0] == codec::spec_header(codec::FILE_TAG, size),
                blocks.deep_view()[1] == spec_sealed_frame(key, n0, name@),
                opened_by(key, nonce_of(key, n0), sealed_by(key, nonce_of(key, n0), name@))
                    == Some(name@),
                forall|k: int|
                    0 <= k < i ==> (#[trigger] blocks.deep_view()[2 + k]) == spec_sealed_frame(
                        key,
                        (n0 + 1 + k) as u128,
                        pieces::spec_pieces(contents@)[k],
                    ),
                forall|k: int|
                    0 <= k < i ==> #[trigger] opened_by(
                        key,
                        nonce_of(key, (n0 + 1 + k) as u128),
                        sealed_by(
                            key,
                            nonce_of(key, (n0 + 1 + k) as u128),
                            pieces::spec_pieces(contents@)[k],
                        ),
                    ) == Some(pieces::spec_pieces(contents@)[k]),
            decreases parts@.len() - i,
        {
            let ghost before = blocks.deep_view();
            let piece = &parts[i];
            proof {
                assert(parts.deep_view()[i as int].len() <= pieces::PIECE_SIZE);
                assert(piece@ == parts.deep_view()[i as int]);
            }
            let ghost sent_before = self.sent();
            let block = match self.seal_frame(piece.as_slice()) {
                Ok(b) => b,
                Err(e) => {
                    proof {
                        assert(piece@.len() / 64 < MAX_BLOCKS);
                    }
                    return Err(e);
                },
            };
            blocks.push(block);
            i = i + 1;
            proof {
                assert(blocks.deep_view() =~~= before.push(block@));
                assert((n0 + 1 + (i - 1)) as u128 == sent_before);
                assert forall|k: int|
                    0 <= k < i implies (#[trigger] blocks.deep_view()[2 + k]) == spec_sealed_frame(
                        key,
                        (n0 + 1 + k) as u128,
                        pieces::spec_pieces(contents@)[k],
                    ) by {
                    if k < i - 1 {
                        assert(blocks.deep_view()[2 + k] == before[2 + k]);
                    } else {
                        assert(blocks.deep_view()[2 + k] == block@);
                        assert(pieces::spec_pieces(contents@)[k] == piece@);
                    }
                }
            }
        }
        proof {
            assert(parts.deep_view().len() == parts@.len());
            assert(i == count);
        }
        Ok(blocks)
    }
}

/// Pieces cut from a sequence shorter than the length field's limit are each
/// at most one piece long, and there are as many as the piece count says.
proof fn lemma_piece_seq_bounds(data: Seq<u8>)
    ensures
        data.len() < codec::LEN_LIMIT ==> pieces::spec_pieces(data).len()
            == pieces::spec_piece_count(data.len() as u64),
        forall|k: int|
            0 <= k < pieces::spec_pieces(data).len() ==> (#[trigger] pieces::spec_pieces(
                data,
            )[k]).len() <= pieces::PIECE_SIZE,
    decreases data.len(),
{
    if data.len() == 0 {
    } else if data.len() <= pieces::PIECE_SIZE {
        assert(pieces::spec_pieces(data) == seq![data]);
    } else {
        lemma_piece_seq_bounds(data.skip(pieces::PIECE_SIZE as int));
        assert(data.skip(pieces::PIECE_SIZE as int).len() == data.len() - pieces::PIECE_SIZE);
        if data.len() < codec::LEN_LIMIT {
            assert(pieces::spec_piece_count(data.len() as u64) == 1 + pieces::spec_piece_count(
                (data.len() - pieces::PIECE_SIZE) as u64,
            )) by (nonlinear_arith)
                requires
                    pieces::PIECE_SIZE < data.len() < codec::LEN_LIMIT,
                    pieces::PIECE_SIZE == 8000,
            ;
        }
        assert(forall|k: int|
            1 <= k < pieces::spec_pieces(data).len() ==> (#[trigger] pieces::spec_pieces(data)[k])
                == pieces::spec_pieces(data.skip(pieces::PIECE_SIZE as int))[k - 1]);
    }
}

/// What one peer seals, the other reads back. If a connection seals a line
/// into a frame, and the receiving connection holds the same key with its
/// received counter equal to the sender's counter before the send (the
/// lock-step the protocol maintains) and its reader at a frame boundary,
/// then feeding the frame's 8 header bytes and then its body through the
/// reader consumes one received-counter step and yields the line back:
/// as a nickname change carrying the announced nickname when the line is
/// the nickname command, and otherwise as a message carrying exactly the
/// trimmed line.
pub proof fn lemma_sealed_frame_read_back(
    a0: Connection,
    a1: Connection,
    data: Seq<u8>,
    frame: Vec<u8>,
    b0: Connection,
    b1: Connection,
    b2: Connection,
    header_bytes: Vec<u8>,
    body: Vec<u8>,
    r_header: Option<ReaderEvent>,
    r_body: Option<ReaderEvent>,
)
    requires
        Connection::spec_seal_post(a0, a1, data, Ok(frame)),
        b0.key() == a0.key(),
        b0.received() == a0.sent(),
        b0.reader_state() == ReaderState::AwaitHeader,
        header_bytes@ == frame@.take(8),
        body@ == frame@.skip(8),
        Connection::spec_read_step_post(b0, b1, ReaderInput::Bytes(header_bytes), r_header),
        Connection::spec_read_step_post(b1, b2, ReaderInput::Bytes(body), r_body),
    ensures
        r_header is None,
        b2.received() == b0.received() + 1,
        b2.reader_state() == ReaderState::AwaitHeader,
        ({
            let t = lines::spec_trim(data);
            if lines::spec_is_nick_cmd(t) {
                &&& r_body matches Some(ReaderEvent::NickChanged { nick }) && nick@
                    == lines::spec_last_token(t)
                &&& b2.nick_view() == Some(lines::spec_last_token(t))
            } else {
                &&& r_body matches Some(ReaderEvent::Message { line }) && line@ == t
                &&& b2.nick_view() == b1.nick_view()
            }
        }),
{
    let key = a0.key();
    let ct = sealed_by(key, nonce_of(key, a0.sent()), data);
    assert(data.len() < 64 * MAX_BLOCKS) by (nonlinear_arith)
        requires
            data.len() / 64 < MAX_BLOCKS,
    ;
    assert(ct.len() < codec::LEN_LIMIT);
    assert(frame@ == codec::spec_header(codec::TEXT_TAG, ct.len() as u64) + ct);
    assert(header_bytes@ =~= codec::spec_header(codec::TEXT_TAG, ct.len() as u64));
    assert(body@ =~= ct);
    codec::lemma_header_round_trip(codec::TEXT_TAG, ct.len() as u64);
    assert(codec::spec_tag_of(header_bytes@) == codec::TEXT_TAG);
    assert(codec::spec_len_of(header_bytes@.skip(1)) == ct.len() as u64);
    assert(b1.reader_state() == (ReaderState::AwaitTextBody { len: ct.len() as u64 }));
    assert(b1.key() == key && b1.received() == a0.sent());
    assert(opened_by(key, nonce_of(key, b1.received()), body@) == Some(data));
}

/// The raw-size announcement that opens a file transfer is read back as
/// such: a reader at a frame boundary that consumes the type-255 header
/// built for `size` emits nothing and turns to the transfer's name block,
/// carrying the announced size.
pub proof fn lemma_file_announcement_read_back(
    size: u64,
    b0: Connection,
    b1: Connection,
    header_bytes: Vec<u8>,
    r: Option<ReaderEvent>,
)
    requires
        size < codec::LEN_LIMIT,
        b0.reader_state() == ReaderState::AwaitHeader,
        header_bytes@ == codec::spec_header(codec::FILE_TAG, size),
        Connection::spec_read_step_post(b0, b1, ReaderInput::Bytes(header_bytes), r),
    ensures
        r is None,
        b1.reader_state() == (ReaderState::AwaitNameLen { size }),
        b1.received() == b0.received(),
{
    codec::lemma_header_round_trip(codec::FILE_TAG, size);
}

/// A sealed file-name block is read back as the start of the transfer. If a
/// connection seals a file name into a block, and the receiving connection
/// shares the key with counters in lock-step and its reader awaiting the
/// name block of a transfer of `size` bytes, then feeding the block's length
/// prefix and body through the reader announces the transfer: the name comes
/// back verbatim, with the piece count the size demands, and the reader
/// turns to the first piece (or back to frame headers for an empty file).
pub proof fn lemma_sealed_name_block_read_back(
    a0: Connection,
    a1: Connection,
    name: Seq<u8>,
    block: Vec<u8>,
    size: u64,
    b0: Connection,
    b1: Connection,
    b2: Connection,
    header_bytes: Vec<u8>,
    body: Vec<u8>,
    r_header: Option<ReaderEvent>,
    r_body: Option<ReaderEvent>,
)
    requires
        Connection::spec_seal_post(a0, a1, name, Ok(block)),
        b0.key() == a0.key(),
        b0.received() == a0.sent(),
        b0.reader_state() == (ReaderState::AwaitNameLen { size }),
        header_bytes@ == block@.take(8),
        body@ == block@.skip(8),
        Connection::spec_read_step_post(b0, b1, ReaderInput::Bytes(header_bytes), r_header),
        Connection::spec_read_step_post(b1, b2, ReaderInput::Bytes(body), r_body),
    ensures
        r_header is None,
        b2.received() == b0.received() + 1,
        r_body matches Some(ReaderEvent::FileStart { name: n, size: s, pieces: p }) && n@ == name
            && s == size && p == pieces::spec_piece_count(size),
        b2.reader_state() == (if pieces::spec_piece_count(size) == 0 {
            ReaderState::AwaitHeader
        } else {
            ReaderState::AwaitPieceLen { remaining: pieces::spec_piece_count(size) }
        }),
{
    let key = a0.key();
    let ct = sealed_by(key, nonce_of(key, a0.sent()), name);
    assert(name.len() < 64 * MAX_BLOCKS) by (nonlinear_arith)
        requires
            name.len() / 64 < MAX_BLOCKS,
    ;
    assert(block@ == codec::spec_header(codec::TEXT_TAG, ct.len() as u64) + ct);
    assert(header_bytes@ =~= codec::spec_header(codec::TEXT_TAG, ct.len() as u64));
    assert(body@ =~= ct);
    codec::lemma_header_round_trip(codec::TEXT_TAG, ct.len() as u64);
    assert(b1.reader_state() == (ReaderState::AwaitNameBody { size, len: ct.len() as u64 }));
    assert(b1.key() == key && b1.received() == a0.sent());
    assert(opened_by(key, nonce_of(key, b1.received()), body@) == Some(name));
}

/// A sealed piece block is read back as the next piece. If a connection
/// seals one piece of a transfer, and the receiving connection shares the
/// key with counters in lock-step and its reader awaiting a piece with
/// `remaining` still owed, then feeding the block's length prefix and body
/// through the reader yields the piece bytes verbatim, counts the remainder
/// down by one, and turns back to frame headers after the last piece.
pub proof fn lemma_sealed_piece_read_back(
    a0: Connection,
    a1: Connection,
    piece: Seq<u8>,
    block: Vec<u8>,
    remaining: u64,
    b0: Connection,
    b1: Connection,
    b2: Connection,
    header_bytes: Vec<u8>,
    body: Vec<u8>,
    r_header: Option<ReaderEvent>,
    r_body: Option<ReaderEvent>,
)
    requires
        remaining >= 1,
        Connection::spec_seal_post(a0, a1, piece, Ok(block)),
        b0.key() == a0.key(),
        b0.received() == a0.sent(),
        b0.reader_state() == (ReaderState::AwaitPieceLen { remaining }),
        header_bytes@ == block@.take(8),
        body@ == block@.skip(8),
        Connection::spec_read_step_post(b0, b1, ReaderInput::Bytes(header_bytes), r_header),
        Connection::spec_read_step_post(b1, b2, ReaderInput::Bytes(body), r_body),
    ensures
        r_header is None,
        b2.received() == b0.received() + 1,
        r_body matches Some(ReaderEvent::FilePiece { data, remaining: rem }) && data@ == piece
            && rem == remaining - 1,
        b2.reader_state() == (if remaining == 1 {
            ReaderState::AwaitHeader
        } else {
            ReaderState::AwaitPieceLen { remaining: (remaining - 1) as u64 }
        }),
{
    let key = a0.key();
    let ct = sealed_by(key, nonce_of(key, a0.sent()), piece);
    assert(piece.len() < 64 * MAX_BLOCKS) by (nonlinear_arith)
        requires
            piece.len() / 64 < MAX_BLOCKS,
    ;
    assert(block@ == codec::spec_header(codec::TEXT_TAG, ct.len() as u64) + ct);
    assert(header_bytes@ =~= codec::spec_header(codec::TEXT_TAG, ct.len() as u64));
    assert(body@ =~= ct);
    codec::lemma_header_round_trip(codec::TEXT_TAG, ct.len() as u64);
    assert(b1.reader_state() == (ReaderState::AwaitPieceBody { remaining, len: ct.len() as u64 }));
    assert(b1.key() == key && b1.received() == a0.sent());
    assert(opened_by(key, nonce_of(key, b1.received()), body@) == Some(piece));
}

/// The end of the stream is reported exactly once. A reader step on a live
/// connection that sees the end of its stream yields the disconnection event
/// and closes the reader; whatever is fed in afterwards, no further event —
/// and in particular no second disconnection — ever comes out.
pub proof fn lemma_disconnection_reported_once(
    c0: Connection,
    c1: Connection,
    c2: Connection,
    later_input: ReaderInput,
    r1: Option<ReaderEvent>,
    r2: Option<ReaderEvent>,
)
    requires
        !(c0.reader_state() is Closed),
        Connection::spec_read_step_post(c0, c1, ReaderInput::Eof, r1),
        Connection::spec_read_step_post(c1, c2, later_input, r2),
    ensures
        r1 == Some(ReaderEvent::Disconnected),
        c1.reader_state() is Closed,
        r2 is None,
        c2 == c1,
{
}

/// Copies a byte slice into an owned vector.
fn slice_to_vec_u8(s: &[u8]) -> (r: Vec<u8>)
    ensures
        r@ == s@,
{
    let mut r: Vec<u8> = Vec::new();
    r.extend_from_slice(s);
    r
}

/// What the reader expects next from the stream.
#[derive(Clone, Copy, PartialEq, Eq, Structural, Debug)]
pub enum ReaderState {
    /// An 8-byte frame header.
    AwaitHeader,
    /// The `len`-byte ciphertext of a text line.
    AwaitTextBody { len: u64 },
    /// The 8-byte length prefix of a file-name block; the announced raw file
    /// size is `size`.
    AwaitNameLen { size: u64 },
    /// The `len`-byte ciphertext of the file name.
    AwaitNameBody { size: u64, len: u64 },
    /// The 8-byte length prefix of the next piece; `remaining` pieces are
    /// still owed, at least one.
    AwaitPieceLen { remaining: u64 },
    /// The `len`-byte ciphertext of the next piece.
    AwaitPieceBody { remaining: u64, len: u64 },
    /// The connection is done: the peer disconnected or the protocol broke.
    Closed,
}

/// One unit of input for the reader: the bytes it asked for, or the end of
/// the stream (a clean close or any read failure).
pub enum ReaderInput {
    Bytes(Vec<u8>),
    Eof,
}

/// What one reader step tells the layer above.
pub enum ReaderEvent {
    /// An ordinary text message, trimmed.
    Message { line: Vec<u8> },
    /// The peer renamed itself; the stored nickname is already updated.
    NickChanged { nick: Vec<u8> },
    /// A file transfer begins: its name, raw size, and how many pieces will
    /// follow.
    FileStart { name: Vec<u8>, size: u64, pieces: u64 },
    /// One decrypted piece of the current file; `remaining` more follow.
    FilePiece { data: Vec<u8>, remaining: u64 },
    /// The peer closed the stream or the read failed. Emitted exactly once.
    Disconnected,
    /// A frame failed authentication or broke framing: fatal, the connection
    /// must be torn down, never resynchronized.
    ProtocolError,
}

/// How many bytes the reader needs next in state `s`.
pub open spec fn spec_expected_len(s: ReaderState) -> u64 {
    match s {
        ReaderState::AwaitHeader => 8,
        ReaderState::AwaitTextBody { len } => len,
        ReaderState::AwaitNameLen { size } => 8,
        ReaderState::AwaitNameBody { size, len } => len,
        ReaderState::AwaitPieceLen { remaining } => 8,
        ReaderState::AwaitPieceBody { remaining, len } => len,
        ReaderState::Closed => 0,
    }
}

impl Connection {
    /// How many bytes to read from the stream before the next step; zero
    /// once the connection is closed.
    pub fn expected_read(&self) -> (n: u64)
        ensures
            n == spec_expected_len(self.reader_state()),
    {
        match self.reader {
            ReaderState::AwaitHeader => 8,
            ReaderState::AwaitTextBody { len } => len,
            ReaderState::AwaitNameLen { size: _ } => 8,
            ReaderState::AwaitNameBody { size: _, len } => len,
            ReaderState::AwaitPieceLen { remaining: _ } => 8,
            ReaderState::AwaitPieceBody { remaining: _, len } => len,
            ReaderState::Closed => 0,
        }
    }

    /// How many encrypted units this connection has sealed so far: the next
    /// send uses this message number. Lets callers notice an exhausted
    /// counter before sealing.
    pub fn sent_units(&self) -> (n: u128)
        ensures
            n == self.sent(),
    {
        self.sent_count
    }

    /// How many encrypted units this connection has opened so far: the next
    /// received unit uses this message number.
    pub fn received_units(&self) -> (n: u128)
        ensures
            n == self.received(),
    {
        self.recv_count
    }

    /// Whether the reader still consumes input.
    pub fn is_open(&self) -> (r: bool)
        ensures
            r == !(self.reader_state() is Closed),
    {
        !matches!(self.reader, ReaderState::Closed)
    }

    /// Everything one reader step guarantees, case by case over the prior
    /// state and the input: what was consumed, which event came out, where
    /// the reader stands next, and how the received counter and the stored
    /// nickname moved. A closed reader consumes and emits nothing; the end
    /// of the stream closes a live reader and is reported exactly once.
    pub open(crate) spec fn spec_read_step_post(
        pre: Connection,
        post: Connection,
        input: ReaderInput,
        r: Option<ReaderEvent>,
    ) -> bool {
        let key = pre.key();
        &&& post.wf()
        &&& pre.same_identity(post)
        &&& post.sent() == pre.sent()
        &&& (pre.reader_state() is Closed ==> post == pre && r is None)
        &&& (input is Eof && !(pre.reader_state() is Closed) ==> {
            &&& r == Some(ReaderEvent::Disconnected)
            &&& post.reader_state() is Closed
            &&& post.received() == pre.received()
            &&& post.nick_view() == pre.nick_view()
        })
        &&& match (pre.reader_state(), input) {
                    (ReaderState::Closed, _) => true,
                    (_, ReaderInput::Eof) => true,
                    // a frame header announces a text line or a file transfer
                    (ReaderState::AwaitHeader, ReaderInput::Bytes(d)) => {
                        let tag = codec::spec_tag_of(d@);
                        let len = codec::spec_len_of(d@.skip(1));
                        &&& post.received() == pre.received()
                        &&& post.nick_view() == pre.nick_view()
                        &&& if tag == codec::TEXT_TAG {
                            post.reader_state() == (ReaderState::AwaitTextBody { len })
                                && r is None
                        } else if tag == codec::FILE_TAG {
                            post.reader_state() == (ReaderState::AwaitNameLen { size: len })
                                && r is None
                        } else {
                            post.reader_state() is Closed && r == Some(ReaderEvent::ProtocolError)
                        }
                    },
                    // a text body is opened, trimmed and classified
                    (ReaderState::AwaitTextBody { len }, ReaderInput::Bytes(d)) => {
                        match opened_by(key, nonce_of(key, pre.received()), d@) {
                            Some(pt) => {
                                let t = lines::spec_trim(pt);
                                &&& post.received() == pre.received() + 1
                                &&& post.reader_state() == ReaderState::AwaitHeader
                                &&& if lines::spec_is_nick_cmd(t) {
                                    &&& r matches Some(ReaderEvent::NickChanged { nick })
                                        && nick@ == lines::spec_last_token(t)
                                    &&& post.nick_view() == Some(lines::spec_last_token(t))
                                } else {
                                    &&& r matches Some(ReaderEvent::Message { line })
                                        && line@ == t
                                    &&& post.nick_view() == pre.nick_view()
                                }
                            },
                            None => {
                                &&& r == Some(ReaderEvent::ProtocolError)
                                &&& post.reader_state() is Closed
                                &&& post.received() == pre.received()
                                &&& post.nick_view() == pre.nick_view()
                            },
                        }
                    },
                    // the length prefix of the name block must carry the text tag
                    (ReaderState::AwaitNameLen { size }, ReaderInput::Bytes(d)) => {
                        &&& post.received() == pre.received()
                        &&& post.nick_view() == pre.nick_view()
                        &&& if codec::spec_tag_of(d@) == codec::TEXT_TAG {
                            post.reader_state() == (ReaderState::AwaitNameBody {
                                size,
                                len: codec::spec_len_of(d@.skip(1)),
                            }) && r is None
                        } else {
                            post.reader_state() is Closed && r == Some(ReaderEvent::ProtocolError)
                        }
                    },
                    // the decrypted name starts the transfer and announces the piece count
                    (ReaderState::AwaitNameBody { size, len }, ReaderInput::Bytes(d)) => {
                        &&& post.nick_view() == pre.nick_view()
                        &&& match opened_by(key, nonce_of(key, pre.received()), d@) {
                            Some(pt) => {
                                let count = pieces::spec_piece_count(size);
                                &&& post.received() == pre.received() + 1
                                &&& r matches Some(ReaderEvent::FileStart { name, size: s, pieces: p })
                                    && name@ == pt && s == size && p == count
                                &&& post.reader_state() == (if count == 0 {
                                    ReaderState::AwaitHeader
                                } else {
                                    ReaderState::AwaitPieceLen { remaining: count }
                                })
                            },
                            None => {
                                &&& r == Some(ReaderEvent::ProtocolError)
                                &&& post.reader_state() is Closed
                                &&& post.received() == pre.received()
                            },
                        }
                    },
                    // the length prefix of a piece block must carry the text tag
                    (ReaderState::AwaitPieceLen { remaining }, ReaderInput::Bytes(d)) => {
                        &&& post.received() == pre.received()
                        &&& post.nick_view() == pre.nick_view()
                        &&& if codec::spec_tag_of(d@) == codec::TEXT_TAG {
                            post.reader_state() == (ReaderState::AwaitPieceBody {
                                remaining,
                                len: codec::spec_len_of(d@.skip(1)),
                            }) && r is None
                        } else {
                            post.reader_state() is Closed && r == Some(ReaderEvent::ProtocolError)
                        }
                    },
                    // each decrypted piece counts down until the transfer is done
                    (ReaderState::AwaitPieceBody { remaining, len }, ReaderInput::Bytes(d)) => {
                        &&& post.nick_view() == pre.nick_view()
                        &&& match opened_by(key, nonce_of(key, pre.received()), d@) {
                            Some(pt) => {
                                &&& post.received() == pre.received() + 1
                                &&& r matches Some(ReaderEvent::FilePiece { data, remaining: rem })
                                    && data@ == pt && rem == remaining - 1
                                &&& post.reader_state() == (if remaining == 1 {
                                    ReaderState::AwaitHeader
                                } else {
                                    ReaderState::AwaitPieceLen { remaining: (remaining - 1) as u64 }
                                })
                            },
                            None => {
                                &&& r == Some(ReaderEvent::ProtocolError)
                                &&& post.reader_state() is Closed
                                &&& post.received() == pre.received()
                            },
                        }
                    },
                }
    }

    /// Consumes one run of bytes (or the end of the stream) and advances the
    /// reader. The received counter moves exactly once per unit that opened
    /// successfully, keeping it in lock-step with the peer's sent counter.
    ///
    /// The end of the stream yields exactly one `Disconnected` event: the
    /// first `Eof` closes the machine, and a closed machine never emits
    /// anything again.
    pub fn read_step(&mut self, input: ReaderInput) -> (r: Option<ReaderEvent>)
        requires
            old(self).wf(),
            old(self).received() < u128::MAX,
            input matches ReaderInput::Bytes(d) ==> d@.len() == spec_expected_len(
                old(self).reader_state(),
            ),
        ensures
            Connection::spec_read_step_post(*old(self), *final (self), input, r),
    {
        match input {
            ReaderInput::Eof => {
                match self.reader {
                    ReaderState::Closed => None,
                    _ => {
                        self.reader = ReaderState::Closed;
                        Some(ReaderEvent::Disconnected)
                    },
                }
            },
            ReaderInput::Bytes(d) => {
                match self.reader {
                    ReaderState::AwaitHeader => {
                        let (tag, len) = codec::decode_header(d.as_slice());
                        if tag == codec::TEXT_TAG {
                            self.reader = ReaderState::AwaitTextBody { len };
                            None
                        } else if tag == codec::FILE_TAG {
                            self.reader = ReaderState::AwaitNameLen { size: len };
                            None
                        } else {
                            self.reader = ReaderState::Closed;
                            Some(ReaderEvent::ProtocolError)
                        }
                    },
                    ReaderState::AwaitTextBody { len } => {
                        match crypto::decrypt(d.as_slice(), &self.secret, &mut self.recv_count) {
                            Ok(pt) => {
                                self.reader = ReaderState::AwaitHeader;
                                match lines::classify_line(pt.as_slice()) {
                                    LineClass::NickChange { nick } => {
                                        self.peer_nick = Some(slice_to_vec_u8(nick.as_slice()));
                                        Some(ReaderEvent::NickChanged { nick })
                                    },
                                    LineClass::Text { line } => {
                                        Some(ReaderEvent::Message { line })
                                    },
                                }
                            },
                            Err(_) => {
                                self.reader = ReaderState::Closed;
                                Some(ReaderEvent::ProtocolError)
                            },
                        }
                    },
                    ReaderState::AwaitNameLen { size } => {
                        let (tag, len) = codec::decode_header(d.as_slice());
                        if tag == codec::TEXT_TAG {
                            self.reader = ReaderState::AwaitNameBody { size, len };
                            None
                        } else {
                            self.reader = ReaderState::Closed;
                            Some(ReaderEvent::ProtocolError)
                        }
                    },
                    ReaderState::AwaitNameBody { size, len: _ } => {
                        match crypto::decrypt(d.as_slice(), &self.secret, &mut self.recv_count) {
                            Ok(name) => {
                                let count = pieces::piece_count(size);
                                self.reader = if count == 0 {
                                    ReaderState::AwaitHeader
                                } else {
                                    ReaderState::AwaitPieceLen { remaining: count }
                                };
                                Some(ReaderEvent::FileStart { name, size, pieces: count })
                            },
                            Err(_) => {
                                self.reader = ReaderState::Closed;
                                Some(ReaderEvent::ProtocolError)
                            },
                        }
                    },
                    ReaderState::AwaitPieceLen { remaining } => {
                        let (tag, len) = codec::decode_header(d.as_slice());
                        if tag == codec::TEXT_TAG {
                            self.reader = ReaderState::AwaitPieceBody { remaining, len };
                            None
                        } else {
                            self.reader = ReaderState::Closed;
                            Some(ReaderEvent::ProtocolError)
                        }
                    },
                    ReaderState::AwaitPieceBody { remaining, len: _ } => {
                        match crypto::decrypt(d.as_slice(), &self.secret, &mut self.recv_count) {
                            Ok(data) => {
                                let rem = remaining - 1;
                                self.reader = if rem == 0 {
                                    ReaderState::AwaitHeader
                                } else {
                                    ReaderState::AwaitPieceLen { remaining: rem }
                                };
                                Some(ReaderEvent::FilePiece { data, remaining: rem })
                            },
                            Err(_) => {
                                self.reader = ReaderState::Closed;
                                Some(ReaderEvent::ProtocolError)
                            },
                        }
                    },
                    ReaderState::Closed => None,
                }
            },
        }
    }
}


} // verus!
