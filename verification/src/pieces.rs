//! Chunked file transfer: a file's contents are cut into fixed-size pieces,
//! each encrypted and sent as its own block, and reassembled in order on the
//! receiving side. The receiver learns the total size up front and derives
//! the expected piece count from it.

use vstd::prelude::*;
use vstd::slice::slice_subrange;

verus! {

/// Size of one file-transfer piece, in bytes.
pub const PIECE_SIZE: u64 = 8000;

/// How many pieces a file of `size` bytes is sent as: `ceil(size / PIECE_SIZE)`.
pub open spec fn spec_piece_count(size: u64) -> u64 {
    ((size + PIECE_SIZE - 1) / (PIECE_SIZE as int)) as u64
}

/// A byte sequence cut into consecutive pieces of `PIECE_SIZE` bytes, the
/// last piece holding whatever remains.
pub open spec fn spec_pieces(data: Seq<u8>) -> Seq<Seq<u8>>
    decreases data.len(),
{
    if data.len() == 0 {
        Seq::empty()
    } else if data.len() <= PIECE_SIZE {
        seq![data]
    } else {
        seq![data.take(PIECE_SIZE as int)] + spec_pieces(data.skip(PIECE_SIZE as int))
    }
}

/// Computes how many pieces a file of `size` bytes is sent as.
pub fn piece_count(size: u64) -> (n: u64)
    requires
        size < 0x100_0000_0000_0000,
    ensures
        n == spec_piece_count(size),
        n * PIECE_SIZE >= size,
        size == 0 ==> n == 0,
        size > 0 ==> n >= 1 && (n - 1) * PIECE_SIZE < size,
{
    let n = (size + PIECE_SIZE - 1) / PIECE_SIZE;
    proof {
        assert(n * PIECE_SIZE >= size && (size == 0 ==> n == 0) && (size > 0 ==> n >= 1 && (n - 1)
            * PIECE_SIZE < size)) by (nonlinear_arith)
            requires
                n == (size + PIECE_SIZE - 1) / (PIECE_SIZE as int),
                size < 0x100_0000_0000_0000,
                PIECE_SIZE == 8000,
        ;
    }
    n
}

/// Cuts `data` into the pieces it is transferred as.
pub fn split_into_pieces(data: &[u8]) -> (pieces: Vec<Vec<u8>>)
    ensures
        pieces.deep_view() == spec_pieces(data@),
{
    let mut pieces: Vec<Vec<u8>> = Vec::new();
    let mut at: usize = 0;
    let len = data.len();
    proof {
        assert(data@.skip(0) =~= data@);
        assert(pieces.deep_view() + spec_pieces(data@) =~= spec_pieces(data@));
    }
    while at < len
        invariant
            at <= len,
            len == data@.len(),
            spec_pieces(data@) == pieces.deep_view() + spec_pieces(data@.skip(at as int)),
        decreases len - at,
    {
        let take: usize = if len - at > PIECE_SIZE as usize {
            PIECE_SIZE as usize
        } else {
            len - at
        };
        let mut piece: Vec<u8> = Vec::new();
        piece.extend_from_slice(slice_subrange(data, at, at + take));
        let ghost rest = data@.skip(at as int);
        let ghost before = pieces.deep_view();
        pieces.push(piece);
        proof {
            assert(pieces.deep_view() =~~= before.push(piece@));
            assert(piece@ =~= rest.take(take as int));
            if rest.len() <= PIECE_SIZE {
                assert(piece@ =~= rest);
                assert(spec_pieces(rest) == seq![rest]);
                assert(data@.skip((at + take) as int) =~= Seq::<u8>::empty());
                assert(before + spec_pieces(rest) =~= before.push(rest));
            } else {
                assert(data@.skip((at + take) as int) =~= rest.skip(PIECE_SIZE as int));
                assert(before + spec_pieces(rest) =~= before.push(rest.take(PIECE_SIZE as int))
                    + spec_pieces(rest.skip(PIECE_SIZE as int)));
            }
            assert(spec_pieces(data@) == pieces.deep_view() + spec_pieces(
                data@.skip((at + take) as int),
            ));
        }
        at = at + take;
    }
    proof {
        assert(data@.skip(at as int) =~= Seq::<u8>::empty());
        assert(spec_pieces(data@) =~= pieces.deep_view());
    }
    pieces
}

/// Joins received pieces back together in order.
pub fn reassemble(pieces: &Vec<Vec<u8>>) -> (data: Vec<u8>)
    ensures
        data@ == pieces.deep_view().flatten(),
{
    let mut data: Vec<u8> = Vec::new();
    let mut i: usize = 0;
    while i < pieces.len()
        invariant
            i <= pieces@.len(),
            pieces@.len() == pieces.deep_view().len(),
            data@ == pieces.deep_view().take(i as int).flatten(),
        decreases pieces@.len() - i,
    {
        let piece = &pieces[i];
        let ghost before = data@;
        data.extend_from_slice(piece.as_slice());
        proof {
            let deep = pieces.deep_view();
            assert(deep[i as int] =~= piece@);
            lemma_flatten_concat(deep.take(i as int), seq![piece@]);
            seq![piece@].lemma_flatten_one_element();
            assert(deep.take(i + 1) =~= deep.take(i as int) + seq![piece@]);
            assert(data@ =~= before + piece@);
        }
        i = i + 1;
    }
    proof {
        assert(pieces.deep_view().take(pieces.deep_view().len() as int) =~= pieces.deep_view());
    }
    data
}

/// Flattening a concatenation of two sequences of sequences flattens each
/// part and joins the results.
proof fn lemma_flatten_concat(a: Seq<Seq<u8>>, b: Seq<Seq<u8>>)
    ensures
        (a + b).flatten() == a.flatten() + b.flatten(),
    decreases a.len(),
{
    if a.len() == 0 {
        assert(a + b =~= b);
        assert(a.flatten() + b.flatten() =~= b.flatten());
    } else {
        lemma_flatten_concat(a.drop_first(), b);
        assert((a + b).drop_first() =~= a.drop_first() + b);
        assert((a + b).first() == a.first());
        assert(a.first() + (a.drop_first().flatten() + b.flatten()) =~= a.flatten() + b.flatten());
    }
}

/// Splitting a byte sequence into pieces and reassembling them in order
/// reproduces the original bytes exactly, for every size: empty, shorter than
/// one piece, exactly one piece, any whole number of pieces, and any remainder.
pub proof fn lemma_piece_round_trip(data: Seq<u8>)
    ensures
        spec_pieces(data).flatten() == data,
    decreases data.len(),
{
    if data.len() == 0 {
        assert(spec_pieces(data).flatten() =~= data);
    } else if data.len() <= PIECE_SIZE {
        assert(spec_pieces(data) == seq![data]);
        seq![data].lemma_flatten_one_element();
    } else {
        let head = data.take(PIECE_SIZE as int);
        let tail = data.skip(PIECE_SIZE as int);
        lemma_piece_round_trip(tail);
        assert(spec_pieces(data) == seq![head] + spec_pieces(tail));
        lemma_flatten_concat(seq![head], spec_pieces(tail));
        seq![head].lemma_flatten_one_element();
        assert(head + tail =~= data);
    }
}

} // verus!
