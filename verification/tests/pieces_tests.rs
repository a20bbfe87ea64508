use tcp_messenger::pieces::{piece_count, reassemble, split_into_pieces, PIECE_SIZE};

fn bytes(n: usize) -> Vec<u8> {
    (0..n).map(|i| (i % 251) as u8).collect()
}

fn round_trip(n: usize) {
    let data = bytes(n);
    let pieces = split_into_pieces(&data);
    assert_eq!(pieces.len() as u64, piece_count(n as u64));
    for (i, p) in pieces.iter().enumerate() {
        if i + 1 < pieces.len() {
            assert_eq!(p.len() as u64, PIECE_SIZE);
        } else {
            assert!(p.len() as u64 <= PIECE_SIZE);
        }
    }
    assert_eq!(reassemble(&pieces), data);
}

#[test]
fn empty_file_round_trips() {
    round_trip(0);
}

#[test]
fn file_smaller_than_one_piece_round_trips() {
    round_trip(123);
}

#[test]
fn file_of_exactly_one_piece_round_trips() {
    round_trip(PIECE_SIZE as usize);
}

#[test]
fn file_of_whole_pieces_round_trips() {
    round_trip(3 * PIECE_SIZE as usize);
}

#[test]
fn file_with_remainder_round_trips() {
    round_trip(2 * PIECE_SIZE as usize + 17);
}

#[test]
fn piece_count_is_the_ceiling() {
    assert_eq!(piece_count(0), 0);
    assert_eq!(piece_count(1), 1);
    assert_eq!(piece_count(PIECE_SIZE), 1);
    assert_eq!(piece_count(PIECE_SIZE + 1), 2);
    assert_eq!(piece_count(10 * PIECE_SIZE), 10);
}
