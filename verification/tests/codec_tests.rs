use tcp_messenger::codec::{decode_header, encode_header, header, FILE_TAG, NICK_TAG, TEXT_TAG};

#[test]
fn header_lays_out_tag_and_big_endian_length() {
    let msg = vec![0u8; 0x0102];
    let h = header(&msg, TEXT_TAG);
    assert_eq!(h, [0, 0, 0, 0, 0, 0, 1, 2]);
}

#[test]
fn header_tag_overwrites_leading_byte() {
    let msg = vec![7u8; 5];
    let h = header(&msg, FILE_TAG);
    assert_eq!(h, [255, 0, 0, 0, 0, 0, 0, 5]);
}

#[test]
fn decode_reads_back_tag_and_length() {
    let h = encode_header(NICK_TAG, 0x0011_2233_4455_66);
    let (tag, len) = decode_header(&h);
    assert_eq!(tag, NICK_TAG);
    assert_eq!(len, 0x0011_2233_4455_66);
}

#[test]
fn round_trip_holds_at_the_edges() {
    for &(tag, len) in &[
        (0u8, 0u64),
        (0, 1),
        (255, 0xff_ffff_ffff_ffff),
        (254, 8000),
        (1, 0x80_0000_0000_0000),
    ] {
        let h = encode_header(tag, len);
        assert_eq!(decode_header(&h), (tag, len));
    }
}

#[test]
fn zero_length_is_legal() {
    let h = encode_header(TEXT_TAG, 0);
    assert_eq!(h, [0u8; 8]);
    assert_eq!(decode_header(&h), (TEXT_TAG, 0));
}
