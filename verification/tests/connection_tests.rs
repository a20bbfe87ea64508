use tcp_messenger::connection::{Connection, ReaderEvent, ReaderInput};
use tcp_messenger::codec::encode_header;
use tcp_messenger::files::candidate_name;
use tcp_messenger::handshake::{public_key, shared_secret};
use tcp_messenger::pieces::reassemble;
use tcp_messenger::registry::Registry;

// The reader consumes byte runs of exactly the length it asks for; this
// drives one whole frame (or block sequence) through a connection's reader.
fn feed(conn: &mut Connection, bytes: &[u8]) -> Vec<ReaderEvent> {
    let mut events = Vec::new();
    let mut at = 0usize;
    while at < bytes.len() {
        let want = conn.expected_read() as usize;
        assert!(want > 0, "reader closed while bytes remain");
        assert!(at + want <= bytes.len(), "reader wants more than the block holds");
        let chunk = bytes[at..at + want].to_vec();
        if let Some(event) = conn.read_step(ReaderInput::Bytes(chunk)) {
            events.push(event);
        }
        at += want;
    }
    events
}

fn pair() -> (Connection, Connection) {
    let a_secret = [5u8; 32];
    let b_secret = [9u8; 32];
    let shared = shared_secret(&a_secret, &public_key(&b_secret));
    let a = Connection::new(
        shared,
        b"127.0.0.1:9001".to_vec(),
        b"127.0.0.1:9000".to_vec(),
        0,
    );
    let shared_b = shared_secret(&b_secret, &public_key(&a_secret));
    let b = Connection::new(
        shared_b,
        b"127.0.0.1:9000".to_vec(),
        b"127.0.0.1:9001".to_vec(),
        1,
    );
    (a, b)
}

#[test]
fn a_sent_line_arrives_verbatim() {
    let (mut a, mut b) = pair();
    let frame = a.seal_frame(b"hello").unwrap();
    let events = feed(&mut b, &frame);
    assert_eq!(events.len(), 1);
    match &events[0] {
        ReaderEvent::Message { line } => assert_eq!(line, &b"hello".to_vec()),
        _ => panic!("expected a message event"),
    }
}

#[test]
fn nickname_change_renames_the_peer_without_a_new_connection() {
    let (mut a, mut b) = pair();
    // the scenario: a line first, then the rename, on one connection
    let hello = a.seal_frame(b"hello").unwrap();
    let events = feed(&mut b, &hello);
    assert!(matches!(&events[0], ReaderEvent::Message { .. }));

    let nick_frame = a.update_nick(b"bob").unwrap();
    let events = feed(&mut b, &nick_frame);
    assert_eq!(events.len(), 1);
    match &events[0] {
        ReaderEvent::NickChanged { nick } => assert_eq!(nick, &b"bob".to_vec()),
        _ => panic!("expected a nickname event"),
    }
    assert_eq!(b.peer_nick, Some(b"bob".to_vec()));
}

#[test]
fn a_whole_file_transfer_reassembles_exactly() {
    let (mut a, mut b) = pair();
    let contents: Vec<u8> = (0..20_000).map(|i| (i % 241) as u8).collect();
    let blocks = a.seal_file(b"photo.jpg", &contents).unwrap();
    assert_eq!(blocks.len(), 2 + 3);

    let mut name = Vec::new();
    let mut size = 0u64;
    let mut got: Vec<Vec<u8>> = Vec::new();
    let mut done = false;
    for block in &blocks {
        for event in feed(&mut b, block) {
            match event {
                ReaderEvent::FileStart { name: n, size: s, pieces } => {
                    name = n;
                    size = s;
                    assert_eq!(pieces, 3);
                },
                ReaderEvent::FilePiece { data, remaining } => {
                    got.push(data);
                    done = remaining == 0;
                },
                _ => panic!("unexpected event during file transfer"),
            }
        }
    }
    assert!(done);
    assert_eq!(name, b"photo.jpg".to_vec());
    assert_eq!(size, contents.len() as u64);
    assert_eq!(reassemble(&got), contents);
}

#[test]
fn an_empty_file_announces_zero_pieces() {
    let (mut a, mut b) = pair();
    let blocks = a.seal_file(b"empty.bin", &[]).unwrap();
    assert_eq!(blocks.len(), 2);
    let mut started = false;
    for block in &blocks {
        for event in feed(&mut b, block) {
            match event {
                ReaderEvent::FileStart { name, size, pieces } => {
                    assert_eq!(name, b"empty.bin".to_vec());
                    assert_eq!(size, 0);
                    assert_eq!(pieces, 0);
                    started = true;
                },
                _ => panic!("unexpected event for an empty file"),
            }
        }
    }
    assert!(started);
    // the reader is back at frame headers: an ordinary line still arrives
    let frame = a.seal_frame(b"after").unwrap();
    let events = feed(&mut b, &frame);
    assert!(matches!(&events[0], ReaderEvent::Message { .. }));
}

#[test]
fn two_files_with_one_base_name_get_two_names_and_both_contents_survive() {
    let (mut a, mut b) = pair();
    let first: Vec<u8> = vec![1u8; 100];
    let second: Vec<u8> = vec![2u8; 100];
    let mut disk: Vec<(Vec<u8>, Vec<u8>)> = Vec::new();

    for contents in [&first, &second] {
        let blocks = a.seal_file(b"same.txt", contents).unwrap();
        let mut name = Vec::new();
        let mut data = Vec::new();
        for block in &blocks {
            for event in feed(&mut b, block) {
                match event {
                    ReaderEvent::FileStart { name: n, .. } => name = n,
                    ReaderEvent::FilePiece { data: d, .. } => data.extend_from_slice(&d),
                    _ => panic!("unexpected event during file transfer"),
                }
            }
        }
        // pick the first free name, as the receiver does
        let mut attempt = 0u64;
        let mut target = candidate_name(&name, attempt);
        while disk.iter().any(|(n, _)| n == &target) {
            attempt += 1;
            target = candidate_name(&name, attempt);
        }
        disk.push((target, data));
    }

    assert_eq!(disk.len(), 2);
    assert_eq!(disk[0].0, b"same.txt".to_vec());
    assert_eq!(disk[1].0, b"same(1).txt".to_vec());
    assert_eq!(disk[0].1, first);
    assert_eq!(disk[1].1, second);
}

#[test]
fn tampered_frames_break_the_connection_for_good() {
    let (mut a, mut b) = pair();
    let mut frame = a.seal_frame(b"hello").unwrap();
    let end = frame.len() - 1;
    frame[end] ^= 0x80;
    let header: Vec<u8> = frame[..8].to_vec();
    let body: Vec<u8> = frame[8..].to_vec();
    assert!(b.read_step(ReaderInput::Bytes(header)).is_none());
    let event = b.read_step(ReaderInput::Bytes(body));
    assert!(matches!(event, Some(ReaderEvent::ProtocolError)));
    assert!(!b.is_open());
    assert_eq!(b.expected_read(), 0);
}

#[test]
fn an_unknown_frame_type_is_a_protocol_error() {
    let (_, mut b) = pair();
    let header = encode_header(17, 4);
    let event = b.read_step(ReaderInput::Bytes(header.to_vec()));
    assert!(matches!(event, Some(ReaderEvent::ProtocolError)));
}

#[test]
fn closing_the_stream_yields_exactly_one_disconnection_event() {
    let (_, mut b) = pair();
    let first = b.read_step(ReaderInput::Eof);
    assert!(matches!(first, Some(ReaderEvent::Disconnected)));
    assert!(!b.is_open());
    let second = b.read_step(ReaderInput::Eof);
    assert!(second.is_none());
    let third = b.read_step(ReaderInput::Bytes(Vec::new()));
    assert!(third.is_none());
}

#[test]
fn counters_stay_in_lock_step_over_a_conversation() {
    let (mut a, mut b) = pair();
    for i in 0..10u8 {
        let line = vec![b'm', b'0' + i];
        let frame = a.seal_frame(&line).unwrap();
        let events = feed(&mut b, &frame);
        match &events[0] {
            ReaderEvent::Message { line: got } => assert_eq!(got, &line),
            _ => panic!("expected a message event"),
        }
    }
}

#[test]
fn registry_reaches_every_peer_and_rejects_duplicates() {
    let addrs: Vec<Vec<u8>> = (0..5u8)
        .map(|i| format!("10.0.0.{}:7000", i).into_bytes())
        .collect();
    let mut registry = Registry::new();
    for (i, addr) in addrs.iter().enumerate() {
        assert!(registry.connect_allowed(addr));
        let c = Connection::new([i as u8; 32], b"local".to_vec(), addr.clone(), i as u8);
        registry.insert(c);
    }
    assert_eq!(registry.len(), 5);
    for addr in &addrs {
        assert!(registry.addr_position(addr).is_some());
        let c = registry.lookup(addr).unwrap();
        assert_eq!(&c.peer_addr, addr);
        // a connect attempt to a registered address is rejected
        assert!(!registry.connect_allowed(addr));
    }
    assert_eq!(registry.len(), 5);
    assert!(registry.lookup(&b"10.0.0.9:7000".to_vec()).is_none());
}

#[test]
fn disconnect_removes_only_the_named_peer() {
    let mut registry = Registry::new();
    for i in 0..3u8 {
        let addr = format!("10.0.0.{}:7000", i).into_bytes();
        registry.insert(Connection::new([i; 32], b"local".to_vec(), addr, i));
    }
    let target = b"10.0.0.1:7000".to_vec();
    assert!(registry.disconnect(&target));
    assert_eq!(registry.len(), 2);
    assert!(registry.lookup(&target).is_none());
    assert!(registry.lookup(&b"10.0.0.0:7000".to_vec()).is_some());
    assert!(registry.lookup(&b"10.0.0.2:7000".to_vec()).is_some());
    // a second disconnect finds nothing, so callers can report "no such peer"
    assert!(!registry.disconnect(&target));
}

#[test]
fn set_peer_nick_touches_only_the_named_peer() {
    let mut registry = Registry::new();
    for i in 0..3u8 {
        let addr = format!("10.0.0.{}:7000", i).into_bytes();
        registry.insert(Connection::new([i; 32], b"local".to_vec(), addr, i));
    }
    assert!(registry.set_peer_nick(&b"10.0.0.1:7000".to_vec(), &b"bob".to_vec()));
    assert_eq!(
        registry.lookup(&b"10.0.0.1:7000".to_vec()).unwrap().peer_nick,
        Some(b"bob".to_vec())
    );
    assert_eq!(registry.lookup(&b"10.0.0.0:7000".to_vec()).unwrap().peer_nick, None);
    assert!(!registry.set_peer_nick(&b"10.9.9.9:7000".to_vec(), &b"x".to_vec()));
}

#[test]
fn broadcast_seals_one_frame_per_peer() {
    let mut registry = Registry::new();
    let mut receivers: Vec<Connection> = Vec::new();
    for i in 0..3u8 {
        let secret = [40 + i; 32];
        let addr = format!("10.0.0.{}:7000", i).into_bytes();
        registry.insert(Connection::new(secret, b"local".to_vec(), addr.clone(), i));
        receivers.push(Connection::new(secret, addr, b"local".to_vec(), i));
    }
    let frames = registry.broadcast_seal(b"to all");
    assert_eq!(frames.len(), 3);
    for (frame, receiver) in frames.iter().zip(receivers.iter_mut()) {
        let events = feed(receiver, frame);
        match &events[0] {
            ReaderEvent::Message { line } => assert_eq!(line, &b"to all".to_vec()),
            _ => panic!("expected a message event"),
        }
    }
}

#[test]
fn broadcast_nick_renames_this_end_at_every_peer() {
    let mut registry = Registry::new();
    let mut receivers: Vec<Connection> = Vec::new();
    for i in 0..2u8 {
        let secret = [60 + i; 32];
        let addr = format!("10.0.1.{}:7000", i).into_bytes();
        registry.insert(Connection::new(secret, b"local".to_vec(), addr.clone(), i));
        receivers.push(Connection::new(secret, addr, b"local".to_vec(), i));
    }
    let frames = registry.broadcast_nick(b"zed");
    assert_eq!(frames.len(), 2);
    for (frame, receiver) in frames.iter().zip(receivers.iter_mut()) {
        let events = feed(receiver, frame);
        match &events[0] {
            ReaderEvent::NickChanged { nick } => assert_eq!(nick, &b"zed".to_vec()),
            _ => panic!("expected a nickname event"),
        }
        assert_eq!(receiver.peer_nick, Some(b"zed".to_vec()));
    }
}

#[test]
fn registry_routes_point_to_point_sends_and_receives() {
    let secret = [77u8; 32];
    let a_addr = b"10.0.2.1:7000".to_vec();
    let b_addr = b"10.0.2.2:7000".to_vec();
    let mut a_registry = Registry::new();
    a_registry.insert(Connection::new(secret, a_addr.clone(), b_addr.clone(), 0));
    let mut b_registry = Registry::new();
    b_registry.insert(Connection::new(secret, b_addr.clone(), a_addr.clone(), 1));

    assert!(a_registry.seal_to(&b"10.9.9.9:1".to_vec(), b"hi").is_none());
    let frame = a_registry.seal_to(&b_addr, b"hi").unwrap().unwrap();

    let header: Vec<u8> = frame[..8].to_vec();
    let body: Vec<u8> = frame[8..].to_vec();
    assert!(b_registry
        .read_step_at(&b"10.9.9.9:1".to_vec(), ReaderInput::Bytes(header.clone()))
        .is_none());
    let first = b_registry
        .read_step_at(&a_addr, ReaderInput::Bytes(header))
        .unwrap();
    assert!(first.is_none());
    let second = b_registry
        .read_step_at(&a_addr, ReaderInput::Bytes(body))
        .unwrap();
    match second {
        Some(ReaderEvent::Message { line }) => assert_eq!(line, b"hi".to_vec()),
        _ => panic!("expected a message event"),
    }
}
