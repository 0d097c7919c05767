use broadcast_relay::codec::{broadcast_frame, decode, encode, Message, MSG_SIZE};
use broadcast_relay::server::{reader_step, ReadOutcome, ReaderAction};

fn frame_of(bytes: &[u8]) -> Vec<u8> {
    let mut f = bytes.to_vec();
    while f.len() < MSG_SIZE {
        f.push(0);
    }
    f
}

#[test]
fn reader_delivers_decoded_frame() {
    let frame = encode(&b"hello".to_vec()).unwrap();
    match reader_step(ReadOutcome::Frame(frame)) {
        ReaderAction::Deliver(m) => assert_eq!(m.as_bytes().as_slice(), b"hello"),
        _ => panic!("expected a delivery"),
    }
}

#[test]
fn reader_aborts_on_invalid_utf8() {
    let frame = frame_of(&[0xFF, 0xFE, b'a']);
    assert!(matches!(reader_step(ReadOutcome::Frame(frame)), ReaderAction::Abort));
}

#[test]
fn reader_idles_when_read_would_block() {
    assert!(matches!(reader_step(ReadOutcome::WouldBlock), ReaderAction::Idle));
}

#[test]
fn reader_stops_on_disconnect() {
    assert!(matches!(reader_step(ReadOutcome::Closed), ReaderAction::Stop));
}

#[test]
fn broadcast_frame_round_trips() {
    let m = Message::from_bytes(b"fan out".to_vec()).unwrap();
    let frame = broadcast_frame(&m);
    assert_eq!(frame.len(), MSG_SIZE);
    let back = decode(&frame).unwrap();
    assert_eq!(back.as_bytes().as_slice(), b"fan out");
}
