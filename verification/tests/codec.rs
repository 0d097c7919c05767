use broadcast_relay::codec::{decode, encode, DecodeError, EncodeError, Message, MSG_SIZE};

fn frame_of(bytes: &[u8]) -> Vec<u8> {
    let mut f = bytes.to_vec();
    while f.len() < MSG_SIZE {
        f.push(0);
    }
    f
}

#[test]
fn round_trip_hello() {
    let frame = encode(&b"hello".to_vec()).unwrap();
    assert_eq!(frame.len(), MSG_SIZE);
    assert_eq!(&frame[..5], b"hello");
    assert!(frame[5..].iter().all(|&b| b == 0));
    let msg = decode(&frame).unwrap();
    assert_eq!(msg.as_bytes().as_slice(), b"hello");
}

#[test]
fn round_trip_empty() {
    let frame = encode(&Vec::new()).unwrap();
    assert_eq!(frame, vec![0u8; MSG_SIZE]);
    let msg = decode(&frame).unwrap();
    assert!(msg.as_bytes().is_empty());
    assert_eq!(msg.len(), 0);
}

#[test]
fn round_trip_longest_message() {
    let text: Vec<u8> = (1..MSG_SIZE as u8).collect();
    assert_eq!(text.len(), MSG_SIZE - 1);
    let frame = encode(&text).unwrap();
    assert_eq!(frame.len(), MSG_SIZE);
    assert_eq!(frame[MSG_SIZE - 1], 0);
    let msg = decode(&frame).unwrap();
    assert_eq!(msg.as_bytes(), &text);
}

#[test]
fn round_trip_multibyte_utf8() {
    let text = "héllo wörld ✓".as_bytes().to_vec();
    let frame = encode(&text).unwrap();
    let msg = decode(&frame).unwrap();
    assert_eq!(msg.as_bytes(), &text);
    assert_eq!(String::from_utf8(msg.as_bytes().clone()).unwrap(), "héllo wörld ✓");
}

#[test]
fn overflow_rejected() {
    let at_limit = vec![b'a'; MSG_SIZE];
    assert_eq!(encode(&at_limit), Err(EncodeError::EncodingOverflow));
    let over = vec![b'a'; MSG_SIZE + 10];
    assert_eq!(encode(&over), Err(EncodeError::EncodingOverflow));
}

#[test]
fn embedded_zero_truncates_on_decode() {
    let frame = encode(&b"ab\0cd".to_vec()).unwrap();
    let msg = decode(&frame).unwrap();
    assert_eq!(msg.as_bytes().as_slice(), b"ab");
}

#[test]
fn invalid_utf8_rejected() {
    let frame = frame_of(&[0xFF, b'a']);
    assert!(matches!(decode(&frame), Err(DecodeError::InvalidEncoding)));
}

#[test]
fn overlong_utf8_rejected() {
    // 0xC0 0x80 is the overlong encoding of NUL; sound decoders refuse it.
    let frame = frame_of(&[0xC0, 0x80]);
    assert!(matches!(decode(&frame), Err(DecodeError::InvalidEncoding)));
    assert!(String::from_utf8(vec![0xC0, 0x80]).is_err());
}

#[test]
fn truncated_scalar_rejected() {
    // A two-byte lead with its continuation cut off by the terminator.
    let frame = frame_of(&[b'a', 0xC3]);
    assert!(matches!(decode(&frame), Err(DecodeError::InvalidEncoding)));
}

#[test]
fn surrogate_range_rejected() {
    // 0xED 0xA0 0x80 encodes a UTF-16 surrogate, which UTF-8 forbids.
    let frame = frame_of(&[0xED, 0xA0, 0x80]);
    assert!(matches!(decode(&frame), Err(DecodeError::InvalidEncoding)));
    assert!(String::from_utf8(vec![0xED, 0xA0, 0x80]).is_err());
}

#[test]
fn unterminated_frame_rejected() {
    let frame = vec![b'x'; MSG_SIZE];
    assert!(matches!(decode(&frame), Err(DecodeError::InvalidEncoding)));
}

#[test]
fn utf8_check_agrees_with_std() {
    let samples: Vec<Vec<u8>> = vec![
        b"plain ascii".to_vec(),
        "üñí ▒ 𝄞".as_bytes().to_vec(),
        vec![0xF4, 0x8F, 0xBF, 0xBF],
        vec![0xF4, 0x90, 0x80, 0x80],
        vec![0xE0, 0x9F, 0x80],
        vec![0xC2],
        vec![0x80],
        vec![0xF5, 0x80, 0x80, 0x80],
    ];
    for bytes in samples {
        if bytes.len() < MSG_SIZE && !bytes.contains(&0) {
            let got = Message::from_bytes(bytes.clone()).is_some();
            let expected = String::from_utf8(bytes.clone()).is_ok();
            assert_eq!(got, expected, "disagreement on {:?}", bytes);
        }
    }
}

#[test]
fn from_bytes_policies() {
    assert!(Message::from_bytes(b"ok".to_vec()).is_some());
    assert!(Message::from_bytes(vec![b'a'; MSG_SIZE - 1]).is_some());
    assert!(Message::from_bytes(vec![b'a'; MSG_SIZE]).is_none());
    assert!(Message::from_bytes(b"a\0b".to_vec()).is_none());
    assert!(Message::from_bytes(vec![0xFF]).is_none());
}
