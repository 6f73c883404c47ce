use liquid_ml::error::LiquidError;
use liquid_ml::network::codec::MessageCodec;
use liquid_ml::network::message::{Body, Message};

fn kill(msg_id: u64, target: u64) -> Message {
    Message::new(msg_id, 0, target, Body::Kill)
}

fn round_trip(m: &Message) {
    let codec = MessageCodec::new();
    let frame = codec.encode(m).unwrap();
    let (back, used) = codec.decode(&frame).unwrap().unwrap();
    assert_eq!(&back, m);
    assert_eq!(used, frame.len());
}

#[test]
fn default_limit_is_two_to_the_28() {
    assert_eq!(MessageCodec::new().max_frame_len, 1 << 28);
    assert_eq!(MessageCodec::with_max_frame_len(64).max_frame_len, 64);
}

#[test]
fn kill_frame_bytes() {
    let frame = MessageCodec::new().encode(&kill(1, 2)).unwrap();
    let mut expected: Vec<u8> = vec![0, 0, 0, 25];
    expected.extend_from_slice(&[1, 0, 0, 0, 0, 0, 0, 0]);
    expected.extend_from_slice(&[0, 0, 0, 0, 0, 0, 0, 0]);
    expected.extend_from_slice(&[2, 0, 0, 0, 0, 0, 0, 0]);
    expected.push(3);
    assert_eq!(frame, expected);
}

#[test]
fn length_prefix_is_big_endian() {
    let m = Message::new(0, 1, 2, Body::Blob { bytes: vec![7u8; 300] });
    let frame = MessageCodec::new().encode(&m).unwrap();
    // 24 header bytes, the tag, a u32 length and 300 bytes: 329 = 0x0149.
    assert_eq!(&frame[0..4], &[0, 0, 1, 0x49]);
    assert_eq!(frame.len(), 4 + 329);
    // The blob's own length is little-endian: 300 = 0x012c.
    assert_eq!(&frame[29..33], &[0x2c, 1, 0, 0]);
}

#[test]
fn get_frame_bytes() {
    let m =
        Message::new(0x0102030405060708, 2, 1, Body::Get { key_name: "x".to_string(), home: 1 });
    let frame = MessageCodec::new().encode(&m).unwrap();
    let mut expected: Vec<u8> = vec![0, 0, 0, 38];
    expected.extend_from_slice(&[8, 7, 6, 5, 4, 3, 2, 1]);
    expected.extend_from_slice(&[2, 0, 0, 0, 0, 0, 0, 0]);
    expected.extend_from_slice(&[1, 0, 0, 0, 0, 0, 0, 0]);
    expected.push(4);
    expected.extend_from_slice(&[1, 0, 0, 0]);
    expected.push(b'x');
    expected.extend_from_slice(&[1, 0, 0, 0, 0, 0, 0, 0]);
    assert_eq!(frame, expected);
}

#[test]
fn introduction_round_trips() {
    round_trip(&Message::new(
        5,
        3,
        0,
        Body::Introduction {
            address: "127.0.0.1:9001".to_string(),
            network_name: "main".to_string(),
        },
    ));
}

#[test]
fn directory_round_trips() {
    round_trip(&Message::new(
        9,
        0,
        3,
        Body::Directory {
            dir: vec![(1, "127.0.0.1:9001".to_string()), (2, "127.0.0.1:9002".to_string())],
        },
    ));
    round_trip(&Message::new(0, 0, 1, Body::Directory { dir: vec![] }));
}

#[test]
fn kill_round_trips() {
    round_trip(&kill(u64::MAX, 7));
}

#[test]
fn get_round_trips() {
    round_trip(&Message::new(1, 2, 1, Body::Get { key_name: "main".to_string(), home: 1 }));
}

#[test]
fn value_round_trips() {
    round_trip(&Message::new(
        1,
        1,
        2,
        Body::Value { key_name: "x".to_string(), home: 1, bytes: vec![0xde, 0xad, 0xbe, 0xef] },
    ));
    round_trip(&Message::new(
        1,
        1,
        2,
        Body::Value { key_name: String::new(), home: 0, bytes: vec![] },
    ));
}

#[test]
fn blob_round_trips() {
    round_trip(&Message::new(4, 1, 2, Body::Blob { bytes: vec![0xaa, 0xbb] }));
}

#[test]
fn text_beyond_ascii_round_trips() {
    let m = Message::new(1, 2, 1, Body::Get { key_name: "cl\u{e9} \u{1f511}".to_string(), home: 1 });
    let frame = MessageCodec::new().encode(&m).unwrap();
    // 'é' takes two bytes and the key emoji four: 3 + 2 + 1 + 4 = 9 bytes of text.
    assert_eq!(&frame[29..33], &[9, 0, 0, 0]);
    round_trip(&m);
}

#[test]
fn short_buffers_are_incomplete() {
    let codec = MessageCodec::new();
    let frame = codec.encode(&kill(1, 2)).unwrap();
    assert_eq!(codec.decode(&[]), Ok(None));
    assert_eq!(codec.decode(&frame[..3]), Ok(None));
    assert_eq!(codec.decode(&frame[..4]), Ok(None));
    assert_eq!(codec.decode(&frame[..frame.len() - 1]), Ok(None));
}

#[test]
fn decode_leaves_what_follows_the_frame() {
    let codec = MessageCodec::new();
    let first = kill(1, 2);
    let second = Message::new(2, 0, 2, Body::Blob { bytes: vec![1, 2, 3] });
    let mut stream = codec.encode(&first).unwrap();
    let first_len = stream.len();
    stream.extend_from_slice(&codec.encode(&second).unwrap());
    let (m, used) = codec.decode(&stream).unwrap().unwrap();
    assert_eq!(m, first);
    assert_eq!(used, first_len);
    let (m, used) = codec.decode(&stream[first_len..]).unwrap().unwrap();
    assert_eq!(m, second);
    assert_eq!(used, stream.len() - first_len);
}

#[test]
fn oversize_length_is_refused() {
    let codec = MessageCodec::with_max_frame_len(24);
    assert_eq!(codec.decode(&[0, 0, 0, 25]), Err(LiquidError::ProtocolViolation));
    assert_eq!(codec.decode(&[0, 0, 0, 24]), Ok(None));
    let default = MessageCodec::new();
    assert_eq!(default.decode(&[0x10, 0, 0, 1]), Err(LiquidError::ProtocolViolation));
    assert_eq!(default.decode(&[0x10, 0, 0, 0]), Ok(None));
}

#[test]
fn oversize_message_is_not_encoded() {
    let codec = MessageCodec::with_max_frame_len(25);
    assert!(codec.encode(&kill(1, 2)).is_ok());
    let m = Message::new(1, 0, 2, Body::Blob { bytes: vec![] });
    assert_eq!(codec.encode(&m), Err(LiquidError::ProtocolViolation));
}

#[test]
fn unknown_kind_is_refused() {
    let codec = MessageCodec::new();
    let mut frame = codec.encode(&kill(1, 2)).unwrap();
    let last = frame.len() - 1;
    frame[last] = 7;
    assert_eq!(codec.decode(&frame), Err(LiquidError::ProtocolViolation));
    frame[last] = 0;
    assert_eq!(codec.decode(&frame), Err(LiquidError::ProtocolViolation));
}

#[test]
fn truncated_payload_is_refused() {
    let codec = MessageCodec::new();
    // A payload of 24 bytes has no room for the kind.
    let mut frame: Vec<u8> = vec![0, 0, 0, 24];
    frame.extend_from_slice(&[0u8; 24]);
    assert_eq!(codec.decode(&frame), Err(LiquidError::ProtocolViolation));
    // A blob that announces more bytes than the payload holds.
    let mut frame: Vec<u8> = vec![0, 0, 0, 30];
    frame.extend_from_slice(&[0u8; 24]);
    frame.push(6);
    frame.extend_from_slice(&[2, 0, 0, 0]);
    frame.push(0xaa);
    assert_eq!(codec.decode(&frame), Err(LiquidError::ProtocolViolation));
}

#[test]
fn overlong_payload_is_refused() {
    let codec = MessageCodec::new();
    let mut frame: Vec<u8> = vec![0, 0, 0, 26];
    frame.extend_from_slice(&[0u8; 24]);
    frame.push(3);
    frame.push(0);
    assert_eq!(codec.decode(&frame), Err(LiquidError::ProtocolViolation));
}

#[test]
fn invalid_text_is_refused() {
    let codec = MessageCodec::new();
    let mut frame: Vec<u8> = vec![0, 0, 0, 38];
    frame.extend_from_slice(&[0u8; 24]);
    frame.push(4);
    frame.extend_from_slice(&[1, 0, 0, 0]);
    frame.push(0xff);
    frame.extend_from_slice(&[1, 0, 0, 0, 0, 0, 0, 0]);
    assert_eq!(codec.decode(&frame), Err(LiquidError::ProtocolViolation));
    frame[33] = b'k';
    let (m, _) = codec.decode(&frame).unwrap().unwrap();
    assert_eq!(m.body, Body::Get { key_name: "k".to_string(), home: 1 });
}

#[test]
fn directory_with_a_missing_entry_is_refused() {
    let codec = MessageCodec::new();
    let m = Message::new(0, 0, 2, Body::Directory { dir: vec![(1, "a:1".to_string())] });
    let mut frame = codec.encode(&m).unwrap();
    // Announce two entries where one follows.
    assert_eq!(&frame[29..33], &[1, 0, 0, 0]);
    frame[29] = 2;
    assert_eq!(codec.decode(&frame), Err(LiquidError::ProtocolViolation));
}

#[test]
fn body_duplicate_is_equal() {
    let bodies = vec![
        Body::Introduction { address: "a".to_string(), network_name: "n".to_string() },
        Body::Directory { dir: vec![(1, "a".to_string())] },
        Body::Kill,
        Body::Get { key_name: "k".to_string(), home: 3 },
        Body::Value { key_name: "k".to_string(), home: 3, bytes: vec![1, 2] },
        Body::Blob { bytes: vec![9] },
    ];
    for b in bodies {
        assert_eq!(b.duplicate(), b);
    }
}
