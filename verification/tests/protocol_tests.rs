use constella_db::protocol::{decode_frame, encode_frame, frame_length, Message, MessageType};
use constella_db::protocol_module::{hex_dump, Message as WireMessage, MessageType as WireType};

#[test]
fn frame_has_big_endian_length() {
    let f = encode_frame(b"hello");
    assert_eq!(f, vec![0, 0, 0, 5, b'h', b'e', b'l', b'l', b'o']);
    assert_eq!(frame_length(&[0, 0, 1, 2]), 258);
    assert_eq!(frame_length(&[1, 0, 0, 0]), 16_777_216);
}

#[test]
fn frame_roundtrip() {
    let body: Vec<u8> = (0..300u32).map(|i| (i % 251) as u8).collect();
    let f = encode_frame(&body);
    assert_eq!(f.len(), 304);
    assert_eq!(frame_length(&[f[0], f[1], f[2], f[3]]), 300);
    let (decoded, used) = decode_frame(&f).unwrap();
    assert_eq!(decoded, body);
    assert_eq!(used, 304);
}

#[test]
fn decode_frame_needs_whole_frame() {
    assert!(decode_frame(&[0, 0]).is_none());
    assert!(decode_frame(&[0, 0, 0, 3, 1, 2]).is_none());
    let (b, used) = decode_frame(&[0, 0, 0, 2, 7, 8, 9]).unwrap();
    assert_eq!(b, vec![7, 8]);
    assert_eq!(used, 6);
    let (b, used) = decode_frame(&[0, 0, 0, 0]).unwrap();
    assert!(b.is_empty());
    assert_eq!(used, 4);
}

#[test]
fn message_builders() {
    let m = Message::new("m1".to_string(), MessageType::Register, "n1".to_string());
    assert_eq!(m.id, "m1");
    assert!(m.command.is_none());
    assert!(m.payload.is_empty());
    assert!(m.timestamp > 0);
    let m = m.with_payload(vec![1, 2]).with_command(constella_db::command::Command::ShowTables);
    assert_eq!(m.payload, vec![1, 2]);
    assert!(m.command.is_some());
}

#[test]
fn wire_message_kinds() {
    let q = WireMessage::new(3, WireType::Query, "c".to_string());
    assert!(q.is_query());
    assert!(!q.is_response());
    let r = WireMessage::new(3, WireType::Response, "c".to_string());
    assert!(r.is_response());
    assert!(!r.is_query());
    assert!(r.timestamp > 0);
}

#[test]
fn hex_dump_bytes() {
    assert_eq!(hex_dump(&[0x00, 0x0f, 0xa0, 0xff]), "00 0f a0 ff ");
    assert_eq!(hex_dump(&[]), "");
}

#[test]
fn stamped_messages_carry_the_clock_reading() {
    let m = Message::stamped("q1".to_string(), MessageType::Query, "n1".to_string(), Some(1_700_000_000));
    assert_eq!(m.timestamp, 1_700_000_000);
    assert_eq!(m.id, "q1");
    assert_eq!(m.node_id, "n1");
    assert!(m.command.is_none());
    assert!(m.payload.is_empty());
    let early = Message::stamped("q2".to_string(), MessageType::Query, String::new(), None);
    assert_eq!(early.timestamp, 0);
    let w = WireMessage::stamped(7, WireType::Query, "n".to_string(), Some(42));
    assert_eq!(w.timestamp, 42);
    assert_eq!(w.id, 7);
    assert!(Message::new("q3".to_string(), MessageType::Query, String::new()).timestamp > 1_600_000_000);
}
