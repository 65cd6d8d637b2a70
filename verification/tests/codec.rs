use yoctocollab::awareness::{read_awareness_update, write_awareness_update, AwarenessEntry};
use yoctocollab::codec::{read_var_buffer, read_var_u64, write_var_buffer, write_var_u64};
use yoctocollab::message::{decode_message, encode_message, Message};
use yoctocollab::message_type::{DocMessage, MessageType};
use yoctocollab::ProtocolError;

fn roundtrip_u64(v: u64) {
    let mut buf = Vec::new();
    write_var_u64(&mut buf, v);
    let (r, end) = read_var_u64(&buf, 0).unwrap();
    assert_eq!(r, v);
    assert_eq!(end, buf.len());
}

#[test]
fn var_u64_roundtrip() {
    for v in [0, 1, 127, 128, 255, 300, 16383, 16384, 0x0123_4567_89ab_cdef, u64::MAX] {
        roundtrip_u64(v);
    }
}

#[test]
fn var_u64_exact_bytes() {
    let mut buf = Vec::new();
    write_var_u64(&mut buf, 300);
    assert_eq!(buf, vec![0xAC, 0x02]);
    let mut buf = Vec::new();
    write_var_u64(&mut buf, 8);
    assert_eq!(buf, vec![0x08]);
}

#[test]
fn var_u64_rejects_truncation() {
    assert_eq!(read_var_u64(&[0x80], 0), Err(ProtocolError::MalformedFrame));
    assert_eq!(read_var_u64(&[], 0), Err(ProtocolError::MalformedFrame));
    // ten continuation bytes never finish a value
    assert_eq!(read_var_u64(&[0x80; 11], 0), Err(ProtocolError::MalformedFrame));
}

#[test]
fn var_u64_rejects_overflow() {
    // eleven bytes whose value would exceed 64 bits
    let bytes = [0xFF, 0xFF, 0xFF, 0xFF, 0xFF, 0xFF, 0xFF, 0xFF, 0xFF, 0xFF, 0x01];
    assert_eq!(read_var_u64(&bytes, 0), Err(ProtocolError::MalformedFrame));
}

#[test]
fn var_buffer_roundtrip() {
    let data = vec![1u8, 2, 3, 4, 5];
    let mut buf = Vec::new();
    write_var_buffer(&mut buf, &data);
    assert_eq!(buf, vec![5, 1, 2, 3, 4, 5]);
    let (out, end) = read_var_buffer(&buf, 0).unwrap();
    assert_eq!(out, data);
    assert_eq!(end, buf.len());
}

#[test]
fn var_buffer_rejects_short_input() {
    assert_eq!(
        read_var_buffer(&[0x05, 1, 2, 3], 0),
        Err(ProtocolError::MalformedFrame)
    );
}

fn all_messages() -> Vec<Message> {
    vec![
        Message::Sync(DocMessage::Step1, vec![0x00]),
        Message::Sync(DocMessage::Step2, vec![9, 8, 7]),
        Message::Sync(DocMessage::Update, vec![]),
        Message::SyncReply(DocMessage::Step2, vec![1, 2]),
        Message::Awareness(vec![0x00]),
        Message::Awareness(vec![]),
        Message::Auth(vec![4, 5, 6]),
        Message::QueryAwareness,
        Message::Stateless(vec![1]),
        Message::BroadcastStateless(vec![2]),
        Message::Close,
        Message::SyncStatus(1),
        Message::SyncStatus(0),
    ]
}

#[test]
fn frame_roundtrip_every_type() {
    for msg in all_messages() {
        let frame = encode_message(b"default", &msg);
        let (name, decoded) = decode_message(&frame).unwrap();
        assert_eq!(name, b"default".to_vec());
        assert_eq!(decoded, msg);
    }
}

#[test]
fn frame_truncation_is_malformed() {
    // every message whose body is empty or length-prefixed
    let msgs = vec![
        Message::Sync(DocMessage::Step1, vec![0x00]),
        Message::Sync(DocMessage::Step2, vec![9, 8, 7]),
        Message::Sync(DocMessage::Update, vec![]),
        Message::SyncReply(DocMessage::Step2, vec![1, 2]),
        Message::Awareness(vec![0x00]),
        Message::Awareness(vec![]),
        Message::QueryAwareness,
        Message::Close,
        Message::SyncStatus(1),
    ];
    for msg in msgs {
        let mut frame = encode_message(b"default", &msg);
        frame.pop();
        assert_eq!(
            decode_message(&frame),
            Err(ProtocolError::MalformedFrame),
            "truncation accepted for {:?}",
            msg
        );
    }
}

#[test]
fn frame_unknown_type_code() {
    let mut frame = Vec::new();
    write_var_buffer(&mut frame, b"default");
    write_var_u64(&mut frame, 9);
    assert_eq!(decode_message(&frame), Err(ProtocolError::UnknownType));
}

#[test]
fn frame_unknown_sync_sub_code() {
    let mut frame = Vec::new();
    write_var_buffer(&mut frame, b"default");
    write_var_u64(&mut frame, 0);
    write_var_u64(&mut frame, 3);
    write_var_buffer(&mut frame, &[]);
    assert_eq!(decode_message(&frame), Err(ProtocolError::UnknownType));
}

#[test]
fn sync_status_exact_bytes() {
    let frame = encode_message(b"a", &Message::SyncStatus(1));
    assert_eq!(frame, vec![0x01, b'a', 0x08, 0x01]);
}

#[test]
fn message_type_wire_values() {
    let pairs = [
        (MessageType::Sync, 0),
        (MessageType::Awareness, 1),
        (MessageType::Auth, 2),
        (MessageType::QueryAwareness, 3),
        (MessageType::SyncReply, 4),
        (MessageType::Stateless, 5),
        (MessageType::BroadcastStateless, 6),
        (MessageType::Close, 7),
        (MessageType::SyncStatus, 8),
    ];
    for (t, v) in pairs {
        assert_eq!(t.to_u64(), v);
        assert_eq!(MessageType::from_u64(v), Some(t));
    }
    assert_eq!(MessageType::from_u64(9), None);
    assert_eq!(DocMessage::from_u64(0), Some(DocMessage::Step1));
    assert_eq!(DocMessage::from_u64(1), Some(DocMessage::Step2));
    assert_eq!(DocMessage::from_u64(2), Some(DocMessage::Update));
    assert_eq!(DocMessage::from_u64(3), None);
}

#[test]
fn awareness_update_roundtrip() {
    let entries = vec![
        AwarenessEntry { client: 42, clock: 1, payload: b"cursor:5".to_vec() },
        AwarenessEntry { client: 7, clock: 3, payload: b"".to_vec() },
    ];
    let bytes = write_awareness_update(&entries);
    let back = read_awareness_update(&bytes).unwrap();
    assert_eq!(back, entries);
}

#[test]
fn awareness_update_rejects_bad_utf8() {
    // one entry whose payload is not UTF-8
    let bytes = [0x01, 0x01, 0x01, 0x01, 0xFF];
    assert_eq!(read_awareness_update(&bytes), Err(ProtocolError::MalformedFrame));
}

#[test]
fn awareness_update_rejects_truncation() {
    let entries = vec![AwarenessEntry { client: 1, clock: 2, payload: b"x".to_vec() }];
    let mut bytes = write_awareness_update(&entries);
    bytes.pop();
    assert_eq!(read_awareness_update(&bytes), Err(ProtocolError::MalformedFrame));
}
