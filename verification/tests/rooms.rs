use yoctocollab::awareness::{read_awareness_update, write_awareness_update, AwarenessEntry};
use yoctocollab::document::Document;
use yoctocollab::handler::Effect;
use yoctocollab::message::{decode_message, encode_message, Message};
use yoctocollab::message_type::DocMessage;
use yoctocollab::room::{Room, RoomMessage};
use yoctocollab::ProtocolError;

fn make_update(text: &str) -> Vec<u8> {
    let doc = y_octo::Doc::new();
    let mut t = doc.get_or_create_text("content").unwrap();
    t.insert(0, text).unwrap();
    doc.encode_update_v1().unwrap()
}

fn new_room(name: &[u8]) -> Room {
    Room::new(name.to_vec(), y_octo::Doc::default())
}

fn awareness_frame(name: &[u8], entries: &[AwarenessEntry]) -> Vec<u8> {
    let update = write_awareness_update(&entries.to_vec());
    encode_message(name, &Message::Awareness(update))
}

#[test]
fn s1_handshake_step1_reply() {
    let mut room = new_room(b"default");
    assert!(room.handle_message(RoomMessage::Join(1)).is_empty());

    // an empty state vector encodes as a single zero byte
    let frame = encode_message(b"default", &Message::Sync(DocMessage::Step1, vec![0x00]));
    let effects = room.handle_message(RoomMessage::Message(1, frame));
    assert_eq!(effects.len(), 2);

    match &effects[0] {
        Effect::Unicast(cid, bytes) => {
            assert_eq!(*cid, 1);
            let (name, msg) = decode_message(bytes).unwrap();
            assert_eq!(name, b"default".to_vec());
            // the server's state vector of a fresh document is empty
            assert_eq!(msg, Message::Sync(DocMessage::Step1, vec![0x00]));
        },
        other => panic!("expected a unicast, got {:?}", other),
    }
    match &effects[1] {
        Effect::Unicast(cid, bytes) => {
            assert_eq!(*cid, 1);
            let (name, msg) = decode_message(bytes).unwrap();
            assert_eq!(name, b"default".to_vec());
            assert!(matches!(msg, Message::Sync(DocMessage::Step2, _)));
        },
        other => panic!("expected a unicast, got {:?}", other),
    }
}

#[test]
fn s2_solo_update_echoes_step2_then_status() {
    let mut room = new_room(b"default");
    room.handle_message(RoomMessage::Join(1));

    let update = make_update("hello");
    let frame = encode_message(b"default", &Message::Sync(DocMessage::Update, update.clone()));
    let effects = room.handle_message(RoomMessage::Message(1, frame));
    assert_eq!(effects.len(), 2);

    match &effects[0] {
        Effect::Broadcast(bytes) => {
            let (name, msg) = decode_message(bytes).unwrap();
            assert_eq!(name, b"default".to_vec());
            assert_eq!(msg, Message::Sync(DocMessage::Step2, update.clone()));
        },
        other => panic!("expected a broadcast, got {:?}", other),
    }
    match &effects[1] {
        Effect::Unicast(cid, bytes) => {
            assert_eq!(*cid, 1);
            let (_, msg) = decode_message(bytes).unwrap();
            assert_eq!(msg, Message::SyncStatus(1));
        },
        other => panic!("expected a unicast, got {:?}", other),
    }
}

#[test]
fn s3_two_peer_fan_out() {
    let mut room = new_room(b"default");
    room.handle_message(RoomMessage::Join(1));
    room.handle_message(RoomMessage::Join(2));

    let update = make_update("shared edit");
    let frame = encode_message(b"default", &Message::Sync(DocMessage::Update, update.clone()));
    let effects = room.handle_message(RoomMessage::Message(1, frame));

    // the broadcast reaches every peer, including the origin; the saved
    // acknowledgement goes to the origin alone
    assert_eq!(effects.len(), 2);
    assert!(matches!(&effects[0], Effect::Broadcast(_)));
    match &effects[1] {
        Effect::Unicast(cid, bytes) => {
            assert_eq!(*cid, 1);
            let (_, msg) = decode_message(bytes).unwrap();
            assert_eq!(msg, Message::SyncStatus(1));
        },
        other => panic!("expected a unicast, got {:?}", other),
    }
}

#[test]
fn s4_awareness_reaches_later_joiner_first() {
    let mut room = new_room(b"default");
    room.handle_message(RoomMessage::Join(1));

    let entries = vec![AwarenessEntry { client: 42, clock: 1, payload: b"cursor:5".to_vec() }];
    let effects = room.handle_message(RoomMessage::Message(1, awareness_frame(b"default", &entries)));
    assert_eq!(effects.len(), 1);
    match &effects[0] {
        Effect::Broadcast(bytes) => {
            let (_, msg) = decode_message(bytes).unwrap();
            match msg {
                Message::Awareness(update) => {
                    assert_eq!(read_awareness_update(&update).unwrap(), entries);
                },
                other => panic!("expected awareness, got {:?}", other),
            }
        },
        other => panic!("expected a broadcast, got {:?}", other),
    }

    // the next joiner's very first frame lists the current states
    let join_effects = room.handle_message(RoomMessage::Join(2));
    assert_eq!(join_effects.len(), 1);
    match &join_effects[0] {
        Effect::Unicast(cid, bytes) => {
            assert_eq!(*cid, 2);
            let (name, msg) = decode_message(bytes).unwrap();
            assert_eq!(name, b"default".to_vec());
            match msg {
                Message::Awareness(update) => {
                    assert_eq!(read_awareness_update(&update).unwrap(), entries);
                },
                other => panic!("expected awareness, got {:?}", other),
            }
        },
        other => panic!("expected a unicast, got {:?}", other),
    }
}

#[test]
fn s5_close_detaches_origin_only() {
    let mut room = new_room(b"default");
    room.handle_message(RoomMessage::Join(1));
    room.handle_message(RoomMessage::Join(2));

    let frame = encode_message(b"default", &Message::Close);
    let effects = room.handle_message(RoomMessage::Message(1, frame));
    assert_eq!(effects, vec![Effect::Close(1)]);

    // a later frame from the closed peer is dropped silently
    let update = make_update("after close");
    let frame = encode_message(b"default", &Message::Sync(DocMessage::Update, update));
    let effects = room.handle_message(RoomMessage::Message(1, frame));
    assert!(effects.is_empty());

    // the other peer still gets service
    let frame = encode_message(b"default", &Message::Sync(DocMessage::Step1, vec![0x00]));
    let effects = room.handle_message(RoomMessage::Message(2, frame));
    assert_eq!(effects.len(), 2);
    assert!(!room.is_empty());
}

#[test]
fn name_mismatch_detaches_only_offender() {
    let mut room = new_room(b"default");
    room.handle_message(RoomMessage::Join(1));
    room.handle_message(RoomMessage::Join(2));

    let frame = encode_message(b"other", &Message::Close);
    let effects = room.handle_message(RoomMessage::Message(1, frame));
    assert_eq!(effects, vec![Effect::Close(1)]);

    // the other peer remains attached and served
    let frame = encode_message(b"default", &Message::Sync(DocMessage::Step1, vec![0x00]));
    let effects = room.handle_message(RoomMessage::Message(2, frame));
    assert_eq!(effects.len(), 2);
    assert!(!room.is_empty());
}

#[test]
fn malformed_frame_detaches_only_offender() {
    let mut room = new_room(b"default");
    room.handle_message(RoomMessage::Join(1));
    room.handle_message(RoomMessage::Join(2));

    let effects = room.handle_message(RoomMessage::Message(1, vec![0x05, 0x01]));
    assert_eq!(effects, vec![Effect::Close(1)]);
    assert!(!room.is_empty());
}

#[test]
fn query_awareness_on_empty_map_is_silent() {
    let mut room = new_room(b"default");
    room.handle_message(RoomMessage::Join(1));
    let frame = encode_message(b"default", &Message::QueryAwareness);
    let effects = room.handle_message(RoomMessage::Message(1, frame));
    assert!(effects.is_empty());
}

#[test]
fn ignored_message_types_have_no_effect() {
    let mut room = new_room(b"default");
    room.handle_message(RoomMessage::Join(1));
    for msg in [
        Message::Auth(vec![1, 2]),
        Message::Stateless(vec![3]),
        Message::BroadcastStateless(vec![4]),
        Message::SyncStatus(1),
    ] {
        let frame = encode_message(b"default", &msg);
        let effects = room.handle_message(RoomMessage::Message(1, frame));
        assert!(effects.is_empty(), "unexpected effects for {:?}", msg);
    }
    assert!(!room.is_empty());
}

#[test]
fn document_reports_name_mismatch() {
    let mut document = Document::new(b"default".to_vec(), y_octo::Doc::default());
    document.connect(1);
    let frame = encode_message(b"elsewhere", &Message::Close);
    assert_eq!(
        document.handle_message(1, &frame),
        Err(ProtocolError::NameMismatch)
    );
}

#[test]
fn document_reports_crdt_apply_failure() {
    let mut document = Document::new(b"default".to_vec(), y_octo::Doc::default());
    document.connect(1);
    let frame = encode_message(
        b"default",
        &Message::Sync(DocMessage::Update, vec![0xde, 0xad, 0xbe, 0xef]),
    );
    assert_eq!(
        document.handle_message(1, &frame),
        Err(ProtocolError::CrdtApplyFailure)
    );
}

#[test]
fn update_broadcasts_precede_later_commands() {
    // causal order: the effects of an earlier update are emitted, and so
    // enqueued, before a later update is handled at all
    let mut room = new_room(b"default");
    room.handle_message(RoomMessage::Join(1));
    room.handle_message(RoomMessage::Join(2));

    let first = make_update("first");
    let second = make_update("second");
    let frame1 = encode_message(b"default", &Message::Sync(DocMessage::Update, first.clone()));
    let frame2 = encode_message(b"default", &Message::Sync(DocMessage::Update, second.clone()));
    let es1 = room.handle_message(RoomMessage::Message(1, frame1));
    let es2 = room.handle_message(RoomMessage::Message(2, frame2));

    let mut broadcasts = Vec::new();
    for e in es1.iter().chain(es2.iter()) {
        if let Effect::Broadcast(bytes) = e {
            let (_, msg) = decode_message(bytes).unwrap();
            broadcasts.push(msg);
        }
    }
    assert_eq!(
        broadcasts,
        vec![
            Message::Sync(DocMessage::Step2, first),
            Message::Sync(DocMessage::Step2, second),
        ]
    );
}

#[test]
fn sync_reply_update_acts_like_sync_update() {
    let mut room = new_room(b"default");
    room.handle_message(RoomMessage::Join(1));

    let update = make_update("via reply");
    let frame = encode_message(b"default", &Message::SyncReply(DocMessage::Step2, update.clone()));
    let effects = room.handle_message(RoomMessage::Message(1, frame));
    assert_eq!(effects.len(), 2);
    match &effects[0] {
        Effect::Broadcast(bytes) => {
            let (_, msg) = decode_message(bytes).unwrap();
            assert_eq!(msg, Message::Sync(DocMessage::Step2, update));
        },
        other => panic!("expected a broadcast, got {:?}", other),
    }
}

#[test]
fn step1_with_nonempty_state_vector_is_served() {
    // a state vector naming a clock inside an existing block: the reply is
    // the full document update, never a partial-diff failure
    let mut room = new_room(b"default");
    room.handle_message(RoomMessage::Join(1));
    let update = make_update("some content");
    let frame = encode_message(b"default", &Message::Sync(DocMessage::Update, update));
    room.handle_message(RoomMessage::Message(1, frame));

    // one client (id 7) at clock 2
    let sv = vec![0x01, 0x07, 0x02];
    let frame = encode_message(b"default", &Message::Sync(DocMessage::Step1, sv));
    let effects = room.handle_message(RoomMessage::Message(1, frame));
    assert_eq!(effects.len(), 2);
    assert!(matches!(&effects[0], Effect::Unicast(1, _)));
    assert!(matches!(&effects[1], Effect::Unicast(1, _)));
}

#[test]
fn step1_with_malformed_state_vector_detaches_sender() {
    let mut room = new_room(b"default");
    room.handle_message(RoomMessage::Join(1));
    room.handle_message(RoomMessage::Join(2));
    // claims two pairs but holds only one byte after the count
    let sv = vec![0x02, 0x05];
    let frame = encode_message(b"default", &Message::Sync(DocMessage::Step1, sv));
    let effects = room.handle_message(RoomMessage::Message(1, frame));
    assert_eq!(effects, vec![Effect::Close(1)]);
    assert!(!room.is_empty());
}

#[test]
fn awareness_for_local_client_at_maximum_clock_is_refused() {
    // the room's own placeholder client (id zero) takes a clock-bump path
    // in the library; the largest clock would overflow it and is refused
    let mut room = new_room(b"default");
    room.handle_message(RoomMessage::Join(1));
    room.handle_message(RoomMessage::Join(2));
    let entries = vec![AwarenessEntry { client: 0, clock: u64::MAX, payload: b"x".to_vec() }];
    let effects = room.handle_message(RoomMessage::Message(1, awareness_frame(b"default", &entries)));
    assert_eq!(effects, vec![Effect::Close(1)]);
    assert!(!room.is_empty());

    // a bounded clock for the same client is applied and broadcast
    let entries = vec![AwarenessEntry { client: 0, clock: 5, payload: b"y".to_vec() }];
    let effects = room.handle_message(RoomMessage::Message(2, awareness_frame(b"default", &entries)));
    assert_eq!(effects.len(), 1);
    assert!(matches!(&effects[0], Effect::Broadcast(_)));
}

#[test]
fn stale_awareness_update_is_silent() {
    let mut room = new_room(b"default");
    room.handle_message(RoomMessage::Join(1));
    let entries = vec![AwarenessEntry { client: 42, clock: 7, payload: b"a".to_vec() }];
    room.handle_message(RoomMessage::Message(1, awareness_frame(b"default", &entries)));
    // the same client at an older clock changes nothing and emits nothing
    let stale = vec![AwarenessEntry { client: 42, clock: 3, payload: b"b".to_vec() }];
    let effects = room.handle_message(RoomMessage::Message(1, awareness_frame(b"default", &stale)));
    assert!(effects.is_empty());
}
