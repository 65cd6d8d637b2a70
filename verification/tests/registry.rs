use yoctocollab::awareness::{read_awareness_update, write_awareness_update, AwarenessEntry};
use yoctocollab::handler::Effect;
use yoctocollab::message::{decode_message, encode_message, Message};
use yoctocollab::server::Server;
use yoctocollab::snowflake::Error;
use yoctocollab::ProtocolError;

fn close_frame(name: &[u8]) -> Vec<u8> {
    encode_message(name, &Message::Close)
}

#[test]
fn server_rejects_machine_id_out_of_range() {
    assert!(matches!(Server::new(1024), Err(Error::ExceededMaximumLimit)));
    assert!(Server::new(1023).is_ok());
}

#[test]
fn server_hands_out_increasing_connection_ids() {
    let mut server = Server::new(1).unwrap();
    let a = server.next_connection_id().unwrap();
    let b = server.next_connection_id().unwrap();
    assert!(b > a);
}

#[test]
fn first_join_creates_one_room_for_all() {
    let mut server = Server::new(0).unwrap();
    assert!(!server.has_room(&b"default".to_vec()));
    server.enter_room(&b"default".to_vec(), 1);
    server.enter_room(&b"default".to_vec(), 2);
    server.enter_room(&b"default".to_vec(), 3);
    assert!(server.has_room(&b"default".to_vec()));

    // all three became members: each can be served
    let frame = encode_message(b"default", &Message::QueryAwareness);
    for cid in [1, 2, 3] {
        let effects = server.handle_frame(&b"default".to_vec(), cid, frame.clone());
        assert!(effects.is_empty());
    }
    // the room survives until the last of them leaves
    server.leave_room(&b"default".to_vec(), 1);
    server.leave_room(&b"default".to_vec(), 2);
    assert!(server.has_room(&b"default".to_vec()));
    server.leave_room(&b"default".to_vec(), 3);
    assert!(!server.has_room(&b"default".to_vec()));
}

#[test]
fn s6_room_recycles_after_last_leave() {
    let mut server = Server::new(0).unwrap();
    server.enter_room(&b"r1".to_vec(), 1);
    assert!(server.has_room(&b"r1".to_vec()));
    server.leave_room(&b"r1".to_vec(), 1);
    assert!(!server.has_room(&b"r1".to_vec()));
    let effects = server.enter_room(&b"r1".to_vec(), 1);
    assert!(server.has_room(&b"r1".to_vec()));
    // the fresh room has an empty document and awareness map
    assert!(effects.is_empty());
}

#[test]
fn close_frame_destroys_room_of_last_peer() {
    let mut server = Server::new(0).unwrap();
    server.enter_room(&b"r1".to_vec(), 7);
    let effects = server.handle_frame(&b"r1".to_vec(), 7, close_frame(b"r1"));
    assert_eq!(effects, vec![Effect::Close(7)]);
    assert!(!server.has_room(&b"r1".to_vec()));
}

#[test]
fn recycled_room_forgets_awareness() {
    let mut server = Server::new(0).unwrap();
    server.enter_room(&b"r1".to_vec(), 1);
    let entries = vec![AwarenessEntry { client: 9, clock: 1, payload: b"here".to_vec() }];
    let update = write_awareness_update(&entries);
    let frame = encode_message(b"r1", &Message::Awareness(update));
    let effects = server.handle_frame(&b"r1".to_vec(), 1, frame);
    assert_eq!(effects.len(), 1);

    // a second joiner is greeted with the state
    let greet = server.enter_room(&b"r1".to_vec(), 2);
    assert_eq!(greet.len(), 1);
    match &greet[0] {
        Effect::Unicast(cid, bytes) => {
            assert_eq!(*cid, 2);
            let (_, msg) = decode_message(bytes).unwrap();
            match msg {
                Message::Awareness(u) => assert_eq!(read_awareness_update(&u).unwrap(), entries),
                other => panic!("expected awareness, got {:?}", other),
            }
        },
        other => panic!("expected a unicast, got {:?}", other),
    }

    // after everyone leaves, a new room starts clean
    server.leave_room(&b"r1".to_vec(), 1);
    server.leave_room(&b"r1".to_vec(), 2);
    let effects = server.enter_room(&b"r1".to_vec(), 3);
    assert!(effects.is_empty());
}

#[test]
fn frame_for_absent_room_is_dropped() {
    let mut server = Server::new(0).unwrap();
    let effects = server.handle_frame(&b"nowhere".to_vec(), 1, close_frame(b"nowhere"));
    assert!(effects.is_empty());
    assert!(!server.has_room(&b"nowhere".to_vec()));
}

#[test]
fn rooms_are_isolated_by_name() {
    let mut server = Server::new(0).unwrap();
    server.enter_room(&b"a".to_vec(), 1);
    server.enter_room(&b"b".to_vec(), 2);
    assert!(server.has_room(&b"a".to_vec()));
    assert!(server.has_room(&b"b".to_vec()));
    server.leave_room(&b"a".to_vec(), 1);
    assert!(!server.has_room(&b"a".to_vec()));
    assert!(server.has_room(&b"b".to_vec()));
}

#[test]
fn bad_frame_costs_only_the_offender() {
    let mut server = Server::new(0).unwrap();
    server.enter_room(&b"r".to_vec(), 1);
    server.enter_room(&b"r".to_vec(), 2);
    // a frame whose embedded name is wrong detaches its sender only
    let effects = server.handle_frame(&b"r".to_vec(), 1, close_frame(b"s"));
    assert_eq!(effects, vec![Effect::Close(1)]);
    assert!(server.has_room(&b"r".to_vec()));
    // the survivor still holds the room open
    server.leave_room(&b"r".to_vec(), 2);
    assert!(!server.has_room(&b"r".to_vec()));
}

#[test]
fn protocol_error_kinds_are_distinct() {
    assert_ne!(ProtocolError::MalformedFrame, ProtocolError::UnknownType);
    assert_ne!(ProtocolError::NameMismatch, ProtocolError::CrdtApplyFailure);
}
