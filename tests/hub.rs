use watch_party::clients::Outbox;
use watch_party::connection::{ConnState, Connection, Event};
use watch_party::hub::Hub;
use watch_party::messages::{Frame, Message, ProtocolError};
use watch_party::playback::PlaybackState;
use watch_party::rooms::RoomRegistry;

fn state(position_ms: i64, paused: bool, updated_at: u64) -> PlaybackState {
    PlaybackState { position_ms, paused, updated_at }
}

fn queued(hub: &mut Hub, id: u64) -> Vec<Frame> {
    hub.clients.take_frames(id)
}

#[test]
fn end_to_end_watch_session() {
    let mut hub = Hub::new();
    hub.connect(1, "alice".to_string(), 16).unwrap();
    hub.connect(2, "bob".to_string(), 16).unwrap();

    let a = hub.join(1, "Movie  Night\u{0007}").ok().unwrap();
    assert_eq!(a.room, "Movie  Night");
    assert_eq!(a.state, state(0, true, 0));

    let b = hub.join(2, "Movie  Night").ok().unwrap();
    assert_eq!(b.room, "Movie  Night");
    assert_eq!(b.state, state(0, true, 0));
    assert_eq!(hub.rooms.rooms.len(), 1);
    queued(&mut hub, 1);
    queued(&mut hub, 2);

    let unreachable = hub.sync(1, state(42_500, false, 1_000)).ok().unwrap();
    assert!(unreachable.is_empty());
    let got = queued(&mut hub, 2);
    assert_eq!(got.len(), 1);
    match &got[0] {
        Frame::Sync { from, from_name, state: s } => {
            assert_eq!(*from, 1);
            assert_eq!(from_name, "alice");
            assert_eq!(*s, state(42_500, false, 1_000));
        }
        _ => panic!("expected a sync frame"),
    }
    assert!(queued(&mut hub, 1).is_empty());
    assert_eq!(hub.rooms.rooms[0].state, state(42_500, false, 1_000));

    hub.disconnect(1);
    let unreachable = hub.sync(2, state(50_000, false, 2_000)).ok().unwrap();
    assert!(unreachable.is_empty());
    assert_eq!(hub.rooms.rooms[0].members, vec![2]);

    let (left, _) = hub.leave(2);
    assert_eq!(left.unwrap(), "Movie  Night");
    assert!(hub.rooms.rooms.is_empty());
}

#[test]
fn join_existing_room_returns_its_state() {
    let mut hub = Hub::new();
    hub.connect(1, "a".to_string(), 8).unwrap();
    hub.connect(2, "b".to_string(), 8).unwrap();
    hub.join(1, "room").ok().unwrap();
    hub.sync(1, state(7_000, false, 5)).ok().unwrap();
    let b = hub.join(2, "room").ok().unwrap();
    assert_eq!(b.state, state(7_000, false, 5));
}

#[test]
fn join_same_room_twice_is_a_no_op() {
    let mut reg = RoomRegistry::new();
    let (n1, s1) = reg.join("x", 4);
    let (n2, s2) = reg.join("x", 4);
    assert_eq!(n1, n2);
    assert_eq!(s1, s2);
    assert_eq!(reg.rooms.len(), 1);
    assert_eq!(reg.rooms[0].members, vec![4]);
}

#[test]
fn joining_another_room_leaves_the_first() {
    let mut reg = RoomRegistry::new();
    reg.join("one", 4);
    reg.join("two", 4);
    assert_eq!(reg.rooms.len(), 1);
    assert_eq!(reg.rooms[0].name, "two");
}

#[test]
fn last_leave_removes_room_and_resets_state() {
    let mut reg = RoomRegistry::new();
    let (name, _) = reg.join("film", 1);
    assert_eq!(reg.apply_sync(&name, state(9_000, false, 3)), Ok(true));
    assert_eq!(reg.leave(1).unwrap(), "film");
    assert!(reg.find(&name).is_none());
    let (_, s) = reg.join("film", 2);
    assert_eq!(s, state(0, true, 0));
}

#[test]
fn rooms_exist_only_with_members() {
    let mut reg = RoomRegistry::new();
    assert!(reg.rooms.is_empty());
    reg.join("a", 1);
    reg.join("a", 2);
    reg.join("b", 3);
    assert_eq!(reg.rooms.len(), 2);
    reg.leave(1);
    assert_eq!(reg.rooms.len(), 2);
    reg.leave(3);
    assert_eq!(reg.rooms.len(), 1);
    reg.leave(2);
    assert!(reg.rooms.is_empty());
    assert!(reg.leave(2).is_none());
    for r in reg.rooms.iter() {
        assert!(!r.members.is_empty());
    }
}

#[test]
fn last_writer_wins_on_timestamp() {
    let mut reg = RoomRegistry::new();
    let (name, _) = reg.join("r", 1);
    assert_eq!(reg.apply_sync(&name, state(1_000, false, 10)), Ok(true));
    assert_eq!(reg.apply_sync(&name, state(2_000, true, 5)), Ok(false));
    assert_eq!(reg.rooms[0].state, state(1_000, false, 10));
    assert_eq!(reg.apply_sync(&name, state(3_000, true, 10)), Ok(true));
    assert_eq!(reg.rooms[0].state, state(3_000, true, 10));
}

#[test]
fn negative_position_is_refused() {
    let mut hub = Hub::new();
    hub.connect(1, "a".to_string(), 8).unwrap();
    hub.join(1, "r").ok().unwrap();
    assert_eq!(hub.sync(1, state(-1, false, 99)).err(), Some(ProtocolError::NegativePosition));
    assert_eq!(hub.rooms.rooms[0].state, state(0, true, 0));
}

#[test]
fn sync_before_join_is_refused() {
    let mut hub = Hub::new();
    hub.connect(1, "a".to_string(), 8).unwrap();
    assert_eq!(hub.sync(1, state(0, false, 1)).err(), Some(ProtocolError::NotJoined));
    assert_eq!(hub.join(9, "r").err(), Some(ProtocolError::NotConnected));
}

#[test]
fn broadcast_failures_are_isolated() {
    let mut hub = Hub::new();
    hub.connect(1, "a".to_string(), 8).unwrap();
    hub.connect(2, "x".to_string(), 8).unwrap();
    hub.connect(3, "y".to_string(), 8).unwrap();
    hub.connect(4, "z".to_string(), 8).unwrap();
    for id in 1..5 {
        hub.join(id, "r").ok().unwrap();
    }
    for id in 1..5 {
        queued(&mut hub, id);
    }
    let k = hub.clients.find(2).unwrap();
    hub.clients.clients[k].outbox.close();
    let unreachable = hub.sync(1, state(1_000, false, 1)).ok().unwrap();
    assert_eq!(unreachable, vec![2]);
    assert_eq!(queued(&mut hub, 3).len(), 1);
    assert_eq!(queued(&mut hub, 4).len(), 1);
    assert!(queued(&mut hub, 2).is_empty());
}

#[test]
fn full_outbox_is_unreachable() {
    let mut ob = Outbox::new(1);
    assert!(ob.deliver(Frame::Pong).is_ok());
    assert!(ob.deliver(Frame::Pong).is_err());
    assert_eq!(ob.take_frames().len(), 1);
    assert!(ob.deliver(Frame::Pong).is_ok());
}

#[test]
fn duplicate_client_id_is_refused() {
    let mut hub = Hub::new();
    assert!(hub.connect(1, "a".to_string(), 8).is_ok());
    assert!(hub.connect(1, "b".to_string(), 8).is_err());
    assert!(hub.clients.deregister(1));
    assert!(!hub.clients.deregister(1));
}

#[test]
fn members_are_told_of_arrivals_and_departures() {
    let mut hub = Hub::new();
    hub.connect(1, "a".to_string(), 8).unwrap();
    hub.connect(2, "b".to_string(), 8).unwrap();
    hub.join(1, "r").ok().unwrap();
    queued(&mut hub, 1);
    hub.join(2, "r").ok().unwrap();
    let got = queued(&mut hub, 1);
    assert!(matches!(&got[0], Frame::MemberJoined { client: 2, .. }));
    let got = queued(&mut hub, 2);
    assert!(matches!(&got[0], Frame::RoomState { .. }));
    hub.leave(2);
    let got = queued(&mut hub, 1);
    assert!(matches!(&got[0], Frame::MemberLeft { client: 2, .. }));
}

#[test]
fn connection_lifecycle() {
    let mut hub = Hub::new();
    let mut c = Connection::new(1, 8, 1);
    c.step(&mut hub, Event::Verified { name: "a".to_string() });
    assert!(matches!(c.state, ConnState::Authenticated));
    let out = c.step(&mut hub, Event::Inbound { msg: Message::Ping });
    assert_eq!(out.error, Some(ProtocolError::NotJoined));
    assert!(matches!(c.state, ConnState::Authenticated));
    c.step(&mut hub, Event::Inbound { msg: Message::Join { room: " lobby ".to_string() } });
    match &c.state {
        ConnState::Joined { room } => assert_eq!(room, "lobby"),
        _ => panic!("expected joined"),
    }
    c.step(&mut hub, Event::Inbound { msg: Message::Unknown });
    assert!(matches!(c.state, ConnState::Joined { .. }));
    c.step(&mut hub, Event::Inbound { msg: Message::Leave });
    assert!(matches!(c.state, ConnState::Authenticated));
    assert!(hub.rooms.rooms.is_empty());
    c.step(&mut hub, Event::Inbound { msg: Message::Join { room: "lobby".to_string() } });
    c.step(&mut hub, Event::TransportClosed);
    assert!(matches!(c.state, ConnState::Closed));
    assert!(hub.rooms.rooms.is_empty());
    assert!(hub.clients.find(1).is_none());
}

#[test]
fn malformed_frames_close_after_tolerance() {
    let mut hub = Hub::new();
    let mut c = Connection::new(1, 8, 1);
    c.step(&mut hub, Event::Verified { name: "a".to_string() });
    let out = c.step(&mut hub, Event::Malformed);
    assert_eq!(out.error, Some(ProtocolError::Malformed));
    assert!(matches!(c.state, ConnState::Authenticated));
    c.step(&mut hub, Event::Malformed);
    assert!(matches!(c.state, ConnState::Closed));
    assert!(hub.clients.find(1).is_none());
}

#[test]
fn chat_and_ping_are_routed() {
    let mut hub = Hub::new();
    let mut a = Connection::new(1, 8, 0);
    let mut b = Connection::new(2, 8, 0);
    a.step(&mut hub, Event::Verified { name: "ann".to_string() });
    b.step(&mut hub, Event::Verified { name: "ben".to_string() });
    a.step(&mut hub, Event::Inbound { msg: Message::Join { room: "r".to_string() } });
    b.step(&mut hub, Event::Inbound { msg: Message::Join { room: "r".to_string() } });
    queued(&mut hub, 1);
    queued(&mut hub, 2);
    a.step(&mut hub, Event::Inbound { msg: Message::Chat { text: "hi".to_string() } });
    let got = queued(&mut hub, 2);
    match &got[0] {
        Frame::Chat { from, from_name, text } => {
            assert_eq!(*from, 1);
            assert_eq!(from_name, "ann");
            assert_eq!(text, "hi");
        }
        _ => panic!("expected a chat frame"),
    }
    assert!(queued(&mut hub, 1).is_empty());
    b.step(&mut hub, Event::Inbound { msg: Message::Ping });
    assert!(matches!(queued(&mut hub, 2)[0], Frame::Pong));
    let out = b.step(&mut hub, Event::Inbound { msg: Message::Sync { state: state(-5, true, 1) } });
    assert_eq!(out.error, Some(ProtocolError::NegativePosition));
}

#[test]
fn stale_update_is_not_relayed() {
    let mut hub = Hub::new();
    hub.connect(1, "a".to_string(), 8).unwrap();
    hub.connect(2, "b".to_string(), 8).unwrap();
    hub.join(1, "r").ok().unwrap();
    hub.join(2, "r").ok().unwrap();
    hub.sync(1, state(5_000, false, 10)).ok().unwrap();
    queued(&mut hub, 2);
    hub.sync(1, state(1_000, false, 4)).ok().unwrap();
    assert!(queued(&mut hub, 2).is_empty());
    assert_eq!(hub.rooms.rooms[0].state, state(5_000, false, 10));
}
