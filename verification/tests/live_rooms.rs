use whiteboarder::data::{Board, Point, Stroke};
use whiteboarder::rooms::{RecvOutcome, RoomRegistry, RoomState, BROADCAST_CAPACITY};
use whiteboarder::store::{board_store_key, board_update_message, channel_for_board, publish_board_update};

fn recv_text(sub: &mut whiteboarder::rooms::Subscriber, reg: &RoomRegistry) -> Option<String> {
    match sub.recv(reg) {
        RecvOutcome::Message(m) => Some(m),
        _ => None,
    }
}

#[test]
fn fresh_room_state_is_empty() {
    let room = RoomState::new();
    assert_eq!(room.user_count(), 0);
    assert_eq!(room.log_len(), 0);
    assert!(!room.contains_user(&"anyone".to_string()));
}

#[test]
fn peers_receive_each_others_messages_in_order() {
    let mut reg = RoomRegistry::new();
    let mut alice = reg.join("c".to_string(), "alice".to_string());
    let mut bob = reg.join("c".to_string(), "bob".to_string());

    reg.publish(&"c".to_string(), "from alice".to_string());
    reg.publish(&"c".to_string(), "from bob".to_string());

    assert_eq!(recv_text(&mut alice, &reg).as_deref(), Some("from alice"));
    assert_eq!(recv_text(&mut alice, &reg).as_deref(), Some("from bob"));
    assert!(matches!(alice.recv(&reg), RecvOutcome::Pending));

    assert_eq!(recv_text(&mut bob, &reg).as_deref(), Some("from alice"));
    assert_eq!(recv_text(&mut bob, &reg).as_deref(), Some("from bob"));
    assert!(matches!(bob.recv(&reg), RecvOutcome::Pending));
}

#[test]
fn subscription_starts_at_now_without_replay() {
    let mut reg = RoomRegistry::new();
    let _alice = reg.join("c".to_string(), "alice".to_string());
    reg.publish(&"c".to_string(), "early".to_string());
    let mut late = reg.join("c".to_string(), "late".to_string());
    assert!(matches!(late.recv(&reg), RecvOutcome::Pending));
    reg.publish(&"c".to_string(), "after".to_string());
    assert_eq!(recv_text(&mut late, &reg).as_deref(), Some("after"));
}

#[test]
fn leaving_removes_user_and_last_leave_removes_room() {
    let mut reg = RoomRegistry::new();
    let c = "c".to_string();
    let _a = reg.join(c.clone(), "alice".to_string());
    let _b = reg.join(c.clone(), "bob".to_string());
    assert_eq!(reg.room_user_count(&c), Some(2));

    reg.leave(&c, &"alice".to_string());
    assert!(reg.has_room(&c));
    assert!(!reg.room_has_user(&c, &"alice".to_string()));
    assert!(reg.room_has_user(&c, &"bob".to_string()));
    assert_eq!(reg.room_user_count(&c), Some(1));

    reg.leave(&c, &"bob".to_string());
    assert!(!reg.has_room(&c));
    assert_eq!(reg.room_count(), 0);
}

#[test]
fn join_leave_interleavings_keep_registry_tidy() {
    let mut reg = RoomRegistry::new();
    let c = "c".to_string();
    let d = "d".to_string();

    let _s1 = reg.join(c.clone(), "alice".to_string());
    let _s2 = reg.join(c.clone(), "alice".to_string());
    assert_eq!(reg.room_count(), 1, "one room per channel name");
    assert_eq!(reg.room_user_count(&c), Some(1), "usernames are unique per room");

    let _s3 = reg.join(d.clone(), "bob".to_string());
    let _s4 = reg.join(c.clone(), "carol".to_string());
    assert_eq!(reg.room_count(), 2);

    reg.leave(&c, &"alice".to_string());
    reg.leave(&c, &"carol".to_string());
    assert!(!reg.has_room(&c), "an emptied room does not survive");
    assert_eq!(reg.room_user_count(&d), Some(1));
    assert_ne!(reg.room_user_count(&d), Some(0), "no live room with an empty user set");
    assert_eq!(reg.room_count(), 1);

    reg.leave(&d, &"bob".to_string());
    assert_eq!(reg.room_count(), 0);
}

#[test]
fn leave_of_absent_user_or_room_is_a_no_op() {
    let mut reg = RoomRegistry::new();
    reg.leave(&"ghost".to_string(), &"nobody".to_string());
    assert_eq!(reg.room_count(), 0);

    let c = "c".to_string();
    let _s = reg.join(c.clone(), "alice".to_string());
    reg.leave(&c, &"nobody".to_string());
    assert!(reg.room_has_user(&c, &"alice".to_string()));
}

#[test]
fn publish_without_room_is_dropped() {
    let mut reg = RoomRegistry::new();
    reg.publish(&"nowhere".to_string(), "lost".to_string());
    assert!(!reg.has_room(&"nowhere".to_string()));
    assert_eq!(reg.room_count(), 0);
}

#[test]
fn slow_subscriber_lags_and_resumes() {
    let mut reg = RoomRegistry::new();
    let c = "c".to_string();
    let mut sub = reg.join(c.clone(), "slow".to_string());
    let total = BROADCAST_CAPACITY + 3;
    for i in 0..total {
        reg.publish(&c, format!("m{}", i));
    }
    assert!(matches!(sub.recv(&reg), RecvOutcome::Lagged));
    assert_eq!(recv_text(&mut sub, &reg), Some("m3".to_string()));
    assert_eq!(recv_text(&mut sub, &reg), Some("m4".to_string()));
}

#[test]
fn subscriber_of_deleted_room_is_closed() {
    let mut reg = RoomRegistry::new();
    let c = "c".to_string();
    let mut sub = reg.join(c.clone(), "alice".to_string());
    reg.leave(&c, &"alice".to_string());
    assert!(matches!(sub.recv(&reg), RecvOutcome::Closed));
}

#[test]
fn store_keys_and_channels() {
    assert_eq!(board_store_key("b1"), "board/b1");
    assert_eq!(channel_for_board("b1"), "boards/b1");
}

#[test]
fn board_updates_reach_live_viewers() {
    let board = Board {
        id: "b9".to_string(),
        strokes: vec![Stroke {
            timestamp: 7,
            color: "#fff".to_string(),
            size: 1,
            points: vec![Point { x: 0, y: 0 }],
        }],
    };
    let channel = channel_for_board("b9");
    let mut reg = RoomRegistry::new();
    let mut viewer = reg.join(channel.clone(), "viewer".to_string());

    publish_board_update(&mut reg, "b9", &board);

    let expected = board_update_message(&channel, &board);
    assert!(expected.starts_with("{\"messagetype\":\"board\",\"channel\":\"boards/b9\",\"payload\":{\"id\":\"b9\","));
    assert_eq!(recv_text(&mut viewer, &reg), Some(expected));
}

#[test]
fn board_update_without_viewers_is_not_buffered() {
    let board = Board::new("b2".to_string());
    let mut reg = RoomRegistry::new();
    publish_board_update(&mut reg, "b2", &board);
    assert_eq!(reg.room_count(), 0);
}
