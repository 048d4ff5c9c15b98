use whiteboarder::rooms::{RecvOutcome, RoomRegistry};
use whiteboarder::session::{Session, SessionAction, SessionEvent, SessionPhase};

#[test]
fn handshake_then_relay_then_teardown() {
    let mut s = Session::new();
    assert_eq!(s.phase(), SessionPhase::Connecting);

    let act = s.step(SessionEvent::TextFrame(
        "{\"username\":\"alice\",\"channel\":\"c\"}".to_string(),
    ));
    match act {
        SessionAction::Join(channel, username) => {
            assert_eq!(channel, "c");
            assert_eq!(username, "alice");
        },
        _ => panic!("expected a join action"),
    }
    assert_eq!(s.phase(), SessionPhase::Joined);
    assert_eq!(s.username(), "alice");
    assert_eq!(s.channel(), "c");

    assert!(matches!(s.step(SessionEvent::JoinCompleted), SessionAction::Idle));
    assert_eq!(s.phase(), SessionPhase::Relaying);

    match s.step(SessionEvent::TextFrame("raw client frame".to_string())) {
        SessionAction::Publish(p) => assert_eq!(p, "raw client frame"),
        _ => panic!("a relayed frame is published verbatim"),
    }
    match s.step(SessionEvent::Delivery("room says hi".to_string())) {
        SessionAction::Forward(f) => assert_eq!(f, "room says hi"),
        _ => panic!("a delivery is forwarded to the client"),
    }
    assert!(matches!(s.step(SessionEvent::DeliveryLagged), SessionAction::Idle));
    assert_eq!(s.phase(), SessionPhase::Relaying, "lag is non-fatal");

    match s.step(SessionEvent::SocketClosed) {
        SessionAction::FinishSession(notice) => {
            assert_eq!(
                notice,
                "{\"messagetype\":\"userleft\",\"channel\":\"c\",\"payload\":\"alice\"}"
            );
        },
        _ => panic!("teardown publishes the userleft notice first"),
    }
    assert_eq!(s.phase(), SessionPhase::Closing);

    assert!(matches!(s.step(SessionEvent::LeaveCompleted), SessionAction::Idle));
    assert_eq!(s.phase(), SessionPhase::Left);
}

#[test]
fn failed_handshake_sends_error_and_never_joins() {
    let mut s = Session::new();
    match s.step(SessionEvent::TextFrame("not a handshake".to_string())) {
        SessionAction::SendError(e) => assert_eq!(e, "Failed to connect to room!"),
        _ => panic!("expected the error frame"),
    }
    assert_eq!(s.phase(), SessionPhase::Left);
    assert!(matches!(s.step(SessionEvent::SocketClosed), SessionAction::Idle));
    assert_eq!(s.phase(), SessionPhase::Left);
}

#[test]
fn silent_disconnect_before_handshake_leaves_quietly() {
    let mut s = Session::new();
    assert!(matches!(s.step(SessionEvent::SocketClosed), SessionAction::Idle));
    assert_eq!(s.phase(), SessionPhase::Left);
}

#[test]
fn non_text_first_frame_aborts() {
    let mut s = Session::new();
    assert!(matches!(s.step(SessionEvent::NonTextFrame), SessionAction::Idle));
    assert_eq!(s.phase(), SessionPhase::Left);
}

#[test]
fn send_failure_during_relay_triggers_teardown() {
    let mut s = Session::new();
    s.step(SessionEvent::TextFrame("{\"username\":\"u\",\"channel\":\"ch\"}".to_string()));
    s.step(SessionEvent::JoinCompleted);
    match s.step(SessionEvent::SendFailed) {
        SessionAction::FinishSession(notice) => {
            assert_eq!(
                notice,
                "{\"messagetype\":\"userleft\",\"channel\":\"ch\",\"payload\":\"u\"}"
            );
        },
        _ => panic!("expected teardown"),
    }
    assert_eq!(s.phase(), SessionPhase::Closing);
}

#[test]
fn session_drives_registry_end_to_end() {
    let mut reg = RoomRegistry::new();
    let mut s = Session::new();

    let (channel, username) = match s.step(SessionEvent::TextFrame(
        "{\"username\":\"alice\",\"channel\":\"boards/b1\"}".to_string(),
    )) {
        SessionAction::Join(c, u) => (c, u),
        _ => panic!("expected a join action"),
    };
    let mut sub = reg.join(channel.clone(), username.clone());
    s.step(SessionEvent::JoinCompleted);

    let mut peer = reg.join(channel.clone(), "bob".to_string());

    match s.step(SessionEvent::TextFrame("hello from alice".to_string())) {
        SessionAction::Publish(p) => reg.publish(&channel, p),
        _ => panic!("expected a publish action"),
    }
    match peer.recv(&reg) {
        RecvOutcome::Message(m) => assert_eq!(m, "hello from alice"),
        _ => panic!("peer should see the relayed frame"),
    }

    match s.step(SessionEvent::SocketClosed) {
        SessionAction::FinishSession(notice) => {
            reg.publish(&channel, notice.clone());
            reg.leave(&channel, &username);
            match peer.recv(&reg) {
                RecvOutcome::Message(m) => assert_eq!(m, notice),
                _ => panic!("peer should see the userleft notice"),
            }
        },
        _ => panic!("expected teardown"),
    }
    s.step(SessionEvent::LeaveCompleted);
    assert_eq!(s.phase(), SessionPhase::Left);

    assert!(!reg.room_has_user(&channel, &username));
    assert!(reg.room_has_user(&channel, &"bob".to_string()));

    let _ = sub.recv(&reg);
}

#[test]
fn unknown_frames_relay_to_peers_verbatim() {
    let raw = "{\"messagetype\":\"zzz\",\"channel\":\"c1\",\"payload\":{\"foo\":1}}";
    let decoded = whiteboarder::protocol::decode_message(raw).unwrap();
    let forwarded = whiteboarder::protocol::encode_message(&decoded);

    let mut reg = RoomRegistry::new();
    let channel = "c1".to_string();
    let _pub_side = reg.join(channel.clone(), "sender".to_string());
    let mut sub = reg.join(channel.clone(), "receiver".to_string());
    reg.publish(&channel, forwarded);
    match sub.recv(&reg) {
        RecvOutcome::Message(m) => assert_eq!(m, raw),
        _ => panic!("the opaque frame should arrive unchanged"),
    }
}

#[test]
fn deliveries_outside_relay_are_ignored() {
    let mut s = Session::new();
    s.step(SessionEvent::TextFrame("{\"username\":\"u\",\"channel\":\"c\"}".to_string()));
    assert_eq!(s.phase(), SessionPhase::Joined);
    assert!(matches!(s.step(SessionEvent::Delivery("early".to_string())), SessionAction::Idle));
    assert_eq!(s.phase(), SessionPhase::Joined);
}

