use whiteboarder::data::{Board, CursorPayload, Point, Stroke, WebSocketMessage, WebSocketPayload};
use whiteboarder::protocol::{decode_board, decode_handshake, decode_message, encode_board, encode_message};

fn example_board() -> Board {
    Board {
        id: "b1".to_string(),
        strokes: vec![Stroke {
            timestamp: 1,
            color: "#000".to_string(),
            size: 2,
            points: vec![Point { x: 10, y: 10 }, Point { x: 20, y: 30 }],
        }],
    }
}

#[test]
fn board_encodes_to_exact_json() {
    assert_eq!(
        encode_board(&example_board()),
        "{\"id\":\"b1\",\"strokes\":[{\"timestamp\":1,\"color\":\"#000\",\"size\":2,\
         \"points\":[{\"x\":10,\"y\":10},{\"x\":20,\"y\":30}]}]}"
    );
}

#[test]
fn board_round_trips_through_store_encoding() {
    let b = example_board();
    let decoded = decode_board(&encode_board(&b)).expect("canonical board text must decode");
    assert_eq!(decoded.id, b.id);
    assert_eq!(decoded.strokes.len(), 1);
    assert_eq!(decoded.strokes[0].timestamp, 1);
    assert_eq!(decoded.strokes[0].color, "#000");
    assert_eq!(decoded.strokes[0].size, 2);
    assert_eq!(decoded.strokes[0].points, vec![Point { x: 10, y: 10 }, Point { x: 20, y: 30 }]);
}

#[test]
fn board_decode_rejects_malformed_snapshots() {
    assert!(decode_board("{").is_none());
    assert!(decode_board("42").is_none());
    assert!(decode_board("{\"id\":\"b\"}").is_none());
    assert!(decode_board("{\"id\":\"b\",\"strokes\":7}").is_none());
    assert!(decode_board("{\"id\":\"b\",\"strokes\":[{\"timestamp\":1}]}").is_none());
}

#[test]
fn handshake_decodes() {
    let hs = decode_handshake("{\"username\":\"alice\",\"channel\":\"c1\"}").unwrap();
    assert_eq!(hs.username, "alice");
    assert_eq!(hs.channel, "c1");
}

#[test]
fn handshake_tolerates_extra_fields() {
    let hs = decode_handshake("{\"channel\":\"c\",\"username\":\"u\",\"v\":3}").unwrap();
    assert_eq!(hs.username, "u");
    assert_eq!(hs.channel, "c");
}

#[test]
fn handshake_rejects_bad_frames() {
    assert!(decode_handshake("nope").is_none());
    assert!(decode_handshake("{\"username\":\"alice\"}").is_none());
    assert!(decode_handshake("{\"username\":7,\"channel\":\"c\"}").is_none());
    assert!(decode_handshake("[1,2]").is_none());
}

#[test]
fn cursor_message_round_trips() {
    let msg = WebSocketMessage {
        messagetype: "cursor".to_string(),
        channel: "c1".to_string(),
        payload: WebSocketPayload::Cursor(CursorPayload::new("al".to_string(), 3, -4)),
    };
    let text = encode_message(&msg);
    assert_eq!(
        text,
        "{\"messagetype\":\"cursor\",\"channel\":\"c1\",\
         \"payload\":{\"username\":\"al\",\"x\":3,\"y\":-4}}"
    );
    let back = decode_message(&text).unwrap();
    assert_eq!(back.messagetype, "cursor");
    assert_eq!(back.channel, "c1");
    match back.payload {
        WebSocketPayload::Cursor(c) => {
            assert_eq!(c.username(), "al");
            assert_eq!(c.x(), 3);
            assert_eq!(c.y(), -4);
        },
        _ => panic!("expected a cursor payload"),
    }
}

#[test]
fn board_message_round_trips() {
    let msg = WebSocketMessage {
        messagetype: "board".to_string(),
        channel: "boards/b1".to_string(),
        payload: WebSocketPayload::BoardUpdate(example_board()),
    };
    let back = decode_message(&encode_message(&msg)).unwrap();
    match back.payload {
        WebSocketPayload::BoardUpdate(b) => {
            assert_eq!(b.id, "b1");
            assert_eq!(b.strokes[0].points.len(), 2);
        },
        _ => panic!("expected a board payload"),
    }
}

#[test]
fn userleft_message_encodes_exactly() {
    let msg = WebSocketMessage {
        messagetype: "userleft".to_string(),
        channel: "c".to_string(),
        payload: WebSocketPayload::UserLeft("alice".to_string()),
    };
    assert_eq!(
        encode_message(&msg),
        "{\"messagetype\":\"userleft\",\"channel\":\"c\",\"payload\":\"alice\"}"
    );
}

#[test]
fn string_escaping_round_trips() {
    let wild = "a\"b\\c\nd\te\u{1}f".to_string();
    let msg = WebSocketMessage {
        messagetype: "userleft".to_string(),
        channel: "c".to_string(),
        payload: WebSocketPayload::UserLeft(wild.clone()),
    };
    let text = encode_message(&msg);
    let back = decode_message(&text).unwrap();
    match back.payload {
        WebSocketPayload::UserLeft(u) => assert_eq!(u, wild),
        _ => panic!("expected a userleft payload"),
    }
}

#[test]
fn quote_in_username_escapes() {
    let msg = WebSocketMessage {
        messagetype: "userleft".to_string(),
        channel: "c".to_string(),
        payload: WebSocketPayload::UserLeft("a\"b".to_string()),
    };
    assert_eq!(
        encode_message(&msg),
        "{\"messagetype\":\"userleft\",\"channel\":\"c\",\"payload\":\"a\\\"b\"}"
    );
}

#[test]
fn unknown_discriminator_decodes_and_forwards_verbatim() {
    let raw = "{\"messagetype\":\"zzz\",\"channel\":\"c1\",\"payload\":{\"foo\":1}}";
    let msg = decode_message(raw).unwrap();
    assert_eq!(msg.messagetype, "zzz");
    assert_eq!(msg.channel, "c1");
    match &msg.payload {
        WebSocketPayload::Unknown(kept) => assert_eq!(kept, raw),
        _ => panic!("expected the opaque fallback"),
    }
    assert_eq!(encode_message(&msg), raw);
}

#[test]
fn known_discriminator_with_malformed_payload_falls_back() {
    let raw = "{\"messagetype\":\"cursor\",\"channel\":\"c\",\"payload\":{\"username\":\"u\"}}";
    let msg = decode_message(raw).unwrap();
    assert!(matches!(msg.payload, WebSocketPayload::Unknown(_)));

    let oversized = "{\"messagetype\":\"cursor\",\"channel\":\"c\",\
                     \"payload\":{\"username\":\"u\",\"x\":3000000000,\"y\":0}}";
    let msg = decode_message(oversized).unwrap();
    assert!(matches!(msg.payload, WebSocketPayload::Unknown(_)));
}

#[test]
fn envelope_failures_reject_the_frame() {
    assert!(decode_message("not json").is_none());
    assert!(decode_message("[]").is_none());
    assert!(decode_message("{\"channel\":\"c\"}").is_none());
    assert!(decode_message("{\"messagetype\":7,\"channel\":\"c\"}").is_none());
}
