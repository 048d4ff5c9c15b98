//! The wire-message protocol. Encoding builds the JSON text directly and is
//! specified character by character. Decoding is two-phase: first the
//! envelope (discriminator and channel), then the payload according to the
//! discriminator, falling back to an opaque variant that preserves the whole
//! frame verbatim whenever the payload shape is not recognized.

use vstd::prelude::*;
use crate::data::{
    Board, BoardV, CursorPayload, CursorV, MessageV, PayloadV, Point, PointV, Stroke, StrokeV,
    WebSocketConnect, WebSocketMessage, WebSocketPayload,
};
use crate::json::{
    Json, json_of, parse_value, parsed_json, value_as_array, value_as_i64, value_as_str, value_get,
};
use crate::text::{int_str, json_string, push_i64, push_json_string, str_eq};

verus! {

// ---------------------------------------------------------------------------
// Encoding: the exact JSON text of boards and messages
// ---------------------------------------------------------------------------

pub open spec fn point_json(p: PointV) -> Seq<char> {
    ("{\"x\":")@ + int_str(p.x) + (",\"y\":")@ + int_str(p.y) + ("}")@
}

pub open spec fn points_json(ps: Seq<PointV>) -> Seq<char>
    decreases ps.len(),
{
    if ps.len() == 0 {
        Seq::empty()
    } else if ps.len() == 1 {
        point_json(ps[0])
    } else {
        points_json(ps.drop_last()) + (",")@ + point_json(ps.last())
    }
}

pub open spec fn stroke_json(st: StrokeV) -> Seq<char> {
    ("{\"timestamp\":")@ + int_str(st.timestamp) + (",\"color\":")@ + json_string(st.color) + (
    ",\"size\":")@ + int_str(st.size) + (",\"points\":[")@ + points_json(st.points) + ("]}")@
}

pub open spec fn strokes_json(ss: Seq<StrokeV>) -> Seq<char>
    decreases ss.len(),
{
    if ss.len() == 0 {
        Seq::empty()
    } else if ss.len() == 1 {
        stroke_json(ss[0])
    } else {
        strokes_json(ss.drop_last()) + (",")@ + stroke_json(ss.last())
    }
}

pub open spec fn board_json(b: BoardV) -> Seq<char> {
    ("{\"id\":")@ + json_string(b.id) + (",\"strokes\":[")@ + strokes_json(b.strokes) + ("]}")@
}

pub open spec fn cursor_json(c: CursorV) -> Seq<char> {
    ("{\"username\":")@ + json_string(c.username) + (",\"x\":")@ + int_str(c.x) + (",\"y\":")@
        + int_str(c.y) + ("}")@
}

pub open spec fn payload_json(p: PayloadV) -> Seq<char> {
    match p {
        PayloadV::Cursor(c) => cursor_json(c),
        PayloadV::BoardUpdate(b) => board_json(b),
        PayloadV::UserLeft(u) => json_string(u),
        PayloadV::Unknown(raw) => raw,
    }
}

/// The text a message goes out as. An unknown message is the original frame
/// and is forwarded verbatim; everything else is enveloped.
pub open spec fn message_json(m: MessageV) -> Seq<char> {
    match m.payload {
        PayloadV::Unknown(raw) => raw,
        _ => ("{\"messagetype\":")@ + json_string(m.messagetype) + (",\"channel\":")@
            + json_string(m.channel) + (",\"payload\":")@ + payload_json(m.payload) + ("}")@,
    }
}

fn push_point(out: &mut String, p: &Point)
    ensures
        final(out)@ == old(out)@ + point_json(p@),
{
    out.append("{\"x\":");
    push_i64(out, p.x as i64);
    out.append(",\"y\":");
    push_i64(out, p.y as i64);
    out.append("}");
}

fn push_points(out: &mut String, ps: &Vec<Point>)
    ensures
        final(out)@ == old(out)@ + points_json(ps@.map_values(|p: Point| p@)),
{
    let ghost psv = ps@.map_values(|p: Point| p@);
    let mut i: usize = 0;
    while i < ps.len()
        invariant
            i <= ps.len(),
            psv == ps@.map_values(|p: Point| p@),
            out@ == old(out)@ + points_json(psv.subrange(0, i as int)),
        decreases ps.len() - i,
    {
        if i > 0 {
            out.append(",");
        }
        push_point(out, &ps[i]);
        proof {
            assert(psv.subrange(0, (i + 1) as int).drop_last() =~= psv.subrange(0, i as int));
            assert(psv.subrange(0, (i + 1) as int).last() == psv[i as int]);
            assert(psv[i as int] == ps@[i as int]@);
        }
        i = i + 1;
    }
    proof {
        assert(psv.subrange(0, psv.len() as int) =~= psv);
    }
}

fn push_stroke(out: &mut String, st: &Stroke)
    ensures
        final(out)@ == old(out)@ + stroke_json(st@),
{
    out.append("{\"timestamp\":");
    push_i64(out, st.timestamp);
    out.append(",\"color\":");
    push_json_string(out, st.color.as_str());
    out.append(",\"size\":");
    push_i64(out, st.size as i64);
    out.append(",\"points\":[");
    push_points(out, &st.points);
    out.append("]}");
}

fn push_strokes(out: &mut String, ss: &Vec<Stroke>)
    ensures
        final(out)@ == old(out)@ + strokes_json(ss@.map_values(|s: Stroke| s@)),
{
    let ghost ssv = ss@.map_values(|s: Stroke| s@);
    let mut i: usize = 0;
    while i < ss.len()
        invariant
            i <= ss.len(),
            ssv == ss@.map_values(|s: Stroke| s@),
            out@ == old(out)@ + strokes_json(ssv.subrange(0, i as int)),
        decreases ss.len() - i,
    {
        if i > 0 {
            out.append(",");
        }
        push_stroke(out, &ss[i]);
        proof {
            assert(ssv.subrange(0, (i + 1) as int).drop_last() =~= ssv.subrange(0, i as int));
            assert(ssv.subrange(0, (i + 1) as int).last() == ssv[i as int]);
            assert(ssv[i as int] == ss@[i as int]@);
        }
        i = i + 1;
    }
    proof {
        assert(ssv.subrange(0, ssv.len() as int) =~= ssv);
    }
}

/// The JSON text of a board snapshot, as it is stored and as it travels in a
/// "board" message.
pub fn encode_board(b: &Board) -> (r: String)
    ensures
        r@ == board_json(b@),
{
    let mut out = String::new();
    out.append("{\"id\":");
    push_json_string(&mut out, b.id.as_str());
    out.append(",\"strokes\":[");
    push_strokes(&mut out, &b.strokes);
    out.append("]}");
    out
}

/// The text a message goes out as. An unknown message is forwarded verbatim.
pub fn encode_message(m: &WebSocketMessage) -> (r: String)
    ensures
        r@ == message_json(m@),
{
    match &m.payload {
        WebSocketPayload::Unknown(raw) => raw.clone(),
        _ => {
            let mut out = String::new();
            out.append("{\"messagetype\":");
            push_json_string(&mut out, m.messagetype.as_str());
            out.append(",\"channel\":");
            push_json_string(&mut out, m.channel.as_str());
            out.append(",\"payload\":");
            match &m.payload {
                WebSocketPayload::Cursor(c) => {
                    out.append("{\"username\":");
                    push_json_string(&mut out, c.username().as_str());
                    out.append(",\"x\":");
                    push_i64(&mut out, c.x() as i64);
                    out.append(",\"y\":");
                    push_i64(&mut out, c.y() as i64);
                    out.append("}");
                },
                WebSocketPayload::BoardUpdate(b) => {
                    out.append("{\"id\":");
                    push_json_string(&mut out, b.id.as_str());
                    out.append(",\"strokes\":[");
                    push_strokes(&mut out, &b.strokes);
                    out.append("]}");
                },
                WebSocketPayload::UserLeft(u) => {
                    push_json_string(&mut out, u.as_str());
                },
                WebSocketPayload::Unknown(_) => {
                },
            }
            out.append("}");
            out
        },
    }
}

// ---------------------------------------------------------------------------
// Decoding: spec level
// ---------------------------------------------------------------------------

/// The string under a key of an object, when there is one.
pub open spec fn obj_str(m: Map<Seq<char>, Json>, k: Seq<char>) -> Option<Seq<char>> {
    if m.contains_key(k) {
        match m[k] {
            Json::Str(t) => Some(t),
            _ => None,
        }
    } else {
        None
    }
}

/// The integer under a key of an object, when there is one.
pub open spec fn obj_int(m: Map<Seq<char>, Json>, k: Seq<char>) -> Option<int> {
    if m.contains_key(k) {
        match m[k] {
            Json::Int(n) => Some(n),
            _ => None,
        }
    } else {
        None
    }
}

/// The handshake a first frame decodes to: an object with string `username`
/// and `channel` fields, and nothing less.
pub open spec fn handshake_view(s: Seq<char>) -> Option<(Seq<char>, Seq<char>)> {
    match parsed_json(s) {
        Some(Json::Obj(m)) => match (obj_str(m, ("username")@), obj_str(m, ("channel")@)) {
            (Some(u), Some(c)) => Some((u, c)),
            _ => None,
        },
        _ => None,
    }
}

/// The envelope of a frame: its discriminator and channel, when the frame is
/// an object carrying both as strings.
pub open spec fn envelope_view(s: Seq<char>) -> Option<(Seq<char>, Seq<char>)> {
    match parsed_json(s) {
        Some(Json::Obj(m)) => match (obj_str(m, ("messagetype")@), obj_str(m, ("channel")@)) {
            (Some(t), Some(c)) => Some((t, c)),
            _ => None,
        },
        _ => None,
    }
}

/// The `payload` member of a frame, when the frame is an object that has one.
pub open spec fn payload_json_of(s: Seq<char>) -> Option<Json> {
    match parsed_json(s) {
        Some(Json::Obj(m)) => if m.contains_key(("payload")@) {
            Some(m[("payload")@])
        } else {
            None
        },
        _ => None,
    }
}

/// A cursor payload: string username and coordinates that fit the machine
/// integers the data model carries.
pub open spec fn cursor_of_json(j: Json) -> Option<CursorV> {
    match j {
        Json::Obj(m) => match (obj_str(m, ("username")@), obj_int(m, ("x")@), obj_int(
            m,
            ("y")@,
        )) {
            (Some(u), Some(x), Some(y)) => if i32::MIN as int <= x <= i32::MAX as int
                && i32::MIN as int <= y <= i32::MAX as int {
                Some(CursorV { username: u, x, y })
            } else {
                None
            },
            _ => None,
        },
        _ => None,
    }
}

pub open spec fn point_of_json(j: Json) -> Option<PointV> {
    match j {
        Json::Obj(m) => match (obj_int(m, ("x")@), obj_int(m, ("y")@)) {
            (Some(x), Some(y)) => if i32::MIN as int <= x <= i32::MAX as int && i32::MIN as int
                <= y <= i32::MAX as int {
                Some(PointV { x, y })
            } else {
                None
            },
            _ => None,
        },
        _ => None,
    }
}

pub open spec fn points_of_json(a: Seq<Json>) -> Option<Seq<PointV>>
    decreases a.len(),
{
    if a.len() == 0 {
        Some(Seq::empty())
    } else {
        match (points_of_json(a.drop_last()), point_of_json(a.last())) {
            (Some(ps), Some(p)) => Some(ps.push(p)),
            _ => None,
        }
    }
}

/// A stroke payload. The timestamp is any integer the model carries (the
/// signed 64-bit range, which is all `Json::Int` spans); size, like the
/// coordinates, must fit the 32-bit field.
pub open spec fn stroke_of_json(j: Json) -> Option<StrokeV> {
    match j {
        Json::Obj(m) => match (obj_int(m, ("timestamp")@), obj_str(m, ("color")@), obj_int(
            m,
            ("size")@,
        )) {
            (Some(ts), Some(color), Some(size)) => if m.contains_key(("points")@) {
                match m[("points")@] {
                    Json::Arr(a) => match points_of_json(a) {
                        Some(ps) => if i32::MIN as int <= size <= i32::MAX as int {
                            Some(StrokeV { timestamp: ts, color, size, points: ps })
                        } else {
                            None
                        },
                        None => None,
                    },
                    _ => None,
                }
            } else {
                None
            },
            _ => None,
        },
        _ => None,
    }
}

pub open spec fn strokes_of_json(a: Seq<Json>) -> Option<Seq<StrokeV>>
    decreases a.len(),
{
    if a.len() == 0 {
        Some(Seq::empty())
    } else {
        match (strokes_of_json(a.drop_last()), stroke_of_json(a.last())) {
            (Some(ss), Some(st)) => Some(ss.push(st)),
            _ => None,
        }
    }
}

pub open spec fn board_of_json(j: Json) -> Option<BoardV> {
    match j {
        Json::Obj(m) => match obj_str(m, ("id")@) {
            Some(id) => if m.contains_key(("strokes")@) {
                match m[("strokes")@] {
                    Json::Arr(a) => match strokes_of_json(a) {
                        Some(ss) => Some(BoardV { id, strokes: ss }),
                        None => None,
                    },
                    _ => None,
                }
            } else {
                None
            },
            _ => None,
        },
        _ => None,
    }
}

/// What a stored board snapshot decodes to.
pub open spec fn board_text_view(s: Seq<char>) -> Option<BoardV> {
    match parsed_json(s) {
        Some(j) => board_of_json(j),
        None => None,
    }
}

/// The payload a decoded frame carries, given its discriminator: the shaped
/// variant when the discriminator is known and its payload fits, and the
/// whole frame verbatim otherwise.
pub open spec fn payload_view(s: Seq<char>, t: Seq<char>) -> PayloadV {
    if t == ("cursor")@ {
        match payload_json_of(s) {
            Some(pj) => match cursor_of_json(pj) {
                Some(c) => PayloadV::Cursor(c),
                None => PayloadV::Unknown(s),
            },
            None => PayloadV::Unknown(s),
        }
    } else if t == ("board")@ {
        match payload_json_of(s) {
            Some(pj) => match board_of_json(pj) {
                Some(b) => PayloadV::BoardUpdate(b),
                None => PayloadV::Unknown(s),
            },
            None => PayloadV::Unknown(s),
        }
    } else if t == ("userleft")@ {
        match payload_json_of(s) {
            Some(Json::Str(u)) => PayloadV::UserLeft(u),
            _ => PayloadV::Unknown(s),
        }
    } else {
        PayloadV::Unknown(s)
    }
}

/// Full two-phase decoding: `None` exactly when the outer envelope does not
/// parse; a payload of unrecognized shape never fails the decode.
pub open spec fn decode_view(s: Seq<char>) -> Option<MessageV> {
    match envelope_view(s) {
        None => None,
        Some((t, c)) => Some(
            MessageV { messagetype: t, channel: c, payload: payload_view(s, t) },
        ),
    }
}


// ---------------------------------------------------------------------------
// Decoding: executable
// ---------------------------------------------------------------------------

/// One unreadable element poisons the whole array.
proof fn lemma_points_of_json_fail(a: Seq<Json>, i: int)
    requires
        0 <= i < a.len(),
        point_of_json(a[i]) is None,
    ensures
        points_of_json(a) is None,
    decreases a.len(),
{
    if i < a.len() - 1 {
        lemma_points_of_json_fail(a.drop_last(), i);
    }
}

proof fn lemma_strokes_of_json_fail(a: Seq<Json>, i: int)
    requires
        0 <= i < a.len(),
        stroke_of_json(a[i]) is None,
    ensures
        strokes_of_json(a) is None,
    decreases a.len(),
{
    if i < a.len() - 1 {
        lemma_strokes_of_json_fail(a.drop_last(), i);
    }
}

/// Decodes a client's first frame as the handshake record.
pub fn decode_handshake(s: &str) -> (r: Option<WebSocketConnect>)
    ensures
        match r {
            Some(hs) => handshake_view(s@) == Some((hs.username@, hs.channel@)),
            None => handshake_view(s@) is None,
        },
{
    let v = match parse_value(s) {
        Some(v) => v,
        None => {
            return None;
        },
    };
    let username = match value_get(&v, "username") {
        Some(w) => match value_as_str(w) {
            Some(t) => String::from_str(t),
            None => {
                return None;
            },
        },
        None => {
            return None;
        },
    };
    let channel = match value_get(&v, "channel") {
        Some(w) => match value_as_str(w) {
            Some(t) => String::from_str(t),
            None => {
                return None;
            },
        },
        None => {
            return None;
        },
    };
    Some(WebSocketConnect { username, channel })
}

fn decode_cursor(p: &serde_json::Value) -> (r: Option<CursorPayload>)
    ensures
        match r {
            Some(c) => cursor_of_json(json_of(*p)) == Some(c@),
            None => cursor_of_json(json_of(*p)) is None,
        },
{
    let username = match value_get(p, "username") {
        Some(w) => match value_as_str(w) {
            Some(t) => String::from_str(t),
            None => {
                return None;
            },
        },
        None => {
            return None;
        },
    };
    let x = match value_get(p, "x") {
        Some(w) => match value_as_i64(w) {
            Some(n) => n,
            None => {
                return None;
            },
        },
        None => {
            return None;
        },
    };
    let y = match value_get(p, "y") {
        Some(w) => match value_as_i64(w) {
            Some(n) => n,
            None => {
                return None;
            },
        },
        None => {
            return None;
        },
    };
    if x < i32::MIN as i64 || x > i32::MAX as i64 || y < i32::MIN as i64 || y > i32::MAX as i64 {
        return None;
    }
    Some(CursorPayload::new(username, x as i32, y as i32))
}

fn decode_point(p: &serde_json::Value) -> (r: Option<Point>)
    ensures
        match r {
            Some(q) => point_of_json(json_of(*p)) == Some(q@),
            None => point_of_json(json_of(*p)) is None,
        },
{
    let x = match value_get(p, "x") {
        Some(w) => match value_as_i64(w) {
            Some(n) => n,
            None => {
                return None;
            },
        },
        None => {
            return None;
        },
    };
    let y = match value_get(p, "y") {
        Some(w) => match value_as_i64(w) {
            Some(n) => n,
            None => {
                return None;
            },
        },
        None => {
            return None;
        },
    };
    if x < i32::MIN as i64 || x > i32::MAX as i64 || y < i32::MIN as i64 || y > i32::MAX as i64 {
        return None;
    }
    Some(Point { x: x as i32, y: y as i32 })
}

fn decode_points(a: &Vec<serde_json::Value>) -> (r: Option<Vec<Point>>)
    ensures
        ({
            let av = a@.map_values(|x: serde_json::Value| json_of(x));
            match r {
                Some(ps) => points_of_json(av) == Some(ps@.map_values(|p: Point| p@)),
                None => points_of_json(av) is None,
            }
        }),
{
    let ghost av = a@.map_values(|x: serde_json::Value| json_of(x));
    let mut out: Vec<Point> = Vec::new();
    let mut i: usize = 0;
    proof {
        assert(out@.map_values(|p: Point| p@) =~= Seq::<PointV>::empty());
    }
    while i < a.len()
        invariant
            i <= a.len(),
            av == a@.map_values(|x: serde_json::Value| json_of(x)),
            points_of_json(av.subrange(0, i as int)) == Some(out@.map_values(|p: Point| p@)),
        decreases a.len() - i,
    {
        match decode_point(&a[i]) {
            Some(p) => {
                let ghost prev = out@.map_values(|q: Point| q@);
                out.push(p);
                proof {
                    assert(av.subrange(0, (i + 1) as int).drop_last() =~= av.subrange(0, i as int));
                    assert(av.subrange(0, (i + 1) as int).last() == av[i as int]);
                    assert(av[i as int] == json_of(a@[i as int]));
                    assert(out@.map_values(|q: Point| q@) =~= prev.push(p@));
                }
            },
            None => {
                proof {
                    assert(av[i as int] == json_of(a@[i as int]));
                    lemma_points_of_json_fail(av, i as int);
                }
                return None;
            },
        }
        i = i + 1;
    }
    proof {
        assert(av.subrange(0, av.len() as int) =~= av);
    }
    Some(out)
}

fn decode_stroke(p: &serde_json::Value) -> (r: Option<Stroke>)
    ensures
        match r {
            Some(st) => stroke_of_json(json_of(*p)) == Some(st@),
            None => stroke_of_json(json_of(*p)) is None,
        },
{
    let timestamp = match value_get(p, "timestamp") {
        Some(w) => match value_as_i64(w) {
            Some(n) => n,
            None => {
                return None;
            },
        },
        None => {
            return None;
        },
    };
    let color = match value_get(p, "color") {
        Some(w) => match value_as_str(w) {
            Some(t) => String::from_str(t),
            None => {
                return None;
            },
        },
        None => {
            return None;
        },
    };
    let size = match value_get(p, "size") {
        Some(w) => match value_as_i64(w) {
            Some(n) => n,
            None => {
                return None;
            },
        },
        None => {
            return None;
        },
    };
    let points = match value_get(p, "points") {
        Some(w) => match value_as_array(w) {
            Some(a) => match decode_points(a) {
                Some(ps) => ps,
                None => {
                    return None;
                },
            },
            None => {
                return None;
            },
        },
        None => {
            return None;
        },
    };
    if size < i32::MIN as i64 || size > i32::MAX as i64 {
        return None;
    }
    Some(Stroke { timestamp, color, size: size as i32, points })
}

fn decode_strokes(a: &Vec<serde_json::Value>) -> (r: Option<Vec<Stroke>>)
    ensures
        ({
            let av = a@.map_values(|x: serde_json::Value| json_of(x));
            match r {
                Some(ss) => strokes_of_json(av) == Some(ss@.map_values(|s: Stroke| s@)),
                None => strokes_of_json(av) is None,
            }
        }),
{
    let ghost av = a@.map_values(|x: serde_json::Value| json_of(x));
    let mut out: Vec<Stroke> = Vec::new();
    let mut i: usize = 0;
    proof {
        assert(out@.map_values(|s: Stroke| s@) =~= Seq::<StrokeV>::empty());
    }
    while i < a.len()
        invariant
            i <= a.len(),
            av == a@.map_values(|x: serde_json::Value| json_of(x)),
            strokes_of_json(av.subrange(0, i as int)) == Some(out@.map_values(|s: Stroke| s@)),
        decreases a.len() - i,
    {
        match decode_stroke(&a[i]) {
            Some(st) => {
                let ghost prev = out@.map_values(|s: Stroke| s@);
                out.push(st);
                proof {
                    assert(av.subrange(0, (i + 1) as int).drop_last() =~= av.subrange(0, i as int));
                    assert(av.subrange(0, (i + 1) as int).last() == av[i as int]);
                    assert(av[i as int] == json_of(a@[i as int]));
                    assert(out@.map_values(|s: Stroke| s@) =~= prev.push(out@.last()@));
                }
            },
            None => {
                proof {
                    assert(av[i as int] == json_of(a@[i as int]));
                    lemma_strokes_of_json_fail(av, i as int);
                }
                return None;
            },
        }
        i = i + 1;
    }
    proof {
        assert(av.subrange(0, av.len() as int) =~= av);
    }
    Some(out)
}

fn decode_board_value(v: &serde_json::Value) -> (r: Option<Board>)
    ensures
        match r {
            Some(b) => board_of_json(json_of(*v)) == Some(b@),
            None => board_of_json(json_of(*v)) is None,
        },
{
    let id = match value_get(v, "id") {
        Some(w) => match value_as_str(w) {
            Some(t) => String::from_str(t),
            None => {
                return None;
            },
        },
        None => {
            return None;
        },
    };
    let strokes = match value_get(v, "strokes") {
        Some(w) => match value_as_array(w) {
            Some(a) => match decode_strokes(a) {
                Some(ss) => ss,
                None => {
                    return None;
                },
            },
            None => {
                return None;
            },
        },
        None => {
            return None;
        },
    };
    Some(Board { id, strokes })
}

/// Decodes a stored board snapshot.
pub fn decode_board(s: &str) -> (r: Option<Board>)
    ensures
        match r {
            Some(b) => board_text_view(s@) == Some(b@),
            None => board_text_view(s@) is None,
        },
{
    match parse_value(s) {
        Some(v) => decode_board_value(&v),
        None => None,
    }
}

/// Decodes a wire frame in two phases: envelope first, then the payload
/// according to the discriminator. Fails only when the envelope itself does
/// not parse; an unrecognized payload shape falls back to the opaque variant
/// holding the whole frame.
pub fn decode_message(s: &str) -> (r: Option<WebSocketMessage>)
    ensures
        match r {
            Some(m) => decode_view(s@) == Some(m@) && m.wf(),
            None => decode_view(s@) is None,
        },
{
    let v = match parse_value(s) {
        Some(v) => v,
        None => {
            return None;
        },
    };
    let messagetype = match value_get(&v, "messagetype") {
        Some(w) => match value_as_str(w) {
            Some(t) => String::from_str(t),
            None => {
                return None;
            },
        },
        None => {
            return None;
        },
    };
    let channel = match value_get(&v, "channel") {
        Some(w) => match value_as_str(w) {
            Some(t) => String::from_str(t),
            None => {
                return None;
            },
        },
        None => {
            return None;
        },
    };
    let payload: WebSocketPayload = if str_eq(messagetype.as_str(), "cursor") {
        match value_get(&v, "payload") {
            Some(p) => match decode_cursor(p) {
                Some(c) => WebSocketPayload::Cursor(c),
                None => WebSocketPayload::Unknown(String::from_str(s)),
            },
            None => WebSocketPayload::Unknown(String::from_str(s)),
        }
    } else if str_eq(messagetype.as_str(), "board") {
        match value_get(&v, "payload") {
            Some(p) => match decode_board_value(p) {
                Some(b) => WebSocketPayload::BoardUpdate(b),
                None => WebSocketPayload::Unknown(String::from_str(s)),
            },
            None => WebSocketPayload::Unknown(String::from_str(s)),
        }
    } else if str_eq(messagetype.as_str(), "userleft") {
        match value_get(&v, "payload") {
            Some(p) => match value_as_str(p) {
                Some(u) => WebSocketPayload::UserLeft(String::from_str(u)),
                None => WebSocketPayload::Unknown(String::from_str(s)),
            },
            None => WebSocketPayload::Unknown(String::from_str(s)),
        }
    } else {
        WebSocketPayload::Unknown(String::from_str(s))
    };
    Some(WebSocketMessage { messagetype, channel, payload })
}

} // verus!

