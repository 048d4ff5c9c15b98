//! The data model: points, strokes, boards, and the wire-message types, each
//! with a mathematical view, together with the bounding-box geometry that the
//! renderer is built on.

use vstd::prelude::*;
use crate::text::{int_str, push_i64};

verus! {

/// A point on the canvas.
#[derive(Debug, Clone, Copy, PartialEq, Eq, Structural)]
pub struct Point {
    pub x: i32,
    pub y: i32,
}

/// Mathematical view of a point: unbounded integer coordinates.
pub struct PointV {
    pub x: int,
    pub y: int,
}

impl View for Point {
    type V = PointV;

    open spec fn view(&self) -> PointV {
        PointV { x: self.x as int, y: self.y as int }
    }
}

/// One drawn stroke: an ordered polyline of points with a color and width.
/// Immutable once created; the point order is the drawing order.
#[derive(Debug, Clone)]
pub struct Stroke {
    pub timestamp: i64,
    pub color: String,
    pub size: i32,
    pub points: Vec<Point>,
}

/// Mathematical view of a stroke.
pub struct StrokeV {
    pub timestamp: int,
    pub color: Seq<char>,
    pub size: int,
    pub points: Seq<PointV>,
}

impl View for Stroke {
    type V = StrokeV;

    open spec fn view(&self) -> StrokeV {
        StrokeV {
            timestamp: self.timestamp as int,
            color: self.color@,
            size: self.size as int,
            points: self.points@.map_values(|p: Point| p@),
        }
    }
}

/// A whole board: a stable identity and the append-ordered stroke history.
#[derive(Debug, Clone)]
pub struct Board {
    pub id: String,
    pub strokes: Vec<Stroke>,
}

/// Mathematical view of a board.
pub struct BoardV {
    pub id: Seq<char>,
    pub strokes: Seq<StrokeV>,
}

impl View for Board {
    type V = BoardV;

    open spec fn view(&self) -> BoardV {
        BoardV { id: self.id@, strokes: self.strokes@.map_values(|s: Stroke| s@) }
    }
}

/// Structured error body handed to the HTTP boundary on a store failure.
#[derive(Debug, Clone)]
pub struct ErrorResponse {
    pub error: String,
}

/// The handshake record a client must send in its first text frame.
#[derive(Debug, Clone)]
pub struct WebSocketConnect {
    pub username: String,
    pub channel: String,
}

/// A live cursor position, relayed so other viewers can draw presence.
#[derive(Debug, Clone)]
pub struct CursorPayload {
    username: String,
    x: i32,
    y: i32,
}

/// Mathematical view of a cursor payload.
pub struct CursorV {
    pub username: Seq<char>,
    pub x: int,
    pub y: int,
}

impl View for CursorPayload {
    type V = CursorV;

    closed spec fn view(&self) -> CursorV {
        CursorV { username: self.username@, x: self.x as int, y: self.y as int }
    }
}

impl CursorPayload {
    pub fn new(username: String, x: i32, y: i32) -> (r: CursorPayload)
        ensures
            r@ == (CursorV { username: username@, x: x as int, y: y as int }),
    {
        CursorPayload { username, x, y }
    }

    pub fn username(&self) -> (r: &String)
        ensures
            r@ == self@.username,
    {
        &self.username
    }

    pub fn x(&self) -> (r: i32)
        ensures
            r as int == self@.x,
    {
        self.x
    }

    pub fn y(&self) -> (r: i32)
        ensures
            r as int == self@.y,
    {
        self.y
    }
}

/// The payload of a wire message, keyed by the envelope's discriminator.
/// Unrecognized discriminators land in `Unknown`, which preserves the whole
/// original frame verbatim so it can still be forwarded.
#[derive(Debug, Clone)]
pub enum WebSocketPayload {
    Cursor(CursorPayload),
    BoardUpdate(Board),
    UserLeft(String),
    Unknown(String),
}

/// Mathematical view of a payload.
pub enum PayloadV {
    Cursor(CursorV),
    BoardUpdate(BoardV),
    UserLeft(Seq<char>),
    Unknown(Seq<char>),
}

impl View for WebSocketPayload {
    type V = PayloadV;

    open spec fn view(&self) -> PayloadV {
        match self {
            WebSocketPayload::Cursor(c) => PayloadV::Cursor(c@),
            WebSocketPayload::BoardUpdate(b) => PayloadV::BoardUpdate(b@),
            WebSocketPayload::UserLeft(u) => PayloadV::UserLeft(u@),
            WebSocketPayload::Unknown(raw) => PayloadV::Unknown(raw@),
        }
    }
}

/// One enveloped wire message: discriminator, channel, and the payload whose
/// shape the discriminator determines.
#[derive(Debug, Clone)]
pub struct WebSocketMessage {
    pub messagetype: String,
    pub channel: String,
    pub payload: WebSocketPayload,
}

/// Mathematical view of a wire message.
pub struct MessageV {
    pub messagetype: Seq<char>,
    pub channel: Seq<char>,
    pub payload: PayloadV,
}

impl View for WebSocketMessage {
    type V = MessageV;

    open spec fn view(&self) -> MessageV {
        MessageV { messagetype: self.messagetype@, channel: self.channel@, payload: self.payload@ }
    }
}

impl WebSocketMessage {
    /// The discriminator agrees with the payload's shape.
    pub open spec fn wf(&self) -> bool {
        match self@.payload {
            PayloadV::Cursor(_) => self@.messagetype == ("cursor")@,
            PayloadV::BoardUpdate(_) => self@.messagetype == ("board")@,
            PayloadV::UserLeft(_) => self@.messagetype == ("userleft")@,
            PayloadV::Unknown(_) => true,
        }
    }
}

// ---------------------------------------------------------------------------
// Bounding box
// ---------------------------------------------------------------------------

/// A bounding box as `(min_x, min_y, max_x, max_y)`; `None` when there is no
/// point at all.
pub open spec fn merge_bbox(
    a: Option<(int, int, int, int)>,
    b: Option<(int, int, int, int)>,
) -> Option<(int, int, int, int)> {
    match (a, b) {
        (None, None) => None,
        (None, Some(t)) => Some(t),
        (Some(t), None) => Some(t),
        (Some(s), Some(t)) => Some(
            (
                if s.0 <= t.0 { s.0 } else { t.0 },
                if s.1 <= t.1 { s.1 } else { t.1 },
                if s.2 >= t.2 { s.2 } else { t.2 },
                if s.3 >= t.3 { s.3 } else { t.3 },
            ),
        ),
    }
}

/// Bounding box of a sequence of points.
pub open spec fn points_bbox(ps: Seq<PointV>) -> Option<(int, int, int, int)>
    decreases ps.len(),
{
    if ps.len() == 0 {
        None
    } else {
        merge_bbox(points_bbox(ps.drop_last()), Some((ps.last().x, ps.last().y, ps.last().x, ps.last().y)))
    }
}

/// Bounding box of every point of every stroke, in stroke order.
pub open spec fn strokes_bbox(ss: Seq<StrokeV>) -> Option<(int, int, int, int)>
    decreases ss.len(),
{
    if ss.len() == 0 {
        None
    } else {
        merge_bbox(strokes_bbox(ss.drop_last()), points_bbox(ss.last().points))
    }
}

pub open spec fn board_bbox(b: BoardV) -> Option<(int, int, int, int)> {
    strokes_bbox(b.strokes)
}

/// The smallest x coordinate of the board, or 0 when the board has no point.
pub open spec fn spec_x_offset(b: BoardV) -> int {
    match board_bbox(b) {
        None => 0,
        Some(t) => t.0,
    }
}

/// The smallest y coordinate of the board, or 0 when the board has no point.
pub open spec fn spec_y_offset(b: BoardV) -> int {
    match board_bbox(b) {
        None => 0,
        Some(t) => t.1,
    }
}

/// `max_x - min_x`, or 0 when the board has no point.
pub open spec fn spec_width(b: BoardV) -> int {
    match board_bbox(b) {
        None => 0,
        Some(t) => t.2 - t.0,
    }
}

/// `max_y - min_y`, or 0 when the board has no point.
pub open spec fn spec_height(b: BoardV) -> int {
    match board_bbox(b) {
        None => 0,
        Some(t) => t.3 - t.1,
    }
}

/// In a bounding box each minimum is at most the matching maximum.
pub proof fn lemma_points_bbox_ordered(ps: Seq<PointV>)
    ensures
        match points_bbox(ps) {
            None => true,
            Some(t) => t.0 <= t.2 && t.1 <= t.3,
        },
    decreases ps.len(),
{
    if ps.len() > 0 {
        lemma_points_bbox_ordered(ps.drop_last());
    }
}

pub proof fn lemma_strokes_bbox_ordered(ss: Seq<StrokeV>)
    ensures
        match strokes_bbox(ss) {
            None => true,
            Some(t) => t.0 <= t.2 && t.1 <= t.3,
        },
    decreases ss.len(),
{
    if ss.len() > 0 {
        lemma_strokes_bbox_ordered(ss.drop_last());
        lemma_points_bbox_ordered(ss.last().points);
    }
}

/// A board never has a negative width or height.
pub proof fn lemma_dimensions_nonneg(b: BoardV)
    ensures
        spec_width(b) >= 0,
        spec_height(b) >= 0,
{
    lemma_strokes_bbox_ordered(b.strokes);
}

/// Ties an executable bounding box, with machine integers, to the
/// mathematical one.
pub open spec fn bbox_view(r: Option<(i32, i32, i32, i32)>) -> Option<(int, int, int, int)> {
    match r {
        None => None,
        Some(t) => Some((t.0 as int, t.1 as int, t.2 as int, t.3 as int)),
    }
}

fn merge_bbox_exec(
    a: Option<(i32, i32, i32, i32)>,
    b: Option<(i32, i32, i32, i32)>,
) -> (r: Option<(i32, i32, i32, i32)>)
    ensures
        bbox_view(r) == merge_bbox(bbox_view(a), bbox_view(b)),
{
    match (a, b) {
        (None, None) => None,
        (None, Some(t)) => Some(t),
        (Some(t), None) => Some(t),
        (Some(s), Some(t)) => Some(
            (
                if s.0 <= t.0 { s.0 } else { t.0 },
                if s.1 <= t.1 { s.1 } else { t.1 },
                if s.2 >= t.2 { s.2 } else { t.2 },
                if s.3 >= t.3 { s.3 } else { t.3 },
            ),
        ),
    }
}

fn points_bbox_exec(ps: &Vec<Point>) -> (r: Option<(i32, i32, i32, i32)>)
    ensures
        bbox_view(r) == points_bbox(ps@.map_values(|p: Point| p@)),
{
    let ghost psv = ps@.map_values(|p: Point| p@);
    let mut cur: Option<(i32, i32, i32, i32)> = None;
    let mut i: usize = 0;
    while i < ps.len()
        invariant
            i <= ps.len(),
            psv == ps@.map_values(|p: Point| p@),
            bbox_view(cur) == points_bbox(psv.subrange(0, i as int)),
        decreases ps.len() - i,
    {
        let p = ps[i];
        cur = merge_bbox_exec(cur, Some((p.x, p.y, p.x, p.y)));
        proof {
            assert(psv.subrange(0, (i + 1) as int).drop_last() =~= psv.subrange(0, i as int));
            assert(psv.subrange(0, (i + 1) as int).last() == psv[i as int]);
        }
        i = i + 1;
    }
    proof {
        assert(psv.subrange(0, psv.len() as int) =~= psv);
    }
    cur
}

impl Board {
    /// A fresh, empty board under the given identity.
    pub fn new(id: String) -> (r: Board)
        ensures
            r@.id == id@,
            r@.strokes.len() == 0,
    {
        Board { id, strokes: Vec::new() }
    }

    /// The bounding box of every point across every stroke.
    pub fn bbox(&self) -> (r: Option<(i32, i32, i32, i32)>)
        ensures
            bbox_view(r) == board_bbox(self@),
    {
        let ghost ssv = self.strokes@.map_values(|s: Stroke| s@);
        let mut cur: Option<(i32, i32, i32, i32)> = None;
        let mut i: usize = 0;
        while i < self.strokes.len()
            invariant
                i <= self.strokes.len(),
                ssv == self.strokes@.map_values(|s: Stroke| s@),
                bbox_view(cur) == strokes_bbox(ssv.subrange(0, i as int)),
            decreases self.strokes.len() - i,
        {
            let sb = points_bbox_exec(&self.strokes[i].points);
            cur = merge_bbox_exec(cur, sb);
            proof {
                assert(ssv.subrange(0, (i + 1) as int).drop_last() =~= ssv.subrange(0, i as int));
                assert(ssv.subrange(0, (i + 1) as int).last() == ssv[i as int]);
            }
            i = i + 1;
        }
        proof {
            assert(ssv.subrange(0, ssv.len() as int) =~= ssv);
        }
        cur
    }

    /// Width of the bounding box; 0 for a board without points.
    pub fn width(&self) -> (r: i32)
        requires
            spec_width(self@) <= i32::MAX as int,
        ensures
            r as int == spec_width(self@),
    {
        proof {
            lemma_strokes_bbox_ordered(self@.strokes);
        }
        match self.bbox() {
            None => 0,
            Some(t) => t.2 - t.0,
        }
    }

    /// Height of the bounding box; 0 for a board without points.
    pub fn height(&self) -> (r: i32)
        requires
            spec_height(self@) <= i32::MAX as int,
        ensures
            r as int == spec_height(self@),
    {
        proof {
            lemma_strokes_bbox_ordered(self@.strokes);
        }
        match self.bbox() {
            None => 0,
            Some(t) => t.3 - t.1,
        }
    }

    /// The smallest x coordinate of the board; 0 for a board without points.
    pub fn x_offset(&self) -> (r: i32)
        ensures
            r as int == spec_x_offset(self@),
    {
        match self.bbox() {
            None => 0,
            Some(t) => t.0,
        }
    }

    /// The smallest y coordinate of the board; 0 for a board without points.
    pub fn y_offset(&self) -> (r: i32)
        ensures
            r as int == spec_y_offset(self@),
    {
        match self.bbox() {
            None => 0,
            Some(t) => t.1,
        }
    }
}

// ---------------------------------------------------------------------------
// Renderable strokes
// ---------------------------------------------------------------------------

/// The `"x,y"` text of one point, translated by `(-ox, -oy)`.
pub open spec fn pair_str(p: PointV, ox: int, oy: int) -> Seq<char> {
    int_str(p.x - ox) + (",")@ + int_str(p.y - oy)
}

/// The space-separated polyline text of a point sequence, translated by
/// `(-ox, -oy)`.
pub open spec fn polyline_str(ps: Seq<PointV>, ox: int, oy: int) -> Seq<char>
    decreases ps.len(),
{
    if ps.len() == 0 {
        Seq::empty()
    } else if ps.len() == 1 {
        pair_str(ps[0], ox, oy)
    } else {
        polyline_str(ps.drop_last(), ox, oy) + (" ")@ + pair_str(ps.last(), ox, oy)
    }
}

/// A stroke prepared for markup emission: the original fields plus its
/// offset-normalized polyline text.
#[derive(Debug, Clone)]
pub struct TeraStroke {
    pub color: String,
    pub size: i32,
    pub points: Vec<Point>,
    pub polyline: String,
}

impl TeraStroke {
    /// Builds the polyline text of `points`, translated by
    /// `(-x_offset, -y_offset)`.
    pub fn new(color: String, size: i32, points: Vec<Point>, x_offset: i32, y_offset: i32) -> (r:
        TeraStroke)
        ensures
            r.color@ == color@,
            r.size == size,
            r.points@ == points@,
            r.polyline@ == polyline_str(
                points@.map_values(|p: Point| p@),
                x_offset as int,
                y_offset as int,
            ),
    {
        let ghost psv = points@.map_values(|p: Point| p@);
        let mut polyline = String::new();
        let mut i: usize = 0;
        while i < points.len()
            invariant
                i <= points.len(),
                psv == points@.map_values(|p: Point| p@),
                polyline@ == polyline_str(psv.subrange(0, i as int), x_offset as int, y_offset as int),
            decreases points.len() - i,
        {
            if i > 0 {
                polyline.append(" ");
            }
            let p = points[i];
            push_i64(&mut polyline, (p.x as i64) - (x_offset as i64));
            polyline.append(",");
            push_i64(&mut polyline, (p.y as i64) - (y_offset as i64));
            proof {
                assert(psv.subrange(0, (i + 1) as int).drop_last() =~= psv.subrange(0, i as int));
                assert(psv.subrange(0, (i + 1) as int).last() == psv[i as int]);
                assert(psv[i as int] == points@[i as int]@);
                if i == 0 {
                    assert(psv.subrange(0, 1).len() == 1);
                }
            }
            i = i + 1;
        }
        proof {
            assert(psv.subrange(0, psv.len() as int) =~= psv);
        }
        TeraStroke { color, size, points, polyline }
    }
}

impl Stroke {
    /// The stroke together with its polyline text, normalized against the
    /// board's offsets.
    pub fn renderable(&self, x_offset: i32, y_offset: i32) -> (r: TeraStroke)
        ensures
            r.color@ == self.color@,
            r.size == self.size,
            r.points@ == self.points@,
            r.polyline@ == polyline_str(self@.points, x_offset as int, y_offset as int),
    {
        TeraStroke::new(
            self.color.clone(),
            self.size,
            clone_points(&self.points),
            x_offset,
            y_offset,
        )
    }
}

fn clone_points(ps: &Vec<Point>) -> (r: Vec<Point>)
    ensures
        r@ == ps@,
{
    let mut r: Vec<Point> = Vec::new();
    let mut i: usize = 0;
    while i < ps.len()
        invariant
            i <= ps.len(),
            r@ == ps@.subrange(0, i as int),
        decreases ps.len() - i,
    {
        r.push(ps[i]);
        proof {
            assert(ps@.subrange(0, (i + 1) as int) =~= ps@.subrange(0, i as int).push(ps@[i as int]));
        }
        i = i + 1;
    }
    proof {
        assert(ps@.subrange(0, ps@.len() as int) =~= ps@);
    }
    r
}

} // verus!
