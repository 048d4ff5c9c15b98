//! The board-to-SVG renderer: a pure, deterministic function from a board to
//! normalized vector markup, with the proof that the markup is invariant
//! under translation of the whole board.

use vstd::prelude::*;
use crate::data::{
    Board, BoardV, PointV, StrokeV, board_bbox, lemma_strokes_bbox_ordered, pair_str, points_bbox,
    polyline_str, spec_height, spec_width, spec_x_offset, spec_y_offset, strokes_bbox,
};
use crate::text::{int_str, push_i64};

verus! {

/// The markup of one stroke: its polyline text, color and width.
pub open spec fn stroke_markup(s: StrokeV, ox: int, oy: int) -> Seq<char> {
    ("<polyline points=\"")@ + polyline_str(s.points, ox, oy) + ("\" stroke=\"")@ + s.color + (
    "\" stroke-width=\"")@ + int_str(s.size) + ("\" fill=\"none\" />")@
}

/// The markup of a stroke sequence, in drawing order.
pub open spec fn strokes_markup(ss: Seq<StrokeV>, ox: int, oy: int) -> Seq<char>
    decreases ss.len(),
{
    if ss.len() == 0 {
        Seq::empty()
    } else {
        strokes_markup(ss.drop_last(), ox, oy) + stroke_markup(ss.last(), ox, oy)
    }
}

/// The opening `<svg>` tag, carrying the computed width and height and the
/// background color.
pub open spec fn svg_open(w: int, h: int, bg: Seq<char>) -> Seq<char> {
    ("<svg xmlns=\"http://www.w3.org/2000/svg\" width=\"")@ + int_str(w) + ("\" height=\"")@
        + int_str(h) + ("\" style=\"background-color: ")@ + bg + ("\">")@
}

/// The full markup of a board: dimensions from the bounding box, every stroke
/// as a polyline translated by the board's offsets.
pub open spec fn render_markup(b: BoardV, bg: Seq<char>) -> Seq<char> {
    svg_open(spec_width(b), spec_height(b), bg) + strokes_markup(
        b.strokes,
        spec_x_offset(b),
        spec_y_offset(b),
    ) + ("</svg>")@
}

/// The background text actually used: the given color, or "transparent".
pub open spec fn background_of(bg: Option<String>) -> Seq<char> {
    match bg {
        Some(c) => c@,
        None => ("transparent")@,
    }
}

/// Renders a board as SVG markup. Deterministic, never fails, and never
/// mutates the board.
#[verifier::rlimit(60)]
pub fn draw_svg(board: &Board, background_color: Option<String>) -> (r: String)
    ensures
        r@ == render_markup(board@, background_of(background_color)),
{
    proof {
        lemma_strokes_bbox_ordered(board@.strokes);
    }
    let (ox, oy, w, h): (i32, i32, i64, i64) = match board.bbox() {
        None => (0, 0, 0, 0),
        Some(t) => (t.0, t.1, (t.2 as i64) - (t.0 as i64), (t.3 as i64) - (t.1 as i64)),
    };
    let mut out = String::new();
    out.append("<svg xmlns=\"http://www.w3.org/2000/svg\" width=\"");
    push_i64(&mut out, w);
    out.append("\" height=\"");
    push_i64(&mut out, h);
    out.append("\" style=\"background-color: ");
    match &background_color {
        Some(c) => out.append(c.as_str()),
        None => out.append("transparent"),
    }
    out.append("\">");
    assert(out@ == svg_open(spec_width(board@), spec_height(board@), background_of(
        background_color,
    )));
    let ghost header = out@;
    let ghost ssv = board@.strokes;
    let mut i: usize = 0;
    while i < board.strokes.len()
        invariant
            i <= board.strokes.len(),
            ssv == board@.strokes,
            header == svg_open(
                spec_width(board@),
                spec_height(board@),
                background_of(background_color),
            ),
            ox as int == spec_x_offset(board@),
            oy as int == spec_y_offset(board@),
            out@ == header + strokes_markup(ssv.subrange(0, i as int), ox as int, oy as int),
        decreases board.strokes.len() - i,
    {
        let ts = board.strokes[i].renderable(ox, oy);
        out.append("<polyline points=\"");
        out.append(ts.polyline.as_str());
        out.append("\" stroke=\"");
        out.append(ts.color.as_str());
        out.append("\" stroke-width=\"");
        push_i64(&mut out, ts.size as i64);
        out.append("\" fill=\"none\" />");
        proof {
            assert(ssv.subrange(0, (i + 1) as int).drop_last() =~= ssv.subrange(0, i as int));
            assert(ssv.subrange(0, (i + 1) as int).last() == ssv[i as int]);
            assert(ssv[i as int] == board.strokes@[i as int]@);
            assert(out@ =~= header + (strokes_markup(ssv.subrange(0, i as int), ox as int, oy as int)
                + stroke_markup(ssv[i as int], ox as int, oy as int)));
        }
        i = i + 1;
    }
    proof {
        assert(ssv.subrange(0, ssv.len() as int) =~= ssv);
    }
    out.append("</svg>");
    out
}

// ---------------------------------------------------------------------------
// Translation invariance
// ---------------------------------------------------------------------------

pub open spec fn translate_point(p: PointV, dx: int, dy: int) -> PointV {
    PointV { x: p.x + dx, y: p.y + dy }
}

pub open spec fn translate_stroke(s: StrokeV, dx: int, dy: int) -> StrokeV {
    StrokeV {
        timestamp: s.timestamp,
        color: s.color,
        size: s.size,
        points: s.points.map_values(|p: PointV| translate_point(p, dx, dy)),
    }
}

/// The whole board moved by a constant `(dx, dy)`.
pub open spec fn translate_board(b: BoardV, dx: int, dy: int) -> BoardV {
    BoardV { id: b.id, strokes: b.strokes.map_values(|s: StrokeV| translate_stroke(s, dx, dy)) }
}

/// A bounding box moved by `(dx, dy)`.
pub open spec fn translate_bbox(
    t: Option<(int, int, int, int)>,
    dx: int,
    dy: int,
) -> Option<(int, int, int, int)> {
    match t {
        None => None,
        Some(t) => Some((t.0 + dx, t.1 + dy, t.2 + dx, t.3 + dy)),
    }
}

proof fn lemma_points_bbox_translate(ps: Seq<PointV>, dx: int, dy: int)
    ensures
        points_bbox(ps.map_values(|p: PointV| translate_point(p, dx, dy))) == translate_bbox(
            points_bbox(ps),
            dx,
            dy,
        ),
    decreases ps.len(),
{
    let mapped = ps.map_values(|p: PointV| translate_point(p, dx, dy));
    if ps.len() > 0 {
        lemma_points_bbox_translate(ps.drop_last(), dx, dy);
        assert(mapped.drop_last() =~= ps.drop_last().map_values(
            |p: PointV| translate_point(p, dx, dy),
        ));
        assert(mapped.last() == translate_point(ps.last(), dx, dy));
    }
}

proof fn lemma_strokes_bbox_translate(ss: Seq<StrokeV>, dx: int, dy: int)
    ensures
        strokes_bbox(ss.map_values(|s: StrokeV| translate_stroke(s, dx, dy))) == translate_bbox(
            strokes_bbox(ss),
            dx,
            dy,
        ),
    decreases ss.len(),
{
    let mapped = ss.map_values(|s: StrokeV| translate_stroke(s, dx, dy));
    if ss.len() > 0 {
        lemma_strokes_bbox_translate(ss.drop_last(), dx, dy);
        lemma_points_bbox_translate(ss.last().points, dx, dy);
        assert(mapped.drop_last() =~= ss.drop_last().map_values(
            |s: StrokeV| translate_stroke(s, dx, dy),
        ));
        assert(mapped.last() == translate_stroke(ss.last(), dx, dy));
    }
}

proof fn lemma_polyline_translate(ps: Seq<PointV>, ox: int, oy: int, dx: int, dy: int)
    ensures
        polyline_str(ps.map_values(|p: PointV| translate_point(p, dx, dy)), ox + dx, oy + dy)
            == polyline_str(ps, ox, oy),
    decreases ps.len(),
{
    let mapped = ps.map_values(|p: PointV| translate_point(p, dx, dy));
    if ps.len() > 0 {
        lemma_polyline_translate(ps.drop_last(), ox, oy, dx, dy);
        assert(mapped.drop_last() =~= ps.drop_last().map_values(
            |p: PointV| translate_point(p, dx, dy),
        ));
        assert(mapped.last() == translate_point(ps.last(), dx, dy));
        assert(pair_str(translate_point(ps.last(), dx, dy), ox + dx, oy + dy) == pair_str(
            ps.last(),
            ox,
            oy,
        ));
        if ps.len() == 1 {
            assert(mapped[0] == translate_point(ps[0], dx, dy));
        }
    }
}

proof fn lemma_strokes_markup_translate(ss: Seq<StrokeV>, ox: int, oy: int, dx: int, dy: int)
    ensures
        strokes_markup(ss.map_values(|s: StrokeV| translate_stroke(s, dx, dy)), ox + dx, oy + dy)
            == strokes_markup(ss, ox, oy),
    decreases ss.len(),
{
    let mapped = ss.map_values(|s: StrokeV| translate_stroke(s, dx, dy));
    if ss.len() > 0 {
        lemma_strokes_markup_translate(ss.drop_last(), ox, oy, dx, dy);
        lemma_polyline_translate(ss.last().points, ox, oy, dx, dy);
        assert(mapped.drop_last() =~= ss.drop_last().map_values(
            |s: StrokeV| translate_stroke(s, dx, dy),
        ));
        assert(mapped.last() == translate_stroke(ss.last(), dx, dy));
        assert(stroke_markup(translate_stroke(ss.last(), dx, dy), ox + dx, oy + dy)
            == stroke_markup(ss.last(), ox, oy));
    }
}

proof fn lemma_points_bbox_none(ps: Seq<PointV>)
    ensures
        points_bbox(ps) is None ==> ps.len() == 0,
    decreases ps.len(),
{
    if ps.len() > 0 {
        lemma_points_bbox_none(ps.drop_last());
    }
}

proof fn lemma_strokes_bbox_none(ss: Seq<StrokeV>)
    ensures
        strokes_bbox(ss) is None ==> forall|i: int| 0 <= i < ss.len() ==> ss[i].points.len() == 0,
    decreases ss.len(),
{
    if ss.len() > 0 {
        lemma_strokes_bbox_none(ss.drop_last());
        lemma_points_bbox_none(ss.last().points);
        if strokes_bbox(ss) is None {
            assert forall|i: int| 0 <= i < ss.len() implies ss[i].points.len() == 0 by {
                if i < ss.len() - 1 {
                    assert(ss.drop_last()[i] == ss[i]);
                }
            }
        }
    }
}

proof fn lemma_strokes_markup_empty_points(
    ss: Seq<StrokeV>,
    ox1: int,
    oy1: int,
    ox2: int,
    oy2: int,
    dx: int,
    dy: int,
)
    requires
        forall|i: int| 0 <= i < ss.len() ==> ss[i].points.len() == 0,
    ensures
        strokes_markup(ss.map_values(|s: StrokeV| translate_stroke(s, dx, dy)), ox1, oy1)
            == strokes_markup(ss, ox2, oy2),
    decreases ss.len(),
{
    let mapped = ss.map_values(|s: StrokeV| translate_stroke(s, dx, dy));
    if ss.len() > 0 {
        lemma_strokes_markup_empty_points(ss.drop_last(), ox1, oy1, ox2, oy2, dx, dy);
        assert(mapped.drop_last() =~= ss.drop_last().map_values(
            |s: StrokeV| translate_stroke(s, dx, dy),
        ));
        assert(mapped.last() == translate_stroke(ss.last(), dx, dy));
        assert(mapped.last().points =~= Seq::<PointV>::empty());
        assert(ss.last().points =~= Seq::<PointV>::empty());
    }
}

/// Translating every point of a board by a constant offset does not change
/// the rendered markup: the output depends only on the strokes' shape, never
/// on the board's absolute canvas position.
pub proof fn lemma_render_translation_invariant(b: BoardV, dx: int, dy: int, bg: Seq<char>)
    ensures
        render_markup(translate_board(b, dx, dy), bg) == render_markup(b, bg),
{
    let tb = translate_board(b, dx, dy);
    lemma_strokes_bbox_translate(b.strokes, dx, dy);
    match board_bbox(b) {
        Some(t) => {
            assert(spec_width(tb) == spec_width(b));
            assert(spec_height(tb) == spec_height(b));
            assert(spec_x_offset(tb) == spec_x_offset(b) + dx);
            assert(spec_y_offset(tb) == spec_y_offset(b) + dy);
            lemma_strokes_markup_translate(b.strokes, spec_x_offset(b), spec_y_offset(b), dx, dy);
        },
        None => {
            lemma_strokes_bbox_none(b.strokes);
            lemma_strokes_markup_empty_points(b.strokes, 0, 0, 0, 0, dx, dy);
        },
    }
}

/// A board with no strokes renders as an empty drawing: width 0, height 0,
/// and not one polyline element.
pub proof fn lemma_render_empty_board(b: BoardV, bg: Seq<char>)
    requires
        b.strokes.len() == 0,
    ensures
        spec_width(b) == 0,
        spec_height(b) == 0,
        render_markup(b, bg) == svg_open(0, 0, bg) + ("</svg>")@,
{
    assert(strokes_markup(b.strokes, spec_x_offset(b), spec_y_offset(b)) == Seq::<char>::empty());
    assert(svg_open(0, 0, bg) + Seq::<char>::empty() + ("</svg>")@ =~= svg_open(0, 0, bg) + (
    "</svg>")@);
}

} // verus!
