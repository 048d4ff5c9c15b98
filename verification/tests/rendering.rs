use whiteboarder::data::{Board, Point, Stroke, TeraStroke};
use whiteboarder::drawing::draw_svg;

fn stroke(color: &str, size: i32, pts: &[(i32, i32)]) -> Stroke {
    Stroke {
        timestamp: 1,
        color: color.to_string(),
        size,
        points: pts.iter().map(|&(x, y)| Point { x, y }).collect(),
    }
}

fn example_board() -> Board {
    Board { id: "b1".to_string(), strokes: vec![stroke("#000", 2, &[(10, 10), (20, 30)])] }
}

#[test]
fn render_example_board() {
    let b = example_board();
    assert_eq!(b.width(), 10);
    assert_eq!(b.height(), 20);
    assert_eq!(b.x_offset(), 10);
    assert_eq!(b.y_offset(), 10);
    let svg = draw_svg(&b, None);
    assert_eq!(
        svg,
        "<svg xmlns=\"http://www.w3.org/2000/svg\" width=\"10\" height=\"20\" \
         style=\"background-color: transparent\">\
         <polyline points=\"0,0 10,20\" stroke=\"#000\" stroke-width=\"2\" fill=\"none\" />\
         </svg>"
    );
}

#[test]
fn render_empty_board() {
    let b = Board::new("empty".to_string());
    assert_eq!(b.width(), 0);
    assert_eq!(b.height(), 0);
    let svg = draw_svg(&b, None);
    assert_eq!(
        svg,
        "<svg xmlns=\"http://www.w3.org/2000/svg\" width=\"0\" height=\"0\" \
         style=\"background-color: transparent\"></svg>"
    );
    assert!(!svg.contains("polyline"));
}

#[test]
fn render_background_color() {
    let b = Board::new("bg".to_string());
    let svg = draw_svg(&b, Some("#abc".to_string()));
    assert!(svg.contains("style=\"background-color: #abc\""));
}

#[test]
fn render_translation_invariant() {
    let b = example_board();
    let shifts = [(5, -7), (-1000, 1000), (123456, -654321)];
    let base = draw_svg(&b, None);
    for &(dx, dy) in shifts.iter() {
        let moved = Board {
            id: b.id.clone(),
            strokes: b
                .strokes
                .iter()
                .map(|s| Stroke {
                    timestamp: s.timestamp,
                    color: s.color.clone(),
                    size: s.size,
                    points: s.points.iter().map(|p| Point { x: p.x + dx, y: p.y + dy }).collect(),
                })
                .collect(),
        };
        assert_eq!(draw_svg(&moved, None), base);
    }
}

#[test]
fn render_multiple_strokes() {
    let b = Board {
        id: "m".to_string(),
        strokes: vec![
            stroke("red", 1, &[(-5, 0), (0, 5)]),
            stroke("blue", 3, &[(10, -2)]),
        ],
    };
    assert_eq!(b.x_offset(), -5);
    assert_eq!(b.y_offset(), -2);
    assert_eq!(b.width(), 15);
    assert_eq!(b.height(), 7);
    let svg = draw_svg(&b, None);
    assert!(svg.contains("<polyline points=\"0,2 5,7\" stroke=\"red\" stroke-width=\"1\" fill=\"none\" />"));
    assert!(svg.contains("<polyline points=\"15,0\" stroke=\"blue\" stroke-width=\"3\" fill=\"none\" />"));
}

#[test]
fn terastroke_polyline_text() {
    let ts = TeraStroke::new(
        "#123".to_string(),
        4,
        vec![Point { x: 3, y: 4 }, Point { x: -2, y: 10 }],
        1,
        2,
    );
    assert_eq!(ts.polyline, "2,2 -3,8");
    assert_eq!(ts.color, "#123");
    assert_eq!(ts.size, 4);
}

#[test]
fn renderable_uses_board_offsets() {
    let b = example_board();
    let ts = b.strokes[0].renderable(b.x_offset(), b.y_offset());
    assert_eq!(ts.polyline, "0,0 10,20");
}

#[test]
fn strokes_without_points_render_empty_polylines() {
    let b = Board { id: "e".to_string(), strokes: vec![stroke("#000", 2, &[])] };
    assert_eq!(b.width(), 0);
    assert_eq!(b.height(), 0);
    let svg = draw_svg(&b, None);
    assert!(svg.contains("<polyline points=\"\""));
}

#[test]
fn render_handles_extreme_coordinates() {
    let b = Board {
        id: "wide".to_string(),
        strokes: vec![stroke("#000", 1, &[(i32::MIN, i32::MIN), (i32::MAX, i32::MAX)])],
    };
    let svg = draw_svg(&b, None);
    assert!(svg.contains("width=\"4294967295\" height=\"4294967295\""));
    assert!(svg.contains("<polyline points=\"0,0 4294967295,4294967295\""));
}

