use text_mesh::style::{fill_draw_requests, DrawKind, DrawRequest, SegmentStyle};

fn base_style() -> SegmentStyle {
    SegmentStyle {
        fill_color: 1,
        stroke_width: 0,
        stroke_color: 2,
        underline: false,
        strikethrough: false,
        layer: 3,
        offset_x: 5,
        offset_y: 6,
        offset_z: 7,
        weight: 700,
    }
}

fn expand(s: &SegmentStyle) -> Vec<DrawRequest> {
    let mut out = Vec::new();
    fill_draw_requests(s, &mut out);
    out
}

#[test]
fn plain_style_expands_to_fill_only() {
    let reqs = expand(&base_style());
    assert_eq!(reqs.len(), 1);
    assert_eq!(reqs[0].kind, DrawKind::Fill);
    assert_eq!(reqs[0].color, 1);
    assert_eq!((reqs[0].offset_x, reqs[0].offset_y, reqs[0].offset_z), (5, 6, 7));
    assert_eq!(reqs[0].layer, 4 * 3 + 2);
}

#[test]
fn stroke_expands_behind_fill_with_its_own_color() {
    let mut s = base_style();
    s.stroke_width = 9;
    let reqs = expand(&s);
    assert_eq!(reqs.len(), 2);
    assert_eq!(reqs[0].kind, DrawKind::Stroke(9));
    assert_eq!(reqs[0].color, 2);
    assert_eq!(reqs[1].kind, DrawKind::Fill);
    assert!(reqs[0].layer < reqs[1].layer);
}

#[test]
fn decorations_expand_around_the_fill() {
    let mut s = base_style();
    s.underline = true;
    s.strikethrough = true;
    let reqs = expand(&s);
    assert_eq!(reqs.len(), 3);
    assert_eq!(reqs[0].kind, DrawKind::Underline);
    assert_eq!(reqs[1].kind, DrawKind::Fill);
    assert_eq!(reqs[2].kind, DrawKind::Strikethrough);
    assert!(reqs[0].layer < reqs[1].layer && reqs[1].layer < reqs[2].layer);
}
