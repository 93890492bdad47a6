use text_mesh::tess::{tess_glyph, CommandEncoder, PathCommand};

fn square(side: i32) -> Vec<PathCommand> {
    let mut enc = CommandEncoder::new();
    enc.move_to(0, 0);
    enc.line_to(side, 0);
    enc.line_to(side, side);
    enc.line_to(0, side);
    enc.close();
    enc.commands
}

fn at(t: &text_mesh::tess::TessResult, px: u32, py: u32) -> u8 {
    t.patch.data[(py * t.patch.width + px) as usize]
}

#[test]
fn empty_outline_has_no_patch() {
    let cmds: Vec<PathCommand> = Vec::new();
    assert!(tess_glyph(&cmds, 0, 1, 1).is_none());
}

#[test]
fn filled_square_covers_interior_not_margin() {
    let t = tess_glyph(&square(10), 0, 1, 1).unwrap();
    // bounding box 10x10 plus a 2 pixel pad on each side
    assert_eq!(t.patch.width, 14);
    assert_eq!(t.patch.height, 14);
    assert_eq!(t.offset_x, -2);
    assert_eq!(t.offset_y, -2);
    // device pixel (5,5) is the center of the square
    assert_eq!(at(&t, 7, 7), 255);
    assert_eq!(at(&t, 2, 2), 255); // device (0,0): center (0.5,0.5) inside
    assert_eq!(at(&t, 0, 0), 0); // margin pixel
    assert_eq!(at(&t, 13, 13), 0); // margin pixel
    assert_eq!(at(&t, 12, 7), 0); // device (10,5): center (10.5,.) outside
}

#[test]
fn scaling_doubles_the_raster() {
    let t = tess_glyph(&square(10), 0, 2, 1).unwrap();
    assert_eq!(t.patch.width, 24);
    assert_eq!(t.patch.height, 24);
    let u = tess_glyph(&square(10), 0, 1, 2).unwrap();
    assert_eq!(u.patch.width, 9);
}

#[test]
fn stroked_square_covers_border_not_center() {
    // stroke width 4 in doubled units: radius 2 device pixels
    let t = tess_glyph(&square(10), 4, 1, 1).unwrap();
    assert_eq!(t.patch.width, 18); // 10 + 2 * (4/2 + 2)
    assert_eq!(t.offset_x, -4);
    // device (0,5): center within 2px of the left edge
    assert_eq!(at(&t, 4, 9), 255);
    // device (5,5): center of the square, 4.5px from every edge
    assert_eq!(at(&t, 9, 9), 0);
    // device (-4,5): beyond the stroke radius
    assert_eq!(at(&t, 0, 9), 0);
}

#[test]
fn quadratic_curve_flattens_and_fills() {
    // a filled shape closed by a quadratic arc
    let mut enc = CommandEncoder::new();
    enc.move_to(0, 0);
    enc.line_to(16, 0);
    enc.quad_to(16, 16, 0, 16);
    enc.close();
    let t = tess_glyph(&enc.commands, 0, 1, 1).unwrap();
    // interior near the straight corner is filled
    assert_eq!(at(&t, 4, 4), 255);
    // the far corner (16,16) lies outside the arc
    let px = (16 - t.offset_x - 1) as u32;
    let py = (16 - t.offset_y - 1) as u32;
    assert_eq!(at(&t, px, py), 0);
}

#[test]
fn whitespace_like_outline_without_segments_is_none() {
    let mut enc = CommandEncoder::new();
    enc.move_to(5, 5);
    enc.close();
    assert!(tess_glyph(&enc.commands, 0, 1, 1).is_none());
}
