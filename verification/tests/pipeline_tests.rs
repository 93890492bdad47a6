use text_mesh::atlas::{AtlasCache, StrokeJoin};
use text_mesh::pipeline::{
    plan_pass, render_text, Align, AnchorH, AnchorV, LayoutLine, PassAction, RenderOutput,
    ShapedGlyph, Styling, TextInput,
};
use text_mesh::style::SegmentStyle;
use text_mesh::tess::{CommandEncoder, PathCommand};

fn square_outline(side: i32) -> Vec<PathCommand> {
    let mut enc = CommandEncoder::new();
    enc.move_to(0, 0);
    enc.line_to(side, 0);
    enc.line_to(side, side);
    enc.line_to(0, side);
    enc.close();
    enc.commands
}

fn plain_style() -> SegmentStyle {
    SegmentStyle {
        fill_color: 0xffff_ffff,
        stroke_width: 0,
        stroke_color: 0,
        underline: false,
        strikethrough: false,
        layer: 0,
        offset_x: 0,
        offset_y: 0,
        offset_z: 0,
        weight: 400,
    }
}

fn styling() -> Styling {
    Styling {
        size: 12,
        align: Align::Left,
        anchor_h: AnchorH::Center,
        anchor_v: AnchorV::Center,
        world_scale: 0,
        stroke_join: StrokeJoin::Miter,
        deco_eps: 1,
    }
}

fn glyph(x: i32, w: i32, glyph_id: u16, segment: usize, outline: Vec<PathCommand>) -> ShapedGlyph {
    ShapedGlyph {
        x,
        y: 0,
        w,
        font: 1,
        glyph_id,
        size_bits: 0x4140_0000,
        segment,
        outline,
        scale_num: 1,
        scale_den: 1,
        upem: 100,
        underline_offset: 4,
        underline_thickness: 2,
        strike_offset: 8,
        strike_thickness: 2,
    }
}

fn two_glyph_input() -> TextInput {
    let glyphs = vec![
        glyph(0, 10, 40, 0, square_outline(10)),
        glyph(10, 10, 41, 0, square_outline(8)),
    ];
    TextInput {
        lines: vec![LayoutLine { glyphs, line_w: 20, line_y: 0, line_top: 0, line_height: 14 }],
        styles: vec![plain_style()],
        styling: styling(),
    }
}

fn mesh_fields(out: &RenderOutput) -> (usize, usize, usize) {
    (out.mesh.positions.len(), out.mesh.quads.len(), out.mesh.indices.len())
}

#[test]
fn two_glyphs_give_two_quads_and_width_is_sum_of_advances() {
    let mut cache = AtlasCache::new(64, 64);
    let out = render_text(&two_glyph_input(), &mut cache);
    let (verts, quads, indices) = mesh_fields(&out);
    assert_eq!(quads, 2);
    assert_eq!(verts, 8);
    assert_eq!(indices, 12); // four triangles
    assert_eq!(out.dim_x, 20); // both advances
    assert_eq!(cache.entries.len(), 2);
    // two distinct, non-overlapping placements in one atlas
    let a = out.mesh.uv0_px[0];
    let b = out.mesh.uv0_px[4];
    assert_ne!((a.u, a.v), (b.u, b.v));
}

#[test]
fn second_identical_pass_reuses_cache_and_rebuilds_identically() {
    let mut cache = AtlasCache::new(64, 64);
    let first = render_text(&two_glyph_input(), &mut cache);
    let cached = cache.entries.len();
    let again = render_text(&two_glyph_input(), &mut cache);
    assert_eq!(cache.entries.len(), cached); // no new cache entries
    assert_eq!(first.mesh.positions, again.mesh.positions);
    assert_eq!(first.mesh.normals, again.mesh.normals);
    assert_eq!(first.mesh.uv0_px, again.mesh.uv0_px);
    assert_eq!(first.mesh.uv0, again.mesh.uv0);
    assert_eq!(first.mesh.uv1, again.mesh.uv1);
    assert_eq!(first.mesh.colors, again.mesh.colors);
    assert_eq!(first.mesh.indices, again.mesh.indices);
    assert_eq!((first.dim_x, first.dim_y), (again.dim_x, again.dim_y));
}

#[test]
fn underline_runs_split_by_gap_glyph() {
    let mut style_deco = plain_style();
    style_deco.underline = true;
    let styles = vec![style_deco, plain_style()];
    let mut glyphs = Vec::new();
    // five contiguous underlined glyphs, one gap glyph, three more underlined
    for i in 0..5 {
        glyphs.push(glyph(i * 10, 10, 50 + i as u16, 0, Vec::new()));
    }
    glyphs.push(glyph(50, 10, 60, 1, Vec::new()));
    for i in 0..3 {
        glyphs.push(glyph(60 + i * 10, 10, 70 + i as u16, 0, Vec::new()));
    }
    let input = TextInput {
        lines: vec![LayoutLine {
            glyphs,
            line_w: 90,
            line_y: 0,
            line_top: 0,
            line_height: 14,
        }],
        styles,
        styling: styling(),
    };
    let mut cache = AtlasCache::new(64, 64);
    let out = render_text(&input, &mut cache);
    // the glyphs have no ink, so the only quads are the two decoration runs
    assert_eq!(out.mesh.quads.len(), 2);
    // each quad spans its contiguous run: widths 50 and 30
    let w0 = out.mesh.positions[1].x - out.mesh.positions[0].x;
    let w1 = out.mesh.positions[5].x - out.mesh.positions[4].x;
    assert_eq!((w0, w1), (50, 30));
}

#[test]
fn atlas_growth_during_build_keeps_placements_valid() {
    // two large glyphs force the second shelf past the initial height
    let glyphs = vec![
        glyph(0, 40, 80, 0, square_outline(36)),
        glyph(40, 40, 81, 0, square_outline(36)),
    ];
    let input = TextInput {
        lines: vec![LayoutLine { glyphs, line_w: 80, line_y: 0, line_top: 0, line_height: 44 }],
        styles: vec![plain_style()],
        styling: styling(),
    };
    let mut cache = AtlasCache::new(64, 64);
    let out = render_text(&input, &mut cache);
    assert_eq!(out.mesh.quads.len(), 2);
    assert!(out.atlas_h > 64);
    assert_eq!(out.atlas_w, 64);
    // the first placement still sits at the origin shelf and its patch
    // pixels survived the growth: its interior is fully covered
    let a = cache.resolve(text_mesh::atlas::GlyphIdentity {
        font: 1,
        glyph_id: 80,
        size_bits: 0x4140_0000,
        weight: 400,
        stroke: 0,
        join: StrokeJoin::Miter,
    })
    .unwrap();
    assert_eq!((a.rect.x, a.rect.y), (0, 0));
    let center = ((a.rect.y + a.rect.h / 2) * cache.image.width + a.rect.x + a.rect.w / 2) as usize;
    assert_eq!(cache.image.pixels[center], 255);
}

#[test]
fn underline_color_change_splits_runs_and_keeps_colors() {
    let mut s0 = plain_style();
    s0.underline = true;
    s0.fill_color = 0x11;
    let mut s1 = plain_style();
    s1.underline = true;
    s1.fill_color = 0x22;
    let mut glyphs = Vec::new();
    // three glyphs of one color, then three of another, contiguous
    for i in 0..3 {
        glyphs.push(glyph(i * 10, 10, 90 + i as u16, 0, Vec::new()));
    }
    for i in 0..3 {
        glyphs.push(glyph(30 + i * 10, 10, 95 + i as u16, 1, Vec::new()));
    }
    let input = TextInput {
        lines: vec![LayoutLine {
            glyphs,
            line_w: 60,
            line_y: 0,
            line_top: 0,
            line_height: 14,
        }],
        styles: vec![s0, s1],
        styling: styling(),
    };
    let mut cache = AtlasCache::new(64, 64);
    let out = render_text(&input, &mut cache);
    // the color change flushes the run: two rectangles, one per color
    assert_eq!(out.mesh.quads.len(), 2);
    assert_eq!(out.mesh.colors[out.mesh.quads[0].v0 as usize], 0x11);
    assert_eq!(out.mesh.colors[out.mesh.quads[1].v0 as usize], 0x22);
    let w0 = out.mesh.positions[1].x - out.mesh.positions[0].x;
    let w1 = out.mesh.positions[5].x - out.mesh.positions[4].x;
    assert_eq!((w0, w1), (30, 30));
}

#[test]
fn second_pass_on_warm_cache_leaves_cache_bit_unchanged() {
    let mut cache = AtlasCache::new(64, 64);
    let _ = render_text(&two_glyph_input(), &mut cache);
    let entries_before = cache.entries.clone();
    let pixels_before = cache.image.pixels.clone();
    let _ = render_text(&two_glyph_input(), &mut cache);
    assert_eq!(cache.entries, entries_before);
    assert_eq!(cache.image.pixels, pixels_before);
}

#[test]
fn plan_pass_decides_skip_rescale_rebuild() {
    assert_eq!(plan_pass(true, 64, 64, 64, 64), PassAction::Rebuild);
    assert_eq!(plan_pass(false, 64, 64, 64, 64), PassAction::Skip);
    assert_eq!(plan_pass(false, 64, 64, 64, 128), PassAction::Rescale);
}

#[test]
fn glyph_without_outline_contributes_no_quad() {
    let glyphs = vec![glyph(0, 10, 40, 0, Vec::new())];
    let input = TextInput {
        lines: vec![LayoutLine { glyphs, line_w: 10, line_y: 0, line_top: 0, line_height: 14 }],
        styles: vec![plain_style()],
        styling: styling(),
    };
    let mut cache = AtlasCache::new(64, 64);
    let out = render_text(&input, &mut cache);
    assert_eq!(out.mesh.quads.len(), 0);
    assert_eq!(cache.entries.len(), 0);
}

#[test]
fn glyph_with_missing_segment_is_skipped() {
    let glyphs = vec![glyph(0, 10, 40, 5, square_outline(10))];
    let input = TextInput {
        lines: vec![LayoutLine { glyphs, line_w: 10, line_y: 0, line_top: 0, line_height: 14 }],
        styles: vec![plain_style()],
        styling: styling(),
    };
    let mut cache = AtlasCache::new(64, 64);
    let out = render_text(&input, &mut cache);
    assert_eq!(out.mesh.quads.len(), 0);
}

#[test]
fn stroke_layer_sorts_behind_fill_layer() {
    let mut style = plain_style();
    style.stroke_width = 4;
    style.stroke_color = 0xff00_0000;
    let glyphs = vec![glyph(0, 10, 40, 0, square_outline(10))];
    let input = TextInput {
        lines: vec![LayoutLine { glyphs, line_w: 10, line_y: 0, line_top: 0, line_height: 14 }],
        styles: vec![style],
        styling: styling(),
    };
    let mut cache = AtlasCache::new(64, 64);
    let out = render_text(&input, &mut cache);
    assert_eq!(out.mesh.quads.len(), 2);
    // the stroke quad (layer 1) is drawn before the fill quad (layer 2)
    assert!(out.mesh.quads[0].layer < out.mesh.quads[1].layer);
    assert_eq!(out.mesh.colors[out.mesh.quads[0].v0 as usize], 0xff00_0000);
    assert_eq!(out.mesh.colors[out.mesh.quads[1].v0 as usize], 0xffff_ffff);
}
