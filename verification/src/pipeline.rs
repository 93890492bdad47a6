//! The per-entity text rendering pass: walks shaped glyph runs line by
//! line, expands each glyph into draw requests, resolves atlas placements
//! (tessellating and packing on a miss), merges decoration runs, and
//! builds the sorted, finalized mesh buffers.
//!
//! The pass consumes plain shaped-text data (positions, outlines and
//! styles supplied by the host's shaping and font layers) and a shared
//! atlas cache; it produces fresh mesh buffers and the text block's
//! dimensions.

use vstd::prelude::*;
use crate::atlas::{AtlasCache, AtlasPlacement, GlyphIdentity, RasterPatch, StrokeJoin};
use crate::decor::{decoration_runs, decoration_runs_spec, DecoGlyph, DecoRun};
use crate::mesh::{clamp_i32, quads_sorted, MeshBuffers, ScreenRect};
use crate::style::{expand_spec, fill_draw_requests, DrawKind, DrawRequest, SegmentStyle};
use crate::tess::{div_trunc, max2, min2, tess_glyph};

verus! {

/// One positioned glyph from the shaping engine, with its outline (in
/// font units), the scale to device pixels, the font's units per em, and
/// per-kind decoration metrics (offset from the baseline and thickness,
/// in the same units as the positions).
pub struct ShapedGlyph {
    pub x: i32,
    pub y: i32,
    pub w: i32,
    pub font: u32,
    pub glyph_id: u16,
    pub size_bits: u32,
    pub segment: usize,
    pub outline: Vec<crate::tess::PathCommand>,
    pub scale_num: u32,
    pub scale_den: u32,
    pub upem: u32,
    pub underline_offset: i32,
    pub underline_thickness: u32,
    pub strike_offset: i32,
    pub strike_thickness: u32,
}

/// A style's stroke width converted to device pixels: the width is a
/// hundredth of an em, so it first becomes `w * upem / 100` font units
/// and then scales with the glyph's own scale, capped at the tessellation
/// limit at each step.
pub open spec fn stroke_device_spec(w: u32, upem: u32, num: u32, den: u32) -> int {
    let fu = (w * upem) / 100;
    let fu_c = if fu > 0x10_0000 {
        0x10_0000int
    } else {
        fu as int
    };
    let dev = (fu_c * num) / (den as int);
    if dev > 0x10_0000 {
        0x10_0000int
    } else {
        dev
    }
}

fn stroke_device(w: u32, upem: u32, num: u32, den: u32) -> (r: u32)
    requires
        1 <= den,
        num <= 0x10_0000,
    ensures
        r == stroke_device_spec(w, upem, num, den),
        r <= 0x10_0000,
{
    proof {
        crate::mesh::lemma_mul_le(w as int, upem as int, 0xffff_ffff, 0xffff_ffff);
    }
    let fu: u64 = ((w as u64) * (upem as u64)) / 100;
    let fu_c: u64 = if fu > 0x10_0000 {
        0x10_0000
    } else {
        fu
    };
    proof {
        crate::mesh::lemma_mul_le(fu_c as int, num as int, 0x10_0000, 0x10_0000);
    }
    let dev: u64 = (fu_c * (num as u64)) / (den as u64);
    if dev > 0x10_0000 {
        0x10_0000u32
    } else {
        dev as u32
    }
}

/// One visual line of shaped glyphs.
pub struct LayoutLine {
    pub glyphs: Vec<ShapedGlyph>,
    pub line_w: i32,
    pub line_y: i32,
    pub line_top: i32,
    pub line_height: i32,
}

#[derive(PartialEq, Eq, Structural, Clone, Copy, Debug)]
pub enum Align {
    Left,
    Center,
    Right,
}

#[derive(PartialEq, Eq, Structural, Clone, Copy, Debug)]
pub enum AnchorH {
    Left,
    Center,
    Right,
}

#[derive(PartialEq, Eq, Structural, Clone, Copy, Debug)]
pub enum AnchorV {
    Top,
    Center,
    Bottom,
}

/// Entity-level styling: font size, alignment, anchor, optional world
/// scale (zero means none), stroke join, and the decoration-merge epsilon.
#[derive(PartialEq, Eq, Structural, Clone, Copy, Debug)]
pub struct Styling {
    pub size: u32,
    pub align: Align,
    pub anchor_h: AnchorH,
    pub anchor_v: AnchorV,
    pub world_scale: u32,
    pub stroke_join: StrokeJoin,
    pub deco_eps: u32,
}

/// Everything one entity's rebuild consumes.
pub struct TextInput {
    pub lines: Vec<LayoutLine>,
    pub styles: Vec<SegmentStyle>,
    pub styling: Styling,
}

/// The rebuilt mesh and the block's measured dimensions, plus the atlas
/// dimensions the UV0 channel was normalized against.
pub struct RenderOutput {
    pub mesh: MeshBuffers,
    pub dim_x: i32,
    pub dim_y: i32,
    pub atlas_w: u32,
    pub atlas_h: u32,
    pub off_x: i32,
    pub off_y: i32,
}

/// What a pass does for one entity, decided from the change signal and
/// the stored atlas dimensions.
#[derive(PartialEq, Eq, Structural, Clone, Copy, Debug)]
pub enum PassAction {
    Skip,
    Rescale,
    Rebuild,
}

/// Change detection: unchanged text with unchanged atlas dimensions is
/// skipped; unchanged text under a resized atlas only rescales UV0; any
/// content change rebuilds.
pub fn plan_pass(changed: bool, stored_w: u32, stored_h: u32, cur_w: u32, cur_h: u32) -> (r:
    PassAction)
    ensures
        changed ==> r == PassAction::Rebuild,
        !changed && stored_w == cur_w && stored_h == cur_h ==> r == PassAction::Skip,
        !changed && !(stored_w == cur_w && stored_h == cur_h) ==> r == PassAction::Rescale,
{
    if changed {
        PassAction::Rebuild
    } else if stored_w == cur_w && stored_h == cur_h {
        PassAction::Skip
    } else {
        PassAction::Rescale
    }
}

/// The identity under which the solid decoration patch is cached.
pub open spec fn deco_identity() -> GlyphIdentity {
    GlyphIdentity {
        font: 0xffff_ffff,
        glyph_id: 0xffff,
        size_bits: 0,
        weight: 0,
        stroke: 0,
        join: StrokeJoin::Miter,
    }
}

fn deco_identity_exec() -> (r: GlyphIdentity)
    ensures
        r == deco_identity(),
{
    GlyphIdentity {
        font: 0xffff_ffff,
        glyph_id: 0xffff,
        size_bits: 0,
        weight: 0,
        stroke: 0,
        join: StrokeJoin::Miter,
    }
}

/// A fully-covered 2-by-2 patch that decoration rectangles sample.
fn solid_patch() -> (r: RasterPatch)
    ensures
        r.wf(),
        r.width == 2,
        r.height == 2,
{
    let mut data: Vec<u8> = Vec::new();
    data.push(255);
    data.push(255);
    data.push(255);
    data.push(255);
    RasterPatch { width: 2, height: 2, data }
}

fn clamp_px(v: i64) -> (r: i32)
    ensures
        r == clamp_i32(v as int),
{
    if v < -0x8000_0000i64 {
        i32::MIN
    } else if v > 0x7fff_ffffi64 {
        i32::MAX
    } else {
        v as i32
    }
}

/// Pending decoration state for one line and one decoration kind: the
/// glyph spans collected so far and the drawing attributes of the run.
struct DecoLine {
    glyphs: Vec<DecoGlyph>,
    color: u32,
    layer: i64,
    offset_z: i32,
    y_pos: i32,
}

/// One quad of the build phase, before the finalization passes: its
/// screen rectangle, its atlas pixel corners, color, layer and depth.
pub struct QuadSpec {
    pub rect: ScreenRect,
    pub u0: u32,
    pub v0: u32,
    pub u1: u32,
    pub v1: u32,
    pub color: u32,
    pub layer: i64,
    pub z: i32,
    /// Whether this quad is glyph ink (measured into the block extents).
    pub ink: bool,
    /// The glyph's advance edge, measured into the block width.
    pub adv: i32,
}

/// Decoration collection state threaded through one line's glyphs.
pub struct DecoStateSpec {
    pub glyphs: Seq<DecoGlyph>,
    pub color: u32,
    pub layer: i64,
    pub z: i32,
    pub y: i32,
}

/// The quads the rest of a glyph sequence builds, plus the decoration
/// states it leaves open.
pub struct BuildStep {
    pub quads: Seq<QuadSpec>,
    pub und: DecoStateSpec,
    pub strike: DecoStateSpec,
}

pub open spec fn empty_deco() -> DecoStateSpec {
    DecoStateSpec { glyphs: Seq::empty(), color: 0, layer: 0, z: 0, y: 0 }
}

/// The horizontal alignment shift of one line.
pub open spec fn align_dx(a: Align, line_w: i32) -> int {
    match a {
        Align::Left => 0int,
        Align::Center => -div_trunc(line_w as int, 2),
        Align::Right => -(line_w as int),
    }
}

/// The cache identity a fill or stroke request looks up for a glyph.
pub open spec fn glyph_identity_of(
    g: ShapedGlyph,
    s: SegmentStyle,
    kind: DrawKind,
    join: StrokeJoin,
) -> GlyphIdentity {
    let sw: u32 = match kind {
        DrawKind::Stroke(w) => stroke_device_spec(w, g.upem, g.scale_num, g.scale_den) as u32,
        _ => 0u32,
    };
    GlyphIdentity {
        font: g.font,
        glyph_id: g.glyph_id,
        size_bits: g.size_bits,
        weight: s.weight,
        stroke: sw,
        join,
    }
}

/// The quad one fill or stroke request builds: exactly one when the
/// identity has a placement in the cache, positioned at the glyph's pen
/// position (aligned, offset by the request and the placement bearing)
/// and textured by the placement's pixel rectangle; none otherwise.
pub open spec fn glyph_quad(
    cache: AtlasCache,
    g: ShapedGlyph,
    req: DrawRequest,
    id: GlyphIdentity,
    dx: int,
    line_y: i32,
) -> Seq<QuadSpec> {
    if cache.spec_contains(id) {
        let p = cache.spec_index(id);
        let bx = clamp_i32(g.x + dx + req.offset_x + p.offset_x);
        let by = clamp_i32(g.y - line_y + req.offset_y + p.offset_y);
        seq![
            QuadSpec {
                rect: ScreenRect {
                    min_x: bx as i32,
                    min_y: by as i32,
                    max_x: clamp_i32(bx + p.rect.w) as i32,
                    max_y: clamp_i32(by + p.rect.h) as i32,
                },
                u0: p.rect.x,
                v0: p.rect.y,
                u1: (p.rect.x + p.rect.w) as u32,
                v1: (p.rect.y + p.rect.h) as u32,
                color: req.color,
                layer: req.layer,
                z: req.offset_z,
                ink: true,
                adv: clamp_i32(bx + g.w) as i32,
            },
        ]
    } else {
        Seq::empty()
    }
}

/// Collecting one decorated glyph: the first glyph of a run fixes the
/// run's color, layer, depth and vertical position.
pub open spec fn deco_push(
    st: DecoStateSpec,
    g: DecoGlyph,
    color: u32,
    layer: i64,
    z: i32,
    y: i32,
) -> DecoStateSpec {
    if st.glyphs.len() == 0 {
        DecoStateSpec { glyphs: seq![g], color, layer, z, y }
    } else {
        DecoStateSpec {
            glyphs: st.glyphs.push(g),
            color: st.color,
            layer: st.layer,
            z: st.z,
            y: st.y,
        }
    }
}

/// The quad one merged decoration run becomes: its horizontal span at the
/// run's thickness around the collected vertical position, sampling the
/// solid decoration patch.
pub open spec fn deco_run_quad(run: DecoRun, st: DecoStateSpec, p: AtlasPlacement) -> QuadSpec {
    QuadSpec {
        rect: ScreenRect {
            min_x: run.start,
            min_y: clamp_i32(st.y - run.thickness / 2) as i32,
            max_x: run.end,
            max_y: clamp_i32(st.y + run.thickness / 2 + 1) as i32,
        },
        u0: p.rect.x,
        v0: p.rect.y,
        u1: (p.rect.x + p.rect.w) as u32,
        v1: (p.rect.y + p.rect.h) as u32,
        color: st.color,
        layer: st.layer,
        z: st.z,
        ink: false,
        adv: 0,
    }
}

/// Flushing one decoration state: one quad per merged run, provided the
/// solid decoration patch has a placement.
pub open spec fn deco_quads(st: DecoStateSpec, cache: AtlasCache, eps: u32) -> Seq<QuadSpec> {
    if st.glyphs.len() == 0 || !cache.spec_contains(deco_identity()) {
        Seq::empty()
    } else {
        let p = cache.spec_index(deco_identity());
        let runs = decoration_runs_spec(st.glyphs, eps);
        Seq::new(runs.len(), |i: int| deco_run_quad(runs[i], st, p))
    }
}

/// A glyph takes part in the build when its segment exists and its scale
/// is usable.
pub open spec fn glyph_valid(g: ShapedGlyph, styles: Seq<SegmentStyle>) -> bool {
    g.segment < styles.len() && g.scale_den >= 1 && g.scale_num <= 0x10_0000
}

/// One collected decoration request: a style change — different color,
/// layer, depth or vertical position — flushes the open run group and
/// starts a new one with this glyph; otherwise the glyph joins the group.
pub open spec fn deco_step(
    st: DecoStateSpec,
    g: DecoGlyph,
    color: u32,
    layer: i64,
    z: i32,
    y: i32,
    cache: AtlasCache,
    eps: u32,
) -> (Seq<QuadSpec>, DecoStateSpec) {
    if st.glyphs.len() > 0 && !(st.color == color && st.layer == layer && st.z == z && st.y
        == y) {
        (deco_quads(st, cache, eps), DecoStateSpec { glyphs: seq![g], color, layer, z, y })
    } else {
        (Seq::empty(), deco_push(st, g, color, layer, z, y))
    }
}

/// The quads a glyph's remaining draw requests build, threading the
/// decoration states.
pub open spec fn step_requests(
    reqs: Seq<DrawRequest>,
    g: ShapedGlyph,
    s: SegmentStyle,
    join: StrokeJoin,
    dx: int,
    line_y: i32,
    cache: AtlasCache,
    eps: u32,
    und: DecoStateSpec,
    strike: DecoStateSpec,
) -> BuildStep
    decreases reqs.len(),
{
    if reqs.len() == 0 {
        BuildStep { quads: Seq::empty(), und, strike }
    } else {
        let req = reqs[0];
        match req.kind {
            DrawKind::Fill | DrawKind::Stroke(_) => {
                let q = glyph_quad(cache, g, req, glyph_identity_of(g, s, req.kind, join), dx,
                    line_y);
                let rest = step_requests(reqs.skip(1), g, s, join, dx, line_y, cache, eps, und,
                    strike);
                BuildStep { quads: q + rest.quads, und: rest.und, strike: rest.strike }
            },
            DrawKind::Underline => {
                let start = clamp_i32(g.x + dx + req.offset_x) as i32;
                let end = clamp_i32(start + g.w) as i32;
                let y = clamp_i32(-(line_y as int) + g.underline_offset + req.offset_y) as i32;
                let s2 = deco_step(
                    und,
                    DecoGlyph { start, end, thickness: g.underline_thickness, wants: true },
                    req.color,
                    req.layer,
                    req.offset_z,
                    y,
                    cache,
                    eps,
                );
                let rest = step_requests(reqs.skip(1), g, s, join, dx, line_y, cache, eps, s2.1,
                    strike);
                BuildStep { quads: s2.0 + rest.quads, und: rest.und, strike: rest.strike }
            },
            DrawKind::Strikethrough => {
                let start = clamp_i32(g.x + dx + req.offset_x) as i32;
                let end = clamp_i32(start + g.w) as i32;
                let y = clamp_i32(-(line_y as int) + g.strike_offset + req.offset_y) as i32;
                let s2 = deco_step(
                    strike,
                    DecoGlyph { start, end, thickness: g.strike_thickness, wants: true },
                    req.color,
                    req.layer,
                    req.offset_z,
                    y,
                    cache,
                    eps,
                );
                let rest = step_requests(reqs.skip(1), g, s, join, dx, line_y, cache, eps, und,
                    s2.1);
                BuildStep { quads: s2.0 + rest.quads, und: rest.und, strike: rest.strike }
            },
        }
    }
}

/// The quads the remaining glyphs of one line build.
pub open spec fn step_glyphs(
    glyphs: Seq<ShapedGlyph>,
    styles: Seq<SegmentStyle>,
    join: StrokeJoin,
    dx: int,
    line_y: i32,
    cache: AtlasCache,
    eps: u32,
    und: DecoStateSpec,
    strike: DecoStateSpec,
) -> BuildStep
    decreases glyphs.len(),
{
    if glyphs.len() == 0 {
        BuildStep { quads: Seq::empty(), und, strike }
    } else {
        let g = glyphs[0];
        let st1 = if glyph_valid(g, styles) {
            step_requests(
                expand_spec(styles[g.segment as int]),
                g,
                styles[g.segment as int],
                join,
                dx,
                line_y,
                cache,
                eps,
                und,
                strike,
            )
        } else {
            BuildStep { quads: Seq::empty(), und, strike }
        };
        let rest = step_glyphs(glyphs.skip(1), styles, join, dx, line_y, cache, eps, st1.und,
            st1.strike);
        BuildStep { quads: st1.quads + rest.quads, und: rest.und, strike: rest.strike }
    }
}

/// The quads one line builds: its glyph quads and flushed decoration
/// groups in request order, then the line-end flush of the open
/// underline group, then of the open strikethrough group.
pub open spec fn line_quads(
    line: LayoutLine,
    styles: Seq<SegmentStyle>,
    styling: Styling,
    cache: AtlasCache,
) -> Seq<QuadSpec> {
    let st = step_glyphs(
        line.glyphs@,
        styles,
        styling.stroke_join,
        align_dx(styling.align, line.line_w),
        line.line_y,
        cache,
        styling.deco_eps,
        empty_deco(),
        empty_deco(),
    );
    st.quads + deco_quads(st.und, cache, styling.deco_eps) + deco_quads(st.strike, cache,
        styling.deco_eps)
}

pub open spec fn lines_quads(
    lines: Seq<LayoutLine>,
    styles: Seq<SegmentStyle>,
    styling: Styling,
    cache: AtlasCache,
) -> Seq<QuadSpec>
    decreases lines.len(),
{
    if lines.len() == 0 {
        Seq::empty()
    } else {
        line_quads(lines[0], styles, styling, cache) + lines_quads(lines.skip(1), styles, styling,
            cache)
    }
}

/// The quads one entity's rebuild appends, in build order, as a function
/// of the input and the cache state after all misses were rendered.
pub open spec fn expected_quads(input: TextInput, cache: AtlasCache) -> Seq<QuadSpec> {
    lines_quads(input.lines@, input.styles@, input.styling, cache)
}

/// The flat per-vertex pixel UVs of a quad sequence.
pub open spec fn quads_uvs(qs: Seq<QuadSpec>) -> Seq<crate::mesh::Vec2u>
    decreases qs.len(),
{
    if qs.len() == 0 {
        Seq::empty()
    } else {
        quads_uvs(qs.drop_last()) + crate::mesh::quad_uvs_px(
            qs.last().u0,
            qs.last().v0,
            qs.last().u1,
            qs.last().v1,
        )
    }
}

/// The flat per-vertex positions of a quad sequence, before finalization.
pub open spec fn quads_positions_flat(qs: Seq<QuadSpec>) -> Seq<crate::mesh::Vec3i>
    decreases qs.len(),
{
    if qs.len() == 0 {
        Seq::empty()
    } else {
        quads_positions_flat(qs.drop_last()) + crate::mesh::quad_positions(
            qs.last().rect,
            qs.last().z,
        )
    }
}

/// The flat per-vertex colors of a quad sequence.
pub open spec fn quads_colors(qs: Seq<QuadSpec>) -> Seq<u32>
    decreases qs.len(),
{
    if qs.len() == 0 {
        Seq::empty()
    } else {
        quads_colors(qs.drop_last()) + seq![
            qs.last().color,
            qs.last().color,
            qs.last().color,
            qs.last().color,
        ]
    }
}

/// One quad's effect on the measured ink extents: the first ink quad
/// starts the block at its left edge and advance edge; later ink quads
/// widen it; decoration quads measure nothing.
pub open spec fn ink_step(st: (bool, int, int), q: QuadSpec) -> (bool, int, int) {
    if !q.ink {
        st
    } else if !st.0 {
        (true, q.rect.min_x as int, max2(q.rect.min_x as int, q.adv as int))
    } else {
        (true, min2(st.1, q.rect.min_x as int), max2(st.2, q.adv as int))
    }
}

/// The ink extents of a quad sequence, folded in build order.
pub open spec fn ink_fold(qs: Seq<QuadSpec>, st: (bool, int, int)) -> (bool, int, int)
    decreases qs.len(),
{
    if qs.len() == 0 {
        st
    } else {
        ink_fold(qs.skip(1), ink_step(st, qs[0]))
    }
}

proof fn lemma_ink_fold_push(qs: Seq<QuadSpec>, q: QuadSpec, st: (bool, int, int))
    ensures
        ink_fold(qs.push(q), st) == ink_step(ink_fold(qs, st), q),
    decreases qs.len(),
{
    if qs.len() == 0 {
        assert(qs.push(q).skip(1) =~= Seq::<QuadSpec>::empty());
        assert(qs.push(q)[0] == q);
        assert(ink_fold(qs, st) == st);
        assert(ink_fold(qs.push(q), st) == ink_fold(qs.push(q).skip(1), ink_step(st, q)));
    } else {
        assert(qs.push(q)[0] == qs[0]);
        assert(qs.push(q).skip(1) =~= qs.skip(1).push(q));
        lemma_ink_fold_push(qs.skip(1), q, ink_step(st, qs[0]));
        assert(ink_fold(qs.push(q), st) == ink_fold(qs.skip(1).push(q), ink_step(st, qs[0])));
        assert(ink_fold(qs, st) == ink_fold(qs.skip(1), ink_step(st, qs[0])));
    }
}

proof fn lemma_ink_fold_no_ink(qs: Seq<QuadSpec>, more: Seq<QuadSpec>, st: (bool, int, int))
    requires
        forall|i: int| 0 <= i < more.len() ==> !(#[trigger] more[i]).ink,
    ensures
        ink_fold(qs + more, st) == ink_fold(qs, st),
    decreases more.len(),
{
    if more.len() == 0 {
        assert(qs + more =~= qs);
    } else {
        let m1 = more.drop_last();
        assert(qs + more =~= (qs + m1).push(more.last()));
        lemma_ink_fold_no_ink(qs, m1, st);
        lemma_ink_fold_push(qs + m1, more.last(), st);
        assert(!more.last().ink);
    }
}

/// The block height: the largest line bottom, never negative.
pub open spec fn height_from(lines: Seq<LayoutLine>, h: int) -> int
    decreases lines.len(),
{
    if lines.len() == 0 {
        h
    } else {
        let lh = lines[0].line_top + lines[0].line_height;
        height_from(lines.skip(1), if lh > h {
            lh
        } else {
            h
        })
    }
}

/// The measured block width: the ink extent span, with the empty-block
/// default, at least one unit, clamped into range.
pub open spec fn dim_x_of(qs: Seq<QuadSpec>) -> int {
    let f = ink_fold(qs, (false, 0int, 0int));
    let mn = if f.0 {
        f.1
    } else {
        0int
    };
    let mx = if f.0 {
        f.2
    } else {
        1int
    };
    let d = mx - mn;
    if d < 1 {
        1int
    } else if d > 0x7fff_ffff {
        0x7fff_ffffint
    } else {
        d
    }
}

/// The sort-buffer entries the build appends: each quad keyed by its
/// layer, with its build position as the insertion-order tie-break and
/// as its vertex base.
pub open spec fn entries_of(qs: Seq<QuadSpec>) -> Seq<crate::mesh::QuadEntry> {
    Seq::new(
        qs.len(),
        |k: int|
            crate::mesh::QuadEntry { layer: qs[k].layer, order: k as u32, v0: (4 * k) as u16 },
    )
}

/// The bounding-box minimum the UV1 pass uses: the leftmost ink edge, or
/// the empty-block default.
pub open spec fn bb_min_x_of(qs: Seq<QuadSpec>) -> int {
    let f = ink_fold(qs, (false, 0int, 0int));
    if f.0 {
        f.1
    } else {
        0int
    }
}

/// The measured height clamped into range, and its at-least-one variant
/// the UV1 pass divides by.
pub open spec fn dim_y_of(lines: Seq<LayoutLine>) -> int {
    clamp_i32(height_from(lines, 0))
}

pub open spec fn dim_y_pos(lines: Seq<LayoutLine>) -> int {
    if dim_y_of(lines) < 1 {
        1int
    } else {
        dim_y_of(lines)
    }
}

/// The anchor translation the finalization applies: the configured
/// anchor point of the measured block, moved to the origin.
pub open spec fn off_x_of(qs: Seq<QuadSpec>, styling: Styling) -> int {
    let f = ink_fold(qs, (false, 0int, 0int));
    let mn = if f.0 {
        f.1
    } else {
        0int
    };
    let mx = if f.0 {
        f.2
    } else {
        1int
    };
    let cx = div_trunc(mx + mn, 2);
    let dimx = dim_x_of(qs);
    let ax = match styling.anchor_h {
        AnchorH::Left => -div_trunc(dimx, 2),
        AnchorH::Center => 0int,
        AnchorH::Right => div_trunc(dimx, 2),
    };
    clamp_i32(ax - cx)
}

pub open spec fn off_y_of(lines: Seq<LayoutLine>, styling: Styling) -> int {
    let dy = dim_y_of(lines);
    let cy = -div_trunc(dy, 2);
    let ay = match styling.anchor_v {
        AnchorV::Bottom => -div_trunc(dy, 2),
        AnchorV::Center => 0int,
        AnchorV::Top => div_trunc(dy, 2),
    };
    clamp_i32(ay - cy)
}

proof fn lemma_quads_uvs_push(qs: Seq<QuadSpec>, q: QuadSpec)
    ensures
        quads_uvs(qs.push(q)) == quads_uvs(qs) + crate::mesh::quad_uvs_px(q.u0, q.v0, q.u1, q.v1),
        quads_positions_flat(qs.push(q)) == quads_positions_flat(qs) + crate::mesh::quad_positions(
            q.rect,
            q.z,
        ),
        quads_colors(qs.push(q)) == quads_colors(qs) + seq![q.color, q.color, q.color, q.color],
{
    assert(qs.push(q).drop_last() =~= qs);
    assert(qs.push(q).last() == q);
}

proof fn lemma_quads_flat_concat(a: Seq<QuadSpec>, b: Seq<QuadSpec>)
    ensures
        quads_uvs(a + b) == quads_uvs(a) + quads_uvs(b),
        quads_positions_flat(a + b) == quads_positions_flat(a) + quads_positions_flat(b),
        quads_colors(a + b) == quads_colors(a) + quads_colors(b),
    decreases b.len(),
{
    if b.len() == 0 {
        assert(a + b =~= a);
        assert(quads_uvs(a) + quads_uvs(b) =~= quads_uvs(a));
        assert(quads_positions_flat(a) + quads_positions_flat(b) =~= quads_positions_flat(a));
        assert(quads_colors(a) + quads_colors(b) =~= quads_colors(a));
    } else {
        let bl = b.drop_last();
        let q = b.last();
        lemma_quads_flat_concat(a, bl);
        assert((a + b).drop_last() =~= a + bl);
        assert((a + b).last() == q);
        assert((quads_uvs(a) + quads_uvs(bl)) + crate::mesh::quad_uvs_px(q.u0, q.v0, q.u1, q.v1)
            =~= quads_uvs(a) + (quads_uvs(bl) + crate::mesh::quad_uvs_px(q.u0, q.v0, q.u1, q.v1)));
        assert((quads_positions_flat(a) + quads_positions_flat(bl)) + crate::mesh::quad_positions(
            q.rect,
            q.z,
        ) =~= quads_positions_flat(a) + (quads_positions_flat(bl) + crate::mesh::quad_positions(
            q.rect,
            q.z,
        )));
        assert((quads_colors(a) + quads_colors(bl)) + seq![q.color, q.color, q.color, q.color]
            =~= quads_colors(a) + (quads_colors(bl) + seq![q.color, q.color, q.color, q.color]));
    }
}

/// The decoration state an exec collection mirrors.
spec fn dstate(d: DecoLine) -> DecoStateSpec {
    DecoStateSpec {
        glyphs: d.glyphs@,
        color: d.color,
        layer: d.layer,
        z: d.offset_z,
        y: d.y_pos,
    }
}

/// Halve toward zero.
fn half_trunc(v: i64) -> (r: i64)
    requires
        -0x7fff_ffff_ffff_ffff <= v,
    ensures
        r == div_trunc(v as int, 2),
{
    if v >= 0 {
        ((v as u64) / 2) as i64
    } else {
        -((((-v) as u64) / 2) as i64)
    }
}

fn align_dx_exec(a: Align, line_w: i32) -> (r: i64)
    ensures
        r == align_dx(a, line_w),
        -0x1_0000_0000 <= r <= 0x1_0000_0000,
{
    match a {
        Align::Left => 0i64,
        Align::Center => {
            if line_w >= 0 {
                -(((line_w as u64) / 2) as i64)
            } else {
                (((-(line_w as i64)) as u64 / 2) as i64)
            }
        },
        Align::Right => -(line_w as i64),
    }
}

/// The world scale actually applied: the configured value clamped into
/// the supported range.
pub open spec fn world_scale_num(st: Styling) -> int {
    if st.world_scale > 0x10_0000 {
        0x10_0000int
    } else {
        st.world_scale as int
    }
}

/// The cache identity one draw request resolves: the glyph identity for
/// fills and strokes, the solid decoration patch for decorations.
pub open spec fn req_identity(
    g: ShapedGlyph,
    s: SegmentStyle,
    kind: DrawKind,
    join: StrokeJoin,
) -> GlyphIdentity {
    match kind {
        DrawKind::Fill | DrawKind::Stroke(_) => glyph_identity_of(g, s, kind, join),
        DrawKind::Underline | DrawKind::Strikethrough => deco_identity(),
    }
}

/// The glyph's outline tessellates under this stroke: it has segments
/// and its padded patch fits the atlas dimension cap.
pub open spec fn tess_ok(g: ShapedGlyph, stroke: u32) -> bool {
    let segs = crate::tess::glyph_segs(g.outline@, g.scale_num, g.scale_den);
    &&& segs.len() > 0
    &&& crate::tess::patch_w(crate::tess::bbox_of(segs), stroke) <= crate::atlas::MAX_DIM
    &&& crate::tess::patch_h(crate::tess::bbox_of(segs), stroke) <= crate::atlas::MAX_DIM
}

/// The patch dimensions the glyph's outline rasterizes to.
pub open spec fn req_patch_w(g: ShapedGlyph, stroke: u32) -> int {
    crate::tess::patch_w(
        crate::tess::bbox_of(crate::tess::glyph_segs(g.outline@, g.scale_num, g.scale_den)),
        stroke,
    )
}

pub open spec fn req_patch_h(g: ShapedGlyph, stroke: u32) -> int {
    crate::tess::patch_h(
        crate::tess::bbox_of(crate::tess::glyph_segs(g.outline@, g.scale_num, g.scale_den)),
        stroke,
    )
}

/// The pass rendered request (a, b, c)'s miss where possible: if the
/// outline tessellates and the cache can still take the patch, the
/// identity is cached — for decorations, the solid patch's identity.
pub open spec fn request_rendered(
    input: TextInput,
    cache: AtlasCache,
    a: int,
    b: int,
    c: int,
) -> bool {
    let g = input.lines@[a].glyphs@[b];
    let s = input.styles@[g.segment as int];
    let kind = expand_spec(s)[c].kind;
    match kind {
        DrawKind::Fill | DrawKind::Stroke(_) => {
            let id = glyph_identity_of(g, s, kind, input.styling.stroke_join);
            (tess_ok(g, id.stroke) && cache.spec_can_pack(
                req_patch_w(g, id.stroke) as u32,
                req_patch_h(g, id.stroke) as u32,
            )) ==> cache.spec_contains(id)
        },
        DrawKind::Underline | DrawKind::Strikethrough => cache.spec_can_pack(2, 2)
            ==> cache.spec_contains(deco_identity()),
    }
}

/// Every identity the input's draw requests resolve is already cached:
/// a pass over such input hits on every lookup.
pub open spec fn all_rendered(input: TextInput, cache: AtlasCache) -> bool {
    forall|a: int, b: int, c: int|
        0 <= a < input.lines@.len() && 0 <= b < input.lines@[a].glyphs@.len() && glyph_valid(
            input.lines@[a].glyphs@[b],
            input.styles@,
        ) && 0 <= c < expand_spec(
            input.styles@[input.lines@[a].glyphs@[b].segment as int],
        ).len() ==> cache.spec_contains(
            #[trigger] req_identity(
                input.lines@[a].glyphs@[b],
                input.styles@[input.lines@[a].glyphs@[b].segment as int],
                expand_spec(input.styles@[input.lines@[a].glyphs@[b].segment as int])[c].kind,
                input.styling.stroke_join,
            ),
        )
}

/// First phase of a rebuild: make sure every identity the build will look
/// up has been rendered into the atlas where possible — glyph fills and
/// strokes are tessellated and packed on a miss, and the solid decoration
/// patch is packed once if any decoration is requested. The cache only
/// grows; existing placements keep their rectangles and pixels.
#[verifier::loop_isolation(false)]
fn precache_glyphs(input: &TextInput, cache: &mut AtlasCache)
    requires
        old(cache).wf(),
    ensures
        final(cache).wf(),
        final(cache).image.width == old(cache).image.width,
        final(cache).image.height >= old(cache).image.height,
        forall|id: GlyphIdentity| #[trigger]
            old(cache).spec_contains(id) ==> final(cache).spec_contains(id) && final(cache).spec_index(id) == old(cache).spec_index(id),
        all_rendered(*input, *old(cache)) ==> *final(cache) == *old(cache),
        // every renderable miss was rendered: any request whose outline
        // tessellates and whose patch the final cache could still take has
        // its identity cached
        forall|a: int, b: int, c: int|
            0 <= a < input.lines@.len() && 0 <= b < input.lines@[a].glyphs@.len() && glyph_valid(
                input.lines@[a].glyphs@[b],
                input.styles@,
            ) && 0 <= c < expand_spec(
                input.styles@[input.lines@[a].glyphs@[b].segment as int],
            ).len() ==> #[trigger] request_rendered(*input, *final(cache), a, b, c),
{
    let ghost cache0 = *cache;
    let mut li: usize = 0;
    while li < input.lines.len()
        invariant
            cache.wf(),
            cache.image.width == cache0.image.width,
            cache.image.height >= cache0.image.height,
            forall|id: GlyphIdentity| #[trigger]
                cache0.spec_contains(id) ==> cache.spec_contains(id) && cache.spec_index(id)
                    == cache0.spec_index(id),
            all_rendered(*input, cache0) ==> *cache == cache0,
            forall|a: int, b: int, c: int|
                0 <= a < li && 0 <= b < input.lines@[a].glyphs@.len() && glyph_valid(
                    input.lines@[a].glyphs@[b],
                    input.styles@,
                ) && 0 <= c < expand_spec(
                    input.styles@[input.lines@[a].glyphs@[b].segment as int],
                ).len() ==> #[trigger] request_rendered(*input, *cache, a, b, c),
        decreases input.lines@.len() - li,
    {
        let line = &input.lines[li];
        let mut gi: usize = 0;
        while gi < line.glyphs.len()
            invariant
                cache.wf(),
                cache.image.width == cache0.image.width,
                cache.image.height >= cache0.image.height,
                forall|id: GlyphIdentity| #[trigger]
                    cache0.spec_contains(id) ==> cache.spec_contains(id) && cache.spec_index(id)
                        == cache0.spec_index(id),
                all_rendered(*input, cache0) ==> *cache == cache0,
                li < input.lines@.len(),
                line == &input.lines@[li as int],
                forall|a: int, b: int, c: int|
                    0 <= a < input.lines@.len() && 0 <= b < input.lines@[a].glyphs@.len()
                        && glyph_valid(input.lines@[a].glyphs@[b], input.styles@) && 0 <= c
                        < expand_spec(
                        input.styles@[input.lines@[a].glyphs@[b].segment as int],
                    ).len() && (a < li as int || (a == li as int && b < gi as int))
                        ==> #[trigger] request_rendered(*input, *cache, a, b, c),
            decreases line.glyphs@.len() - gi,
        {
            let glyph = &line.glyphs[gi];
            if glyph.segment < input.styles.len() && glyph.scale_den >= 1 && glyph.scale_num
                <= 0x10_0000 {
                let style = input.styles[glyph.segment];
                let mut requests: Vec<DrawRequest> = Vec::new();
                fill_draw_requests(&style, &mut requests);
                proof {
                    assert(requests@ =~= expand_spec(style));
                    assert(glyph_valid(line.glyphs@[gi as int], input.styles@));
                }
                let mut ri: usize = 0;
                while ri < requests.len()
                    invariant
                        cache.wf(),
                        cache.image.width == cache0.image.width,
                        cache.image.height >= cache0.image.height,
                        forall|id: GlyphIdentity| #[trigger]
                            cache0.spec_contains(id) ==> cache.spec_contains(id)
                                && cache.spec_index(id) == cache0.spec_index(id),
                        all_rendered(*input, cache0) ==> *cache == cache0,
                        forall|a: int, b: int, c: int|
                            0 <= a < input.lines@.len() && 0 <= b < input.lines@[
                                a].glyphs@.len() && glyph_valid(input.lines@[a].glyphs@[b],
                                input.styles@) && 0 <= c < expand_spec(
                                input.styles@[input.lines@[a].glyphs@[b].segment as int],
                            ).len() && (a < li as int || (a == li as int && b < gi as int) || (a
                                == li as int && b == gi as int && c < ri as int))
                                ==> #[trigger] request_rendered(*input, *cache, a, b, c),
                        glyph.scale_den >= 1,
                        glyph.scale_num <= 0x10_0000,
                        li < input.lines@.len(),
                        gi < line.glyphs@.len(),
                        glyph == &line.glyphs@[gi as int],
                        line == &input.lines@[li as int],
                        glyph_valid(line.glyphs@[gi as int], input.styles@),
                        style == input.styles@[line.glyphs@[gi as int].segment as int],
                        requests@ == expand_spec(style),
                        0 <= ri <= requests@.len(),
                    decreases requests@.len() - ri,
                {
                    let req = requests[ri];
                    match req.kind {
                        DrawKind::Fill | DrawKind::Stroke(_) => {
                            let stroke_w: u32 = match req.kind {
                                DrawKind::Stroke(w) => stroke_device(
                                    w,
                                    glyph.upem,
                                    glyph.scale_num,
                                    glyph.scale_den,
                                ),
                                _ => 0,
                            };
                            let id = GlyphIdentity {
                                font: glyph.font,
                                glyph_id: glyph.glyph_id,
                                size_bits: glyph.size_bits,
                                weight: style.weight,
                                stroke: stroke_w,
                                join: input.styling.stroke_join,
                            };
                            let ghost gsp = line.glyphs@[gi as int];
                            let ghost ksp = expand_spec(style)[ri as int].kind;
                            proof {
                                assert(ksp == req.kind);
                                assert(id == req_identity(line.glyphs@[gi as int], style,
                                    req.kind, input.styling.stroke_join));
                                assert(id == glyph_identity_of(gsp, style, ksp,
                                    input.styling.stroke_join));
                            }
                            let ghost snap = *cache;
                            if cache.resolve(id).is_none() {
                                proof {
                                    if all_rendered(*input, cache0) {
                                        assert(cache0.spec_contains(req_identity(
                                            input.lines@[li as int].glyphs@[gi as int],
                                            input.styles@[input.lines@[li as int].glyphs@[
                                                gi as int].segment as int],
                                            expand_spec(input.styles@[input.lines@[
                                                li as int].glyphs@[gi as int].segment as int])[
                                                ri as int].kind,
                                            input.styling.stroke_join,
                                        )));
                                        assert(false);
                                    }
                                }
                                match tess_glyph(
                                    &glyph.outline,
                                    stroke_w,
                                    glyph.scale_num,
                                    glyph.scale_den,
                                ) {
                                    Some(t) => {
                                        proof {
                                            assert(tess_ok(gsp, id.stroke));
                                            assert((req_patch_w(gsp, id.stroke) as u32)
                                                == t.patch.width);
                                            assert((req_patch_h(gsp, id.stroke) as u32)
                                                == t.patch.height);
                                        }
                                        let _ = cache.resolve_or_render(
                                            id,
                                            &t.patch,
                                            t.offset_x,
                                            t.offset_y,
                                        );
                                        proof {
                                            assert(request_rendered(*input, *cache, li as int,
                                                gi as int, ri as int));
                                            assert forall|a: int, b: int, c: int|
                                                0 <= a < input.lines@.len() && 0 <= b
                                                    < input.lines@[a].glyphs@.len()
                                                    && glyph_valid(input.lines@[a].glyphs@[b],
                                                    input.styles@) && 0 <= c < expand_spec(
                                                    input.styles@[input.lines@[a].glyphs@[
                                                        b].segment as int],
                                                ).len() && (a < li as int || (a == li as int && b
                                                    < gi as int) || (a == li as int && b
                                                    == gi as int && c < ri as int)) implies
                                                request_rendered(*input, *cache, a, b, c) by {
                                                assert(request_rendered(*input, snap, a, b, c));
                                            }
                                        }
                                    },
                                    None => {
                                        proof {
                                            assert(!tess_ok(gsp, id.stroke));
                                            assert(request_rendered(*input, *cache, li as int,
                                                gi as int, ri as int));
                                        }
                                    },
                                }
                            } else {
                                proof {
                                    assert(cache.spec_contains(id));
                                    assert(request_rendered(*input, *cache, li as int, gi as int,
                                        ri as int));
                                }
                            }
                        },
                        DrawKind::Underline | DrawKind::Strikethrough => {
                            let ghost snap = *cache;
                            let ghost ksp = expand_spec(style)[ri as int].kind;
                            proof {
                                assert(ksp == req.kind);
                            }
                            if cache.resolve(deco_identity_exec()).is_none() {
                                proof {
                                    if all_rendered(*input, cache0) {
                                        assert(cache0.spec_contains(req_identity(
                                            input.lines@[li as int].glyphs@[gi as int],
                                            input.styles@[input.lines@[li as int].glyphs@[
                                                gi as int].segment as int],
                                            expand_spec(input.styles@[input.lines@[
                                                li as int].glyphs@[gi as int].segment as int])[
                                                ri as int].kind,
                                            input.styling.stroke_join,
                                        )));
                                        assert(false);
                                    }
                                }
                                let sp = solid_patch();
                                let _ = cache.resolve_or_render(deco_identity_exec(), &sp, 0, 0);
                                proof {
                                    assert(request_rendered(*input, *cache, li as int, gi as int,
                                        ri as int));
                                    assert forall|a: int, b: int, c: int|
                                        0 <= a < input.lines@.len() && 0 <= b < input.lines@[
                                            a].glyphs@.len() && glyph_valid(
                                            input.lines@[a].glyphs@[b],
                                            input.styles@,
                                        ) && 0 <= c < expand_spec(
                                            input.styles@[input.lines@[a].glyphs@[
                                                b].segment as int],
                                        ).len() && (a < li as int || (a == li as int && b
                                            < gi as int) || (a == li as int && b == gi as int
                                            && c < ri as int)) implies request_rendered(*input,
                                            *cache, a, b, c) by {
                                        assert(request_rendered(*input, snap, a, b, c));
                                    }
                                }
                            } else {
                                proof {
                                    assert(cache.spec_contains(deco_identity()));
                                    assert(request_rendered(*input, *cache, li as int, gi as int,
                                        ri as int));
                                }
                            }
                        },
                    }
                    ri += 1;
                }
            }
            gi += 1;
        }
        li += 1;
    }
}
proof fn lemma_quads_flat_len(qs: Seq<QuadSpec>)
    ensures
        quads_uvs(qs).len() == 4 * qs.len(),
        quads_positions_flat(qs).len() == 4 * qs.len(),
        quads_colors(qs).len() == 4 * qs.len(),
    decreases qs.len(),
{
    if qs.len() > 0 {
        lemma_quads_flat_len(qs.drop_last());
    }
}

/// A pixel coordinate within an atlas dimension normalizes into [0, 1].
proof fn lemma_norm_component(p: u32, d: u32)
    requires
        1 <= d,
        p <= d,
    ensures
        0 <= (p * 65536) / (d as int) <= 65536,
{
    assert(0 <= (p * 65536) / (d as int) <= 65536) by (nonlinear_arith)
        requires
            1 <= d,
            0 <= p <= d,
    ;
}

/// Second-phase flush of one line's collected decoration state: appends
/// exactly the quads of `deco_quads` (one per merged run, sampling the
/// solid patch) when the vertex buffer has room, reading the cache only.
#[verifier::loop_isolation(false)]
#[verifier::rlimit(100)]
#[verifier::spinoff_prover]
fn emit_decoration_built(deco: &DecoLine, eps: u32, cache: &AtlasCache, mesh: &mut MeshBuffers)
    requires
        cache.wf(),
        old(mesh).wf(),
        old(mesh).uv0@.len() == 0,
        old(mesh).uv1@.len() == 0,
        old(mesh).indices@.len() == 0,
    ensures
        final(mesh).wf(),
        final(mesh).uv0@.len() == 0,
        final(mesh).uv1@.len() == 0,
        final(mesh).indices@.len() == 0,
        ({
            let dq = deco_quads(dstate(*deco), *cache, eps);
            old(mesh).positions@.len() + 4 * dq.len() <= 65536 ==> {
                &&& final(mesh).quads@.len() == old(mesh).quads@.len() + dq.len()
                &&& final(mesh).positions@ == old(mesh).positions@ + quads_positions_flat(dq)
                &&& final(mesh).uv0_px@ == old(mesh).uv0_px@ + quads_uvs(dq)
                &&& final(mesh).colors@ == old(mesh).colors@ + quads_colors(dq)
                &&& forall|k: int|
                    old(mesh).quads@.len() <= k < final(mesh).quads@.len()
                        ==> #[trigger] final(mesh).quads@[k] == (crate::mesh::QuadEntry {
                        layer: dq[k - old(mesh).quads@.len()].layer,
                        order: k as u32,
                        v0: (4 * k) as u16,
                    })
                &&& forall|k: int|
                    0 <= k < old(mesh).quads@.len() ==> #[trigger] final(mesh).quads@[k] == old(
                        mesh,
                    ).quads@[k]
            }
        }),
        (forall|k: int|
            0 <= k < old(mesh).uv0_px@.len() ==> (#[trigger] old(mesh).uv0_px@[k]).u
                <= cache.image.width && old(mesh).uv0_px@[k].v <= cache.image.height) ==> (
        forall|k: int|
            0 <= k < final(mesh).uv0_px@.len() ==> (#[trigger] final(mesh).uv0_px@[k]).u
                <= cache.image.width && final(mesh).uv0_px@[k].v <= cache.image.height),
{
    let ghost dq = deco_quads(dstate(*deco), *cache, eps);
    if deco.glyphs.len() == 0 {
        assert(dq.len() == 0);
        assert(old(mesh).positions@ + quads_positions_flat(dq) =~= old(mesh).positions@);
        assert(old(mesh).uv0_px@ + quads_uvs(dq) =~= old(mesh).uv0_px@);
        assert(old(mesh).colors@ + quads_colors(dq) =~= old(mesh).colors@);
        return ;
    }
    let place = cache.resolve(deco_identity_exec());
    let Some(p) = place else {
        proof {
            assert(dq.len() == 0);
            assert(old(mesh).positions@ + quads_positions_flat(dq) =~= old(mesh).positions@);
            assert(old(mesh).uv0_px@ + quads_uvs(dq) =~= old(mesh).uv0_px@);
            assert(old(mesh).colors@ + quads_colors(dq) =~= old(mesh).colors@);
        }
        return ;
    };
    proof {
        cache.lemma_placement_in_bounds(deco_identity());
    }
    let runs = decoration_runs(&deco.glyphs, eps);
    assert(dq.len() == runs@.len());
    let ghost mesh0 = *mesh;
    let mut i: usize = 0;
    while i < runs.len()
        invariant
            mesh.wf(),
            mesh.uv0@.len() == 0,
            mesh.uv1@.len() == 0,
            mesh.indices@.len() == 0,
            0 <= i <= runs@.len(),
            mesh.quads@.len() <= mesh0.quads@.len() + i,
            mesh0.positions@.len() + 4 * dq.len() <= 65536 ==> {
                &&& mesh.quads@.len() == mesh0.quads@.len() + i
                &&& mesh.positions@ == mesh0.positions@ + quads_positions_flat(dq.take(i as int))
                &&& mesh.uv0_px@ == mesh0.uv0_px@ + quads_uvs(dq.take(i as int))
                &&& mesh.colors@ == mesh0.colors@ + quads_colors(dq.take(i as int))
                &&& forall|k: int|
                    mesh0.quads@.len() <= k < mesh.quads@.len() ==> #[trigger] mesh.quads@[k]
                        == (crate::mesh::QuadEntry {
                        layer: dq[k - mesh0.quads@.len()].layer,
                        order: k as u32,
                        v0: (4 * k) as u16,
                    })
                &&& forall|k: int|
                    0 <= k < mesh0.quads@.len() ==> #[trigger] mesh.quads@[k] == mesh0.quads@[k]
            },
            (forall|k: int|
                0 <= k < mesh0.uv0_px@.len() ==> (#[trigger] mesh0.uv0_px@[k]).u
                    <= cache.image.width && mesh0.uv0_px@[k].v <= cache.image.height) ==> (
            forall|k: int|
                0 <= k < mesh.uv0_px@.len() ==> (#[trigger] mesh.uv0_px@[k]).u
                    <= cache.image.width && mesh.uv0_px@[k].v <= cache.image.height),
        decreases runs@.len() - i,
    {
        let run = runs[i];
        let half: i64 = (run.thickness / 2) as i64;
        let y0: i32 = clamp_px((deco.y_pos as i64) - half);
        let y1: i32 = clamp_px((deco.y_pos as i64) + half + 1);
        let rect = ScreenRect { min_x: run.start, min_y: y0, max_x: run.end, max_y: y1 };
        let ghost before = *mesh;
        proof {
            assert(dq[i as int] == deco_run_quad(runs@[i as int], dstate(*deco), p));
            lemma_quads_flat_len(dq);
            lemma_quads_flat_len(dq.take(i as int));
        }
        let ord: u32 = mesh.quads.len() as u32;
        let added = mesh.cache_rectangle2(
            rect,
            p.rect.x,
            p.rect.y,
            p.rect.x + p.rect.w,
            p.rect.y + p.rect.h,
            deco.color,
            deco.layer,
            ord,
            deco.offset_z,
        );
        proof {
            assert(dq.take(i as int + 1) =~= dq.take(i as int).push(dq[i as int]));
            lemma_quads_uvs_push(dq.take(i as int), dq[i as int]);
            if mesh0.positions@.len() + 4 * dq.len() <= 65536 {
                assert(before.positions@.len() == mesh0.positions@.len() + 4 * i);
                assert(added);
                assert(mesh.positions@ =~= mesh0.positions@ + quads_positions_flat(
                    dq.take(i as int + 1),
                ));
                assert(mesh.uv0_px@ =~= mesh0.uv0_px@ + quads_uvs(dq.take(i as int + 1)));
                assert(mesh.colors@ =~= mesh0.colors@ + quads_colors(dq.take(i as int + 1)));
            }
            if added {
                assert forall|k: int|
                    before.uv0_px@.len() <= k < mesh.uv0_px@.len() implies (
                #[trigger] mesh.uv0_px@[k]).u <= cache.image.width && mesh.uv0_px@[k].v
                    <= cache.image.height by {
                    assert(p.rect.x + p.rect.w <= cache.image.width);
                    assert(p.rect.y + p.rect.h <= cache.image.height);
                }
            }
        }
        i += 1;
    }
    proof {
        assert(dq.take(runs@.len() as int) =~= dq);
    }
}

/// The ink extents the build phase measures while appending glyph quads.
struct InkBounds {
    has_ink: bool,
    min_x: i32,
    max_x: i32,
    height: i64,
}

/// Second phase of a rebuild: append one quad per fill or stroke request
/// whose identity has a placement in the cache, collect and flush the
/// decoration runs per line, and measure the ink extents. The cache is
/// only read, so within the vertex-buffer limit the appended content is
/// exactly `expected_quads` of the input and this cache state.
#[verifier::rlimit(100)]
#[verifier::spinoff_prover]
fn build_mesh(input: &TextInput, cache: &AtlasCache, mesh: &mut MeshBuffers) -> (ink: InkBounds)
    requires
        cache.wf(),
        old(mesh).wf(),
        old(mesh).positions@.len() == 0,
        old(mesh).quads@.len() == 0,
        old(mesh).uv0_px@.len() == 0,
        old(mesh).colors@.len() == 0,
        old(mesh).uv0@.len() == 0,
        old(mesh).uv1@.len() == 0,
        old(mesh).indices@.len() == 0,
    ensures
        final(mesh).wf(),
        final(mesh).uv0@.len() == 0,
        final(mesh).uv1@.len() == 0,
        final(mesh).indices@.len() == 0,
        ink.has_ink ==> ink.min_x <= ink.max_x,
        0 <= ink.height,
        ink.height == height_from(input.lines@, 0),
        4 * expected_quads(*input, *cache).len() <= 65536 ==> ink_fold(
            expected_quads(*input, *cache),
            (false, 0int, 0int),
        ) == (ink.has_ink, ink.min_x as int, ink.max_x as int),
        forall|k: int|
            0 <= k < final(mesh).uv0_px@.len() ==> (#[trigger] final(mesh).uv0_px@[k]).u
                <= cache.image.width && final(mesh).uv0_px@[k].v <= cache.image.height,
        4 * expected_quads(*input, *cache).len() <= 65536 ==> {
            &&& final(mesh).quads@.len() == expected_quads(*input, *cache).len()
            &&& final(mesh).quads@ == entries_of(expected_quads(*input, *cache))
            &&& final(mesh).positions@ == quads_positions_flat(expected_quads(*input, *cache))
            &&& final(mesh).uv0_px@ == quads_uvs(expected_quads(*input, *cache))
            &&& final(mesh).colors@ == quads_colors(expected_quads(*input, *cache))
        },
{
    let ghost cfin = *cache;
    let ghost expq = expected_quads(*input, cfin);
    let ghost mut built: Seq<QuadSpec> = Seq::empty();
    let styling = input.styling;
    let mut has_ink: bool = false;
    let mut min_x: i32 = 0;
    let mut max_x: i32 = 0;
    let mut height: i64 = 0;

    proof {
        assert(input.lines@.skip(0) =~= input.lines@);
        assert(built + lines_quads(input.lines@, input.styles@, styling, cfin) =~= expq);
        assert(mesh.uv0_px@ =~= quads_uvs(built));
        assert(mesh.colors@ =~= quads_colors(built));
    }
    let mut li: usize = 0;
    while li < input.lines.len()
        invariant
            cache.wf(),
            styling == input.styling,
            cfin == *cache,
            expq == expected_quads(*input, cfin),
            mesh.wf(),
            mesh.uv0@.len() == 0,
            mesh.uv1@.len() == 0,
            mesh.indices@.len() == 0,
            has_ink ==> min_x <= max_x,
            0 <= height,
            0 <= li <= input.lines@.len(),
            height_from(input.lines@.skip(li as int), height as int) == height_from(
                input.lines@,
                0,
            ),
            4 * expq.len() <= 65536 ==> ink_fold(built, (false, 0int, 0int)) == (has_ink,
                min_x as int, max_x as int),
            forall|k: int|
                0 <= k < mesh.uv0_px@.len() ==> (#[trigger] mesh.uv0_px@[k]).u
                    <= cfin.image.width && mesh.uv0_px@[k].v <= cfin.image.height,
            4 * expq.len() <= 65536 ==> {
                &&& mesh.quads@.len() == built.len()
                &&& mesh.quads@ == entries_of(built)
                &&& mesh.positions@ == quads_positions_flat(built)
                &&& mesh.uv0_px@ == quads_uvs(built)
                &&& mesh.colors@ == quads_colors(built)
                &&& built + lines_quads(input.lines@.skip(li as int), input.styles@, styling,
                    cfin) == expq
            },
        decreases input.lines@.len() - li,
    {
        let line = &input.lines[li];
        let line_h: i64 = (line.line_top as i64) + (line.line_height as i64);
        if line_h > height {
            height = line_h;
        }
        if height < 0 {
            height = 0;
        }
        let dx: i64 = align_dx_exec(styling.align, line.line_w);
        let mut underline: DecoLine = DecoLine {
            glyphs: Vec::new(),
            color: 0,
            layer: 0,
            offset_z: 0,
            y_pos: 0,
        };
        let mut strike: DecoLine = DecoLine {
            glyphs: Vec::new(),
            color: 0,
            layer: 0,
            offset_z: 0,
            y_pos: 0,
        };
        proof {
            assert(input.lines@.skip(li as int)[0] == input.lines@[li as int]);
            assert(input.lines@.skip(li as int).skip(1) =~= input.lines@.skip(li as int + 1));
            assert(dstate(underline) == empty_deco());
            assert(dstate(strike) == empty_deco());
            assert(line.glyphs@.skip(0) =~= line.glyphs@);
            if 4 * expq.len() <= 65536 {
                let st0 = step_glyphs(line.glyphs@, input.styles@, styling.stroke_join, dx as int,
                    line.line_y, cfin, styling.deco_eps, empty_deco(), empty_deco());
                assert(lines_quads(input.lines@.skip(li as int), input.styles@, styling, cfin)
                    == line_quads(input.lines@[li as int], input.styles@, styling, cfin)
                    + lines_quads(input.lines@.skip(li as int + 1), input.styles@, styling, cfin));
                assert(built + (st0.quads + deco_quads(st0.und, cfin, styling.deco_eps)
                    + deco_quads(st0.strike, cfin, styling.deco_eps)) + lines_quads(
                    input.lines@.skip(li as int + 1),
                    input.styles@,
                    styling,
                    cfin,
                ) =~= built + st0.quads + deco_quads(st0.und, cfin, styling.deco_eps)
                    + deco_quads(st0.strike, cfin, styling.deco_eps) + lines_quads(
                    input.lines@.skip(li as int + 1),
                    input.styles@,
                    styling,
                    cfin,
                ));
            }
        }
        let mut gi: usize = 0;
        while gi < line.glyphs.len()
            invariant
                cache.wf(),
                styling == input.styling,
                cfin == *cache,
                expq == expected_quads(*input, cfin),
                line == &input.lines@[li as int],
                mesh.wf(),
                mesh.uv0@.len() == 0,
                mesh.uv1@.len() == 0,
                mesh.indices@.len() == 0,
                has_ink ==> min_x <= max_x,
                4 * expq.len() <= 65536 ==> ink_fold(built, (false, 0int, 0int)) == (has_ink,
                    min_x as int, max_x as int),
                0 <= gi <= line.glyphs@.len(),
                li < input.lines@.len(),
                dx == align_dx(styling.align, line.line_w),
                -0x1_0000_0000 <= dx <= 0x1_0000_0000,
                forall|k: int|
                    0 <= k < mesh.uv0_px@.len() ==> (#[trigger] mesh.uv0_px@[k]).u
                        <= cfin.image.width && mesh.uv0_px@[k].v <= cfin.image.height,
                4 * expq.len() <= 65536 ==> {
                    let st = step_glyphs(line.glyphs@.skip(gi as int), input.styles@,
                        styling.stroke_join, dx as int, line.line_y, cfin, styling.deco_eps,
                        dstate(underline), dstate(strike));
                    &&& mesh.quads@.len() == built.len()
                    &&& mesh.quads@ == entries_of(built)
                    &&& mesh.positions@ == quads_positions_flat(built)
                    &&& mesh.uv0_px@ == quads_uvs(built)
                    &&& mesh.colors@ == quads_colors(built)
                    &&& built + st.quads + deco_quads(st.und, cfin, styling.deco_eps)
                        + deco_quads(st.strike, cfin, styling.deco_eps) + lines_quads(
                        input.lines@.skip(li as int + 1),
                        input.styles@,
                        styling,
                        cfin,
                    ) == expq
                },
            decreases line.glyphs@.len() - gi,
        {
            let glyph = &line.glyphs[gi];
            proof {
                assert(line.glyphs@.skip(gi as int)[0] == line.glyphs@[gi as int]);
                assert(line.glyphs@.skip(gi as int).skip(1) =~= line.glyphs@.skip(gi as int + 1));
            }
            if glyph.segment < input.styles.len() && glyph.scale_den >= 1 && glyph.scale_num
                <= 0x10_0000 {
                let style = input.styles[glyph.segment];
                let mut requests: Vec<DrawRequest> = Vec::new();
                fill_draw_requests(&style, &mut requests);
                proof {
                    assert(requests@ =~= expand_spec(style));
                    assert(requests@.skip(0) =~= requests@);
                    assert(glyph_valid(line.glyphs@[gi as int], input.styles@));
                }
                let mut ri: usize = 0;
                while ri < requests.len()
                    invariant
                        cache.wf(),
                        styling == input.styling,
                        cfin == *cache,
                        expq == expected_quads(*input, cfin),
                        line == &input.lines@[li as int],
                        mesh.wf(),
                        mesh.uv0@.len() == 0,
                        mesh.uv1@.len() == 0,
                        mesh.indices@.len() == 0,
                        has_ink ==> min_x <= max_x,
                        4 * expq.len() <= 65536 ==> ink_fold(built, (false, 0int, 0int)) == (
                        has_ink, min_x as int, max_x as int),
                        0 <= ri <= requests@.len(),
                        gi < line.glyphs@.len(),
                        li < input.lines@.len(),
                        glyph == &line.glyphs@[gi as int],
                        glyph_valid(line.glyphs@[gi as int], input.styles@),
                        style == input.styles@[line.glyphs@[gi as int].segment as int],
                        dx == align_dx(styling.align, line.line_w),
                        -0x1_0000_0000 <= dx <= 0x1_0000_0000,
                        forall|k: int|
                            0 <= k < mesh.uv0_px@.len() ==> (#[trigger] mesh.uv0_px@[k]).u
                                <= cfin.image.width && mesh.uv0_px@[k].v <= cfin.image.height,
                        4 * expq.len() <= 65536 ==> {
                            let st1 = step_requests(requests@.skip(ri as int),
                                line.glyphs@[gi as int], style, styling.stroke_join, dx as int,
                                line.line_y, cfin, styling.deco_eps, dstate(underline),
                                dstate(strike));
                            let rest = step_glyphs(line.glyphs@.skip(gi as int + 1),
                                input.styles@, styling.stroke_join, dx as int, line.line_y, cfin,
                                styling.deco_eps, st1.und, st1.strike);
                            &&& mesh.quads@.len() == built.len()
                            &&& mesh.quads@ == entries_of(built)
                            &&& mesh.positions@ == quads_positions_flat(built)
                            &&& mesh.uv0_px@ == quads_uvs(built)
                            &&& mesh.colors@ == quads_colors(built)
                            &&& built + st1.quads + rest.quads + deco_quads(rest.und, cfin,
                                styling.deco_eps) + deco_quads(rest.strike, cfin,
                                styling.deco_eps) + lines_quads(
                                input.lines@.skip(li as int + 1),
                                input.styles@,
                                styling,
                                cfin,
                            ) == expq
                        },
                    decreases requests@.len() - ri,
                {
                    let req = requests[ri];
                    let ghost g = line.glyphs@[gi as int];
                    let ghost und0 = dstate(underline);
                    let ghost str0 = dstate(strike);
                    proof {
                        assert(requests@.skip(ri as int)[0] == requests@[ri as int]);
                        assert(requests@.skip(ri as int).skip(1) =~= requests@.skip(
                            ri as int + 1,
                        ));
                    }
                    match req.kind {
                        DrawKind::Fill | DrawKind::Stroke(_) => {
                            let stroke_w: u32 = match req.kind {
                                DrawKind::Stroke(w) => stroke_device(
                                    w,
                                    glyph.upem,
                                    glyph.scale_num,
                                    glyph.scale_den,
                                ),
                                _ => 0,
                            };
                            let id = GlyphIdentity {
                                font: glyph.font,
                                glyph_id: glyph.glyph_id,
                                size_bits: glyph.size_bits,
                                weight: style.weight,
                                stroke: stroke_w,
                                join: styling.stroke_join,
                            };
                            proof {
                                assert(id == glyph_identity_of(g, style, req.kind,
                                    styling.stroke_join));
                            }
                            let placement = cache.resolve(id);
                            if let Some(p) = placement {
                                proof {
                                    cache.lemma_placement_in_bounds(id);
                                }
                                let bx: i32 = clamp_px(
                                    (glyph.x as i64) + dx + (req.offset_x as i64) + (
                                    p.offset_x as i64),
                                );
                                let by: i32 = clamp_px(
                                    (glyph.y as i64) - (line.line_y as i64) + (
                                    req.offset_y as i64) + (p.offset_y as i64),
                                );
                                let rect = ScreenRect {
                                    min_x: bx,
                                    min_y: by,
                                    max_x: clamp_px((bx as i64) + (p.rect.w as i64)),
                                    max_y: clamp_px((by as i64) + (p.rect.h as i64)),
                                };
                                if !has_ink {
                                    has_ink = true;
                                    min_x = bx;
                                    max_x = bx;
                                }
                                if bx < min_x {
                                    min_x = bx;
                                }
                                let gx: i32 = clamp_px((bx as i64) + (glyph.w as i64));
                                if gx > max_x {
                                    max_x = gx;
                                }
                                let ghost q = glyph_quad(cfin, g, req, id, dx as int,
                                    line.line_y)[0];
                                let ghost st1n = step_requests(requests@.skip(ri as int + 1), g,
                                    style, styling.stroke_join, dx as int, line.line_y, cfin,
                                    styling.deco_eps, und0, str0);
                                proof {
                                    assert(glyph_quad(cfin, g, req, id, dx as int, line.line_y)
                                        =~= seq![q]);
                                    if 4 * expq.len() <= 65536 {
                                        lemma_quads_flat_len(built);
                                        assert((built + (seq![q] + st1n.quads)) =~= ((built
                                            + seq![q]) + st1n.quads));
                                        assert(built.len() + 1 <= expq.len());
                                    }
                                }
                                let ord: u32 = mesh.quads.len() as u32;
                                let added = mesh.cache_rectangle(
                                    rect,
                                    p.rect,
                                    req.color,
                                    req.layer,
                                    ord,
                                    req.offset_z,
                                );
                                proof {
                                    if added {
                                        assert forall|k: int|
                                            quads_uvs(built).len() <= k
                                                < mesh.uv0_px@.len() implies (
                                        #[trigger] mesh.uv0_px@[k]).u <= cfin.image.width
                                            && mesh.uv0_px@[k].v <= cfin.image.height by {
                                            assert(p.rect.x + p.rect.w <= cfin.image.width);
                                            assert(p.rect.y + p.rect.h <= cfin.image.height);
                                        }
                                    }
                                    if 4 * expq.len() <= 65536 {
                                        assert(added);
                                        lemma_quads_uvs_push(built, q);
                                        lemma_ink_fold_push(built, q, (false, 0int, 0int));
                                        assert(built.push(q) =~= built + seq![q]);
                                        built = built.push(q);
                                        assert(mesh.quads@ =~= entries_of(built));
                                        assert(mesh.positions@ =~= quads_positions_flat(built));
                                        assert(mesh.uv0_px@ =~= quads_uvs(built));
                                        assert(mesh.colors@ =~= quads_colors(built));
                                    }
                                }
                            } else {
                                proof {
                                    if 4 * expq.len() <= 65536 {
                                        let st1n = step_requests(requests@.skip(ri as int + 1),
                                            g, style, styling.stroke_join, dx as int, line.line_y,
                                            cfin, styling.deco_eps, und0, str0);
                                        assert(glyph_quad(cfin, g, req, id, dx as int,
                                            line.line_y) =~= Seq::<QuadSpec>::empty());
                                        assert(Seq::<QuadSpec>::empty() + st1n.quads
                                            =~= st1n.quads);
                                    }
                                }
                            }
                        },
                        DrawKind::Underline => {
                            let start: i32 = clamp_px(
                                (glyph.x as i64) + dx + (req.offset_x as i64),
                            );
                            let end: i32 = clamp_px((start as i64) + (glyph.w as i64));
                            let y: i32 = clamp_px(
                                -(line.line_y as i64) + (glyph.underline_offset as i64) + (
                                req.offset_y as i64),
                            );
                            let ghost gd = DecoGlyph {
                                start,
                                end,
                                thickness: g.underline_thickness,
                                wants: true,
                            };
                            // a style change flushes the open run group
                            let flushes = underline.glyphs.len() > 0 && !(underline.color
                                == req.color && underline.layer == req.layer
                                && underline.offset_z == req.offset_z && underline.y_pos == y);
                            if flushes {
                                let ghost dq = deco_quads(und0, cfin, styling.deco_eps);
                                let ghost st1n = step_requests(requests@.skip(ri as int + 1), g,
                                    style, styling.stroke_join, dx as int, line.line_y, cfin,
                                    styling.deco_eps, deco_step(und0, gd, req.color, req.layer,
                                        req.offset_z, y, cfin, styling.deco_eps).1, str0);
                                proof {
                                    if 4 * expq.len() <= 65536 {
                                        lemma_quads_flat_len(built);
                                        lemma_quads_flat_len(expq);
                                        assert(built + (dq + st1n.quads) =~= (built + dq)
                                            + st1n.quads);
                                        assert(built.len() + dq.len() <= expq.len());
                                    }
                                }
                                emit_decoration_built(
                                    &underline,
                                    styling.deco_eps,
                                    cache,
                                    mesh,
                                );
                                proof {
                                    if 4 * expq.len() <= 65536 {
                                        lemma_quads_flat_concat(built, dq);
                                        assert forall|k: int| 0 <= k < dq.len() implies !(
                                        #[trigger] dq[k]).ink by {}
                                        lemma_ink_fold_no_ink(built, dq, (false, 0int, 0int));
                                        built = built + dq;
                                        assert(mesh.quads@ =~= entries_of(built));
                                        assert(mesh.positions@ =~= quads_positions_flat(built));
                                        assert(mesh.uv0_px@ =~= quads_uvs(built));
                                        assert(mesh.colors@ =~= quads_colors(built));
                                    }
                                }
                                underline.glyphs = Vec::new();
                                underline.glyphs.push(
                                    DecoGlyph {
                                        start,
                                        end,
                                        thickness: glyph.underline_thickness,
                                        wants: true,
                                    },
                                );
                                underline.color = req.color;
                                underline.layer = req.layer;
                                underline.offset_z = req.offset_z;
                                underline.y_pos = y;
                                proof {
                                    assert(dstate(underline).glyphs =~= seq![gd]);
                                    assert(dstate(underline) == deco_step(und0, gd, req.color,
                                        req.layer, req.offset_z, y, cfin, styling.deco_eps).1);
                                }
                            } else {
                                if underline.glyphs.len() == 0 {
                                    underline.color = req.color;
                                    underline.layer = req.layer;
                                    underline.offset_z = req.offset_z;
                                    underline.y_pos = y;
                                }
                                underline.glyphs.push(
                                    DecoGlyph {
                                        start,
                                        end,
                                        thickness: glyph.underline_thickness,
                                        wants: true,
                                    },
                                );
                                proof {
                                    assert(dstate(underline) == deco_push(und0, gd, req.color,
                                        req.layer, req.offset_z, y)) by {
                                        assert(dstate(underline).glyphs =~= deco_push(und0, gd,
                                            req.color, req.layer, req.offset_z, y).glyphs);
                                    }
                                    assert(dstate(underline) == deco_step(und0, gd, req.color,
                                        req.layer, req.offset_z, y, cfin, styling.deco_eps).1);
                                }
                            }
                        },
                        DrawKind::Strikethrough => {
                            let start: i32 = clamp_px(
                                (glyph.x as i64) + dx + (req.offset_x as i64),
                            );
                            let end: i32 = clamp_px((start as i64) + (glyph.w as i64));
                            let y: i32 = clamp_px(
                                -(line.line_y as i64) + (glyph.strike_offset as i64) + (
                                req.offset_y as i64),
                            );
                            let ghost gd = DecoGlyph {
                                start,
                                end,
                                thickness: g.strike_thickness,
                                wants: true,
                            };
                            // a style change flushes the open run group
                            let flushes = strike.glyphs.len() > 0 && !(strike.color == req.color
                                && strike.layer == req.layer && strike.offset_z == req.offset_z
                                && strike.y_pos == y);
                            if flushes {
                                let ghost dq = deco_quads(str0, cfin, styling.deco_eps);
                                let ghost st1n = step_requests(requests@.skip(ri as int + 1), g,
                                    style, styling.stroke_join, dx as int, line.line_y, cfin,
                                    styling.deco_eps, und0, deco_step(str0, gd, req.color,
                                        req.layer, req.offset_z, y, cfin, styling.deco_eps).1);
                                proof {
                                    if 4 * expq.len() <= 65536 {
                                        lemma_quads_flat_len(built);
                                        lemma_quads_flat_len(expq);
                                        assert(built + (dq + st1n.quads) =~= (built + dq)
                                            + st1n.quads);
                                        assert(built.len() + dq.len() <= expq.len());
                                    }
                                }
                                emit_decoration_built(
                                    &strike,
                                    styling.deco_eps,
                                    cache,
                                    mesh,
                                );
                                proof {
                                    if 4 * expq.len() <= 65536 {
                                        lemma_quads_flat_concat(built, dq);
                                        assert forall|k: int| 0 <= k < dq.len() implies !(
                                        #[trigger] dq[k]).ink by {}
                                        lemma_ink_fold_no_ink(built, dq, (false, 0int, 0int));
                                        built = built + dq;
                                        assert(mesh.quads@ =~= entries_of(built));
                                        assert(mesh.positions@ =~= quads_positions_flat(built));
                                        assert(mesh.uv0_px@ =~= quads_uvs(built));
                                        assert(mesh.colors@ =~= quads_colors(built));
                                    }
                                }
                                strike.glyphs = Vec::new();
                                strike.glyphs.push(
                                    DecoGlyph {
                                        start,
                                        end,
                                        thickness: glyph.strike_thickness,
                                        wants: true,
                                    },
                                );
                                strike.color = req.color;
                                strike.layer = req.layer;
                                strike.offset_z = req.offset_z;
                                strike.y_pos = y;
                                proof {
                                    assert(dstate(strike).glyphs =~= seq![gd]);
                                    assert(dstate(strike) == deco_step(str0, gd, req.color,
                                        req.layer, req.offset_z, y, cfin, styling.deco_eps).1);
                                }
                            } else {
                                if strike.glyphs.len() == 0 {
                                    strike.color = req.color;
                                    strike.layer = req.layer;
                                    strike.offset_z = req.offset_z;
                                    strike.y_pos = y;
                                }
                                strike.glyphs.push(
                                    DecoGlyph {
                                        start,
                                        end,
                                        thickness: glyph.strike_thickness,
                                        wants: true,
                                    },
                                );
                                proof {
                                    assert(dstate(strike) == deco_push(str0, gd, req.color,
                                        req.layer, req.offset_z, y)) by {
                                        assert(dstate(strike).glyphs =~= deco_push(str0, gd,
                                            req.color, req.layer, req.offset_z, y).glyphs);
                                    }
                                    assert(dstate(strike) == deco_step(str0, gd, req.color,
                                        req.layer, req.offset_z, y, cfin, styling.deco_eps).1);
                                }
                            }
                        },
                    }
                    ri += 1;
                }
                proof {
                    assert(requests@.skip(requests@.len() as int)
                        =~= Seq::<DrawRequest>::empty());
                }
            }
            gi += 1;
        }
        proof {
            assert(line.glyphs@.skip(line.glyphs@.len() as int)
                =~= Seq::<ShapedGlyph>::empty());
            if 4 * expq.len() <= 65536 {
                lemma_quads_flat_len(built);
                lemma_quads_flat_len(expq);
            }
        }
        let ghost und_q = deco_quads(dstate(underline), cfin, styling.deco_eps);
        let ghost str_q = deco_quads(dstate(strike), cfin, styling.deco_eps);
        proof {
            if 4 * expq.len() <= 65536 {
                assert((built + und_q) + str_q + lines_quads(input.lines@.skip(li as int + 1),
                    input.styles@, styling, cfin) =~= built + und_q + str_q + lines_quads(
                    input.lines@.skip(li as int + 1),
                    input.styles@,
                    styling,
                    cfin,
                ));
            }
        }
        emit_decoration_built(&underline, styling.deco_eps, cache, mesh);
        proof {
            if 4 * expq.len() <= 65536 {
                lemma_quads_flat_concat(built, und_q);
                assert forall|k: int| 0 <= k < und_q.len() implies !(#[trigger] und_q[k]).ink
                    by {}
                lemma_ink_fold_no_ink(built, und_q, (false, 0int, 0int));
                built = built + und_q;
                assert(mesh.quads@ =~= entries_of(built));
                lemma_quads_flat_len(built);
            }
        }
        emit_decoration_built(&strike, styling.deco_eps, cache, mesh);
        proof {
            if 4 * expq.len() <= 65536 {
                lemma_quads_flat_concat(built, str_q);
                assert forall|k: int| 0 <= k < str_q.len() implies !(#[trigger] str_q[k]).ink
                    by {}
                lemma_ink_fold_no_ink(built, str_q, (false, 0int, 0int));
                built = built + str_q;
                assert(mesh.quads@ =~= entries_of(built));
            }
        }
        li += 1;
    }
    proof {
        assert(input.lines@.skip(input.lines@.len() as int) =~= Seq::<LayoutLine>::empty());
        if 4 * expq.len() <= 65536 {
            assert(built + Seq::<QuadSpec>::empty() =~= built);
        }
    }
    InkBounds { has_ink, min_x, max_x, height }
}

/// Rebuild one entity's mesh from its shaped lines, in two phases: first
/// every identity the build will need is rendered into the atlas where
/// possible, then the mesh is built by pure lookups against the resulting
/// cache state. The cache only grows — placements cached before keep
/// their rectangles and pixels — and the built content is pinned: within
/// the vertex-buffer limit, the mesh holds exactly `expected_quads` of
/// the input and the final cache (one quad per fill or stroke request
/// whose identity has a placement, one per merged decoration run), with
/// UV0 and colors verbatim and positions translated by the recorded
/// anchor offset.
#[verifier::loop_isolation(false)]
pub fn render_text(input: &TextInput, cache: &mut AtlasCache) -> (out: RenderOutput)
    requires
        old(cache).wf(),
    ensures
        final(cache).wf(),
        final(cache).image.width == old(cache).image.width,
        final(cache).image.height >= old(cache).image.height,
        forall|id: GlyphIdentity| #[trigger]
            old(cache).spec_contains(id) ==> final(cache).spec_contains(id) && final(cache).spec_index(id) == old(cache).spec_index(id),
        // a pass whose every lookup hits leaves the cache bit-unchanged
        all_rendered(*input, *old(cache)) ==> *final(cache) == *old(cache),
        // every renderable miss was rendered before the build read the
        // cache: a request whose outline tessellates and whose patch the
        // final cache could still take has its identity cached, so its
        // quad is in `expected_quads`
        forall|a: int, b: int, c: int|
            0 <= a < input.lines@.len() && 0 <= b < input.lines@[a].glyphs@.len() && glyph_valid(
                input.lines@[a].glyphs@[b],
                input.styles@,
            ) && 0 <= c < expand_spec(
                input.styles@[input.lines@[a].glyphs@[b].segment as int],
            ).len() ==> #[trigger] request_rendered(*input, *final(cache), a, b, c),
        out.mesh.wf(),
        out.mesh.indices_valid(),
        quads_sorted(out.mesh.quads@),
        out.mesh.indices@.len() == 6 * out.mesh.quads@.len(),
        out.mesh.uv0@.len() == out.mesh.positions@.len(),
        out.mesh.uv1@.len() == out.mesh.positions@.len(),
        // UV0 is the pixel-space channel normalized against the final atlas
        // dimensions, so it reflects any growth this pass caused
        out.mesh.uv0@ == crate::mesh::normalized_uvs(out.mesh.uv0_px@, out.atlas_w, out.atlas_h),
        out.atlas_w >= 1,
        out.atlas_h >= 1,
        out.atlas_w == final(cache).image.width,
        out.atlas_h == final(cache).image.height,
        out.dim_x >= 1,
        out.dim_y >= 0,
        // the measured block height is the largest line bottom
        out.dim_y == clamp_i32(height_from(input.lines@, 0)),
        // the vertical anchor translation is a function of the block height
        out.off_y == off_y_of(input.lines@, input.styling),
        // the measured block width is the ink extent of the built quads
        4 * expected_quads(*input, *final(cache)).len() <= 65536 ==> out.dim_x == dim_x_of(
            expected_quads(*input, *final(cache)),
        ),
        // every pixel-space UV lies within the atlas image, so every
        // normalized UV0 component lies in [0, 1]
        forall|i: int|
            0 <= i < out.mesh.uv0_px@.len() ==> (#[trigger] out.mesh.uv0_px@[i]).u <= out.atlas_w
                && out.mesh.uv0_px@[i].v <= out.atlas_h,
        forall|i: int|
            0 <= i < out.mesh.uv0@.len() ==> 0 <= (#[trigger] out.mesh.uv0@[i]).u <= 65536 && 0
                <= out.mesh.uv0@[i].v <= 65536,
        // the built mesh content is a function of the input and the final
        // cache, whenever it fits the vertex buffer: one quad per fill or
        // stroke request whose identity has a placement (its screen
        // rectangle from the glyph position, alignment, request offset and
        // placement bearing; its UV0 the placement's pixel rectangle; its
        // color the request's), plus one quad per merged decoration run
        // each quad's six indices stand as one block in sorted position
        forall|qi: int|
            0 <= qi < out.mesh.quads@.len() ==> {
                let v0 = (#[trigger] out.mesh.quads@[qi]).v0 as int;
                &&& out.mesh.indices@[6 * qi] == v0
                &&& out.mesh.indices@[6 * qi + 1] == v0 + 1
                &&& out.mesh.indices@[6 * qi + 2] == v0 + 2
                &&& out.mesh.indices@[6 * qi + 3] == v0
                &&& out.mesh.indices@[6 * qi + 4] == v0 + 2
                &&& out.mesh.indices@[6 * qi + 5] == v0 + 3
            },
        4 * expected_quads(*input, *final(cache)).len() <= 65536 ==> {
            let qs = expected_quads(*input, *final(cache));
            let flat = quads_positions_flat(qs);
            let scaled = input.styling.world_scale > 0 && input.styling.size >= 1;
            &&& out.mesh.quads@.len() == qs.len()
            &&& out.mesh.quads@.to_multiset() == entries_of(qs).to_multiset()
            &&& out.off_x == off_x_of(qs, input.styling)
            &&& forall|i: int|
                0 <= i < out.mesh.uv1@.len() ==> out.mesh.uv1@[i] == (crate::mesh::Vec2fx {
                    u: crate::mesh::fixed_div((#[trigger] flat[i]).x - bb_min_x_of(qs),
                        dim_x_of(qs)) as i64,
                    v: crate::mesh::fixed_div(flat[i].y + dim_y_of(input.lines@),
                        dim_y_pos(input.lines@)) as i64,
                })
            &&& out.mesh.uv0_px@ == quads_uvs(qs)
            &&& out.mesh.colors@ == quads_colors(qs)
            &&& out.mesh.positions@.len() == flat.len()
            &&& !scaled ==> forall|i: int|
                0 <= i < out.mesh.positions@.len() ==> out.mesh.positions@[i] == (
                crate::mesh::Vec3i {
                    x: clamp_i32((#[trigger] flat[i]).x + out.off_x) as i32,
                    y: clamp_i32(flat[i].y + out.off_y) as i32,
                    z: flat[i].z,
                })
            &&& scaled ==> forall|i: int|
                0 <= i < out.mesh.positions@.len() ==> out.mesh.positions@[i] == (
                crate::mesh::Vec3i {
                    x: clamp_i32(
                        crate::mesh::mul_div_trunc((#[trigger] flat[i]).x + out.off_x,
                            world_scale_num(input.styling), input.styling.size as int),
                    ) as i32,
                    y: clamp_i32(
                        crate::mesh::mul_div_trunc(flat[i].y + out.off_y,
                            world_scale_num(input.styling), input.styling.size as int),
                    ) as i32,
                    z: flat[i].z,
                })
        },
{
    precache_glyphs(input, cache);
    let mut mesh = MeshBuffers::new();
    let ink = build_mesh(input, cache, &mut mesh);
    let styling = input.styling;
    let mut has_ink: bool = ink.has_ink;
    let mut min_x: i32 = ink.min_x;
    let mut max_x: i32 = ink.max_x;
    let height: i64 = ink.height;

    if !has_ink {
        min_x = 0;
        max_x = 1;
    }
    let dim_x: i32 = {
        let d: i64 = (max_x as i64) - (min_x as i64);
        if d < 1 {
            1
        } else if d > 0x7fff_ffffi64 {
            i32::MAX
        } else {
            d as i32
        }
    };
    let dim_y: i32 = clamp_px(height);
    let dim_y_c: i32 = if dim_y < 1 {
        1
    } else {
        dim_y
    };
    let neg_h: i32 = clamp_px(-(dim_y as i64));

    mesh.sort_quads();
    mesh.build_indices();
    mesh.pass_uv1(min_x, neg_h, dim_x, dim_y_c);

    // anchor offset: move the configured anchor point to the origin
    let center_x: i64 = half_trunc((max_x as i64) + (min_x as i64));
    let center_y: i64 = -half_trunc(dim_y as i64);
    let ax: i64 = match styling.anchor_h {
        AnchorH::Left => -half_trunc(dim_x as i64),
        AnchorH::Center => 0,
        AnchorH::Right => half_trunc(dim_x as i64),
    };
    let ay: i64 = match styling.anchor_v {
        AnchorV::Bottom => -half_trunc(dim_y as i64),
        AnchorV::Center => 0,
        AnchorV::Top => half_trunc(dim_y as i64),
    };
    let off_x: i32 = clamp_px(ax - center_x);
    let off_y: i32 = clamp_px(ay - center_y);
    let ws: u32 = if styling.world_scale > 0x10_0000 {
        0x10_0000
    } else {
        styling.world_scale
    };
    if ws > 0 && styling.size >= 1 {
        mesh.translate_scaled(off_x, off_y, ws, styling.size);
    } else {
        mesh.translate(off_x, off_y);
    }

    let aw: u32 = cache.image.width;
    let ah: u32 = cache.image.height;
    mesh.pixel_to_uv(aw, ah);
    proof {
        assert(mesh.uv0@.len() == mesh.uv0_px@.len());
        assert forall|i: int|
            0 <= i < mesh.uv0@.len() implies 0 <= (#[trigger] mesh.uv0@[i]).u <= 65536 && 0
            <= mesh.uv0@[i].v <= 65536 by {
            assert(mesh.uv0@[i] == crate::mesh::norm_uv(mesh.uv0_px@[i], aw, ah));
            lemma_norm_component(mesh.uv0_px@[i].u, aw);
            lemma_norm_component(mesh.uv0_px@[i].v, ah);
        }
    }
    RenderOutput { mesh, dim_x, dim_y, atlas_w: aw, atlas_h: ah, off_x, off_y }
}

} // verus!
