//! Draw request generator: expands one glyph under a segment style into
//! zero or more draw requests (stroke outline, fill, underline,
//! strikethrough), each carrying a color, a spatial offset and a layer
//! key. Strokes sort below fills of the same segment so an outline is
//! drawn behind its glyph; decorations get layers of their own.

use vstd::prelude::*;

verus! {

/// What a draw request draws. A stroke carries its width (always
/// non-zero); a fill draws the solid glyph.
#[derive(PartialEq, Eq, Structural, Clone, Copy, Debug)]
pub enum DrawKind {
    Fill,
    Stroke(u32),
    Underline,
    Strikethrough,
}

/// One draw request: ephemeral, produced and consumed per glyph.
#[derive(PartialEq, Eq, Structural, Clone, Copy, Debug)]
pub struct DrawRequest {
    pub kind: DrawKind,
    pub color: u32,
    pub offset_x: i32,
    pub offset_y: i32,
    pub offset_z: i32,
    pub layer: i64,
}

/// The style of one text segment: fill color, optional stroke (width zero
/// means none), optional decorations, render layer, spatial offset and
/// font weight.
#[derive(PartialEq, Eq, Structural, Clone, Copy, Debug)]
pub struct SegmentStyle {
    pub fill_color: u32,
    pub stroke_width: u32,
    pub stroke_color: u32,
    pub underline: bool,
    pub strikethrough: bool,
    pub layer: i32,
    pub offset_x: i32,
    pub offset_y: i32,
    pub offset_z: i32,
    pub weight: u16,
}

/// Layer keys of the four draw kinds within one segment layer: underline
/// under everything, then stroke, then fill, then strikethrough on top.
pub open spec fn layer_of(s: SegmentStyle, kind: DrawKind) -> int {
    4 * (s.layer as int) + match kind {
        DrawKind::Underline => 0int,
        DrawKind::Stroke(_) => 1int,
        DrawKind::Fill => 2int,
        DrawKind::Strikethrough => 3int,
    }
}

pub open spec fn request_of(s: SegmentStyle, kind: DrawKind, color: u32) -> DrawRequest {
    DrawRequest {
        kind,
        color,
        offset_x: s.offset_x,
        offset_y: s.offset_y,
        offset_z: s.offset_z,
        layer: layer_of(s, kind) as i64,
    }
}

/// The requests one glyph expands to under a style, in emission order.
pub open spec fn expand_spec(s: SegmentStyle) -> Seq<DrawRequest> {
    (if s.underline {
        seq![request_of(s, DrawKind::Underline, s.fill_color)]
    } else {
        Seq::empty()
    }) + (if s.stroke_width > 0 {
        seq![request_of(s, DrawKind::Stroke(s.stroke_width), s.stroke_color)]
    } else {
        Seq::empty()
    }) + seq![request_of(s, DrawKind::Fill, s.fill_color)] + (if s.strikethrough {
        seq![request_of(s, DrawKind::Strikethrough, s.fill_color)]
    } else {
        Seq::empty()
    })
}

/// Expand one glyph's style into its draw requests. Always emits the fill;
/// emits a stroke request exactly when the style has a non-zero stroke
/// width, and decoration requests exactly when the style asks for them.
pub fn fill_draw_requests(s: &SegmentStyle, out: &mut Vec<DrawRequest>)
    ensures
        final(out)@ == old(out)@ + expand_spec(*s),
{
    if s.underline {
        out.push(
            DrawRequest {
                kind: DrawKind::Underline,
                color: s.fill_color,
                offset_x: s.offset_x,
                offset_y: s.offset_y,
                offset_z: s.offset_z,
                layer: 4 * (s.layer as i64),
            },
        );
    }
    if s.stroke_width > 0 {
        out.push(
            DrawRequest {
                kind: DrawKind::Stroke(s.stroke_width),
                color: s.stroke_color,
                offset_x: s.offset_x,
                offset_y: s.offset_y,
                offset_z: s.offset_z,
                layer: 4 * (s.layer as i64) + 1,
            },
        );
    }
    out.push(
        DrawRequest {
            kind: DrawKind::Fill,
            color: s.fill_color,
            offset_x: s.offset_x,
            offset_y: s.offset_y,
            offset_z: s.offset_z,
            layer: 4 * (s.layer as i64) + 2,
        },
    );
    if s.strikethrough {
        out.push(
            DrawRequest {
                kind: DrawKind::Strikethrough,
                color: s.fill_color,
                offset_x: s.offset_x,
                offset_y: s.offset_y,
                offset_z: s.offset_z,
                layer: 4 * (s.layer as i64) + 3,
            },
        );
    }
    proof {
        assert(out@ =~= old(out)@ + expand_spec(*s));
    }
}

} // verus!
