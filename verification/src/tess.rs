//! Outline tessellator: takes a glyph's vector outline (move/line/
//! quadratic/cubic commands in font design units), scales it to device
//! pixels, flattens curves into line segments, and scan-converts the
//! result into a raster coverage patch. A zero stroke width fills the
//! outline by even-odd parity at pixel centers; a positive stroke width
//! covers every pixel whose center lies within half the width of the
//! flattened path.
//!
//! Sampling works in doubled coordinates, so pixel centers (odd values)
//! never coincide with segment endpoints (even values).

use vstd::prelude::*;
use crate::atlas::{RasterPatch, MAX_DIM};

verus! {

/// Bound on device-space outline coordinates; scaled points are clamped
/// into this range.
pub const COORD_MAX: i32 = 0x100_0000;

/// One outline path command, in font design units (then device pixels
/// after scaling).
#[derive(PartialEq, Eq, Structural, Clone, Copy, Debug)]
pub enum PathCommand {
    MoveTo(i32, i32),
    LineTo(i32, i32),
    QuadTo(i32, i32, i32, i32),
    CubicTo(i32, i32, i32, i32, i32, i32),
    Close,
}

/// A straight line segment in device pixels.
#[derive(PartialEq, Eq, Structural, Clone, Copy, Debug)]
pub struct Segment {
    pub x0: i32,
    pub y0: i32,
    pub x1: i32,
    pub y1: i32,
}

pub open spec fn seg_bounded(s: Segment) -> bool {
    &&& -COORD_MAX <= s.x0 <= COORD_MAX
    &&& -COORD_MAX <= s.y0 <= COORD_MAX
    &&& -COORD_MAX <= s.x1 <= COORD_MAX
    &&& -COORD_MAX <= s.y1 <= COORD_MAX
}

/// Accumulates path commands from an outline traversal: the visitor the
/// font-parsing layer drives, decoupled from any particular library.
pub struct CommandEncoder {
    pub commands: Vec<PathCommand>,
}

impl CommandEncoder {
    pub fn new() -> (r: CommandEncoder)
        ensures
            r.commands@.len() == 0,
    {
        CommandEncoder { commands: Vec::new() }
    }

    pub fn clear(&mut self)
        ensures
            final(self).commands@.len() == 0,
    {
        self.commands = Vec::new();
    }

    pub fn move_to(&mut self, x: i32, y: i32)
        ensures
            final(self).commands@ == old(self).commands@.push(PathCommand::MoveTo(x, y)),
    {
        self.commands.push(PathCommand::MoveTo(x, y));
    }

    pub fn line_to(&mut self, x: i32, y: i32)
        ensures
            final(self).commands@ == old(self).commands@.push(PathCommand::LineTo(x, y)),
    {
        self.commands.push(PathCommand::LineTo(x, y));
    }

    pub fn quad_to(&mut self, bx: i32, by: i32, x: i32, y: i32)
        ensures
            final(self).commands@ == old(self).commands@.push(PathCommand::QuadTo(bx, by, x, y)),
    {
        self.commands.push(PathCommand::QuadTo(bx, by, x, y));
    }

    pub fn curve_to(&mut self, ax: i32, ay: i32, bx: i32, by: i32, x: i32, y: i32)
        ensures
            final(self).commands@ == old(self).commands@.push(
                PathCommand::CubicTo(ax, ay, bx, by, x, y),
            ),
    {
        self.commands.push(PathCommand::CubicTo(ax, ay, bx, by, x, y));
    }

    pub fn close(&mut self)
        ensures
            final(self).commands@ == old(self).commands@.push(PathCommand::Close),
    {
        self.commands.push(PathCommand::Close);
    }
}

/// Integer division truncating toward zero (matching hardware division).
pub open spec fn div_trunc(a: int, d: int) -> int {
    if a >= 0 {
        a / d
    } else {
        -((-a) / d)
    }
}

/// Clamp into the device coordinate range.
pub open spec fn clamp_coord(v: int) -> int {
    if v < -COORD_MAX {
        -COORD_MAX as int
    } else if v > COORD_MAX {
        COORD_MAX as int
    } else {
        v
    }
}

/// One font-unit coordinate scaled to device pixels: `c * num / den`,
/// truncated, clamped into range.
pub open spec fn scale_coord(c: i32, num: u32, den: u32) -> int {
    clamp_coord(div_trunc((c as int) * (num as int), den as int))
}

pub open spec fn scale_cmd(c: PathCommand, num: u32, den: u32) -> PathCommand {
    match c {
        PathCommand::MoveTo(x, y) => PathCommand::MoveTo(
            scale_coord(x, num, den) as i32,
            scale_coord(y, num, den) as i32,
        ),
        PathCommand::LineTo(x, y) => PathCommand::LineTo(
            scale_coord(x, num, den) as i32,
            scale_coord(y, num, den) as i32,
        ),
        PathCommand::QuadTo(bx, by, x, y) => PathCommand::QuadTo(
            scale_coord(bx, num, den) as i32,
            scale_coord(by, num, den) as i32,
            scale_coord(x, num, den) as i32,
            scale_coord(y, num, den) as i32,
        ),
        PathCommand::CubicTo(ax, ay, bx, by, x, y) => PathCommand::CubicTo(
            scale_coord(ax, num, den) as i32,
            scale_coord(ay, num, den) as i32,
            scale_coord(bx, num, den) as i32,
            scale_coord(by, num, den) as i32,
            scale_coord(x, num, den) as i32,
            scale_coord(y, num, den) as i32,
        ),
        PathCommand::Close => PathCommand::Close,
    }
}

pub open spec fn cmd_bounded(c: PathCommand) -> bool {
    match c {
        PathCommand::MoveTo(x, y) => -COORD_MAX <= x <= COORD_MAX && -COORD_MAX <= y <= COORD_MAX,
        PathCommand::LineTo(x, y) => -COORD_MAX <= x <= COORD_MAX && -COORD_MAX <= y <= COORD_MAX,
        PathCommand::QuadTo(bx, by, x, y) => -COORD_MAX <= bx <= COORD_MAX && -COORD_MAX <= by
            <= COORD_MAX && -COORD_MAX <= x <= COORD_MAX && -COORD_MAX <= y <= COORD_MAX,
        PathCommand::CubicTo(ax, ay, bx, by, x, y) => -COORD_MAX <= ax <= COORD_MAX && -COORD_MAX
            <= ay <= COORD_MAX && -COORD_MAX <= bx <= COORD_MAX && -COORD_MAX <= by <= COORD_MAX
            && -COORD_MAX <= x <= COORD_MAX && -COORD_MAX <= y <= COORD_MAX,
        PathCommand::Close => true,
    }
}

fn div_trunc_exec(a: i64, d: i64) -> (r: i64)
    requires
        1 <= d,
        -0x7fff_ffff_ffff_ffff <= a,
    ensures
        r == div_trunc(a as int, d as int),
{
    if a >= 0 {
        ((a as u64) / (d as u64)) as i64
    } else {
        -((((-a) as u64) / (d as u64)) as i64)
    }
}

fn scale_coord_exec(c: i32, num: u32, den: u32) -> (r: i32)
    requires
        1 <= den,
        num <= 0x10_0000,
    ensures
        r == scale_coord(c, num, den),
        -COORD_MAX <= r <= COORD_MAX,
{
    proof {
        lemma_mul_abs_le(c as int, num as int, 0x8000_0000, 0x10_0000);
    }
    let p: i64 = (c as i64) * (num as i64);
    let q: i64 = div_trunc_exec(p, den as i64);
    if q < -COORD_MAX as i64 {
        -COORD_MAX
    } else if q > COORD_MAX as i64 {
        COORD_MAX
    } else {
        q as i32
    }
}

/// Scale every command from font units into device pixels.
pub fn scale_commands(cmds: &Vec<PathCommand>, num: u32, den: u32) -> (r: Vec<PathCommand>)
    requires
        1 <= den,
        num <= 0x10_0000,
    ensures
        r@.len() == cmds@.len(),
        forall|i: int| 0 <= i < cmds@.len() ==> r@[i] == scale_cmd(#[trigger] cmds@[i], num, den),
        forall|i: int| 0 <= i < r@.len() ==> cmd_bounded(#[trigger] r@[i]),
{
    let mut out: Vec<PathCommand> = Vec::new();
    let mut i: usize = 0;
    while i < cmds.len()
        invariant
            1 <= den,
            num <= 0x10_0000,
            0 <= i <= cmds@.len(),
            out@.len() == i,
            forall|k: int| 0 <= k < i ==> out@[k] == scale_cmd(#[trigger] cmds@[k], num, den),
            forall|k: int| 0 <= k < out@.len() ==> cmd_bounded(#[trigger] out@[k]),
        decreases cmds@.len() - i,
    {
        let c = cmds[i];
        let sc: PathCommand = match c {
            PathCommand::MoveTo(x, y) => PathCommand::MoveTo(
                scale_coord_exec(x, num, den),
                scale_coord_exec(y, num, den),
            ),
            PathCommand::LineTo(x, y) => PathCommand::LineTo(
                scale_coord_exec(x, num, den),
                scale_coord_exec(y, num, den),
            ),
            PathCommand::QuadTo(bx, by, x, y) => PathCommand::QuadTo(
                scale_coord_exec(bx, num, den),
                scale_coord_exec(by, num, den),
                scale_coord_exec(x, num, den),
                scale_coord_exec(y, num, den),
            ),
            PathCommand::CubicTo(ax, ay, bx, by, x, y) => PathCommand::CubicTo(
                scale_coord_exec(ax, num, den),
                scale_coord_exec(ay, num, den),
                scale_coord_exec(bx, num, den),
                scale_coord_exec(by, num, den),
                scale_coord_exec(x, num, den),
                scale_coord_exec(y, num, den),
            ),
            PathCommand::Close => PathCommand::Close,
        };
        out.push(sc);
        i += 1;
    }
    out
}

/// A point of a quadratic curve at parameter k/8, one coordinate.
pub open spec fn quad_at(a: i32, b: i32, c: i32, k: int) -> int {
    div_trunc(
        (8 - k) * (8 - k) * (a as int) + 2 * k * (8 - k) * (b as int) + k * k * (c as int),
        64,
    )
}

/// A point of a cubic curve at parameter k/8, one coordinate.
pub open spec fn cubic_at(a: i32, b: i32, c: i32, d: i32, k: int) -> int {
    div_trunc(
        (8 - k) * (8 - k) * (8 - k) * (a as int) + 3 * k * (8 - k) * (8 - k) * (b as int) + 3 * k
            * k * (8 - k) * (c as int) + k * k * k * (d as int),
        512,
    )
}

pub open spec fn quad_seg(x0: i32, y0: i32, bx: i32, by: i32, x1: i32, y1: i32, k: int) -> Segment {
    Segment {
        x0: quad_at(x0, bx, x1, k) as i32,
        y0: quad_at(y0, by, y1, k) as i32,
        x1: quad_at(x0, bx, x1, k + 1) as i32,
        y1: quad_at(y0, by, y1, k + 1) as i32,
    }
}

pub open spec fn quad_segs(x0: i32, y0: i32, bx: i32, by: i32, x1: i32, y1: i32) -> Seq<Segment> {
    Seq::new(8, |k: int| quad_seg(x0, y0, bx, by, x1, y1, k))
}

pub open spec fn cubic_seg(
    x0: i32,
    y0: i32,
    ax: i32,
    ay: i32,
    bx: i32,
    by: i32,
    x1: i32,
    y1: i32,
    k: int,
) -> Segment {
    Segment {
        x0: cubic_at(x0, ax, bx, x1, k) as i32,
        y0: cubic_at(y0, ay, by, y1, k) as i32,
        x1: cubic_at(x0, ax, bx, x1, k + 1) as i32,
        y1: cubic_at(y0, ay, by, y1, k + 1) as i32,
    }
}

pub open spec fn cubic_segs(
    x0: i32,
    y0: i32,
    ax: i32,
    ay: i32,
    bx: i32,
    by: i32,
    x1: i32,
    y1: i32,
) -> Seq<Segment> {
    Seq::new(8, |k: int| cubic_seg(x0, y0, ax, ay, bx, by, x1, y1, k))
}

/// The segment closing a contour, if the pen is away from the start.
pub open spec fn line_seg(cx: i32, cy: i32, x: i32, y: i32) -> Seq<Segment> {
    if cx == x && cy == y {
        Seq::empty()
    } else {
        seq![Segment { x0: cx, y0: cy, x1: x, y1: y }]
    }
}

/// The flattened segments of a command list: pen at (cx, cy), contour
/// start at (sx, sy), `open` when a contour is in progress. Contours are
/// implicitly closed at a MoveTo and at the end of the list.
pub open spec fn flatten_from(
    cmds: Seq<PathCommand>,
    cx: i32,
    cy: i32,
    sx: i32,
    sy: i32,
    open: bool,
) -> Seq<Segment>
    decreases cmds.len(),
{
    if cmds.len() == 0 {
        if open {
            line_seg(cx, cy, sx, sy)
        } else {
            Seq::empty()
        }
    } else {
        match cmds[0] {
            PathCommand::MoveTo(x, y) => (if open {
                line_seg(cx, cy, sx, sy)
            } else {
                Seq::empty()
            }) + flatten_from(cmds.skip(1), x, y, x, y, true),
            PathCommand::LineTo(x, y) => if open {
                line_seg(cx, cy, x, y) + flatten_from(cmds.skip(1), x, y, sx, sy, true)
            } else {
                flatten_from(cmds.skip(1), x, y, x, y, true)
            },
            PathCommand::QuadTo(bx, by, x, y) => if open {
                quad_segs(cx, cy, bx, by, x, y) + flatten_from(cmds.skip(1), x, y, sx, sy, true)
            } else {
                flatten_from(cmds.skip(1), x, y, x, y, true)
            },
            PathCommand::CubicTo(ax, ay, bx, by, x, y) => if open {
                cubic_segs(cx, cy, ax, ay, bx, by, x, y) + flatten_from(
                    cmds.skip(1),
                    x,
                    y,
                    sx,
                    sy,
                    true,
                )
            } else {
                flatten_from(cmds.skip(1), x, y, x, y, true)
            },
            PathCommand::Close => (if open {
                line_seg(cx, cy, sx, sy)
            } else {
                Seq::empty()
            }) + flatten_from(cmds.skip(1), sx, sy, sx, sy, false),
        }
    }
}

pub open spec fn flatten_spec(cmds: Seq<PathCommand>) -> Seq<Segment> {
    flatten_from(cmds, 0, 0, 0, 0, false)
}

/// A weighted sum with non-negative weights of bounded values is bounded
/// by the weight total times the value bound.
proof fn lemma_weighted_bound3(w0: int, w1: int, w2: int, a: int, b: int, c: int, cap: int, s: int)
    requires
        w0 >= 0,
        w1 >= 0,
        w2 >= 0,
        w0 + w1 + w2 == s,
        -cap <= a <= cap,
        -cap <= b <= cap,
        -cap <= c <= cap,
        0 <= cap,
    ensures
        -(s * cap) <= w0 * a + w1 * b + w2 * c <= s * cap,
{
    lemma_mul_abs_le(w0, a, w0, cap);
    lemma_mul_abs_le(w1, b, w1, cap);
    lemma_mul_abs_le(w2, c, w2, cap);
    assert(w0 * cap + w1 * cap + w2 * cap == s * cap) by (nonlinear_arith)
        requires
            w0 + w1 + w2 == s,
    ;
}

proof fn lemma_weighted_bound4(
    w0: int,
    w1: int,
    w2: int,
    w3: int,
    a: int,
    b: int,
    c: int,
    d: int,
    cap: int,
    s: int,
)
    requires
        w0 >= 0,
        w1 >= 0,
        w2 >= 0,
        w3 >= 0,
        w0 + w1 + w2 + w3 == s,
        -cap <= a <= cap,
        -cap <= b <= cap,
        -cap <= c <= cap,
        -cap <= d <= cap,
        0 <= cap,
    ensures
        -(s * cap) <= w0 * a + w1 * b + w2 * c + w3 * d <= s * cap,
{
    lemma_mul_abs_le(w0, a, w0, cap);
    lemma_mul_abs_le(w1, b, w1, cap);
    lemma_mul_abs_le(w2, c, w2, cap);
    lemma_mul_abs_le(w3, d, w3, cap);
    assert(w0 * cap + w1 * cap + w2 * cap + w3 * cap == s * cap) by (nonlinear_arith)
        requires
            w0 + w1 + w2 + w3 == s,
    ;
}

/// Signed product of values within the given magnitudes stays within the
/// product of the magnitudes.
proof fn lemma_mul_abs_le(a: int, b: int, ca: int, cb: int)
    requires
        -ca <= a <= ca,
        -cb <= b <= cb,
        0 <= ca,
        0 <= cb,
    ensures
        -(ca * cb) <= a * b <= ca * cb,
{
    assert(-(ca * cb) <= a * b <= ca * cb) by (nonlinear_arith)
        requires
            -ca <= a <= ca,
            -cb <= b <= cb,
            0 <= ca,
            0 <= cb,
    ;
}

fn quad_point(a: i32, b: i32, c: i32, k: u32) -> (r: i32)
    requires
        k <= 8,
        -COORD_MAX <= a <= COORD_MAX,
        -COORD_MAX <= b <= COORD_MAX,
        -COORD_MAX <= c <= COORD_MAX,
    ensures
        r == quad_at(a, b, c, k as int),
        -COORD_MAX <= r <= COORD_MAX,
{
    proof {
        let ki = k as int;
        assert(0 <= (8 - ki) * (8 - ki) <= 64 && 0 <= (2 * ki) * (8 - ki) <= 64 && 0 <= ki * ki
            <= 64) by (nonlinear_arith)
            requires
                0 <= ki <= 8,
        ;
    }
    let w0: i64 = ((8 - k) * (8 - k)) as i64;
    let w1: i64 = (2 * k * (8 - k)) as i64;
    let w2: i64 = (k * k) as i64;
    proof {
        assert(w0 + w1 + w2 == 64) by (nonlinear_arith)
            requires
                0 <= k <= 8,
                w0 == (8 - k) * (8 - k),
                w1 == 2 * k * (8 - k),
                w2 == k * k,
        ;
        lemma_mul_abs_le(w0 as int, a as int, 64, COORD_MAX as int);
        lemma_mul_abs_le(w1 as int, b as int, 64, COORD_MAX as int);
        lemma_mul_abs_le(w2 as int, c as int, 64, COORD_MAX as int);
        lemma_weighted_bound3(
            w0 as int,
            w1 as int,
            w2 as int,
            a as int,
            b as int,
            c as int,
            COORD_MAX as int,
            64,
        );
    }
    let sum: i64 = w0 * (a as i64) + w1 * (b as i64) + w2 * (c as i64);
    let q: i64 = div_trunc_exec(sum, 64);
    q as i32
}

fn cubic_point(a: i32, b: i32, c: i32, d: i32, k: u32) -> (r: i32)
    requires
        k <= 8,
        -COORD_MAX <= a <= COORD_MAX,
        -COORD_MAX <= b <= COORD_MAX,
        -COORD_MAX <= c <= COORD_MAX,
        -COORD_MAX <= d <= COORD_MAX,
    ensures
        r == cubic_at(a, b, c, d, k as int),
        -COORD_MAX <= r <= COORD_MAX,
{
    proof {
        let ki = k as int;
        assert(0 <= (8 - ki) * (8 - ki) <= 64 && 0 <= ((8 - ki) * (8 - ki)) * (8 - ki) <= 512 && 0
            <= (3 * ki) * (8 - ki) <= 192 && 0 <= ((3 * ki) * (8 - ki)) * (8 - ki) <= 512 && 0 <= (
        3 * ki) * ki <= 192 && 0 <= ((3 * ki) * ki) * (8 - ki) <= 512 && 0 <= ki * ki <= 64 && 0
            <= (ki * ki) * ki <= 512) by (nonlinear_arith)
            requires
                0 <= ki <= 8,
        ;
    }
    let w0: i64 = ((8 - k) * (8 - k) * (8 - k)) as i64;
    let w1: i64 = (3 * k * (8 - k) * (8 - k)) as i64;
    let w2: i64 = (3 * k * k * (8 - k)) as i64;
    let w3: i64 = (k * k * k) as i64;
    proof {
        assert(w0 + w1 + w2 + w3 == 512) by (nonlinear_arith)
            requires
                0 <= k <= 8,
                w0 == (8 - k) * (8 - k) * (8 - k),
                w1 == 3 * k * (8 - k) * (8 - k),
                w2 == 3 * k * k * (8 - k),
                w3 == k * k * k,
        ;
        lemma_mul_abs_le(w0 as int, a as int, 512, COORD_MAX as int);
        lemma_mul_abs_le(w1 as int, b as int, 512, COORD_MAX as int);
        lemma_mul_abs_le(w2 as int, c as int, 512, COORD_MAX as int);
        lemma_mul_abs_le(w3 as int, d as int, 512, COORD_MAX as int);
        lemma_weighted_bound4(
            w0 as int,
            w1 as int,
            w2 as int,
            w3 as int,
            a as int,
            b as int,
            c as int,
            d as int,
            COORD_MAX as int,
            512,
        );
    }
    let sum: i64 = w0 * (a as i64) + w1 * (b as i64) + w2 * (c as i64) + w3 * (d as i64);
    let q: i64 = div_trunc_exec(sum, 512);
    q as i32
}

/// Flatten scaled commands into bounded line segments.
pub fn flatten(cmds: &Vec<PathCommand>) -> (r: Vec<Segment>)
    requires
        forall|i: int| 0 <= i < cmds@.len() ==> cmd_bounded(#[trigger] cmds@[i]),
    ensures
        r@ == flatten_spec(cmds@),
        forall|i: int| 0 <= i < r@.len() ==> seg_bounded(#[trigger] r@[i]),
{
    let mut out: Vec<Segment> = Vec::new();
    let mut cx: i32 = 0;
    let mut cy: i32 = 0;
    let mut sx: i32 = 0;
    let mut sy: i32 = 0;
    let mut open: bool = false;
    let mut i: usize = 0;
    proof {
        assert(cmds@.skip(0) =~= cmds@);
        assert(out@ + flatten_from(cmds@, 0, 0, 0, 0, false) =~= flatten_spec(cmds@));
    }
    while i < cmds.len()
        invariant
            forall|k: int| 0 <= k < cmds@.len() ==> cmd_bounded(#[trigger] cmds@[k]),
            0 <= i <= cmds@.len(),
            -COORD_MAX <= cx <= COORD_MAX,
            -COORD_MAX <= cy <= COORD_MAX,
            -COORD_MAX <= sx <= COORD_MAX,
            -COORD_MAX <= sy <= COORD_MAX,
            out@ + flatten_from(cmds@.skip(i as int), cx, cy, sx, sy, open) == flatten_spec(
                cmds@,
            ),
            forall|k: int| 0 <= k < out@.len() ==> seg_bounded(#[trigger] out@[k]),
        decreases cmds@.len() - i,
    {
        let c = cmds[i];
        let ghost rest = cmds@.skip(i as int);
        proof {
            assert(rest[0] == cmds@[i as int]);
            assert(rest.skip(1) =~= cmds@.skip(i as int + 1));
        }
        match c {
            PathCommand::MoveTo(x, y) => {
                if open && (cx != sx || cy != sy) {
                    out.push(Segment { x0: cx, y0: cy, x1: sx, y1: sy });
                }
                cx = x;
                cy = y;
                sx = x;
                sy = y;
                open = true;
                proof {
                    assert(out@ + flatten_from(rest.skip(1), x, y, x, y, true) =~= flatten_spec(
                        cmds@,
                    ));
                }
            },
            PathCommand::LineTo(x, y) => {
                if open {
                    if cx != x || cy != y {
                        out.push(Segment { x0: cx, y0: cy, x1: x, y1: y });
                    }
                    cx = x;
                    cy = y;
                    proof {
                        assert(out@ + flatten_from(rest.skip(1), x, y, sx, sy, true)
                            =~= flatten_spec(cmds@));
                    }
                } else {
                    cx = x;
                    cy = y;
                    sx = x;
                    sy = y;
                    open = true;
                }
            },
            PathCommand::QuadTo(bx, by, x, y) => {
                if open {
                    let ghost snap = out@;
                    let mut k: u32 = 0;
                    while k < 8
                        invariant
                            0 <= k <= 8,
                            -COORD_MAX <= cx <= COORD_MAX,
                            -COORD_MAX <= cy <= COORD_MAX,
                            -COORD_MAX <= bx <= COORD_MAX,
                            -COORD_MAX <= by <= COORD_MAX,
                            -COORD_MAX <= x <= COORD_MAX,
                            -COORD_MAX <= y <= COORD_MAX,
                            out@ == snap + quad_segs(cx, cy, bx, by, x, y).take(k as int),
                            forall|m: int| 0 <= m < out@.len() ==> seg_bounded(#[trigger] out@[m]),
                        decreases 8 - k,
                    {
                        let p0x = quad_point(cx, bx, x, k);
                        let p0y = quad_point(cy, by, y, k);
                        let p1x = quad_point(cx, bx, x, k + 1);
                        let p1y = quad_point(cy, by, y, k + 1);
                        out.push(Segment { x0: p0x, y0: p0y, x1: p1x, y1: p1y });
                        proof {
                            assert(quad_segs(cx, cy, bx, by, x, y).take(k as int + 1)
                                =~= quad_segs(cx, cy, bx, by, x, y).take(k as int).push(
                                quad_seg(cx, cy, bx, by, x, y, k as int),
                            ));
                        }
                        k += 1;
                    }
                    proof {
                        assert(quad_segs(cx, cy, bx, by, x, y).take(8) =~= quad_segs(
                            cx,
                            cy,
                            bx,
                            by,
                            x,
                            y,
                        ));
                        assert(out@ =~= snap + quad_segs(cx, cy, bx, by, x, y));
                    }
                    cx = x;
                    cy = y;
                    proof {
                        assert(out@ + flatten_from(rest.skip(1), x, y, sx, sy, true)
                            =~= flatten_spec(cmds@));
                    }
                } else {
                    cx = x;
                    cy = y;
                    sx = x;
                    sy = y;
                    open = true;
                }
            },
            PathCommand::CubicTo(ax, ay, bx, by, x, y) => {
                if open {
                    let ghost snap = out@;
                    let mut k: u32 = 0;
                    while k < 8
                        invariant
                            0 <= k <= 8,
                            -COORD_MAX <= cx <= COORD_MAX,
                            -COORD_MAX <= cy <= COORD_MAX,
                            -COORD_MAX <= ax <= COORD_MAX,
                            -COORD_MAX <= ay <= COORD_MAX,
                            -COORD_MAX <= bx <= COORD_MAX,
                            -COORD_MAX <= by <= COORD_MAX,
                            -COORD_MAX <= x <= COORD_MAX,
                            -COORD_MAX <= y <= COORD_MAX,
                            out@ == snap + cubic_segs(cx, cy, ax, ay, bx, by, x, y).take(k as int),
                            forall|m: int| 0 <= m < out@.len() ==> seg_bounded(#[trigger] out@[m]),
                        decreases 8 - k,
                    {
                        let p0x = cubic_point(cx, ax, bx, x, k);
                        let p0y = cubic_point(cy, ay, by, y, k);
                        let p1x = cubic_point(cx, ax, bx, x, k + 1);
                        let p1y = cubic_point(cy, ay, by, y, k + 1);
                        out.push(Segment { x0: p0x, y0: p0y, x1: p1x, y1: p1y });
                        proof {
                            assert(cubic_segs(cx, cy, ax, ay, bx, by, x, y).take(k as int + 1)
                                =~= cubic_segs(cx, cy, ax, ay, bx, by, x, y).take(k as int).push(
                                cubic_seg(cx, cy, ax, ay, bx, by, x, y, k as int),
                            ));
                        }
                        k += 1;
                    }
                    proof {
                        assert(cubic_segs(cx, cy, ax, ay, bx, by, x, y).take(8) =~= cubic_segs(
                            cx,
                            cy,
                            ax,
                            ay,
                            bx,
                            by,
                            x,
                            y,
                        ));
                        assert(out@ =~= snap + cubic_segs(cx, cy, ax, ay, bx, by, x, y));
                    }
                    cx = x;
                    cy = y;
                    proof {
                        assert(out@ + flatten_from(rest.skip(1), x, y, sx, sy, true)
                            =~= flatten_spec(cmds@));
                    }
                } else {
                    cx = x;
                    cy = y;
                    sx = x;
                    sy = y;
                    open = true;
                }
            },
            PathCommand::Close => {
                if open && (cx != sx || cy != sy) {
                    out.push(Segment { x0: cx, y0: cy, x1: sx, y1: sy });
                }
                cx = sx;
                cy = sy;
                open = false;
                proof {
                    assert(out@ + flatten_from(rest.skip(1), sx, sy, sx, sy, false)
                        =~= flatten_spec(cmds@));
                }
            },
        }
        i += 1;
    }
    proof {
        assert(cmds@.skip(cmds@.len() as int) =~= Seq::<PathCommand>::empty());
    }
    if open && (cx != sx || cy != sy) {
        out.push(Segment { x0: cx, y0: cy, x1: sx, y1: sy });
    }
    proof {
        assert(out@ =~= flatten_spec(cmds@));
    }
    out
}

/// Bounding box of a segment list, as exact integer folds.
pub struct Bbox {
    pub min_x: int,
    pub min_y: int,
    pub max_x: int,
    pub max_y: int,
}

pub open spec fn min2(a: int, b: int) -> int {
    if a < b {
        a
    } else {
        b
    }
}

pub open spec fn max2(a: int, b: int) -> int {
    if a > b {
        a
    } else {
        b
    }
}

pub open spec fn bbox_merge(b: Bbox, s: Segment) -> Bbox {
    Bbox {
        min_x: min2(b.min_x, min2(s.x0 as int, s.x1 as int)),
        min_y: min2(b.min_y, min2(s.y0 as int, s.y1 as int)),
        max_x: max2(b.max_x, max2(s.x0 as int, s.x1 as int)),
        max_y: max2(b.max_y, max2(s.y0 as int, s.y1 as int)),
    }
}

pub open spec fn bbox_seg(s: Segment) -> Bbox {
    Bbox {
        min_x: min2(s.x0 as int, s.x1 as int),
        min_y: min2(s.y0 as int, s.y1 as int),
        max_x: max2(s.x0 as int, s.x1 as int),
        max_y: max2(s.y0 as int, s.y1 as int),
    }
}

/// The bounding box of a non-empty segment list.
pub open spec fn bbox_of(segs: Seq<Segment>) -> Bbox
    decreases segs.len(),
{
    if segs.len() <= 1 {
        bbox_seg(segs[0])
    } else {
        bbox_merge(bbox_of(segs.drop_last()), segs.last())
    }
}

fn min_i32(a: i32, b: i32) -> (r: i32)
    ensures
        r == min2(a as int, b as int),
{
    if a < b {
        a
    } else {
        b
    }
}

fn max_i32(a: i32, b: i32) -> (r: i32)
    ensures
        r == max2(a as int, b as int),
{
    if a > b {
        a
    } else {
        b
    }
}

/// The exact bounding box of the segments, or nothing for an empty list.
pub fn bounds(segs: &Vec<Segment>) -> (r: Option<(i32, i32, i32, i32)>)
    requires
        forall|i: int| 0 <= i < segs@.len() ==> seg_bounded(#[trigger] segs@[i]),
    ensures
        (r is None) <==> segs@.len() == 0,
        segs@.len() > 0 ==> {
            let b = bbox_of(segs@);
            r == Some((b.min_x as i32, b.min_y as i32, b.max_x as i32, b.max_y as i32))
                && -COORD_MAX <= b.min_x <= b.max_x <= COORD_MAX && -COORD_MAX <= b.min_y <= b.max_y
                <= COORD_MAX
        },
{
    if segs.len() == 0 {
        return None;
    }
    let s0 = segs[0];
    let mut min_x: i32 = min_i32(s0.x0, s0.x1);
    let mut min_y: i32 = min_i32(s0.y0, s0.y1);
    let mut max_x: i32 = max_i32(s0.x0, s0.x1);
    let mut max_y: i32 = max_i32(s0.y0, s0.y1);
    let mut i: usize = 1;
    proof {
        assert(segs@.take(1) =~= seq![segs@[0]]);
        assert(bbox_of(segs@.take(1)) == bbox_seg(segs@[0]));
    }
    while i < segs.len()
        invariant
            forall|k: int| 0 <= k < segs@.len() ==> seg_bounded(#[trigger] segs@[k]),
            1 <= i <= segs@.len(),
            bbox_of(segs@.take(i as int)) == (Bbox {
                min_x: min_x as int,
                min_y: min_y as int,
                max_x: max_x as int,
                max_y: max_y as int,
            }),
            -COORD_MAX <= min_x <= max_x <= COORD_MAX,
            -COORD_MAX <= min_y <= max_y <= COORD_MAX,
        decreases segs@.len() - i,
    {
        let s = segs[i];
        proof {
            assert(segs@.take(i as int + 1).drop_last() =~= segs@.take(i as int));
            assert(segs@.take(i as int + 1).last() == segs@[i as int]);
        }
        min_x = min_i32(min_x, min_i32(s.x0, s.x1));
        min_y = min_i32(min_y, min_i32(s.y0, s.y1));
        max_x = max_i32(max_x, max_i32(s.x0, s.x1));
        max_y = max_i32(max_y, max_i32(s.y0, s.y1));
        i += 1;
    }
    proof {
        assert(segs@.take(segs@.len() as int) =~= segs@);
    }
    Some((min_x, min_y, max_x, max_y))
}

/// A sample point on a horizontal ray crosses the segment: the segment
/// spans the sample's (odd, doubled) y strictly, and its intersection with
/// that scanline lies strictly right of the sample.
pub open spec fn seg_crosses(s: Segment, sx: int, sy: int) -> bool {
    let x0 = 2 * (s.x0 as int);
    let y0 = 2 * (s.y0 as int);
    let x1 = 2 * (s.x1 as int);
    let y1 = 2 * (s.y1 as int);
    if y0 < sy && sy < y1 {
        (x0 - sx) * (y1 - y0) + (sy - y0) * (x1 - x0) > 0
    } else if y1 < sy && sy < y0 {
        (x0 - sx) * (y1 - y0) + (sy - y0) * (x1 - x0) < 0
    } else {
        false
    }
}

/// Even-odd fill rule: the sample is inside when an odd number of
/// segments cross the ray to its right.
pub open spec fn fill_parity(segs: Seq<Segment>, sx: int, sy: int) -> bool
    decreases segs.len(),
{
    if segs.len() == 0 {
        false
    } else {
        fill_parity(segs.drop_last(), sx, sy) != seg_crosses(segs.last(), sx, sy)
    }
}

/// The sample lies within (doubled-coordinate) distance `w` of the
/// segment: squared point-to-segment distance compared by cross
/// multiplication, with the projection clamped to the segment.
pub open spec fn seg_near(s: Segment, sx: int, sy: int, w: int) -> bool {
    let x0 = 2 * (s.x0 as int);
    let y0 = 2 * (s.y0 as int);
    let x1 = 2 * (s.x1 as int);
    let y1 = 2 * (s.y1 as int);
    let dx = x1 - x0;
    let dy = y1 - y0;
    let ux = sx - x0;
    let uy = sy - y0;
    let vx = sx - x1;
    let vy = sy - y1;
    let dd = dx * dx + dy * dy;
    let t = ux * dx + uy * dy;
    if dd == 0 || t <= 0 {
        ux * ux + uy * uy <= w * w
    } else if t >= dd {
        vx * vx + vy * vy <= w * w
    } else {
        (ux * ux + uy * uy) * dd - t * t <= (w * w) * dd
    }
}

pub open spec fn stroke_covered(segs: Seq<Segment>, sx: int, sy: int, w: int) -> bool {
    exists|i: int| 0 <= i < segs.len() && seg_near(#[trigger] segs[i], sx, sy, w)
}

/// Whether a sample point is covered: even-odd fill when the stroke width
/// is zero, else distance-to-path coverage at half the (doubled) width.
pub open spec fn sample_covered(segs: Seq<Segment>, sx: int, sy: int, stroke: u32) -> bool {
    if stroke == 0 {
        fill_parity(segs, sx, sy)
    } else {
        stroke_covered(segs, sx, sy, stroke as int)
    }
}

/// Coverage byte of patch pixel (px, py) for a patch whose origin is at
/// device pixel (ox, oy): full coverage when the pixel center is covered.
pub open spec fn coverage_at(
    segs: Seq<Segment>,
    ox: int,
    oy: int,
    px: int,
    py: int,
    stroke: u32,
) -> u8 {
    if sample_covered(segs, 2 * (ox + px) + 1, 2 * (oy + py) + 1, stroke) {
        255u8
    } else {
        0u8
    }
}

/// Doubled sample coordinates stay within this range.
pub const SAMPLE_MAX: i64 = 0x8_000_000;

fn seg_crosses_exec(s: Segment, sx: i64, sy: i64) -> (r: bool)
    requires
        seg_bounded(s),
        -SAMPLE_MAX <= sx <= SAMPLE_MAX,
        -SAMPLE_MAX <= sy <= SAMPLE_MAX,
    ensures
        r == seg_crosses(s, sx as int, sy as int),
{
    let x0: i64 = 2 * (s.x0 as i64);
    let y0: i64 = 2 * (s.y0 as i64);
    let x1: i64 = 2 * (s.x1 as i64);
    let y1: i64 = 2 * (s.y1 as i64);
    proof {
        lemma_mul_abs_le(x0 - sx, y1 - y0, 0x1000_0000, 0x1000_0000);
        lemma_mul_abs_le(sy - y0, x1 - x0, 0x1000_0000, 0x1000_0000);
    }
    if y0 < sy && sy < y1 {
        (x0 - sx) * (y1 - y0) + (sy - y0) * (x1 - x0) > 0
    } else if y1 < sy && sy < y0 {
        (x0 - sx) * (y1 - y0) + (sy - y0) * (x1 - x0) < 0
    } else {
        false
    }
}

fn seg_near_exec(s: Segment, sx: i64, sy: i64, w: u32) -> (r: bool)
    requires
        seg_bounded(s),
        -SAMPLE_MAX <= sx <= SAMPLE_MAX,
        -SAMPLE_MAX <= sy <= SAMPLE_MAX,
        w <= 0x10_0000,
    ensures
        r == seg_near(s, sx as int, sy as int, w as int),
{
    let x0: i128 = 2 * (s.x0 as i128);
    let y0: i128 = 2 * (s.y0 as i128);
    let x1: i128 = 2 * (s.x1 as i128);
    let y1: i128 = 2 * (s.y1 as i128);
    let dx: i128 = x1 - x0;
    let dy: i128 = y1 - y0;
    let ux: i128 = (sx as i128) - x0;
    let uy: i128 = (sy as i128) - y0;
    let vx: i128 = (sx as i128) - x1;
    let vy: i128 = (sy as i128) - y1;
    proof {
        lemma_mul_abs_le(dx as int, dx as int, 0x2000_0000, 0x2000_0000);
        lemma_mul_abs_le(dy as int, dy as int, 0x2000_0000, 0x2000_0000);
        lemma_mul_abs_le(ux as int, ux as int, 0x2000_0000, 0x2000_0000);
        lemma_mul_abs_le(uy as int, uy as int, 0x2000_0000, 0x2000_0000);
        lemma_mul_abs_le(vx as int, vx as int, 0x2000_0000, 0x2000_0000);
        lemma_mul_abs_le(vy as int, vy as int, 0x2000_0000, 0x2000_0000);
        lemma_mul_abs_le(ux as int, dx as int, 0x2000_0000, 0x2000_0000);
        lemma_mul_abs_le(uy as int, dy as int, 0x2000_0000, 0x2000_0000);
        lemma_mul_abs_le(w as int, w as int, 0x10_0000, 0x10_0000);
    }
    let dd: i128 = dx * dx + dy * dy;
    let t: i128 = ux * dx + uy * dy;
    let ww: i128 = (w as i128) * (w as i128);
    if dd == 0 || t <= 0 {
        ux * ux + uy * uy <= ww
    } else if t >= dd {
        vx * vx + vy * vy <= ww
    } else {
        let uu: i128 = ux * ux + uy * uy;
        proof {
            lemma_mul_abs_le(uu as int, dd as int, 0x1000_0000_0000_0000, 0x1000_0000_0000_0000);
            lemma_mul_abs_le(t as int, t as int, 0x1000_0000_0000_0000, 0x1000_0000_0000_0000);
            lemma_mul_abs_le(ww as int, dd as int, 0x1000_0000_0000_0000, 0x1000_0000_0000_0000);
        }
        uu * dd - t * t <= ww * dd
    }
}

fn covered_exec(segs: &Vec<Segment>, sx: i64, sy: i64, stroke: u32) -> (r: bool)
    requires
        forall|i: int| 0 <= i < segs@.len() ==> seg_bounded(#[trigger] segs@[i]),
        -SAMPLE_MAX <= sx <= SAMPLE_MAX,
        -SAMPLE_MAX <= sy <= SAMPLE_MAX,
        stroke <= 0x10_0000,
    ensures
        r == sample_covered(segs@, sx as int, sy as int, stroke),
{
    if stroke == 0 {
        let mut acc: bool = false;
        let mut i: usize = 0;
        proof {
            assert(segs@.take(0) =~= Seq::<Segment>::empty());
        }
        while i < segs.len()
            invariant
                forall|k: int| 0 <= k < segs@.len() ==> seg_bounded(#[trigger] segs@[k]),
                -SAMPLE_MAX <= sx <= SAMPLE_MAX,
                -SAMPLE_MAX <= sy <= SAMPLE_MAX,
                0 <= i <= segs@.len(),
                acc == fill_parity(segs@.take(i as int), sx as int, sy as int),
            decreases segs@.len() - i,
        {
            let c = seg_crosses_exec(segs[i], sx, sy);
            proof {
                assert(segs@.take(i as int + 1).drop_last() =~= segs@.take(i as int));
                assert(segs@.take(i as int + 1).last() == segs@[i as int]);
            }
            acc = acc != c;
            i += 1;
        }
        proof {
            assert(segs@.take(segs@.len() as int) =~= segs@);
        }
        acc
    } else {
        let mut found: bool = false;
        let mut i: usize = 0;
        while i < segs.len()
            invariant
                forall|k: int| 0 <= k < segs@.len() ==> seg_bounded(#[trigger] segs@[k]),
                -SAMPLE_MAX <= sx <= SAMPLE_MAX,
                -SAMPLE_MAX <= sy <= SAMPLE_MAX,
                stroke <= 0x10_0000,
                0 <= i <= segs@.len(),
                found == exists|j: int|
                    0 <= j < i && seg_near(#[trigger] segs@[j], sx as int, sy as int,
                        stroke as int),
            decreases segs@.len() - i,
        {
            if seg_near_exec(segs[i], sx, sy, stroke) {
                found = true;
            }
            i += 1;
        }
        found
    }
}

/// Row-major index decomposition within one row.
proof fn lemma_rowmajor_divmod(width: int, px: int, py: int)
    requires
        1 <= width,
        0 <= px < width,
        0 <= py,
    ensures
        (py * width + px) / width == py,
        (py * width + px) % width == px,
{
    assert((py * width + px) / width == py && (py * width + px) % width == px)
        by (nonlinear_arith)
        requires
            1 <= width,
            0 <= px < width,
            0 <= py,
    ;
}

/// Scan-convert the segments into a coverage patch of the given
/// dimensions, whose origin sits at device pixel (ox, oy). Every pixel
/// holds full coverage exactly when its center is covered.
pub fn rasterize(
    segs: &Vec<Segment>,
    ox: i32,
    oy: i32,
    width: u32,
    height: u32,
    stroke: u32,
) -> (r: RasterPatch)
    requires
        forall|i: int| 0 <= i < segs@.len() ==> seg_bounded(#[trigger] segs@[i]),
        -0x200_0000 <= ox <= 0x200_0000,
        -0x200_0000 <= oy <= 0x200_0000,
        1 <= width <= MAX_DIM,
        1 <= height <= MAX_DIM,
        stroke <= 0x10_0000,
    ensures
        r.wf(),
        r.width == width,
        r.height == height,
        forall|px: int, py: int|
            0 <= px < width && 0 <= py < height ==> r.patch_at(px, py) == coverage_at(
                segs@,
                ox as int,
                oy as int,
                px,
                py,
                stroke,
            ),
{
    let mut data: Vec<u8> = Vec::new();
    let mut py: u32 = 0;
    while py < height
        invariant
            forall|k: int| 0 <= k < segs@.len() ==> seg_bounded(#[trigger] segs@[k]),
            -0x200_0000 <= ox <= 0x200_0000,
            -0x200_0000 <= oy <= 0x200_0000,
            1 <= width <= MAX_DIM,
            1 <= height <= MAX_DIM,
            stroke <= 0x10_0000,
            0 <= py <= height,
            data@.len() == py * width,
            forall|k: int|
                0 <= k < data@.len() ==> #[trigger] data@[k] == coverage_at(segs@, ox as int,
                    oy as int, k % (width as int), k / (width as int), stroke),
        decreases height - py,
    {
        let mut px: u32 = 0;
        while px < width
            invariant
                forall|k: int| 0 <= k < segs@.len() ==> seg_bounded(#[trigger] segs@[k]),
                -0x200_0000 <= ox <= 0x200_0000,
                -0x200_0000 <= oy <= 0x200_0000,
                1 <= width <= MAX_DIM,
                1 <= height <= MAX_DIM,
                stroke <= 0x10_0000,
                0 <= py < height,
                0 <= px <= width,
                data@.len() == py * width + px,
                forall|k: int|
                    0 <= k < data@.len() ==> #[trigger] data@[k] == coverage_at(segs@, ox as int,
                        oy as int, k % (width as int), k / (width as int), stroke),
            decreases width - px,
        {
            let sx: i64 = 2 * ((ox as i64) + (px as i64)) + 1;
            let sy: i64 = 2 * ((oy as i64) + (py as i64)) + 1;
            let c = covered_exec(segs, sx, sy, stroke);
            let v: u8 = if c {
                255
            } else {
                0
            };
            proof {
                lemma_rowmajor_divmod(width as int, px as int, py as int);
                crate::mesh::lemma_mul_le(py as int, width as int, 32768, 32768);
            }
            data.push(v);
            px += 1;
        }
        proof {
            crate::mesh::lemma_mul_le(py as int + 1, width as int, 32768, 32768);
            assert((py + 1) * width == py * width + width) by (nonlinear_arith);
        }
        py += 1;
    }
    let r = RasterPatch { width, height, data };
    proof {
        crate::mesh::lemma_mul_le(height as int, width as int, 32768, 32768);
        assert(r.data@.len() == width * height) by (nonlinear_arith)
            requires
                r.data@.len() == height * width,
        ;
        assert forall|px: int, py2: int|
            0 <= px < width && 0 <= py2 < height implies r.patch_at(px, py2) == coverage_at(
            segs@,
            ox as int,
            oy as int,
            px,
            py2,
            stroke,
        ) by {
            lemma_rowmajor_divmod(width as int, px, py2);
            lemma_pixel_index_in_range_t(width as int, height as int, px, py2);
        }
    }
    r
}

/// A pixel's flat index is within a row-major buffer.
proof fn lemma_pixel_index_in_range_t(width: int, height: int, px: int, py: int)
    requires
        0 <= px < width,
        0 <= py < height,
    ensures
        0 <= py * width + px < width * height,
{
    assert(0 <= py * width + px < width * height) by (nonlinear_arith)
        requires
            0 <= px < width,
            0 <= py < height,
    ;
}

/// The flattened device-space segments of a glyph outline under a scale.
pub open spec fn glyph_segs(cmds: Seq<PathCommand>, num: u32, den: u32) -> Seq<Segment> {
    flatten_spec(cmds.map_values(|c: PathCommand| scale_cmd(c, num, den)))
}

/// Padding around the glyph's bounding box, leaving room for the stroke.
pub open spec fn pad_of(stroke: u32) -> int {
    stroke / 2 + 2
}

/// Patch dimensions for a glyph's bounding box under a stroke.
pub open spec fn patch_w(b: Bbox, stroke: u32) -> int {
    b.max_x - b.min_x + 2 * pad_of(stroke)
}

pub open spec fn patch_h(b: Bbox, stroke: u32) -> int {
    b.max_y - b.min_y + 2 * pad_of(stroke)
}

/// A tessellated glyph: its coverage patch and the draw offset of the
/// patch origin relative to the glyph origin, in device pixels.
pub struct TessResult {
    pub patch: RasterPatch,
    pub offset_x: i32,
    pub offset_y: i32,
}

/// Tessellate one glyph outline: scale it by `num / den` into device
/// pixels, flatten it, and rasterize it (filled for stroke zero, stroked
/// otherwise). Returns nothing exactly when the outline has no segments
/// (no ink) or the padded bounding box exceeds the atlas dimension cap.
pub fn tess_glyph(cmds: &Vec<PathCommand>, stroke: u32, num: u32, den: u32) -> (r: Option<
    TessResult,
>)
    requires
        1 <= den,
        num <= 0x10_0000,
        stroke <= 0x10_0000,
    ensures
        ({
            let segs = glyph_segs(cmds@, num, den);
            &&& (r is None) <==> (segs.len() == 0 || patch_w(bbox_of(segs), stroke) > MAX_DIM
                || patch_h(bbox_of(segs), stroke) > MAX_DIM)
            &&& r matches Some(t) ==> {
                let b = bbox_of(segs);
                &&& t.patch.wf()
                &&& t.patch.width == patch_w(b, stroke)
                &&& t.patch.height == patch_h(b, stroke)
                &&& t.offset_x == b.min_x - pad_of(stroke)
                &&& t.offset_y == b.min_y - pad_of(stroke)
                &&& forall|px: int, py: int|
                    0 <= px < t.patch.width && 0 <= py < t.patch.height ==> t.patch.patch_at(
                        px,
                        py,
                    ) == coverage_at(segs, t.offset_x as int, t.offset_y as int, px, py, stroke)
            }
        }),
{
    let scaled = scale_commands(cmds, num, den);
    proof {
        assert(scaled@ =~= cmds@.map_values(|c: PathCommand| scale_cmd(c, num, den)));
    }
    let segs = flatten(&scaled);
    let b = bounds(&segs);
    match b {
        None => None,
        Some((min_x, min_y, max_x, max_y)) => {
            let pad: i64 = (stroke / 2 + 2) as i64;
            let w: i64 = (max_x as i64) - (min_x as i64) + 2 * pad;
            let h: i64 = (max_y as i64) - (min_y as i64) + 2 * pad;
            if w > MAX_DIM as i64 || h > MAX_DIM as i64 {
                return None;
            }
            let ox: i32 = ((min_x as i64) - pad) as i32;
            let oy: i32 = ((min_y as i64) - pad) as i32;
            let patch = rasterize(&segs, ox, oy, w as u32, h as u32, stroke);
            Some(TessResult { patch, offset_x: ox, offset_y: oy })
        },
    }
}

} // verus!
