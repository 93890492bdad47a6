//! Mesh builder: accumulates per-glyph and decoration quads into parallel
//! vertex buffers, sorts quads by layer key with insertion order as the
//! tie-break, and runs the finalization passes (bounding-box-relative UV1,
//! anchor translation, pixel-to-normalized UV0).
//!
//! Screen positions are integers in caller-chosen subpixel units; normalized
//! texture coordinates are fixed-point with denominator 65536.

use vstd::prelude::*;
use crate::atlas::PixelRect;

verus! {

/// A 3-component integer vector (positions, normals).
#[derive(PartialEq, Eq, Structural, Clone, Copy, Debug)]
pub struct Vec3i {
    pub x: i32,
    pub y: i32,
    pub z: i32,
}

/// A 2-component unsigned vector (pixel and normalized UVs).
#[derive(PartialEq, Eq, Structural, Clone, Copy, Debug)]
pub struct Vec2u {
    pub u: u32,
    pub v: u32,
}

/// A 2-component signed fixed-point vector (bounding-box UV1 channel).
#[derive(PartialEq, Eq, Structural, Clone, Copy, Debug)]
pub struct Vec2fx {
    pub u: i64,
    pub v: i64,
}

/// A screen-space rectangle in subpixel units.
#[derive(PartialEq, Eq, Structural, Clone, Copy, Debug)]
pub struct ScreenRect {
    pub min_x: i32,
    pub min_y: i32,
    pub max_x: i32,
    pub max_y: i32,
}

/// One quad in the sort buffer: its layer key, its insertion order, and the
/// index of its first vertex.
#[derive(PartialEq, Eq, Structural, Clone, Copy, Debug)]
pub struct QuadEntry {
    pub layer: i64,
    pub order: u32,
    pub v0: u16,
}

/// Lexicographic order on (layer, order): the draw order of quads.
pub open spec fn quad_le(a: QuadEntry, b: QuadEntry) -> bool {
    a.layer < b.layer || (a.layer == b.layer && a.order <= b.order)
}

/// The four corner positions of a quad, counter-clockwise for a y-up screen
/// space, starting at the bottom-left corner.
pub open spec fn quad_positions(r: ScreenRect, z: i32) -> Seq<Vec3i> {
    seq![
        Vec3i { x: r.min_x, y: r.min_y, z },
        Vec3i { x: r.max_x, y: r.min_y, z },
        Vec3i { x: r.max_x, y: r.max_y, z },
        Vec3i { x: r.min_x, y: r.max_y, z },
    ]
}

/// The matching atlas pixel coordinates: the atlas image is y-down, so the
/// bottom-left vertex samples the bottom of the patch.
pub open spec fn quad_uvs_px(u0: u32, v0: u32, u1: u32, v1: u32) -> Seq<Vec2u> {
    seq![
        Vec2u { u: u0, v: v1 },
        Vec2u { u: u1, v: v1 },
        Vec2u { u: u1, v: v0 },
        Vec2u { u: u0, v: v0 },
    ]
}

/// The facing normal shared by all text quads.
pub open spec fn text_normal() -> Vec3i {
    Vec3i { x: 0, y: 0, z: 1 }
}

/// Signed fixed-point division: `p * 65536 / d`, truncating toward zero.
pub open spec fn fixed_div(p: int, d: int) -> int {
    if p >= 0 {
        (p * 65536) / d
    } else {
        -(((-p) * 65536) / d)
    }
}

/// One atlas pixel coordinate normalized against an atlas dimension, in
/// 1/65536 units.
pub open spec fn norm_uv(p: Vec2u, width: u32, height: u32) -> Vec2fx {
    Vec2fx { u: ((p.u * 65536) / (width as int)) as i64, v: ((p.v * 65536) / (height as int)) as i64 }
}

/// Normalized UV0 values for a sequence of atlas pixel coordinates.
pub open spec fn normalized_uvs(px: Seq<Vec2u>, width: u32, height: u32) -> Seq<Vec2fx> {
    px.map_values(|p: Vec2u| norm_uv(p, width, height))
}

/// Vertex attribute buffers (parallel, index-aligned) plus the quad sort
/// buffer and the triangle index buffer.
pub struct MeshBuffers {
    pub positions: Vec<Vec3i>,
    pub normals: Vec<Vec3i>,
    pub uv0_px: Vec<Vec2u>,
    pub uv0: Vec<Vec2fx>,
    pub uv1: Vec<Vec2fx>,
    pub colors: Vec<u32>,
    pub quads: Vec<QuadEntry>,
    pub indices: Vec<u16>,
}

impl MeshBuffers {
    /// Parallel arrays are aligned and every quad's vertices exist.
    pub open spec fn wf(&self) -> bool {
        &&& self.normals@.len() == self.positions@.len()
        &&& self.uv0_px@.len() == self.positions@.len()
        &&& self.colors@.len() == self.positions@.len()
        &&& self.positions@.len() == 4 * self.quads@.len()
        &&& self.positions@.len() <= 65536
        &&& forall|i: int|
            0 <= i < self.quads@.len() ==> (#[trigger] self.quads@[i]).v0 + 4
                <= self.positions@.len()
        &&& forall|i: int| 0 <= i < self.normals@.len() ==> self.normals@[i] == text_normal()
    }

    /// Every triangle index refers to a valid vertex slot.
    pub open spec fn indices_valid(&self) -> bool {
        forall|i: int|
            0 <= i < self.indices@.len() ==> ((#[trigger] self.indices@[i]) as int)
                < self.positions@.len()
    }

    pub fn new() -> (r: MeshBuffers)
        ensures
            r.wf(),
            r.positions@.len() == 0,
            r.quads@.len() == 0,
            r.indices@.len() == 0,
            r.uv0@.len() == 0,
            r.uv1@.len() == 0,
    {
        MeshBuffers {
            positions: Vec::new(),
            normals: Vec::new(),
            uv0_px: Vec::new(),
            uv0: Vec::new(),
            uv1: Vec::new(),
            colors: Vec::new(),
            quads: Vec::new(),
            indices: Vec::new(),
        }
    }

    /// Append one glyph quad: four vertices (position from `rect` at depth
    /// `z`, UV0 from the atlas rectangle, uniform color) and one sort-buffer
    /// entry. Returns false, changing nothing, only when the vertex buffer
    /// is full.
    pub fn cache_rectangle(
        &mut self,
        rect: ScreenRect,
        atlas_rect: PixelRect,
        color: u32,
        layer: i64,
        order: u32,
        z: i32,
    ) -> (added: bool)
        requires
            old(self).wf(),
            atlas_rect.x + atlas_rect.w <= u32::MAX,
            atlas_rect.y + atlas_rect.h <= u32::MAX,
        ensures
            final(self).wf(),
            !added ==> *final(self) == *old(self) && old(self).positions@.len() + 4 > 65536,
            added ==> old(self).positions@.len() + 4 <= 65536,
            added ==> final(self).positions@ == old(self).positions@ + quad_positions(rect, z),
            added ==> final(self).uv0_px@ == old(self).uv0_px@ + quad_uvs_px(
                atlas_rect.x,
                atlas_rect.y,
                (atlas_rect.x + atlas_rect.w) as u32,
                (atlas_rect.y + atlas_rect.h) as u32,
            ),
            added ==> final(self).colors@ == old(self).colors@ + seq![color, color, color, color],
            added ==> final(self).quads@ == old(self).quads@.push(
                QuadEntry { layer, order, v0: old(self).positions@.len() as u16 },
            ),
            added ==> final(self).normals@.len() == old(self).normals@.len() + 4,
            final(self).uv0@ == old(self).uv0@,
            final(self).uv1@ == old(self).uv1@,
            final(self).indices@ == old(self).indices@,
    {
        let u0: u32 = atlas_rect.x;
        let v0: u32 = atlas_rect.y;
        self.push_quad(rect, u0, v0, u0 + atlas_rect.w, v0 + atlas_rect.h, color, layer, order, z)
    }

    /// Append one decoration-line quad: the same contract as
    /// [`Self::cache_rectangle`], but the UV0 source is an explicit pixel
    /// span inside a decoration patch rather than a whole placement.
    pub fn cache_rectangle2(
        &mut self,
        rect: ScreenRect,
        u0: u32,
        v0: u32,
        u1: u32,
        v1: u32,
        color: u32,
        layer: i64,
        order: u32,
        z: i32,
    ) -> (added: bool)
        requires
            old(self).wf(),
        ensures
            final(self).wf(),
            !added ==> *final(self) == *old(self) && old(self).positions@.len() + 4 > 65536,
            added ==> old(self).positions@.len() + 4 <= 65536,
            added ==> final(self).positions@ == old(self).positions@ + quad_positions(rect, z),
            added ==> final(self).uv0_px@ == old(self).uv0_px@ + quad_uvs_px(u0, v0, u1, v1),
            added ==> final(self).colors@ == old(self).colors@ + seq![color, color, color, color],
            added ==> final(self).quads@ == old(self).quads@.push(
                QuadEntry { layer, order, v0: old(self).positions@.len() as u16 },
            ),
            final(self).uv0@ == old(self).uv0@,
            final(self).uv1@ == old(self).uv1@,
            final(self).indices@ == old(self).indices@,
    {
        self.push_quad(rect, u0, v0, u1, v1, color, layer, order, z)
    }

    fn push_quad(
        &mut self,
        rect: ScreenRect,
        u0: u32,
        v0: u32,
        u1: u32,
        v1: u32,
        color: u32,
        layer: i64,
        order: u32,
        z: i32,
    ) -> (added: bool)
        requires
            old(self).wf(),
        ensures
            final(self).wf(),
            !added ==> *final(self) == *old(self) && old(self).positions@.len() + 4 > 65536,
            added ==> old(self).positions@.len() + 4 <= 65536,
            added ==> final(self).positions@ == old(self).positions@ + quad_positions(rect, z),
            added ==> final(self).uv0_px@ == old(self).uv0_px@ + quad_uvs_px(u0, v0, u1, v1),
            added ==> final(self).colors@ == old(self).colors@ + seq![color, color, color, color],
            added ==> final(self).quads@ == old(self).quads@.push(
                QuadEntry { layer, order, v0: old(self).positions@.len() as u16 },
            ),
            added ==> final(self).normals@.len() == old(self).normals@.len() + 4,
            final(self).uv0@ == old(self).uv0@,
            final(self).uv1@ == old(self).uv1@,
            final(self).indices@ == old(self).indices@,
    {
        if self.positions.len() + 4 > 65536 {
            return false;
        }
        let base: u16 = self.positions.len() as u16;
        self.positions.push(Vec3i { x: rect.min_x, y: rect.min_y, z });
        self.positions.push(Vec3i { x: rect.max_x, y: rect.min_y, z });
        self.positions.push(Vec3i { x: rect.max_x, y: rect.max_y, z });
        self.positions.push(Vec3i { x: rect.min_x, y: rect.max_y, z });
        self.uv0_px.push(Vec2u { u: u0, v: v1 });
        self.uv0_px.push(Vec2u { u: u1, v: v1 });
        self.uv0_px.push(Vec2u { u: u1, v: v0 });
        self.uv0_px.push(Vec2u { u: u0, v: v0 });
        let n = text_normal_exec();
        self.normals.push(n);
        self.normals.push(n);
        self.normals.push(n);
        self.normals.push(n);
        self.colors.push(color);
        self.colors.push(color);
        self.colors.push(color);
        self.colors.push(color);
        self.quads.push(QuadEntry { layer, order, v0: base });
        proof {
            assert(self.positions@ =~= old(self).positions@ + quad_positions(rect, z));
            assert(self.uv0_px@ =~= old(self).uv0_px@ + quad_uvs_px(u0, v0, u1, v1));
            assert(self.colors@ =~= old(self).colors@ + seq![color, color, color, color]);
        }
        true
    }
}

fn text_normal_exec() -> (r: Vec3i)
    ensures
        r == text_normal(),
{
    Vec3i { x: 0, y: 0, z: 1 }
}

fn quad_le_exec(a: QuadEntry, b: QuadEntry) -> (r: bool)
    ensures
        r == quad_le(a, b),
{
    a.layer < b.layer || (a.layer == b.layer && a.order <= b.order)
}

/// First position in the sorted prefix `[0, i)` where `x` sorts before the
/// element standing there.
fn find_pos(quads: &Vec<QuadEntry>, i: usize, x: QuadEntry) -> (p: usize)
    requires
        i <= quads@.len(),
    ensures
        p <= i,
        forall|k: int| 0 <= k < p ==> quad_le(#[trigger] quads@[k], x),
        p < i ==> !quad_le(quads@[p as int], x),
{
    let mut p: usize = 0;
    while p < i
        invariant
            0 <= p <= i <= quads@.len(),
            forall|k: int| 0 <= k < p ==> quad_le(#[trigger] quads@[k], x),
        decreases i - p,
    {
        if !quad_le_exec(quads[p], x) {
            return p;
        }
        p += 1;
    }
    p
}

/// The quads, in draw order.
pub open spec fn quads_sorted(s: Seq<QuadEntry>) -> bool {
    forall|a: int, b: int| 0 <= a < b < s.len() ==> quad_le(#[trigger] s[a], #[trigger] s[b])
}

impl MeshBuffers {
    /// Sort the quad buffer by (layer, insertion order), once, after all
    /// requests were collected. The quads are permuted, nothing else moves.
    pub fn sort_quads(&mut self)
        requires
            old(self).wf(),
        ensures
            final(self).wf(),
            final(self).quads@.to_multiset() == old(self).quads@.to_multiset(),
            final(self).quads@.len() == old(self).quads@.len(),
            quads_sorted(final(self).quads@),
            forall|e: QuadEntry| final(self).quads@.contains(e) <==> old(self).quads@.contains(e),
            final(self).positions@ == old(self).positions@,
            final(self).normals@ == old(self).normals@,
            final(self).uv0_px@ == old(self).uv0_px@,
            final(self).uv0@ == old(self).uv0@,
            final(self).uv1@ == old(self).uv1@,
            final(self).colors@ == old(self).colors@,
            final(self).indices@ == old(self).indices@,
    {
        let ghost orig = *self;
        let mut i: usize = 1;
        while i < self.quads.len()
            invariant
                orig.wf(),
                self.positions@ == orig.positions@,
                self.normals@ == orig.normals@,
                self.uv0_px@ == orig.uv0_px@,
                self.uv0@ == orig.uv0@,
                self.uv1@ == orig.uv1@,
                self.colors@ == orig.colors@,
                self.indices@ == orig.indices@,
                self.quads@.len() == orig.quads@.len(),
                self.quads@.to_multiset() == orig.quads@.to_multiset(),
                1 <= i <= self.quads@.len() || self.quads@.len() == 0,
                forall|a: int, b: int|
                    0 <= a < b < i && b < self.quads@.len() ==> quad_le(
                        #[trigger] self.quads@[a],
                        #[trigger] self.quads@[b],
                    ),
            decreases self.quads@.len() - i,
        {
            let x: QuadEntry = self.quads[i];
            let ghost s = self.quads@;
            let p: usize = find_pos(&self.quads, i, x);
            self.quads.remove(i);
            self.quads.insert(p, x);
            proof {
                broadcast use vstd::seq_lib::to_multiset_remove;
                broadcast use vstd::seq_lib::to_multiset_insert;
                broadcast use vstd::seq_lib::to_multiset_contains;
                broadcast use vstd::multiset::group_multiset_properties;
                let t = self.quads@;
                assert(s.remove(i as int).to_multiset() == s.to_multiset().remove(x));
                assert(t.to_multiset() == s.to_multiset().remove(x).insert(x));
                assert(s.contains(x));
                assert(s.to_multiset().count(x) > 0);
                assert(t.to_multiset() =~= s.to_multiset());
                // the moved element lands in order
                assert forall|a: int, b: int|
                    0 <= a < b < i + 1 && b < t.len() implies quad_le(
                    #[trigger] t[a],
                    #[trigger] t[b],
                ) by {
                    if p < i {
                        assert(!quad_le(s[p as int], x));
                    }
                    if a < p {
                        assert(t[a] == s[a]);
                    }
                    if p < a {
                        assert(t[a] == s[a - 1]);
                    }
                    if b < p {
                        assert(t[b] == s[b]);
                    }
                    if p < b {
                        assert(t[b] == s[b - 1]);
                    }
                }
            }
            i += 1;
        }
        proof {
            broadcast use vstd::seq_lib::to_multiset_contains;
            assert forall|e: QuadEntry| self.quads@.contains(e) <==> orig.quads@.contains(
                e,
            ) by {
                assert(self.quads@.to_multiset().count(e) == orig.quads@.to_multiset().count(e));
            }
            assert forall|k: int|
                0 <= k < self.quads@.len() implies (#[trigger] self.quads@[k]).v0 + 4
                <= self.positions@.len() by {
                let e = self.quads@[k];
                assert(self.quads@.contains(e));
                assert(orig.quads@.contains(e));
                let j = choose|j: int| 0 <= j < orig.quads@.len() && orig.quads@[j] == e;
                assert(orig.quads@[j].v0 + 4 <= orig.positions@.len());
            }
        }
    }

    /// Emit the triangle index buffer: two counter-clockwise triangles per
    /// quad, in the quads' current (sorted) order.
    pub fn build_indices(&mut self)
        requires
            old(self).wf(),
        ensures
            final(self).wf(),
            final(self).indices_valid(),
            final(self).indices@.len() == 6 * final(self).quads@.len(),
            forall|q: int|
                0 <= q < final(self).quads@.len() ==> {
                    let v0 = (#[trigger] final(self).quads@[q]).v0 as int;
                    &&& final(self).indices@[6 * q] == v0
                    &&& final(self).indices@[6 * q + 1] == v0 + 1
                    &&& final(self).indices@[6 * q + 2] == v0 + 2
                    &&& final(self).indices@[6 * q + 3] == v0
                    &&& final(self).indices@[6 * q + 4] == v0 + 2
                    &&& final(self).indices@[6 * q + 5] == v0 + 3
                },
            final(self).quads@ == old(self).quads@,
            final(self).positions@ == old(self).positions@,
            final(self).normals@ == old(self).normals@,
            final(self).uv0_px@ == old(self).uv0_px@,
            final(self).uv0@ == old(self).uv0@,
            final(self).uv1@ == old(self).uv1@,
            final(self).colors@ == old(self).colors@,
    {
        let ghost orig = *self;
        self.indices = Vec::new();
        let mut q: usize = 0;
        while q < self.quads.len()
            invariant
                orig.wf(),
                self.quads@ == orig.quads@,
                self.positions@ == orig.positions@,
                self.normals@ == orig.normals@,
                self.uv0_px@ == orig.uv0_px@,
                self.uv0@ == orig.uv0@,
                self.uv1@ == orig.uv1@,
                self.colors@ == orig.colors@,
                0 <= q <= self.quads@.len(),
                self.indices@.len() == 6 * q,
                forall|k: int|
                    0 <= k < self.indices@.len() ==> ((#[trigger] self.indices@[k]) as int)
                        < self.positions@.len(),
                forall|qq: int|
                    0 <= qq < q ==> {
                        let v0 = (#[trigger] self.quads@[qq]).v0 as int;
                        &&& self.indices@[6 * qq] == v0
                        &&& self.indices@[6 * qq + 1] == v0 + 1
                        &&& self.indices@[6 * qq + 2] == v0 + 2
                        &&& self.indices@[6 * qq + 3] == v0
                        &&& self.indices@[6 * qq + 4] == v0 + 2
                        &&& self.indices@[6 * qq + 5] == v0 + 3
                    },
            decreases self.quads@.len() - q,
        {
            let v0: u16 = self.quads[q].v0;
            assert(v0 + 4 <= self.positions@.len());
            self.indices.push(v0);
            self.indices.push(v0 + 1);
            self.indices.push(v0 + 2);
            self.indices.push(v0);
            self.indices.push(v0 + 2);
            self.indices.push(v0 + 3);
            q += 1;
        }
    }
}

/// Clamp an integer into the i32 range.
pub open spec fn clamp_i32(v: int) -> int {
    if v < -0x8000_0000 {
        -0x8000_0000
    } else if v > 0x7fff_ffff {
        0x7fff_ffff
    } else {
        v
    }
}

/// `p * num / den`, truncating toward zero.
pub open spec fn mul_div_trunc(p: int, num: int, den: int) -> int {
    if p >= 0 {
        (p * num) / den
    } else {
        -(((-p) * num) / den)
    }
}

fn clamp_i64_to_i32(v: i64) -> (r: i32)
    ensures
        r == clamp_i32(v as int),
{
    if v < -0x8000_0000i64 {
        i32::MIN
    } else if v > 0x7fff_ffffi64 {
        i32::MAX
    } else {
        v as i32
    }
}

/// The product of two bounded non-negative integers is bounded.
pub(crate) proof fn lemma_mul_le(a: int, b: int, ca: int, cb: int)
    requires
        0 <= a <= ca,
        0 <= b <= cb,
    ensures
        a * b <= ca * cb,
{
    assert(a * b <= ca * cb) by (nonlinear_arith)
        requires
            0 <= a <= ca,
            0 <= b <= cb,
    ;
}

/// `p * 65536 / d` in exec form, truncating toward zero.
fn fixed_div_exec(p: i64, d: i64) -> (r: i64)
    requires
        1 <= d,
        -0x7fff_ffff_ffff <= p <= 0x7fff_ffff_ffff,
    ensures
        r == fixed_div(p as int, d as int),
{
    if p >= 0 {
        proof {
            lemma_mul_le(p as int, 65536, 0x7fff_ffff_ffff, 65536);
        }
        (((p as u64) * 65536) / (d as u64)) as i64
    } else {
        proof {
            lemma_mul_le(-(p as int), 65536, 0x7fff_ffff_ffff, 65536);
        }
        let m: u64 = ((-p) as u64) * 65536;
        -((m / (d as u64)) as i64)
    }
}

impl MeshBuffers {
    /// UV1 bounding-box pass: overwrite UV1 of every vertex with its
    /// position relative to the text block's bounding box (min corner and
    /// dimensions), in 1/65536 units of the box size.
    pub fn pass_uv1(&mut self, bb_min_x: i32, bb_min_y: i32, dim_x: i32, dim_y: i32)
        requires
            old(self).wf(),
            1 <= dim_x,
            1 <= dim_y,
        ensures
            final(self).wf(),
            final(self).uv1@.len() == final(self).positions@.len(),
            forall|i: int|
                0 <= i < final(self).positions@.len() ==> final(self).uv1@[i] == (Vec2fx {
                    u: fixed_div((#[trigger] final(self).positions@[i]).x - bb_min_x,
                        dim_x as int) as i64,
                    v: fixed_div(final(self).positions@[i].y - bb_min_y, dim_y as int) as i64,
                }),
            final(self).positions@ == old(self).positions@,
            final(self).normals@ == old(self).normals@,
            final(self).uv0_px@ == old(self).uv0_px@,
            final(self).uv0@ == old(self).uv0@,
            final(self).colors@ == old(self).colors@,
            final(self).quads@ == old(self).quads@,
            final(self).indices@ == old(self).indices@,
    {
        let ghost orig = *self;
        self.uv1 = Vec::new();
        let mut i: usize = 0;
        while i < self.positions.len()
            invariant
                orig.wf(),
                1 <= dim_x,
                1 <= dim_y,
                self.positions@ == orig.positions@,
                self.normals@ == orig.normals@,
                self.uv0_px@ == orig.uv0_px@,
                self.uv0@ == orig.uv0@,
                self.colors@ == orig.colors@,
                self.quads@ == orig.quads@,
                self.indices@ == orig.indices@,
                0 <= i <= self.positions@.len(),
                self.uv1@.len() == i,
                forall|k: int|
                    0 <= k < i ==> self.uv1@[k] == (Vec2fx {
                        u: fixed_div((#[trigger] self.positions@[k]).x - bb_min_x,
                            dim_x as int) as i64,
                        v: fixed_div(self.positions@[k].y - bb_min_y, dim_y as int) as i64,
                    }),
            decreases self.positions@.len() - i,
        {
            let p = self.positions[i];
            let u: i64 = fixed_div_exec((p.x as i64) - (bb_min_x as i64), dim_x as i64);
            let v: i64 = fixed_div_exec((p.y as i64) - (bb_min_y as i64), dim_y as i64);
            self.uv1.push(Vec2fx { u, v });
            i += 1;
        }
    }

    /// Anchor pass: translate every vertex position, saturating at the
    /// integer coordinate range.
    pub fn translate(&mut self, dx: i32, dy: i32)
        requires
            old(self).wf(),
        ensures
            final(self).wf(),
            final(self).positions@.len() == old(self).positions@.len(),
            forall|i: int|
                0 <= i < final(self).positions@.len() ==> final(self).positions@[i] == (Vec3i {
                    x: clamp_i32((#[trigger] old(self).positions@[i]).x + dx) as i32,
                    y: clamp_i32(old(self).positions@[i].y + dy) as i32,
                    z: old(self).positions@[i].z,
                }),
            final(self).normals@ == old(self).normals@,
            final(self).uv0_px@ == old(self).uv0_px@,
            final(self).uv0@ == old(self).uv0@,
            final(self).uv1@ == old(self).uv1@,
            final(self).colors@ == old(self).colors@,
            final(self).quads@ == old(self).quads@,
            final(self).indices@ == old(self).indices@,
    {
        let ghost orig = *self;
        let mut i: usize = 0;
        while i < self.positions.len()
            invariant
                orig.wf(),
                self.positions@.len() == orig.positions@.len(),
                self.normals@ == orig.normals@,
                self.uv0_px@ == orig.uv0_px@,
                self.uv0@ == orig.uv0@,
                self.uv1@ == orig.uv1@,
                self.colors@ == orig.colors@,
                self.quads@ == orig.quads@,
                self.indices@ == orig.indices@,
                0 <= i <= self.positions@.len(),
                forall|k: int|
                    0 <= k < i ==> self.positions@[k] == (Vec3i {
                        x: clamp_i32((#[trigger] orig.positions@[k]).x + dx) as i32,
                        y: clamp_i32(orig.positions@[k].y + dy) as i32,
                        z: orig.positions@[k].z,
                    }),
                forall|k: int| i <= k < self.positions@.len() ==> self.positions@[k]
                    == orig.positions@[k],
            decreases self.positions@.len() - i,
        {
            let p = self.positions[i];
            let nx: i32 = clamp_i64_to_i32((p.x as i64) + (dx as i64));
            let ny: i32 = clamp_i64_to_i32((p.y as i64) + (dy as i64));
            self.positions.set(i, Vec3i { x: nx, y: ny, z: p.z });
            i += 1;
        }
    }

    /// World-scale pass: translate every vertex, then scale by
    /// `num / den` (the configured world scale over the font size), so the
    /// text block occupies a size-independent world-space footprint.
    pub fn translate_scaled(&mut self, dx: i32, dy: i32, num: u32, den: u32)
        requires
            old(self).wf(),
            1 <= den,
            num <= 0x10_0000,
        ensures
            final(self).wf(),
            final(self).positions@.len() == old(self).positions@.len(),
            forall|i: int|
                0 <= i < final(self).positions@.len() ==> final(self).positions@[i] == (Vec3i {
                    x: clamp_i32(mul_div_trunc((#[trigger] old(self).positions@[i]).x + dx,
                        num as int, den as int)) as i32,
                    y: clamp_i32(mul_div_trunc(old(self).positions@[i].y + dy, num as int,
                        den as int)) as i32,
                    z: old(self).positions@[i].z,
                }),
            final(self).normals@ == old(self).normals@,
            final(self).uv0_px@ == old(self).uv0_px@,
            final(self).uv0@ == old(self).uv0@,
            final(self).uv1@ == old(self).uv1@,
            final(self).colors@ == old(self).colors@,
            final(self).quads@ == old(self).quads@,
            final(self).indices@ == old(self).indices@,
    {
        let ghost orig = *self;
        let mut i: usize = 0;
        while i < self.positions.len()
            invariant
                orig.wf(),
                1 <= den,
                num <= 0x10_0000,
                self.positions@.len() == orig.positions@.len(),
                self.normals@ == orig.normals@,
                self.uv0_px@ == orig.uv0_px@,
                self.uv0@ == orig.uv0@,
                self.uv1@ == orig.uv1@,
                self.colors@ == orig.colors@,
                self.quads@ == orig.quads@,
                self.indices@ == orig.indices@,
                0 <= i <= self.positions@.len(),
                forall|k: int|
                    0 <= k < i ==> self.positions@[k] == (Vec3i {
                        x: clamp_i32(mul_div_trunc((#[trigger] orig.positions@[k]).x + dx,
                            num as int, den as int)) as i32,
                        y: clamp_i32(mul_div_trunc(orig.positions@[k].y + dy, num as int,
                            den as int)) as i32,
                        z: orig.positions@[k].z,
                    }),
                forall|k: int| i <= k < self.positions@.len() ==> self.positions@[k]
                    == orig.positions@[k],
            decreases self.positions@.len() - i,
        {
            let p = self.positions[i];
            let nx: i32 = clamp_i64_to_i32(mul_div_exec((p.x as i64) + (dx as i64), num, den));
            let ny: i32 = clamp_i64_to_i32(mul_div_exec((p.y as i64) + (dy as i64), num, den));
            self.positions.set(i, Vec3i { x: nx, y: ny, z: p.z });
            i += 1;
        }
    }

    /// Pixel-to-UV pass: normalize every UV0 coordinate against the atlas
    /// image's current pixel dimensions. Must run after any atlas growth,
    /// so the divisor is the final image size. The pixel-space coordinates
    /// are kept, so a later resize can refresh the normalized values.
    pub fn pixel_to_uv(&mut self, width: u32, height: u32)
        requires
            old(self).wf(),
            1 <= width,
            1 <= height,
        ensures
            final(self).wf(),
            final(self).uv0@ == normalized_uvs(old(self).uv0_px@, width, height),
            final(self).positions@ == old(self).positions@,
            final(self).normals@ == old(self).normals@,
            final(self).uv0_px@ == old(self).uv0_px@,
            final(self).uv1@ == old(self).uv1@,
            final(self).colors@ == old(self).colors@,
            final(self).quads@ == old(self).quads@,
            final(self).indices@ == old(self).indices@,
    {
        let ghost orig = *self;
        self.uv0 = Vec::new();
        let mut i: usize = 0;
        while i < self.uv0_px.len()
            invariant
                orig.wf(),
                1 <= width,
                1 <= height,
                self.positions@ == orig.positions@,
                self.normals@ == orig.normals@,
                self.uv0_px@ == orig.uv0_px@,
                self.uv1@ == orig.uv1@,
                self.colors@ == orig.colors@,
                self.quads@ == orig.quads@,
                self.indices@ == orig.indices@,
                0 <= i <= self.uv0_px@.len(),
                self.uv0@.len() == i,
                forall|k: int|
                    0 <= k < i ==> self.uv0@[k] == norm_uv(#[trigger] self.uv0_px@[k], width,
                        height),
            decreases self.uv0_px@.len() - i,
        {
            let p = self.uv0_px[i];
            let u: i64 = (((p.u as u64) * 65536) / (width as u64)) as i64;
            let v: i64 = (((p.v as u64) * 65536) / (height as u64)) as i64;
            self.uv0.push(Vec2fx { u, v });
            i += 1;
        }
        proof {
            assert(self.uv0@ =~= normalized_uvs(orig.uv0_px@, width, height));
        }
    }

    /// Resize-without-rebuild correction: after the atlas image alone
    /// changed size, refresh the normalized UV0 channel from the kept
    /// pixel coordinates, an O(vertex count) pass instead of a rebuild.
    pub fn rescale_uv(&mut self, width: u32, height: u32)
        requires
            old(self).wf(),
            1 <= width,
            1 <= height,
        ensures
            final(self).wf(),
            final(self).uv0@ == normalized_uvs(old(self).uv0_px@, width, height),
            final(self).positions@ == old(self).positions@,
            final(self).normals@ == old(self).normals@,
            final(self).uv0_px@ == old(self).uv0_px@,
            final(self).uv1@ == old(self).uv1@,
            final(self).colors@ == old(self).colors@,
            final(self).quads@ == old(self).quads@,
            final(self).indices@ == old(self).indices@,
    {
        self.pixel_to_uv(width, height)
    }
}

/// `p * num / den` in exec form, truncating toward zero.
fn mul_div_exec(p: i64, num: u32, den: u32) -> (r: i64)
    requires
        1 <= den,
        num <= 0x10_0000,
        -0x1_0000_0000 <= p <= 0x1_0000_0000,
    ensures
        r == mul_div_trunc(p as int, num as int, den as int),
{
    if p >= 0 {
        proof {
            lemma_mul_le(p as int, num as int, 0x1_0000_0000, 0x10_0000);
        }
        (((p as u64) * (num as u64)) / (den as u64)) as i64
    } else {
        proof {
            lemma_mul_le(-(p as int), num as int, 0x1_0000_0000, 0x10_0000);
        }
        let m: u64 = ((-p) as u64) * (num as u64);
        -((m / (den as u64)) as i64)
    }
}

/// UV rescale equivalence: refreshing the normalized UV0 channel after an
/// atlas resize gives exactly the values that rebuilding the mesh from
/// scratch against the new atlas dimensions would give, since both
/// normalize the same kept pixel coordinates against the same dimensions.
pub proof fn lemma_rescale_matches_rebuild(
    rescaled: MeshBuffers,
    rebuilt: MeshBuffers,
    width: u32,
    height: u32,
)
    requires
        rescaled.uv0_px@ == rebuilt.uv0_px@,
        rescaled.uv0@ == normalized_uvs(rescaled.uv0_px@, width, height),
        rebuilt.uv0@ == normalized_uvs(rebuilt.uv0_px@, width, height),
    ensures
        rescaled.uv0@ == rebuilt.uv0@,
{
}

/// Sort stability: after sorting, two quads with the same layer key stand
/// in their insertion order, so draw requests of one layer keep the
/// original left-to-right glyph order in the index buffer.
pub proof fn lemma_sort_stability(s: Seq<QuadEntry>, a: int, b: int)
    requires
        quads_sorted(s),
        0 <= a < b < s.len(),
        s[a].layer == s[b].layer,
    ensures
        s[a].order <= s[b].order,
{
    assert(quad_le(s[a], s[b]));
}

} // verus!
