//! Glyph atlas cache: maps a glyph identity to a placement (pixel rectangle
//! plus draw offset) inside a growable atlas image, packing new patches with
//! a shelf packer. Placements never move and the cache never evicts; the
//! image only grows in height, so every placement handed out stays valid.

use vstd::prelude::*;

verus! {

/// Largest atlas dimension (and largest patch dimension) in pixels.
pub const MAX_DIM: u32 = 32768;

/// How line ends are joined when a glyph outline is stroked.
#[derive(PartialEq, Eq, Structural, Clone, Copy, Debug, Hash)]
pub enum StrokeJoin {
    Miter,
    Round,
    Bevel,
}

/// The cache key: everything that determines a rasterized appearance.
/// `size_bits` holds the raw bit pattern of the font size, so equality is
/// bit-for-bit, never approximate. `stroke` is the stroke width; zero means
/// a filled glyph.
#[derive(PartialEq, Eq, Structural, Clone, Copy, Debug, Hash)]
pub struct GlyphIdentity {
    pub font: u32,
    pub glyph_id: u16,
    pub size_bits: u32,
    pub weight: u16,
    pub stroke: u32,
    pub join: StrokeJoin,
}

/// An axis-aligned pixel rectangle inside the atlas image.
#[derive(PartialEq, Eq, Structural, Clone, Copy, Debug)]
pub struct PixelRect {
    pub x: u32,
    pub y: u32,
    pub w: u32,
    pub h: u32,
}

impl PixelRect {
    /// The rectangle covers pixel (px, py).
    pub open spec fn spec_contains_px(self, px: int, py: int) -> bool {
        self.x <= px < self.x + self.w && self.y <= py < self.y + self.h
    }

    /// The two rectangles share no pixel.
    pub open spec fn spec_disjoint(self, other: PixelRect) -> bool {
        ||| self.x + self.w <= other.x
        ||| other.x + other.w <= self.x
        ||| self.y + self.h <= other.y
        ||| other.y + other.h <= self.y
    }

    pub proof fn lemma_disjoint_no_common_pixel(self, other: PixelRect, px: int, py: int)
        requires
            self.spec_disjoint(other),
        ensures
            !(self.spec_contains_px(px, py) && other.spec_contains_px(px, py)),
    {
    }
}

/// The cache value: where a glyph's raster patch lives in the atlas, and
/// the draw offset (bearing) to apply when placing its quad.
#[derive(PartialEq, Eq, Structural, Clone, Copy, Debug)]
pub struct AtlasPlacement {
    pub rect: PixelRect,
    pub offset_x: i32,
    pub offset_y: i32,
}

/// A small rasterized coverage patch produced by the tessellator,
/// row-major, one byte of coverage per pixel.
pub struct RasterPatch {
    pub width: u32,
    pub height: u32,
    pub data: Vec<u8>,
}

impl RasterPatch {
    pub open spec fn wf(&self) -> bool {
        &&& self.data@.len() == self.width * self.height
        &&& self.width <= MAX_DIM
        &&& self.height <= MAX_DIM
    }

    /// The coverage value at patch pixel (px, py).
    pub open spec fn patch_at(&self, px: int, py: int) -> u8 {
        self.data@[py * self.width + px]
    }
}

/// The atlas image: a row-major single-channel pixel buffer.
pub struct AtlasImage {
    pub width: u32,
    pub height: u32,
    pub pixels: Vec<u8>,
}

impl AtlasImage {
    pub open spec fn wf(&self) -> bool {
        &&& 1 <= self.width <= MAX_DIM
        &&& 1 <= self.height <= MAX_DIM
        &&& self.pixels@.len() == self.width * self.height
    }

    /// The coverage value stored at pixel (px, py).
    pub open spec fn pixel_at(&self, px: int, py: int) -> u8 {
        self.pixels@[py * self.width + px]
    }
}

/// Row-major index of two distinct in-bounds pixels is distinct.
proof fn lemma_pixel_index_injective(width: int, px1: int, py1: int, px2: int, py2: int)
    requires
        0 <= px1 < width,
        0 <= px2 < width,
        0 <= py1,
        0 <= py2,
        py1 * width + px1 == py2 * width + px2,
    ensures
        px1 == px2 && py1 == py2,
{
    assert(py1 == py2) by (nonlinear_arith)
        requires
            0 <= px1 < width,
            0 <= px2 < width,
            0 <= py1,
            0 <= py2,
            py1 * width + px1 == py2 * width + px2,
    ;
}

/// Product of two atlas dimensions stays well under the index range.
proof fn lemma_dim_product_bound(w: int, h: int)
    requires
        0 <= w <= MAX_DIM,
        0 <= h <= MAX_DIM,
    ensures
        w * h <= 0x4000_0000,
{
    assert(w * h <= 0x4000_0000) by (nonlinear_arith)
        requires
            0 <= w <= 32768,
            0 <= h <= 32768,
    ;
}

/// A pixel of a row-major image, read through its flat index, is in range.
proof fn lemma_pixel_index_in_range(width: int, height: int, px: int, py: int)
    requires
        0 <= px < width,
        0 <= py < height,
    ensures
        0 <= py * width + px < width * height,
{
    assert(0 <= py * width + px < width * height) by (nonlinear_arith)
        requires
            0 <= px < width,
            0 <= py < height,
    ;
}

impl AtlasImage {
    /// Copy a raster patch into the image at (x, y). Touches only the
    /// target rectangle; every other pixel keeps its value.
    fn blit(&mut self, x: u32, y: u32, patch: &RasterPatch)
        requires
            old(self).wf(),
            patch.wf(),
            x + patch.width <= old(self).width,
            y + patch.height <= old(self).height,
        ensures
            final(self).wf(),
            final(self).width == old(self).width,
            final(self).height == old(self).height,
            forall|px: int, py: int|
                x <= px < x + patch.width && y <= py < y + patch.height ==> final(self).pixel_at(px, py) == patch.data@[(py - y) * patch.width + (px - x)],
            forall|px: int, py: int|
                0 <= px < old(self).width && 0 <= py < old(self).height && !(x <= px < x
                    + patch.width && y <= py < y + patch.height) ==> final(self).pixel_at(px, py)
                    == old(self).pixel_at(px, py),
    {
        let ghost orig = *self;
        let mut dy: u32 = 0;
        while dy < patch.height
            invariant
                orig.wf(),
                patch.wf(),
                x + patch.width <= orig.width,
                y + patch.height <= orig.height,
                self.width == orig.width,
                self.height == orig.height,
                self.pixels@.len() == orig.pixels@.len(),
                0 <= dy <= patch.height,
                forall|px: int, py: int|
                    x <= px < x + patch.width && y <= py < y + dy ==> self.pixel_at(px, py)
                        == patch.data@[(py - y) * patch.width + (px - x)],
                forall|px: int, py: int|
                    0 <= px < orig.width && 0 <= py < orig.height && !(x <= px < x + patch.width
                        && y <= py < y + dy) ==> self.pixel_at(px, py) == orig.pixel_at(px, py),
            decreases patch.height - dy,
        {
            let mut dx: u32 = 0;
            while dx < patch.width
                invariant
                    orig.wf(),
                    patch.wf(),
                    x + patch.width <= orig.width,
                    y + patch.height <= orig.height,
                    self.width == orig.width,
                    self.height == orig.height,
                    self.pixels@.len() == orig.pixels@.len(),
                    0 <= dy < patch.height,
                    0 <= dx <= patch.width,
                    forall|px: int, py: int|
                        x <= px < x + patch.width && y <= py < y + dy ==> self.pixel_at(px, py)
                            == patch.data@[(py - y) * patch.width + (px - x)],
                    forall|px: int, py: int|
                        x <= px < x + dx && py == y + dy ==> self.pixel_at(px, py)
                            == patch.data@[(py - y) * patch.width + (px - x)],
                    forall|px: int, py: int|
                        0 <= px < orig.width && 0 <= py < orig.height && !(x <= px < x
                            + patch.width && y <= py < y + dy + 1) ==> self.pixel_at(px, py)
                            == orig.pixel_at(px, py),
                decreases patch.width - dx,
            {
                let ghost before = *self;
                proof {
                    lemma_pixel_index_in_range(
                        self.width as int,
                        self.height as int,
                        x + dx,
                        y + dy,
                    );
                    lemma_pixel_index_in_range(
                        patch.width as int,
                        patch.height as int,
                        dx as int,
                        dy as int,
                    );
                    lemma_dim_product_bound(self.width as int, self.height as int);
                    lemma_dim_product_bound(patch.width as int, patch.height as int);
                }
                let idx: usize = ((y + dy) as usize) * (self.width as usize) + ((x + dx) as usize);
                let pidx: usize = (dy as usize) * (patch.width as usize) + (dx as usize);
                let v: u8 = patch.data[pidx];
                self.pixels.set(idx, v);
                proof {
                    assert forall|px: int, py: int|
                        0 <= px < orig.width && 0 <= py < orig.height && !(px == x + dx && py == y
                            + dy) implies self.pixel_at(px, py) == before.pixel_at(px, py) by {
                        lemma_pixel_index_in_range(orig.width as int, orig.height as int, px, py);
                        if py * self.width + px == idx as int {
                            lemma_pixel_index_injective(
                                self.width as int,
                                px,
                                py,
                                x + dx,
                                y + dy,
                            );
                        }
                    }
                    assert(self.pixel_at(x + dx, y + dy as int) == patch.data@[(dy as int)
                        * patch.width + dx]);
                    assert forall|px: int, py: int|
                        x <= px < x + patch.width && y <= py < y + dy implies self.pixel_at(px, py)
                        == patch.data@[(py - y) * patch.width + (px - x)] by {
                        assert(before.pixel_at(px, py) == patch.data@[(py - y) * patch.width + (px
                            - x)]);
                        assert(self.pixel_at(px, py) == before.pixel_at(px, py));
                    }
                    assert forall|px: int, py: int|
                        x <= px < x + dx + 1 && py == y + dy implies self.pixel_at(px, py)
                        == patch.data@[(py - y) * patch.width + (px - x)] by {
                        if px < x + dx {
                            assert(before.pixel_at(px, py) == patch.data@[(py - y) * patch.width
                                + (px - x)]);
                            assert(self.pixel_at(px, py) == before.pixel_at(px, py));
                        } else {
                            assert(px == x + dx);
                        }
                    }
                }
                dx += 1;
            }
            proof {
                assert forall|px: int, py: int|
                    x <= px < x + patch.width && y <= py < y + dy + 1 implies self.pixel_at(px, py)
                    == patch.data@[(py - y) * patch.width + (px - x)] by {
                }
            }
            dy += 1;
        }
    }

    /// Grow the image to a new height, keeping the width; existing pixels
    /// keep their values and new rows are zeroed.
    fn grow_height(&mut self, new_height: u32)
        requires
            old(self).wf(),
            new_height >= old(self).height,
            new_height <= MAX_DIM,
        ensures
            final(self).wf(),
            final(self).width == old(self).width,
            final(self).height == new_height,
            forall|px: int, py: int|
                0 <= px < old(self).width && 0 <= py < old(self).height ==> final(self).pixel_at(
                    px,
                    py,
                ) == old(self).pixel_at(px, py),
            forall|px: int, py: int|
                0 <= px < old(self).width && old(self).height <= py < new_height ==> final(self).pixel_at(px, py) == 0,
    {
        let ghost orig = *self;
        proof {
            lemma_dim_product_bound(self.width as int, new_height as int);
        }
        let target: usize = (self.width as usize) * (new_height as usize);
        assert(self.pixels@.len() <= target) by (nonlinear_arith)
            requires
                self.pixels@.len() == self.width * self.height,
                self.height <= new_height,
                target == self.width * new_height,
        ;
        while self.pixels.len() < target
            invariant
                self.width == orig.width,
                self.height == orig.height,
                orig.pixels@.len() <= self.pixels@.len() <= target,
                forall|i: int| 0 <= i < orig.pixels@.len() ==> self.pixels@[i] == orig.pixels@[i],
                forall|i: int|
                    orig.pixels@.len() <= i < self.pixels@.len() ==> self.pixels@[i] == 0,
            decreases target - self.pixels@.len(),
        {
            self.pixels.push(0u8);
        }
        self.height = new_height;
        proof {
            assert forall|px: int, py: int|
                0 <= px < orig.width && 0 <= py < orig.height implies self.pixel_at(px, py)
                == orig.pixel_at(px, py) by {
                lemma_pixel_index_in_range(orig.width as int, orig.height as int, px, py);
            }
            assert forall|px: int, py: int|
                0 <= px < orig.width && orig.height <= py < new_height implies self.pixel_at(
                px,
                py,
            ) == 0 by {
                lemma_pixel_index_in_range(orig.width as int, new_height as int, px, py);
                assert(orig.width * orig.height <= py * orig.width + px) by (nonlinear_arith)
                    requires
                        0 <= px < orig.width,
                        orig.height <= py,
                ;
            }
        }
    }
}

/// The glyph atlas cache: identity-to-placement entries, the atlas image,
/// and the shelf packer cursor. Packing fills the current shelf (row) left
/// to right, opens a new shelf when the row is full, and grows the image
/// height when a shelf would not fit.
pub struct AtlasCache {
    pub entries: Vec<(GlyphIdentity, AtlasPlacement)>,
    pub image: AtlasImage,
    pub cursor_x: u32,
    pub shelf_y: u32,
    pub shelf_h: u32,
}

impl AtlasCache {
    /// The glyph identities rendered so far.
    pub closed spec fn spec_contains(&self, id: GlyphIdentity) -> bool {
        exists|i: int| 0 <= i < self.entries@.len() && self.entries@[i].0 == id
    }

    closed spec fn entry_index(&self, id: GlyphIdentity) -> int {
        choose|i: int| 0 <= i < self.entries@.len() && self.entries@[i].0 == id
    }

    /// The placement cached for an identity (meaningful when it is cached).
    pub closed spec fn spec_index(&self, id: GlyphIdentity) -> AtlasPlacement {
        self.entries@[self.entry_index(id)].1
    }

    /// Number of cached entries.
    pub closed spec fn spec_len(&self) -> nat {
        self.entries@.len()
    }

    pub closed spec fn entry_packed(&self, p: AtlasPlacement) -> bool {
        &&& 1 <= p.rect.w
        &&& 1 <= p.rect.h
        &&& p.rect.x + p.rect.w <= self.image.width
        &&& (p.rect.y + p.rect.h <= self.shelf_y || (p.rect.y == self.shelf_y && p.rect.x
            + p.rect.w <= self.cursor_x && p.rect.h <= self.shelf_h))
    }

    /// Well-formedness: the image is consistent, keys are unique, every
    /// placement lies inside the packed region, and placements are pairwise
    /// disjoint.
    pub open spec fn wf(&self) -> bool {
        &&& self.image.wf()
        &&& self.cursor_x <= self.image.width
        &&& self.shelf_y + self.shelf_h <= self.image.height
        &&& forall|i: int, j: int|
            0 <= i < self.entries@.len() && 0 <= j < self.entries@.len() && i != j
                ==> self.entries@[i].0 != self.entries@[j].0
        &&& forall|i: int|
            0 <= i < self.entries@.len() ==> self.entry_packed(#[trigger] self.entries@[i].1)
        &&& forall|i: int, j: int|
            0 <= i < self.entries@.len() && 0 <= j < self.entries@.len() && i != j
                ==> (#[trigger] self.entries@[i].1).rect.spec_disjoint(
                (#[trigger] self.entries@[j].1).rect,
            )
    }

    proof fn lemma_entry_is_index(&self, id: GlyphIdentity, i: int)
        requires
            self.wf(),
            0 <= i < self.entries@.len(),
            self.entries@[i].0 == id,
        ensures
            self.entry_index(id) == i,
            self.spec_contains(id),
            self.spec_index(id) == self.entries@[i].1,
    {
        assert(self.spec_contains(id));
        let j = self.entry_index(id);
        assert(0 <= j < self.entries@.len() && self.entries@[j].0 == id);
        if i != j {
            assert(self.entries@[i].0 != self.entries@[j].0);
        }
    }

    /// Cache correctness: resolving is a pure function of the cached
    /// state, so equal identities always see the same placement, while two
    /// unequal identities that have both been rendered occupy distinct,
    /// non-overlapping rectangles of the atlas.
    pub proof fn lemma_cache_correctness(&self, a: GlyphIdentity, b: GlyphIdentity)
        requires
            self.wf(),
            self.spec_contains(a),
            self.spec_contains(b),
        ensures
            a == b ==> self.spec_index(a) == self.spec_index(b),
            a != b ==> self.spec_index(a).rect.spec_disjoint(self.spec_index(b).rect)
                && self.spec_index(a).rect != self.spec_index(b).rect,
    {
        if a != b {
            self.lemma_distinct_placements_disjoint(a, b);
        }
    }

    /// Two distinct identities that have both been rendered occupy distinct,
    /// non-overlapping rectangles of the atlas.
    pub proof fn lemma_distinct_placements_disjoint(&self, a: GlyphIdentity, b: GlyphIdentity)
        requires
            self.wf(),
            self.spec_contains(a),
            self.spec_contains(b),
            a != b,
        ensures
            self.spec_index(a).rect.spec_disjoint(self.spec_index(b).rect),
            self.spec_index(a).rect != self.spec_index(b).rect,
    {
        let i = self.entry_index(a);
        let j = self.entry_index(b);
        assert(0 <= i < self.entries@.len() && self.entries@[i].0 == a);
        assert(0 <= j < self.entries@.len() && self.entries@[j].0 == b);
        assert(i != j);
        let ra = self.entries@[i].1.rect;
        let rb = self.entries@[j].1.rect;
        assert(ra.spec_disjoint(rb));
        assert(1 <= ra.w && 1 <= ra.h);
        if ra == rb {
            assert(false);
        }
    }

    /// Every cached placement lies inside the current image bounds.
    pub proof fn lemma_placement_in_bounds(&self, id: GlyphIdentity)
        requires
            self.wf(),
            self.spec_contains(id),
        ensures
            self.spec_index(id).rect.x + self.spec_index(id).rect.w <= self.image.width,
            self.spec_index(id).rect.y + self.spec_index(id).rect.h <= self.image.height,
            1 <= self.spec_index(id).rect.w,
            1 <= self.spec_index(id).rect.h,
    {
        let i = self.entry_index(id);
        assert(self.entry_packed(self.entries@[i].1));
    }

    /// A fresh cache with a zeroed atlas image of the given dimensions.
    pub fn new(width: u32, height: u32) -> (r: AtlasCache)
        requires
            1 <= width <= MAX_DIM,
            1 <= height <= MAX_DIM,
        ensures
            r.wf(),
            r.spec_len() == 0,
            forall|id: GlyphIdentity| !r.spec_contains(id),
            r.image.width == width,
            r.image.height == height,
            forall|px: int, py: int|
                0 <= px < width && 0 <= py < height ==> r.image.pixel_at(px, py) == 0,
    {
        proof {
            lemma_dim_product_bound(width as int, height as int);
        }
        let target: usize = (width as usize) * (height as usize);
        let mut pixels: Vec<u8> = Vec::new();
        while pixels.len() < target
            invariant
                pixels@.len() <= target,
                forall|i: int| 0 <= i < pixels@.len() ==> pixels@[i] == 0,
            decreases target - pixels@.len(),
        {
            pixels.push(0u8);
        }
        let image = AtlasImage { width, height, pixels };
        let r = AtlasCache { entries: Vec::new(), image, cursor_x: 0, shelf_y: 0, shelf_h: 0 };
        proof {
            assert forall|px: int, py: int|
                0 <= px < width && 0 <= py < height implies r.image.pixel_at(px, py) == 0 by {
                lemma_pixel_index_in_range(width as int, height as int, px, py);
            }
        }
        r
    }

    /// Pure cache lookup: the placement stored for this identity, if any.
    pub fn resolve(&self, id: GlyphIdentity) -> (r: Option<AtlasPlacement>)
        requires
            self.wf(),
        ensures
            self.spec_contains(id) ==> r == Some(self.spec_index(id)),
            !self.spec_contains(id) ==> r is None,
    {
        let mut i: usize = 0;
        while i < self.entries.len()
            invariant
                self.wf(),
                0 <= i <= self.entries@.len(),
                forall|j: int| 0 <= j < i ==> self.entries@[j].0 != id,
            decreases self.entries@.len() - i,
        {
            if self.entries[i].0 == id {
                proof {
                    self.lemma_entry_is_index(id, i as int);
                }
                return Some(self.entries[i].1);
            }
            i += 1;
        }
        proof {
            if self.spec_contains(id) {
                let j = choose|j: int| 0 <= j < self.entries@.len() && self.entries@[j].0 == id;
                assert(self.entries@[j].0 != id);
            }
        }
        None
    }

    /// The patch would start a new shelf (the current row cannot take it).
    pub closed spec fn spec_starts_new_row(&self, w: u32) -> bool {
        self.cursor_x + w > self.image.width
    }

    /// Where the packer would place a patch of width `w`.
    pub closed spec fn spec_pack_x(&self, w: u32) -> int {
        if self.spec_starts_new_row(w) {
            0
        } else {
            self.cursor_x as int
        }
    }

    pub closed spec fn spec_pack_y(&self, w: u32) -> int {
        if self.spec_starts_new_row(w) {
            self.shelf_y + self.shelf_h
        } else {
            self.shelf_y as int
        }
    }

    pub closed spec fn spec_pack_shelf_h(&self, w: u32, h: u32) -> int {
        if self.spec_starts_new_row(w) {
            h as int
        } else if self.shelf_h >= h {
            self.shelf_h as int
        } else {
            h as int
        }
    }

    /// A patch of these dimensions can be packed: it is non-degenerate, no
    /// wider than the atlas, and its shelf still fits under the height cap.
    pub closed spec fn spec_can_pack(&self, w: u32, h: u32) -> bool {
        &&& 1 <= w
        &&& w <= self.image.width
        &&& 1 <= h
        &&& self.spec_pack_y(w) + self.spec_pack_shelf_h(w, h) <= MAX_DIM
    }

    /// Return the cached placement for `id`, or pack and blit `patch` into
    /// the atlas, cache the new placement with the given draw offset, and
    /// return it. On a hit nothing changes; on a miss the cache only grows:
    /// every placement cached before keeps its rectangle and its pixels.
    pub fn resolve_or_render(
        &mut self,
        id: GlyphIdentity,
        patch: &RasterPatch,
        offset_x: i32,
        offset_y: i32,
    ) -> (r: Option<AtlasPlacement>)
        requires
            old(self).wf(),
            patch.wf(),
        ensures
            final(self).wf(),
            old(self).spec_contains(id) ==> r == Some(old(self).spec_index(id)) && *final(self)
                == *old(self),
            !old(self).spec_contains(id) && !old(self).spec_can_pack(patch.width, patch.height)
                ==> r is None && *final(self) == *old(self),
            !old(self).spec_contains(id) && old(self).spec_can_pack(patch.width, patch.height)
                ==> {
                &&& r is Some
                &&& r == Some(final(self).spec_index(id))
                &&& final(self).spec_contains(id)
                &&& final(self).spec_len() == old(self).spec_len() + 1
                &&& final(self).spec_index(id).rect.x == old(self).spec_pack_x(patch.width)
                &&& final(self).spec_index(id).rect.y == old(self).spec_pack_y(patch.width)
                &&& final(self).spec_index(id).rect.w == patch.width
                &&& final(self).spec_index(id).rect.h == patch.height
                &&& final(self).spec_index(id).offset_x == offset_x
                &&& final(self).spec_index(id).offset_y == offset_y
                &&& forall|px: int, py: int|
                    final(self).spec_index(id).rect.spec_contains_px(px, py)
                        ==> final(self).image.pixel_at(px, py)
                        == patch.data@[(py - final(self).spec_index(id).rect.y) * patch.width
                        + (px - final(self).spec_index(id).rect.x)]
            },
            // the cache and the image only ever grow; old entries and their
            // pixel content are preserved exactly
            final(self).image.width == old(self).image.width,
            final(self).image.height >= old(self).image.height,
            forall|id2: GlyphIdentity| #[trigger]
                old(self).spec_contains(id2) ==> final(self).spec_contains(id2) && final(self).spec_index(id2) == old(self).spec_index(id2),
            forall|id2: GlyphIdentity| #[trigger]
                final(self).spec_contains(id2) ==> id2 == id || old(self).spec_contains(id2),
            forall|id2: GlyphIdentity| #[trigger]
                old(self).spec_contains(id2) ==> forall|px: int, py: int|
                    old(self).spec_index(id2).rect.spec_contains_px(px, py) ==> final(self).image.pixel_at(px, py) == old(self).image.pixel_at(px, py),
            // packing capability only shrinks: any patch the cache can still
            // take after the call, it could already take before
            forall|w: u32, h: u32| #[trigger]
                final(self).spec_can_pack(w, h) ==> old(self).spec_can_pack(w, h),
    {
        let ghost orig = *self;
        let hit = self.resolve(id);
        if let Some(p) = hit {
            return Some(p);
        }
        // miss: decide whether the patch can be packed before mutating
        let w: u32 = patch.width;
        let h: u32 = patch.height;
        if w == 0 || h == 0 || w > self.image.width {
            return None;
        }
        let new_row = self.cursor_x + w > self.image.width;
        let px: u32 = if new_row {
            0
        } else {
            self.cursor_x
        };
        let py: u32 = if new_row {
            self.shelf_y + self.shelf_h
        } else {
            self.shelf_y
        };
        let sh: u32 = if new_row {
            h
        } else if self.shelf_h >= h {
            self.shelf_h
        } else {
            h
        };
        if py + sh > MAX_DIM {
            return None;
        }
        assert(orig.spec_can_pack(w, h));
        // grow the image if this shelf does not fit yet
        let needed: u32 = py + sh;
        if needed > self.image.height {
            let mut nh: u32 = self.image.height;
            while nh < needed
                invariant
                    1 <= nh <= MAX_DIM,
                    needed <= MAX_DIM,
                    self.image.height <= nh,
                decreases MAX_DIM - nh,
            {
                if nh > MAX_DIM / 2 {
                    nh = MAX_DIM;
                } else {
                    nh = nh * 2;
                }
            }
            self.image.grow_height(nh);
        }
        assert(py + sh <= self.image.height);
        let ghost grown = *self;
        self.image.blit(px, py, patch);
        let placement = AtlasPlacement {
            rect: PixelRect { x: px, y: py, w, h },
            offset_x,
            offset_y,
        };
        self.entries.push((id, placement));
        self.cursor_x = px + w;
        self.shelf_y = py;
        self.shelf_h = sh;
        proof {
            let n = self.entries@.len() - 1;
            assert(self.entries@[n] == (id, placement));
            assert forall|i: int| 0 <= i < n implies self.entries@[i] == orig.entries@[i] by {}
            // the new entry's key is fresh
            assert forall|i: int, j: int|
                0 <= i < self.entries@.len() && 0 <= j < self.entries@.len() && i
                    != j implies self.entries@[i].0 != self.entries@[j].0 by {
                if i == n {
                    if self.entries@[j].0 == id {
                        orig.lemma_entry_is_index(id, j);
                    }
                } else if j == n {
                    if self.entries@[i].0 == id {
                        orig.lemma_entry_is_index(id, i);
                    }
                }
            }
            // every entry is packed under the new cursor state
            assert forall|i: int|
                0 <= i < self.entries@.len() implies self.entry_packed(
                #[trigger] self.entries@[i].1,
            ) by {
                if i < n {
                    assert(orig.entry_packed(orig.entries@[i].1));
                }
            }
            // the new rectangle is disjoint from every old one
            assert forall|i: int|
                0 <= i < n implies (#[trigger] self.entries@[i].1).rect.spec_disjoint(
                placement.rect,
            ) by {
                assert(orig.entry_packed(orig.entries@[i].1));
            }
            assert forall|i: int, j: int|
                0 <= i < self.entries@.len() && 0 <= j < self.entries@.len() && i
                    != j implies (#[trigger] self.entries@[i].1).rect.spec_disjoint(
                (#[trigger] self.entries@[j].1).rect,
            ) by {
                if i == n {
                    assert(self.entries@[j].1.rect.spec_disjoint(placement.rect));
                } else if j == n {
                    assert(self.entries@[i].1.rect.spec_disjoint(placement.rect));
                } else {
                    assert(orig.entries@[i].1.rect.spec_disjoint(orig.entries@[j].1.rect));
                }
            }
            assert(self.wf());
            self.lemma_entry_is_index(id, n);
            // old entries keep their identity mapping
            assert forall|id2: GlyphIdentity| #[trigger]
                orig.spec_contains(id2) implies self.spec_contains(id2) && self.spec_index(id2)
                == orig.spec_index(id2) by {
                let i = orig.entry_index(id2);
                orig.lemma_entry_is_index(id2, i);
                self.lemma_entry_is_index(id2, i);
            }
            assert forall|id2: GlyphIdentity| #[trigger]
                self.spec_contains(id2) implies id2 == id || orig.spec_contains(id2) by {
                let i = self.entry_index(id2);
                if i < n {
                    orig.lemma_entry_is_index(id2, i);
                }
            }
            // old placements keep their pixels: they are disjoint from the
            // blitted rectangle and within the old image bounds
            assert forall|id2: GlyphIdentity| #[trigger]
                orig.spec_contains(id2) implies forall|qx: int, qy: int|
                orig.spec_index(id2).rect.spec_contains_px(qx, qy) ==> self.image.pixel_at(qx, qy)
                    == orig.image.pixel_at(qx, qy) by {
                let i = orig.entry_index(id2);
                orig.lemma_entry_is_index(id2, i);
                let rold = orig.entries@[i].1.rect;
                assert(orig.entry_packed(orig.entries@[i].1));
                assert(rold.spec_disjoint(placement.rect));
                assert forall|qx: int, qy: int|
                    rold.spec_contains_px(qx, qy) implies self.image.pixel_at(qx, qy)
                    == orig.image.pixel_at(qx, qy) by {
                    rold.lemma_disjoint_no_common_pixel(placement.rect, qx, qy);
                    assert(qx < orig.image.width && qy < orig.image.height);
                }
            }
        }
        Some(placement)
    }
}

} // verus!
