use text_mesh::atlas::{AtlasCache, GlyphIdentity, RasterPatch, StrokeJoin};

fn ident(n: u16) -> GlyphIdentity {
    GlyphIdentity {
        font: 1,
        glyph_id: n,
        size_bits: 0x41c80000,
        weight: 400,
        stroke: 0,
        join: StrokeJoin::Miter,
    }
}

fn patch(w: u32, h: u32, fill: u8) -> RasterPatch {
    RasterPatch { width: w, height: h, data: vec![fill; (w * h) as usize] }
}

fn overlaps(a: (u32, u32, u32, u32), b: (u32, u32, u32, u32)) -> bool {
    !(a.0 + a.2 <= b.0 || b.0 + b.2 <= a.0 || a.1 + a.3 <= b.1 || b.1 + b.3 <= a.1)
}

#[test]
fn resolve_on_empty_cache_is_none() {
    let cache = AtlasCache::new(64, 64);
    assert!(cache.resolve(ident(1)).is_none());
}

#[test]
fn render_then_resolve_returns_same_placement() {
    let mut cache = AtlasCache::new(64, 64);
    let p = cache.resolve_or_render(ident(1), &patch(10, 10, 200), 3, -4).unwrap();
    assert_eq!(p.rect.w, 10);
    assert_eq!(p.rect.h, 10);
    assert_eq!(p.offset_x, 3);
    assert_eq!(p.offset_y, -4);
    let q = cache.resolve(ident(1)).unwrap();
    assert_eq!(p, q);
    // a second render of the same identity is a pure hit
    let r = cache.resolve_or_render(ident(1), &patch(20, 20, 9), 0, 0).unwrap();
    assert_eq!(p, r);
    assert_eq!(cache.entries.len(), 1);
}

#[test]
fn equal_identities_share_and_distinct_identities_never_overlap() {
    let mut cache = AtlasCache::new(64, 64);
    let mut rects = Vec::new();
    for n in 0..6u16 {
        let p = cache.resolve_or_render(ident(n), &patch(20, 10 + n as u32, 1), 0, 0).unwrap();
        rects.push((p.rect.x, p.rect.y, p.rect.w, p.rect.h));
    }
    for i in 0..rects.len() {
        for j in 0..rects.len() {
            if i != j {
                assert!(!overlaps(rects[i], rects[j]), "{:?} overlaps {:?}", rects[i], rects[j]);
                assert_ne!(rects[i], rects[j]);
            }
        }
    }
}

#[test]
fn shelf_packer_places_left_to_right_then_new_row() {
    let mut cache = AtlasCache::new(64, 64);
    let a = cache.resolve_or_render(ident(1), &patch(40, 20, 1), 0, 0).unwrap();
    let b = cache.resolve_or_render(ident(2), &patch(40, 20, 2), 0, 0).unwrap();
    assert_eq!((a.rect.x, a.rect.y), (0, 0));
    // the second patch does not fit beside the first: new row
    assert_eq!((b.rect.x, b.rect.y), (0, 20));
}

#[test]
fn growth_keeps_existing_placements_and_pixels() {
    let mut cache = AtlasCache::new(64, 64);
    let a = cache.resolve_or_render(ident(1), &patch(40, 40, 111), 0, 0).unwrap();
    let h0 = cache.image.height;
    // this patch forces a second row that exceeds the current height
    let b = cache.resolve_or_render(ident(2), &patch(40, 40, 222), 0, 0).unwrap();
    assert!(cache.image.height > h0);
    assert_eq!(cache.image.width, 64);
    // the first placement is unchanged and its pixels survive the growth
    let a2 = cache.resolve(ident(1)).unwrap();
    assert_eq!(a, a2);
    for py in a.rect.y..a.rect.y + a.rect.h {
        for px in a.rect.x..a.rect.x + a.rect.w {
            assert_eq!(cache.image.pixels[(py * cache.image.width + px) as usize], 111);
        }
    }
    for py in b.rect.y..b.rect.y + b.rect.h {
        for px in b.rect.x..b.rect.x + b.rect.w {
            assert_eq!(cache.image.pixels[(py * cache.image.width + px) as usize], 222);
        }
    }
}

#[test]
fn degenerate_or_oversized_patches_are_refused() {
    let mut cache = AtlasCache::new(64, 64);
    assert!(cache.resolve_or_render(ident(1), &patch(0, 10, 1), 0, 0).is_none());
    assert!(cache.resolve_or_render(ident(2), &patch(10, 0, 1), 0, 0).is_none());
    assert!(cache.resolve_or_render(ident(3), &patch(100, 10, 1), 0, 0).is_none());
    assert_eq!(cache.entries.len(), 0);
}
