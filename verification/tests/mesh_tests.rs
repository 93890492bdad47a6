use text_mesh::atlas::PixelRect;
use text_mesh::mesh::{MeshBuffers, ScreenRect, Vec2u};

fn rect(min_x: i32, min_y: i32, max_x: i32, max_y: i32) -> ScreenRect {
    ScreenRect { min_x, min_y, max_x, max_y }
}

fn arect(x: u32, y: u32, w: u32, h: u32) -> PixelRect {
    PixelRect { x, y, w, h }
}

#[test]
fn cache_rectangle_appends_one_quad() {
    let mut m = MeshBuffers::new();
    assert!(m.cache_rectangle(rect(0, 0, 10, 20), arect(2, 3, 4, 5), 0xff00ff00, 7, 0, 1));
    assert_eq!(m.positions.len(), 4);
    assert_eq!(m.normals.len(), 4);
    assert_eq!(m.uv0_px.len(), 4);
    assert_eq!(m.colors.len(), 4);
    assert_eq!(m.quads.len(), 1);
    // bottom-left vertex, counter-clockwise
    assert_eq!((m.positions[0].x, m.positions[0].y, m.positions[0].z), (0, 0, 1));
    assert_eq!((m.positions[1].x, m.positions[1].y), (10, 0));
    assert_eq!((m.positions[2].x, m.positions[2].y), (10, 20));
    assert_eq!((m.positions[3].x, m.positions[3].y), (0, 20));
    // the atlas is y-down: the bottom-left vertex samples the patch bottom
    assert_eq!(m.uv0_px[0], Vec2u { u: 2, v: 8 });
    assert_eq!(m.uv0_px[2], Vec2u { u: 6, v: 3 });
    assert_eq!(m.colors[0], 0xff00ff00);
    assert_eq!((m.normals[0].x, m.normals[0].y, m.normals[0].z), (0, 0, 1));
    assert_eq!(m.quads[0].layer, 7);
    assert_eq!(m.quads[0].v0, 0);
}

#[test]
fn sort_orders_by_layer_then_insertion() {
    let mut m = MeshBuffers::new();
    let layers = [5i64, 1, 1, 3];
    for (i, &l) in layers.iter().enumerate() {
        assert!(m.cache_rectangle(rect(0, 0, 1, 1), arect(0, 0, 1, 1), 0, l, i as u32, 0));
    }
    m.sort_quads();
    let got: Vec<(i64, u32)> = m.quads.iter().map(|q| (q.layer, q.order)).collect();
    assert_eq!(got, vec![(1, 1), (1, 2), (3, 3), (5, 0)]);
    m.build_indices();
    assert_eq!(m.indices.len(), 24);
    // the first six indices belong to the quad inserted second (v0 == 4)
    assert_eq!(&m.indices[0..6], &[4, 5, 6, 4, 6, 7]);
}

#[test]
fn sort_is_stable_for_equal_layers() {
    let mut m = MeshBuffers::new();
    for i in 0..6u32 {
        assert!(m.cache_rectangle(rect(0, 0, 1, 1), arect(0, 0, 1, 1), 0, 2, i, 0));
    }
    m.sort_quads();
    let orders: Vec<u32> = m.quads.iter().map(|q| q.order).collect();
    assert_eq!(orders, vec![0, 1, 2, 3, 4, 5]);
}

#[test]
fn pixel_to_uv_normalizes_against_dimensions() {
    let mut m = MeshBuffers::new();
    assert!(m.cache_rectangle(rect(0, 0, 1, 1), arect(16, 8, 16, 8), 0, 0, 0, 0));
    m.pixel_to_uv(64, 32);
    assert_eq!(m.uv0.len(), 4);
    // bottom-left vertex samples (16, 16): 16*65536/64, 16*65536/32
    assert_eq!((m.uv0[0].u, m.uv0[0].v), (16384, 32768));
    // top-right vertex samples (32, 8)
    assert_eq!((m.uv0[2].u, m.uv0[2].v), (32768, 16384));
}

#[test]
fn rescale_matches_rebuild_against_new_dimensions() {
    let mut a = MeshBuffers::new();
    let mut b = MeshBuffers::new();
    for i in 0..3u32 {
        let ar = arect(3 * i, 5 * i, 7, 9);
        assert!(a.cache_rectangle(rect(0, 0, 1, 1), ar, 0, 0, i, 0));
        assert!(b.cache_rectangle(rect(0, 0, 1, 1), ar, 0, 0, i, 0));
    }
    // a: normalized against the old size, then rescaled after a resize
    a.pixel_to_uv(64, 64);
    a.rescale_uv(128, 256);
    // b: rebuilt directly against the new size
    b.pixel_to_uv(128, 256);
    assert_eq!(a.uv0, b.uv0);
}

#[test]
fn uv1_is_position_within_bounding_box() {
    let mut m = MeshBuffers::new();
    assert!(m.cache_rectangle(rect(10, 20, 30, 60), arect(0, 0, 1, 1), 0, 0, 0, 0));
    m.pass_uv1(10, 20, 20, 40);
    assert_eq!(m.uv1.len(), 4);
    assert_eq!((m.uv1[0].u, m.uv1[0].v), (0, 0));
    assert_eq!((m.uv1[2].u, m.uv1[2].v), (65536, 65536));
}

#[test]
fn uv1_below_the_box_is_negative() {
    let mut m = MeshBuffers::new();
    assert!(m.cache_rectangle(rect(0, -20, 10, 0), arect(0, 0, 1, 1), 0, 0, 0, 0));
    m.pass_uv1(0, 0, 10, 40);
    // the quad's lower edge sits 20 units below the box minimum
    assert_eq!(m.uv1[0].v, -(20 * 65536 / 40));
    assert_eq!(m.uv1[2].v, 0);
}

#[test]
fn translate_moves_all_positions() {
    let mut m = MeshBuffers::new();
    assert!(m.cache_rectangle(rect(1, 2, 3, 4), arect(0, 0, 1, 1), 0, 0, 0, 9));
    m.translate(100, -10);
    assert_eq!((m.positions[0].x, m.positions[0].y, m.positions[0].z), (101, -8, 9));
    assert_eq!((m.positions[2].x, m.positions[2].y), (103, -6));
}

#[test]
fn translate_scaled_scales_by_world_scale_over_size() {
    let mut m = MeshBuffers::new();
    assert!(m.cache_rectangle(rect(10, -10, 30, 50), arect(0, 0, 1, 1), 0, 0, 0, 0));
    // (v + 0) * 3 / 2
    m.translate_scaled(0, 0, 3, 2);
    assert_eq!((m.positions[0].x, m.positions[0].y), (15, -15));
    assert_eq!((m.positions[2].x, m.positions[2].y), (45, 75));
}
