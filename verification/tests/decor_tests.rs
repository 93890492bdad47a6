use text_mesh::decor::{decoration_runs, DecoGlyph};

fn g(start: i32, end: i32, thickness: u32, wants: bool) -> DecoGlyph {
    DecoGlyph { start, end, thickness, wants }
}

#[test]
fn uniform_contiguous_line_merges_into_one_rectangle() {
    let glyphs: Vec<DecoGlyph> = (0..5).map(|i| g(i * 10, i * 10 + 10, 2, true)).collect();
    let runs = decoration_runs(&glyphs, 1);
    assert_eq!(runs.len(), 1);
    assert_eq!(runs[0].start, 0);
    assert_eq!(runs[0].end, 50);
    assert_eq!(runs[0].thickness, 2);
}

#[test]
fn gap_splits_run_at_the_gap() {
    let mut glyphs = Vec::new();
    for i in 0..5 {
        glyphs.push(g(i * 10, i * 10 + 10, 2, true));
    }
    // a gap of 10 pixels, beyond the epsilon of 1
    for i in 0..3 {
        glyphs.push(g(60 + i * 10, 60 + i * 10 + 10, 2, true));
    }
    let runs = decoration_runs(&glyphs, 1);
    assert_eq!(runs.len(), 2);
    assert_eq!((runs[0].start, runs[0].end), (0, 50));
    assert_eq!((runs[1].start, runs[1].end), (60, 90));
}

#[test]
fn thickness_change_splits_run() {
    let glyphs = vec![
        g(0, 10, 2, true),
        g(10, 20, 2, true),
        g(20, 30, 3, true),
        g(30, 40, 3, true),
    ];
    let runs = decoration_runs(&glyphs, 1);
    assert_eq!(runs.len(), 2);
    assert_eq!((runs[0].start, runs[0].end, runs[0].thickness), (0, 20, 2));
    assert_eq!((runs[1].start, runs[1].end, runs[1].thickness), (20, 40, 3));
}

#[test]
fn undecorated_glyph_breaks_run() {
    let glyphs = vec![
        g(0, 10, 2, true),
        g(10, 20, 2, false),
        g(20, 30, 2, true),
    ];
    let runs = decoration_runs(&glyphs, 1);
    assert_eq!(runs.len(), 2);
    assert_eq!((runs[0].start, runs[0].end), (0, 10));
    assert_eq!((runs[1].start, runs[1].end), (20, 30));
}

#[test]
fn degenerate_span_emits_nothing() {
    let glyphs = vec![g(5, 5, 2, true)];
    let runs = decoration_runs(&glyphs, 1);
    assert_eq!(runs.len(), 0);
}

#[test]
fn small_gap_within_epsilon_still_merges() {
    let glyphs = vec![g(0, 10, 2, true), g(11, 20, 2, true)];
    let runs = decoration_runs(&glyphs, 1);
    assert_eq!(runs.len(), 1);
    assert_eq!((runs[0].start, runs[0].end), (0, 20));
}
