//! Decoration run tracker: merges consecutive glyphs of one visual line
//! that share an underline or strikethrough into the fewest rectangles.
//! A glyph joins the open run when it wants the decoration, its thickness
//! matches, and its start lies within a small epsilon of the run's end;
//! anything else flushes the run. Degenerate (empty) spans emit nothing.

use vstd::prelude::*;

verus! {

/// What one glyph contributes to decoration tracking: its horizontal span,
/// the decoration thickness its font and size call for, and whether its
/// segment style wants this decoration at all.
#[derive(PartialEq, Eq, Structural, Clone, Copy, Debug)]
pub struct DecoGlyph {
    pub start: i32,
    pub end: i32,
    pub thickness: u32,
    pub wants: bool,
}

/// A merged run: one rectangle spanning `start..end` at `thickness`.
#[derive(PartialEq, Eq, Structural, Clone, Copy, Debug)]
pub struct DecoRun {
    pub start: i32,
    pub end: i32,
    pub thickness: u32,
}

/// The glyph is contiguous with the open run: same thickness, and its
/// start within `eps` of the run's end.
pub open spec fn joins(r: DecoRun, g: DecoGlyph, eps: u32) -> bool {
    &&& g.wants
    &&& g.thickness == r.thickness
    &&& r.end - eps <= g.start <= r.end + eps
}

/// A fresh run opened by one glyph.
pub open spec fn run_of(g: DecoGlyph) -> DecoRun {
    DecoRun { start: g.start, end: g.end, thickness: g.thickness }
}

/// Extending a run never moves its start; the end advances monotonically.
pub open spec fn extend_run(r: DecoRun, g: DecoGlyph) -> DecoRun {
    DecoRun {
        start: r.start,
        end: if g.end > r.end {
            g.end
        } else {
            r.end
        },
        thickness: r.thickness,
    }
}

/// Flushing a run emits one rectangle, or nothing for an empty span.
pub open spec fn emit(r: DecoRun) -> Seq<DecoRun> {
    if r.start < r.end {
        seq![r]
    } else {
        Seq::empty()
    }
}

/// The runs emitted by processing `gs` left to right with `open_run` as the
/// currently open run.
pub open spec fn runs_from(gs: Seq<DecoGlyph>, open_run: Option<DecoRun>, eps: u32) -> Seq<
    DecoRun,
>
    decreases gs.len(),
{
    if gs.len() == 0 {
        match open_run {
            Option::None => Seq::empty(),
            Option::Some(r) => emit(r),
        }
    } else {
        let g = gs[0];
        match open_run {
            Option::None => if g.wants {
                runs_from(gs.skip(1), Option::Some(run_of(g)), eps)
            } else {
                runs_from(gs.skip(1), Option::None, eps)
            },
            Option::Some(r) => if joins(r, g, eps) {
                runs_from(gs.skip(1), Option::Some(extend_run(r, g)), eps)
            } else if g.wants {
                emit(r) + runs_from(gs.skip(1), Option::Some(run_of(g)), eps)
            } else {
                emit(r) + runs_from(gs.skip(1), Option::None, eps)
            },
        }
    }
}

/// The rectangles for one line and one decoration kind.
pub open spec fn decoration_runs_spec(gs: Seq<DecoGlyph>, eps: u32) -> Seq<DecoRun> {
    runs_from(gs, Option::None, eps)
}

fn joins_exec(r: DecoRun, g: DecoGlyph, eps: u32) -> (b: bool)
    ensures
        b == joins(r, g, eps),
{
    g.wants && g.thickness == r.thickness && (r.end as i64) - (eps as i64) <= (g.start as i64)
        && (g.start as i64) <= (r.end as i64) + (eps as i64)
}

/// Process one visual line's glyphs left to right, merging contiguous
/// decorated glyphs into the fewest rectangles.
pub fn decoration_runs(glyphs: &Vec<DecoGlyph>, eps: u32) -> (r: Vec<DecoRun>)
    ensures
        r@ == decoration_runs_spec(glyphs@, eps),
{
    let mut out: Vec<DecoRun> = Vec::new();
    let mut cur: Option<DecoRun> = None;
    let mut i: usize = 0;
    proof {
        assert(glyphs@.skip(0) =~= glyphs@);
        assert(out@ + runs_from(glyphs@, Option::None, eps) =~= decoration_runs_spec(
            glyphs@,
            eps,
        ));
    }
    while i < glyphs.len()
        invariant
            0 <= i <= glyphs@.len(),
            out@ + runs_from(glyphs@.skip(i as int), cur, eps) == decoration_runs_spec(
                glyphs@,
                eps,
            ),
        decreases glyphs@.len() - i,
    {
        let g = glyphs[i];
        let ghost rest = glyphs@.skip(i as int);
        proof {
            assert(rest[0] == glyphs@[i as int]);
            assert(rest.skip(1) =~= glyphs@.skip(i as int + 1));
        }
        match cur {
            None => {
                if g.wants {
                    cur = Some(DecoRun { start: g.start, end: g.end, thickness: g.thickness });
                }
            },
            Some(r) => {
                if joins_exec(r, g, eps) {
                    let new_end: i32 = if g.end > r.end {
                        g.end
                    } else {
                        r.end
                    };
                    cur = Some(DecoRun { start: r.start, end: new_end, thickness: r.thickness });
                } else {
                    if r.start < r.end {
                        out.push(r);
                    }
                    if g.wants {
                        cur = Some(DecoRun { start: g.start, end: g.end, thickness: g.thickness });
                    } else {
                        cur = None;
                    }
                    proof {
                        assert(out@ + runs_from(rest.skip(1), cur, eps) =~= decoration_runs_spec(
                            glyphs@,
                            eps,
                        ));
                    }
                }
            },
        }
        i += 1;
    }
    proof {
        assert(glyphs@.skip(glyphs@.len() as int) =~= Seq::<DecoGlyph>::empty());
    }
    match cur {
        Some(r) => {
            if r.start < r.end {
                out.push(r);
            }
        },
        None => {},
    }
    proof {
        assert(out@ =~= decoration_runs_spec(glyphs@, eps));
    }
    out
}

/// Every adjacent pair is contiguous: all glyphs want the decoration, have
/// a non-empty span, matching thickness, eps-adjacent starts, and
/// non-decreasing ends.
pub open spec fn contiguous_chain(gs: Seq<DecoGlyph>, eps: u32) -> bool {
    &&& forall|i: int| 0 <= i < gs.len() ==> (#[trigger] gs[i]).wants && gs[i].start < gs[i].end
    &&& forall|i: int|
        0 <= i < gs.len() - 1 ==> (#[trigger] gs[i]).thickness == gs[i + 1].thickness && gs[i].end
            - eps <= gs[i + 1].start <= gs[i].end + eps && gs[i].end <= gs[i + 1].end
}

proof fn lemma_chain_run(gs: Seq<DecoGlyph>, r: DecoRun, eps: u32)
    requires
        contiguous_chain(gs, eps),
        r.start < r.end,
        gs.len() >= 1 ==> r.thickness == gs[0].thickness && r.end - eps <= gs[0].start <= r.end
            + eps && r.end <= gs[0].end,
    ensures
        runs_from(gs, Option::Some(r), eps) == seq![
            DecoRun {
                start: r.start,
                end: if gs.len() == 0 {
                    r.end
                } else {
                    gs[gs.len() - 1].end
                },
                thickness: r.thickness,
            },
        ],
    decreases gs.len(),
{
    if gs.len() == 0 {
        assert(emit(r) =~= seq![r]);
    } else {
        let g = gs[0];
        assert(joins(r, g, eps));
        let r2 = extend_run(r, g);
        assert(r2.end == g.end);
        let tail = gs.skip(1);
        assert forall|i: int| 0 <= i < tail.len() implies (#[trigger] tail[i]).wants && tail[i].start
            < tail[i].end by {
            assert(tail[i] == gs[i + 1]);
        }
        assert forall|i: int| 0 <= i < tail.len() - 1 implies (#[trigger] tail[i]).thickness
            == tail[i + 1].thickness && tail[i].end - eps <= tail[i + 1].start <= tail[i].end + eps
            && tail[i].end <= tail[i + 1].end by {
            assert(tail[i] == gs[i + 1]);
            assert(tail[i + 1] == gs[i + 2]);
        }
        if tail.len() >= 1 {
            assert(tail[0] == gs[1]);
        }
        lemma_chain_run(tail, r2, eps);
        if tail.len() >= 1 {
            assert(tail[tail.len() - 1] == gs[gs.len() - 1]);
        }
    }
}

/// Decoration run minimality: a line of glyphs that all share one
/// decoration, with matching thickness and no gap beyond epsilon, merges
/// into exactly one rectangle, spanning the first glyph's start to the
/// last glyph's end.
pub proof fn lemma_uniform_line_one_run(gs: Seq<DecoGlyph>, eps: u32)
    requires
        contiguous_chain(gs, eps),
        gs.len() >= 1,
    ensures
        decoration_runs_spec(gs, eps) == seq![
            DecoRun {
                start: gs[0].start,
                end: gs[gs.len() - 1].end,
                thickness: gs[0].thickness,
            },
        ],
{
    let g = gs[0];
    let r = run_of(g);
    let tail = gs.skip(1);
    assert forall|i: int| 0 <= i < tail.len() implies (#[trigger] tail[i]).wants && tail[i].start
        < tail[i].end by {
        assert(tail[i] == gs[i + 1]);
    }
    assert forall|i: int| 0 <= i < tail.len() - 1 implies (#[trigger] tail[i]).thickness == tail[i
        + 1].thickness && tail[i].end - eps <= tail[i + 1].start <= tail[i].end + eps && tail[i].end
        <= tail[i + 1].end by {
        assert(tail[i] == gs[i + 1]);
        assert(tail[i + 1] == gs[i + 2]);
    }
    if tail.len() >= 1 {
        assert(tail[0] == gs[1]);
    }
    lemma_chain_run(tail, r, eps);
    if tail.len() >= 1 {
        assert(tail[tail.len() - 1] == gs[gs.len() - 1]);
    }
}

proof fn lemma_chain_then_break(a: Seq<DecoGlyph>, b: Seq<DecoGlyph>, r: DecoRun, eps: u32)
    requires
        contiguous_chain(a, eps),
        a.len() >= 1,
        r.start < r.end,
        r.thickness == a[0].thickness,
        r.end - eps <= a[0].start <= r.end + eps,
        r.end <= a[0].end,
        !joins(
            DecoRun { start: r.start, end: a[a.len() - 1].end, thickness: r.thickness },
            b[0],
            eps,
        ),
        b.len() >= 1,
    ensures
        runs_from(a + b, Option::Some(r), eps) == seq![
            DecoRun { start: r.start, end: a[a.len() - 1].end, thickness: r.thickness },
        ] + runs_from(b, Option::None, eps),
    decreases a.len(),
{
    let ab = a + b;
    let g = ab[0];
    assert(g == a[0]);
    assert(joins(r, g, eps));
    let r2 = extend_run(r, g);
    assert(r2.end == g.end);
    if a.len() == 1 {
        assert(ab.skip(1) =~= b);
        // r2 is the fully merged run; the first glyph of b breaks it
        let rm = DecoRun { start: r.start, end: a[a.len() - 1].end, thickness: r.thickness };
        assert(r2 == rm);
        assert(!joins(rm, b[0], eps));
        if b[0].wants {
            assert(runs_from(b, Option::Some(rm), eps) == emit(rm) + runs_from(
                b.skip(1),
                Option::Some(run_of(b[0])),
                eps,
            ));
            assert(runs_from(b, Option::None, eps) == runs_from(
                b.skip(1),
                Option::Some(run_of(b[0])),
                eps,
            ));
        } else {
            assert(runs_from(b, Option::Some(rm), eps) == emit(rm) + runs_from(
                b.skip(1),
                Option::None,
                eps,
            ));
            assert(runs_from(b, Option::None, eps) == runs_from(b.skip(1), Option::None, eps));
        }
        assert(emit(rm) =~= seq![rm]);
        assert(runs_from(ab, Option::Some(r), eps) =~= seq![rm] + runs_from(
            b,
            Option::None,
            eps,
        ));
    } else {
        let atail = a.skip(1);
        assert forall|i: int| 0 <= i < atail.len() implies (#[trigger] atail[i]).wants
            && atail[i].start < atail[i].end by {
            assert(atail[i] == a[i + 1]);
        }
        assert forall|i: int| 0 <= i < atail.len() - 1 implies (#[trigger] atail[i]).thickness
            == atail[i + 1].thickness && atail[i].end - eps <= atail[i + 1].start <= atail[i].end
            + eps && atail[i].end <= atail[i + 1].end by {
            assert(atail[i] == a[i + 1]);
            assert(atail[i + 1] == a[i + 2]);
        }
        assert(atail[0] == a[1]);
        assert(atail[atail.len() - 1] == a[a.len() - 1]);
        assert(ab.skip(1) =~= atail + b);
        lemma_chain_then_break(atail, b, r2, eps);
    }
}

/// Decoration run splitting: a contiguous decorated run, then a break (a
/// gap beyond epsilon or a thickness change), then a second contiguous run
/// emit exactly two rectangles, bounded at the break.
pub proof fn lemma_gap_splits_runs(a: Seq<DecoGlyph>, b: Seq<DecoGlyph>, eps: u32)
    requires
        contiguous_chain(a, eps),
        contiguous_chain(b, eps),
        a.len() >= 1,
        b.len() >= 1,
        !joins(
            DecoRun { start: a[0].start, end: a[a.len() - 1].end, thickness: a[0].thickness },
            b[0],
            eps,
        ),
    ensures
        decoration_runs_spec(a + b, eps) == seq![
            DecoRun { start: a[0].start, end: a[a.len() - 1].end, thickness: a[0].thickness },
            DecoRun { start: b[0].start, end: b[b.len() - 1].end, thickness: b[0].thickness },
        ],
{
    let ab = a + b;
    let g = ab[0];
    assert(g == a[0]);
    assert(g.wants);
    let r = run_of(g);
    assert(ab.skip(1) =~= a.skip(1) + b);
    if a.len() == 1 {
        assert(a.skip(1) =~= Seq::<DecoGlyph>::empty());
        assert(a.skip(1) + b =~= b);
        let rm = DecoRun { start: a[0].start, end: a[a.len() - 1].end, thickness: a[0].thickness };
        assert(r == rm);
        assert(!joins(rm, b[0], eps));
        assert(emit(rm) =~= seq![rm]);
        lemma_uniform_line_one_run(b, eps);
        assert(runs_from(b, Option::Some(rm), eps) == emit(rm) + runs_from(
            b.skip(1),
            Option::Some(run_of(b[0])),
            eps,
        ));
        assert(runs_from(b, Option::None, eps) == runs_from(
            b.skip(1),
            Option::Some(run_of(b[0])),
            eps,
        ));
        assert(decoration_runs_spec(ab, eps) =~= seq![
            rm,
            DecoRun { start: b[0].start, end: b[b.len() - 1].end, thickness: b[0].thickness },
        ]);
    } else {
        let atail = a.skip(1);
        assert forall|i: int| 0 <= i < atail.len() implies (#[trigger] atail[i]).wants
            && atail[i].start < atail[i].end by {
            assert(atail[i] == a[i + 1]);
        }
        assert forall|i: int| 0 <= i < atail.len() - 1 implies (#[trigger] atail[i]).thickness
            == atail[i + 1].thickness && atail[i].end - eps <= atail[i + 1].start <= atail[i].end
            + eps && atail[i].end <= atail[i + 1].end by {
            assert(atail[i] == a[i + 1]);
            assert(atail[i + 1] == a[i + 2]);
        }
        assert(atail[0] == a[1]);
        assert(atail[atail.len() - 1] == a[a.len() - 1]);
        lemma_chain_then_break(atail, b, r, eps);
        lemma_uniform_line_one_run(b, eps);
        assert(decoration_runs_spec(ab, eps) =~= seq![
            DecoRun { start: a[0].start, end: a[a.len() - 1].end, thickness: a[0].thickness },
            DecoRun { start: b[0].start, end: b[b.len() - 1].end, thickness: b[0].thickness },
        ]);
    }
}

} // verus!
