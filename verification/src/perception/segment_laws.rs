use vstd::prelude::*;
use crate::perception::universal_transducer::{
    closed_segments, heading, is_run, is_segmentation, run_start, segmentation, turns_at, Run,
    Trend,
};

verus! {

/// What the open run's start is: it lies at least two samples back, a
/// reversal opened it unless it is the first sample, and no step since has
/// reversed.
proof fn lemma_run_start(t: Seq<Trend>, i: int)
    requires
        i <= t.len(),
    ensures
        0 <= run_start(t, i),
        i <= 1 ==> run_start(t, i) == 0,
        i >= 2 ==> run_start(t, i) + 2 <= i,
        run_start(t, i) == 0 || turns_at(t, run_start(t, i) + 1),
        forall|j: int| run_start(t, i) + 1 < j < i ==> !turns_at(t, j),
    decreases i,
{
    if i > 1 {
        lemma_run_start(t, i - 1);
    }
}

/// What holds of the segments that the steps below `i` have closed.
proof fn lemma_closed_segments(t: Seq<Trend>, i: int)
    requires
        i <= t.len(),
    ensures
        forall|k: int|
            0 <= k < closed_segments(t, i).len() ==> {
                let s = #[trigger] closed_segments(t, i)[k];
                &&& s.start + 3 <= s.end
                &&& s.end <= run_start(t, i) + 1
                &&& turns_at(t, s.end)
                &&& is_run(t, s.start, s.end)
            },
        forall|k: int, l: int|
            0 <= k < l < closed_segments(t, i).len() ==> (#[trigger] closed_segments(t, i)[k]).end
                <= (#[trigger] closed_segments(t, i)[l]).start + 1,
    decreases i,
{
    if i > 1 {
        lemma_closed_segments(t, i - 1);
        lemma_run_start(t, i - 1);
        lemma_run_start(t, i);
        // Step `i - 1` added at most one segment, behind those of before.
        let before = closed_segments(t, i - 1);
        let now = closed_segments(t, i);
        assert forall|k: int| 0 <= k < now.len() implies {
            let s = #[trigger] now[k];
            &&& s.start + 3 <= s.end
            &&& s.end <= run_start(t, i) + 1
            &&& turns_at(t, s.end)
            &&& is_run(t, s.start, s.end)
        } by {
            if k < before.len() {
                assert(now[k] == before[k]);
            }
        }
        assert forall|k: int, l: int| 0 <= k < l < now.len() implies (#[trigger] now[k]).end <= (
        #[trigger] now[l]).start + 1 by {
            assert(now[k] == before[k]);
        }
    }
}

/// Every closed run of three samples or more that ends below `i` is among
/// the segments closed so far.
proof fn lemma_closed_segments_complete(t: Seq<Trend>, i: int, a: int, b: int)
    requires
        i <= t.len(),
        is_run(t, a, b),
        turns_at(t, b),
        a + 3 <= b < i,
    ensures
        closed_segments(t, i).contains(Run { start: a, end: b }),
    decreases i,
{
    let before = closed_segments(t, i - 1);
    if b < i - 1 {
        lemma_closed_segments_complete(t, i - 1, a, b);
        let k = choose|k: int| 0 <= k < before.len() && before[k] == (Run { start: a, end: b });
        assert(closed_segments(t, i)[k] == (Run { start: a, end: b }));
    } else {
        // The run that step `b` closes starts where the open run starts:
        // were the two starts apart, a reversal would lie inside one of the
        // two runs.
        lemma_run_start(t, b);
        assert(run_start(t, b) == a);
        assert(closed_segments(t, i)[before.len() as int] == (Run { start: a, end: b }));
    }
}

/// Every segment is a maximal run without reversal and has at least three
/// samples.
pub proof fn lemma_segments_are_runs(t: Seq<Trend>)
    ensures
        forall|k: int|
            0 <= k < segmentation(t).len() ==> {
                let s = #[trigger] segmentation(t)[k];
                s.start + 3 <= s.end && is_run(t, s.start, s.end)
            },
{
    let n = t.len() as int;
    lemma_closed_segments(t, n);
    lemma_run_start(t, n);
}

/// Every maximal run without reversal that has at least three samples is a
/// segment: nothing but noise is dropped.
pub proof fn lemma_runs_are_segments(t: Seq<Trend>, a: int, b: int)
    requires
        is_run(t, a, b),
        a + 3 <= b,
    ensures
        segmentation(t).contains(Run { start: a, end: b }),
{
    let n = t.len() as int;
    let closed = closed_segments(t, n);
    if turns_at(t, b) {
        lemma_closed_segments_complete(t, n, a, b);
        let k = choose|k: int| 0 <= k < closed.len() && closed[k] == (Run { start: a, end: b });
        assert(segmentation(t)[k] == (Run { start: a, end: b }));
    } else {
        // The run ends with the stream, so it is the trailing run.
        lemma_run_start(t, n);
        assert(run_start(t, n) == a);
        assert(segmentation(t)[closed.len() as int] == (Run { start: a, end: b }));
    }
}

/// Segments come in stream order, and two of them share at most one sample:
/// the pivot at which the stream reversed.
pub proof fn lemma_segments_in_order(t: Seq<Trend>)
    ensures
        forall|k: int, l: int|
            0 <= k < l < segmentation(t).len() ==> {
                &&& (#[trigger] segmentation(t)[k]).start < (#[trigger] segmentation(t)[l]).start
                &&& segmentation(t)[k].end <= segmentation(t)[l].start + 1
            },
{
    let n = t.len() as int;
    lemma_closed_segments(t, n);
    lemma_run_start(t, n);
}

/// What `segment` computes is the segmentation of the stream.
pub proof fn lemma_segmentation_is_segmentation(t: Seq<Trend>)
    ensures
        is_segmentation(t, segmentation(t)),
{
    lemma_segments_are_runs(t);
    lemma_segments_in_order(t);
    assert forall|a: int, b: int| #[trigger] is_run(t, a, b) && a + 3 <= b implies segmentation(
        t,
    ).contains(Run { start: a, end: b }) by {
        lemma_runs_are_segments(t, a, b);
    }
}

/// Two segmentations of one stream agree at every position that both have.
proof fn lemma_same_run(t: Seq<Trend>, x: Seq<Run>, y: Seq<Run>, p: int)
    requires
        is_segmentation(t, x),
        is_segmentation(t, y),
        0 <= p < x.len(),
        p < y.len(),
    ensures
        x[p] == y[p],
    decreases p,
{
    assert forall|q: int| 0 <= q < p implies x[q] == y[q] by {
        lemma_same_run(t, x, y, q);
    }
    // Each holds the other's run at `p`, and neither before `p`. Were the
    // two runs apart, each would start before the other.
    assert(is_run(t, x[p].start, x[p].end));
    assert(is_run(t, y[p].start, y[p].end));
    let q = choose|q: int| 0 <= q < y.len() && y[q] == x[p];
    let r = choose|r: int| 0 <= r < x.len() && x[r] == y[p];
    assert(q >= p);
    assert(r >= p);
}

/// One segmentation is no longer than another of the same stream.
proof fn lemma_no_more_runs(t: Seq<Trend>, x: Seq<Run>, y: Seq<Run>)
    requires
        is_segmentation(t, x),
        is_segmentation(t, y),
    ensures
        x.len() <= y.len(),
{
    if x.len() > y.len() {
        // `y` would hold the run behind its own length at a position where
        // `x` holds it too: `x` would hold it twice.
        let s = x[y.len() as int];
        assert(is_run(t, s.start, s.end));
        let q = choose|q: int| 0 <= q < y.len() && y[q] == s;
        lemma_same_run(t, x, y, q);
    }
}

/// A stream has one segmentation.
pub proof fn lemma_segmentation_is_unique(t: Seq<Trend>, x: Seq<Run>, y: Seq<Run>)
    requires
        is_segmentation(t, x),
        is_segmentation(t, y),
    ensures
        x == y,
{
    lemma_no_more_runs(t, x, y);
    lemma_no_more_runs(t, y, x);
    assert forall|p: int| 0 <= p < x.len() implies x[p] == y[p] by {
        lemma_same_run(t, x, y, p);
    }
}

/// Inside a run the stream keeps its heading: up to step `j`, every step of
/// the run that is not flat has the trend that the stream is heading in.
proof fn lemma_heading_in_run(t: Seq<Trend>, a: int, b: int, j: int)
    requires
        is_run(t, a, b),
        a < j < b,
    ensures
        forall|i: int| a < i <= j && t[i] != Trend::Flat ==> t[i] == heading(t, j),
    decreases j,
{
    if j > a + 1 {
        lemma_heading_in_run(t, a, b, j - 1);
        assert(!turns_at(t, j));
    }
}

/// A run goes one way: any two of its steps that are not flat have the same
/// trend.
pub proof fn lemma_run_goes_one_way(t: Seq<Trend>, a: int, b: int, i: int, j: int)
    requires
        is_run(t, a, b),
        a < i < b,
        a < j < b,
        t[i] != Trend::Flat,
        t[j] != Trend::Flat,
    ensures
        t[i] == t[j],
{
    lemma_heading_in_run(t, a, b, b - 1);
}

/// A stream of fewer than three samples has no segment.
pub proof fn lemma_short_stream_has_no_segment(t: Seq<Trend>)
    requires
        t.len() < 3,
    ensures
        segmentation(t).len() == 0,
{
    let n = t.len() as int;
    lemma_closed_segments(t, n);
    lemma_run_start(t, n);
    if closed_segments(t, n).len() > 0 {
        // A closed segment would have three samples below `n`.
        assert(closed_segments(t, n)[0].end < n);
    }
}

} // verus!
