use vstd::prelude::*;
use crate::error::PerceptionError;
use crate::perception::segment_laws::lemma_segmentation_is_segmentation;

verus! {

/// How the reference coordinate moved from the previous sample to this one.
///
/// A step smaller than the noise floor is `Flat`: it neither sets nor
/// changes the heading of the stream.
#[derive(Clone, Copy, Debug, PartialEq, Eq, Structural)]
pub enum Trend {
    Flat,
    Rising,
    Falling,
}

/// A run of consecutive samples as mathematics sees it: sample `start` is in
/// it, sample `end` is the first one past it.
pub struct Run {
    pub start: int,
    pub end: int,
}

/// A run of consecutive samples, `start` included and `end` excluded.
#[derive(Clone, Copy, Debug, PartialEq, Eq, Structural)]
pub struct Span {
    pub start: usize,
    pub end: usize,
}

impl View for Span {
    type V = Run;

    open spec fn view(&self) -> Run {
        Run { start: self.start as int, end: self.end as int }
    }
}

impl Span {
    /// The number of samples in the run.
    pub open spec fn samples(self) -> nat {
        if self.start <= self.end {
            (self.end - self.start) as nat
        } else {
            0
        }
    }

    /// The number of samples in the run.
    pub fn len(&self) -> (n: usize)
        ensures
            n == self.samples(),
    {
        if self.start <= self.end {
            self.end - self.start
        } else {
            0
        }
    }
}

/// The runs that a sequence of spans stands for.
pub open spec fn runs_of(spans: Seq<Span>) -> Seq<Run> {
    spans.map_values(|s: Span| s@)
}

/// The heading of the stream once step `i` has been read: the trend of the
/// last step at or before `i` that was not flat, and `Flat` while there has
/// been none. Step `i` leads from sample `i - 1` to sample `i`, so steps are
/// numbered from 1 and `t[0]` is never read.
pub open spec fn heading(t: Seq<Trend>, i: int) -> Trend
    decreases i,
{
    if i < 1 || i >= t.len() {
        Trend::Flat
    } else if t[i] != Trend::Flat {
        t[i]
    } else {
        heading(t, i - 1)
    }
}

/// Step `i` reverses the stream: it is not flat, a heading was established
/// before it, and it goes the other way.
pub open spec fn turns_at(t: Seq<Trend>, i: int) -> bool {
    &&& 1 <= i < t.len()
    &&& t[i] != Trend::Flat
    &&& heading(t, i - 1) != Trend::Flat
    &&& heading(t, i - 1) != t[i]
}

/// The first sample of the run that is open when step `i` is about to be
/// read: the sample just before the last reversal among the steps below `i`,
/// the pivot that two adjacent runs share, or sample 0 if there was none.
pub open spec fn run_start(t: Seq<Trend>, i: int) -> int
    decreases i,
{
    if i <= 1 {
        0
    } else if turns_at(t, i - 1) {
        i - 2
    } else {
        run_start(t, i - 1)
    }
}

/// The segments that the reversals among the steps below `i` have closed, in
/// stream order. A reversal at step `j` closes the run from the open start up
/// to, and without, sample `j`; the run is kept if it has three samples or
/// more.
pub open spec fn closed_segments(t: Seq<Trend>, i: int) -> Seq<Run>
    decreases i,
{
    if i <= 1 {
        Seq::empty()
    } else {
        let before = closed_segments(t, i - 1);
        let a = run_start(t, i - 1);
        if turns_at(t, i - 1) && a + 3 <= i - 1 {
            before.push(Run { start: a, end: i - 1 })
        } else {
            before
        }
    }
}

/// The segments of a stream of `t.len()` samples: those that reversals
/// closed, then the trailing run if it has three samples or more.
pub open spec fn segmentation(t: Seq<Trend>) -> Seq<Run> {
    let n = t.len() as int;
    let a = run_start(t, n);
    if a + 3 <= n {
        closed_segments(t, n).push(Run { start: a, end: n })
    } else {
        closed_segments(t, n)
    }
}

/// Samples `a` up to, and without, `b` form a maximal run without reversal:
/// the run opens at the first sample or at the pivot of a reversal, it ends
/// with the stream or where the next reversal falls, and no step inside it
/// reverses.
pub open spec fn is_run(t: Seq<Trend>, a: int, b: int) -> bool {
    &&& 0 <= a
    &&& a + 2 <= b <= t.len()
    &&& (a == 0 || turns_at(t, a + 1))
    &&& (b == t.len() || turns_at(t, b))
    &&& forall|j: int| a + 1 < j < b ==> !turns_at(t, j)
}

/// `runs` is the segmentation of the stream: each of its members is a
/// maximal run without reversal of three samples or more, every such run is a
/// member, and the members stand in stream order.
pub open spec fn is_segmentation(t: Seq<Trend>, runs: Seq<Run>) -> bool {
    &&& forall|k: int|
        0 <= k < runs.len() ==> {
            let s = #[trigger] runs[k];
            s.start + 3 <= s.end && is_run(t, s.start, s.end)
        }
    &&& forall|k: int, l: int|
        0 <= k < l < runs.len() ==> (#[trigger] runs[k]).start < (#[trigger] runs[l]).start
    &&& forall|a: int, b: int|
        #[trigger] is_run(t, a, b) && a + 3 <= b ==> runs.contains(Run { start: a, end: b })
}

/// Splits sample streams into segments at the reversals of their reference
/// coordinate.
pub struct UniversalTransducer;

impl UniversalTransducer {
    /// Segments a stream. `trends` holds one entry per sample, the entry of
    /// sample `i` classifying the step that leads to it; the entry of the
    /// first sample is not read. `timestamps` is the number of timestamps that
    /// came with the samples.
    pub fn segment(trends: &Vec<Trend>, timestamps: usize) -> (r: Result<Vec<Span>, PerceptionError>)
        ensures
            trends.len() != timestamps ==> r == Err::<Vec<Span>, PerceptionError>(
                PerceptionError::LengthMismatch,
            ),
            trends.len() == timestamps ==> r is Ok && runs_of(r->Ok_0@) == segmentation(trends@),
            r matches Ok(spans) ==> is_segmentation(trends@, runs_of(spans@)),
            r matches Ok(spans) ==> forall|k: int|
                0 <= k < spans.len() ==> {
                    let s = #[trigger] spans[k];
                    s.start + 3 <= s.end <= trends.len()
                },
    {
        let n = trends.len();
        if n != timestamps {
            return Err(PerceptionError::LengthMismatch);
        }
        let mut out: Vec<Span> = Vec::new();
        proof {
            lemma_segmentation_is_segmentation(trends@);
        }
        if n < 2 {
            assert(runs_of(out@) =~= segmentation(trends@));
            return Ok(out);
        }
        let mut start: usize = 0;
        let mut current = Trend::Flat;
        let mut i: usize = 1;
        while i < n
            invariant
                n == trends.len(),
                1 <= i <= n,
                start < i,
                start == run_start(trends@, i as int),
                current == heading(trends@, i - 1),
                runs_of(out@) == closed_segments(trends@, i as int),
            decreases n - i,
        {
            let here = trends[i];
            if here != Trend::Flat {
                if current != Trend::Flat && here != current {
                    if i - start >= 3 {
                        out.push(Span { start, end: i });
                    }
                    start = i - 1;
                }
                current = here;
            }
            i += 1;
        }
        if n - start >= 3 {
            out.push(Span { start, end: n });
        }
        assert(runs_of(out@) =~= segmentation(trends@));
        assert forall|k: int| 0 <= k < out.len() implies {
            let s = #[trigger] out[k];
            s.start + 3 <= s.end <= trends.len()
        } by {
            assert(runs_of(out@)[k] == out[k]@);
        }
        Ok(out)
    }
}

} // verus!
