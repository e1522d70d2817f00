//! Summarizing monotonic segments into a minimal alternating trend sequence.
//!
//! [`find_trends`] classifies each segment by its endpoints, accumulates the
//! contributions left to right while merging same-direction neighbours and
//! dropping duplicate constants, and then runs a second adjacency-compaction
//! pass: a constant dropped between two same-direction trends can leave them
//! newly adjacent, which only the second pass can merge.  The output has no
//! adjacent pair that the merge rules could still combine.

use vstd::prelude::*;
use vstd::slice::slice_index_get;
use crate::segment::seg_views;

verus! {

/// A summarized trend over one or more segments.
#[derive(Clone, Copy, Debug, PartialEq, Eq, Structural)]
pub enum Trend {
    Rising { min: i64, max: i64 },
    Constant(i64),
    Falling { max: i64, min: i64 },
}

/// The contribution a single segment makes: nothing when empty, a constant
/// for a single sample, and otherwise the trend its two endpoints show — a
/// long segment whose interior excursions return to the starting value
/// counts as constant.
pub open spec fn seg_trend(s: Seq<i64>) -> Option<Trend> {
    if s.len() == 0 {
        Option::None
    } else if s.len() == 1 {
        Option::Some(Trend::Constant(s[0]))
    } else if s[0] < s[s.len() - 1] {
        Option::Some(Trend::Rising { min: s[0], max: s[s.len() - 1] })
    } else if s[0] > s[s.len() - 1] {
        Option::Some(Trend::Falling { max: s[0], min: s[s.len() - 1] })
    } else {
        Option::Some(Trend::Constant(s[0]))
    }
}

/// Accumulates one contribution: a rising trend extends a rising
/// predecessor's `max` in place, a falling one extends a falling
/// predecessor's `min`, a constant equal to a constant predecessor is
/// dropped, and anything else starts a new entry.
pub open spec fn push_trend(acc: Seq<Trend>, t: Trend) -> Seq<Trend> {
    if acc.len() == 0 {
        acc.push(t)
    } else {
        match (acc.last(), t) {
            (Trend::Rising { min, max: _ }, Trend::Rising { min: _, max }) => acc.update(
                acc.len() - 1,
                Trend::Rising { min, max },
            ),
            (Trend::Falling { max, min: _ }, Trend::Falling { max: _, min }) => acc.update(
                acc.len() - 1,
                Trend::Falling { max, min },
            ),
            (Trend::Constant(a), Trend::Constant(b)) => if a == b {
                acc
            } else {
                acc.push(t)
            },
            _ => acc.push(t),
        }
    }
}

/// The first pass over the segments from index `j` on, with `acc` already
/// accumulated.
pub open spec fn pass1_from(segs: Seq<Seq<i64>>, j: int, acc: Seq<Trend>) -> Seq<Trend>
    decreases segs.len() - j,
{
    if j < 0 || j >= segs.len() {
        acc
    } else {
        let acc2 = match seg_trend(segs[j]) {
            Option::None => acc,
            Option::Some(t) => push_trend(acc, t),
        };
        pass1_from(segs, j + 1, acc2)
    }
}

/// The first, accumulating pass over all segments.
pub open spec fn pass1(segs: Seq<Seq<i64>>) -> Seq<Trend> {
    pass1_from(segs, 0, Seq::empty())
}

/// What merging two adjacent trends yields, if they are mergeable: two
/// rising trends span from the first's `min` to the second's `max`, two
/// falling ones from the first's `max` to the second's `min`, and two equal
/// constants collapse into one.
pub open spec fn merge2(a: Trend, b: Trend) -> Option<Trend> {
    match (a, b) {
        (Trend::Rising { min, max: _ }, Trend::Rising { min: _, max }) => Option::Some(
            Trend::Rising { min, max },
        ),
        (Trend::Falling { max, min: _ }, Trend::Falling { max: _, min }) => Option::Some(
            Trend::Falling { max, min },
        ),
        (Trend::Constant(a0), Trend::Constant(b0)) => if a0 == b0 {
            Option::Some(Trend::Constant(a0))
        } else {
            Option::None
        },
        _ => Option::None,
    }
}

/// The adjacency-compaction pass with its cursor at `i`: a mergeable pair is
/// merged in place without advancing the cursor, so a further merge at the
/// same position is re-checked; an unmergeable pair advances it.
pub open spec fn compact_from(ts: Seq<Trend>, i: int) -> Seq<Trend>
    decreases ts.len() - i,
{
    if i < 0 || i + 1 >= ts.len() {
        ts
    } else {
        match merge2(ts[i], ts[i + 1]) {
            Option::Some(m) => compact_from(ts.update(i, m).remove(i + 1), i),
            Option::None => compact_from(ts, i + 1),
        }
    }
}

/// No adjacent pair of `ts` can still be merged.
pub open spec fn no_mergeable(ts: Seq<Trend>) -> bool {
    forall|k: int| 0 <= k && k + 1 < ts.len() ==> merge2(#[trigger] ts[k], ts[k + 1]) is None
}

/// The trends extracted from an ordered sequence of segments: the
/// accumulating pass followed by the adjacency-compaction pass.
pub open spec fn spec_trends(segs: Seq<Seq<i64>>) -> Seq<Trend> {
    compact_from(pass1(segs), 0)
}

/// Compaction starting at `i` leaves no mergeable pair, provided no pair
/// before the cursor is mergeable.  Merging at the cursor cannot make the
/// pair just before it mergeable: the merged entry keeps its left operand's
/// variant, and a merged constant keeps its value.
proof fn lemma_compact_clean_prefix(ts: Seq<Trend>, i: int)
    requires
        0 <= i,
        forall|k: int|
            0 <= k < i && k + 1 < ts.len() ==> merge2(#[trigger] ts[k], ts[k + 1]) is None,
    ensures
        no_mergeable(compact_from(ts, i)),
    decreases ts.len() - i,
{
    if i + 1 >= ts.len() {
        assert(compact_from(ts, i) == ts);
    } else {
        match merge2(ts[i], ts[i + 1]) {
            Option::Some(m) => {
                let ts2 = ts.update(i, m).remove(i + 1);
                assert forall|k: int|
                    0 <= k < i && k + 1 < ts2.len() implies merge2(
                    #[trigger] ts2[k],
                    ts2[k + 1],
                ) is None by {
                    assert(ts2[k] == ts[k]);
                    if k + 1 < i {
                        assert(ts2[k + 1] == ts[k + 1]);
                    } else {
                        assert(ts2[k + 1] == m);
                        assert(merge2(ts[k], ts[i]) is None);
                    }
                }
                lemma_compact_clean_prefix(ts2, i);
                assert(compact_from(ts, i) == compact_from(ts2, i));
            },
            Option::None => {
                lemma_compact_clean_prefix(ts, i + 1);
                assert(compact_from(ts, i) == compact_from(ts, i + 1));
            },
        }
    }
}

/// Compaction does nothing to a sequence with no mergeable pair.
proof fn lemma_compact_of_clean(ts: Seq<Trend>, i: int)
    requires
        no_mergeable(ts),
        0 <= i,
    ensures
        compact_from(ts, i) == ts,
    decreases ts.len() - i,
{
    if i + 1 < ts.len() {
        assert(merge2(ts[i], ts[i + 1]) is None);
        lemma_compact_of_clean(ts, i + 1);
    }
}

/// The adjacency-compaction pass is idempotent: its output has no mergeable
/// adjacent pair left, so running it again on that output is a no-op.
pub proof fn lemma_compaction_idempotent(ts: Seq<Trend>)
    ensures
        no_mergeable(compact_from(ts, 0)),
        compact_from(compact_from(ts, 0), 0) == compact_from(ts, 0),
{
    lemma_compact_clean_prefix(ts, 0);
    lemma_compact_of_clean(compact_from(ts, 0), 0);
}

/// Extracts the minimal alternating trend summary of `segments`.
///
/// The result is exactly [`spec_trends`] of the segments' contents, and no
/// two adjacent entries of it could still be merged.
pub fn find_trends(segments: &[&[i64]]) -> (out: Vec<Trend>)
    ensures
        out@ == spec_trends(seg_views(segments@)),
        no_mergeable(out@),
{
    let ghost views = seg_views(segments@);
    let mut out: Vec<Trend> = Vec::new();
    let mut j: usize = 0;
    while j < segments.len()
        invariant
            j <= segments@.len(),
            pass1_from(seg_views(segments@), j as int, out@) == pass1(seg_views(segments@)),
        decreases segments@.len() - j,
    {
        let ghost old_out = out@;
        let seg = *slice_index_get(segments, j);
        proof {
            assert(seg_views(segments@)[j as int] == seg@);
        }
        if seg.len() == 0 {
            proof {
                assert(seg_trend(seg@) is None);
            }
        } else {
            let t: Trend = if seg.len() == 1 {
                Trend::Constant(*slice_index_get(seg, 0))
            } else {
                let first = *slice_index_get(seg, 0);
                let last = *slice_index_get(seg, seg.len() - 1);
                if first < last {
                    Trend::Rising { min: first, max: last }
                } else if first > last {
                    Trend::Falling { max: first, min: last }
                } else {
                    Trend::Constant(first)
                }
            };
            proof {
                assert(seg_trend(seg@) == Option::Some(t));
            }
            let n = out.len();
            if n == 0 {
                out.push(t);
            } else {
                let prev = out[n - 1];
                match (prev, t) {
                    (Trend::Rising { min, max: _ }, Trend::Rising { min: _, max }) => {
                        out[n - 1] = Trend::Rising { min, max };
                    },
                    (Trend::Falling { max, min: _ }, Trend::Falling { max: _, min }) => {
                        out[n - 1] = Trend::Falling { max, min };
                    },
                    (Trend::Constant(a), Trend::Constant(b)) => {
                        if a != b {
                            out.push(t);
                        }
                    },
                    _ => {
                        out.push(t);
                    },
                }
            }
            proof {
                assert(out@ == push_trend(old_out, t));
            }
        }
        proof {
            assert(pass1_from(seg_views(segments@), j as int, old_out) == pass1_from(
                seg_views(segments@),
                j as int + 1,
                out@,
            ));
        }
        j = j + 1;
    }
    proof {
        assert(out@ == pass1(views));
    }
    if out.len() == 0 {
        return out;
    }
    let mut i: usize = 0;
    while i < out.len() - 1
        invariant
            1 <= out@.len(),
            i <= out@.len() - 1,
            compact_from(out@, i as int) == spec_trends(views),
        decreases out@.len() - i,
    {
        let ghost old_out = out@;
        let a = out[i];
        let b = out[i + 1];
        match (a, b) {
            (Trend::Rising { min, max: _ }, Trend::Rising { min: _, max }) => {
                let m = Trend::Rising { min, max };
                out[i] = m;
                out.remove(i + 1);
                proof {
                    assert(merge2(a, b) == Option::Some(m));
                    assert(out@ == old_out.update(i as int, m).remove(i as int + 1));
                    assert(compact_from(old_out, i as int) == compact_from(out@, i as int));
                }
            },
            (Trend::Falling { max, min: _ }, Trend::Falling { max: _, min }) => {
                let m = Trend::Falling { max, min };
                out[i] = m;
                out.remove(i + 1);
                proof {
                    assert(merge2(a, b) == Option::Some(m));
                    assert(out@ == old_out.update(i as int, m).remove(i as int + 1));
                    assert(compact_from(old_out, i as int) == compact_from(out@, i as int));
                }
            },
            (Trend::Constant(x), Trend::Constant(y)) => {
                if x == y {
                    out.remove(i + 1);
                    proof {
                        assert(merge2(a, b) == Option::Some(a));
                        assert(old_out.update(i as int, a) =~= old_out);
                        assert(out@ == old_out.update(i as int, a).remove(i as int + 1));
                        assert(compact_from(old_out, i as int) == compact_from(out@, i as int));
                    }
                } else {
                    proof {
                        assert(merge2(a, b) is None);
                        assert(compact_from(out@, i as int) == compact_from(out@, i as int + 1));
                    }
                    i = i + 1;
                }
            },
            _ => {
                proof {
                    assert(merge2(a, b) is None);
                    assert(compact_from(out@, i as int) == compact_from(out@, i as int + 1));
                }
                i = i + 1;
            },
        }
    }
    proof {
        lemma_compaction_idempotent(pass1(views));
        assert(compact_from(out@, i as int) == out@);
    }
    out
}

} // verus!
