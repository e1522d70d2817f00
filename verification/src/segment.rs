//! Splitting a sample sequence into maximal monotonic runs.
//!
//! [`vector_dir_change`] partitions its input into borrowed, contiguous
//! segments: concatenating the segments reproduces the input exactly, and
//! every segment is entirely non-decreasing or entirely non-increasing.
//! A tie between neighbouring samples never ends a run; it inherits the
//! direction already in force.

use vstd::prelude::*;
use vstd::slice::slice_index_get;
use vstd::slice::slice_subrange;

verus! {

/// Direction a run of samples is heading: `Pos` for (weakly) upward,
/// `Neg` for (weakly) downward.
#[derive(Clone, Copy, Debug, PartialEq, Eq, Structural)]
pub enum Dir {
    Pos,
    Neg,
}

/// Direction of the step from `b` to `a`, where `a` is the newer sample;
/// a tie keeps the direction `last_dir` already in force.
pub open spec fn spec_dir_of(a: i64, b: i64, last_dir: Dir) -> Dir {
    if a < b {
        Dir::Neg
    } else if a > b {
        Dir::Pos
    } else {
        last_dir
    }
}

/// `s` is entirely non-decreasing.
pub open spec fn non_decreasing(s: Seq<i64>) -> bool {
    forall|k: int, l: int| 0 <= k <= l < s.len() ==> s[k] <= s[l]
}

/// `s` is entirely non-increasing.
pub open spec fn non_increasing(s: Seq<i64>) -> bool {
    forall|k: int, l: int| 0 <= k <= l < s.len() ==> s[k] >= s[l]
}

/// `s` runs monotonically in one direction or the other.
pub open spec fn monotonic(s: Seq<i64>) -> bool {
    non_decreasing(s) || non_increasing(s)
}

/// The shape a run heading in direction `dir` must have.
pub open spec fn dir_monotone(s: Seq<i64>, dir: Dir) -> bool {
    match dir {
        Dir::Pos => non_decreasing(s),
        Dir::Neg => non_increasing(s),
    }
}

/// The segments still to come when the scan stands at index `i` with an open
/// run that began at `pos` and heads in direction `dir`.  A step whose
/// direction agrees with (or, on a tie, inherits) `dir` extends the open run;
/// any other step closes it at `i` (exclusive) and starts a new run there.
/// The final open run is always flushed when the scan ends.
pub open spec fn seg_from(data: Seq<i64>, pos: int, i: int, dir: Dir) -> Seq<Seq<i64>>
    decreases data.len() - i,
{
    if i < 1 || i >= data.len() {
        seq![data.subrange(pos, data.len() as int)]
    } else {
        let d = spec_dir_of(data[i], data[i - 1], dir);
        if d == dir {
            seg_from(data, pos, i + 1, dir)
        } else {
            seq![data.subrange(pos, i)] + seg_from(data, i, i + 1, d)
        }
    }
}

/// The full segmentation of `data`.  With two samples or fewer the whole
/// input — even an empty one — is returned as the single segment (direction
/// is ambiguous below three points); otherwise the scan starts at index 2
/// with the direction seeded from the first step, a tie seeding `Pos`.
pub open spec fn spec_segments(data: Seq<i64>) -> Seq<Seq<i64>> {
    if data.len() <= 2 {
        seq![data]
    } else {
        seg_from(data, 0, 2, spec_dir_of(data[1], data[0], Dir::Pos))
    }
}

/// The sample sequences that the borrowed segment slices point at.
pub open spec fn seg_views(segs: Seq<&[i64]>) -> Seq<Seq<i64>> {
    segs.map_values(|s: &[i64]| s@)
}

/// Concatenating the segments the scan still owes reproduces the suffix of
/// the data not yet closed into a segment, `data[pos..]`.
proof fn lemma_seg_from_flatten(data: Seq<i64>, pos: int, i: int, dir: Dir)
    requires
        0 <= pos < i <= data.len(),
        1 <= i,
    ensures
        seg_from(data, pos, i, dir).flatten() == data.subrange(pos, data.len() as int),
    decreases data.len() - i,
{
    if i >= data.len() {
        let single = seq![data.subrange(pos, data.len() as int)];
        assert(single.drop_first() =~= Seq::<Seq<i64>>::empty());
        assert(Seq::<Seq<i64>>::empty().flatten() == Seq::<i64>::empty());
        assert(single.flatten() =~= data.subrange(pos, data.len() as int));
    } else {
        let d = spec_dir_of(data[i], data[i - 1], dir);
        if d == dir {
            lemma_seg_from_flatten(data, pos, i + 1, dir);
        } else {
            lemma_seg_from_flatten(data, i, i + 1, d);
            let rest = seg_from(data, i, i + 1, d);
            let whole = seq![data.subrange(pos, i)] + rest;
            assert(whole.drop_first() =~= rest);
            assert(whole.first() == data.subrange(pos, i));
            assert(data.subrange(pos, i) + data.subrange(i, data.len() as int) =~= data.subrange(
                pos,
                data.len() as int,
            ));
        }
    }
}

/// Every segment the scan still owes is monotonic, provided the open run
/// `data[pos..i]` is monotonic in its claimed direction.
proof fn lemma_seg_from_monotonic(data: Seq<i64>, pos: int, i: int, dir: Dir)
    requires
        0 <= pos < i <= data.len(),
        1 <= i,
        dir_monotone(data.subrange(pos, i), dir),
    ensures
        forall|k: int|
            0 <= k < seg_from(data, pos, i, dir).len() ==> monotonic(
                #[trigger] seg_from(data, pos, i, dir)[k],
            ),
    decreases data.len() - i,
{
    if i >= data.len() {
        assert(data.subrange(pos, data.len() as int) == data.subrange(pos, i));
        assert(seg_from(data, pos, i, dir)[0] == data.subrange(pos, i));
    } else {
        let d = spec_dir_of(data[i], data[i - 1], dir);
        if d == dir {
            let s1 = data.subrange(pos, i);
            let s2 = data.subrange(pos, i + 1);
            match dir {
                Dir::Pos => {
                    assert(data[i] >= data[i - 1]);
                    assert forall|k: int, l: int| 0 <= k <= l < s2.len() implies s2[k] <= s2[l] by {
                        if l < s2.len() - 1 {
                            assert(s1[k] <= s1[l]);
                        } else if k < l {
                            assert(s1[k] <= s1[i - 1 - pos]);
                        }
                    }
                    assert(non_decreasing(s2));
                },
                Dir::Neg => {
                    assert(data[i] <= data[i - 1]);
                    assert forall|k: int, l: int| 0 <= k <= l < s2.len() implies s2[k] >= s2[l] by {
                        if l < s2.len() - 1 {
                            assert(s1[k] >= s1[l]);
                        } else if k < l {
                            assert(s1[k] >= s1[i - 1 - pos]);
                        }
                    }
                    assert(non_increasing(s2));
                },
            }
            lemma_seg_from_monotonic(data, pos, i + 1, dir);
            assert(seg_from(data, pos, i, dir) == seg_from(data, pos, i + 1, dir));
        } else {
            let s1 = data.subrange(pos, i);
            lemma_seg_from_monotonic(data, i, i + 1, d);
            let rest = seg_from(data, i, i + 1, d);
            let whole = seq![s1] + rest;
            assert forall|k: int| 0 <= k < whole.len() implies monotonic(whole[k]) by {
                if k == 0 {
                    assert(whole[0] == s1);
                } else {
                    assert(whole[k] == rest[k - 1]);
                }
            }
            assert(seg_from(data, pos, i, dir) == whole);
        }
    }
}

/// Direction of the step from `b` to `a`, inheriting `last_dir` on a tie.
fn get_dir(a: i64, b: i64, last_dir: Dir) -> (d: Dir)
    ensures
        d == spec_dir_of(a, b, last_dir),
{
    if a < b {
        Dir::Neg
    } else if a > b {
        Dir::Pos
    } else {
        last_dir
    }
}

/// Splits `data` into its maximal monotonic runs, as borrowed views.
///
/// The result is exactly [`spec_segments`] of the input; in particular the
/// segments partition `data` — concatenated they reproduce it with no gaps
/// or overlaps — and each one is monotonic.
pub fn vector_dir_change<'a>(data: &'a [i64]) -> (out: Vec<&'a [i64]>)
    ensures
        seg_views(out@) == spec_segments(data@),
        seg_views(out@).flatten() == data@,
        forall|k: int| 0 <= k < out@.len() ==> monotonic(#[trigger] out@[k]@),
{
    let mut out: Vec<&'a [i64]> = Vec::new();
    if data.len() <= 2 {
        out.push(data);
        proof {
            assert(seg_views(out@) =~= seq![data@]);
            assert(seq![data@].drop_first() =~= Seq::<Seq<i64>>::empty());
            assert(Seq::<Seq<i64>>::empty().flatten() == Seq::<i64>::empty());
            assert(seg_views(out@).flatten() =~= data@);
            if data@.len() == 2 && data@[0] > data@[1] {
                assert(non_increasing(data@));
            } else {
                assert(non_decreasing(data@));
            }
        }
        return out;
    }
    let mut dir = get_dir(*slice_index_get(data, 1), *slice_index_get(data, 0), Dir::Pos);
    let ghost dir0 = dir;
    let mut pos: usize = 0;
    let mut i: usize = 2;
    proof {
        assert(seg_views(out@) =~= Seq::<Seq<i64>>::empty());
        assert(seg_views(out@) + seg_from(data@, 0, 2, dir0) =~= seg_from(data@, 0, 2, dir0));
    }
    while i < data.len()
        invariant
            2 < data@.len(),
            2 <= i <= data@.len(),
            0 <= pos < i,
            spec_segments(data@) == seg_views(out@) + seg_from(
                data@,
                pos as int,
                i as int,
                dir,
            ),
        decreases data@.len() - i,
    {
        let c_dir = get_dir(*slice_index_get(data, i), *slice_index_get(data, i - 1), dir);
        if c_dir != dir {
            let ghost old_views = seg_views(out@);
            let seg = slice_subrange(data, pos, i);
            out.push(seg);
            proof {
                let rest = seg_from(data@, i as int, i as int + 1, c_dir);
                assert(seg_from(data@, pos as int, i as int, dir) == seq![
                    data@.subrange(pos as int, i as int),
                ] + rest);
                assert(seg_views(out@) =~= old_views.push(seg@));
                assert(seg_views(out@) + rest =~= old_views + seg_from(
                    data@,
                    pos as int,
                    i as int,
                    dir,
                ));
            }
            dir = c_dir;
            pos = i;
        } else {
            proof {
                assert(seg_from(data@, pos as int, i as int, dir) == seg_from(
                    data@,
                    pos as int,
                    i as int + 1,
                    dir,
                ));
            }
        }
        i = i + 1;
    }
    let ghost old_views = seg_views(out@);
    let seg = slice_subrange(data, pos, data.len());
    out.push(seg);
    proof {
        assert(seg_from(data@, pos as int, i as int, dir) == seq![
            data@.subrange(pos as int, data@.len() as int),
        ]);
        assert(seg_views(out@) =~= old_views.push(seg@));
        assert(seg_views(out@) =~= old_views + seg_from(data@, pos as int, i as int, dir));
        assert(seg_views(out@) == spec_segments(data@));
        lemma_seg_from_flatten(data@, 0, 2, dir0);
        assert(data@.subrange(0, data@.len() as int) =~= data@);
        if data@[0] <= data@[1] {
            assert(non_decreasing(data@.subrange(0, 2)));
        } else {
            assert(non_increasing(data@.subrange(0, 2)));
        }
        lemma_seg_from_monotonic(data@, 0, 2, dir0);
        assert forall|k: int| 0 <= k < out@.len() implies monotonic(#[trigger] out@[k]@) by {
            assert(seg_views(out@)[k] == out@[k]@);
            assert(monotonic(seg_from(data@, 0, 2, dir0)[k]));
        }
    }
    out
}

} // verus!
