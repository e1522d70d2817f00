//! Dropping short segments before trend extraction.
//!
//! Callers that want noise suppression run the segmenter's output through
//! [`remove_small_segments`] before summarizing it into trends; segments at
//! or below the length threshold are discarded, the rest keep their order.

use vstd::prelude::*;
use vstd::slice::slice_index_get;

verus! {

/// The segments of `segs` that are strictly longer than `threshold`,
/// in their original order.
pub open spec fn spec_filtered(segs: Seq<&[i64]>, threshold: usize) -> Seq<&[i64]> {
    segs.filter(|s: &[i64]| s@.len() > threshold)
}

/// Keeps only the segments whose length is strictly greater than
/// `threshold`, preserving their order.
pub fn remove_small_segments<'a>(segments: &[&'a [i64]], threshold: usize) -> (out: Vec<
    &'a [i64],
>)
    ensures
        out@ == spec_filtered(segments@, threshold),
{
    let mut out: Vec<&'a [i64]> = Vec::new();
    let mut j: usize = 0;
    while j < segments.len()
        invariant
            j <= segments@.len(),
            out@ == spec_filtered(segments@.take(j as int), threshold),
        decreases segments@.len() - j,
    {
        let seg = *slice_index_get(segments, j);
        if seg.len() > threshold {
            out.push(seg);
        }
        proof {
            reveal(Seq::filter);
            let t1 = segments@.take(j as int + 1);
            assert(t1.drop_last() =~= segments@.take(j as int));
            assert(t1.last() == seg);
            assert(spec_filtered(t1, threshold) == if seg@.len() > threshold {
                spec_filtered(segments@.take(j as int), threshold).push(seg)
            } else {
                spec_filtered(segments@.take(j as int), threshold)
            });
        }
        j = j + 1;
    }
    proof {
        assert(segments@.take(segments@.len() as int) =~= segments@);
    }
    out
}

} // verus!
