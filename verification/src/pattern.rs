//! Declarative phase patterns and greedy conformance matching.
//!
//! A [`TimeSeriesPattern`] is built once from an ordered list of phases —
//! plateau at a value, monotonically rising, monotonically falling — and can
//! then be matched any number of times against raw sample sequences.
//! Matching is single-pass and greedy: each phase claims the maximal span
//! its rules allow and never reconsiders that choice.  Every failure is a
//! structured, recoverable [`MatchError`]; index arithmetic that could
//! underflow on short runs is guarded and mapped to a failure instead.

use vstd::prelude::*;
use vstd::slice::slice_index_get;

verus! {

/// One declarative element of a target pattern.  A phase carries no sample
/// data; `AtValue` names the plateau value it requires.
#[derive(Clone, Copy, Debug, PartialEq, Eq, Structural)]
pub enum Phase {
    MonotonicallyRising,
    MonotonicallyFalling,
    AtValue { value: i64 },
}

/// A structured matching failure.
///
/// `PreconditionViolation` rejects a pattern with no phases;
/// `PatternSpecificationError` rejects two adjacent phases of the same
/// monotonic direction, independent of the data; `NoSuchRun` reports a
/// required monotonic or initial-plateau run that is not present;
/// `ValueNotFound` reports a plateau value absent from the open window; and
/// `IncompleteConsumption` reports trailing samples no phase claimed.
#[derive(Clone, Copy, Debug, PartialEq, Eq, Structural)]
pub enum MatchError {
    PreconditionViolation,
    PatternSpecificationError { phase_index: usize },
    NoSuchRun { phase_index: usize },
    ValueNotFound { phase_index: usize, value: i64 },
    IncompleteConsumption { remaining: usize },
}

/// The first index at or after `from` where `s` stops being equal to `v`
/// (so `s[from .. eq_run_end(s, from, v)]` is the maximal run of `v`).
pub open spec fn eq_run_end(s: Seq<i64>, from: int, v: i64) -> int
    decreases s.len() - from,
{
    if from < 0 || from >= s.len() || s[from] != v {
        from
    } else {
        eq_run_end(s, from + 1, v)
    }
}

/// The exclusive end of the maximal non-decreasing (`rising`) or
/// non-increasing (`!rising`) run of `s` that starts at `from`; ties are
/// tolerated inside the run.  A run always spans at least the seed sample.
pub open spec fn mono_run_end(s: Seq<i64>, from: int, rising: bool) -> int
    decreases s.len() - from,
{
    if from < 0 || from + 1 >= s.len() {
        from + 1
    } else if (rising && s[from + 1] >= s[from]) || (!rising && s[from + 1] <= s[from]) {
        mono_run_end(s, from + 1, rising)
    } else {
        from + 1
    }
}

/// The first index in the inclusive window `[from, to]` where `s` holds `v`,
/// if any; an empty window finds nothing.
pub open spec fn find_value(s: Seq<i64>, from: int, to: int, v: i64) -> Option<int>
    decreases to + 1 - from,
{
    if from < 0 || from > to || to >= s.len() {
        Option::None
    } else if s[from] == v {
        Option::Some(from)
    } else {
        find_value(s, from + 1, to, v)
    }
}

/// The outcome of matching phases `i..` of `phases` against `s`, where the
/// phases before `i` have validated the inclusive window `[vs, ve]` (the
/// initial state is `i == 0`, `vs == ve == 0`).
///
/// A leading `AtValue` claims the maximal run of its value from index 0 and
/// requires a true plateau of at least two samples.  A monotonic phase after
/// a phase of the same direction is an invalid specification.  Any other
/// monotonic phase seeds at `vs + 1` and claims the maximal run from there,
/// failing unless some sample beyond the seed satisfies its relation.  A
/// later `AtValue` looks for its value from `vs + 1` but only inside the
/// window the previous phase validated, then claims the maximal run of that
/// value — which may extend past `ve`.  After the last phase the whole
/// sequence must be consumed: `ve` must be the last sample index.
pub open spec fn spec_match_from(
    phases: Seq<Phase>,
    s: Seq<i64>,
    i: int,
    vs: int,
    ve: int,
) -> Result<(), MatchError>
    decreases phases.len() - i,
{
    if i < 0 || i >= phases.len() {
        if ve + 1 < s.len() {
            Result::Err(MatchError::IncompleteConsumption { remaining: (s.len() - ve - 1) as usize })
        } else {
            Result::Ok(())
        }
    } else {
        match phases[i] {
            Phase::AtValue { value } => {
                if i == 0 {
                    let end = eq_run_end(s, 0, value);
                    if end < 2 {
                        Result::Err(MatchError::NoSuchRun { phase_index: i as usize })
                    } else {
                        spec_match_from(phases, s, i + 1, 0, end - 1)
                    }
                } else {
                    match find_value(s, vs + 1, ve, value) {
                        Option::None => Result::Err(
                            MatchError::ValueNotFound { phase_index: i as usize, value },
                        ),
                        Option::Some(at) => spec_match_from(
                            phases,
                            s,
                            i + 1,
                            at,
                            eq_run_end(s, at, value) - 1,
                        ),
                    }
                }
            },
            Phase::MonotonicallyRising | Phase::MonotonicallyFalling => {
                let rising = phases[i] is MonotonicallyRising;
                if i > 0 && phases[i - 1] == phases[i] {
                    Result::Err(MatchError::PatternSpecificationError { phase_index: i as usize })
                } else {
                    let nvs = vs + 1;
                    if nvs >= s.len() {
                        Result::Err(MatchError::NoSuchRun { phase_index: i as usize })
                    } else {
                        let end = mono_run_end(s, nvs, rising);
                        if end - nvs <= 1 {
                            Result::Err(MatchError::NoSuchRun { phase_index: i as usize })
                        } else {
                            spec_match_from(phases, s, i + 1, nvs, end - 1)
                        }
                    }
                }
            },
        }
    }
}

/// The outcome of matching a whole pattern: a pattern with no phases is an
/// invalid specification, rejected before any data is looked at.
pub open spec fn spec_matches(phases: Seq<Phase>, s: Seq<i64>) -> Result<(), MatchError> {
    if phases.len() == 0 {
        Result::Err(MatchError::PreconditionViolation)
    } else {
        spec_match_from(phases, s, 0, 0, 0)
    }
}

/// The end of a run of `v` never lies before its start.
proof fn lemma_eq_run_end_bounds(s: Seq<i64>, from: int, v: i64)
    requires
        0 <= from <= s.len(),
    ensures
        from <= eq_run_end(s, from, v) <= s.len(),
    decreases s.len() - from,
{
    if from < s.len() && s[from] == v {
        lemma_eq_run_end_bounds(s, from + 1, v);
    }
}

/// Walks to the end of the maximal run of `v` that starts at `from`.
fn eq_run_to(s: &[i64], from: usize, v: i64) -> (end: usize)
    requires
        from <= s@.len(),
    ensures
        end == eq_run_end(s@, from as int, v),
        from <= end <= s@.len(),
{
    let mut j = from;
    while j < s.len() && *slice_index_get(s, j) == v
        invariant
            from <= j <= s@.len(),
            eq_run_end(s@, j as int, v) == eq_run_end(s@, from as int, v),
        decreases s@.len() - j,
    {
        proof {
            assert(eq_run_end(s@, j as int, v) == eq_run_end(s@, j as int + 1, v));
        }
        j = j + 1;
    }
    proof {
        assert(eq_run_end(s@, j as int, v) == j as int);
    }
    j
}

/// Walks to the end of the maximal monotonic run seeded at `from`.
fn mono_run_to(s: &[i64], from: usize, rising: bool) -> (end: usize)
    requires
        from < s@.len(),
    ensures
        end == mono_run_end(s@, from as int, rising),
        from < end <= s@.len(),
{
    let sl = s.len();
    let mut j = from;
    while j + 1 < sl && ((rising && *slice_index_get(s, j + 1) >= *slice_index_get(s, j))
        || (!rising && *slice_index_get(s, j + 1) <= *slice_index_get(s, j)))
        invariant
            sl == s@.len(),
            from <= j < s@.len(),
            mono_run_end(s@, j as int, rising) == mono_run_end(s@, from as int, rising),
        decreases s@.len() - j,
    {
        proof {
            assert(mono_run_end(s@, j as int, rising) == mono_run_end(s@, j as int + 1, rising));
        }
        j = j + 1;
    }
    proof {
        assert(mono_run_end(s@, j as int, rising) == j as int + 1);
    }
    j + 1
}

/// Searches the inclusive window `[from, to]` for the first occurrence of `v`.
fn find_value_in(s: &[i64], from: usize, to: usize, v: i64) -> (r: Option<usize>)
    requires
        to < s@.len(),
    ensures
        (match r {
            Option::Some(k) => find_value(s@, from as int, to as int, v) == Option::Some(k as int)
                && from <= k <= to && s@[k as int] == v,
            Option::None => find_value(s@, from as int, to as int, v) is None,
        }),
{
    if from > to {
        return Option::None;
    }
    let sl = s.len();
    let mut j = from;
    while j <= to && *slice_index_get(s, j) != v
        invariant
            sl == s@.len(),
            from <= j <= to + 1,
            to < sl,
            find_value(s@, j as int, to as int, v) == find_value(s@, from as int, to as int, v),
        decreases to + 1 - j,
    {
        proof {
            assert(find_value(s@, j as int, to as int, v) == find_value(s@, j as int + 1, to as int, v));
        }
        j = j + 1;
    }
    if j <= to {
        Option::Some(j)
    } else {
        Option::None
    }
}

/// An immutable, reusable pattern: an ordered list of phases accumulated
/// through the fluent builder methods.  Its view is that phase sequence.
pub struct TimeSeriesPattern {
    phases: Vec<Phase>,
}

impl View for TimeSeriesPattern {
    type V = Seq<Phase>;

    closed spec fn view(&self) -> Seq<Phase> {
        self.phases@
    }
}

impl TimeSeriesPattern {
    /// Starts a pattern with no phases.  At least one phase must be added
    /// before matching; matching an empty pattern reports
    /// `PreconditionViolation`.
    pub fn new() -> (r: Self)
        ensures
            r@ == Seq::<Phase>::empty(),
    {
        TimeSeriesPattern { phases: Vec::new() }
    }

    /// Appends a monotonically rising phase.
    pub fn monotonically_rising(self) -> (r: Self)
        ensures
            r@ == self@.push(Phase::MonotonicallyRising),
    {
        let mut p = self;
        p.phases.push(Phase::MonotonicallyRising);
        p
    }

    /// Appends a monotonically falling phase.
    pub fn monotonically_falling(self) -> (r: Self)
        ensures
            r@ == self@.push(Phase::MonotonicallyFalling),
    {
        let mut p = self;
        p.phases.push(Phase::MonotonicallyFalling);
        p
    }

    /// Appends a plateau-at-`value` phase.
    pub fn at_value(self, value: i64) -> (r: Self)
        ensures
            r@ == self@.push(Phase::AtValue { value }),
    {
        let mut p = self;
        p.phases.push(Phase::AtValue { value });
        p
    }

    /// Greedily matches `samples` against this pattern, single-pass and
    /// without backtracking.  The outcome is exactly [`spec_matches`] of the
    /// phase list and the samples: `Ok` when the phases in order claim the
    /// whole sequence, and otherwise the structured failure that names the
    /// offending phase.
    pub fn matches(&self, samples: &[i64]) -> (r: Result<(), MatchError>)
        ensures
            r == spec_matches(self@, samples@),
    {
        let n = self.phases.len();
        if n == 0 {
            return Result::Err(MatchError::PreconditionViolation);
        }
        let sl = samples.len();
        let mut view_start: usize = 0;
        let mut view_end: usize = 0;
        let mut idx: usize = 0;
        while idx < n
            invariant
                n == self@.len(),
                sl == samples@.len(),
                0 < n,
                idx <= n,
                idx == 0 ==> view_start == 0 && view_end == 0,
                idx > 0 ==> view_start <= view_end && view_end < sl,
                spec_match_from(
                    self@,
                    samples@,
                    idx as int,
                    view_start as int,
                    view_end as int,
                ) == spec_matches(self@, samples@),
            decreases n - idx,
        {
            let ghost old_vs = view_start as int;
            let ghost old_ve = view_end as int;
            let phase = self.phases[idx];
            match phase {
                Phase::AtValue { value } => {
                    if idx == 0 {
                        let end = eq_run_to(samples, 0, value);
                        if end < 2 {
                            return Result::Err(MatchError::NoSuchRun { phase_index: idx });
                        }
                        view_start = 0;
                        view_end = end - 1;
                    } else {
                        match find_value_in(samples, view_start + 1, view_end, value) {
                            Option::None => {
                                return Result::Err(
                                    MatchError::ValueNotFound { phase_index: idx, value },
                                );
                            },
                            Option::Some(at) => {
                                let end = eq_run_to(samples, at, value);
                                proof {
                                    lemma_eq_run_end_bounds(samples@, at as int + 1, value);
                                    assert(eq_run_end(samples@, at as int, value) == eq_run_end(
                                        samples@,
                                        at as int + 1,
                                        value,
                                    ));
                                }
                                view_start = at;
                                view_end = end - 1;
                            },
                        }
                    }
                    proof {
                        assert(spec_match_from(self@, samples@, idx as int, old_vs, old_ve)
                            == spec_match_from(
                            self@,
                            samples@,
                            idx as int + 1,
                            view_start as int,
                            view_end as int,
                        ));
                    }
                },
                Phase::MonotonicallyRising | Phase::MonotonicallyFalling => {
                    let rising = matches!(phase, Phase::MonotonicallyRising);
                    proof {
                        assert(rising == (phase is MonotonicallyRising));
                    }
                    if idx > 0 && self.phases[idx - 1] == phase {
                        return Result::Err(
                            MatchError::PatternSpecificationError { phase_index: idx },
                        );
                    }
                    let nvs = view_start + 1;
                    if nvs >= samples.len() {
                        return Result::Err(MatchError::NoSuchRun { phase_index: idx });
                    }
                    let end = mono_run_to(samples, nvs, rising);
                    if end - nvs <= 1 {
                        return Result::Err(MatchError::NoSuchRun { phase_index: idx });
                    }
                    view_start = nvs;
                    view_end = end - 1;
                    proof {
                        assert(spec_match_from(self@, samples@, idx as int, old_vs, old_ve)
                            == spec_match_from(
                            self@,
                            samples@,
                            idx as int + 1,
                            view_start as int,
                            view_end as int,
                        ));
                    }
                },
            }
            idx = idx + 1;
        }
        if view_end + 1 < samples.len() {
            Result::Err(
                MatchError::IncompleteConsumption { remaining: samples.len() - view_end - 1 },
            )
        } else {
            Result::Ok(())
        }
    }
}

} // verus!
