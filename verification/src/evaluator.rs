//! Matching of player taps against expected taps, and session statistics.

use vstd::prelude::*;

use crate::schedule::ExpectedTap;

verus! {

/// A single key press, captured from any input source (keyboard now,
/// audio/MIDI onset detection later).
#[derive(Debug, Clone, Copy, PartialEq, Eq, Structural)]
pub struct TimingEvent {
    /// Nanoseconds from the start of the session.
    pub at: u64,
}

/// Result of matching one player tap against the nearest expected tap.
#[derive(Debug, Clone, Copy, PartialEq, Eq, Structural)]
pub struct TapResult {
    pub expected: ExpectedTap,
    pub actual: TimingEvent,
    /// Signed deviation in nanoseconds. Positive = late, negative = early.
    pub deviation_ns: i128,
}

impl TapResult {
    pub fn is_scored(&self) -> (scored: bool)
        ensures
            scored == !self.expected.informational,
    {
        !self.expected.informational
    }
}

/// Aggregate statistics over the scored (non-informational) results of a
/// session. The mean deviation is `total_deviation_ns / scored_count`; the
/// standard deviation needs a square root and is computed by the caller.
#[derive(Debug, Clone, Copy, PartialEq, Eq, Structural)]
pub struct SessionSummary {
    pub scored_count: usize,
    /// Sum of the signed deviations of the scored results, in nanoseconds.
    pub total_deviation_ns: i128,
}

impl Default for SessionSummary {
    fn default() -> (summary: Self)
        ensures
            summary == (SessionSummary { scored_count: 0, total_deviation_ns: 0 }),
    {
        SessionSummary { scored_count: 0, total_deviation_ns: 0 }
    }
}

/// Absolute distance between two points in time.
pub open spec fn distance(a: u64, b: u64) -> nat {
    if a >= b {
        (a - b) as nat
    } else {
        (b - a) as nat
    }
}

/// Where a stable insertion puts `x` into `s`: right after the last
/// element (scanning from the end) whose time is at or before `x`'s.
pub open spec fn insert_pos(s: Seq<ExpectedTap>, x: ExpectedTap) -> int
    decreases s.len(),
{
    if s.len() == 0 {
        0
    } else if s.last().at <= x.at {
        s.len() as int
    } else {
        insert_pos(s.drop_last(), x)
    }
}

/// `s` sorted by time, stably (equal times keep their relative order).
pub open spec fn sort_by_time(s: Seq<ExpectedTap>) -> Seq<ExpectedTap>
    decreases s.len(),
{
    if s.len() == 0 {
        s
    } else {
        let rest = sort_by_time(s.drop_last());
        rest.insert(insert_pos(rest, s.last()), s.last())
    }
}

pub open spec fn is_sorted_by_time(s: Seq<ExpectedTap>) -> bool {
    forall|i: int, j: int| 0 <= i <= j < s.len() ==> s[i].at <= s[j].at
}

/// The abstract state of a [`TimingEvaluator`].
pub struct EvaluatorView {
    /// The expected taps, sorted by time.
    pub expected: Seq<ExpectedTap>,
    /// `matched[i]` iff `expected[i]` has already been consumed by a tap.
    pub matched: Seq<bool>,
    /// Maximum distance (nanoseconds) between a tap and the expected tap it
    /// is matched to.
    pub tolerance: u64,
}

/// `i` is the unmatched expected tap closest to `at`; among several at the
/// same distance, the earliest in the list.
pub open spec fn is_nearest_unmatched(v: EvaluatorView, at: u64, i: int) -> bool {
    &&& 0 <= i < v.expected.len()
    &&& !v.matched[i]
    &&& forall|j: int|
        0 <= j < v.expected.len() && !v.matched[j] ==> distance(v.expected[i].at, at) <= distance(
            v.expected[j].at,
            at,
        )
    &&& forall|j: int|
        0 <= j < i && !v.matched[j] ==> distance(v.expected[i].at, at) < distance(
            v.expected[j].at,
            at,
        )
}

/// The unmatched expected tap closest to `at`, if any is left.
pub open spec fn nearest_unmatched(v: EvaluatorView, at: u64) -> Option<int> {
    if exists|i: int| is_nearest_unmatched(v, at, i) {
        Some(choose|i: int| is_nearest_unmatched(v, at, i))
    } else {
        None
    }
}

/// The expected tap that a tap at `at` consumes: the nearest unmatched one,
/// provided it lies within tolerance.
pub open spec fn matched_slot(v: EvaluatorView, at: u64) -> Option<int> {
    match nearest_unmatched(v, at) {
        Some(i) => if distance(v.expected[i].at, at) <= v.tolerance {
            Some(i)
        } else {
            None
        },
        None => None,
    }
}

/// What recording `event` returns.
pub open spec fn record_result(v: EvaluatorView, event: TimingEvent) -> Option<TapResult> {
    match matched_slot(v, event.at) {
        Some(i) => Some(
            TapResult {
                expected: v.expected[i],
                actual: event,
                deviation_ns: (event.at - v.expected[i].at) as i128,
            },
        ),
        None => None,
    }
}

/// The evaluator's state after recording `event`.
pub open spec fn record_state(v: EvaluatorView, event: TimingEvent) -> EvaluatorView {
    match matched_slot(v, event.at) {
        Some(i) => EvaluatorView {
            expected: v.expected,
            matched: v.matched.update(i, true),
            tolerance: v.tolerance,
        },
        None => v,
    }
}

/// Number of scored (non-informational) results in `s`.
pub open spec fn scored_count(s: Seq<TapResult>) -> nat
    decreases s.len(),
{
    if s.len() == 0 {
        0
    } else {
        scored_count(s.drop_last()) + if s.last().expected.informational {
            0nat
        } else {
            1nat
        }
    }
}

/// Sum of the deviations of the scored results in `s`.
pub open spec fn scored_deviation_total(s: Seq<TapResult>) -> int
    decreases s.len(),
{
    if s.len() == 0 {
        0
    } else {
        scored_deviation_total(s.drop_last()) + if s.last().expected.informational {
            0int
        } else {
            s.last().deviation_ns as int
        }
    }
}

/// Matches incoming [`TimingEvent`]s against a fixed list of
/// [`ExpectedTap`]s and produces per-tap results.
///
/// A tap only matches an expected tap if it falls within `tolerance` of
/// it. Without such a window an accidental double tap would consume a
/// future expected slot far away in time, and every later tap would then be
/// matched one slot off; rejecting out-of-tolerance matches keeps a single
/// mis-tap a one-off error.
#[derive(Debug, Clone)]
pub struct TimingEvaluator {
    expected: Vec<ExpectedTap>,
    matched: Vec<bool>,
    tolerance: u64,
}

impl View for TimingEvaluator {
    type V = EvaluatorView;

    closed spec fn view(&self) -> EvaluatorView {
        EvaluatorView { expected: self.expected@, matched: self.matched@, tolerance: self.tolerance }
    }
}

impl TimingEvaluator {
    /// The evaluator's internal invariant: one matched flag per expected
    /// tap, expected taps sorted by time.
    pub closed spec fn wf(&self) -> bool {
        &&& self.expected@.len() == self.matched@.len()
        &&& is_sorted_by_time(self.expected@)
    }

    /// What well-formedness means for the abstract state.
    pub proof fn lemma_wf(&self)
        requires
            self.wf(),
        ensures
            self@.expected.len() == self@.matched.len(),
            is_sorted_by_time(self@.expected),
    {
    }

    /// `tolerance` (nanoseconds) is the maximum allowed distance between a
    /// tap and its nearest expected tap for them to be considered a match.
    /// Callers should derive it from the schedule's beat spacing (e.g. half
    /// a beat) rather than hardcode it.
    pub fn new(expected: Vec<ExpectedTap>, tolerance: u64) -> (evaluator: Self)
        ensures
            evaluator.wf(),
            evaluator@.expected == sort_by_time(expected@),
            evaluator@.expected.to_multiset() == expected@.to_multiset(),
            evaluator@.matched == Seq::new(expected@.len(), |i: int| false),
            evaluator@.tolerance == tolerance,
            evaluator@ == fresh_view(expected@, tolerance),
    {
        let mut sorted: Vec<ExpectedTap> = Vec::new();
        let mut i: usize = 0;
        while i < expected.len()
            invariant
                i <= expected@.len(),
                sorted@ == sort_by_time(expected@.take(i as int)),
            decreases expected@.len() - i,
        {
            let x = expected[i];
            let mut pos: usize = sorted.len();
            assert(sorted@.take(pos as int) == sorted@);
            while pos > 0 && sorted[pos - 1].at > x.at
                invariant
                    pos <= sorted@.len(),
                    insert_pos(sorted@, x) == insert_pos(sorted@.take(pos as int), x),
                decreases pos,
            {
                assert(sorted@.take(pos as int).drop_last() == sorted@.take(pos - 1));
                pos = pos - 1;
            }
            assert(insert_pos(sorted@.take(pos as int), x) == pos);
            assert(sorted@.take(sorted@.len() as int) == sorted@);
            sorted.insert(pos, x);
            assert(expected@.take(i + 1).drop_last() == expected@.take(i as int));
            assert(expected@.take(i + 1).last() == x);
            i = i + 1;
        }
        assert(expected@.take(expected@.len() as int) == expected@);
        proof {
            lemma_sort_by_time_sorted(expected@);
            lemma_sort_by_time_permutes(expected@);
        }
        let matched = vec![false; expected.len()];
        let evaluator = TimingEvaluator { expected: sorted, matched, tolerance };
        assert(evaluator@.matched == Seq::new(expected@.len(), |i: int| false));
        evaluator
    }

    /// Matches a single tap against the closest not-yet-matched expected
    /// tap, provided it falls within tolerance. Each expected tap can only
    /// be consumed once. Returns `None` (and leaves the evaluator unchanged)
    /// if no unmatched expected tap lies within tolerance.
    pub fn record(&mut self, event: TimingEvent) -> (result: Option<TapResult>)
        requires
            old(self).wf(),
        ensures
            final(self).wf(),
            result == record_result(old(self)@, event),
            final(self)@ == record_state(old(self)@, event),
    {
        let ghost v = self@;
        let mut best: Option<usize> = None;
        let mut best_distance: u64 = 0;
        let mut idx: usize = 0;
        while idx < self.expected.len()
            invariant
                self@ == v,
                self.wf(),
                idx <= v.expected.len(),
                match best {
                    Some(b) => {
                        &&& b < idx
                        &&& !v.matched[b as int]
                        &&& best_distance == distance(v.expected[b as int].at, event.at)
                        &&& forall|j: int|
                            0 <= j < idx && !v.matched[j] ==> best_distance <= distance(
                                v.expected[j].at,
                                event.at,
                            )
                        &&& forall|j: int|
                            0 <= j < b && !v.matched[j] ==> best_distance < distance(
                                v.expected[j].at,
                                event.at,
                            )
                    },
                    None => forall|j: int| 0 <= j < idx ==> v.matched[j],
                },
            decreases v.expected.len() - idx,
        {
            if !self.matched[idx] {
                let d = abs_duration_diff(self.expected[idx].at, event.at);
                match best {
                    None => {
                        best = Some(idx);
                        best_distance = d;
                    },
                    Some(_) => {
                        if d < best_distance {
                            best = Some(idx);
                            best_distance = d;
                        }
                    },
                }
            }
            idx = idx + 1;
        }
        match best {
            None => {
                proof {
                    assert(!(exists|i: int| is_nearest_unmatched(v, event.at, i)));
                }
                None
            },
            Some(b) => {
                proof {
                    assert(is_nearest_unmatched(v, event.at, b as int));
                    lemma_nearest_unique(v, event.at, b as int);
                }
                if best_distance > self.tolerance {
                    None
                } else {
                    self.matched.set(b, true);
                    let expected = self.expected[b];
                    Some(
                        TapResult {
                            expected,
                            actual: event,
                            deviation_ns: signed_diff_ns(event.at, expected.at),
                        },
                    )
                }
            },
        }
    }

    /// Builds an aggregate [`SessionSummary`] from a batch of results
    /// (typically everything returned by [`Self::record`] over a session).
    /// Only scored (non-informational) results contribute to the summary.
    pub fn summarize(results: &[TapResult]) -> (summary: SessionSummary)
        requires
            results@.len() <= i64::MAX,
            forall|i: int|
                0 <= i < results@.len() ==> -(u64::MAX as int) <= #[trigger] results@[i].deviation_ns
                    <= u64::MAX,
        ensures
            summary.scored_count == scored_count(results@),
            summary.total_deviation_ns == scored_deviation_total(results@),
    {
        let mut count: usize = 0;
        let mut total: i128 = 0;
        let mut i: usize = 0;
        while i < results.len()
            invariant
                i <= results@.len(),
                results@.len() <= i64::MAX,
                forall|k: int|
                    0 <= k < results@.len() ==> -(u64::MAX as int) <= #[trigger] results@[k].deviation_ns
                        <= u64::MAX,
                count == scored_count(results@.take(i as int)),
                total == scored_deviation_total(results@.take(i as int)),
                count <= i,
                -(i * (u64::MAX as int)) <= total <= i * (u64::MAX as int),
            decreases results@.len() - i,
        {
            assert(results@.take(i + 1).drop_last() == results@.take(i as int));
            let r = results[i];
            if r.is_scored() {
                count = count + 1;
                total = total + r.deviation_ns;
            }
            i = i + 1;
        }
        assert(results@.take(results@.len() as int) == results@);
        SessionSummary { scored_count: count, total_deviation_ns: total }
    }
}

/// Absolute difference of two points in time.
fn abs_duration_diff(a: u64, b: u64) -> (d: u64)
    ensures
        d == distance(a, b),
{
    if a >= b {
        a - b
    } else {
        b - a
    }
}

/// `actual - expected`, signed: positive when `actual` is late.
fn signed_diff_ns(actual: u64, expected: u64) -> (d: i128)
    ensures
        d == actual - expected,
{
    actual as i128 - expected as i128
}

/// The slot a tap consumes is an unmatched expected tap within tolerance.
pub proof fn lemma_matched_slot(v: EvaluatorView, at: u64)
    ensures
        matched_slot(v, at) matches Some(i) ==> {
            &&& is_nearest_unmatched(v, at, i)
            &&& distance(v.expected[i].at, at) <= v.tolerance
        },
{
}

/// At most one expected tap is the nearest unmatched one.
pub proof fn lemma_nearest_unique(v: EvaluatorView, at: u64, i: int)
    requires
        is_nearest_unmatched(v, at, i),
    ensures
        nearest_unmatched(v, at) == Some(i),
{
    let c = choose|k: int| is_nearest_unmatched(v, at, k);
    assert(is_nearest_unmatched(v, at, c));
    if c < i {
        assert(distance(v.expected[i].at, at) < distance(v.expected[c].at, at));
    } else if i < c {
        assert(distance(v.expected[c].at, at) < distance(v.expected[i].at, at));
    }
}

/// Some unmatched expected tap among the first `n` is nearest to `at`
/// among those `n` (earliest on ties), if any of them is unmatched.
proof fn lemma_nearest_in_prefix(v: EvaluatorView, at: u64, n: int) -> (best: Option<int>)
    requires
        0 <= n <= v.expected.len(),
        v.matched.len() == v.expected.len(),
    ensures
        match best {
            Some(b) => {
                &&& 0 <= b < n
                &&& !v.matched[b]
                &&& forall|j: int|
                    0 <= j < n && !v.matched[j] ==> distance(v.expected[b].at, at) <= distance(
                        v.expected[j].at,
                        at,
                    )
                &&& forall|j: int|
                    0 <= j < b && !v.matched[j] ==> distance(v.expected[b].at, at) < distance(
                        v.expected[j].at,
                        at,
                    )
            },
            None => forall|j: int| 0 <= j < n ==> v.matched[j],
        },
    decreases n,
{
    if n == 0 {
        None
    } else {
        let rest = lemma_nearest_in_prefix(v, at, n - 1);
        if v.matched[n - 1] {
            rest
        } else {
            match rest {
                None => Some(n - 1),
                Some(b) => if distance(v.expected[n - 1].at, at) < distance(v.expected[b].at, at) {
                    Some(n - 1)
                } else {
                    Some(b)
                },
            }
        }
    }
}

/// A tap within tolerance of some unmatched expected tap is always
/// accepted: it consumes the nearest unmatched one, which is at least as
/// close.
pub proof fn lemma_tap_within_tolerance_is_matched(v: EvaluatorView, at: u64, j: int)
    requires
        v.matched.len() == v.expected.len(),
        0 <= j < v.expected.len(),
        !v.matched[j],
        distance(v.expected[j].at, at) <= v.tolerance,
    ensures
        matched_slot(v, at) is Some,
        record_result(v, TimingEvent { at }) is Some,
{
    let best = lemma_nearest_in_prefix(v, at, v.expected.len() as int);
    let b = best->0;
    assert(is_nearest_unmatched(v, at, b));
    lemma_nearest_unique(v, at, b);
}

/// A tap farther than the tolerance from every unmatched expected tap is
/// rejected and leaves the evaluator unchanged: an accidental double tap
/// consumes nothing and cannot shift later matches.
pub proof fn lemma_far_tap_is_rejected(v: EvaluatorView, event: TimingEvent)
    requires
        forall|j: int|
            0 <= j < v.expected.len() && !v.matched[j] ==> distance(v.expected[j].at, event.at)
                > v.tolerance,
    ensures
        record_result(v, event) is None,
        record_state(v, event) == v,
{
    lemma_matched_slot(v, event.at);
}

/// An expected tap is consumed at most once: a recorded tap consumes an
/// expected tap that was still unmatched, marks exactly that one, and the
/// result reports it with the signed deviation (late = positive), which
/// lies within tolerance.
pub proof fn lemma_recorded_tap(v: EvaluatorView, event: TimingEvent)
    requires
        v.matched.len() == v.expected.len(),
        record_result(v, event) is Some,
    ensures
        matched_slot(v, event.at) matches Some(i) && {
            let r = record_result(v, event)->0;
            &&& !v.matched[i]
            &&& record_state(v, event).matched[i]
            &&& forall|j: int|
                0 <= j < v.matched.len() && j != i ==> record_state(v, event).matched[j]
                    == v.matched[j]
            &&& record_state(v, event).expected == v.expected
            &&& r.expected == v.expected[i]
            &&& r.actual == event
            &&& r.deviation_ns == event.at - v.expected[i].at
            &&& -(v.tolerance as int) <= r.deviation_ns <= v.tolerance
        },
{
    lemma_matched_slot(v, event.at);
}

/// Informational results never count towards the summary.
pub proof fn lemma_informational_result_not_counted(results: Seq<TapResult>, r: TapResult)
    requires
        r.expected.informational,
    ensures
        scored_count(results.push(r)) == scored_count(results),
        scored_deviation_total(results.push(r)) == scored_deviation_total(results),
{
    assert(results.push(r).drop_last() == results);
}

/// A scored result adds one to the count and its deviation to the total.
pub proof fn lemma_scored_result_counted(results: Seq<TapResult>, r: TapResult)
    requires
        !r.expected.informational,
    ensures
        scored_count(results.push(r)) == scored_count(results) + 1,
        scored_deviation_total(results.push(r)) == scored_deviation_total(results) + r.deviation_ns,
{
    assert(results.push(r).drop_last() == results);
}

/// For sorted `s`, `insert_pos` splits `s` into the elements at or before
/// `x` and those after it.
proof fn lemma_insert_pos(s: Seq<ExpectedTap>, x: ExpectedTap)
    requires
        is_sorted_by_time(s),
    ensures
        0 <= insert_pos(s, x) <= s.len(),
        forall|j: int| 0 <= j < insert_pos(s, x) ==> s[j].at <= x.at,
        forall|j: int| insert_pos(s, x) <= j < s.len() ==> s[j].at > x.at,
    decreases s.len(),
{
    if s.len() > 0 {
        if s.last().at > x.at {
            lemma_insert_pos(s.drop_last(), x);
            assert forall|j: int| 0 <= j < insert_pos(s, x) implies s[j].at <= x.at by {
                assert(s[j] == s.drop_last()[j]);
            }
            assert forall|j: int| insert_pos(s, x) <= j < s.len() implies s[j].at > x.at by {
                if j < s.len() - 1 {
                    assert(s[j] == s.drop_last()[j]);
                }
            }
        } else {
            assert forall|j: int| 0 <= j < insert_pos(s, x) implies s[j].at <= x.at by {
                assert(s[j].at <= s.last().at);
            }
        }
    }
}

/// [`sort_by_time`] returns a sorted sequence.
proof fn lemma_sort_by_time_sorted(s: Seq<ExpectedTap>)
    ensures
        is_sorted_by_time(sort_by_time(s)),
        sort_by_time(s).len() == s.len(),
    decreases s.len(),
{
    if s.len() > 0 {
        let rest = sort_by_time(s.drop_last());
        lemma_sort_by_time_sorted(s.drop_last());
        lemma_insert_pos(rest, s.last());
        let p = insert_pos(rest, s.last());
        let r = rest.insert(p, s.last());
        assert forall|i: int, j: int| 0 <= i <= j < r.len() implies r[i].at <= r[j].at by {
            if i < p && j > p {
                assert(r[i] == rest[i]);
                assert(r[j] == rest[j - 1]);
            }
        }
    }
}

/// [`sort_by_time`] only reorders its input.
proof fn lemma_sort_by_time_permutes(s: Seq<ExpectedTap>)
    ensures
        sort_by_time(s).to_multiset() == s.to_multiset(),
    decreases s.len(),
{
    broadcast use vstd::seq_lib::group_to_multiset_ensures;

    if s.len() > 0 {
        let rest = sort_by_time(s.drop_last());
        lemma_sort_by_time_sorted(s.drop_last());
        lemma_sort_by_time_permutes(s.drop_last());
        lemma_insert_pos(rest, s.last());
        let p = insert_pos(rest, s.last());
        let r = rest.insert(p, s.last());
        assert(r.remove(p) == rest);
        assert(r.to_multiset().remove(s.last()) == rest.to_multiset());
        assert(r.contains(s.last())) by {
            assert(r[p] == s.last());
        }
        assert(r.to_multiset() == rest.to_multiset().insert(s.last()));
        assert(s.drop_last().push(s.last()) == s);
    }
}

/// The evaluator's state and the results after recording `events` in
/// order, starting from `v`.
pub open spec fn record_all(v: EvaluatorView, events: Seq<TimingEvent>) -> (EvaluatorView, Seq<TapResult>)
    decreases events.len(),
{
    if events.len() == 0 {
        (v, Seq::empty())
    } else {
        let (w, results) = record_all(v, events.drop_last());
        let e = events.last();
        (
            record_state(w, e),
            match record_result(w, e) {
                Some(r) => results.push(r),
                None => results,
            },
        )
    }
}

/// The state of an evaluator that was just made from `expected` with
/// `tolerance` (see [`TimingEvaluator::new`]): sorted, nothing matched.
pub open spec fn fresh_view(expected: Seq<ExpectedTap>, tolerance: u64) -> EvaluatorView {
    EvaluatorView {
        expected: sort_by_time(expected),
        matched: Seq::new(expected.len(), |i: int| false),
        tolerance,
    }
}

/// Number of expected taps among the first `n` of `expected` that are not
/// matched and whose time satisfies `p`.
pub open spec fn unmatched_where(
    expected: Seq<ExpectedTap>,
    matched: Seq<bool>,
    p: spec_fn(u64) -> bool,
    n: int,
) -> nat
    decreases n,
{
    if n <= 0 {
        0
    } else {
        unmatched_where(expected, matched, p, n - 1) + if !matched[n - 1] && p(expected[n - 1].at) {
            1nat
        } else {
            0nat
        }
    }
}

/// Number of expected taps in `expected` whose time satisfies `p`.
pub open spec fn expected_where(expected: Seq<ExpectedTap>, p: spec_fn(u64) -> bool) -> nat
    decreases expected.len(),
{
    if expected.len() == 0 {
        0
    } else {
        expected_where(expected.drop_last(), p) + if p(expected.last().at) {
            1nat
        } else {
            0nat
        }
    }
}

/// Number of results whose expected tap's time satisfies `p`.
pub open spec fn results_where(results: Seq<TapResult>, p: spec_fn(u64) -> bool) -> nat
    decreases results.len(),
{
    if results.len() == 0 {
        0
    } else {
        results_where(results.drop_last(), p) + if p(results.last().expected.at) {
            1nat
        } else {
            0nat
        }
    }
}

/// Matching one more expected tap takes it off the unmatched count.
proof fn lemma_unmatched_where_update(
    expected: Seq<ExpectedTap>,
    matched: Seq<bool>,
    p: spec_fn(u64) -> bool,
    n: int,
    i: int,
)
    requires
        0 <= i < matched.len(),
        n <= matched.len(),
        !matched[i],
    ensures
        unmatched_where(expected, matched.update(i, true), p, n) + if i < n && p(expected[i].at) {
            1nat
        } else {
            0nat
        } == unmatched_where(expected, matched, p, n),
    decreases n,
{
    if n > 0 {
        lemma_unmatched_where_update(expected, matched, p, n - 1, i);
    }
}

/// At most every expected tap is unmatched; with nothing matched, every
/// one is.
proof fn lemma_unmatched_where_bound(
    expected: Seq<ExpectedTap>,
    matched: Seq<bool>,
    p: spec_fn(u64) -> bool,
    n: int,
)
    requires
        0 <= n <= expected.len(),
        n <= matched.len(),
    ensures
        unmatched_where(expected, matched, p, n) <= expected_where(expected.take(n), p),
        (forall|k: int| 0 <= k < n ==> !matched[k]) ==> unmatched_where(expected, matched, p, n)
            == expected_where(expected.take(n), p),
    decreases n,
{
    if n > 0 {
        lemma_unmatched_where_bound(expected, matched, p, n - 1);
        assert(expected.take(n).drop_last() == expected.take(n - 1));
    }
}

/// Recording a sequence of taps keeps the expected taps and the tolerance,
/// and every result consumes one unmatched expected tap: for any set of
/// times, the results at those times plus the expected taps at those times
/// still unmatched add up to those unmatched at the start.
proof fn lemma_record_all_accounts(v: EvaluatorView, events: Seq<TimingEvent>, p: spec_fn(u64) -> bool)
    requires
        v.matched.len() == v.expected.len(),
    ensures
        record_all(v, events).0.expected == v.expected,
        record_all(v, events).0.tolerance == v.tolerance,
        record_all(v, events).0.matched.len() == v.matched.len(),
        results_where(record_all(v, events).1, p) + unmatched_where(
            v.expected,
            record_all(v, events).0.matched,
            p,
            v.expected.len() as int,
        ) == unmatched_where(v.expected, v.matched, p, v.expected.len() as int),
    decreases events.len(),
{
    if events.len() > 0 {
        lemma_record_all_accounts(v, events.drop_last(), p);
        let (w, results) = record_all(v, events.drop_last());
        let e = events.last();
        lemma_matched_slot(w, e.at);
        match matched_slot(w, e.at) {
            Some(i) => {
                lemma_unmatched_where_update(w.expected, w.matched, p, w.expected.len() as int, i);
                let rs = results.push(record_result(w, e)->0);
                assert(rs.drop_last() == results);
            },
            None => {},
        }
    }
}

/// Each expected tap is consumed at most once, however many taps come:
/// for any set of times (one time, or all of them), recording a sequence of
/// taps on a fresh evaluator yields no more results at those times than
/// expected taps at those times, so bursts of duplicate presses cannot
/// inflate the score.
pub proof fn lemma_results_never_exceed_expected(
    expected: Seq<ExpectedTap>,
    tolerance: u64,
    events: Seq<TimingEvent>,
    p: spec_fn(u64) -> bool,
)
    ensures
        results_where(record_all(fresh_view(expected, tolerance), events).1, p) <= expected_where(
            expected,
            p,
        ),
{
    let v = fresh_view(expected, tolerance);
    lemma_sort_by_time_sorted(expected);
    lemma_sort_keeps_counts(expected, p);
    lemma_record_all_accounts(v, events, p);
    lemma_unmatched_where_bound(v.expected, v.matched, p, v.expected.len() as int);
    assert(v.expected.take(v.expected.len() as int) == v.expected);
}

/// Inserting a tap adds it to the count of its time.
proof fn lemma_insert_counts(s: Seq<ExpectedTap>, k: int, x: ExpectedTap, p: spec_fn(u64) -> bool)
    requires
        0 <= k <= s.len(),
    ensures
        expected_where(s.insert(k, x), p) == expected_where(s, p) + if p(x.at) {
            1nat
        } else {
            0nat
        },
    decreases s.len(),
{
    if k == s.len() {
        assert(s.insert(k, x).drop_last() == s);
    } else {
        lemma_insert_counts(s.drop_last(), k, x, p);
        assert(s.insert(k, x).drop_last() == s.drop_last().insert(k, x));
    }
}

/// Sorting keeps the number of taps at every set of times.
pub proof fn lemma_sort_keeps_counts(s: Seq<ExpectedTap>, p: spec_fn(u64) -> bool)
    ensures
        expected_where(sort_by_time(s), p) == expected_where(s, p),
    decreases s.len(),
{
    if s.len() > 0 {
        let rest = sort_by_time(s.drop_last());
        lemma_sort_keeps_counts(s.drop_last(), p);
        lemma_sort_by_time_sorted(s.drop_last());
        lemma_insert_pos(rest, s.last());
        lemma_insert_counts(rest, insert_pos(rest, s.last()), s.last(), p);
    }
}

/// No two taps of `s` are expected at the same time.
pub open spec fn distinct_times(s: Seq<ExpectedTap>) -> bool {
    forall|i: int, j: int| 0 <= i < s.len() && 0 <= j < s.len() && i != j ==> s[i].at != s[j].at
}

/// Orders taps by time, then scored before informational: a total order.
pub open spec fn tap_leq(a: ExpectedTap, b: ExpectedTap) -> bool {
    a.at < b.at || (a.at == b.at && (!a.informational || b.informational))
}

/// A sequence with the same taps as one without two taps at the same time
/// has no two taps at the same time either.
proof fn lemma_distinct_times_transfer(v: Seq<ExpectedTap>, x: Seq<ExpectedTap>)
    requires
        distinct_times(v),
        x.to_multiset() == v.to_multiset(),
    ensures
        distinct_times(x),
{
    broadcast use vstd::seq_lib::group_to_multiset_ensures;

    assert(v.no_duplicates());
    v.lemma_multiset_has_no_duplicates();
    x.lemma_multiset_has_no_duplicates_conv();
    assert forall|i: int, j: int|
        0 <= i < x.len() && 0 <= j < x.len() && i != j implies x[i].at != x[j].at by {
        assert(x.contains(x[i]));
        assert(x.contains(x[j]));
        assert(x.to_multiset().count(x[i]) > 0);
        assert(x.to_multiset().count(x[j]) > 0);
        assert(v.to_multiset().count(x[i]) > 0);
        assert(v.to_multiset().count(x[j]) > 0);
        assert(v.contains(x[i]));
        assert(v.contains(x[j]));
        let k = choose|k: int| 0 <= k < v.len() && v[k] == x[i];
        let l = choose|l: int| 0 <= l < v.len() && v[l] == x[j];
        assert(x[i] != x[j]);
    }
}

/// With no two taps at the same time, the order in which the caller lists
/// the expected taps does not matter: two evaluators made from the same
/// taps in any two orders hold the same sorted taps, and so give the same
/// result for every sequence of taps recorded on them.
pub proof fn lemma_caller_order_irrelevant_with_distinct_times(
    v: Seq<ExpectedTap>,
    w: Seq<ExpectedTap>,
    tolerance: u64,
    events: Seq<TimingEvent>,
)
    requires
        w.to_multiset() == v.to_multiset(),
        distinct_times(v),
    ensures
        fresh_view(v, tolerance) == fresh_view(w, tolerance),
        record_all(fresh_view(v, tolerance), events) == record_all(fresh_view(w, tolerance), events),
{
    broadcast use vstd::seq_lib::group_to_multiset_ensures;

    let x = sort_by_time(v);
    let y = sort_by_time(w);
    lemma_sort_by_time_sorted(v);
    lemma_sort_by_time_sorted(w);
    lemma_sort_by_time_permutes(v);
    lemma_sort_by_time_permutes(w);
    lemma_distinct_times_transfer(v, x);
    lemma_distinct_times_transfer(v, y);
    let leq = |a: ExpectedTap, b: ExpectedTap| tap_leq(a, b);
    assert(vstd::relations::total_ordering(leq));
    assert(vstd::relations::sorted_by(x, leq)) by {
        assert forall|i: int, j: int| 0 <= i < j < x.len() implies #[trigger] leq(x[i], x[j]) by {
            assert(x[i].at <= x[j].at);
            assert(x[i].at != x[j].at);
        }
    }
    assert(vstd::relations::sorted_by(y, leq)) by {
        assert forall|i: int, j: int| 0 <= i < j < y.len() implies #[trigger] leq(y[i], y[j]) by {
            assert(y[i].at <= y[j].at);
            assert(y[i].at != y[j].at);
        }
    }
    vstd::seq_lib::lemma_sorted_unique(x, y, leq);
    assert(v.len() == w.len());
    assert(fresh_view(v, tolerance).matched =~= fresh_view(w, tolerance).matched);
}

/// The taps of `s` expected at time `t`, in the order of `s`.
pub open spec fn taps_at(s: Seq<ExpectedTap>, t: u64) -> Seq<ExpectedTap>
    decreases s.len(),
{
    if s.len() == 0 {
        Seq::empty()
    } else if s.last().at == t {
        taps_at(s.drop_last(), t).push(s.last())
    } else {
        taps_at(s.drop_last(), t)
    }
}

/// Inserting a tap before only later taps puts it last among the taps at
/// its time.
proof fn lemma_taps_at_insert(s: Seq<ExpectedTap>, k: int, y: ExpectedTap, t: u64)
    requires
        0 <= k <= s.len(),
        forall|j: int| k <= j < s.len() ==> s[j].at > y.at,
    ensures
        taps_at(s.insert(k, y), t) == if y.at == t {
            taps_at(s, t).push(y)
        } else {
            taps_at(s, t)
        },
    decreases s.len(),
{
    if k == s.len() {
        assert(s.insert(k, y).drop_last() == s);
    } else {
        assert(s.insert(k, y).drop_last() == s.drop_last().insert(k, y));
        assert(s.insert(k, y).last() == s.last());
        lemma_taps_at_insert(s.drop_last(), k, y, t);
    }
}

/// Sorting is stable: the taps at any one time keep the caller's order.
pub proof fn lemma_sort_keeps_order_at_each_time(s: Seq<ExpectedTap>, t: u64)
    ensures
        taps_at(sort_by_time(s), t) == taps_at(s, t),
    decreases s.len(),
{
    if s.len() > 0 {
        let rest = sort_by_time(s.drop_last());
        lemma_sort_keeps_order_at_each_time(s.drop_last(), t);
        lemma_sort_by_time_sorted(s.drop_last());
        lemma_insert_pos(rest, s.last());
        lemma_taps_at_insert(rest, insert_pos(rest, s.last()), s.last(), t);
    }
}

/// A recorded tap consumes the first unmatched expected tap at its time, in
/// the evaluator's order: every expected tap at the same time before it was
/// already matched.
pub proof fn lemma_consumes_first_unmatched_at_its_time(v: EvaluatorView, at: u64)
    ensures
        matched_slot(v, at) matches Some(i) ==> forall|j: int|
            0 <= j < i && #[trigger] v.expected[j].at == v.expected[i].at ==> v.matched[j],
{
    lemma_matched_slot(v, at);
}

/// The first tap at its time in `x` is the first of the taps at that time.
proof fn lemma_first_at_time(x: Seq<ExpectedTap>, i: int)
    requires
        0 <= i < x.len(),
        forall|j: int| 0 <= j < i ==> x[j].at != x[i].at,
    ensures
        taps_at(x, x[i].at).len() > 0,
        taps_at(x, x[i].at)[0] == x[i],
    decreases x.len(),
{
    let t = x[i].at;
    if i < x.len() - 1 {
        lemma_first_at_time(x.drop_last(), i);
    } else {
        lemma_no_taps_at(x.drop_last(), t);
    }
}

/// Without a tap at time `t`, there are no taps at `t`.
proof fn lemma_no_taps_at(x: Seq<ExpectedTap>, t: u64)
    requires
        forall|j: int| 0 <= j < x.len() ==> x[j].at != t,
    ensures
        taps_at(x, t).len() == 0,
    decreases x.len(),
{
    if x.len() > 0 {
        lemma_no_taps_at(x.drop_last(), t);
    }
}

/// On a fresh evaluator, a tap is matched to the nearest expected tap; among
/// equally near ones to the earliest time, and among several expected at
/// that time to the first in the caller's order.
pub proof fn lemma_fresh_match_is_first_in_caller_order(
    expected: Seq<ExpectedTap>,
    tolerance: u64,
    event: TimingEvent,
)
    ensures
        record_result(fresh_view(expected, tolerance), event) matches Some(r) ==> {
            &&& taps_at(expected, r.expected.at).len() > 0
            &&& r.expected == taps_at(expected, r.expected.at)[0]
            &&& forall|j: int|
                0 <= j < expected.len() ==> distance(r.expected.at, event.at) <= distance(
                    #[trigger] expected[j].at,
                    event.at,
                )
            &&& forall|j: int|
                0 <= j < expected.len() && distance(r.expected.at, event.at) == distance(
                    #[trigger] expected[j].at,
                    event.at,
                ) ==> r.expected.at <= expected[j].at
        },
{
    broadcast use vstd::seq_lib::group_to_multiset_ensures;

    let v = fresh_view(expected, tolerance);
    lemma_sort_by_time_sorted(expected);
    lemma_sort_by_time_permutes(expected);
    lemma_matched_slot(v, event.at);
    if let Some(i) = matched_slot(v, event.at) {
        let x = v.expected;
        assert forall|j: int| 0 <= j < i implies x[j].at != x[i].at by {
            assert(!v.matched[j]);
        }
        lemma_first_at_time(x, i);
        lemma_sort_keeps_order_at_each_time(expected, x[i].at);
        assert forall|j: int| 0 <= j < expected.len() implies distance(
            x[i].at,
            event.at,
        ) <= distance(#[trigger] expected[j].at, event.at) by {
            assert(expected.to_multiset().count(expected[j]) > 0);
            assert(x.to_multiset().count(expected[j]) > 0);
            assert(x.contains(expected[j]));
            let k = choose|k: int| 0 <= k < x.len() && x[k] == expected[j];
            assert(!v.matched[k]);
        }
        assert forall|j: int|
            0 <= j < expected.len() && distance(x[i].at, event.at) == distance(
                #[trigger] expected[j].at,
                event.at,
            ) implies x[i].at <= expected[j].at by {
            assert(expected.to_multiset().count(expected[j]) > 0);
            assert(x.to_multiset().count(expected[j]) > 0);
            assert(x.contains(expected[j]));
            let k = choose|k: int| 0 <= k < x.len() && x[k] == expected[j];
            assert(!v.matched[k]);
            if k < i {
                assert(distance(x[i].at, event.at) < distance(x[k].at, event.at));
            } else {
                assert(x[i].at <= x[k].at);
            }
        }
    }
}

/// The correspondence between results and consumed slots, kept by every
/// recorded tap: each result reports a consumed expected tap, each consumed
/// expected tap is reported by a result, and no two results report the same
/// expected tap.
spec fn results_match_slots(v: EvaluatorView, results: Seq<TapResult>) -> bool {
    &&& forall|k: int|
        0 <= k < results.len() ==> exists|i: int|
            0 <= i < v.expected.len() && v.matched[i] && v.expected[i] == (#[trigger] results[k]).expected
    &&& forall|i: int|
        0 <= i < v.expected.len() && #[trigger] v.matched[i] ==> exists|k: int|
            0 <= k < results.len() && results[k].expected == v.expected[i]
}

proof fn lemma_record_all_matches_slots(v: EvaluatorView, events: Seq<TimingEvent>)
    requires
        v.matched.len() == v.expected.len(),
        distinct_times(v.expected),
        results_match_slots(v, Seq::empty()),
    ensures
        results_match_slots(record_all(v, events).0, record_all(v, events).1),
        record_all(v, events).0.expected == v.expected,
        record_all(v, events).0.matched.len() == v.matched.len(),
    decreases events.len(),
{
    if events.len() > 0 {
        lemma_record_all_matches_slots(v, events.drop_last());
        lemma_record_all_accounts(v, events.drop_last(), |t: u64| true);
        let (w, results) = record_all(v, events.drop_last());
        let e = events.last();
        lemma_matched_slot(w, e.at);
        if let Some(i) = matched_slot(w, e.at) {
            let r = record_result(w, e)->0;
            let w2 = record_state(w, e);
            let rs = results.push(r);
            assert forall|k: int| 0 <= k < rs.len() implies exists|j: int|
                0 <= j < w2.expected.len() && w2.matched[j] && w2.expected[j] == (
                #[trigger] rs[k]).expected by {
                if k < results.len() {
                    assert(rs[k] == results[k]);
                    let j = choose|j: int|
                        0 <= j < w.expected.len() && w.matched[j] && w.expected[j]
                            == results[k].expected;
                    assert(w2.matched[j]);
                } else {
                    assert(w2.matched[i]);
                }
            }
            assert forall|j: int|
                0 <= j < w2.expected.len() && #[trigger] w2.matched[j] implies exists|k: int|
                0 <= k < rs.len() && rs[k].expected == w2.expected[j] by {
                if j == i {
                    assert(rs[rs.len() - 1].expected == w2.expected[j]);
                } else {
                    assert(w.matched[j]);
                    let k = choose|k: int| 0 <= k < results.len() && results[k].expected == w.expected[j];
                    assert(rs[k] == results[k]);
                }
            }
        }
    }
}

/// With no two expected taps at the same time, the results of any
/// sequence of taps on a fresh evaluator are exactly the consumed expected
/// taps: an expected tap is consumed exactly when some result is at its
/// time, and the results plus the expected taps left unconsumed are all of
/// them.
pub proof fn lemma_results_are_the_consumed_taps(
    expected: Seq<ExpectedTap>,
    tolerance: u64,
    events: Seq<TimingEvent>,
)
    requires
        distinct_times(expected),
    ensures
        ({
            let (v, results) = record_all(fresh_view(expected, tolerance), events);
            &&& v.expected == sort_by_time(expected)
            &&& v.expected.len() == expected.len()
            &&& v.matched.len() == expected.len()
            &&& forall|i: int|
                0 <= i < expected.len() ==> (#[trigger] v.matched[i] <==> exists|k: int|
                    0 <= k < results.len() && results[k].expected.at == v.expected[i].at)
            &&& results.len() + unmatched_where(
                v.expected,
                v.matched,
                |t: u64| true,
                expected.len() as int,
            ) == expected.len()
        }),
{
    let f = fresh_view(expected, tolerance);
    lemma_sort_by_time_sorted(expected);
    lemma_sort_by_time_permutes(expected);
    lemma_distinct_times_transfer(expected, f.expected);
    lemma_record_all_matches_slots(f, events);
    lemma_record_all_accounts(f, events, |t: u64| true);
    lemma_unmatched_where_bound(f.expected, f.matched, |t: u64| true, expected.len() as int);
    lemma_sort_keeps_counts(expected, |t: u64| true);
    lemma_count_all(expected);
    assert(f.expected.take(expected.len() as int) == f.expected);
    let (v, results) = record_all(f, events);
    lemma_results_where_all(results);
    assert forall|i: int| 0 <= i < expected.len() implies (#[trigger] v.matched[i] <==> exists|k: int|
        0 <= k < results.len() && results[k].expected.at == v.expected[i].at) by {
        if v.matched[i] {
            let k = choose|k: int| 0 <= k < results.len() && results[k].expected == v.expected[i];
            assert(results[k].expected.at == v.expected[i].at);
        }
        if exists|k: int| 0 <= k < results.len() && results[k].expected.at == v.expected[i].at {
            let k = choose|k: int|
                0 <= k < results.len() && results[k].expected.at == v.expected[i].at;
            let j = choose|j: int|
                0 <= j < v.expected.len() && v.matched[j] && v.expected[j] == (
                #[trigger] results[k]).expected;
            assert(v.expected[j].at == v.expected[i].at);
        }
    }
}

/// Every tap counts when every time does.
proof fn lemma_count_all(s: Seq<ExpectedTap>)
    ensures
        expected_where(s, |t: u64| true) == s.len(),
    decreases s.len(),
{
    if s.len() > 0 {
        lemma_count_all(s.drop_last());
    }
}

/// Every result counts when every time does.
proof fn lemma_results_where_all(s: Seq<TapResult>)
    ensures
        results_where(s, |t: u64| true) == s.len(),
    decreases s.len(),
{
    if s.len() > 0 {
        lemma_results_where_all(s.drop_last());
    }
}

} // verus!
