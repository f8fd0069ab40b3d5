//! The decisions of a Rhythm Reader session: how long a repetition runs and
//! how tightly its taps are matched, which notes were missed, how the
//! repetitions add up, and which pattern comes next. Each repetition has its
//! own count-in and pattern; the loop (audio, input, rendering, pauses) runs
//! in the application.

use vstd::prelude::*;

use rand::Rng;

use crate::evaluator::{
    distinct_times, expected_where, fresh_view, record_all, record_result, record_state,
    unmatched_where, EvaluatorView, TapResult, TimingEvaluator, TimingEvent,
};
use crate::keyboard::{signal_of, KeyPress, KeyboardSignal, TAP_KEY};
use crate::rhythm_reader_ui::{states_after_result, NoteState, RhythmReaderState};
use crate::schedule::{ExpectedTap, Schedule};
use crate::schedules::rhythm_reader::{
    curated_pattern, curated_patterns, pattern_ticks, shortest_ticks, Pattern, PatternNote,
    RhythmReaderSchedule, CURATED_PATTERN_COUNT,
};
use crate::session::ResultScreenOutcome;
use crate::timing::beat_ns;

verus! {

/// Pause between repetitions before the next count-in starts, in
/// nanoseconds.
pub const INTER_REP_PAUSE_NS: u64 = 900_000_000;

/// Extra time after the last note of a repetition, so that it isn't
/// clipped, in nanoseconds.
pub const REPETITION_TAIL_NS: u64 = 200_000_000;

/// How many times drawing a pattern retries to avoid repeating the previous
/// one. A draw can keep landing on the same pattern, so retrying is capped
/// to guarantee termination; after the last retry the candidate is kept
/// even if it repeats.
pub const MAX_REPEAT_AVOIDANCE_ATTEMPTS: usize = 20;

pub struct RhythmReaderConfig {
    /// Tempo in beats per minute.
    pub bpm: u32,
    pub repetitions: u32,
}

/// Aggregated stats across every repetition in the session, shown on the
/// result screen.
#[derive(Debug, Clone)]
pub struct RhythmReaderSummary {
    pub all_results: Vec<TapResult>,
    pub missed_notes: usize,
    pub mistaps: usize,
    pub total_expected_notes: usize,
}

impl RhythmReaderSummary {
    /// A summary of no repetitions.
    pub fn new() -> (summary: Self)
        ensures
            summary.all_results@.len() == 0,
            summary.missed_notes == 0,
            summary.mistaps == 0,
            summary.total_expected_notes == 0,
    {
        RhythmReaderSummary {
            all_results: Vec::new(),
            missed_notes: 0,
            mistaps: 0,
            total_expected_notes: 0,
        }
    }

    /// Adds one repetition's results and counts.
    pub fn add_repetition(
        &mut self,
        results: Vec<TapResult>,
        missed: usize,
        mistaps: usize,
        expected_count: usize,
    )
        requires
            old(self).missed_notes + missed <= usize::MAX,
            old(self).mistaps + mistaps <= usize::MAX,
            old(self).total_expected_notes + expected_count <= usize::MAX,
        ensures
            final(self).all_results@ == old(self).all_results@ + results@,
            final(self).missed_notes == old(self).missed_notes + missed,
            final(self).mistaps == old(self).mistaps + mistaps,
            final(self).total_expected_notes == old(self).total_expected_notes + expected_count,
    {
        let mut results = results;
        self.all_results.append(&mut results);
        self.missed_notes = self.missed_notes + missed;
        self.mistaps = self.mistaps + mistaps;
        self.total_expected_notes = self.total_expected_notes + expected_count;
    }

    /// Notes hit: expected notes that were not missed. (The hit rate is
    /// this over `total_expected_notes`.)
    pub fn hits(&self) -> (hits: usize)
        requires
            self.missed_notes <= self.total_expected_notes,
        ensures
            hits == self.total_expected_notes - self.missed_notes,
    {
        self.total_expected_notes - self.missed_notes
    }
}

/// Some result was matched to an expected tap at `at`.
pub open spec fn has_result_at(results: Seq<TapResult>, at: u64) -> bool {
    exists|i: int| 0 <= i < results.len() && (#[trigger] results[i]).expected.at == at
}

/// Number of expected taps that no result was matched to.
pub open spec fn missed_count(results: Seq<TapResult>, expected: Seq<ExpectedTap>) -> nat
    decreases expected.len(),
{
    if expected.len() == 0 {
        0
    } else {
        missed_count(results, expected.drop_last()) + if has_result_at(
            results,
            expected.last().at,
        ) {
            0nat
        } else {
            1nat
        }
    }
}

/// At most every expected tap is missed; none is when each has a result,
/// and all are when there are no results.
pub proof fn lemma_missed_bounds(results: Seq<TapResult>, expected: Seq<ExpectedTap>)
    ensures
        missed_count(results, expected) <= expected.len(),
        (forall|i: int| 0 <= i < expected.len() ==> has_result_at(results, #[trigger] expected[i].at))
            ==> missed_count(results, expected) == 0,
        results.len() == 0 ==> missed_count(results, expected) == expected.len(),
    decreases expected.len(),
{
    if expected.len() > 0 {
        lemma_missed_bounds(results, expected.drop_last());
        if forall|i: int| 0 <= i < expected.len() ==> has_result_at(results, #[trigger] expected[i].at) {
            assert forall|i: int| 0 <= i < expected.drop_last().len() implies has_result_at(
                results,
                #[trigger] expected.drop_last()[i].at,
            ) by {
                assert(expected.drop_last()[i] == expected[i]);
            }
            assert(has_result_at(results, expected[expected.len() - 1].at));
        }
    }
}

/// The missed taps are the expected taps at times that no result is at.
proof fn lemma_missed_by_time(results: Seq<TapResult>, expected: Seq<ExpectedTap>)
    ensures
        missed_count(results, expected) == expected_where(
            expected,
            |t: u64| !has_result_at(results, t),
        ),
    decreases expected.len(),
{
    if expected.len() > 0 {
        lemma_missed_by_time(results, expected.drop_last());
    }
}

/// Counting the taps at times without a result is counting the unconsumed
/// slots, where a slot is unconsumed exactly when no result is at its time.
proof fn lemma_missed_are_unconsumed(
    x: Seq<ExpectedTap>,
    matched: Seq<bool>,
    results: Seq<TapResult>,
    n: int,
)
    requires
        0 <= n <= x.len(),
        n <= matched.len(),
        forall|i: int| 0 <= i < n ==> (!#[trigger] matched[i] <==> !has_result_at(results, x[i].at)),
    ensures
        expected_where(x.take(n), |t: u64| !has_result_at(results, t)) == unmatched_where(
            x,
            matched,
            |t: u64| true,
            n,
        ),
    decreases n,
{
    if n > 0 {
        lemma_missed_are_unconsumed(x, matched, results, n - 1);
        assert(x.take(n).drop_last() == x.take(n - 1));
        assert(!matched[n - 1] <==> !has_result_at(results, x[n - 1].at));
    }
}

/// With no two expected taps at the same time, the taps matched and the
/// taps missed add up to the expected taps: whatever taps come, each
/// expected tap is either hit by exactly one result or missed.
pub proof fn lemma_hits_and_misses_add_up(
    expected: Seq<ExpectedTap>,
    tolerance: u64,
    events: Seq<TimingEvent>,
)
    requires
        distinct_times(expected),
    ensures
        record_all(fresh_view(expected, tolerance), events).1.len() + missed_count(
            record_all(fresh_view(expected, tolerance), events).1,
            expected,
        ) == expected.len(),
{
    crate::evaluator::lemma_results_are_the_consumed_taps(expected, tolerance, events);
    let (v, results) = record_all(fresh_view(expected, tolerance), events);
    lemma_missed_by_time(results, expected);
    crate::evaluator::lemma_sort_keeps_counts(expected, |t: u64| !has_result_at(results, t));
    assert forall|i: int| 0 <= i < expected.len() implies (!#[trigger] v.matched[i]
        <==> !has_result_at(results, v.expected[i].at)) by {
        if has_result_at(results, v.expected[i].at) {
            let k = choose|k: int|
                0 <= k < results.len() && (#[trigger] results[k]).expected.at == v.expected[i].at;
            assert(results[k].expected.at == v.expected[i].at);
        }
        if v.matched[i] {
            let k = choose|k: int|
                0 <= k < results.len() && results[k].expected.at == v.expected[i].at;
            assert(results[k].expected.at == v.expected[i].at);
        }
    }
    lemma_missed_are_unconsumed(v.expected, v.matched, results, expected.len() as int);
    assert(v.expected.take(expected.len() as int) == v.expected);
}

/// Whether some result was matched to an expected tap at `at`.
fn result_at(results: &[TapResult], at: u64) -> (found: bool)
    ensures
        found == has_result_at(results@, at),
{
    let mut i: usize = 0;
    while i < results.len()
        invariant
            i <= results@.len(),
            forall|k: int| 0 <= k < i ==> (#[trigger] results@[k]).expected.at != at,
        decreases results@.len() - i,
    {
        if results[i].expected.at == at {
            return true;
        }
        i = i + 1;
    }
    false
}

/// Counts the expected taps that never got matched by a recorded result.
pub fn count_missed(results: &[TapResult], expected_taps: &[ExpectedTap]) -> (missed: usize)
    ensures
        missed == missed_count(results@, expected_taps@),
{
    let mut missed: usize = 0;
    let mut i: usize = 0;
    while i < expected_taps.len()
        invariant
            i <= expected_taps@.len(),
            missed <= i,
            missed == missed_count(results@, expected_taps@.take(i as int)),
        decreases expected_taps@.len() - i,
    {
        assert(expected_taps@.take(i + 1).drop_last() == expected_taps@.take(i as int));
        if !result_at(results, expected_taps[i].at) {
            missed = missed + 1;
        }
        i = i + 1;
    }
    assert(expected_taps@.take(expected_taps@.len() as int) == expected_taps@);
    missed
}

/// One repetition in progress: its expected taps and the evaluator that
/// matches taps against them, the results and the mistaps so far, and the
/// note display.
pub struct RepetitionRun {
    expected_taps: Vec<ExpectedTap>,
    evaluator: TimingEvaluator,
    results: Vec<TapResult>,
    mistaps: usize,
    display: RhythmReaderState,
    /// The taps recorded so far.
    taps: Ghost<Seq<TimingEvent>>,
}

impl RepetitionRun {
    /// The run's internal invariant: a well-formed evaluator and display.
    pub closed spec fn wf(&self) -> bool {
        &&& self.evaluator.wf()
        &&& self.display.wf()
        &&& distinct_times(self.expected_taps@)
        &&& (self.evaluator@, self.results@) == record_all(
            fresh_view(self.expected_taps@, self.evaluator@.tolerance),
            self.taps@,
        )
    }

    /// The expected taps of the repetition, in schedule order.
    pub closed spec fn spec_expected_taps(&self) -> Seq<ExpectedTap> {
        self.expected_taps@
    }

    pub closed spec fn spec_evaluator(&self) -> EvaluatorView {
        self.evaluator@
    }

    /// The results so far, in the order the taps came.
    pub closed spec fn spec_results(&self) -> Seq<TapResult> {
        self.results@
    }

    /// Taps that matched no expected tap (saturating).
    pub closed spec fn spec_mistaps(&self) -> usize {
        self.mistaps
    }

    pub closed spec fn spec_display(&self) -> RhythmReaderState {
        self.display
    }

    /// Repetition `rep_index` (from 0) of `total_reps` of `schedule`: its
    /// expected taps over [`repetition_duration`], matched within
    /// [`repetition_tolerance`]; nothing tapped yet, every note pending.
    pub fn new(schedule: &RhythmReaderSchedule, rep_index: u32, total_reps: u32) -> (run: Self)
        ensures
            run.wf(),
            run.spec_expected_taps() == schedule.tap_plan(
                repetition_length(schedule.spec_bpm(), schedule.spec_pattern()) as u64,
            ),
            run.spec_evaluator().matched == Seq::new(run.spec_expected_taps().len(), |i: int| false),
            run.spec_evaluator().tolerance == (beat_ns(schedule.spec_bpm()) * shortest_ticks(
                schedule.spec_pattern(),
            )) / 8,
            run.spec_evaluator().expected.to_multiset() == run.spec_expected_taps().to_multiset(),
            run.spec_results().len() == 0,
            run.spec_mistaps() == 0,
            run.spec_display().spec_bpm() == schedule.spec_bpm(),
            run.spec_display().spec_pattern() == schedule.spec_pattern(),
            run.spec_display().spec_count_in() == 4 * beat_ns(schedule.spec_bpm()),
            run.spec_display().spec_note_states() == Seq::new(
                schedule.spec_pattern().len(),
                |i: int| NoteState::Pending,
            ),
            run.spec_display().spec_elapsed() == 0,
            run.spec_display().spec_last_mistap_at() is None,
            run.spec_display().spec_repetition() == (rep_index, total_reps),
    {
        let duration = repetition_duration(schedule);
        let expected_taps = schedule.expected_taps(duration);
        let tolerance = repetition_tolerance(schedule);
        let evaluator = TimingEvaluator::new(expected_taps.clone(), tolerance);
        let display = RhythmReaderState::new(
            schedule.bpm(),
            schedule.pattern().clone(),
            schedule.count_in_duration(),
            rep_index,
            total_reps,
        );
        proof {
            crate::schedules::rhythm_reader::lemma_taps_strictly_increase(*schedule, duration);
        }
        let run = RepetitionRun {
            expected_taps,
            evaluator,
            results: Vec::new(),
            mistaps: 0,
            display,
            taps: Ghost(Seq::empty()),
        };
        assert(run.results@ == Seq::<TapResult>::empty());
        run
    }

    /// Matches one tap (already in the repetition's time domain and offset
    /// corrected) seen at repetition time `now`: a match is kept and lights
    /// its note; a tap that matches nothing is a mistap and flashes.
    pub fn on_tap(&mut self, event: TimingEvent, now: u64) -> (result: Option<TapResult>)
        requires
            old(self).wf(),
        ensures
            final(self).wf(),
            result == record_result(old(self).spec_evaluator(), event),
            final(self).spec_evaluator() == record_state(old(self).spec_evaluator(), event),
            final(self).spec_expected_taps() == old(self).spec_expected_taps(),
            final(self).spec_results() == match result {
                Some(r) => old(self).spec_results().push(r),
                None => old(self).spec_results(),
            },
            final(self).spec_mistaps() == if result is None && old(self).spec_mistaps()
                < usize::MAX {
                old(self).spec_mistaps() + 1
            } else {
                old(self).spec_mistaps() as int
            },
            final(self).spec_display().spec_note_states() == match result {
                Some(r) => states_after_result(
                    old(self).spec_display().spec_pattern(),
                    old(self).spec_display().spec_note_states(),
                    r.expected.at,
                    old(self).spec_display().spec_count_in(),
                    old(self).spec_display().spec_bpm(),
                ),
                None => old(self).spec_display().spec_note_states(),
            },
            final(self).spec_display().spec_last_mistap_at() == if result is None {
                Some(now)
            } else {
                old(self).spec_display().spec_last_mistap_at()
            },
            final(self).spec_display().spec_pattern() == old(self).spec_display().spec_pattern(),
            final(self).spec_display().spec_elapsed() == old(self).spec_display().spec_elapsed(),
            final(self).spec_display().spec_bpm() == old(self).spec_display().spec_bpm(),
            final(self).spec_display().spec_count_in() == old(self).spec_display().spec_count_in(),
            final(self).spec_display().spec_repetition() == old(
                self,
            ).spec_display().spec_repetition(),
    {
        let ghost before = self.taps@;
        let result = self.evaluator.record(event);
        proof {
            self.taps@ = before.push(event);
            assert(self.taps@.drop_last() == before);
        }
        match result {
            Some(r) => {
                self.display.push_result(r);
                self.results.push(r);
            },
            None => {
                if self.mistaps < usize::MAX {
                    self.mistaps = self.mistaps + 1;
                }
                self.display.push_mistap(now);
            },
        }
        result
    }

    /// Moves the display's playhead to `elapsed` (see
    /// [`RhythmReaderState::update_playhead`]); the tally is unchanged.
    pub fn update_playhead(&mut self, elapsed: u64)
        requires
            old(self).wf(),
        ensures
            final(self).wf(),
            final(self).spec_expected_taps() == old(self).spec_expected_taps(),
            final(self).spec_evaluator() == old(self).spec_evaluator(),
            final(self).spec_results() == old(self).spec_results(),
            final(self).spec_mistaps() == old(self).spec_mistaps(),
            final(self).spec_display().spec_elapsed() == elapsed,
            final(self).spec_display().spec_note_states() == crate::rhythm_reader_ui::states_after_playhead(
                old(self).spec_display().spec_pattern(),
                old(self).spec_display().spec_note_states(),
                elapsed,
                old(self).spec_display().spec_count_in(),
                old(self).spec_display().spec_bpm(),
            ),
            final(self).spec_display().spec_pattern() == old(self).spec_display().spec_pattern(),
            final(self).spec_display().spec_bpm() == old(self).spec_display().spec_bpm(),
            final(self).spec_display().spec_count_in() == old(self).spec_display().spec_count_in(),
            final(self).spec_display().spec_last_mistap_at() == old(
                self,
            ).spec_display().spec_last_mistap_at(),
            final(self).spec_display().spec_repetition() == old(
                self,
            ).spec_display().spec_repetition(),
    {
        self.display.update_playhead(elapsed);
    }

    /// The note display.
    pub fn display(&self) -> (display: &RhythmReaderState)
        ensures
            *display == self.spec_display(),
    {
        &self.display
    }

    /// What the repetition adds to the session: its results, the expected
    /// taps that got no result, its mistaps, and its number of expected
    /// taps.
    pub fn finish(self) -> (tally: (Vec<TapResult>, usize, usize, usize))
        ensures
            tally.0@ == self.spec_results(),
            tally.1 == missed_count(self.spec_results(), self.spec_expected_taps()),
            tally.2 == self.spec_mistaps(),
            tally.3 == self.spec_expected_taps().len(),
            self.wf() ==> tally.0@.len() + tally.1 == tally.3,
    {
        proof {
            if self.wf() {
                lemma_hits_and_misses_add_up(
                    self.expected_taps@,
                    self.evaluator@.tolerance,
                    self.taps@,
                );
            }
        }
        let missed = count_missed(self.results.as_slice(), self.expected_taps.as_slice());
        let expected_count = self.expected_taps.len();
        (self.results, missed, self.mistaps, expected_count)
    }
}

/// How long a repetition runs (nanoseconds): the count-in, the pattern,
/// and a short tail, capped at `u64::MAX`.
pub open spec fn repetition_length(bpm: u32, pattern: Seq<PatternNote>) -> int {
    let exact = 4 * beat_ns(bpm) + (beat_ns(bpm) * pattern_ticks(pattern)) / 4 + REPETITION_TAIL_NS;
    if exact <= u64::MAX {
        exact
    } else {
        u64::MAX as int
    }
}

/// How long a repetition of `schedule` runs: the count-in, one playthrough
/// of the pattern, and a short tail so the last note isn't clipped
/// (nanoseconds, capped at `u64::MAX`).
pub fn repetition_duration(schedule: &RhythmReaderSchedule) -> (duration: u64)
    ensures
        duration == repetition_length(schedule.spec_bpm(), schedule.spec_pattern()),
{
    let beat = schedule.beat_duration();
    let count_in = schedule.count_in_duration();
    let ticks = schedule.pattern_ticks();
    assert(beat as u128 * ticks <= 60_000_000_000u128 * (6 * 0x1_0000_0000_0000_0000u128))
        by (nonlinear_arith)
        requires
            beat <= 60_000_000_000u64,
            ticks <= 6 * 0x1_0000_0000_0000_0000u128,
    ;
    let exact = count_in as u128 + beat as u128 * ticks / 4 + REPETITION_TAIL_NS as u128;
    if exact <= u64::MAX as u128 {
        exact as u64
    } else {
        u64::MAX
    }
}

/// Matching tolerance for a repetition (nanoseconds): half the shortest note
/// in the pattern, since a beat-based tolerance would be far too generous
/// for sixteenth-note runs.
pub fn repetition_tolerance(schedule: &RhythmReaderSchedule) -> (tolerance: u64)
    ensures
        tolerance == (beat_ns(schedule.spec_bpm()) * shortest_ticks(schedule.spec_pattern())) / 8,
{
    let beat = schedule.beat_duration();
    let shortest = schedule.shortest_note_beats();
    assert(beat * shortest <= 60_000_000_000u64 * 6) by (nonlinear_arith)
        requires
            beat <= 60_000_000_000u64,
            shortest <= 6,
    ;
    beat * shortest / 8
}

/// The choice a signal makes on the Rhythm Reader result screen: SPACE or
/// Enter restarts, `m` returns to the menu, q/Esc quits.
pub open spec fn rhythm_result_choice_of(signal: KeyboardSignal) -> Option<ResultScreenOutcome> {
    match signal {
        KeyboardSignal::Tap(_) | KeyboardSignal::Select => Some(ResultScreenOutcome::Restart),
        KeyboardSignal::BackToMenu => Some(ResultScreenOutcome::BackToMenu),
        KeyboardSignal::Quit => Some(ResultScreenOutcome::Quit),
        _ => None,
    }
}

/// The Rhythm Reader result screen answers every signal as the other modes'
/// result screen does, and in terms of keys: SPACE (a tap) and Enter
/// restart, `m` goes back to the menu, q and Esc quit, and the navigation
/// keys do nothing.
pub proof fn lemma_rhythm_result_keys(signal: KeyboardSignal, control: bool, at: u64)
    ensures
        rhythm_result_choice_of(signal) == crate::session::result_choice_of(signal),
        rhythm_result_choice_of(signal_of(KeyPress::Char(TAP_KEY), control, at)->0) == Some(
            ResultScreenOutcome::Restart,
        ),
        rhythm_result_choice_of(signal_of(KeyPress::Enter, control, at)->0) == Some(
            ResultScreenOutcome::Restart,
        ),
        rhythm_result_choice_of(signal_of(KeyPress::Char('m'), control, at)->0) == Some(
            ResultScreenOutcome::BackToMenu,
        ),
        rhythm_result_choice_of(signal_of(KeyPress::Char('q'), control, at)->0) == Some(
            ResultScreenOutcome::Quit,
        ),
        rhythm_result_choice_of(signal_of(KeyPress::Esc, control, at)->0) == Some(
            ResultScreenOutcome::Quit,
        ),
        rhythm_result_choice_of(signal_of(KeyPress::Up, control, at)->0) is None,
        rhythm_result_choice_of(signal_of(KeyPress::Down, control, at)->0) is None,
{
}

/// The Rhythm Reader result-screen choice a signal makes, if any.
pub fn rhythm_result_choice(signal: KeyboardSignal) -> (choice: Option<ResultScreenOutcome>)
    ensures
        choice == rhythm_result_choice_of(signal),
{
    match signal {
        KeyboardSignal::Tap(_) | KeyboardSignal::Select => Some(ResultScreenOutcome::Restart),
        KeyboardSignal::BackToMenu => Some(ResultScreenOutcome::BackToMenu),
        KeyboardSignal::Quit => Some(ResultScreenOutcome::Quit),
        _ => None,
    }
}

/// Whether two patterns are the same.
fn same_pattern(a: &Pattern, b: &Pattern) -> (same: bool)
    ensures
        same == (a@ == b@),
{
    if a.len() != b.len() {
        return false;
    }
    let mut i: usize = 0;
    while i < a.len()
        invariant
            i <= a@.len(),
            a@.len() == b@.len(),
            forall|k: int| 0 <= k < i ==> a@[k] == b@[k],
        decreases a@.len() - i,
    {
        if a[i] != b[i] {
            return false;
        }
        i = i + 1;
    }
    assert(a@ == b@);
    true
}

/// Which of `draws` (indices of curated patterns) the next pattern is: the
/// first that doesn't repeat `previous`, where only the first
/// `draws.len() - 1` are checked and the last is taken as it is.
pub open spec fn fresh_draw(previous: Option<Seq<PatternNote>>, draws: Seq<usize>) -> int
    decreases draws.len(),
{
    if draws.len() <= 1 {
        0
    } else if previous != Some(curated_pattern(draws[0] as int)) {
        0
    } else {
        1 + fresh_draw(previous, draws.drop_first())
    }
}

/// The next pattern repeats the previous one only if every checked draw
/// (all but the last) repeated it: as soon as one of them differs, the
/// pattern differs from the previous one.
pub proof fn lemma_fresh_draw_avoids_repeat(previous: Seq<PatternNote>, draws: Seq<usize>, k: int)
    requires
        0 <= k < draws.len() - 1,
        curated_pattern(draws[k] as int) != previous,
    ensures
        0 <= fresh_draw(Some(previous), draws) <= k,
        curated_pattern(draws[fresh_draw(Some(previous), draws)] as int) != previous,
    decreases draws.len(),
{
    if curated_pattern(draws[0] as int) != previous {
    } else {
        assert(k > 0);
        lemma_fresh_draw_avoids_repeat(previous, draws.drop_first(), k - 1);
        assert(draws.drop_first()[k - 1] == draws[k]);
        assert(draws.drop_first()[fresh_draw(Some(previous), draws.drop_first())] == draws[1
            + fresh_draw(Some(previous), draws.drop_first())]);
    }
}

/// Without a previous pattern, the first draw is taken.
pub proof fn lemma_first_draw_without_previous(draws: Seq<usize>)
    ensures
        fresh_draw(None, draws) == 0,
{
}

/// The view of an optional pattern.
pub open spec fn previous_view(previous: Option<&Pattern>) -> Option<Seq<PatternNote>> {
    match previous {
        Some(p) => Some(p@),
        None => None,
    }
}

/// The next curated pattern given the drawn indices `draws`: the first
/// draw that doesn't repeat `previous`, or the last draw if all the others
/// did.
pub fn next_pattern(previous: Option<&Pattern>, draws: &[usize]) -> (pattern: Pattern)
    requires
        draws@.len() > 0,
        forall|i: int| 0 <= i < draws@.len() ==> #[trigger] draws@[i] < CURATED_PATTERN_COUNT,
    ensures
        0 <= fresh_draw(previous_view(previous), draws@) < draws@.len(),
        pattern@ == curated_pattern(draws@[fresh_draw(previous_view(previous), draws@)] as int),
{
    let patterns = curated_patterns();
    let mut i: usize = 0;
    assert(draws@.skip(0) == draws@);
    while i < draws.len() - 1
        invariant
            i < draws@.len(),
            patterns@.len() == CURATED_PATTERN_COUNT,
            forall|k: int|
                0 <= k < CURATED_PATTERN_COUNT ==> #[trigger] patterns@[k]@ == curated_pattern(k),
            forall|k: int| 0 <= k < draws@.len() ==> #[trigger] draws@[k] < CURATED_PATTERN_COUNT,
            fresh_draw(previous_view(previous), draws@) == i + fresh_draw(
                previous_view(previous),
                draws@.skip(i as int),
            ),
        decreases draws@.len() - i,
    {
        let candidate = &patterns[draws[i]];
        let repeats = match previous {
            Some(p) => same_pattern(candidate, p),
            None => false,
        };
        assert(draws@.skip(i as int)[0] == draws@[i as int]);
        if !repeats {
            return candidate.clone();
        }
        assert(draws@.skip(i as int).drop_first() == draws@.skip(i + 1));
        i = i + 1;
    }
    patterns[draws[i]].clone()
}

/// Draws a uniformly random index below `n` from the thread-local random
/// generator (`Rng::gen_range(0..n)` on `rand::thread_rng()`), which
/// panics on an empty range. The index is below `n`; nothing else is
/// promised: it is chance.
#[verifier::external_body]
fn random_index(n: usize) -> (index: usize)
    requires
        n > 0,
    ensures
        index < n,
{
    rand::thread_rng().gen_range(0..n)
}

/// Draws the next pattern at random from the curated library, avoiding an
/// immediate repeat of `previous`: up to [`MAX_REPEAT_AVOIDANCE_ATTEMPTS`]
/// redraws, after which the last candidate is kept even if it repeats.
pub fn draw_pattern(previous: Option<&Pattern>) -> (pattern: Pattern)
    ensures
        exists|i: int| 0 <= i < CURATED_PATTERN_COUNT && pattern@ == curated_pattern(i),
{
    let mut draws: Vec<usize> = Vec::new();
    let mut k: usize = 0;
    while k <= MAX_REPEAT_AVOIDANCE_ATTEMPTS
        invariant
            k <= MAX_REPEAT_AVOIDANCE_ATTEMPTS + 1,
            draws@.len() == k,
            forall|i: int| 0 <= i < draws@.len() ==> #[trigger] draws@[i] < CURATED_PATTERN_COUNT,
        decreases MAX_REPEAT_AVOIDANCE_ATTEMPTS + 1 - k,
    {
        draws.push(random_index(CURATED_PATTERN_COUNT));
        k = k + 1;
    }
    let pattern = next_pattern(previous, draws.as_slice());
    let ghost chosen = draws@[fresh_draw(previous_view(previous), draws@)] as int;
    assert(0 <= chosen < CURATED_PATTERN_COUNT);
    pattern
}

} // verus!
