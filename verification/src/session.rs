//! The decisions of a live session of a continuous-pulse mode (Tap Along,
//! Quiet Four, Tuplets): matching taps and keeping the session's results,
//! the result-screen choices, and the bar/beat position and click flash
//! shown while playing. The loop itself (audio, input, rendering) runs in
//! the application.

use vstd::prelude::*;

use crate::evaluator::{
    record_result, record_state, scored_count, scored_deviation_total, SessionSummary,
    TapResult, TimingEvaluator, TimingEvent, EvaluatorView, sort_by_time,
};
use crate::calibration::{apply_offset, compensated_at};
use crate::clock::{saturating_sub, SessionClock};
use crate::keyboard::KeyboardSignal;
use crate::schedule::{ClickEvent, ExpectedTap, Schedule};
use crate::timing::{beat_duration_ns, beat_ns, NANOS_PER_MILLI};

verus! {

/// How a session ended, so the caller knows whether to go back to the menu
/// or quit the whole app. Restarting is handled inside the session and never
/// surfaces as an outcome.
#[derive(Debug, Clone, Copy, PartialEq, Eq, Structural)]
pub enum SessionOutcome {
    /// The player wants to return to the main menu (`m` on the result
    /// screen).
    BackToMenu,
    /// The player quit the whole app.
    Quit,
}

/// Everything a schedule-driven continuous-pulse mode needs beyond the
/// schedule itself.
pub struct SessionConfig<S: Schedule> {
    pub schedule: S,
    /// Tempo in beats per minute.
    pub bpm: u32,
    pub mode_name: &'static str,
    pub beats_per_bar: u64,
    /// Matching tolerance (nanoseconds) for the [`TimingEvaluator`]; it
    /// should scale with the tempo (half a beat, say) rather than be fixed.
    pub tolerance: u64,
}

/// What the player chose on a result screen.
#[derive(Debug, Clone, Copy, PartialEq, Eq, Structural)]
pub enum ResultScreenOutcome {
    Restart,
    BackToMenu,
    Quit,
}

/// The choice a signal makes on the result screen of a continuous-pulse
/// mode: SPACE or Enter restarts, `m` goes back to the menu, q/Esc quits.
pub open spec fn result_choice_of(signal: KeyboardSignal) -> Option<ResultScreenOutcome> {
    match signal {
        KeyboardSignal::Tap(_) | KeyboardSignal::Select => Some(ResultScreenOutcome::Restart),
        KeyboardSignal::BackToMenu => Some(ResultScreenOutcome::BackToMenu),
        KeyboardSignal::Quit => Some(ResultScreenOutcome::Quit),
        _ => None,
    }
}

/// The result-screen choice a signal makes, if any.
pub fn result_screen_choice(signal: KeyboardSignal) -> (choice: Option<ResultScreenOutcome>)
    ensures
        choice == result_choice_of(signal),
{
    match signal {
        KeyboardSignal::Tap(_) | KeyboardSignal::Select => Some(ResultScreenOutcome::Restart),
        KeyboardSignal::BackToMenu => Some(ResultScreenOutcome::BackToMenu),
        KeyboardSignal::Quit => Some(ResultScreenOutcome::Quit),
        _ => None,
    }
}

/// Number of `true` flags in `s`.
pub open spec fn count_true(s: Seq<bool>) -> nat
    decreases s.len(),
{
    if s.len() == 0 {
        0
    } else {
        count_true(s.drop_last()) + if s.last() {
            1nat
        } else {
            0nat
        }
    }
}

proof fn lemma_count_true_bound(s: Seq<bool>)
    ensures
        count_true(s) <= s.len(),
    decreases s.len(),
{
    if s.len() > 0 {
        lemma_count_true_bound(s.drop_last());
    }
}

proof fn lemma_count_true_update(s: Seq<bool>, i: int)
    requires
        0 <= i < s.len(),
        !s[i],
    ensures
        count_true(s.update(i, true)) == count_true(s) + 1,
    decreases s.len(),
{
    let t = s.update(i, true);
    if i < s.len() - 1 {
        assert(t.drop_last() == s.drop_last().update(i, true));
        lemma_count_true_update(s.drop_last(), i);
    } else {
        assert(t.drop_last() == s.drop_last());
    }
}

proof fn lemma_count_true_all_false(n: nat)
    ensures
        count_true(Seq::new(n, |i: int| false)) == 0,
    decreases n,
{
    if n > 0 {
        assert(Seq::new(n, |i: int| false).drop_last() == Seq::new((n - 1) as nat, |i: int| false));
        lemma_count_true_all_false((n - 1) as nat);
    }
}

/// A running session: the evaluator, every result it produced so far, and
/// the number of taps it rejected.
pub struct LiveSession {
    evaluator: TimingEvaluator,
    results: Vec<TapResult>,
    rejected_taps: usize,
}

impl LiveSession {
    /// The session's internal invariant: one result per consumed expected
    /// tap, each deviation a difference of two points in time.
    pub closed spec fn wf(&self) -> bool {
        &&& self.evaluator.wf()
        &&& self.evaluator@.expected.len() <= i64::MAX
        &&& self.results@.len() == count_true(self.evaluator@.matched)
        &&& forall|i: int|
            0 <= i < self.results@.len() ==> -(u64::MAX as int) <= #[trigger] self.results@[i].deviation_ns
                <= u64::MAX
    }

    /// The evaluator's state.
    pub closed spec fn spec_evaluator(&self) -> EvaluatorView {
        self.evaluator@
    }

    /// The results so far, in the order the taps came.
    pub closed spec fn spec_results(&self) -> Seq<TapResult> {
        self.results@
    }

    /// Taps rejected so far (saturating).
    pub closed spec fn spec_rejected_taps(&self) -> usize {
        self.rejected_taps
    }

    /// A session over `expected` taps, matching within `tolerance`
    /// nanoseconds. A vector of expected taps never holds more than
    /// `i64::MAX` of them.
    pub fn new(expected: Vec<ExpectedTap>, tolerance: u64) -> (session: Self)
        requires
            expected@.len() <= i64::MAX,
        ensures
            session.wf(),
            session.spec_evaluator().expected == sort_by_time(expected@),
            session.spec_evaluator().matched == Seq::new(expected@.len(), |i: int| false),
            session.spec_evaluator().tolerance == tolerance,
            session.spec_results().len() == 0,
            session.spec_rejected_taps() == 0,
    {
        let evaluator = TimingEvaluator::new(expected, tolerance);
        proof {
            lemma_count_true_all_false(expected@.len());
            assert(evaluator@.expected.len() == expected@.len()) by {
                assert(evaluator@.expected.to_multiset().len() == expected@.to_multiset().len());
                broadcast use vstd::seq_lib::group_to_multiset_ensures;

            }
        }
        LiveSession { evaluator, results: Vec::new(), rejected_taps: 0 }
    }

    /// Matches one tap (already in this session's time domain and offset
    /// corrected). A matched tap's result is kept; a rejected tap is
    /// counted.
    pub fn on_tap(&mut self, event: TimingEvent) -> (result: Option<TapResult>)
        requires
            old(self).wf(),
        ensures
            final(self).wf(),
            result == record_result(old(self).spec_evaluator(), event),
            final(self).spec_evaluator() == record_state(old(self).spec_evaluator(), event),
            final(self).spec_results() == match result {
                Some(r) => old(self).spec_results().push(r),
                None => old(self).spec_results(),
            },
            final(self).spec_rejected_taps() == if result is None && old(
                self,
            ).spec_rejected_taps() < usize::MAX {
                old(self).spec_rejected_taps() + 1
            } else {
                old(self).spec_rejected_taps() as int
            },
    {
        let ghost before = self.evaluator@;
        proof {
            self.evaluator.lemma_wf();
        }
        let result = self.evaluator.record(event);
        match result {
            Some(r) => {
                proof {
                    let i = crate::evaluator::matched_slot(before, event.at)->0;
                    crate::evaluator::lemma_matched_slot(before, event.at);
                    lemma_count_true_update(before.matched, i);
                    lemma_count_true_bound(self.evaluator@.matched);
                }
                self.results.push(r);
            },
            None => {
                if self.rejected_taps < usize::MAX {
                    self.rejected_taps = self.rejected_taps + 1;
                }
            },
        }
        result
    }

    /// A session holds exactly one result per expected tap that has been
    /// consumed, so never more results than expected taps.
    pub proof fn lemma_one_result_per_consumed_tap(&self)
        requires
            self.wf(),
        ensures
            self.spec_results().len() == count_true(self.spec_evaluator().matched),
            self.spec_results().len() <= self.spec_evaluator().expected.len(),
    {
        lemma_count_true_bound(self.evaluator@.matched);
        self.evaluator.lemma_wf();
    }

    /// Every result so far, in the order the taps came.
    pub fn results(&self) -> (results: &Vec<TapResult>)
        ensures
            results@ == self.spec_results(),
    {
        &self.results
    }

    /// Number of taps rejected so far.
    pub fn rejected_taps(&self) -> (rejected: usize)
        ensures
            rejected == self.spec_rejected_taps(),
    {
        self.rejected_taps
    }

    /// The summary of the scored results so far.
    pub fn summary(&self) -> (summary: SessionSummary)
        requires
            self.wf(),
        ensures
            summary.scored_count == scored_count(self.spec_results()),
            summary.total_deviation_ns == scored_deviation_total(self.spec_results()),
    {
        proof {
            lemma_count_true_bound(self.evaluator@.matched);
            self.evaluator.lemma_wf();
        }
        TimingEvaluator::summarize(self.results.as_slice())
    }
}

/// A tap timestamped against `global` (the process-wide clock), moved into
/// the time domain of `session` (0 if it came before the session started)
/// and compensated by the calibration offset `offset_ms`.
pub fn session_tap(session: &SessionClock, global: SessionClock, event: TimingEvent, offset_ms: i64) -> (tap:
    TimingEvent)
    requires
        global.spec_start() + event.at <= u64::MAX,
        offset_ms < 0 ==> saturating_sub(global.spec_start() + event.at, session.spec_start() as int)
            - offset_ms * NANOS_PER_MILLI <= u64::MAX,
    ensures
        tap.at == compensated_at(
            saturating_sub(global.spec_start() + event.at, session.spec_start() as int),
            offset_ms as int,
        ),
{
    let local = session.rebase(global, event.at);
    TimingEvent { at: apply_offset(local, offset_ms) }
}

/// Bar and beat-in-bar (both counted from 1) at `elapsed` nanoseconds into
/// a session at `bpm`, with `beats_per_bar` beats to a bar: the beat is the
/// latest click of the grid at or before `elapsed`.
pub open spec fn position_at(elapsed: u64, bpm: u32, beats_per_bar: u64) -> (int, int) {
    let beats = elapsed / beat_ns(bpm);
    (beats / beats_per_bar + 1, beats % beats_per_bar + 1)
}

/// Where in the bar/beat grid the session is, purely as an orientation aid
/// for the display; not used for scoring.
pub fn bar_position(elapsed: u64, bpm: u32, beats_per_bar: u64) -> (position: (u64, u64))
    requires
        bpm > 0,
        beats_per_bar > 0,
    ensures
        (position.0 as int, position.1 as int) == position_at(elapsed, bpm, beats_per_bar),
{
    let beat = beat_duration_ns(bpm);
    let beats = elapsed / beat;
    assert(beats < u64::MAX) by (nonlinear_arith)
        requires
            beats == elapsed / beat,
            beat >= 13,
    ;
    (beats / beats_per_bar + 1, beats % beats_per_bar + 1)
}

/// The position counts whole beats from the start of the session: beat
/// `b` (from 1, at most `beats_per_bar`) of bar `bar` (from 1) is the
/// `((bar - 1) * beats_per_bar + b)`-th beat, and `elapsed` lies within it.
pub proof fn lemma_position_counts_beats(elapsed: u64, bpm: u32, beats_per_bar: u64)
    requires
        bpm > 0,
        beats_per_bar > 0,
    ensures
        ({
            let (bar, b) = position_at(elapsed, bpm, beats_per_bar);
            let n = (bar - 1) * beats_per_bar + (b - 1);
            &&& bar >= 1
            &&& 1 <= b <= beats_per_bar
            &&& n * beat_ns(bpm) <= elapsed < (n + 1) * beat_ns(bpm)
        }),
{
    crate::timing::lemma_beat_fills_a_minute(bpm);
    let beat = beat_ns(bpm) as int;
    let beats = (elapsed as int) / beat;
    vstd::arithmetic::div_mod::lemma_fundamental_div_mod(elapsed as int, beat);
    vstd::arithmetic::div_mod::lemma_div_pos_is_pos(elapsed as int, beat);
    vstd::arithmetic::div_mod::lemma_fundamental_div_mod(beats, beats_per_bar as int);
    vstd::arithmetic::div_mod::lemma_div_pos_is_pos(beats, beats_per_bar as int);
    let (bar, b) = position_at(elapsed, bpm, beats_per_bar);
    assert((bar - 1) * beats_per_bar + (b - 1) == beats) by (nonlinear_arith)
        requires
            bar - 1 == beats / (beats_per_bar as int),
            b - 1 == beats % (beats_per_bar as int),
            beats == beats_per_bar * (beats / (beats_per_bar as int)) + beats % (beats_per_bar as int),
    ;
    assert(beats * beat <= elapsed < (beats + 1) * beat) by (nonlinear_arith)
        requires
            elapsed == beat * beats + (elapsed as int) % beat,
            0 <= (elapsed as int) % beat < beat,
    ;
}

/// Index of the last click at or before `now`, if any.
pub open spec fn last_click_index(clicks: Seq<ClickEvent>, now: u64) -> Option<int>
    decreases clicks.len(),
{
    if clicks.len() == 0 {
        None
    } else if clicks.last().at <= now {
        Some(clicks.len() - 1)
    } else {
        last_click_index(clicks.drop_last(), now)
    }
}

/// How long ago (nanoseconds) the most recent click at or before `now`
/// sounded, for the metronome panel's flash; `None` before the first click.
pub fn most_recent_click_instant(clicks: &[ClickEvent], now: u64) -> (since: Option<u64>)
    ensures
        since == match last_click_index(clicks@, now) {
            Some(i) => Some((now - clicks@[i].at) as u64),
            None => None,
        },
{
    let mut i: usize = clicks.len();
    assert(clicks@.take(i as int) == clicks@);
    while i > 0
        invariant
            i <= clicks@.len(),
            last_click_index(clicks@, now) == last_click_index(clicks@.take(i as int), now),
        decreases i,
    {
        if clicks[i - 1].at <= now {
            return Some(now - clicks[i - 1].at);
        }
        assert(clicks@.take(i as int).drop_last() == clicks@.take(i - 1));
        i = i - 1;
    }
    None
}

} // verus!
