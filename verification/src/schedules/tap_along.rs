//! Mode 1: Tap Along.
//!
//! The metronome clicks continuously and every click is also the expected
//! tap. This type only generates the click/expected-tap grid.

use vstd::prelude::*;

use crate::schedule::{ClickEvent, ExpectedTap, Schedule};
use crate::timing::{beat_duration_ns, beat_ns};

verus! {

/// Number of beats of a steady pulse with period `beat` that fall at or
/// before `session_duration` (beat 0 sits at time 0).
pub open spec fn pulse_len(beat: u64, session_duration: u64) -> nat
    recommends
        beat > 0,
{
    (session_duration / beat) as nat + 1
}

/// The times of a steady pulse: beat `k` sits at `k * beat`, up to and
/// including `session_duration`.
pub open spec fn pulse_times(beat: u64, session_duration: u64) -> Seq<u64>
    recommends
        beat > 0,
{
    Seq::new(pulse_len(beat, session_duration), |k: int| (k * beat) as u64)
}

/// Continuous metronome pulse at a fixed tempo. Every audible click is also
/// an expected (scored) tap.
#[derive(Debug, Clone, Copy)]
pub struct TapAlongSchedule {
    bpm: u32,
}

impl TapAlongSchedule {
    #[verifier::type_invariant]
    spec fn tempo_is_positive(self) -> bool {
        self.bpm > 0
    }

    /// The tempo in beats per minute.
    pub closed spec fn spec_bpm(self) -> u32 {
        self.bpm
    }

    pub fn new(bpm: u32) -> (schedule: Self)
        requires
            bpm > 0,
        ensures
            schedule.spec_bpm() == bpm,
    {
        TapAlongSchedule { bpm }
    }

    /// All beat times at or before `session_duration`.
    fn beat_times(&self, session_duration: u64) -> (times: Vec<u64>)
        ensures
            times@ == pulse_times(beat_ns(self.spec_bpm()), session_duration),
            self.spec_bpm() > 0,
    {
        proof {
            use_type_invariant(self);
        }
        let beat = beat_duration_ns(self.bpm);
        let last = session_duration / beat;
        let ghost target = pulse_times(beat, session_duration);
        let mut times: Vec<u64> = Vec::new();
        assert(last < u64::MAX) by (nonlinear_arith)
            requires
                last == session_duration / beat,
                beat >= 13,
        ;
        let mut k: u64 = 0;
        while k <= last
            invariant
                beat >= 13,
                last == session_duration / beat,
                k <= last + 1,
                last < u64::MAX,
                target == pulse_times(beat, session_duration),
                times@ == target.take(k as int),
            decreases last + 1 - k,
        {
            assert(k * beat <= session_duration) by (nonlinear_arith)
                requires
                    k <= last,
                    last == session_duration / beat,
                    beat > 0,
            ;
            times.push(k * beat);
            assert(times@ == target.take(k as int + 1));
            k = k + 1;
        }
        assert(times@ == target);
        times
    }
}

impl Schedule for TapAlongSchedule {
    open spec fn click_plan(&self, session_duration: u64) -> Seq<ClickEvent> {
        pulse_times(beat_ns(self.spec_bpm()), session_duration).map_values(
            |at: u64| ClickEvent { at },
        )
    }

    open spec fn tap_plan(&self, session_duration: u64) -> Seq<ExpectedTap> {
        pulse_times(beat_ns(self.spec_bpm()), session_duration).map_values(
            |at: u64| ExpectedTap { at, informational: false },
        )
    }

    fn clicks(&self, session_duration: u64) -> (clicks: Vec<ClickEvent>) {
        let times = self.beat_times(session_duration);
        let mut clicks: Vec<ClickEvent> = Vec::new();
        let mut i: usize = 0;
        while i < times.len()
            invariant
                i <= times@.len(),
                clicks@ == times@.take(i as int).map_values(|at: u64| ClickEvent { at }),
            decreases times@.len() - i,
        {
            clicks.push(ClickEvent { at: times[i] });
            assert(times@.take(i as int + 1) == times@.take(i as int).push(times@[i as int]));
            i = i + 1;
        }
        assert(times@.take(times@.len() as int) == times@);
        clicks
    }

    fn expected_taps(&self, session_duration: u64) -> (taps: Vec<ExpectedTap>) {
        let times = self.beat_times(session_duration);
        let mut taps: Vec<ExpectedTap> = Vec::new();
        let mut i: usize = 0;
        while i < times.len()
            invariant
                i <= times@.len(),
                taps@ == times@.take(i as int).map_values(
                    |at: u64| ExpectedTap { at, informational: false },
                ),
            decreases times@.len() - i,
        {
            taps.push(ExpectedTap::scored(times[i]));
            assert(times@.take(i as int + 1) == times@.take(i as int).push(times@[i as int]));
            i = i + 1;
        }
        assert(times@.take(times@.len() as int) == times@);
        taps
    }
}

/// Every click of Tap Along is also a scored expected tap, and vice versa.
pub proof fn lemma_clicks_are_scored_taps(schedule: TapAlongSchedule, session_duration: u64)
    ensures
        schedule.tap_plan(session_duration).len() == schedule.click_plan(session_duration).len(),
        forall|i: int|
            0 <= i < schedule.tap_plan(session_duration).len() ==> {
                &&& #[trigger] schedule.tap_plan(session_duration)[i].at == schedule.click_plan(
                    session_duration,
                )[i].at
                &&& !schedule.tap_plan(session_duration)[i].informational
            },
{
}

/// Tap Along clicks a steady pulse through the whole session: the first
/// click at 0, each next one a beat later, all within the session, and the
/// beat after the last would fall outside it.
pub proof fn lemma_steady_pulse(schedule: TapAlongSchedule, session_duration: u64)
    requires
        schedule.spec_bpm() > 0,
    ensures
        ({
            let clicks = schedule.click_plan(session_duration);
            let beat = beat_ns(schedule.spec_bpm()) as int;
            &&& clicks.len() >= 1
            &&& forall|k: int| 0 <= k < clicks.len() ==> #[trigger] clicks[k].at == k * beat
            &&& forall|k: int| 0 <= k < clicks.len() ==> #[trigger] clicks[k].at <= session_duration
            &&& clicks.len() * beat > session_duration
        }),
{
    crate::timing::lemma_beat_fills_a_minute(schedule.spec_bpm());
    let beat = beat_ns(schedule.spec_bpm()) as int;
    let q = (session_duration as int) / beat;
    let r = (session_duration as int) % beat;
    vstd::arithmetic::div_mod::lemma_fundamental_div_mod(session_duration as int, beat);
    vstd::arithmetic::div_mod::lemma_div_pos_is_pos(session_duration as int, beat);
    let clicks = schedule.click_plan(session_duration);
    assert forall|k: int| 0 <= k < clicks.len() implies #[trigger] clicks[k].at == k * beat
        && clicks[k].at <= session_duration by {
        assert(0 <= k * beat <= session_duration) by (nonlinear_arith)
            requires
                0 <= k <= q,
                beat > 0,
                session_duration == beat * q + r,
                r >= 0,
        ;
    }
    assert((q + 1) * beat > session_duration) by (nonlinear_arith)
        requires
            beat > 0,
            session_duration == beat * q + r,
            r < beat,
    ;
}

} // verus!
