//! Mode 2: Quiet Four.
//!
//! One cycle = 2 audible bars + 1 silent bar. "Four" refers to the standard
//! 4 beats per bar, not the number of bars per cycle (a cycle is 3 bars
//! total). The metronome only produces audio for the 2 audible bars; the
//! silent bar's beat grid still exists as expected-tap timestamps so the
//! player's internal sense of tempo can be evaluated.
//!
//! Only the very first beat after a silent bar (the "landing" on the new
//! downbeat) counts towards the session score. All other beats, including
//! those of the silent bar itself, are still expected and shown to the
//! player, but are marked `informational`.

use vstd::prelude::*;

use crate::schedule::{ClickEvent, ExpectedTap, Schedule};
use crate::timing::{beat_duration_ns, beat_indices, beat_ns, lemma_all_kept, lemma_kept_is_contained};

verus! {

/// Audible bars per cycle.
pub const AUDIBLE_BARS_PER_CYCLE: u32 = 2;

/// Audible bars + 1 silent bar.
pub const BARS_PER_CYCLE: u32 = 3;

/// Number of beats laid out for `cycles` cycles: every cycle's bars plus one
/// trailing bar, so that the last cycle's silent bar also gets its landing
/// beat.
pub open spec fn quiet_four_beat_count(beats_per_bar: u32, cycles: u32) -> nat {
    ((cycles * BARS_PER_CYCLE + 1) * beats_per_bar) as nat
}

/// Beat `k` (counted from 0 over the whole session) lies in an audible bar.
pub open spec fn is_audible_beat(beats_per_bar: u32, k: int) -> bool {
    (k / (beats_per_bar as int)) % (BARS_PER_CYCLE as int) < (AUDIBLE_BARS_PER_CYCLE as int)
}

/// Beat `k` is a landing beat: the first beat of a bar that follows a
/// silent bar.
pub open spec fn is_landing_beat(beats_per_bar: u32, k: int) -> bool {
    &&& k % (beats_per_bar as int) == 0
    &&& (k / (beats_per_bar as int)) % (BARS_PER_CYCLE as int) == 0
    &&& k / (beats_per_bar as int) > 0
}

/// Beat `k` as a click, if it is audible and at or before
/// `session_duration`.
pub open spec fn click_of_beat(
    beat: u64,
    beats_per_bar: u32,
    session_duration: u64,
) -> spec_fn(int) -> Option<ClickEvent> {
    |k: int|
        if is_audible_beat(beats_per_bar, k) && k * beat <= session_duration {
            Some(ClickEvent { at: (k * beat) as u64 })
        } else {
            None
        }
}

/// Beat `k` as an expected tap, if it is at or before `session_duration`;
/// only landing beats are scored.
pub open spec fn tap_of_beat(
    beat: u64,
    beats_per_bar: u32,
    session_duration: u64,
) -> spec_fn(int) -> Option<ExpectedTap> {
    |k: int|
        if k * beat <= session_duration {
            Some(
                ExpectedTap {
                    at: (k * beat) as u64,
                    informational: !is_landing_beat(beats_per_bar, k),
                },
            )
        } else {
            None
        }
}

/// The audible clicks at or before `session_duration`.
pub open spec fn quiet_four_clicks(
    beat: u64,
    beats_per_bar: u32,
    cycles: u32,
    session_duration: u64,
) -> Seq<ClickEvent> {
    beat_indices(quiet_four_beat_count(beats_per_bar, cycles)).filter_map(
        click_of_beat(beat, beats_per_bar, session_duration),
    )
}

/// Every beat at or before `session_duration` as an expected tap.
pub open spec fn quiet_four_taps(
    beat: u64,
    beats_per_bar: u32,
    cycles: u32,
    session_duration: u64,
) -> Seq<ExpectedTap> {
    beat_indices(quiet_four_beat_count(beats_per_bar, cycles)).filter_map(
        tap_of_beat(beat, beats_per_bar, session_duration),
    )
}

#[derive(Debug, Clone, Copy)]
pub struct QuietFourSchedule {
    bpm: u32,
    beats_per_bar: u32,
    cycles: u32,
}

impl QuietFourSchedule {
    #[verifier::type_invariant]
    spec fn well_formed(self) -> bool {
        &&& self.bpm > 0
        &&& self.beats_per_bar > 0
        &&& self.cycles > 0
        &&& quiet_four_beat_count(self.beats_per_bar, self.cycles) <= u32::MAX
    }

    pub closed spec fn spec_bpm(self) -> u32 {
        self.bpm
    }

    pub closed spec fn spec_beats_per_bar(self) -> u32 {
        self.beats_per_bar
    }

    pub closed spec fn spec_cycles(self) -> u32 {
        self.cycles
    }

    /// `beats_per_bar * (3 * cycles + 1)` must fit in a `u32`: the beats of
    /// the whole session are counted in one.
    pub fn new(bpm: u32, beats_per_bar: u32, cycles: u32) -> (schedule: Self)
        requires
            bpm > 0,
            beats_per_bar > 0,
            cycles > 0,
            (cycles * 3 + 1) * beats_per_bar <= u32::MAX,
        ensures
            schedule.spec_bpm() == bpm,
            schedule.spec_beats_per_bar() == beats_per_bar,
            schedule.spec_cycles() == cycles,
    {
        QuietFourSchedule { bpm, beats_per_bar, cycles }
    }

    /// Number of beats laid out over the whole session.
    fn beat_count(&self) -> (count: u32)
        ensures
            count == quiet_four_beat_count(self.spec_beats_per_bar(), self.spec_cycles()),
            self.spec_bpm() > 0,
            self.spec_beats_per_bar() > 0,
    {
        proof {
            use_type_invariant(self);
        }
        let cycles = self.cycles;
        let beats_per_bar = self.beats_per_bar;
        assert(cycles * 3 + 1 <= (cycles * 3 + 1) * beats_per_bar) by (nonlinear_arith)
            requires
                beats_per_bar >= 1,
                cycles >= 1,
        ;
        (cycles * BARS_PER_CYCLE + 1) * beats_per_bar
    }

    /// Whether beat `k` lies in an audible bar.
    fn audible(&self, k: u32) -> (audible: bool)
        ensures
            audible == is_audible_beat(self.spec_beats_per_bar(), k as int),
    {
        proof {
            use_type_invariant(self);
        }
        (k / self.beats_per_bar) % BARS_PER_CYCLE < AUDIBLE_BARS_PER_CYCLE
    }

    /// Whether beat `k` is a landing beat.
    fn landing(&self, k: u32) -> (landing: bool)
        ensures
            landing == is_landing_beat(self.spec_beats_per_bar(), k as int),
    {
        proof {
            use_type_invariant(self);
        }
        let bar = k / self.beats_per_bar;
        k % self.beats_per_bar == 0 && bar % BARS_PER_CYCLE == 0 && bar > 0
    }
}

impl Schedule for QuietFourSchedule {
    open spec fn click_plan(&self, session_duration: u64) -> Seq<ClickEvent> {
        quiet_four_clicks(
            beat_ns(self.spec_bpm()),
            self.spec_beats_per_bar(),
            self.spec_cycles(),
            session_duration,
        )
    }

    open spec fn tap_plan(&self, session_duration: u64) -> Seq<ExpectedTap> {
        quiet_four_taps(
            beat_ns(self.spec_bpm()),
            self.spec_beats_per_bar(),
            self.spec_cycles(),
            session_duration,
        )
    }

    fn clicks(&self, session_duration: u64) -> (clicks: Vec<ClickEvent>) {
        let count = self.beat_count();
        let beat = beat_duration_ns(self.bpm);
        let mut clicks: Vec<ClickEvent> = Vec::new();
        let mut k: u32 = 0;
        while k < count
            invariant
                k <= count,
                count == quiet_four_beat_count(self.spec_beats_per_bar(), self.spec_cycles()),
                beat == beat_ns(self.spec_bpm()),
                beat <= 60_000_000_000u64,
                clicks@ == beat_indices(k as nat).filter_map(
                    click_of_beat(beat, self.spec_beats_per_bar(), session_duration),
                ),
            decreases count - k,
        {
            assert(beat_indices(k as nat + 1).drop_last() == beat_indices(k as nat));
            assert(beat_indices(k as nat + 1).last() == k as int);
            assert(k as u128 * beat as u128 <= 0x1_0000_0000u128 * 60_000_000_000u128)
                by (nonlinear_arith)
                requires
                    k < 0x1_0000_0000u128,
                    beat <= 60_000_000_000u64,
            ;
            let at = k as u128 * beat as u128;
            if self.audible(k) && at <= session_duration as u128 {
                clicks.push(ClickEvent { at: at as u64 });
            }
            k = k + 1;
        }
        clicks
    }

    fn expected_taps(&self, session_duration: u64) -> (taps: Vec<ExpectedTap>) {
        let count = self.beat_count();
        let beat = beat_duration_ns(self.bpm);
        let mut taps: Vec<ExpectedTap> = Vec::new();
        let mut k: u32 = 0;
        while k < count
            invariant
                k <= count,
                count == quiet_four_beat_count(self.spec_beats_per_bar(), self.spec_cycles()),
                beat == beat_ns(self.spec_bpm()),
                beat <= 60_000_000_000u64,
                taps@ == beat_indices(k as nat).filter_map(
                    tap_of_beat(beat, self.spec_beats_per_bar(), session_duration),
                ),
            decreases count - k,
        {
            assert(beat_indices(k as nat + 1).drop_last() == beat_indices(k as nat));
            assert(beat_indices(k as nat + 1).last() == k as int);
            assert(k as u128 * beat as u128 <= 0x1_0000_0000u128 * 60_000_000_000u128)
                by (nonlinear_arith)
                requires
                    k < 0x1_0000_0000u128,
                    beat <= 60_000_000_000u64,
            ;
            let at = k as u128 * beat as u128;
            if at <= session_duration as u128 {
                if self.landing(k) {
                    taps.push(ExpectedTap::scored(at as u64));
                } else {
                    taps.push(ExpectedTap::informational(at as u64));
                }
            }
            k = k + 1;
        }
        taps
    }
}

/// Number of scored taps in `taps`.
pub open spec fn scored_tap_count(taps: Seq<ExpectedTap>) -> nat
    decreases taps.len(),
{
    if taps.len() == 0 {
        0
    } else {
        scored_tap_count(taps.drop_last()) + if taps.last().informational {
            0nat
        } else {
            1nat
        }
    }
}

/// Number of landing beats among beats `0..n`.
pub open spec fn landing_count(beats_per_bar: u32, n: nat) -> nat
    decreases n,
{
    if n == 0 {
        0
    } else {
        landing_count(beats_per_bar, (n - 1) as nat) + if is_landing_beat(
            beats_per_bar,
            n - 1,
        ) {
            1nat
        } else {
            0nat
        }
    }
}

/// While every beat so far is within the session, the scored taps are
/// exactly the landing beats.
proof fn lemma_scored_taps_are_landings(beat: u64, beats_per_bar: u32, session_duration: u64, n: nat)
    requires
        n == 0 || (n - 1) * beat <= session_duration,
    ensures
        scored_tap_count(
            beat_indices(n).filter_map(tap_of_beat(beat, beats_per_bar, session_duration)),
        ) == landing_count(beats_per_bar, n),
    decreases n,
{
    if n > 0 {
        if n > 1 {
            vstd::arithmetic::mul::lemma_mul_inequality(n - 2, n - 1, beat as int);
        }
        lemma_scored_taps_are_landings(beat, beats_per_bar, session_duration, (n - 1) as nat);
        assert(beat_indices(n).drop_last() == beat_indices((n - 1) as nat));
        assert(beat_indices(n).last() == n - 1);
        let taps = beat_indices(n).filter_map(tap_of_beat(beat, beats_per_bar, session_duration));
        let before = beat_indices((n - 1) as nat).filter_map(
            tap_of_beat(beat, beats_per_bar, session_duration),
        );
        assert(taps == before + seq![
            ExpectedTap {
                at: ((n - 1) * beat) as u64,
                informational: !is_landing_beat(beats_per_bar, n - 1),
            },
        ]);
        assert(taps.drop_last() == before);
    }
}

/// Within bar `m`, only its first beat can be a landing beat, and it is one
/// exactly when `m` follows a silent bar.
proof fn lemma_landing_count_in_bar(beats_per_bar: u32, m: nat, r: nat)
    requires
        beats_per_bar > 0,
        r <= beats_per_bar,
    ensures
        landing_count(beats_per_bar, (m * beats_per_bar + r) as nat) == landing_count(
            beats_per_bar,
            (m * beats_per_bar) as nat,
        ) + if m % 3 == 0 && m > 0 && r > 0 {
            1nat
        } else {
            0nat
        },
    decreases r,
{
    if r > 0 {
        lemma_landing_count_in_bar(beats_per_bar, m, (r - 1) as nat);
        let k = m * beats_per_bar + r - 1;
        vstd::arithmetic::div_mod::lemma_fundamental_div_mod_converse(
            k as int,
            beats_per_bar as int,
            m as int,
            r - 1,
        );
    }
}

/// Over the first `b` bars, the landing beats are the first beats of the
/// bars `3, 6, 9, ...` before `b`.
proof fn lemma_landing_count_bars(beats_per_bar: u32, b: nat)
    requires
        beats_per_bar > 0,
    ensures
        landing_count(beats_per_bar, (b * beats_per_bar) as nat) == if b == 0 {
            0
        } else {
            ((b - 1) / 3) as nat
        },
    decreases b,
{
    if b > 0 {
        lemma_landing_count_bars(beats_per_bar, (b - 1) as nat);
        lemma_landing_count_in_bar(beats_per_bar, (b - 1) as nat, beats_per_bar as nat);
        assert((b - 1) as nat * beats_per_bar + beats_per_bar == b * beats_per_bar) by (nonlinear_arith)
            requires
                b > 0,
        ;
    }
}

/// Exactly one tap per cycle is scored: the landing on the downbeat after
/// each silent bar, provided the session is long enough to hold every beat.
pub proof fn lemma_one_scored_tap_per_cycle(schedule: QuietFourSchedule, session_duration: u64)
    requires
        schedule.spec_beats_per_bar() > 0,
        (quiet_four_beat_count(schedule.spec_beats_per_bar(), schedule.spec_cycles()) - 1) * beat_ns(
            schedule.spec_bpm(),
        ) <= session_duration,
    ensures
        scored_tap_count(schedule.tap_plan(session_duration)) == schedule.spec_cycles(),
{
    let bpb = schedule.spec_beats_per_bar();
    let cycles = schedule.spec_cycles();
    let beat = beat_ns(schedule.spec_bpm());
    let total = quiet_four_beat_count(bpb, cycles);
    assert(total > 0) by (nonlinear_arith)
        requires
            total == ((cycles * 3 + 1) * bpb) as nat,
            bpb > 0,
    ;
    lemma_scored_taps_are_landings(beat, bpb, session_duration, total);
    assert(total == ((cycles * 3 + 1) * bpb) as nat) by (nonlinear_arith)
        requires
            total == ((cycles * 3 + 1) * bpb) as nat,
    ;
    lemma_landing_count_bars(bpb, (cycles * 3 + 1) as nat);
}

/// The landing beats are exactly the downbeats that close a cycle: beat
/// `k` is a landing beat when it is a whole number `c >= 1` of cycles
/// (three bars each) into the session.
pub proof fn lemma_landing_beats_close_cycles(beats_per_bar: u32, k: int)
    requires
        beats_per_bar > 0,
        k >= 0,
    ensures
        is_landing_beat(beats_per_bar, k) <==> (k % (3 * beats_per_bar as int) == 0 && k / (3
            * beats_per_bar as int) >= 1),
{
    let b = beats_per_bar as int;
    vstd::arithmetic::div_mod::lemma_breakdown(k, b, 3);
    vstd::arithmetic::div_mod::lemma_div_denominator(k, b, 3);
    assert(b * 3 == 3 * b);
    vstd::arithmetic::div_mod::lemma_mod_pos_bound(k, b);
    vstd::arithmetic::div_mod::lemma_mod_pos_bound(k / b, 3);
    vstd::arithmetic::div_mod::lemma_div_pos_is_pos(k, b);
    vstd::arithmetic::div_mod::lemma_fundamental_div_mod(k / b, 3);
    if k % (3 * b) == 0 {
        assert(b * ((k / b) % 3) + k % b == 0);
        assert(b * ((k / b) % 3) >= 0) by (nonlinear_arith)
            requires
                b > 0,
                (k / b) % 3 >= 0,
        ;
        assert((k / b) % 3 == 0) by (nonlinear_arith)
            requires
                b * ((k / b) % 3) + k % b == 0,
                b > 0,
                (k / b) % 3 >= 0,
                k % b >= 0,
        ;
    }
}

/// When the session holds every beat, there is one expected tap per beat,
/// `beat_ns` apart from the start, and it is scored exactly when the beat
/// closes a cycle: on beats `3 * beats_per_bar * c` for `c = 1, 2, ...`.
pub proof fn lemma_full_session_beats(schedule: QuietFourSchedule, session_duration: u64)
    requires
        schedule.spec_beats_per_bar() > 0,
        (quiet_four_beat_count(schedule.spec_beats_per_bar(), schedule.spec_cycles()) - 1) * beat_ns(
            schedule.spec_bpm(),
        ) <= session_duration,
    ensures
        ({
            let taps = schedule.tap_plan(session_duration);
            let bpb = schedule.spec_beats_per_bar() as int;
            &&& taps.len() == quiet_four_beat_count(schedule.spec_beats_per_bar(), schedule.spec_cycles())
            &&& forall|k: int|
                0 <= k < taps.len() ==> (#[trigger] taps[k]).at == k * beat_ns(schedule.spec_bpm()) && (
                !taps[k].informational <==> (k % (3 * bpb) == 0 && k / (3 * bpb) >= 1))
        }),
{
    let bpb = schedule.spec_beats_per_bar();
    let beat = beat_ns(schedule.spec_bpm());
    let total = quiet_four_beat_count(bpb, schedule.spec_cycles());
    let f = tap_of_beat(beat, bpb, session_duration);
    assert forall|k: int| 0 <= k < total implies (#[trigger] f(k)) is Some by {
        assert(k * beat <= (total - 1) * beat) by (nonlinear_arith)
            requires
                0 <= k <= total - 1,
                beat >= 0,
        ;
    }
    lemma_all_kept(total, f);
    let taps = schedule.tap_plan(session_duration);
    assert forall|k: int| 0 <= k < taps.len() implies (#[trigger] taps[k]).at == k * beat && (
    !taps[k].informational <==> (k % (3 * bpb as int) == 0 && k / (3 * bpb as int) >= 1)) by {
        lemma_landing_beats_close_cycles(bpb, k);
        assert(k * beat <= (total - 1) * beat) by (nonlinear_arith)
            requires
                0 <= k <= total - 1,
                beat >= 0,
        ;
        assert(k * beat >= 0) by (nonlinear_arith)
            requires
                0 <= k,
                beat >= 0,
        ;
    }
}

/// Every cycle is two audible bars and then a silent one: beat `r` of bar
/// `b` of cycle `c` (the beat `(3c + b) * beats_per_bar + r` of the session)
/// clicks, as long as it falls within the session, exactly when the bar is
/// one of the cycle's first two; the third bar of every cycle stays silent.
pub proof fn lemma_two_audible_bars_then_silence(
    schedule: QuietFourSchedule,
    session_duration: u64,
    c: int,
    b: int,
    r: int,
)
    requires
        schedule.spec_bpm() > 0,
        schedule.spec_beats_per_bar() > 0,
        c >= 0,
        0 <= b < 3,
        0 <= r < schedule.spec_beats_per_bar(),
        (3 * c + b) * schedule.spec_beats_per_bar() + r < quiet_four_beat_count(
            schedule.spec_beats_per_bar(),
            schedule.spec_cycles(),
        ),
        ((3 * c + b) * schedule.spec_beats_per_bar() + r) * beat_ns(schedule.spec_bpm())
            <= session_duration,
    ensures
        schedule.click_plan(session_duration).contains(
            ClickEvent {
                at: (((3 * c + b) * schedule.spec_beats_per_bar() + r) * beat_ns(
                    schedule.spec_bpm(),
                )) as u64,
            },
        ) <==> b < 2,
{
    let bpb = schedule.spec_beats_per_bar() as int;
    let beat = beat_ns(schedule.spec_bpm());
    let total = quiet_four_beat_count(schedule.spec_beats_per_bar(), schedule.spec_cycles());
    let k = (3 * c + b) * bpb + r;
    let f = click_of_beat(beat, schedule.spec_beats_per_bar(), session_duration);
    let click = ClickEvent { at: (k * beat) as u64 };
    assert(beat > 0) by {
        assert(60_000_000_000u64 / (schedule.spec_bpm() as u64) >= 13) by (nonlinear_arith)
            requires
                0 < schedule.spec_bpm() <= 4_294_967_295u64,
        ;
    }
    assert(k >= 0) by (nonlinear_arith)
        requires
            k == (3 * c + b) * bpb + r,
            c >= 0,
            b >= 0,
            r >= 0,
            bpb > 0,
    ;
    vstd::arithmetic::div_mod::lemma_fundamental_div_mod_converse(k, bpb, 3 * c + b, r);
    vstd::arithmetic::div_mod::lemma_fundamental_div_mod_converse(3 * c + b, 3, c, b);
    assert(is_audible_beat(schedule.spec_beats_per_bar(), k) <==> b < 2);
    if b < 2 {
        lemma_kept_is_contained(total, f, k);
    }
    if schedule.click_plan(session_duration).contains(click) {
        beat_indices(total).lemma_filter_map_contains(f, click);
        let t = choose|t: int| #[trigger] beat_indices(total).contains(t) && f(t) == Some(click);
        let i = choose|i: int| 0 <= i < total && beat_indices(total)[i] == t;
        assert(t * beat == k * beat);
        assert(t == k) by (nonlinear_arith)
            requires
                t * beat == k * beat,
                beat > 0,
        ;
    }
}

} // verus!
