//! Mode 3: Tuplets.
//!
//! The metronome keeps clicking a plain 4-beats-per-bar grounding pulse.
//! The player is expected to tap `subdivisions` evenly spaced taps across
//! the entire bar (across the 4 grounding clicks): 3 taps over 4 clicks for
//! a triplet feel, 5 for a quintuplet feel, 7 for a septuplet feel. This is
//! the one mode where `clicks()` and `expected_taps()` diverge in count and
//! spacing.

use vstd::prelude::*;

use crate::schedule::{ClickEvent, ExpectedTap, Schedule};
use crate::timing::{beat_duration_ns, beat_indices, beat_ns, lemma_all_kept, lemma_prefix_kept, pulse_click};

verus! {

/// Grounding clicks per bar.
pub const GROUNDING_BEATS_PER_BAR: u32 = 4;

/// Time of tap `i` of bar `bar_index`: the bar's start plus `i / n` of a
/// bar, rounded down to a whole nanosecond.
pub open spec fn tuplet_tap_time(bar: u64, subdivisions: u32, bar_index: int, i: int) -> int {
    bar * bar_index + (bar * i) / (subdivisions as int)
}

/// Tap `j` (counted over the whole session, `subdivisions` per bar) as a
/// scored expected tap, if it is at or before `session_duration`.
pub open spec fn tuplet_tap(bar: u64, subdivisions: u32, session_duration: u64) -> spec_fn(
    int,
) -> Option<ExpectedTap> {
    |j: int|
        {
            let at = tuplet_tap_time(
                bar,
                subdivisions,
                j / (subdivisions as int),
                j % (subdivisions as int),
            );
            if at <= session_duration {
                Some(ExpectedTap { at: at as u64, informational: false })
            } else {
                None
            }
        }
}

#[derive(Debug, Clone, Copy)]
pub struct TupletSchedule {
    bpm: u32,
    subdivisions: u32,
    bars: u32,
}

impl TupletSchedule {
    #[verifier::type_invariant]
    spec fn well_formed(self) -> bool {
        &&& self.bpm > 0
        &&& self.subdivisions > 0
        &&& self.bars > 0
        &&& self.bars * GROUNDING_BEATS_PER_BAR <= u32::MAX
    }

    pub closed spec fn spec_bpm(self) -> u32 {
        self.bpm
    }

    pub closed spec fn spec_subdivisions(self) -> u32 {
        self.subdivisions
    }

    pub closed spec fn spec_bars(self) -> u32 {
        self.bars
    }

    /// `subdivisions` is the number of evenly spaced taps expected per bar
    /// (3, 5 or 7 in the product; other positive values are accepted).
    /// `bars * 4` must fit in a `u32`: the grounding clicks of the session
    /// are counted in one.
    pub fn new(bpm: u32, subdivisions: u32, bars: u32) -> (schedule: Self)
        requires
            bpm > 0,
            subdivisions > 0,
            bars > 0,
            bars * 4 <= u32::MAX,
        ensures
            schedule.spec_bpm() == bpm,
            schedule.spec_subdivisions() == subdivisions,
            schedule.spec_bars() == bars,
    {
        TupletSchedule { bpm, subdivisions, bars }
    }

    /// Length of one bar (4 grounding beats), in nanoseconds.
    fn bar_duration(&self) -> (bar: u64)
        ensures
            bar == 4 * beat_ns(self.spec_bpm()),
            bar <= 240_000_000_000u64,
    {
        proof {
            use_type_invariant(self);
        }
        beat_duration_ns(self.bpm) * 4
    }
}

impl Schedule for TupletSchedule {
    /// Grounding clicks `0..=4 * bars` (the last one closes the final bar).
    open spec fn click_plan(&self, session_duration: u64) -> Seq<ClickEvent> {
        beat_indices((self.spec_bars() * 4 + 1) as nat).filter_map(
            pulse_click(beat_ns(self.spec_bpm()), session_duration),
        )
    }

    /// `subdivisions` taps per bar, evenly spread over the bar.
    open spec fn tap_plan(&self, session_duration: u64) -> Seq<ExpectedTap> {
        beat_indices((self.spec_bars() * self.spec_subdivisions()) as nat).filter_map(
            tuplet_tap((4 * beat_ns(self.spec_bpm())) as u64, self.spec_subdivisions(), session_duration),
        )
    }

    fn clicks(&self, session_duration: u64) -> (clicks: Vec<ClickEvent>) {
        proof {
            use_type_invariant(self);
        }
        let beat = beat_duration_ns(self.bpm);
        let total_beats = self.bars * GROUNDING_BEATS_PER_BAR;
        let mut clicks: Vec<ClickEvent> = Vec::new();
        let mut i: u64 = 0;
        while i <= total_beats as u64
            invariant
                i <= total_beats + 1,
                total_beats == self.spec_bars() * 4,
                total_beats <= u32::MAX,
                beat == beat_ns(self.spec_bpm()),
                beat <= 60_000_000_000u64,
                clicks@ == beat_indices(i as nat).filter_map(pulse_click(beat, session_duration)),
            decreases total_beats + 1 - i,
        {
            assert(beat_indices(i as nat + 1).drop_last() == beat_indices(i as nat));
            assert(beat_indices(i as nat + 1).last() == i as int);
            assert(i as u128 * beat as u128 <= 0x1_0000_0000u128 * 60_000_000_000u128)
                by (nonlinear_arith)
                requires
                    i <= 0x1_0000_0000u128,
                    beat <= 60_000_000_000u64,
            ;
            let at = i as u128 * beat as u128;
            if at <= session_duration as u128 {
                clicks.push(ClickEvent { at: at as u64 });
            }
            i = i + 1;
        }
        clicks
    }

    fn expected_taps(&self, session_duration: u64) -> (taps: Vec<ExpectedTap>) {
        proof {
            use_type_invariant(self);
        }
        let bar = self.bar_duration();
        let n = self.subdivisions;
        let bars = self.bars;
        assert(bars as u64 * n as u64 <= 0xffff_ffffu64 * 0xffff_ffffu64) by (nonlinear_arith)
            requires
                bars <= 0xffff_ffffu64,
                n <= 0xffff_ffffu64,
        ;
        let total = bars as u64 * n as u64;
        let mut taps: Vec<ExpectedTap> = Vec::new();
        let mut j: u64 = 0;
        while j < total
            invariant
                j <= total,
                total == self.spec_bars() * self.spec_subdivisions(),
                n == self.spec_subdivisions(),
                n > 0,
                bar == 4 * beat_ns(self.spec_bpm()),
                bar <= 240_000_000_000u64,
                taps@ == beat_indices(j as nat).filter_map(tuplet_tap(bar, n, session_duration)),
            decreases total - j,
        {
            assert(beat_indices(j as nat + 1).drop_last() == beat_indices(j as nat));
            assert(beat_indices(j as nat + 1).last() == j as int);
            let bar_index = j / n as u64;
            let i = j % n as u64;
            assert(bar_index <= 0x1_0000_0000u64 && i < 0x1_0000_0000u64) by (nonlinear_arith)
                requires
                    bar_index == j / (n as u64),
                    i == j % (n as u64),
                    j < total,
                    total == self.spec_bars() * n,
                    self.spec_bars() <= u32::MAX,
                    n <= u32::MAX,
                    n > 0,
            ;
            assert(bar as u128 * bar_index as u128 <= 240_000_000_000u128 * 0x1_0000_0000u128
                && bar as u128 * i as u128 <= 240_000_000_000u128 * 0x1_0000_0000u128)
                by (nonlinear_arith)
                requires
                    bar_index <= 0x1_0000_0000u64,
                    i < 0x1_0000_0000u64,
                    bar <= 240_000_000_000u64,
            ;
            let at = bar as u128 * bar_index as u128 + (bar as u128 * i as u128) / n as u128;
            if at <= session_duration as u128 {
                taps.push(ExpectedTap::scored(at as u64));
            }
            j = j + 1;
        }
        taps
    }
}

/// `floor((a + b) / n) - floor(a / n)` is `floor(b / n)` or one more.
proof fn lemma_floor_div_step(a: int, b: int, n: int)
    requires
        a >= 0,
        b >= 0,
        n > 0,
    ensures
        (a + b) / n - a / n == b / n || (a + b) / n - a / n == b / n + 1,
{
    vstd::arithmetic::div_mod::lemma_fundamental_div_mod(a, n);
    vstd::arithmetic::div_mod::lemma_fundamental_div_mod(b, n);
    let q = a / n;
    let r = a % n;
    let qb = b / n;
    let rb = b % n;
    assert(a + b == (q + qb) * n + (r + rb)) by (nonlinear_arith)
        requires
            a == n * q + r,
            b == n * qb + rb,
    ;
    if r + rb < n {
        vstd::arithmetic::div_mod::lemma_fundamental_div_mod_converse(a + b, n, q + qb, r + rb);
    } else {
        assert(a + b == (q + qb + 1) * n + (r + rb - n)) by (nonlinear_arith)
            requires
                a + b == (q + qb) * n + (r + rb),
        ;
        vstd::arithmetic::div_mod::lemma_fundamental_div_mod_converse(
            a + b,
            n,
            q + qb + 1,
            r + rb - n,
        );
    }
}

/// The taps of a bar are spread evenly across it: the first falls on the
/// bar's downbeat, consecutive taps are `bar / n` apart (rounded down or up
/// to whole nanoseconds), and the last falls before the next downbeat.
pub proof fn lemma_taps_evenly_spaced(bar: u64, subdivisions: u32, bar_index: int, i: int)
    requires
        subdivisions > 0,
        bar > 0,
        bar_index >= 0,
        0 <= i,
        i + 1 < subdivisions,
    ensures
        tuplet_tap_time(bar, subdivisions, bar_index, 0) == bar * bar_index,
        ({
            let step = tuplet_tap_time(bar, subdivisions, bar_index, i + 1) - tuplet_tap_time(
                bar,
                subdivisions,
                bar_index,
                i,
            );
            step == (bar as int) / (subdivisions as int) || step == (bar as int) / (
            subdivisions as int) + 1
        }),
        tuplet_tap_time(bar, subdivisions, bar_index, subdivisions - 1) < bar * (bar_index + 1),
{
    let n = subdivisions as int;
    assert(bar * (i + 1) == bar * i + bar) by (nonlinear_arith);
    assert(bar * i >= 0) by (nonlinear_arith)
        requires
            bar > 0,
            i >= 0,
    ;
    lemma_floor_div_step(bar * i, bar as int, n);
    assert((bar * (n - 1)) / n < bar) by {
        vstd::arithmetic::div_mod::lemma_fundamental_div_mod(bar * (n - 1), n);
        assert(bar * (n - 1) < bar * n) by (nonlinear_arith)
            requires
                bar > 0,
                n > 0,
        ;
        assert(n * ((bar * (n - 1)) / n) <= bar * (n - 1));
        assert(((bar * (n - 1)) / n) < bar) by (nonlinear_arith)
            requires
                n * ((bar * (n - 1)) / n) <= bar * (n - 1),
                bar * (n - 1) < bar * n,
                n > 0,
        ;
    }
    assert(bar * (bar_index + 1) == bar * bar_index + bar) by (nonlinear_arith);
}

/// Time of tap `j` counted over the whole session, `subdivisions` per bar.
pub open spec fn session_tap_time(bar: u64, subdivisions: u32, j: int) -> int {
    tuplet_tap_time(bar, subdivisions, j / (subdivisions as int), j % (subdivisions as int))
}

/// The last tap of a bar comes before the next bar's downbeat.
proof fn lemma_last_tap_before_next_bar(bar: u64, n: int)
    requires
        bar > 0,
        n > 0,
    ensures
        0 <= (bar * (n - 1)) / n < bar,
{
    assert(0 <= bar * (n - 1) < bar * n) by (nonlinear_arith)
        requires
            bar > 0,
            n > 0,
    ;
    vstd::arithmetic::div_mod::lemma_fundamental_div_mod(bar * (n - 1), n);
    vstd::arithmetic::div_mod::lemma_div_pos_is_pos(bar * (n - 1), n);
    assert(n * ((bar * (n - 1)) / n) <= bar * (n - 1));
    assert(((bar * (n - 1)) / n) < bar) by (nonlinear_arith)
        requires
            n * ((bar * (n - 1)) / n) <= bar * (n - 1),
            bar * (n - 1) < bar * n,
            n > 0,
    ;
}

/// From one tap to the next the time never goes back, and it moves forward
/// when a bar is at least `subdivisions` nanoseconds long.
proof fn lemma_next_tap_not_earlier(bar: u64, subdivisions: u32, j: int)
    requires
        bar > 0,
        subdivisions > 0,
        j >= 0,
    ensures
        session_tap_time(bar, subdivisions, j) <= session_tap_time(bar, subdivisions, j + 1),
        bar >= subdivisions ==> session_tap_time(bar, subdivisions, j) < session_tap_time(
            bar,
            subdivisions,
            j + 1,
        ),
{
    let n = subdivisions as int;
    let b = j / n;
    let i = j % n;
    vstd::arithmetic::div_mod::lemma_fundamental_div_mod(j, n);
    assert(b >= 0) by {
        vstd::arithmetic::div_mod::lemma_div_pos_is_pos(j, n);
    }
    if i + 1 < n {
        vstd::arithmetic::div_mod::lemma_fundamental_div_mod_converse(j + 1, n, b, i + 1);
        lemma_taps_evenly_spaced(bar, subdivisions, b, i);
        if bar >= subdivisions {
            assert((bar as int) / n >= 1) by {
                vstd::arithmetic::div_mod::lemma_div_is_ordered(n, bar as int, n);
                vstd::arithmetic::div_mod::lemma_div_by_self(n);
            }
        }
        assert((bar as int) / n >= 0) by {
            vstd::arithmetic::div_mod::lemma_div_pos_is_pos(bar as int, n);
        }
    } else {
        assert(i == n - 1);
        assert((b + 1) * n == n * b + n) by (nonlinear_arith);
        vstd::arithmetic::div_mod::lemma_fundamental_div_mod_converse(j + 1, n, b + 1, 0);
        lemma_last_tap_before_next_bar(bar, n);
        assert(bar * (b + 1) == bar * b + bar) by (nonlinear_arith);
    }
}

/// Tap times never go back over the session, and strictly increase when a
/// bar is at least `subdivisions` nanoseconds long.
proof fn lemma_taps_in_order(bar: u64, subdivisions: u32, i: int, j: int)
    requires
        bar > 0,
        subdivisions > 0,
        0 <= i <= j,
    ensures
        session_tap_time(bar, subdivisions, i) <= session_tap_time(bar, subdivisions, j),
        bar >= subdivisions && i < j ==> session_tap_time(bar, subdivisions, i) < session_tap_time(
            bar,
            subdivisions,
            j,
        ),
    decreases j - i,
{
    if i < j {
        lemma_taps_in_order(bar, subdivisions, i, j - 1);
        lemma_next_tap_not_earlier(bar, subdivisions, j - 1);
    }
}

/// When the session holds the last tap of the last bar, the expected taps
/// are all `bars * subdivisions` of them, each scored at its place in its
/// bar, in time order, and strictly increasing unless a bar is shorter
/// (in nanoseconds) than its number of taps.
pub proof fn lemma_full_session_taps(schedule: TupletSchedule, session_duration: u64)
    requires
        schedule.spec_bpm() > 0,
        schedule.spec_subdivisions() > 0,
        schedule.spec_bars() > 0,
        session_tap_time(
            (4 * beat_ns(schedule.spec_bpm())) as u64,
            schedule.spec_subdivisions(),
            schedule.spec_bars() * schedule.spec_subdivisions() - 1,
        ) <= session_duration,
    ensures
        ({
            let taps = schedule.tap_plan(session_duration);
            let bar = (4 * beat_ns(schedule.spec_bpm())) as u64;
            let n = schedule.spec_subdivisions();
            &&& taps.len() == schedule.spec_bars() * n
            &&& forall|k: int|
                0 <= k < taps.len() ==> #[trigger] taps[k] == (ExpectedTap {
                    at: session_tap_time(bar, n, k) as u64,
                    informational: false,
                })
            &&& forall|i: int, j: int| 0 <= i <= j < taps.len() ==> taps[i].at <= taps[j].at
            &&& bar >= n ==> forall|i: int, j: int| 0 <= i < j < taps.len() ==> taps[i].at < taps[j].at
        }),
{
    let bar = (4 * beat_ns(schedule.spec_bpm())) as u64;
    let n = schedule.spec_subdivisions();
    let total = (schedule.spec_bars() * n) as nat;
    let f = tuplet_tap(bar, n, session_duration);
    assert(beat_ns(schedule.spec_bpm()) > 0) by {
        assert(60_000_000_000u64 / (schedule.spec_bpm() as u64) >= 13) by (nonlinear_arith)
            requires
                0 < schedule.spec_bpm() <= 4_294_967_295u64,
        ;
    }
    assert(bar > 0);
    assert(total >= 1) by (nonlinear_arith)
        requires
            total == schedule.spec_bars() * n,
            schedule.spec_bars() > 0,
            n > 0,
    ;
    assert forall|k: int| 0 <= k < total implies (#[trigger] f(k)) is Some by {
        lemma_taps_in_order(bar, n, k, total - 1);
        lemma_taps_in_order(bar, n, 0, k);
        assert(session_tap_time(bar, n, 0) >= 0) by {
            vstd::arithmetic::div_mod::lemma_div_pos_is_pos(0int, n as int);
        }
    }
    lemma_all_kept(total, f);
    let taps = schedule.tap_plan(session_duration);
    assert(taps == beat_indices(total).filter_map(f));
    assert forall|i: int, j: int| 0 <= i <= j < taps.len() implies taps[i].at <= taps[j].at by {
        lemma_taps_in_order(bar, n, i, j);
        lemma_taps_in_order(bar, n, j, total - 1);
        lemma_taps_in_order(bar, n, 0, i);
    }
    if bar >= n {
        assert forall|i: int, j: int| 0 <= i < j < taps.len() implies taps[i].at < taps[j].at by {
            lemma_taps_in_order(bar, n, i, j);
            lemma_taps_in_order(bar, n, j, total - 1);
            lemma_taps_in_order(bar, n, 0, i);
        }
    }
}

/// The grounding clicks are the plain pulse `0, beat, 2 * beat, ...` up to
/// the downbeat that closes the last bar, cut short by the end of the
/// session: there are `min(4 * bars, session / beat) + 1` of them, and none
/// lies after the end of the last bar.
pub proof fn lemma_grounding_clicks(schedule: TupletSchedule, session_duration: u64)
    requires
        schedule.spec_bpm() > 0,
        schedule.spec_bars() > 0,
    ensures
        ({
            let clicks = schedule.click_plan(session_duration);
            let beat = beat_ns(schedule.spec_bpm()) as int;
            let closing = 4 * schedule.spec_bars() as int;
            let last = if closing <= (session_duration as int) / beat {
                closing
            } else {
                (session_duration as int) / beat
            };
            &&& clicks.len() == last + 1
            &&& forall|k: int| 0 <= k < clicks.len() ==> #[trigger] clicks[k].at == k * beat
            &&& forall|k: int| 0 <= k < clicks.len() ==> #[trigger] clicks[k].at <= closing * beat
        }),
{
    let beat = beat_ns(schedule.spec_bpm()) as int;
    let closing = 4 * schedule.spec_bars() as int;
    let q = (session_duration as int) / beat;
    let last = if closing <= q {
        closing
    } else {
        q
    };
    assert(beat > 0) by {
        assert(60_000_000_000u64 / (schedule.spec_bpm() as u64) >= 13) by (nonlinear_arith)
            requires
                0 < schedule.spec_bpm() <= 4_294_967_295u64,
        ;
    }
    vstd::arithmetic::div_mod::lemma_fundamental_div_mod(session_duration as int, beat);
    vstd::arithmetic::div_mod::lemma_div_pos_is_pos(session_duration as int, beat);
    let f = pulse_click(beat as u64, session_duration);
    let n = (schedule.spec_bars() * 4 + 1) as nat;
    assert forall|k: int| 0 <= k < n implies ((#[trigger] f(k)) is Some <==> k < last + 1) by {
        let r = session_duration as int % beat;
        assert(session_duration == beat * q + r && 0 <= r < beat);
        assert(k <= closing);
        if k <= q {
            assert(k * beat <= session_duration) by (nonlinear_arith)
                requires
                    k <= q,
                    beat > 0,
                    session_duration == beat * q + r,
                    r >= 0,
            ;
            assert(f(k) is Some);
        } else {
            assert(k * beat > session_duration) by (nonlinear_arith)
                requires
                    k >= q + 1,
                    beat > 0,
                    session_duration == beat * q + r,
                    r < beat,
            ;
            assert(f(k) is None);
        }
    }
    lemma_prefix_kept(n, (last + 1) as nat, f);
    let clicks = schedule.click_plan(session_duration);
    assert forall|k: int| 0 <= k < clicks.len() implies #[trigger] clicks[k].at <= closing * beat by {
        assert(k * beat <= closing * beat) by (nonlinear_arith)
            requires
                k <= closing,
                beat > 0,
        ;
        assert(k * beat >= 0) by (nonlinear_arith)
            requires
                k >= 0,
                beat > 0,
        ;
    }
}

} // verus!
