//! Audio/visual/input latency calibration: the decisions of the
//! converge-and-tap rounds, and the compensation of tap timestamps.
//!
//! Two bars slide inward from the screen edges and meet in the center; the
//! player presses SPACE at the moment they meet. The signed deviation of
//! each round's tap from that moment is measured, and the rounded mean
//! over all rounds becomes the offset that is subtracted from every later
//! tap timestamp. Rendering and input polling happen in the application.

use vstd::prelude::*;

use crate::clock::{saturating_sub, SessionClock};
use crate::feedback::{abs, AccuracyBand};
use crate::keyboard::KeyboardSignal;
use crate::timing::NANOS_PER_MILLI;

verus! {

/// Number of converge-and-tap rounds used to estimate the offset.
pub const CALIBRATION_ROUNDS: usize = 5;

/// How long one full inward slide takes (edge to center), in nanoseconds.
/// Slower than a session tempo on purpose: calibration is about steady
/// precision, not speed.
pub const CONVERGE_DURATION_NS: u64 = 1_800_000_000;

/// Pause between rounds, in nanoseconds.
pub const PAUSE_BETWEEN_ROUNDS_NS: u64 = 500_000_000;

/// How long a round's result stays visible after the tap, in nanoseconds.
pub const RESULT_FLASH_DURATION_NS: u64 = 600_000_000;

#[derive(Debug, Clone, Copy, PartialEq, Eq, Structural)]
pub enum CalibrationOutcome {
    /// The player completed all rounds; carries the estimated offset to
    /// apply to keyboard timestamps (see [`apply_offset`]).
    Measured { offset_ms: i64 },
    /// The player quit during calibration.
    Aborted,
}

/// The state of one converge-and-tap round: the first tap of the round, if
/// any, as its signed deviation from the meeting moment and the round time
/// at which it was seen.
#[derive(Debug, Clone, Copy)]
pub struct CalibrationRound {
    pub tapped: Option<(i128, u64)>,
}

/// Deviation of a tap at `round_relative_at` (nanoseconds since the round
/// started) from the moment the bars meet; negative = early.
pub open spec fn round_deviation(round_relative_at: u64) -> int {
    round_relative_at - CONVERGE_DURATION_NS
}

/// What a round ends with at round time `elapsed`: the tapped deviation once
/// the result flash has been shown; the penalty of a whole slide if no tap
/// came within twice the slide time; otherwise the round goes on.
pub open spec fn round_result(round: CalibrationRound, elapsed: u64) -> Option<i128> {
    match round.tapped {
        Some((deviation, tapped_at)) => if saturating_gap(elapsed, tapped_at)
            >= RESULT_FLASH_DURATION_NS {
            Some(deviation)
        } else {
            None
        },
        None => if elapsed > 2 * CONVERGE_DURATION_NS {
            Some(CONVERGE_DURATION_NS as i128)
        } else {
            None
        },
    }
}

/// `a - b`, or 0 if `b` is later than `a`.
pub open spec fn saturating_gap(a: u64, b: u64) -> int {
    if a >= b {
        a - b
    } else {
        0
    }
}

impl CalibrationRound {
    /// A round with no tap yet.
    pub fn new() -> (round: Self)
        ensures
            round.tapped is None,
    {
        CalibrationRound { tapped: None }
    }

    /// Records a tap at `round_relative_at` (nanoseconds since the round
    /// started) seen at round time `elapsed`. Only the first tap of a round
    /// counts; later ones are ignored.
    pub fn on_tap(&mut self, round_relative_at: u64, elapsed: u64)
        ensures
            final(self).tapped == match old(self).tapped {
                Some(t) => Some(t),
                None => Some(
                    (round_deviation(round_relative_at) as i128, elapsed),
                ),
            },
    {
        if self.tapped.is_none() {
            let deviation = round_relative_at as i128 - CONVERGE_DURATION_NS as i128;
            self.tapped = Some((deviation, elapsed));
        }
    }

    /// The deviation of this round's tap, if the player has tapped.
    pub fn tapped_deviation_ns(&self) -> (deviation: Option<i128>)
        ensures
            deviation == match self.tapped {
                Some((d, _)) => Some(d),
                None => None,
            },
    {
        match self.tapped {
            Some((d, _)) => Some(d),
            None => None,
        }
    }

    /// The deviation this round ends with at round time `elapsed`, or
    /// `None` while the round goes on.
    pub fn outcome(&self, elapsed: u64) -> (result: Option<i128>)
        ensures
            result == round_result(*self, elapsed),
    {
        match self.tapped {
            Some((deviation, tapped_at)) => {
                let gap = if elapsed >= tapped_at {
                    elapsed - tapped_at
                } else {
                    0
                };
                if gap >= RESULT_FLASH_DURATION_NS {
                    Some(deviation)
                } else {
                    None
                }
            },
            None => {
                if elapsed > 2 * CONVERGE_DURATION_NS {
                    Some(CONVERGE_DURATION_NS as i128)
                } else {
                    None
                }
            },
        }
    }
}

/// Sum of the deviations in `s`.
pub open spec fn deviation_sum(s: Seq<i128>) -> int
    decreases s.len(),
{
    if s.len() == 0 {
        0
    } else {
        deviation_sum(s.drop_last()) + s.last()
    }
}

/// `a / d` rounded to the nearest integer, halves away from zero (as
/// `f64::round` does); `d > 0`.
pub open spec fn round_div(a: int, d: int) -> int {
    if a >= 0 {
        (2 * a + d) / (2 * d)
    } else {
        -((2 * (-a) + d) / (2 * d))
    }
}

/// The offset (milliseconds) measured from the rounds' deviations
/// (nanoseconds): their mean, rounded to a whole millisecond; 0 without
/// rounds.
pub open spec fn measured_offset_ms(deviations: Seq<i128>) -> int {
    if deviations.len() == 0 {
        0
    } else {
        round_div(deviation_sum(deviations), deviations.len() * NANOS_PER_MILLI)
    }
}

/// The sum of `n` deviations that are all `d` is `n * d`.
proof fn lemma_constant_sum(s: Seq<i128>, d: int)
    requires
        forall|i: int| 0 <= i < s.len() ==> s[i] == d,
    ensures
        deviation_sum(s) == s.len() * d,
    decreases s.len(),
{
    if s.len() > 0 {
        lemma_constant_sum(s.drop_last(), d);
        assert(s.len() * d == (s.len() - 1) * d + d) by (nonlinear_arith);
    }
}

/// When every round lands the same whole number of milliseconds `c` away
/// from the meeting moment, the measured offset is exactly `c`.
pub proof fn lemma_steady_rounds_measure_their_deviation(deviations: Seq<i128>, c: int)
    requires
        deviations.len() > 0,
        forall|i: int| 0 <= i < deviations.len() ==> deviations[i] == c * NANOS_PER_MILLI,
    ensures
        measured_offset_ms(deviations) == c,
{
    let n = deviations.len() as int;
    let m = NANOS_PER_MILLI as int;
    lemma_constant_sum(deviations, c * m);
    let d = n * m;
    assert(d > 0) by (nonlinear_arith)
        requires
            d == n * m,
            n > 0,
            m > 0,
    ;
    if c >= 0 {
        assert(2 * (n * (c * m)) + d == c * (2 * d) + d) by (nonlinear_arith)
            requires
                d == n * m,
        ;
        vstd::arithmetic::div_mod::lemma_fundamental_div_mod_converse(
            2 * (n * (c * m)) + d,
            2 * d,
            c,
            d,
        );
    } else {
        assert(n * (c * m) < 0) by (nonlinear_arith)
            requires
                n > 0,
                m > 0,
                c < 0,
        ;
        assert(2 * (-(n * (c * m))) + d == (-c) * (2 * d) + d) by (nonlinear_arith)
            requires
                d == n * m,
        ;
        vstd::arithmetic::div_mod::lemma_fundamental_div_mod_converse(
            2 * (-(n * (c * m))) + d,
            2 * d,
            -c,
            d,
        );
    }
}

/// The calibration offset: the mean of the rounds' deviations, rounded to
/// a whole millisecond (0 if there are no rounds).
pub fn calibration_offset_ms(deviations_ns: &[i128]) -> (offset_ms: i64)
    requires
        deviations_ns@.len() <= 0x0800_0000_0000_0000,
        forall|i: int|
            0 <= i < deviations_ns@.len() ==> -(u64::MAX as int) <= #[trigger] deviations_ns@[i]
                <= u64::MAX,
    ensures
        offset_ms == measured_offset_ms(deviations_ns@),
{
    let n = deviations_ns.len();
    if n == 0 {
        return 0;
    }
    let mut sum: i128 = 0;
    let mut i: usize = 0;
    while i < n
        invariant
            n == deviations_ns@.len(),
            n <= 0x0800_0000_0000_0000,
            i <= n,
            forall|k: int|
                0 <= k < deviations_ns@.len() ==> -(u64::MAX as int) <= #[trigger] deviations_ns@[k]
                    <= u64::MAX,
            sum == deviation_sum(deviations_ns@.take(i as int)),
            -(i * (u64::MAX as int)) <= sum <= i * (u64::MAX as int),
        decreases n - i,
    {
        assert(deviations_ns@.take(i + 1).drop_last() == deviations_ns@.take(i as int));
        sum = sum + deviations_ns[i];
        i = i + 1;
    }
    assert(deviations_ns@.take(n as int) == deviations_ns@);
    let d: u128 = n as u128 * NANOS_PER_MILLI as u128;
    let magnitude: u128 = if sum >= 0 {
        sum as u128
    } else {
        (-sum) as u128
    };
    assert(magnitude <= n * (u64::MAX as int));
    assert(2 * magnitude + d <= (2 * d) * 0x2000_0000_0000u128) by (nonlinear_arith)
        requires
            magnitude <= n * (u64::MAX as int),
            d == n * 1_000_000,
            n >= 1,
    ;
    let q = (2 * magnitude + d) / (2 * d);
    assert(q <= 0x2000_0000_0000u128) by {
        vstd::arithmetic::div_mod::lemma_div_is_ordered(
            (2 * magnitude + d) as int,
            ((2 * d) * 0x2000_0000_0000u128) as int,
            (2 * d) as int,
        );
        vstd::arithmetic::div_mod::lemma_div_by_multiple(0x2000_0000_0000int, (2 * d) as int);
    }
    if sum >= 0 {
        q as i64
    } else {
        -(q as i128) as i64
    }
}

/// What polling the keyboard channel gave.
#[derive(Debug, Clone, Copy, PartialEq, Eq, Structural)]
pub enum Received {
    /// A signal from the keyboard thread.
    Signal(KeyboardSignal),
    /// Nothing pending.
    Nothing,
    /// The keyboard thread is gone.
    Closed,
}

/// Where a calibration run stands.
#[derive(Debug, Clone, Copy, PartialEq, Eq, Structural)]
pub enum CalibrationPhase {
    /// Converge-and-tap rounds are running.
    Rounds,
    /// All rounds are done; the measured offset waits for confirmation.
    Confirming { offset_ms: i64 },
    /// The run has ended.
    Over(CalibrationOutcome),
}

/// What a step of a calibration run asks of the application.
#[derive(Debug, Clone, Copy, PartialEq, Eq, Structural)]
pub enum CalibrationStep {
    /// Keep going: draw and poll again.
    Continue,
    /// A round has just ended: pause, then start the next round's clock
    /// (or show the offset, once all rounds are done).
    RoundEnded,
    /// The run is over, with this outcome.
    Over(CalibrationOutcome),
}

/// The abstract state of a [`CalibrationRun`].
pub struct CalibrationView {
    /// Deviations (nanoseconds) of the rounds done so far.
    pub deviations: Seq<i128>,
    /// The round in progress.
    pub round: CalibrationRound,
    pub phase: CalibrationPhase,
}

/// The player quits: q/Esc/Ctrl+C, or the keyboard thread is gone.
pub open spec fn quits(received: Received) -> bool {
    received == Received::Closed || received == Received::Signal(KeyboardSignal::Quit)
}

/// The round after what was received: a tap at round time `local_at`, seen
/// at round time `elapsed`, is recorded as [`CalibrationRound::on_tap`]
/// does; anything else leaves the round as it is.
pub open spec fn round_after(
    round: CalibrationRound,
    received: Received,
    local_at: u64,
    elapsed: u64,
) -> CalibrationRound {
    match received {
        Received::Signal(KeyboardSignal::Tap(_)) => CalibrationRound {
            tapped: match round.tapped {
                Some(t) => Some(t),
                None => Some((round_deviation(local_at) as i128, elapsed)),
            },
        },
        _ => round,
    }
}

/// One step of a calibration run at round time `elapsed`, given what was
/// received (a tap's time on the round clock being `local_at`). During the
/// rounds, quitting aborts the run; otherwise the round takes the input,
/// and once it ends its deviation is kept and a fresh round begins, or,
/// after the last round, the rounded mean of the deviations waits for
/// confirmation. Then a tap confirms that offset as measured, and quitting
/// aborts.
pub open spec fn calibration_next(
    v: CalibrationView,
    received: Received,
    local_at: u64,
    elapsed: u64,
) -> (CalibrationView, CalibrationStep) {
    match v.phase {
        CalibrationPhase::Rounds => if quits(received) {
            (
                CalibrationView {
                    deviations: v.deviations,
                    round: v.round,
                    phase: CalibrationPhase::Over(CalibrationOutcome::Aborted),
                },
                CalibrationStep::Over(CalibrationOutcome::Aborted),
            )
        } else {
            let r = round_after(v.round, received, local_at, elapsed);
            match round_result(r, elapsed) {
                None => (
                    CalibrationView { deviations: v.deviations, round: r, phase: v.phase },
                    CalibrationStep::Continue,
                ),
                Some(d) => {
                    let ds = v.deviations.push(d);
                    (
                        CalibrationView {
                            deviations: ds,
                            round: CalibrationRound { tapped: None },
                            phase: if ds.len() == CALIBRATION_ROUNDS {
                                CalibrationPhase::Confirming {
                                    offset_ms: measured_offset_ms(ds) as i64,
                                }
                            } else {
                                CalibrationPhase::Rounds
                            },
                        },
                        CalibrationStep::RoundEnded,
                    )
                },
            }
        },
        CalibrationPhase::Confirming { offset_ms } => if quits(received) {
            (
                CalibrationView {
                    deviations: v.deviations,
                    round: v.round,
                    phase: CalibrationPhase::Over(CalibrationOutcome::Aborted),
                },
                CalibrationStep::Over(CalibrationOutcome::Aborted),
            )
        } else if received is Signal && received->Signal_0 is Tap {
            (
                CalibrationView {
                    deviations: v.deviations,
                    round: v.round,
                    phase: CalibrationPhase::Over(CalibrationOutcome::Measured { offset_ms }),
                },
                CalibrationStep::Over(CalibrationOutcome::Measured { offset_ms }),
            )
        } else {
            (v, CalibrationStep::Continue)
        },
        CalibrationPhase::Over(outcome) => (v, CalibrationStep::Over(outcome)),
    }
}

/// The time on `round_clock` of a tap timestamped against `global`; 0 for
/// anything that is not a tap.
pub open spec fn local_tap_time(received: Received, round_clock: SessionClock, global: SessionClock) -> u64 {
    match received {
        Received::Signal(KeyboardSignal::Tap(e)) => saturating_sub(
            global.spec_start() + e.at,
            round_clock.spec_start() as int,
        ) as u64,
        _ => 0,
    }
}

/// A deviation a round can end with: the distance of a point on the round
/// clock from the meeting moment.
pub open spec fn deviation_in_range(d: int) -> bool {
    -(u64::MAX as int) <= d <= u64::MAX
}

/// A whole calibration: the rounds, then the confirmation of the measured
/// offset.
pub struct CalibrationRun {
    deviations: Vec<i128>,
    round: CalibrationRound,
    phase: CalibrationPhase,
}

impl View for CalibrationRun {
    type V = CalibrationView;

    closed spec fn view(&self) -> CalibrationView {
        CalibrationView { deviations: self.deviations@, round: self.round, phase: self.phase }
    }
}

impl CalibrationRun {
    /// The run's internal invariant: fewer deviations than rounds while the
    /// rounds run, all of them when confirming, the offset waiting for
    /// confirmation is their rounded mean, and every deviation (kept or
    /// tapped) is in range.
    pub closed spec fn wf(&self) -> bool {
        &&& self.deviations@.len() <= CALIBRATION_ROUNDS
        &&& self.phase is Rounds ==> self.deviations@.len() < CALIBRATION_ROUNDS
        &&& self.phase matches CalibrationPhase::Confirming { offset_ms } ==> offset_ms
            == measured_offset_ms(self.deviations@)
        &&& forall|i: int|
            0 <= i < self.deviations@.len() ==> deviation_in_range(#[trigger] self.deviations@[i] as int)
        &&& self.round.tapped matches Some((d, _)) ==> deviation_in_range(d as int)
    }

    /// A run before its first round.
    pub fn new() -> (run: Self)
        ensures
            run.wf(),
            run@.deviations.len() == 0,
            run@.round.tapped is None,
            run@.phase == CalibrationPhase::Rounds,
    {
        CalibrationRun { deviations: Vec::new(), round: CalibrationRound::new(), phase: CalibrationPhase::Rounds }
    }

    /// Takes what the keyboard channel gave at `elapsed` nanoseconds on
    /// `round_clock` (the current round's clock); a tap's timestamp is on
    /// `global`, the process-wide clock. See [`calibration_next`].
    pub fn step(
        &mut self,
        received: Received,
        round_clock: &SessionClock,
        global: SessionClock,
        elapsed: u64,
    ) -> (step: CalibrationStep)
        requires
            old(self).wf(),
            received matches Received::Signal(KeyboardSignal::Tap(e)) ==> global.spec_start() + e.at
                <= u64::MAX,
        ensures
            final(self).wf(),
            (final(self)@, step) == calibration_next(
                old(self)@,
                received,
                local_tap_time(received, *round_clock, global),
                elapsed,
            ),
    {
        match self.phase {
            CalibrationPhase::Rounds => {
                if received == Received::Closed || received == Received::Signal(KeyboardSignal::Quit) {
                    self.phase = CalibrationPhase::Over(CalibrationOutcome::Aborted);
                    return CalibrationStep::Over(CalibrationOutcome::Aborted);
                }
                if let Received::Signal(KeyboardSignal::Tap(e)) = received {
                    let local = round_clock.rebase(global, e.at);
                    self.round.on_tap(local, elapsed);
                }
                match self.round.outcome(elapsed) {
                    None => CalibrationStep::Continue,
                    Some(d) => {
                        self.deviations.push(d);
                        self.round = CalibrationRound::new();
                        if self.deviations.len() == CALIBRATION_ROUNDS {
                            let offset_ms = calibration_offset_ms(self.deviations.as_slice());
                            self.phase = CalibrationPhase::Confirming { offset_ms };
                        }
                        CalibrationStep::RoundEnded
                    },
                }
            },
            CalibrationPhase::Confirming { offset_ms } => {
                if received == Received::Closed || received == Received::Signal(KeyboardSignal::Quit) {
                    self.phase = CalibrationPhase::Over(CalibrationOutcome::Aborted);
                    CalibrationStep::Over(CalibrationOutcome::Aborted)
                } else if let Received::Signal(KeyboardSignal::Tap(_)) = received {
                    self.phase = CalibrationPhase::Over(CalibrationOutcome::Measured { offset_ms });
                    CalibrationStep::Over(CalibrationOutcome::Measured { offset_ms })
                } else {
                    CalibrationStep::Continue
                }
            },
            CalibrationPhase::Over(outcome) => CalibrationStep::Over(outcome),
        }
    }

    /// Where the run stands.
    pub fn phase(&self) -> (phase: CalibrationPhase)
        ensures
            phase == self@.phase,
    {
        self.phase
    }

    /// Number of rounds done so far.
    pub fn rounds_done(&self) -> (done: usize)
        ensures
            done == self@.deviations.len(),
    {
        self.deviations.len()
    }

    /// The round in progress.
    pub fn round(&self) -> (round: CalibrationRound)
        ensures
            round == self@.round,
    {
        self.round
    }
}

/// A tap timestamp `at` (nanoseconds) compensated by `offset_ms`: the
/// offset is subtracted, and a result before zero becomes zero.
pub open spec fn compensated_at(at: int, offset_ms: int) -> int {
    let shifted = at - offset_ms * NANOS_PER_MILLI;
    if shifted >= 0 {
        shifted
    } else {
        0
    }
}

/// Compensating by an offset and then by its opposite gives the raw
/// timestamp back, as long as the first step did not have to stop at zero.
pub proof fn lemma_compensation_undone(at: int, offset_ms: int)
    requires
        at >= 0,
        at - offset_ms * NANOS_PER_MILLI >= 0,
    ensures
        compensated_at(compensated_at(at, offset_ms), -offset_ms) == at,
{
}

/// Compensation never reorders taps: a tap that came no later than another
/// is still no later after both are compensated by the same offset.
pub proof fn lemma_compensation_keeps_order(a: int, b: int, offset_ms: int)
    requires
        a <= b,
    ensures
        compensated_at(a, offset_ms) <= compensated_at(b, offset_ms),
{
}

/// Compensating by a zero offset changes nothing.
pub proof fn lemma_zero_offset_is_identity(at: int)
    requires
        at >= 0,
    ensures
        compensated_at(at, 0) == at,
{
}

/// Compensates a raw tap timestamp (nanoseconds) with a previously
/// measured `offset_ms`: the offset is subtracted, so a positive offset
/// (taps arrived late during calibration) shifts taps earlier, saturating
/// at zero, and a negative one shifts them later.
pub fn apply_offset(at: u64, offset_ms: i64) -> (adjusted: u64)
    requires
        offset_ms < 0 ==> at - offset_ms * NANOS_PER_MILLI <= u64::MAX,
    ensures
        adjusted == compensated_at(at as int, offset_ms as int),
{
    if offset_ms >= 0 {
        assert(offset_ms as u128 * 1_000_000u128 <= 0x8000_0000_0000_0000u128 * 1_000_000u128)
            by (nonlinear_arith)
            requires
                0 <= offset_ms <= 0x7fff_ffff_ffff_ffffu128,
        ;
        let shift = offset_ms as u128 * NANOS_PER_MILLI as u128;
        if at as u128 >= shift {
            (at as u128 - shift) as u64
        } else {
            0
        }
    } else {
        let shift = (-(offset_ms as i128)) as u128 * NANOS_PER_MILLI as u128;
        (at as u128 + shift) as u64
    }
}

/// Columns each bar has traveled from its edge at `elapsed` nanoseconds
/// into the round, in a scene with `half_width` columns per side: the
/// slide's progress (capped at the meeting moment) times `half_width`,
/// rounded to the nearest column.
pub open spec fn travel(elapsed: u64, half_width: u16) -> int {
    let progressed = if elapsed < CONVERGE_DURATION_NS {
        elapsed as int
    } else {
        CONVERGE_DURATION_NS as int
    };
    (2 * progressed * half_width + CONVERGE_DURATION_NS) / (2 * CONVERGE_DURATION_NS as int)
}

/// How far each bar has traveled, in columns.
pub fn bar_travel(elapsed: u64, half_width: u16) -> (columns: u16)
    ensures
        columns == travel(elapsed, half_width),
        columns <= half_width,
{
    let progressed: u64 = if elapsed < CONVERGE_DURATION_NS {
        elapsed
    } else {
        CONVERGE_DURATION_NS
    };
    assert(2 * progressed as u128 * half_width as u128 <= 3_600_000_000u128 * 0x1_0000u128)
        by (nonlinear_arith)
        requires
            progressed <= 1_800_000_000u64,
            half_width <= 0xffffu16,
    ;
    let columns = (2 * progressed as u128 * half_width as u128 + CONVERGE_DURATION_NS as u128) / (2
        * CONVERGE_DURATION_NS as u128);
    assert(columns <= half_width) by (nonlinear_arith)
        requires
            columns == (2 * progressed * half_width + 1_800_000_000int) / 3_600_000_000int,
            progressed <= 1_800_000_000u64,
    ;
    columns as u16
}

/// The converge scene's middle row, `width` columns wide: a run of `#` in
/// from each edge as far as the bars have traveled, blanks between.
pub open spec fn converge_row(elapsed: u64, width: u16) -> Seq<char> {
    let t = travel(elapsed, width / 2);
    Seq::new(width as nat, |j: int| if j < t || j >= width - t { '#' } else { ' ' })
}

/// The converge scene's middle row at `elapsed` nanoseconds into a round.
pub fn converge_line(elapsed: u64, width: u16) -> (line: Vec<char>)
    ensures
        line@ == converge_row(elapsed, width),
{
    let t = bar_travel(elapsed, width / 2);
    let mut line: Vec<char> = Vec::new();
    let mut j: u16 = 0;
    while j < width
        invariant
            j <= width,
            t == travel(elapsed, width / 2),
            t <= width / 2,
            line@ == converge_row(elapsed, width).take(j as int),
        decreases width - j,
    {
        let c = if j < t || j >= width - t {
            '#'
        } else {
            ' '
        };
        line.push(c);
        assert(converge_row(elapsed, width).take(j + 1) == converge_row(elapsed, width).take(
            j as int,
        ).push(c));
        j = j + 1;
    }
    assert(converge_row(elapsed, width).take(width as int) == converge_row(elapsed, width));
    line
}

/// Largest round deviation (nanoseconds, either way) shown as good.
pub const GOOD_ROUND_NS: i128 = 50_000_000;

/// Largest round deviation (nanoseconds, either way) shown as fair.
pub const FAIR_ROUND_NS: i128 = 150_000_000;

/// The band a round's deviation is shown in: within 50 ms, within 150 ms,
/// or beyond.
pub open spec fn round_band_of(deviation_ns: i128) -> AccuracyBand {
    if abs(deviation_ns as int) <= GOOD_ROUND_NS {
        AccuracyBand::OnTime
    } else if abs(deviation_ns as int) <= FAIR_ROUND_NS {
        AccuracyBand::Close
    } else {
        AccuracyBand::Off
    }
}

/// The band a round's deviation (nanoseconds) is shown in.
pub fn round_band(deviation_ns: i128) -> (band: AccuracyBand)
    ensures
        band == round_band_of(deviation_ns),
{
    if -GOOD_ROUND_NS <= deviation_ns && deviation_ns <= GOOD_ROUND_NS {
        AccuracyBand::OnTime
    } else if -FAIR_ROUND_NS <= deviation_ns && deviation_ns <= FAIR_ROUND_NS {
        AccuracyBand::Close
    } else {
        AccuracyBand::Off
    }
}

/// How bad a band is: 0 for good, 1 for fair, 2 for off.
pub open spec fn band_rank(band: AccuracyBand) -> int {
    match band {
        AccuracyBand::OnTime => 0,
        AccuracyBand::Close => 1,
        AccuracyBand::Off => 2,
    }
}

/// A round's band depends only on how far off the tap was, not on which
/// side: early and late by the same amount look the same. A tap farther off
/// never looks better than a closer one; within 50 ms it is good, and
/// beyond 150 ms (the penalty of a missed round among them) it is off.
pub proof fn lemma_round_band_by_distance(d: i128, e: i128)
    requires
        d > i128::MIN,
    ensures
        round_band_of(d) == round_band_of((-d) as i128),
        abs(d as int) <= abs(e as int) ==> band_rank(round_band_of(d)) <= band_rank(round_band_of(e)),
        abs(d as int) <= 50_000_000 ==> round_band_of(d) == AccuracyBand::OnTime,
        abs(d as int) > 150_000_000 ==> round_band_of(d) == AccuracyBand::Off,
        50_000_000 < abs(d as int) <= 150_000_000 ==> round_band_of(d) == AccuracyBand::Close,
        round_band_of(CONVERGE_DURATION_NS as i128) == AccuracyBand::Off,
{
}

/// The bars start at the edges, never move back out, never pass the
/// middle, and meet in the middle once the slide time is up.
pub proof fn lemma_bars_slide_in_and_meet(e1: u64, e2: u64, half_width: u16)
    requires
        e1 <= e2,
    ensures
        travel(0, half_width) == 0,
        travel(e1, half_width) <= travel(e2, half_width),
        0 <= travel(e1, half_width) <= half_width,
        e1 >= CONVERGE_DURATION_NS ==> travel(e1, half_width) == half_width,
{
    let d = CONVERGE_DURATION_NS as int;
    let p1 = if e1 < CONVERGE_DURATION_NS {
        e1 as int
    } else {
        d
    };
    let p2 = if e2 < CONVERGE_DURATION_NS {
        e2 as int
    } else {
        d
    };
    let h = half_width as int;
    assert(2 * p1 * h + d <= 2 * p2 * h + d) by (nonlinear_arith)
        requires
            0 <= p1 <= p2,
            h >= 0,
    ;
    vstd::arithmetic::div_mod::lemma_div_is_ordered(2 * p1 * h + d, 2 * p2 * h + d, 2 * d);
    assert(0 <= 2 * p1 * h + d <= 2 * d * h + d) by (nonlinear_arith)
        requires
            0 <= p1 <= d,
            h >= 0,
            d > 0,
    ;
    vstd::arithmetic::div_mod::lemma_div_is_ordered(2 * p1 * h + d, 2 * d * h + d, 2 * d);
    vstd::arithmetic::div_mod::lemma_div_pos_is_pos(2 * p1 * h + d, 2 * d);
    vstd::arithmetic::div_mod::lemma_fundamental_div_mod_converse(2 * d * h + d, 2 * d, h, d);
    vstd::arithmetic::div_mod::lemma_fundamental_div_mod_converse(d, 2 * d, 0, d);
    assert(2 * (0u64 as int) * h == 0) by (nonlinear_arith);
    assert(travel(0, half_width) == d / (2 * d));
}

} // verus!
