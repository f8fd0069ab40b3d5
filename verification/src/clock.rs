//! Wall-clock timing anchors.
//!
//! The keyboard capture thread is started once for the whole process and
//! timestamps every tap against a single process-wide [`SessionClock`]
//! ("global clock"). Calibration rounds and sessions each have their own
//! logical start; [`SessionClock::rebase`] converts a global-clock timestamp
//! into "time since this phase's own start", the zero-based domain that
//! `TimingEvent`/`ClickEvent` use.
//!
//! A clock is its start time in nanoseconds on a time source: `start_now`
//! and `elapsed` read the system clock; `started_at` and `elapsed_at` take
//! readings from any source, such as a monotonic one.

use vstd::prelude::*;

verus! {

/// Reads the system clock: nanoseconds since the Unix epoch
/// (`SystemTime::elapsed` applied to `UNIX_EPOCH`), or 0 if the system
/// clock reads earlier than the epoch. Nothing is promised of the value: it
/// is the time.
#[verifier::external_body]
fn wall_clock_ns() -> u64 {
    match std::time::UNIX_EPOCH.elapsed() {
        Ok(since_epoch) => since_epoch.as_nanos() as u64,
        Err(_) => 0,
    }
}

/// `a - b`, or 0 if `b` is later than `a`.
pub open spec fn saturating_sub(a: int, b: int) -> int {
    if a >= b {
        a - b
    } else {
        0
    }
}

#[derive(Debug, Clone, Copy)]
pub struct SessionClock {
    start: u64,
}

impl SessionClock {
    /// When this clock started, in nanoseconds on the system clock.
    pub closed spec fn spec_start(self) -> u64 {
        self.start
    }

    /// A clock that starts now.
    pub fn start_now() -> (clock: Self) {
        Self::started_at(wall_clock_ns())
    }

    /// A clock that started at `start` (nanoseconds on the system clock).
    pub fn started_at(start: u64) -> (clock: Self)
        ensures
            clock.spec_start() == start,
    {
        SessionClock { start }
    }

    /// When this clock started, in nanoseconds on the system clock.
    pub fn start_ns(&self) -> (start: u64)
        ensures
            start == self.spec_start(),
    {
        self.start
    }

    /// Time elapsed since this clock started (0 if the system clock has
    /// been set back before the start): the elapsed time as of the current
    /// reading of the system clock, so the clock's start plus it is still a
    /// point on the system clock.
    pub fn elapsed(&self) -> (elapsed: u64)
        ensures
            exists|now: u64| elapsed == #[trigger] saturating_sub(now as int, self.spec_start() as int),
            self.spec_start() + elapsed <= u64::MAX,
    {
        let now = wall_clock_ns();
        let elapsed = self.elapsed_at(now);
        assert(elapsed == saturating_sub(now as int, self.spec_start() as int));
        elapsed
    }

    /// Time elapsed since this clock started, as of `now` (nanoseconds on
    /// the system clock); 0 if `now` is earlier than the start.
    pub fn elapsed_at(&self, now: u64) -> (elapsed: u64)
        ensures
            elapsed == saturating_sub(now as int, self.spec_start() as int),
    {
        if now >= self.start {
            now - self.start
        } else {
            0
        }
    }

    /// Converts an `elapsed()` value taken from a different clock
    /// (`earlier`) into "time since `self` started". Returns 0 if the event
    /// predates `self`'s start (not meaningful in this domain, so it
    /// saturates rather than underflowing).
    pub fn rebase(&self, earlier: SessionClock, global_elapsed: u64) -> (local: u64)
        requires
            earlier.spec_start() + global_elapsed <= u64::MAX,
        ensures
            local == saturating_sub(
                earlier.spec_start() + global_elapsed,
                self.spec_start() as int,
            ),
    {
        let event_at = earlier.start + global_elapsed;
        if event_at >= self.start {
            event_at - self.start
        } else {
            0
        }
    }
}

/// Rebasing a timestamp onto the clock it was taken against gives it back
/// unchanged.
pub proof fn lemma_rebase_onto_itself(clock: SessionClock, elapsed: u64)
    ensures
        saturating_sub(clock.spec_start() + elapsed, clock.spec_start() as int) == elapsed,
{
}

/// Rebasing an event onto a clock that started `gap` nanoseconds after the
/// one it was timestamped against takes `gap` off the timestamp, or gives 0
/// for an event before the later clock started.
pub proof fn lemma_rebase_subtracts_start_gap(earlier: SessionClock, later: SessionClock, elapsed: u64)
    requires
        earlier.spec_start() <= later.spec_start(),
    ensures
        saturating_sub(earlier.spec_start() + elapsed, later.spec_start() as int) == saturating_sub(
            elapsed as int,
            later.spec_start() - earlier.spec_start(),
        ),
{
}

/// Two events keep their order when rebased onto the same clock.
pub proof fn lemma_rebase_keeps_order(earlier: SessionClock, later: SessionClock, a: u64, b: u64)
    requires
        a <= b,
    ensures
        saturating_sub(earlier.spec_start() + a, later.spec_start() as int) <= saturating_sub(
            earlier.spec_start() + b,
            later.spec_start() as int,
        ),
{
}

} // verus!
