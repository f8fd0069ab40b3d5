//! The click grid and the expected-tap grid of an exercise.

use vstd::prelude::*;

verus! {

/// A metronome click that is actually rendered as audio. Whether or not it
/// doubles as an [`ExpectedTap`] depends on the mode.
#[derive(Debug, Clone, Copy, PartialEq, Eq, Structural)]
pub struct ClickEvent {
    /// Nanoseconds from the start of the session.
    pub at: u64,
}

/// A point in time at which the player is expected to press the key, used
/// as the reference for timing evaluation.
///
/// `informational` marks taps that are still expected and shown to the
/// player, but that must not count towards the session score (e.g. the
/// beats tapped during the silent bar in Quiet Four).
#[derive(Debug, Clone, Copy, PartialEq, Eq, Structural)]
pub struct ExpectedTap {
    /// Nanoseconds from the start of the session.
    pub at: u64,
    pub informational: bool,
}

impl ExpectedTap {
    /// An expected tap that counts towards the score.
    pub fn scored(at: u64) -> (tap: Self)
        ensures
            tap == (ExpectedTap { at, informational: false }),
    {
        ExpectedTap { at, informational: false }
    }

    /// An expected tap that is shown to the player but not scored.
    pub fn informational(at: u64) -> (tap: Self)
        ensures
            tap == (ExpectedTap { at, informational: true }),
    {
        ExpectedTap { at, informational: true }
    }
}

/// Produces the audible click grid and the expected-tap grid of an exercise
/// mode. Implementations are deterministic functions of the schedule and of
/// `session_duration` (nanoseconds): the grids hold exactly the points at or
/// before `session_duration`.
pub trait Schedule {
    /// The clicks that `clicks` returns.
    spec fn click_plan(&self, session_duration: u64) -> Seq<ClickEvent>;

    /// The expected taps that `expected_taps` returns.
    spec fn tap_plan(&self, session_duration: u64) -> Seq<ExpectedTap>;

    /// All metronome clicks that should be audibly played during the
    /// session.
    fn clicks(&self, session_duration: u64) -> (clicks: Vec<ClickEvent>)
        ensures
            clicks@ == self.click_plan(session_duration),
    ;

    /// All points in time the player is expected to tap, in chronological
    /// order.
    fn expected_taps(&self, session_duration: u64) -> (taps: Vec<ExpectedTap>)
        ensures
            taps@ == self.tap_plan(session_duration),
    ;
}

} // verus!
