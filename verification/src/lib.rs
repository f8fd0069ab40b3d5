//! Timing/beat-schedule primitives for a keyboard rhythm trainer, with the
//! pure decision logic of the terminal app around them.
//!
//! Every point in time is a `u64` count of nanoseconds from the start of a
//! session (or of a calibration round), so that all arithmetic on the
//! timeline is exact.
//!
//! Two grids are kept apart: the metronome pulse that is actually played as
//! audio ([`schedule::ClickEvent`]) and the points at which the player is
//! expected to tap ([`schedule::ExpectedTap`]). For Tap Along and Quiet Four
//! they coincide; for Tuplets the metronome keeps a plain four-beat pulse
//! while the player taps n evenly spaced subdivisions across the bar.

pub mod timing;
pub mod schedule;
pub mod evaluator;
pub mod schedules;
pub mod settings;
pub mod clock;
pub mod calibration;
pub mod keyboard;
pub mod menu;
pub mod session;
pub mod feedback;
pub mod rhythm_reader_session;
pub mod rhythm_reader_ui;
pub mod metronome;
