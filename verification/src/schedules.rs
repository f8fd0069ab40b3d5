//! One [`crate::schedule::Schedule`] per exercise mode.

pub mod tap_along;
pub mod quiet_four;
pub mod tuplet;
pub mod rhythm_reader;
