//! The wall-clock inputs the story director needs (passed in, so the runtime is testable).
use vstd::prelude::*;

verus! {

/// The wall-clock inputs the director needs.
#[derive(Debug, Clone, Copy, PartialEq, Eq, Structural)]
pub struct Clock {
    /// Day of the year (used to advance the story day).
    pub yday: i32,
    /// Hour of day 0–23 (used for the day/night cycle).
    pub hour: u8,
    /// Month 1–12 (used for holidays).
    pub month: u8,
    /// Day of month 1–31 (used for holidays).
    pub day: u8,
}

} // verus!
