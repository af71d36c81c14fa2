//! Frame pacing gate for the event loop.
//!
//! The window system also asks for redraws on its own (when the window is shown, resized or
//! rescaled), often in a burst right after the window appears. Advancing the engine on every
//! redraw would play the first frames far too fast, so [`FramePacer`] gates the advance on a
//! deadline: a frame is held for its full delay however many redraws arrive meanwhile. Times
//! are milliseconds on the app's monotonic clock.
use vstd::prelude::*;

verus! {

/// Gates engine advance: a frame shown at `frame_start` is held until `frame_start + delay`,
/// however many redraw requests arrive in the meantime.
#[derive(Debug, Clone, Copy, PartialEq, Eq, Structural)]
pub struct FramePacer {
    next_due: Option<u64>,
}

impl FramePacer {
    /// The current frame's deadline, if one is scheduled.
    pub closed spec fn deadline_spec(&self) -> Option<u64> {
        self.next_due
    }

    /// A fresh pacer: the first frame is always due.
    pub fn new() -> (p: Self)
        ensures
            p.deadline_spec() is None,
    {
        FramePacer { next_due: None }
    }

    /// Whether the engine may advance at `now`: always for the very first frame, then
    /// only once the current frame's hold has elapsed.
    pub fn due(&self, now: u64) -> (b: bool)
        ensures
            b == match self.deadline_spec() {
                None => true,
                Some(d) => now >= d,
            },
    {
        match self.next_due {
            None => true,
            Some(d) => now >= d,
        }
    }

    /// Record that the frame shown at `frame_start` holds for `delay`; returns its
    /// deadline.
    pub fn schedule(&mut self, frame_start: u64, delay: u64) -> (due: u64)
        requires
            frame_start + delay <= u64::MAX,
        ensures
            due == frame_start + delay,
            final(self).deadline_spec() == Some(due),
    {
        let due = frame_start + delay;
        self.next_due = Some(due);
        due
    }

    /// The current frame's deadline, if one is scheduled.
    pub fn deadline(&self) -> (d: Option<u64>)
        ensures
            d == self.deadline_spec(),
    {
        self.next_due
    }
}

/// A scheduled frame is held: no time before its deadline is due, and every time from
/// the deadline on is.
pub proof fn lemma_hold(p: FramePacer, start: u64, delay: u64, now: u64)
    requires
        p.deadline_spec() == Some((start + delay) as u64),
        start + delay <= u64::MAX,
    ensures
        (match p.deadline_spec() {
            None => true,
            Some(d) => now >= d,
        }) <==> now >= start + delay,
{
}

} // verus!
