//! Monotonic time as the engine sees it: the latest instant that the host
//! has reported, and the windows measured against it.

use vstd::prelude::*;

verus! {

/// Time that has passed at `now` since `start`; none if `start` lies ahead.
pub open spec fn elapsed(start: u64, now: u64) -> int {
    if now >= start {
        now - start
    } else {
        0
    }
}

/// Whether a window of `window` ticks that opened at `start` has closed at
/// `now`.
pub open spec fn expired(start: u64, now: u64, window: u64) -> bool {
    elapsed(start, now) >= window
}

/// The later of the instant known so far and a reported one.
pub open spec fn advanced(known: u64, reported: u64) -> u64 {
    if reported > known {
        reported
    } else {
        known
    }
}

/// A clock that never runs backwards.
#[derive(Clone, Copy, Debug, PartialEq, Eq)]
pub struct Timer {
    now: u64,
}

impl View for Timer {
    type V = u64;

    /// The latest instant that the timer has seen.
    closed spec fn view(&self) -> u64 {
        self.now
    }
}

impl Timer {
    /// A timer at instant 0.
    pub fn new() -> (timer: Timer)
        ensures
            timer@ == 0,
    {
        Timer { now: 0 }
    }

    /// The latest instant that the timer has seen.
    pub fn now(&self) -> (now: u64)
        ensures
            now == self@,
    {
        self.now
    }

    /// Takes note of an instant that the host reports; an instant that lies
    /// before the latest one seen changes nothing.
    pub fn advance(&mut self, reported: u64)
        ensures
            final(self)@ == advanced(old(self)@, reported),
    {
        if reported > self.now {
            self.now = reported;
        }
    }

    /// Puts the timer back to instant 0.
    pub fn reset(&mut self)
        ensures
            final(self)@ == 0,
    {
        self.now = 0;
    }

    /// Time that has passed since `start`.
    pub fn elapsed_since(&self, start: u64) -> (ticks: u64)
        ensures
            ticks == elapsed(start, self@),
    {
        if self.now >= start {
            self.now - start
        } else {
            0
        }
    }

    /// Whether a window of `window` ticks that opened at `start` has closed.
    pub fn expired(&self, start: u64, window: u64) -> (closed: bool)
        ensures
            closed == expired(start, self@, window),
    {
        self.elapsed_since(start) >= window
    }
}

/// Reported instants never take the clock back, and a window that has closed
/// stays closed.
pub proof fn law_time_monotonic(known: u64, reported: u64, start: u64, window: u64)
    ensures
        advanced(known, reported) >= known,
        advanced(known, reported) >= reported,
        elapsed(start, known) <= elapsed(start, advanced(known, reported)),
        expired(start, known, window) ==> expired(start, advanced(known, reported), window),
{
}

} // verus!
