//! Time as the race sees it: delays, clock readings, and the attempt timer.
//!
//! A clock reading is a number of nanoseconds on a monotonic clock of the caller's
//! choosing; a delay is a number of nanoseconds.

use std::time::Duration;
use vstd::prelude::*;

verus! {

/// The length of a [`Duration`] in nanoseconds: what `Duration::as_nanos` returns.
pub uninterp spec fn duration_nanos(dur: Duration) -> nat;

/// `Duration::as_nanos` returns the total number of nanoseconds that the duration
/// holds; that number is what [`duration_nanos`] names.
pub assume_specification[ Duration::as_nanos ](dur: &Duration) -> (nanos: u128)
    ensures
        nanos == duration_nanos(*dur),
;

/// `Duration::from_millis` makes the duration of that many milliseconds, which holds
/// a million nanoseconds for each of them.
pub assume_specification[ Duration::from_millis ](millis: u64) -> (dur: Duration)
    ensures
        duration_nanos(dur) == millis * 1_000_000,
;

/// The attempt timer: one deadline, which says how soon the next attempt may start.
pub struct Timer {
    armed_at: u128,
    delay: u128,
}

impl Timer {
    /// The clock reading from which on the timer counts as elapsed.
    pub closed spec fn deadline(&self) -> nat {
        (self.armed_at + self.delay) as nat
    }

    /// A timer that elapses at the clock reading `deadline`.
    pub fn sleep_until(deadline: u128) -> (timer: Timer)
        ensures
            timer.deadline() == deadline,
    {
        Timer { armed_at: deadline, delay: 0 }
    }

    /// Rearms the timer to elapse `delay` after the clock reading `now`.
    pub fn reset(&mut self, now: u128, delay: u128)
        ensures
            final(self).deadline() == now + delay,
    {
        self.armed_at = now;
        self.delay = delay;
    }

    /// Tells whether the timer has elapsed at the clock reading `now`.
    pub fn is_elapsed(&self, now: u128) -> (elapsed: bool)
        ensures
            elapsed == (now >= self.deadline()),
    {
        now >= self.armed_at && now - self.armed_at >= self.delay
    }
}

} // verus!
