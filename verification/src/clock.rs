//! Monotonic time, counted in nanoseconds from the moment a clock was started.

use std::time::{Duration, Instant};
use vstd::prelude::*;

verus! {

/// Nanoseconds in one second.
pub const NANOS_PER_SECOND: u64 = 1_000_000_000;

/// `std::time::Instant`, a point on the monotonic clock; nothing inside it is visible here.
#[verifier::external_type_specification]
#[verifier::external_body]
pub struct ExInstant(Instant);

/// `Instant::now` reads the monotonic clock; nothing is claimed of the instant it returns.
pub assume_specification[ Instant::now ]() -> (instant: Instant)
;

/// `Instant::elapsed` measures the time since the instant; nothing is claimed of its result.
pub assume_specification[ Instant::elapsed ](instant: &Instant) -> (elapsed: Duration)
;

/// `Duration::as_nanos` gives the whole duration in nanoseconds; nothing is claimed
/// of the number it returns.
pub assume_specification[ Duration::as_nanos ](duration: &Duration) -> (nanos: u128)
;

/// A clock that counts nanoseconds from the moment it was started.
#[derive(Debug)]
pub struct Clock {
    origin: Instant,
    latest: u64,
}

impl Clock {
    /// Starts a clock; it has shown no time yet.
    pub fn start() -> (clock: Clock)
        ensures clock.reading() == 0,
    {
        Clock { origin: Instant::now(), latest: 0 }
    }
    /// Reads the clock: the time since its start, never earlier than it has shown before.
    pub fn now(&mut self) -> (time: u64)
        ensures
            time == final(self).reading(),
            old(self).reading() <= time,
    {
        let nanos: u128 = self.origin.elapsed().as_nanos();
        self.advance_to(nanos)
    }

    /// The latest time that the clock has shown, in nanoseconds since its start.
    pub closed spec fn reading(&self) -> u64 {
        self.latest
    }

    /// Moves the clock on to `nanos` nanoseconds after its start and returns
    /// what it then shows: the count stops at `u64::MAX`, and the clock stays
    /// where it is where it has shown a later time before.
    pub fn advance_to(&mut self, nanos: u128) -> (time: u64)
        ensures
            time == final(self).reading(),
            time == later(old(self).reading(), nanos),
    {
        let reading: u64 = if nanos > u64::MAX as u128 {
            u64::MAX
        } else {
            nanos as u64
        };
        if reading > self.latest {
            self.latest = reading;
        }
        self.latest
    }
}

/// What a clock that has shown `reading` shows once `nanos` nanoseconds have
/// passed since its start: the later of the two, and at most `u64::MAX`.
pub open spec fn later(reading: u64, nanos: u128) -> u64 {
    if nanos > u64::MAX {
        u64::MAX
    } else if nanos > reading {
        nanos as u64
    } else {
        reading
    }
}

} // verus!
