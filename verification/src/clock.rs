//! The monotonic clock that measures the age of cache entries. Every rule of
//! the library takes the time as a plain number of nanoseconds, so it holds
//! for all clock readings; this module is where the clock is read. A reading
//! is never below an earlier one: the clock keeps its last reading as a floor.

use std::time::Instant;
use vstd::prelude::*;

verus! {

/// Nanoseconds in one second.
pub const NANOS_PER_SECOND: u128 = 1_000_000_000;

/// `std::time::Instant`, carried through as an opaque value.
#[verifier::external_type_specification]
#[verifier::external_body]
pub struct ExInstant(std::time::Instant);

/// A monotonic clock that counts nanoseconds from the moment it was started.
pub struct MonotonicClock {
    origin: Instant,
    last: u128,
}

impl MonotonicClock {
    /// Starts a clock; its readings count from now, and none was taken yet.
    pub fn start() -> (clock: Self)
        ensures
            clock.floor() == 0,
    {
        MonotonicClock { origin: instant_now(), last: 0 }
    }

    /// Reads the nanoseconds since the start, raised to the floor if below it.
    pub fn now(&mut self) -> (reading: u128)
        ensures
            reading >= old(self).floor(),
            final(self).floor() == reading,
    {
        let read = elapsed_nanos(&self.origin);
        if read > self.last {
            self.last = read;
        }
        self.last
    }

    /// The floor under the next reading: the last reading, or zero where none
    /// was taken.
    pub closed spec fn floor(&self) -> u128 {
        self.last
    }
}

/// The nanoseconds that `seconds` whole seconds last.
pub open spec fn seconds_to_nanos(seconds: u64) -> int {
    seconds as int * NANOS_PER_SECOND as int
}

/// Converts whole seconds to nanoseconds; every `u64` of seconds fits.
pub fn nanos_from_seconds(seconds: u64) -> (nanos: u128)
    ensures
        nanos as int == seconds_to_nanos(seconds),
{
    let wide: u128 = seconds as u128;
    wide * NANOS_PER_SECOND
}

/// Calls `std::time::Instant::now`. The instant depends on when the call is
/// made, so nothing is claimed of it.
#[verifier::external_body]
fn instant_now() -> Instant {
    Instant::now()
}

/// Calls `std::time::Instant::elapsed` and hands the duration back as whole
/// nanoseconds. The value depends on when the call is made, so nothing is
/// claimed of it.
#[verifier::external_body]
fn elapsed_nanos(origin: &Instant) -> u128 {
    origin.elapsed().as_nanos()
}

} // verus!
