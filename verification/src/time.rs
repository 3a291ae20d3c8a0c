//! The notion of "now" that the map measures expiry against.
//!
//! Instants and durations are plain `u64` tick counts (the production clock
//! uses milliseconds). Deadline arithmetic saturates at `u64::MAX`, so a
//! deadline of `u64::MAX` means "practically never expires".

use vstd::prelude::*;

verus! {

/// Saturating addition on tick counts: the result is capped at `u64::MAX`
/// instead of wrapping, so an enormous lifetime yields a deadline in the
/// unreachable future rather than one in the past.
pub open spec fn sat_add(a: u64, b: u64) -> u64 {
    if a + b > u64::MAX {
        u64::MAX
    } else {
        (a + b) as u64
    }
}

/// Executable saturating addition on tick counts.
pub fn tick_add(a: u64, b: u64) -> (r: u64)
    ensures
        r == sat_add(a, b),
{
    if b > u64::MAX - a {
        u64::MAX
    } else {
        a + b
    }
}

/// A source of the current instant, in ticks.
///
/// Nothing is promised about the values a source produces: two calls may
/// return anything, in any order. Code that needs an exact statement about
/// time takes the instant as an explicit argument instead (the `*_at`
/// operations), and the convenience operations say only what holds for
/// every instant the source could have produced.
pub trait TimeSource: Sized {
    /// The current instant, in ticks.
    fn now(&self) -> u64;
}

/// A controllable clock for deterministic tests: it returns a stored tick
/// count and moves only when `advance` is called.
pub struct MockClock {
    current: u64,
}

impl MockClock {
    /// The tick count the clock currently stands at.
    pub closed spec fn spec_now(&self) -> u64 {
        self.current
    }

    /// A mock clock standing at tick zero.
    pub fn new() -> (r: MockClock)
        ensures
            r.spec_now() == 0,
    {
        MockClock { current: 0 }
    }

    /// Moves the clock forward by the given number of ticks, saturating at
    /// `u64::MAX`.
    pub fn advance(&mut self, ticks: u64)
        ensures
            final(self).spec_now() == sat_add(old(self).spec_now(), ticks),
    {
        self.current = tick_add(self.current, ticks);
    }
}

impl TimeSource for MockClock {
    fn now(&self) -> (r: u64)
        ensures
            r == self.spec_now(),
    {
        self.current
    }
}

#[verifier::external_type_specification]
#[verifier::external_body]
pub struct ExInstant(std::time::Instant);

/// Relies on `std::time::Instant::now` for an opaque monotonic instant;
/// nothing is assumed of the value.
#[verifier::external_body]
fn instant_now() -> std::time::Instant {
    std::time::Instant::now()
}

/// Relies on `std::time::Instant::elapsed` for the time since an earlier
/// instant; nothing is assumed of the value.
pub assume_specification[ std::time::Instant::elapsed ](start: &std::time::Instant) -> std::time::Duration;

/// Relies on `std::time::Duration::as_millis` to read a duration out as
/// whole milliseconds; nothing is assumed of the value.
pub assume_specification[ std::time::Duration::as_millis ](d: &std::time::Duration) -> u128;

/// The production time source: milliseconds elapsed on the system's
/// monotonic clock since this source was created.
pub struct MonotonicClock {
    start: std::time::Instant,
}

impl MonotonicClock {
    /// A clock whose tick zero is the moment of this call.
    pub fn new() -> MonotonicClock {
        MonotonicClock { start: instant_now() }
    }
}

impl TimeSource for MonotonicClock {
    fn now(&self) -> u64 {
        let ms = self.start.elapsed().as_millis();
        if ms > u64::MAX as u128 {
            u64::MAX
        } else {
            ms as u64
        }
    }
}

} // verus!
