//! A map with expiring key-value pairs.
//!
//! Every entry carries its own deadline, computed from a pluggable
//! [`TimeSource`](crate::time::TimeSource) when the entry is inserted,
//! refreshed or extended. Entries whose deadline has passed read as absent:
//! a checked read of an expired entry evicts it on the spot, and
//! [`Cleanup::cleanup`](crate::cleanup::Cleanup) sweeps all entries expired
//! as of one snapshot of "now".
//!
//! Production code uses the monotonic wall clock; tests inject a
//! controllable [`MockClock`](crate::time::MockClock) so nothing has to
//! sleep.

pub mod cleanup;
pub mod time;
pub mod timedmap;
pub mod value;

pub use crate::cleanup::Cleanup;
pub use crate::time::MockClock;
pub use crate::time::MonotonicClock;
pub use crate::time::TimeSource;
pub use crate::timedmap::TimedMap;
pub use crate::value::Value;
