//! The sweep contract: what a periodic driver calls to evict expired
//! entries.

use vstd::prelude::*;

use crate::time::TimeSource;
use crate::timedmap::sweep;
use crate::timedmap::TimedMap;

verus! {

/// Something whose expired entries can be removed in one batch.
///
/// A periodic driver holds a `Cleanup` implementor and calls [`cleanup`]
/// on an interval; the scheduling itself lives outside the library.
///
/// [`cleanup`]: Cleanup::cleanup
pub trait Cleanup {
    /// What must hold of the implementor for a sweep to run; a sweep
    /// preserves it, so a driver can keep sweeping forever.
    spec fn sweep_ready(&self) -> bool;

    /// Removes all entries that have expired.
    fn cleanup(&mut self)
        requires
            old(self).sweep_ready(),
        ensures
            final(self).sweep_ready(),
    ;
}

impl<V: Clone, TS: TimeSource> Cleanup for TimedMap<V, TS> {
    /// A well-formed table is always ready for a sweep.
    open spec fn sweep_ready(&self) -> bool {
        self.wf()
    }

    /// Evicts every entry expired as of one snapshot of the table's own
    /// time source.
    fn cleanup(&mut self)
        ensures
            exists|t: u64| final(self)@ == sweep(old(self)@, t),
    {
        TimedMap::cleanup(self)
    }
}

} // verus!
