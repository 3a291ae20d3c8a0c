//! The expiring-value wrapper: a value together with its deadline.

use vstd::pervasive::cloned;
use vstd::prelude::*;

use crate::time::sat_add;
use crate::time::tick_add;
use crate::time::TimeSource;

verus! {

/// A map value together with the deadline after which it is expired.
///
/// The deadline is an instant in ticks; an entry is expired strictly after
/// its deadline, so at the deadline itself it is still readable.
pub struct Value<V> {
    /// The wrapped value.
    pub value: V,
    /// The instant, in ticks, after which the value is expired.
    pub expires: u64,
}

impl<V> Value<V> {
    /// Whether the wrapper is expired at the instant `at`: true exactly when
    /// `at` lies strictly after the deadline.
    pub open spec fn spec_expired_at(self, at: u64) -> bool {
        at > self.expires
    }
}

impl<V: Clone> Value<V> {
    /// Wraps `value` with the deadline `now + lifetime` (saturating). A
    /// lifetime of zero is legal: the wrapper is then expired for any
    /// instant strictly after `now`.
    pub fn new(value: V, lifetime: u64, now: u64) -> (r: Self)
        ensures
            r.value == value,
            r.expires == sat_add(now, lifetime),
    {
        Value { value, expires: tick_add(now, lifetime) }
    }

    /// Whether the wrapper is expired at the instant `at`.
    pub fn is_expired_at(&self, at: u64) -> (r: bool)
        ensures
            r == self.spec_expired_at(at),
    {
        at > self.expires
    }

    /// Whether the wrapper is expired at the instant `ts` produces.
    pub fn is_expired<TS: TimeSource>(&self, ts: &TS) -> (r: bool)
        ensures
            exists|t: u64| r == self.spec_expired_at(t),
    {
        let now = ts.now();
        self.is_expired_at(now)
    }

    /// The wrapper's deadline, in ticks.
    pub fn expires(&self) -> (r: u64)
        ensures
            r == self.expires,
    {
        self.expires
    }

    /// Resets the deadline absolutely to `now + lifetime` (saturating),
    /// discarding the prior deadline.
    pub fn set_expiry_at(&mut self, lifetime: u64, now: u64)
        ensures
            final(self).value == old(self).value,
            final(self).expires == sat_add(now, lifetime),
    {
        self.expires = tick_add(now, lifetime);
    }

    /// Resets the deadline absolutely to `lifetime` ticks after the instant
    /// `ts` produces.
    pub fn set_expiry<TS: TimeSource>(&mut self, lifetime: u64, ts: &TS)
        ensures
            final(self).value == old(self).value,
            exists|t: u64| final(self).expires == sat_add(t, lifetime),
    {
        let now = ts.now();
        self.set_expiry_at(lifetime, now);
    }

    /// Adds `lifetime` ticks to the deadline (saturating). This compounds
    /// with the prior deadline regardless of the current time, so it can
    /// push an already-expired wrapper back into the future.
    pub fn add_expiry(&mut self, lifetime: u64)
        ensures
            final(self).value == old(self).value,
            final(self).expires == sat_add(old(self).expires, lifetime),
    {
        self.expires = tick_add(self.expires, lifetime);
    }

    /// A copy of the inner value.
    pub fn value(&self) -> (r: V)
        ensures
            cloned(self.value, r),
    {
        self.value.clone()
    }

    /// A reference to the inner value.
    pub fn value_ref(&self) -> (r: &V)
        ensures
            *r == self.value,
    {
        &self.value
    }

    /// A copy of the inner value, or `None` if the wrapper is expired at
    /// the instant `at`.
    pub fn value_checked_at(&self, at: u64) -> (r: Option<V>)
        ensures
            match r {
                Some(v) => !self.spec_expired_at(at) && cloned(self.value, v),
                None => self.spec_expired_at(at),
            },
    {
        if self.is_expired_at(at) {
            None
        } else {
            Some(self.value())
        }
    }

    /// A copy of the inner value, or `None` if the wrapper is expired at
    /// the instant `ts` produces.
    pub fn value_checked<TS: TimeSource>(&self, ts: &TS) -> (r: Option<V>)
        ensures
            exists|t: u64|
                match r {
                    Some(v) => !self.spec_expired_at(t) && cloned(self.value, v),
                    None => self.spec_expired_at(t),
                },
    {
        let now = ts.now();
        self.value_checked_at(now)
    }

    /// A reference to the inner value, or `None` if the wrapper is expired
    /// at the instant `at`.
    pub fn value_ref_checked_at(&self, at: u64) -> (r: Option<&V>)
        ensures
            match r {
                Some(v) => !self.spec_expired_at(at) && *v == self.value,
                None => self.spec_expired_at(at),
            },
    {
        if self.is_expired_at(at) {
            None
        } else {
            Some(self.value_ref())
        }
    }

    /// A reference to the inner value, or `None` if the wrapper is expired
    /// at the instant `ts` produces.
    pub fn value_ref_checked<TS: TimeSource>(&self, ts: &TS) -> (r: Option<&V>)
        ensures
            exists|t: u64|
                match r {
                    Some(v) => !self.spec_expired_at(t) && *v == self.value,
                    None => self.spec_expired_at(t),
                },
    {
        let now = ts.now();
        self.value_ref_checked_at(now)
    }
}

impl<V: Clone> Clone for Value<V> {
    /// The clone keeps the deadline exactly and clones the inner value.
    fn clone(&self) -> (r: Self)
        ensures
            r.expires == self.expires,
            cloned(self.value, r.value),
    {
        Value { value: self.value.clone(), expires: self.expires }
    }
}

/// Expiry is monotone: once a wrapper is expired at some instant, it stays
/// expired at every later instant.
pub proof fn lemma_expiry_monotonic<V>(v: Value<V>, t1: u64, t2: u64)
    requires
        v.spec_expired_at(t1),
        t1 <= t2,
    ensures
        v.spec_expired_at(t2),
{
}

} // verus!
