//! The table: a map from string keys to expiring values.

use vstd::pervasive::cloned;
use vstd::prelude::*;

use crate::time::sat_add;
use crate::time::MonotonicClock;
use crate::time::TimeSource;
use crate::value::Value;

verus! {

/// The mathematical contents of a table: the key sequence folded into a map
/// keyed by the keys' character sequences.
pub open spec fn map_of<V>(s: Seq<(String, Value<V>)>) -> Map<Seq<char>, Value<V>>
    decreases s.len(),
{
    if s.len() == 0 {
        Map::empty()
    } else {
        map_of(s.drop_last()).insert(s.last().0@, s.last().1)
    }
}

/// No two entries of the sequence share a key.
pub open spec fn distinct_keys<V>(s: Seq<(String, Value<V>)>) -> bool {
    forall|i: int, j: int| 0 <= i < j < s.len() ==> s[i].0@ != s[j].0@
}

/// Whether `m` holds a not-yet-expired entry for `k` at the instant `t`.
pub open spec fn live_at<V>(m: Map<Seq<char>, Value<V>>, k: Seq<char>, t: u64) -> bool {
    m.contains_key(k) && !m[k].spec_expired_at(t)
}

/// The table after a checked read of `k` at instant `t`: a read evicts the
/// entry it finds expired and changes nothing otherwise.
pub open spec fn read_state<V>(m: Map<Seq<char>, Value<V>>, k: Seq<char>, t: u64) -> Map<
    Seq<char>,
    Value<V>,
> {
    if m.contains_key(k) && m[k].spec_expired_at(t) {
        m.remove(k)
    } else {
        m
    }
}

/// The table after inserting `v` under `k` with lifetime `l` at instant `t`:
/// any prior entry for `k` is overwritten.
pub open spec fn insert_state<V>(
    m: Map<Seq<char>, Value<V>>,
    k: Seq<char>,
    v: V,
    l: u64,
    t: u64,
) -> Map<Seq<char>, Value<V>> {
    m.insert(k, (Value { value: v, expires: sat_add(t, l) }))
}

/// The table after refreshing `k` with lifetime `l` at instant `t`: a live
/// entry gets the absolute deadline `t + l`; an expired entry is evicted.
pub open spec fn refresh_state<V>(m: Map<Seq<char>, Value<V>>, k: Seq<char>, l: u64, t: u64) -> Map<
    Seq<char>,
    Value<V>,
> {
    if live_at(m, k, t) {
        m.insert(k, (Value { value: m[k].value, expires: sat_add(t, l) }))
    } else {
        read_state(m, k, t)
    }
}

/// The table after extending `k` by `l` ticks at instant `t`: a live entry's
/// deadline is compounded; an expired entry is evicted.
pub open spec fn extend_state<V>(m: Map<Seq<char>, Value<V>>, k: Seq<char>, l: u64, t: u64) -> Map<
    Seq<char>,
    Value<V>,
> {
    if live_at(m, k, t) {
        m.insert(k, (Value { value: m[k].value, expires: sat_add(m[k].expires, l) }))
    } else {
        read_state(m, k, t)
    }
}

/// Whether `out` is an exact snapshot of `m` at the instant `t`: every
/// pair of `out` copies a live entry of `m`, and every live entry of `m`
/// appears in `out`.
pub open spec fn snapshot_matches<V: Clone>(
    m: Map<Seq<char>, Value<V>>,
    t: u64,
    out: Seq<(String, V)>,
) -> bool {
    &&& forall|a: int| #![auto]
        0 <= a < out.len() ==> live_at(m, out[a].0@, t) && cloned(m[out[a].0@].value, out[a].1)
    &&& forall|k: Seq<char>|
        live_at(m, k, t) ==> exists|a: int| 0 <= a < out.len() && out[a].0@ == k
}

/// The keys of `m` whose entries are not expired at the instant `t`.
pub open spec fn live_keys<V>(m: Map<Seq<char>, Value<V>>, t: u64) -> Set<Seq<char>> {
    m.dom().filter(|k: Seq<char>| !m[k].spec_expired_at(t))
}

/// How many entries of `m` are not expired at the instant `t`.
pub open spec fn live_len<V>(m: Map<Seq<char>, Value<V>>, t: u64) -> nat {
    live_keys(m, t).len()
}

/// The table after a sweep with the snapshot instant `t`: exactly the
/// entries not expired at `t` remain.
pub open spec fn sweep<V>(m: Map<Seq<char>, Value<V>>, t: u64) -> Map<Seq<char>, Value<V>> {
    m.restrict(live_keys(m, t))
}

/// A key occurs in the folded map exactly when some entry of the sequence
/// holds it.
proof fn lemma_map_of_contains<V>(s: Seq<(String, Value<V>)>, k: Seq<char>)
    ensures
        map_of(s).contains_key(k) <==> (exists|i: int| 0 <= i < s.len() && s[i].0@ == k),
    decreases s.len(),
{
    if s.len() > 0 {
        lemma_map_of_contains(s.drop_last(), k);
        if s.last().0@ == k {
            assert(s[s.len() - 1].0@ == k);
        } else {
            if exists|i: int| 0 <= i < s.len() && s[i].0@ == k {
                let i = choose|i: int| 0 <= i < s.len() && s[i].0@ == k;
                assert(s.drop_last()[i].0@ == k);
            }
        }
    }
}

/// Distinctness survives dropping the last entry.
proof fn lemma_distinct_drop_last<V>(s: Seq<(String, Value<V>)>)
    requires
        distinct_keys(s),
        s.len() > 0,
    ensures
        distinct_keys(s.drop_last()),
{
    assert forall|i: int, j: int|
        0 <= i < j < s.drop_last().len() implies s.drop_last()[i].0@ != s.drop_last()[j].0@ by {
        assert(s.drop_last()[i] == s[i]);
        assert(s.drop_last()[j] == s[j]);
    }
}

/// With distinct keys, entry `i` of the sequence is what the folded map
/// holds under its key.
proof fn lemma_map_of_index<V>(s: Seq<(String, Value<V>)>, i: int)
    requires
        distinct_keys(s),
        0 <= i < s.len(),
    ensures
        map_of(s).contains_key(s[i].0@),
        map_of(s)[s[i].0@] == s[i].1,
    decreases s.len(),
{
    lemma_distinct_drop_last(s);
    if i < s.len() - 1 {
        lemma_map_of_index(s.drop_last(), i);
        assert(s.drop_last()[i] == s[i]);
        assert(s.last().0@ != s[i].0@);
    }
}

/// With distinct keys, the folded map has exactly one entry per element of
/// the sequence.
proof fn lemma_map_of_len<V>(s: Seq<(String, Value<V>)>)
    requires
        distinct_keys(s),
    ensures
        map_of(s).dom().finite(),
        map_of(s).dom().len() == s.len(),
    decreases s.len(),
{
    if s.len() == 0 {
        assert(map_of(s).dom() =~= Set::<Seq<char>>::empty());
    } else {
        lemma_distinct_drop_last(s);
        lemma_map_of_len(s.drop_last());
        lemma_map_of_contains(s.drop_last(), s.last().0@);
        assert(!map_of(s.drop_last()).contains_key(s.last().0@)) by {
            if exists|i: int| 0 <= i < s.drop_last().len() && s.drop_last()[i].0@ == s.last().0@ {
                let i = choose|i: int|
                    0 <= i < s.drop_last().len() && s.drop_last()[i].0@ == s.last().0@;
                assert(s[i].0@ == s[s.len() - 1].0@);
            }
        }
    }
}

/// Distinctness survives removing an entry.
proof fn lemma_distinct_remove<V>(s: Seq<(String, Value<V>)>, i: int)
    requires
        distinct_keys(s),
        0 <= i < s.len(),
    ensures
        distinct_keys(s.remove(i)),
{
    s.remove_ensures(i);
    assert forall|a: int, b: int|
        0 <= a < b < s.remove(i).len() implies s.remove(i)[a].0@ != s.remove(i)[b].0@ by {
        if a < i {
            assert(s.remove(i)[a] == s[a]);
        } else {
            assert(s.remove(i)[a] == s[a + 1]);
        }
        if b < i {
            assert(s.remove(i)[b] == s[b]);
        } else {
            assert(s.remove(i)[b] == s[b + 1]);
        }
    }
}

/// Removing entry `i` from the sequence removes its key from the folded
/// map.
proof fn lemma_map_of_remove<V>(s: Seq<(String, Value<V>)>, i: int)
    requires
        distinct_keys(s),
        0 <= i < s.len(),
    ensures
        distinct_keys(s.remove(i)),
        map_of(s.remove(i)) == map_of(s).remove(s[i].0@),
    decreases s.len(),
{
    lemma_distinct_remove(s, i);
    let k = s[i].0@;
    if i == s.len() - 1 {
        assert(s.remove(i) =~= s.drop_last());
        lemma_distinct_drop_last(s);
        lemma_map_of_contains(s.drop_last(), k);
        assert(!map_of(s.drop_last()).contains_key(k)) by {
            if exists|j: int| 0 <= j < s.drop_last().len() && s.drop_last()[j].0@ == k {
                let j = choose|j: int| 0 <= j < s.drop_last().len() && s.drop_last()[j].0@ == k;
                assert(s[j].0@ == s[i].0@);
            }
        }
        assert(map_of(s.remove(i)) =~= map_of(s).remove(k));
    } else {
        lemma_distinct_drop_last(s);
        lemma_map_of_remove(s.drop_last(), i);
        s.remove_ensures(i);
        assert(s.remove(i).drop_last() =~= s.drop_last().remove(i));
        assert(s.remove(i).last() == s.last());
        assert(s.last().0@ != k);
        assert(map_of(s.remove(i)) =~= map_of(s).remove(k));
    }
}

/// Overwriting entry `i` with a pair that keeps its key updates the folded
/// map at that key.
proof fn lemma_map_of_update<V>(s: Seq<(String, Value<V>)>, i: int, p: (String, Value<V>))
    requires
        distinct_keys(s),
        0 <= i < s.len(),
        p.0@ == s[i].0@,
    ensures
        distinct_keys(s.update(i, p)),
        map_of(s.update(i, p)) == map_of(s).insert(p.0@, p.1),
    decreases s.len(),
{
    let su = s.update(i, p);
    assert forall|a: int, b: int| 0 <= a < b < su.len() implies su[a].0@ != su[b].0@ by {
        assert(s[a].0@ != s[b].0@);
    }
    if i == s.len() - 1 {
        assert(su.drop_last() =~= s.drop_last());
        assert(su.last() == p);
    } else {
        lemma_distinct_drop_last(s);
        lemma_map_of_update(s.drop_last(), i, p);
        assert(su.drop_last() =~= s.drop_last().update(i, p));
        assert(su.last() == s.last());
        assert(s.last().0@ != p.0@);
        assert(map_of(su) =~= map_of(s).insert(p.0@, p.1));
    }
}

/// After removing entry `i`, no remaining entry holds its key.
proof fn lemma_removed_key_absent<V>(s: Seq<(String, Value<V>)>, i: int)
    requires
        distinct_keys(s),
        0 <= i < s.len(),
    ensures
        forall|j: int| 0 <= j < s.remove(i).len() ==> s.remove(i)[j].0@ != s[i].0@,
{
    s.remove_ensures(i);
    assert forall|j: int| 0 <= j < s.remove(i).len() implies s.remove(i)[j].0@ != s[i].0@ by {
        if j < i {
            assert(s.remove(i)[j] == s[j]);
        } else {
            assert(s.remove(i)[j] == s[j + 1]);
        }
    }
}

/// Appending an entry with a fresh key inserts it into the folded map.
proof fn lemma_map_of_push<V>(s: Seq<(String, Value<V>)>, p: (String, Value<V>))
    requires
        distinct_keys(s),
        forall|i: int| 0 <= i < s.len() ==> s[i].0@ != p.0@,
    ensures
        distinct_keys(s.push(p)),
        map_of(s.push(p)) == map_of(s).insert(p.0@, p.1),
{
    let sp = s.push(p);
    assert forall|a: int, b: int| 0 <= a < b < sp.len() implies sp[a].0@ != sp[b].0@ by {
        if b < s.len() {
            assert(sp[a] == s[a]);
            assert(sp[b] == s[b]);
        } else {
            assert(sp[a] == s[a]);
            assert(sp[b] == p);
        }
    }
    assert(sp.drop_last() =~= s);
    assert(sp.last() == p);
}

/// How many entries of the sequence are not expired at the instant `t`.
spec fn live_count_seq<V>(s: Seq<(String, Value<V>)>, t: u64) -> int
    decreases s.len(),
{
    if s.len() == 0 {
        0
    } else {
        live_count_seq(s.drop_last(), t) + (if s.last().1.spec_expired_at(t) {
            0int
        } else {
            1int
        })
    }
}

/// With distinct keys, counting live entries along the sequence counts the
/// live keys of the folded map.
proof fn lemma_live_count_is_live_len<V>(s: Seq<(String, Value<V>)>, t: u64)
    requires
        distinct_keys(s),
    ensures
        live_keys(map_of(s), t).finite(),
        live_count_seq(s, t) == live_len(map_of(s), t),
    decreases s.len(),
{
    if s.len() == 0 {
        assert(live_keys(map_of(s), t) =~= Set::<Seq<char>>::empty());
    } else {
        lemma_distinct_drop_last(s);
        lemma_live_count_is_live_len(s.drop_last(), t);
        let m0 = map_of(s.drop_last());
        let m = map_of(s);
        let k = s.last().0@;
        lemma_map_of_contains(s.drop_last(), k);
        assert(!m0.contains_key(k)) by {
            if exists|j: int| 0 <= j < s.drop_last().len() && s.drop_last()[j].0@ == k {
                let j = choose|j: int| 0 <= j < s.drop_last().len() && s.drop_last()[j].0@ == k;
                assert(s[j].0@ == s[s.len() - 1].0@);
            }
        }
        if s.last().1.spec_expired_at(t) {
            assert(live_keys(m, t) =~= live_keys(m0, t));
        } else {
            assert(!live_keys(m0, t).contains(k));
            assert(live_keys(m, t) =~= live_keys(m0, t).insert(k));
        }
    }
}

/// Removing an entry that is already expired at the snapshot instant does
/// not change what a sweep at that instant leaves behind.
proof fn lemma_sweep_remove_expired<V>(m: Map<Seq<char>, Value<V>>, k: Seq<char>, t: u64)
    requires
        m.contains_key(k),
        m[k].spec_expired_at(t),
    ensures
        sweep(m.remove(k), t) == sweep(m, t),
{
    assert(live_keys(m.remove(k), t) =~= live_keys(m, t));
    assert(sweep(m.remove(k), t) =~= sweep(m, t));
}

/// A sweep leaves a table with no expired entries unchanged.
proof fn lemma_sweep_all_live<V>(m: Map<Seq<char>, Value<V>>, t: u64)
    requires
        forall|k: Seq<char>| #[trigger] m.contains_key(k) ==> !m[k].spec_expired_at(t),
    ensures
        sweep(m, t) == m,
{
    assert(live_keys(m, t) =~= m.dom());
    assert(sweep(m, t) =~= m);
}

/// A map from string keys to values that each carry their own expiration
/// deadline.
///
/// Reads that find an entry expired evict it on the spot; the sweep
/// operations remove every entry expired as of one snapshot instant. The
/// map owns a [`TimeSource`] and stamps deadlines with the instants it
/// produces; the `*_at` operations take the instant explicitly instead and
/// carry the exact contracts.
pub struct TimedMap<V, TS = MonotonicClock> {
    entries: Vec<(String, Value<V>)>,
    ts: TS,
}

impl<V, TS> View for TimedMap<V, TS> {
    type V = Map<Seq<char>, Value<V>>;

    closed spec fn view(&self) -> Map<Seq<char>, Value<V>> {
        map_of(self.entries@)
    }
}

impl<V, TS> TimedMap<V, TS> {
    /// Internal well-formedness: the backing entries hold each key at most
    /// once.
    pub closed spec fn wf(&self) -> bool {
        distinct_keys(self.entries@)
    }

    /// The time source the map stamps deadlines with.
    pub closed spec fn time_source(&self) -> TS {
        self.ts
    }

    /// Creates an empty map that stamps deadlines with the given time
    /// source.
    pub fn new_with_timesource(ts: TS) -> (r: Self)
        ensures
            r.wf(),
            r@ == Map::<Seq<char>, Value<V>>::empty(),
            r.time_source() == ts,
    {
        TimedMap { entries: Vec::new(), ts }
    }
}

impl<V> TimedMap<V, MonotonicClock> {
    /// Creates an empty map on the production time source, the monotonic
    /// wall clock.
    pub fn new() -> (r: Self)
        ensures
            r.wf(),
            r@ == Map::<Seq<char>, Value<V>>::empty(),
    {
        Self::new_with_timesource(MonotonicClock::new())
    }
}

impl<V: Clone, TS: TimeSource> TimedMap<V, TS> {
    /// The position of the entry holding `key`, if any.
    fn find_index(&self, key: &String) -> (r: Option<usize>)
        ensures
            match r {
                Some(i) => i < self.entries@.len() && self.entries@[i as int].0@ == key@,
                None => forall|j: int| 0 <= j < self.entries@.len() ==> self.entries@[j].0@ != key@,
            },
    {
        let mut i: usize = 0;
        while i < self.entries.len()
            invariant
                i <= self.entries@.len(),
                forall|j: int| 0 <= j < i ==> self.entries@[j].0@ != key@,
            decreases self.entries@.len() - i,
        {
            if self.entries[i].0 == *key {
                return Some(i);
            }
            i = i + 1;
        }
        None
    }

    /// A copy of the raw wrapper stored under `key`, whatever its expiry;
    /// performs no eviction.
    pub fn get_value_unchecked(&self, key: &String) -> (r: Option<Value<V>>)
        requires
            self.wf(),
        ensures
            match r {
                Some(w) => self@.contains_key(key@) && w.expires == self@[key@].expires
                    && cloned(self@[key@].value, w.value),
                None => !self@.contains_key(key@),
            },
    {
        let idx = self.find_index(key);
        proof {
            lemma_map_of_contains(self.entries@, key@);
        }
        match idx {
            Some(i) => {
                proof {
                    lemma_map_of_index(self.entries@, i as int);
                }
                Some(self.entries[i].1.clone())
            },
            None => None,
        }
    }

    /// Whether the underlying table holds no entry at all. Expired entries
    /// still count until something evicts them, so this can be false while
    /// `len` already reports zero.
    pub fn is_empty(&self) -> (r: bool)
        requires
            self.wf(),
        ensures
            r == (self@ == Map::<Seq<char>, Value<V>>::empty()),
    {
        let r = self.entries.len() == 0;
        proof {
            if self.entries@.len() == 0 {
                assert(self@ =~= Map::<Seq<char>, Value<V>>::empty());
            } else {
                lemma_map_of_index(self.entries@, 0);
            }
        }
        r
    }

    /// Empties the table unconditionally.
    pub fn clear(&mut self)
        ensures
            final(self).wf(),
            final(self)@ == Map::<Seq<char>, Value<V>>::empty(),
            final(self).time_source() == old(self).time_source(),
    {
        self.entries.clear();
        proof {
            assert(self@ =~= Map::<Seq<char>, Value<V>>::empty());
        }
    }

    /// A copy of the raw wrapper stored under `key`, or `None` when there
    /// is none or it is expired at the instant `now`; an expired entry is
    /// evicted on the way.
    pub fn get_value_at(&mut self, key: &String, now: u64) -> (r: Option<Value<V>>)
        requires
            old(self).wf(),
        ensures
            final(self).wf(),
            final(self)@ == read_state(old(self)@, key@, now),
            final(self).time_source() == old(self).time_source(),
            match r {
                Some(w) => live_at(old(self)@, key@, now) && w.expires == old(self)@[key@].expires
                    && cloned(old(self)@[key@].value, w.value),
                None => !live_at(old(self)@, key@, now),
            },
    {
        let idx = self.find_index(key);
        proof {
            lemma_map_of_contains(self.entries@, key@);
        }
        match idx {
            Some(i) => {
                proof {
                    lemma_map_of_index(self.entries@, i as int);
                }
                if self.entries[i].1.is_expired_at(now) {
                    proof {
                        lemma_map_of_remove(self.entries@, i as int);
                    }
                    let _ = self.entries.remove(i);
                    None
                } else {
                    Some(self.entries[i].1.clone())
                }
            },
            None => None,
        }
    }

    /// A copy of the value stored under `key`, or `None` when there is none
    /// or it is expired at the instant `now`; an expired entry is evicted
    /// on the way.
    pub fn get_at(&mut self, key: &String, now: u64) -> (r: Option<V>)
        requires
            old(self).wf(),
        ensures
            final(self).wf(),
            final(self)@ == read_state(old(self)@, key@, now),
            final(self).time_source() == old(self).time_source(),
            match r {
                Some(v) => live_at(old(self)@, key@, now) && cloned(old(self)@[key@].value, v),
                None => !live_at(old(self)@, key@, now),
            },
    {
        match self.get_value_at(key, now) {
            Some(w) => Some(w.value),
            None => None,
        }
    }

    /// Whether a not-yet-expired entry for `key` exists at the instant
    /// `now`; shares `get_at`'s eviction side effect.
    pub fn contains_at(&mut self, key: &String, now: u64) -> (r: bool)
        requires
            old(self).wf(),
        ensures
            final(self).wf(),
            final(self)@ == read_state(old(self)@, key@, now),
            final(self).time_source() == old(self).time_source(),
            r == live_at(old(self)@, key@, now),
    {
        self.get_at(key, now).is_some()
    }

    /// Removes the entry for `key` whatever its expiry, but hands the value
    /// back only if the entry was still live at the instant `now`.
    pub fn remove_at(&mut self, key: &String, now: u64) -> (r: Option<V>)
        requires
            old(self).wf(),
        ensures
            final(self).wf(),
            final(self)@ == old(self)@.remove(key@),
            final(self).time_source() == old(self).time_source(),
            match r {
                Some(v) => live_at(old(self)@, key@, now) && v == old(self)@[key@].value,
                None => !live_at(old(self)@, key@, now),
            },
    {
        let idx = self.find_index(key);
        proof {
            lemma_map_of_contains(self.entries@, key@);
        }
        match idx {
            Some(i) => {
                proof {
                    lemma_map_of_index(self.entries@, i as int);
                    lemma_map_of_remove(self.entries@, i as int);
                }
                let p = self.entries.remove(i);
                if p.1.is_expired_at(now) {
                    None
                } else {
                    Some(p.1.value)
                }
            },
            None => {
                proof {
                    assert(old(self)@.remove(key@) =~= old(self)@);
                }
                None
            },
        }
    }

    /// Resets the deadline of a live entry absolutely to `now +
    /// new_lifetime` and reports whether it did; an entry found expired is
    /// evicted instead.
    pub fn refresh_at(&mut self, key: &String, new_lifetime: u64, now: u64) -> (r: bool)
        requires
            old(self).wf(),
        ensures
            final(self).wf(),
            final(self)@ == refresh_state(old(self)@, key@, new_lifetime, now),
            final(self).time_source() == old(self).time_source(),
            r == live_at(old(self)@, key@, now),
    {
        let idx = self.find_index(key);
        proof {
            lemma_map_of_contains(self.entries@, key@);
        }
        match idx {
            Some(i) => {
                proof {
                    lemma_map_of_index(self.entries@, i as int);
                    lemma_map_of_remove(self.entries@, i as int);
                    lemma_removed_key_absent(self.entries@, i as int);
                }
                let mut p = self.entries.remove(i);
                if p.1.is_expired_at(now) {
                    false
                } else {
                    p.1.set_expiry_at(new_lifetime, now);
                    proof {
                        lemma_map_of_push(self.entries@, p);
                    }
                    self.entries.push(p);
                    proof {
                        assert(self@ =~= refresh_state(old(self)@, key@, new_lifetime, now));
                    }
                    true
                }
            },
            None => false,
        }
    }

    /// Compounds the deadline of a live entry by `added_lifetime` ticks and
    /// reports whether it did; an entry found expired is evicted instead.
    pub fn extend_at(&mut self, key: &String, added_lifetime: u64, now: u64) -> (r: bool)
        requires
            old(self).wf(),
        ensures
            final(self).wf(),
            final(self)@ == extend_state(old(self)@, key@, added_lifetime, now),
            final(self).time_source() == old(self).time_source(),
            r == live_at(old(self)@, key@, now),
    {
        let idx = self.find_index(key);
        proof {
            lemma_map_of_contains(self.entries@, key@);
        }
        match idx {
            Some(i) => {
                proof {
                    lemma_map_of_index(self.entries@, i as int);
                    lemma_map_of_remove(self.entries@, i as int);
                    lemma_removed_key_absent(self.entries@, i as int);
                }
                let mut p = self.entries.remove(i);
                if p.1.is_expired_at(now) {
                    false
                } else {
                    p.1.add_expiry(added_lifetime);
                    proof {
                        lemma_map_of_push(self.entries@, p);
                    }
                    self.entries.push(p);
                    proof {
                        assert(self@ =~= extend_state(old(self)@, key@, added_lifetime, now));
                    }
                    true
                }
            },
            None => false,
        }
    }

    /// How many entries are not expired at the instant `now`. Counting is
    /// read-only: expired entries stay in the table until a read or a sweep
    /// evicts them.
    pub fn len_at(&self, now: u64) -> (r: usize)
        requires
            self.wf(),
        ensures
            r == live_len(self@, now),
    {
        let mut count: usize = 0;
        let mut i: usize = 0;
        while i < self.entries.len()
            invariant
                i <= self.entries@.len(),
                count <= i,
                count == live_count_seq(self.entries@.take(i as int), now),
            decreases self.entries@.len() - i,
        {
            if !self.entries[i].1.is_expired_at(now) {
                count = count + 1;
            }
            i = i + 1;
            proof {
                assert(self.entries@.take(i as int).drop_last() =~= self.entries@.take(
                    i as int - 1,
                ));
                assert(self.entries@.take(i as int).last() == self.entries@[i as int - 1]);
            }
        }
        proof {
            assert(self.entries@.take(self.entries@.len() as int) =~= self.entries@);
            lemma_live_count_is_live_len(self.entries@, now);
        }
        count
    }

    /// Evicts every entry expired at the snapshot instant `now` in one
    /// batch, so one consistent cutoff applies to the whole table.
    pub fn cleanup_at(&mut self, now: u64)
        requires
            old(self).wf(),
        ensures
            final(self).wf(),
            final(self)@ == sweep(old(self)@, now),
            final(self).time_source() == old(self).time_source(),
    {
        let mut i: usize = 0;
        while i < self.entries.len()
            invariant
                distinct_keys(self.entries@),
                i <= self.entries@.len(),
                forall|j: int| 0 <= j < i ==> !self.entries@[j].1.spec_expired_at(now),
                sweep(map_of(self.entries@), now) == sweep(old(self)@, now),
                self.ts == old(self).ts,
            decreases self.entries@.len() - i,
        {
            if self.entries[i].1.is_expired_at(now) {
                proof {
                    lemma_map_of_index(self.entries@, i as int);
                    lemma_map_of_remove(self.entries@, i as int);
                    lemma_sweep_remove_expired(
                        map_of(self.entries@),
                        self.entries@[i as int].0@,
                        now,
                    );
                    self.entries@.remove_ensures(i as int);
                }
                let _ = self.entries.remove(i);
            } else {
                i = i + 1;
            }
        }
        proof {
            assert forall|k: Seq<char>|
                map_of(self.entries@).contains_key(k) implies !map_of(self.entries@)[k].spec_expired_at(
                now,
            ) by {
                lemma_map_of_contains(self.entries@, k);
                let j = choose|j: int| 0 <= j < self.entries@.len() && self.entries@[j].0@ == k;
                lemma_map_of_index(self.entries@, j);
            }
            lemma_sweep_all_live(map_of(self.entries@), now);
        }
    }

    /// The key-value pairs of all entries not expired at the instant `now`,
    /// values copied out; evicts nothing.
    pub fn snapshot_at(&self, now: u64) -> (r: Vec<(String, V)>)
        requires
            self.wf(),
        ensures
            snapshot_matches(self@, now, r@),
            forall|a: int, b: int| 0 <= a < b < r@.len() ==> r@[a].0@ != r@[b].0@,
    {
        let mut out: Vec<(String, V)> = Vec::new();
        let mut i: usize = 0;
        while i < self.entries.len()
            invariant
                self.wf(),
                i <= self.entries@.len(),
                forall|a: int| #![auto]
                    0 <= a < out@.len() ==> live_at(self@, out@[a].0@, now) && cloned(
                        self@[out@[a].0@].value,
                        out@[a].1,
                    ),
                forall|j: int| #![auto]
                    0 <= j < i && !self.entries@[j].1.spec_expired_at(now) ==> exists|a: int|
                        0 <= a < out@.len() && out@[a].0@ == self.entries@[j].0@,
                forall|a: int|
                    0 <= a < out@.len() ==> exists|j: int|
                        0 <= j < i && (#[trigger] out@[a].0@) == self.entries@[j].0@,
                forall|a: int, b: int| 0 <= a < b < out@.len() ==> out@[a].0@ != out@[b].0@,
            decreases self.entries@.len() - i,
        {
            if !self.entries[i].1.is_expired_at(now) {
                proof {
                    lemma_map_of_index(self.entries@, i as int);
                }
                let k = self.entries[i].0.clone();
                let v = self.entries[i].1.value();
                let ghost out0 = out@;
                out.push((k, v));
                proof {
                    assert(out@[out@.len() - 1].0@ == self.entries@[i as int].0@);
                    assert forall|j: int| #![auto]
                        0 <= j < i + 1 && !self.entries@[j].1.spec_expired_at(
                            now,
                        ) implies exists|a: int|
                        0 <= a < out@.len() && out@[a].0@ == self.entries@[j].0@ by {
                        if j < i {
                            let a = choose|a: int|
                                0 <= a < out0.len() && out0[a].0@ == self.entries@[j].0@;
                            assert(out@[a].0@ == self.entries@[j].0@);
                        } else {
                            assert(out@[out@.len() - 1].0@ == self.entries@[j].0@);
                        }
                    }
                }
            }
            i = i + 1;
        }
        proof {
            assert forall|k: Seq<char>| live_at(self@, k, now) implies exists|a: int|
                0 <= a < out@.len() && out@[a].0@ == k by {
                lemma_map_of_contains(self.entries@, k);
                let j = choose|j: int| 0 <= j < self.entries@.len() && self.entries@[j].0@ == k;
                lemma_map_of_index(self.entries@, j);
            }
        }
        out
    }

    /// Stores `value` under `key` with the deadline `now + lifetime`,
    /// overwriting any prior entry for `key`.
    pub fn insert_at(&mut self, key: String, value: V, lifetime: u64, now: u64)
        requires
            old(self).wf(),
        ensures
            final(self).wf(),
            final(self)@ == insert_state(old(self)@, key@, value, lifetime, now),
            final(self).time_source() == old(self).time_source(),
    {
        let w = Value::new(value, lifetime, now);
        let idx = self.find_index(&key);
        match idx {
            Some(i) => {
                proof {
                    lemma_map_of_update(self.entries@, i as int, (key, w));
                }
                self.entries.set(i, (key, w));
            },
            None => {
                proof {
                    lemma_map_of_push(self.entries@, (key, w));
                }
                self.entries.push((key, w));
            },
        }
    }

    /// Stores `value` under `key` for `lifetime` ticks from the source's
    /// current instant, overwriting any prior entry for `key`.
    pub fn insert(&mut self, key: String, value: V, lifetime: u64)
        requires
            old(self).wf(),
        ensures
            final(self).wf(),
            final(self).time_source() == old(self).time_source(),
            exists|t: u64| final(self)@ == insert_state(old(self)@, key@, value, lifetime, t),
    {
        let now = self.ts.now();
        self.insert_at(key, value, lifetime, now);
    }

    /// A copy of the value under `key`, or `None` when there is none or it
    /// has expired; an entry found expired is evicted on the way.
    pub fn get(&mut self, key: &String) -> (r: Option<V>)
        requires
            old(self).wf(),
        ensures
            final(self).wf(),
            final(self).time_source() == old(self).time_source(),
            exists|t: u64|
                final(self)@ == read_state(old(self)@, key@, t) && (match r {
                    Some(v) => live_at(old(self)@, key@, t) && cloned(old(self)@[key@].value, v),
                    None => !live_at(old(self)@, key@, t),
                }),
    {
        let now = self.ts.now();
        self.get_at(key, now)
    }

    /// Whether the map holds a not-yet-expired entry for `key`; shares
    /// `get`'s eviction side effect.
    pub fn contains(&mut self, key: &String) -> (r: bool)
        requires
            old(self).wf(),
        ensures
            final(self).wf(),
            final(self).time_source() == old(self).time_source(),
            exists|t: u64|
                final(self)@ == read_state(old(self)@, key@, t) && r == live_at(
                    old(self)@,
                    key@,
                    t,
                ),
    {
        let now = self.ts.now();
        self.contains_at(key, now)
    }

    /// Removes the entry for `key` whatever its expiry, but hands the value
    /// back only if the entry had not yet expired.
    pub fn remove(&mut self, key: &String) -> (r: Option<V>)
        requires
            old(self).wf(),
        ensures
            final(self).wf(),
            final(self)@ == old(self)@.remove(key@),
            final(self).time_source() == old(self).time_source(),
            exists|t: u64|
                match r {
                    Some(v) => live_at(old(self)@, key@, t) && v == old(self)@[key@].value,
                    None => !live_at(old(self)@, key@, t),
                },
    {
        let now = self.ts.now();
        self.remove_at(key, now)
    }

    /// Resets the deadline of a live entry absolutely to `new_lifetime`
    /// ticks from the source's current instant and reports whether it did;
    /// an entry found expired is evicted instead.
    pub fn refresh(&mut self, key: &String, new_lifetime: u64) -> (r: bool)
        requires
            old(self).wf(),
        ensures
            final(self).wf(),
            final(self).time_source() == old(self).time_source(),
            exists|t: u64|
                final(self)@ == refresh_state(old(self)@, key@, new_lifetime, t) && r == live_at(
                    old(self)@,
                    key@,
                    t,
                ),
    {
        let now = self.ts.now();
        self.refresh_at(key, new_lifetime, now)
    }

    /// Compounds the deadline of a live entry by `added_lifetime` ticks and
    /// reports whether it did; an entry found expired is evicted instead.
    pub fn extend(&mut self, key: &String, added_lifetime: u64) -> (r: bool)
        requires
            old(self).wf(),
        ensures
            final(self).wf(),
            final(self).time_source() == old(self).time_source(),
            exists|t: u64|
                final(self)@ == extend_state(old(self)@, key@, added_lifetime, t) && r == live_at(
                    old(self)@,
                    key@,
                    t,
                ),
    {
        let now = self.ts.now();
        self.extend_at(key, added_lifetime, now)
    }

    /// How many entries have not expired as of the source's current
    /// instant; counts without evicting.
    pub fn len(&self) -> (r: usize)
        requires
            self.wf(),
        ensures
            exists|t: u64| r == live_len(self@, t),
    {
        let now = self.ts.now();
        let r = self.len_at(now);
        proof {
            assert(r == live_len(self@, now));
        }
        r
    }

    /// The key-value pairs of all entries not expired as of the source's
    /// current instant, values copied out; evicts nothing.
    pub fn snapshot(&self) -> (r: Vec<(String, V)>)
        requires
            self.wf(),
        ensures
            exists|t: u64| snapshot_matches(self@, t, r@),
            forall|a: int, b: int| 0 <= a < b < r@.len() ==> r@[a].0@ != r@[b].0@,
    {
        let now = self.ts.now();
        self.snapshot_at(now)
    }

    /// A copy of the raw wrapper under `key`, or `None` when there is none
    /// or it has expired; an entry found expired is evicted on the way.
    pub fn get_value(&mut self, key: &String) -> (r: Option<Value<V>>)
        requires
            old(self).wf(),
        ensures
            final(self).wf(),
            final(self).time_source() == old(self).time_source(),
            exists|t: u64|
                final(self)@ == read_state(old(self)@, key@, t) && (match r {
                    Some(w) => live_at(old(self)@, key@, t) && w.expires
                        == old(self)@[key@].expires && cloned(old(self)@[key@].value, w.value),
                    None => !live_at(old(self)@, key@, t),
                }),
    {
        let now = self.ts.now();
        self.get_value_at(key, now)
    }

    /// Evicts every entry expired as of one snapshot of the source's
    /// current instant.
    pub fn cleanup(&mut self)
        requires
            old(self).wf(),
        ensures
            final(self).wf(),
            final(self).time_source() == old(self).time_source(),
            exists|t: u64| final(self)@ == sweep(old(self)@, t),
    {
        let now = self.ts.now();
        self.cleanup_at(now);
    }

    /// How many entries the underlying table holds, expired ones included.
    pub fn raw_len(&self) -> (r: usize)
        requires
            self.wf(),
        ensures
            r == self@.dom().len(),
    {
        proof {
            lemma_map_of_len(self.entries@);
        }
        self.entries.len()
    }

    /// Shared access to the owned time source.
    pub fn time_source_ref(&self) -> (r: &TS)
        ensures
            *r == self.time_source(),
    {
        &self.ts
    }

    /// Mutable access to the owned time source, so a test can advance a
    /// controllable clock; the table itself is untouched.
    pub fn time_source_mut(&mut self) -> (r: &mut TS)
        ensures
            *r == old(self).time_source(),
            final(self).time_source() == *final(r),
            final(self)@ == old(self)@,
            final(self).wf() == old(self).wf(),
    {
        &mut self.ts
    }
}

impl<V> Default for TimedMap<V, MonotonicClock> {
    /// An empty map on the production time source.
    fn default() -> (r: Self)
        ensures
            r.wf(),
            r@ == Map::<Seq<char>, Value<V>>::empty(),
    {
        Self::new()
    }
}

/// Once an entry's deadline has passed, a checked read of its key reports
/// absent and evicts it, and any count taken at that instant or later no
/// longer includes it — no sweep needed.
pub proof fn lemma_lazy_eviction_on_read<V>(m: Map<Seq<char>, Value<V>>, k: Seq<char>, t: u64)
    requires
        m.contains_key(k),
        m[k].spec_expired_at(t),
    ensures
        !live_at(m, k, t),
        read_state(m, k, t) == m.remove(k),
        !read_state(m, k, t).contains_key(k),
        forall|t2: u64| t2 >= t ==> live_len(read_state(m, k, t), t2) == live_len(m, t2),
{
    assert forall|t2: u64| t2 >= t implies live_len(read_state(m, k, t), t2) == live_len(
        m,
        t2,
    ) by {
        crate::value::lemma_expiry_monotonic(m[k], t, t2);
        assert(live_keys(m.remove(k), t2) =~= live_keys(m, t2));
    }
}

/// Sweeping is idempotent: with no intervening insert or passage of time, a
/// second sweep changes nothing.
pub proof fn lemma_sweep_idempotent<V>(m: Map<Seq<char>, Value<V>>, t: u64)
    ensures
        sweep(sweep(m, t), t) == sweep(m, t),
{
    let m1 = sweep(m, t);
    assert forall|k: Seq<char>| #[trigger] m1.contains_key(k) implies !m1[k].spec_expired_at(
        t,
    ) by {
        assert(m1[k] == m[k]);
    }
    lemma_sweep_all_live(m1, t);
}

/// Refreshing resets the deadline from the refresh instant alone, while
/// extending compounds the previous deadline: for an entry inserted with
/// lifetime `l` at instant zero and still live at `t`, a refresh with `l2`
/// yields the deadline `t + l2` — independent of `l` — and an extend with
/// `l3` yields `l + l3`.
pub proof fn lemma_refresh_resets_extend_compounds<V>(
    k: Seq<char>,
    v: V,
    l: u64,
    l2: u64,
    l3: u64,
    t: u64,
)
    requires
        t <= l,
    ensures
        ({
            let m = insert_state(Map::<Seq<char>, Value<V>>::empty(), k, v, l, 0);
            refresh_state(m, k, l2, t)[k].expires == sat_add(t, l2) && extend_state(
                m,
                k,
                l3,
                t,
            )[k].expires == sat_add(l, l3)
        }),
{
    let m = insert_state(Map::<Seq<char>, Value<V>>::empty(), k, v, l, 0);
    assert(m[k].expires == l);
    assert(live_at(m, k, t));
}

/// A table holding only an expired, not-yet-swept entry diverges: the
/// filtered count is already zero while the table is not yet empty.
pub proof fn lemma_is_empty_len_divergence<V>(k: Seq<char>, v: V, l: u64, t0: u64, t: u64)
    requires
        t > sat_add(t0, l),
    ensures
        ({
            let m = insert_state(Map::<Seq<char>, Value<V>>::empty(), k, v, l, t0);
            live_len(m, t) == 0 && m != Map::<Seq<char>, Value<V>>::empty()
        }),
{
    let m = insert_state(Map::<Seq<char>, Value<V>>::empty(), k, v, l, t0);
    assert(live_keys(m, t) =~= Set::<Seq<char>>::empty());
    assert(m.contains_key(k));
}

} // verus!
