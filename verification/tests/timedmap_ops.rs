use timedmap::Cleanup;
use timedmap::MockClock;
use timedmap::TimedMap;

fn k(s: &str) -> String {
    s.to_string()
}

fn mock_map<V: Clone>() -> TimedMap<V, MockClock> {
    TimedMap::new_with_timesource(MockClock::new())
}

#[test]
fn get_checked() {
    let mut tm: TimedMap<&str, MockClock> = mock_map();
    assert_eq!(tm.len(), 0);
    assert!(tm.is_empty());

    tm.insert(k("a"), "b", 10);
    assert_eq!(tm.len(), 1);
    assert!(!tm.is_empty());

    let v = tm.get(&k("x"));
    assert_eq!(v, None);
    assert!(!tm.contains(&k("x")));

    tm.time_source_mut().advance(5);
    let v = tm.get(&k("a"));
    assert_eq!(v, Some("b"));
    assert!(tm.contains(&k("a")));
    assert_eq!(tm.len(), 1);
    assert!(!tm.is_empty());

    tm.time_source_mut().advance(6);
    let v = tm.get(&k("a"));
    assert_eq!(v, None);
    assert!(!tm.contains(&k("a")));
    assert_eq!(tm.len(), 0);
    assert!(tm.is_empty());
}

#[test]
fn remove() {
    let mut tm: TimedMap<i32, MockClock> = mock_map();
    tm.insert(k("a"), 1, 100);
    tm.insert(k("b"), 2, 100);
    assert_eq!(tm.len(), 2);
    assert!(!tm.is_empty());

    let v = tm.remove(&k("a"));
    assert_eq!(v, Some(1));
    assert!(!tm.contains(&k("a")));
    assert_eq!(tm.get(&k("b")), Some(2));
    assert!(tm.contains(&k("b")));
    assert_eq!(tm.len(), 1);
    assert!(!tm.is_empty());

    let v = tm.remove(&k("a"));
    assert_eq!(v, None);
    assert!(!tm.contains(&k("a")));
    assert_eq!(tm.get(&k("b")), Some(2));
    assert!(tm.contains(&k("b")));
    assert_eq!(tm.len(), 1);
    assert!(!tm.is_empty());

    tm.time_source_mut().advance(120);
    let v = tm.remove(&k("b"));
    assert_eq!(v, None);
    assert!(!tm.contains(&k("b")));
    assert_eq!(tm.len(), 0);
    assert!(tm.is_empty());
}

#[test]
fn refresh() {
    let mut tm: TimedMap<i32, MockClock> = mock_map();
    tm.insert(k("a"), 1, 100);
    tm.insert(k("b"), 2, 100);
    assert_eq!(tm.len(), 2);
    assert!(!tm.is_empty());

    tm.time_source_mut().advance(60);
    assert_eq!(tm.get(&k("a")), Some(1));
    assert_eq!(tm.get(&k("b")), Some(2));
    assert_eq!(tm.len(), 2);
    assert!(!tm.is_empty());

    assert!(tm.refresh(&k("b"), 60));
    assert!(!tm.refresh(&k("c"), 60));

    tm.time_source_mut().advance(50);
    assert_eq!(tm.get(&k("a")), None);
    assert_eq!(tm.get(&k("b")), Some(2));
    assert_eq!(tm.len(), 1);
    assert!(!tm.is_empty());

    tm.time_source_mut().advance(50);
    assert_eq!(tm.get(&k("a")), None);
    assert_eq!(tm.get(&k("b")), None);
    assert_eq!(tm.len(), 0);
    assert!(tm.is_empty());
}

#[test]
fn extend() {
    let mut tm: TimedMap<i32, MockClock> = mock_map();
    tm.insert(k("a"), 1, 100);
    tm.insert(k("b"), 2, 100);
    assert_eq!(tm.len(), 2);
    assert!(!tm.is_empty());

    tm.time_source_mut().advance(60);
    assert_eq!(tm.get(&k("a")), Some(1));
    assert_eq!(tm.get(&k("b")), Some(2));
    assert_eq!(tm.len(), 2);
    assert!(!tm.is_empty());

    assert!(tm.extend(&k("b"), 10));
    assert!(!tm.extend(&k("c"), 10));

    tm.time_source_mut().advance(50);
    assert_eq!(tm.get(&k("a")), None);
    assert_eq!(tm.get(&k("b")), Some(2));
    assert_eq!(tm.len(), 1);
    assert!(!tm.is_empty());

    tm.time_source_mut().advance(50);
    assert_eq!(tm.get(&k("a")), None);
    assert_eq!(tm.get(&k("b")), None);
    assert_eq!(tm.len(), 0);
    assert!(tm.is_empty());
}

#[test]
fn timedmap_cleanup() {
    let mut tm: TimedMap<i32, MockClock> = mock_map();

    tm.insert(k("a"), 1, 5);
    tm.insert(k("b"), 2, 10);
    tm.insert(k("c"), 3, 15);
    assert_eq!(tm.len(), 3);
    assert!(!tm.is_empty());

    tm.cleanup();
    assert!(tm.contains(&k("a")));
    assert!(tm.contains(&k("b")));
    assert!(tm.contains(&k("c")));
    assert_eq!(tm.len(), 3);
    assert!(!tm.is_empty());

    tm.time_source_mut().advance(6);
    tm.cleanup();
    assert!(!tm.contains(&k("a")));
    assert!(tm.contains(&k("b")));
    assert!(tm.contains(&k("c")));
    assert_eq!(tm.len(), 2);
    assert!(!tm.is_empty());

    tm.time_source_mut().advance(5);
    tm.cleanup();
    assert!(!tm.contains(&k("a")));
    assert!(!tm.contains(&k("b")));
    assert!(tm.contains(&k("c")));
    assert_eq!(tm.len(), 1);
    assert!(!tm.is_empty());

    tm.time_source_mut().advance(5);
    tm.cleanup();
    assert!(!tm.contains(&k("a")));
    assert!(!tm.contains(&k("b")));
    assert!(!tm.contains(&k("c")));
    assert_eq!(tm.len(), 0);
    assert!(tm.is_empty());
}

#[test]
fn clear() {
    let mut tm: TimedMap<i32, MockClock> = mock_map();

    tm.insert(k("a"), 1, 5);
    tm.insert(k("b"), 2, 10);
    tm.insert(k("c"), 3, 15);
    assert_eq!(tm.len(), 3);
    assert!(!tm.is_empty());

    tm.clear();

    assert!(!tm.contains(&k("a")));
    assert!(!tm.contains(&k("b")));
    assert!(!tm.contains(&k("c")));
    assert_eq!(tm.len(), 0);
    assert!(tm.is_empty());
}

#[test]
fn scenario_staggered_expiry() {
    let mut tm: TimedMap<i32, MockClock> = mock_map();
    tm.insert(k("a"), 1, 100);
    tm.insert(k("b"), 2, 200);
    tm.insert(k("c"), 3, 300);

    assert_eq!(tm.get(&k("a")), Some(1));
    assert_eq!(tm.len(), 3);

    tm.time_source_mut().advance(120);
    assert_eq!(tm.get(&k("a")), None);
    assert_eq!(tm.get(&k("b")), Some(2));
    assert_eq!(tm.len(), 2);

    tm.time_source_mut().advance(100);
    assert_eq!(tm.get(&k("b")), None);
    assert_eq!(tm.get(&k("c")), Some(3));
    assert_eq!(tm.len(), 1);
}

#[test]
fn remove_expired_returns_absent_but_evicts() {
    let mut tm: TimedMap<i32, MockClock> = mock_map();
    tm.insert(k("x"), 9, 10);
    tm.time_source_mut().advance(11);
    assert_eq!(tm.remove(&k("x")), None);
    assert!(!tm.contains(&k("x")));
    assert!(tm.is_empty());
}

#[test]
fn lazy_eviction_without_sweep() {
    let mut tm: TimedMap<i32, MockClock> = mock_map();
    tm.insert(k("a"), 1, 10);
    tm.time_source_mut().advance(11);
    assert!(tm.get_value_unchecked(&k("a")).is_some());
    assert_eq!(tm.get(&k("a")), None);
    assert!(tm.get_value_unchecked(&k("a")).is_none());
    assert_eq!(tm.len(), 0);
    assert!(tm.is_empty());
}

#[test]
fn sweep_twice_is_noop() {
    let mut tm: TimedMap<i32, MockClock> = mock_map();
    tm.insert(k("a"), 1, 5);
    tm.insert(k("b"), 2, 50);
    tm.time_source_mut().advance(10);
    tm.cleanup();
    assert!(tm.get_value_unchecked(&k("a")).is_none());
    assert!(tm.get_value_unchecked(&k("b")).is_some());
    assert_eq!(tm.len(), 1);
    tm.cleanup();
    assert!(tm.get_value_unchecked(&k("a")).is_none());
    assert!(tm.get_value_unchecked(&k("b")).is_some());
    assert_eq!(tm.len(), 1);
    assert!(!tm.is_empty());
}

#[test]
fn refresh_resets_extend_compounds_deadlines() {
    let mut tm: TimedMap<i32, MockClock> = mock_map();
    tm.insert(k("a"), 1, 100);
    tm.insert(k("b"), 2, 100);
    tm.time_source_mut().advance(60);

    assert!(tm.refresh(&k("a"), 60));
    let w = tm.get_value(&k("a")).unwrap();
    assert_eq!(w.expires(), 120);

    assert!(tm.extend(&k("b"), 10));
    let w = tm.get_value(&k("b")).unwrap();
    assert_eq!(w.expires(), 110);
}

#[test]
fn is_empty_diverges_from_len() {
    let mut tm: TimedMap<i32, MockClock> = mock_map();
    tm.insert(k("a"), 1, 1);
    tm.time_source_mut().advance(2);
    assert_eq!(tm.len(), 0);
    assert!(!tm.is_empty());
}

#[test]
fn insert_overwrites_existing() {
    let mut tm: TimedMap<i32, MockClock> = mock_map();
    tm.insert(k("a"), 1, 10);
    tm.insert(k("a"), 2, 50);
    assert_eq!(tm.len(), 1);
    assert_eq!(tm.get(&k("a")), Some(2));
    tm.time_source_mut().advance(20);
    assert_eq!(tm.get(&k("a")), Some(2));
}

#[test]
fn zero_lifetime_expires_strictly_after_insert() {
    let mut tm: TimedMap<i32, MockClock> = mock_map();
    tm.insert(k("a"), 1, 0);
    assert_eq!(tm.get(&k("a")), Some(1));
    tm.time_source_mut().advance(1);
    assert_eq!(tm.get(&k("a")), None);
}

#[test]
fn snapshot_contains_only_live_pairs() {
    let mut tm: TimedMap<i32, MockClock> = mock_map();
    tm.insert(k("a"), 1, 5);
    tm.insert(k("b"), 2, 50);
    tm.insert(k("c"), 3, 50);
    tm.time_source_mut().advance(10);
    let mut snap = tm.snapshot();
    snap.sort();
    assert_eq!(snap, vec![(k("b"), 2), (k("c"), 3)]);
    assert_eq!(tm.len(), 2);
    assert!(tm.get_value_unchecked(&k("a")).is_some());
}

#[test]
fn sweep_through_cleanup_trait() {
    let mut tm: TimedMap<i32, MockClock> = mock_map();
    tm.insert(k("a"), 1, 5);
    tm.time_source_mut().advance(6);
    Cleanup::cleanup(&mut tm);
    assert!(tm.is_empty());
}

#[test]
fn real_clock_smoke() {
    let mut tm: TimedMap<i32> = TimedMap::new();
    tm.insert(k("a"), 1, 1_000_000);
    assert_eq!(tm.get(&k("a")), Some(1));

    let mut tm2: TimedMap<i32> = TimedMap::default();
    assert!(tm2.is_empty());
    tm2.insert(k("b"), 2, 1_000_000);
    assert!(tm2.contains(&k("b")));
    assert_eq!(tm2.remove(&k("b")), Some(2));
}
