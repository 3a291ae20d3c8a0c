use timedmap::MockClock;
use timedmap::TimeSource;
use timedmap::Value;

#[test]
fn expiry() {
    let mut clock = MockClock::new();
    let v: Value<&str> = Value::new("foo", 100, clock.now());
    assert_eq!(v.expires(), clock.now() + 100);
    assert!(!v.is_expired(&clock));
    assert_eq!(v.value_checked(&clock), Some("foo"));

    clock.advance(100);

    assert!(!v.is_expired(&clock));
    assert_eq!(v.value_checked(&clock), Some("foo"));

    clock.advance(1);

    assert!(v.is_expired(&clock));
    assert_eq!(v.value_checked(&clock), None);
}

#[test]
fn expiry_is_monotone_across_instants() {
    let v: Value<i32> = Value::new(1, 5, 0);
    assert!(!v.is_expired_at(0));
    assert!(!v.is_expired_at(5));
    assert!(v.is_expired_at(6));
    assert!(v.is_expired_at(100));
    assert!(v.is_expired_at(u64::MAX));
}

#[test]
fn set_expiry_resets_add_expiry_compounds() {
    let mut v: Value<i32> = Value::new(1, 100, 0);
    assert_eq!(v.expires(), 100);
    v.set_expiry_at(30, 50);
    assert_eq!(v.expires(), 80);
    v.add_expiry(15);
    assert_eq!(v.expires(), 95);
    assert!(!v.is_expired_at(95));
    assert!(v.is_expired_at(96));
}

#[test]
fn deadline_arithmetic_saturates() {
    let v: Value<i32> = Value::new(1, u64::MAX, 5);
    assert_eq!(v.expires(), u64::MAX);
    assert!(!v.is_expired_at(u64::MAX));

    let mut w: Value<i32> = Value::new(1, 10, 0);
    w.add_expiry(u64::MAX);
    assert_eq!(w.expires(), u64::MAX);
}

#[test]
fn value_accessors() {
    let v: Value<String> = Value::new("hi".to_string(), 10, 0);
    assert_eq!(v.value(), "hi".to_string());
    assert_eq!(v.value_ref(), &"hi".to_string());
    assert_eq!(v.value_checked_at(10), Some("hi".to_string()));
    assert_eq!(v.value_checked_at(11), None);
    assert_eq!(v.value_ref_checked_at(10), Some(&"hi".to_string()));
    assert_eq!(v.value_ref_checked_at(11), None);
}

#[test]
fn checked_reads_through_time_source() {
    let mut clock = MockClock::new();
    let v: Value<i32> = Value::new(7, 3, clock.now());
    assert_eq!(v.value_ref_checked(&clock), Some(&7));
    clock.advance(4);
    assert_eq!(v.value_ref_checked(&clock), None);
    assert_eq!(v.value_checked(&clock), None);

    let mut w = v.clone();
    w.set_expiry(10, &clock);
    assert_eq!(w.expires(), 14);
    assert_eq!(w.value_checked(&clock), Some(7));
}
