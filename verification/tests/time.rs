use asynchronix::time::{Duration, MonotonicTime, SyncStatus};

#[test]
fn duration_carries_nanoseconds() {
    let d = Duration::new(1, 2_500_000_000);
    assert_eq!(d.as_secs(), 3);
    assert_eq!(d.subsec_nanos(), 500_000_000);
    assert!(!d.is_zero());
    assert!(Duration::zero().is_zero());
}

#[test]
fn duration_comparison() {
    let short = Duration::new(1, 5);
    let long = Duration::new(1, 6);
    assert!(long.exceeds(&short));
    assert!(!short.exceeds(&long));
    assert!(!short.exceeds(&short));
    assert!(Duration::new(2, 0).exceeds(&Duration::new(1, 999_999_999)));
}

#[test]
fn duration_text() {
    assert_eq!(Duration::new(1, 500_000_000).to_text(), "1.5s");
    assert_eq!(Duration::new(0, 3_000_000).to_text(), "3ms");
    assert_eq!(Duration::zero().to_text(), "0ns");
}

#[test]
fn timestamp_parts() {
    let t = MonotonicTime::new(-3, 7).unwrap();
    assert_eq!(t.as_secs(), -3);
    assert_eq!(t.subsec_nanos(), 7);
    assert!(MonotonicTime::new(0, 1_000_000_000).is_none());
    assert!(MonotonicTime::new(0, 999_999_999).is_some());
}

#[test]
fn timestamp_order() {
    let a = MonotonicTime::new(-1, 999_999_999).unwrap();
    let b = MonotonicTime::epoch();
    assert!(a.lt(&b));
    assert!(a.le(&b));
    assert!(!b.lt(&a));
    assert!(b.same(&MonotonicTime::new(0, 0).unwrap()));
    assert!(!a.same(&b));
}

#[test]
fn timestamp_addition() {
    let t = MonotonicTime::new(10, 800_000_000).unwrap();
    let sum = t.checked_add(&Duration::new(5, 300_000_000)).unwrap();
    assert_eq!((sum.as_secs(), sum.subsec_nanos()), (16, 100_000_000));

    let t = MonotonicTime::new(-2, 500_000_000).unwrap();
    let sum = t.checked_add(&Duration::new(1, 500_000_000)).unwrap();
    assert_eq!((sum.as_secs(), sum.subsec_nanos()), (0, 0));
}

#[test]
fn timestamp_addition_overflow() {
    let max = MonotonicTime::max();
    assert!(max.checked_add(&Duration::zero()).is_some());
    assert!(max.checked_add(&Duration::new(0, 1)).is_none());

    // The longest duration fits if the start is early enough.
    let early = MonotonicTime::new(i64::MIN, 0).unwrap();
    let sum = early.checked_add(&Duration::new(u64::MAX, 999_999_999)).unwrap();
    assert!(sum.same(&max));
    let later = MonotonicTime::new(i64::MIN, 1).unwrap();
    assert!(later.checked_add(&Duration::new(u64::MAX, 999_999_999)).is_none());
}

#[test]
fn timestamp_text() {
    assert_eq!(MonotonicTime::epoch().to_text(), "1970-01-01 00:00:00");
    assert_eq!(
        MonotonicTime::new(86_400, 500_000_000).unwrap().to_text(),
        "1970-01-02 00:00:00.5"
    );
}

#[test]
fn sync_status() {
    assert_eq!(SyncStatus::Synchronized, SyncStatus::Synchronized);
    assert_ne!(
        SyncStatus::Synchronized,
        SyncStatus::OutOfSync(Duration::zero())
    );
}
