use ratelimit::{Duration, Instant};

#[test]
fn durations_are_whole_nanoseconds() {
    assert_eq!(Duration::zero().as_nanos(), 0);
    assert!(Duration::zero().is_zero());
    assert!(!Duration::from_nanos(1).is_zero());
    assert_eq!(Duration::from_micros(3).as_nanos(), 3_000);
    assert_eq!(Duration::from_millis(3).as_nanos(), 3_000_000);
    assert_eq!(Duration::from_secs(3).as_nanos(), 3_000_000_000);
    assert_eq!(Duration::from_millis(2_500).as_secs(), 2);
    assert_eq!(Duration::from_micros(2_500).as_millis(), 2);
    assert!(Duration::from_millis(1) < Duration::from_secs(1));
}

#[test]
fn duration_arithmetic_saturates() {
    assert_eq!(Duration::from_secs(u64::MAX).as_nanos(), u64::MAX);
    assert_eq!(Duration::from_millis(u64::MAX / 1_000).as_nanos(), u64::MAX);
    assert_eq!(
        Duration::from_nanos(u64::MAX).saturating_add(Duration::from_nanos(1)).as_nanos(),
        u64::MAX
    );
    assert_eq!(Duration::from_nanos(5).saturating_add(Duration::from_nanos(6)).as_nanos(), 11);
    assert_eq!(Duration::from_nanos(5).saturating_sub(Duration::from_nanos(6)).as_nanos(), 0);
    assert_eq!(Duration::from_nanos(9).saturating_sub(Duration::from_nanos(6)).as_nanos(), 3);
    assert_eq!(Duration::from_secs(20).saturating_mul(2), Duration::from_secs(40));
    assert_eq!(Duration::from_secs(20).saturating_mul(u64::MAX).as_nanos(), u64::MAX);
    assert_eq!(Duration::from_millis(100).divided_by(4), Duration::from_millis(25));
    assert_eq!(Duration::from_nanos(10).divided_by(3), Duration::from_nanos(3));
}

#[test]
fn instants_are_read_off_one_clock() {
    let start = Instant::from_nanos(100);
    let later = start.saturating_add(Duration::from_nanos(50));
    assert_eq!(later.as_nanos(), 150);
    assert_eq!(later.saturating_duration_since(start), Duration::from_nanos(50));
    assert_eq!(start.saturating_duration_since(later), Duration::zero());
    assert_eq!(later.saturating_sub(Duration::from_nanos(200)).as_nanos(), 0);
    assert_eq!(later.saturating_sub(Duration::from_nanos(20)).as_nanos(), 130);
    assert_eq!(Instant::from_nanos(u64::MAX).saturating_add(Duration::from_nanos(1)).as_nanos(), u64::MAX);
    assert_eq!(start.latest(later), later);
    assert_eq!(later.latest(start), later);
    assert!(start < later);
}
