use ratelimit::{
    Acquisition, Duration, FixedWindowRateLimiter, FixedWindowRateLimiterOptions, Instant,
    QueueProcessingOrder, RateLimitError, RateLimiter, ReplenishingRateLimiter, WaitOutcome,
};

const MS: u64 = 1_000_000;

fn window_limiter(
    queue_limit: u32,
    queue_processing_order: QueueProcessingOrder,
    auto_replenishment: bool,
) -> FixedWindowRateLimiter {
    let options = FixedWindowRateLimiterOptions::new(
        10,
        Duration::from_millis(100),
        queue_limit,
        queue_processing_order,
        auto_replenishment,
    )
    .unwrap();
    FixedWindowRateLimiter::new(options, Instant::from_nanos(0)).unwrap()
}

#[test]
fn test_fixed_window_basic() {
    let mut limiter = window_limiter(20, QueueProcessingOrder::OldestFirst, true);

    let lease1 = limiter.attempt_acquire(5, Instant::from_nanos(0)).unwrap();
    assert!(lease1.is_acquired());

    let lease2 = limiter.attempt_acquire(5, Instant::from_nanos(0)).unwrap();
    assert!(lease2.is_acquired());

    let lease3 = limiter.attempt_acquire(1, Instant::from_nanos(0)).unwrap();
    assert!(!lease3.is_acquired());

    let retry_after = lease3.try_get_metadata("RetryAfter");
    assert!(retry_after.is_some());

    // The timer begins a window every hundred milliseconds.
    limiter.replenish(Instant::from_nanos(100 * MS));

    let lease4 = limiter.attempt_acquire(10, Instant::from_nanos(150 * MS)).unwrap();
    assert!(lease4.is_acquired());
}

#[test]
fn fixed_window_test_manual_replenishment() {
    let mut limiter = window_limiter(20, QueueProcessingOrder::OldestFirst, false);

    let lease1 = limiter.attempt_acquire(10, Instant::from_nanos(0)).unwrap();
    assert!(lease1.is_acquired());

    let lease2 = limiter.attempt_acquire(1, Instant::from_nanos(0)).unwrap();
    assert!(!lease2.is_acquired());

    assert!(limiter.try_replenish(Instant::from_nanos(110 * MS)));

    let lease3 = limiter.attempt_acquire(10, Instant::from_nanos(110 * MS)).unwrap();
    assert!(lease3.is_acquired());
}

#[test]
fn fixed_window_test_auto_replenishment_prevents_manual() {
    let mut limiter = window_limiter(20, QueueProcessingOrder::OldestFirst, true);

    assert!(!limiter.try_replenish(Instant::from_nanos(0)));
}

#[test]
fn test_window_expiration_in_manual_mode() {
    let mut limiter = window_limiter(20, QueueProcessingOrder::OldestFirst, false);

    let lease1 = limiter.attempt_acquire(10, Instant::from_nanos(0)).unwrap();
    assert!(lease1.is_acquired());

    let lease2 = limiter.attempt_acquire(1, Instant::from_nanos(0)).unwrap();
    assert!(!lease2.is_acquired());

    let lease3 = limiter.attempt_acquire(10, Instant::from_nanos(110 * MS)).unwrap();
    assert!(lease3.is_acquired());
}

#[test]
fn fixed_window_options_name_what_is_wrong() {
    let order = QueueProcessingOrder::OldestFirst;
    assert_eq!(
        FixedWindowRateLimiterOptions::new(0, Duration::from_millis(1), 1, order, false)
            .unwrap_err(),
        RateLimitError::InvalidParameter("permit_limit must be greater than 0".to_string())
    );
    assert_eq!(
        FixedWindowRateLimiterOptions::new(1, Duration::zero(), 1, order, false).unwrap_err(),
        RateLimitError::InvalidParameter("window must be greater than zero".to_string())
    );
    let broken = FixedWindowRateLimiterOptions {
        permit_limit: 1,
        window: Duration::zero(),
        queue_limit: 0,
        queue_processing_order: order,
        auto_replenishment: true,
    };
    assert!(matches!(
        FixedWindowRateLimiter::new(broken, Instant::from_nanos(0)),
        Err(RateLimitError::InvalidParameter(_))
    ));
}

#[test]
fn after_a_new_window_all_permits_are_there() {
    let mut limiter = window_limiter(0, QueueProcessingOrder::OldestFirst, false);
    assert!(limiter.attempt_acquire(7, Instant::from_nanos(0)).unwrap().is_acquired());
    assert_eq!(limiter.get_statistics(Instant::from_nanos(0)).current_available_permits, 3);
    assert!(limiter.try_replenish(Instant::from_nanos(MS)));
    assert_eq!(limiter.get_statistics(Instant::from_nanos(MS)).current_available_permits, 10);
    assert_eq!(limiter.idle_duration(Instant::from_nanos(3 * MS)), Some(Duration::from_millis(2)));
}

#[test]
fn a_new_window_serves_the_queue() {
    let mut limiter = window_limiter(20, QueueProcessingOrder::OldestFirst, true);
    let now = Instant::from_nanos(0);
    assert!(limiter.attempt_acquire(10, now).unwrap().is_acquired());
    let first = limiter.acquire_async(6, false, now).unwrap();
    let second = limiter.acquire_async(6, false, now).unwrap();
    assert!(matches!(first, Acquisition::Pending(0)));
    assert!(matches!(second, Acquisition::Pending(1)));

    limiter.replenish(Instant::from_nanos(100 * MS));
    let completions = limiter.take_completions();
    assert_eq!(completions.len(), 1);
    assert_eq!(completions[0].ticket, 0);
    assert_eq!(completions[0].outcome, WaitOutcome::Granted { refund: 0 });
    let stats = limiter.get_statistics(Instant::from_nanos(100 * MS));
    assert_eq!(stats.current_available_permits, 4);
    assert_eq!(stats.current_queued_count, 6);
    assert_eq!(stats.total_successful_leases, 2);

    limiter.replenish(Instant::from_nanos(200 * MS));
    let completions = limiter.take_completions();
    assert_eq!(completions.len(), 1);
    assert_eq!(completions[0].ticket, 1);
    assert_eq!(limiter.get_statistics(Instant::from_nanos(200 * MS)).current_available_permits, 4);
}

#[test]
fn the_hint_is_the_rest_of_the_window() {
    let mut limiter = window_limiter(0, QueueProcessingOrder::OldestFirst, true);
    assert!(limiter.attempt_acquire(10, Instant::from_nanos(0)).unwrap().is_acquired());

    let lease = limiter.attempt_acquire(1, Instant::from_nanos(30 * MS)).unwrap();
    assert!(!lease.is_acquired());
    assert_eq!(lease.retry_after(), Some(Duration::from_millis(70)));

    let lease = limiter.attempt_acquire(0, Instant::from_nanos(99 * MS)).unwrap();
    assert!(!lease.is_acquired());
    assert_eq!(lease.retry_after(), Some(Duration::from_millis(1)));

    // The timer is late: the window is over and nothing is left of it.
    let lease = limiter.attempt_acquire(1, Instant::from_nanos(130 * MS)).unwrap();
    assert_eq!(lease.retry_after(), Some(Duration::zero()));

    assert_eq!(limiter.calculate_retry_after(10, Instant::from_nanos(40 * MS)), Duration::from_millis(60));
    assert_eq!(limiter.calculate_retry_after(11, Instant::from_nanos(40 * MS)), Duration::from_millis(100));
}

#[test]
fn fixed_window_properties_have_correct_values() {
    let limiter = window_limiter(0, QueueProcessingOrder::OldestFirst, true);
    assert!(limiter.is_auto_replenishing());
    assert_eq!(limiter.replenishment_period(), Duration::from_millis(100));
    let limiter = window_limiter(0, QueueProcessingOrder::OldestFirst, false);
    assert!(!limiter.is_auto_replenishing());
}

#[test]
fn fixed_window_leases_return_nothing() {
    let mut limiter = window_limiter(0, QueueProcessingOrder::OldestFirst, true);
    let now = Instant::from_nanos(0);
    let mut lease = limiter.attempt_acquire(4, now).unwrap();
    limiter.release(&mut lease, now);
    assert_eq!(limiter.get_statistics(now).current_available_permits, 6);
    assert!(matches!(
        limiter.attempt_acquire(11, now),
        Err(RateLimitError::PermitCountExceeded(11, 10))
    ));
}

#[test]
fn disposed_fixed_window_refuses_everything() {
    let mut limiter = window_limiter(20, QueueProcessingOrder::OldestFirst, false);
    let now = Instant::from_nanos(0);
    assert!(limiter.attempt_acquire(10, now).unwrap().is_acquired());
    let _ = limiter.acquire_async(3, false, now).unwrap();
    limiter.dispose(Instant::from_nanos(25 * MS));
    let completions = limiter.take_completions();
    assert_eq!(completions.len(), 1);
    assert_eq!(
        completions[0].outcome,
        WaitOutcome::Failed { retry_after: Some(Duration::from_millis(75)) }
    );
    assert!(matches!(limiter.attempt_acquire(1, now), Err(RateLimitError::Disposed)));
    assert!(matches!(limiter.acquire_async(1, true, now), Err(RateLimitError::Disposed)));
    assert!(limiter.try_replenish(Instant::from_nanos(500 * MS)));
    assert_eq!(limiter.get_statistics(now).current_available_permits, 0);
    assert_eq!(limiter.get_statistics(now).total_failed_leases, 1);
}
