use ratelimit::{
    ChainAcquisition, ChainedRateLimiter, ConcurrencyLimiter, ConcurrencyLimiterOptions, Duration,
    Instant, Limiter, MetadataValue, QueueProcessingOrder, RateLimitError, RateLimiter,
    TokenBucketRateLimiter, TokenBucketRateLimiterOptions,
};

const MS: u64 = 1_000_000;

fn concurrency(permit_limit: u32, queue_limit: u32) -> ConcurrencyLimiter {
    ConcurrencyLimiter::new(
        ConcurrencyLimiterOptions {
            permit_limit,
            queue_limit,
            queue_processing_order: QueueProcessingOrder::OldestFirst,
        },
        Instant::from_nanos(0),
    )
    .unwrap()
}

fn available(chain: &ChainedRateLimiter, index: usize) -> i64 {
    chain.limiter(index).unwrap().get_statistics(Instant::from_nanos(0)).current_available_permits
}

#[test]
fn test_empty_limiters_error() {
    let result = ChainedRateLimiter::new(vec![]);
    assert!(matches!(result, Err(RateLimitError::InvalidParameter(_))));
}

#[test]
fn test_single_limiter() {
    let limiter = concurrency(5, 0);
    let mut chained = ChainedRateLimiter::new(vec![Limiter::Concurrency(limiter)]).unwrap();

    let lease = chained.attempt_acquire(1, Instant::from_nanos(0)).unwrap();
    assert!(lease.is_acquired());
}

#[test]
fn test_multiple_limiters_all_succeed() {
    let limiter1 = concurrency(5, 0);

    let token_options = TokenBucketRateLimiterOptions {
        tokens_per_period: 10,
        token_limit: 10,
        replenishment_period: Duration::from_secs(1),
        auto_replenishment: false,
        queue_limit: 0,
        queue_processing_order: QueueProcessingOrder::OldestFirst,
    };
    let limiter2 = TokenBucketRateLimiter::new(token_options, Instant::from_nanos(0)).unwrap();

    let mut chained = ChainedRateLimiter::new(vec![
        Limiter::Concurrency(limiter1),
        Limiter::TokenBucket(limiter2),
    ])
    .unwrap();

    let lease = chained.attempt_acquire(1, Instant::from_nanos(0)).unwrap();
    assert!(lease.is_acquired());
    assert_eq!(available(&chained, 0), 4);
    assert_eq!(available(&chained, 1), 9);
}

#[test]
fn test_multiple_limiters_first_fails() {
    let mut limiter1 = concurrency(1, 0);
    let _lease1 = limiter1.attempt_acquire(1, Instant::from_nanos(0)).unwrap();

    let limiter2 = concurrency(5, 0);

    let mut chained = ChainedRateLimiter::new(vec![
        Limiter::Concurrency(limiter1),
        Limiter::Concurrency(limiter2),
    ])
    .unwrap();

    let lease = chained.attempt_acquire(1, Instant::from_nanos(0)).unwrap();
    assert!(!lease.is_acquired());

    let failed_index = lease.try_get_metadata("FailedLimiterIndex").and_then(|v| v.as_index());
    assert_eq!(failed_index, Some(0));
    assert_eq!(available(&chained, 1), 5);
}

#[test]
fn test_multiple_limiters_second_fails() {
    let limiter1 = concurrency(5, 0);

    let mut limiter2 = concurrency(1, 0);
    let _lease2 = limiter2.attempt_acquire(1, Instant::from_nanos(0)).unwrap();

    let mut chained = ChainedRateLimiter::new(vec![
        Limiter::Concurrency(limiter1),
        Limiter::Concurrency(limiter2),
    ])
    .unwrap();

    let lease = chained.attempt_acquire(1, Instant::from_nanos(0)).unwrap();
    assert!(!lease.is_acquired());

    let failed_index = lease.try_get_metadata("FailedLimiterIndex");
    assert_eq!(failed_index, Some(MetadataValue::Index(1)));

    let stats = chained.limiter(0).unwrap().get_statistics(Instant::from_nanos(0));
    assert_eq!(stats.current_available_permits, 5);
}

#[test]
fn test_statistics_aggregation() {
    let limiter1 = concurrency(5, 0);
    let limiter2 = concurrency(10, 0);

    let chained = ChainedRateLimiter::new(vec![
        Limiter::Concurrency(limiter1),
        Limiter::Concurrency(limiter2),
    ])
    .unwrap();

    let stats = chained.get_statistics(Instant::from_nanos(0));
    assert_eq!(stats.current_available_permits, 5);
}

#[test]
fn test_acquire_async() {
    let limiter1 = concurrency(5, 0);
    let limiter2 = concurrency(10, 0);

    let mut chained = ChainedRateLimiter::new(vec![
        Limiter::Concurrency(limiter1),
        Limiter::Concurrency(limiter2),
    ])
    .unwrap();

    let lease = match chained.acquire_async(1, false, Instant::from_nanos(0)).unwrap() {
        ChainAcquisition::Ready(lease) => lease,
        ChainAcquisition::Pending(_) => panic!("the request waits"),
    };
    assert!(lease.is_acquired());
}

#[test]
fn test_acquire_async_with_cancellation() {
    let mut limiter1 = concurrency(1, 10);
    let _lease = limiter1.attempt_acquire(1, Instant::from_nanos(0)).unwrap();
    let limiter2 = concurrency(10, 0);

    let mut chained = ChainedRateLimiter::new(vec![
        Limiter::Concurrency(limiter1),
        Limiter::Concurrency(limiter2),
    ])
    .unwrap();

    let progress = match chained.acquire_async(1, false, Instant::from_nanos(0)).unwrap() {
        ChainAcquisition::Pending(progress) => progress,
        ChainAcquisition::Ready(_) => panic!("the request does not wait"),
    };
    assert_eq!(progress.waits_at(), 0);
    assert_eq!(progress.permit_count(), 1);

    // The request is cancelled while it waits: it leaves the queue.
    let left = chained.cancel(progress, Instant::from_nanos(10 * MS));
    assert!(left.is_none());
    let stats = chained.get_statistics(Instant::from_nanos(10 * MS));
    assert_eq!(stats.current_queued_count, 0);

    // A request whose cancellation is set before it would wait is an error.
    let result = chained.acquire_async(1, true, Instant::from_nanos(20 * MS));
    assert!(matches!(result, Err(RateLimitError::Cancelled)));
}

#[test]
fn a_chain_lease_returns_the_permits_of_all_members() {
    let mut chained = ChainedRateLimiter::new(vec![
        Limiter::Concurrency(concurrency(5, 0)),
        Limiter::Concurrency(concurrency(3, 0)),
    ])
    .unwrap();
    assert_eq!(chained.limiter_count(), 2);
    let now = Instant::from_nanos(0);
    let mut lease = chained.attempt_acquire(2, now).unwrap();
    assert!(lease.is_acquired());
    assert_eq!(available(&chained, 0), 3);
    assert_eq!(available(&chained, 1), 1);
    assert!(chained.idle_duration(now).is_none());

    chained.release(&mut lease, Instant::from_nanos(4 * MS));
    assert_eq!(available(&chained, 0), 5);
    assert_eq!(available(&chained, 1), 3);
    chained.release(&mut lease, Instant::from_nanos(5 * MS));
    assert_eq!(available(&chained, 0), 5);
    assert_eq!(available(&chained, 1), 3);
    assert_eq!(
        chained.idle_duration(Instant::from_nanos(10 * MS)),
        Some(Duration::from_millis(6))
    );
    assert!(chained.limiter(2).is_none());
}

#[test]
fn a_chain_passes_errors_on_and_releases_what_it_took() {
    let mut chained = ChainedRateLimiter::new(vec![
        Limiter::Concurrency(concurrency(5, 0)),
        Limiter::Concurrency(concurrency(3, 0)),
    ])
    .unwrap();
    let now = Instant::from_nanos(0);
    let result = chained.attempt_acquire(4, now);
    assert!(matches!(result, Err(RateLimitError::PermitCountExceeded(4, 3))));
    assert_eq!(available(&chained, 0), 5);
    assert_eq!(available(&chained, 1), 3);
    let stats = chained.get_statistics(now);
    assert_eq!(stats.total_successful_leases, 1);
    assert_eq!(stats.total_failed_leases, 0);
    assert_eq!(stats.current_queued_count, 0);
}

#[test]
fn a_chain_waits_at_a_member_and_goes_on() {
    let mut chained = ChainedRateLimiter::new(vec![
        Limiter::Concurrency(concurrency(2, 0)),
        Limiter::Concurrency(concurrency(1, 4)),
        Limiter::Concurrency(concurrency(2, 0)),
    ])
    .unwrap();
    let mut first = chained.attempt_acquire(1, Instant::from_nanos(0)).unwrap();
    assert!(first.is_acquired());

    let now = Instant::from_nanos(MS);
    let progress = match chained.acquire_async(1, false, now).unwrap() {
        ChainAcquisition::Pending(progress) => progress,
        ChainAcquisition::Ready(_) => panic!("the request does not wait"),
    };
    assert_eq!(progress.waits_at(), 1);
    assert_eq!(available(&chained, 0), 0);
    assert_eq!(available(&chained, 2), 1);
    assert_eq!(chained.get_statistics(now).current_queued_count, 1);

    // The first lease gives the member in the middle its permit back.
    chained.release(&mut first, Instant::from_nanos(2 * MS));
    let completions = chained.take_completions(1);
    assert_eq!(completions.len(), 1);
    assert_eq!(completions[0].ticket, progress.waits_for());
    assert!(chained.take_completions(7).is_empty());

    let mut lease = match chained
        .resume(progress, completions[0], false, Instant::from_nanos(3 * MS))
        .unwrap()
    {
        ChainAcquisition::Ready(lease) => lease,
        ChainAcquisition::Pending(_) => panic!("the request waits again"),
    };
    assert!(lease.is_acquired());
    assert_eq!(available(&chained, 0), 1);
    assert_eq!(available(&chained, 1), 0);
    assert_eq!(available(&chained, 2), 1);

    chained.release(&mut lease, Instant::from_nanos(4 * MS));
    assert_eq!(available(&chained, 0), 2);
    assert_eq!(available(&chained, 1), 1);
    assert_eq!(available(&chained, 2), 2);
}

#[test]
fn chain_statistics_take_the_least_and_the_most() {
    let mut first = concurrency(5, 4);
    let mut second = concurrency(10, 4);
    let now = Instant::from_nanos(0);
    let _a = first.attempt_acquire(5, now).unwrap();
    let _b = first.attempt_acquire(1, now).unwrap();
    let _c = first.acquire_async(2, false, now).unwrap();
    let _d = second.attempt_acquire(10, now).unwrap();
    let _e = second.acquire_async(3, false, now).unwrap();
    let _f = second.attempt_acquire(0, now).unwrap();
    let chained = ChainedRateLimiter::new(vec![
        Limiter::Concurrency(first),
        Limiter::Concurrency(second),
    ])
    .unwrap();
    let stats = chained.get_statistics(now);
    assert_eq!(stats.current_available_permits, 0);
    assert_eq!(stats.current_queued_count, 3);
    assert_eq!(stats.total_successful_leases, 2);
    assert_eq!(stats.total_failed_leases, 2);
}

#[test]
fn a_disposed_chain_refuses_everything() {
    let mut chained = ChainedRateLimiter::new(vec![
        Limiter::Concurrency(concurrency(2, 2)),
        Limiter::Concurrency(concurrency(1, 2)),
    ])
    .unwrap();
    let now = Instant::from_nanos(0);
    let _held = chained.attempt_acquire(1, now).unwrap();
    let progress = match chained.acquire_async(1, false, now).unwrap() {
        ChainAcquisition::Pending(progress) => progress,
        ChainAcquisition::Ready(_) => panic!("the request does not wait"),
    };
    chained.dispose(Instant::from_nanos(MS));
    let completions = chained.take_completions(1);
    assert_eq!(completions.len(), 1);
    assert_eq!(completions[0].ticket, progress.waits_for());
    assert!(!completions[0].into_lease().is_acquired());
    chained.abort(progress, now);
    assert!(matches!(chained.attempt_acquire(1, now), Err(RateLimitError::Disposed)));
    assert!(matches!(chained.acquire_async(1, false, now), Err(RateLimitError::Disposed)));
}

#[test]
fn a_completion_of_another_wait_is_not_taken_on() {
    let mut chained = ChainedRateLimiter::new(vec![
        Limiter::Concurrency(concurrency(1, 2)),
        Limiter::Concurrency(concurrency(3, 0)),
    ])
    .unwrap();
    let now = Instant::from_nanos(0);
    let mut held = chained.attempt_acquire(1, now).unwrap();
    let progress = match chained.acquire_async(1, false, now).unwrap() {
        ChainAcquisition::Pending(progress) => progress,
        ChainAcquisition::Ready(_) => panic!("the request does not wait"),
    };
    chained.release(&mut held, now);
    let mut completions = chained.take_completions(0);
    assert_eq!(completions.len(), 1);
    // The completion is made to say that nothing comes back with the lease.
    completions[0].outcome = ratelimit::WaitOutcome::Granted { refund: 0 };
    let result = chained.resume(progress, completions[0], false, now);
    assert!(matches!(result, Err(RateLimitError::InvalidParameter(_))));
    assert_eq!(available(&chained, 1), 3);

    let mut stray = chained.attempt_acquire(1, now);
    assert!(stray.is_ok());
    chained.discard(5, completions[0], now);
    if let Ok(lease) = stray.as_mut() {
        chained.release(lease, now);
    }
}
