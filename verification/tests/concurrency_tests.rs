use ratelimit::{
    Acquisition, ConcurrencyLimiter, ConcurrencyLimiterOptions, Instant, LeaseCleanup,
    QueueProcessingOrder, RateLimitError, RateLimitLease, RateLimiter, WaitOutcome,
};

const MS: u64 = 1_000_000;

fn limiter_with(
    permit_limit: u32,
    queue_processing_order: QueueProcessingOrder,
    queue_limit: u32,
) -> ConcurrencyLimiter {
    ConcurrencyLimiter::new(
        ConcurrencyLimiterOptions { permit_limit, queue_processing_order, queue_limit },
        Instant::from_nanos(0),
    )
    .unwrap()
}

fn pending(acquisition: Result<Acquisition, RateLimitError>) -> u64 {
    match acquisition {
        Ok(Acquisition::Pending(ticket)) => ticket,
        other => panic!("the request does not wait: {:?}", other),
    }
}

fn ready(acquisition: Result<Acquisition, RateLimitError>) -> RateLimitLease {
    match acquisition {
        Ok(Acquisition::Ready(lease)) => lease,
        other => panic!("the request was not decided: {:?}", other),
    }
}

#[test]
fn concurrency_tests_invalid_options_throws() {
    let result = ConcurrencyLimiter::new(
        ConcurrencyLimiterOptions {
            permit_limit: 0,
            queue_processing_order: QueueProcessingOrder::NewestFirst,
            queue_limit: 1,
        },
        Instant::from_nanos(0),
    );
    assert!(matches!(result, Err(RateLimitError::InvalidParameter(_))));

    let result = ConcurrencyLimiter::new(
        ConcurrencyLimiterOptions {
            permit_limit: 1,
            queue_processing_order: QueueProcessingOrder::NewestFirst,
            queue_limit: 0,
        },
        Instant::from_nanos(0),
    );
    assert!(result.is_ok());
}

#[test]
fn concurrency_tests_can_acquire_resource() {
    let mut limiter = limiter_with(1, QueueProcessingOrder::NewestFirst, 1);

    let mut lease = limiter.attempt_acquire(1, Instant::from_nanos(0)).unwrap();
    assert!(lease.is_acquired());

    let lease2 = limiter.attempt_acquire(1, Instant::from_nanos(MS)).unwrap();
    assert!(!lease2.is_acquired());

    limiter.release(&mut lease, Instant::from_nanos(2 * MS));

    let lease3 = limiter.attempt_acquire(1, Instant::from_nanos(3 * MS)).unwrap();
    assert!(lease3.is_acquired());
}

#[test]
fn concurrency_tests_can_acquire_resource_async() {
    let mut limiter = limiter_with(1, QueueProcessingOrder::NewestFirst, 1);

    let mut lease = ready(limiter.acquire_async(1, false, Instant::from_nanos(0)));
    assert!(lease.is_acquired());

    let ticket = pending(limiter.acquire_async(1, false, Instant::from_nanos(MS)));
    assert!(limiter.take_completions().is_empty());

    limiter.release(&mut lease, Instant::from_nanos(10 * MS));

    let completions = limiter.take_completions();
    assert_eq!(completions.len(), 1);
    assert_eq!(completions[0].ticket, ticket);
    let lease2 = completions[0].into_lease();
    assert!(lease2.is_acquired());
}

#[test]
fn can_acquire_resource_async_queues_and_grabs_oldest() {
    let mut limiter = limiter_with(1, QueueProcessingOrder::OldestFirst, 2);

    let mut lease = ready(limiter.acquire_async(1, false, Instant::from_nanos(0)));
    assert!(lease.is_acquired());

    let wait1 = pending(limiter.acquire_async(1, false, Instant::from_nanos(MS)));
    let wait2 = pending(limiter.acquire_async(1, false, Instant::from_nanos(2 * MS)));
    assert!(limiter.take_completions().is_empty());

    limiter.release(&mut lease, Instant::from_nanos(10 * MS));

    let completions = limiter.take_completions();
    assert_eq!(completions.len(), 1);
    assert_eq!(completions[0].ticket, wait1);
    let mut lease = completions[0].into_lease();
    assert!(lease.is_acquired());
    assert_eq!(limiter.get_statistics(Instant::from_nanos(10 * MS)).current_queued_count, 1);

    limiter.release(&mut lease, Instant::from_nanos(20 * MS));

    let completions = limiter.take_completions();
    assert_eq!(completions.len(), 1);
    assert_eq!(completions[0].ticket, wait2);
    let lease = completions[0].into_lease();
    assert!(lease.is_acquired());
}

#[test]
fn can_acquire_resource_async_queues_and_grabs_newest() {
    let mut limiter = limiter_with(2, QueueProcessingOrder::NewestFirst, 3);

    let mut lease = ready(limiter.acquire_async(2, false, Instant::from_nanos(0)));
    assert!(lease.is_acquired());

    let wait1 = pending(limiter.acquire_async(2, false, Instant::from_nanos(MS)));
    let wait2 = pending(limiter.acquire_async(1, false, Instant::from_nanos(2 * MS)));
    assert!(limiter.take_completions().is_empty());

    limiter.release(&mut lease, Instant::from_nanos(10 * MS));

    let completions = limiter.take_completions();
    assert_eq!(completions.len(), 1);
    assert_eq!(completions[0].ticket, wait2);
    let mut lease = completions[0].into_lease();
    assert!(lease.is_acquired());

    limiter.release(&mut lease, Instant::from_nanos(20 * MS));

    let completions = limiter.take_completions();
    assert_eq!(completions.len(), 1);
    assert_eq!(completions[0].ticket, wait1);
    let lease = completions[0].into_lease();
    assert!(lease.is_acquired());
}

#[test]
fn concurrency_tests_throws_when_acquiring_more_than_limit() {
    let mut limiter = limiter_with(1, QueueProcessingOrder::NewestFirst, 1);

    let result = limiter.attempt_acquire(2, Instant::from_nanos(0));
    assert!(matches!(result, Err(RateLimitError::PermitCountExceeded(2, 1))));
}

#[test]
fn concurrency_tests_throws_when_waiting_for_more_than_limit() {
    let mut limiter = limiter_with(1, QueueProcessingOrder::NewestFirst, 1);

    let result = limiter.acquire_async(2, false, Instant::from_nanos(0));
    assert!(matches!(result, Err(RateLimitError::PermitCountExceeded(2, 1))));
}

#[test]
fn acquire_zero_with_availability() {
    let mut limiter = limiter_with(1, QueueProcessingOrder::NewestFirst, 1);

    let lease = limiter.attempt_acquire(0, Instant::from_nanos(0)).unwrap();
    assert!(lease.is_acquired());
}

#[test]
fn acquire_zero_without_availability() {
    let mut limiter = limiter_with(1, QueueProcessingOrder::NewestFirst, 1);

    let lease = limiter.attempt_acquire(1, Instant::from_nanos(0)).unwrap();
    assert!(lease.is_acquired());

    let lease2 = limiter.attempt_acquire(0, Instant::from_nanos(MS)).unwrap();
    assert!(!lease2.is_acquired());
}

#[test]
fn acquire_async_zero_with_availability() {
    let mut limiter = limiter_with(1, QueueProcessingOrder::NewestFirst, 1);

    let lease = ready(limiter.acquire_async(0, false, Instant::from_nanos(0)));
    assert!(lease.is_acquired());
}

#[test]
fn can_cancel_acquire_async_after_queuing() {
    let mut limiter = limiter_with(1, QueueProcessingOrder::OldestFirst, 1);

    let mut lease = limiter.attempt_acquire(1, Instant::from_nanos(0)).unwrap();
    assert!(lease.is_acquired());

    let ticket = pending(limiter.acquire_async(1, false, Instant::from_nanos(MS)));

    assert!(limiter.cancel(ticket, Instant::from_nanos(10 * MS)));
    assert_eq!(limiter.get_statistics(Instant::from_nanos(10 * MS)).current_queued_count, 0);

    limiter.release(&mut lease, Instant::from_nanos(20 * MS));

    assert!(limiter.take_completions().is_empty());
    let stats = limiter.get_statistics(Instant::from_nanos(30 * MS));
    assert_eq!(stats.current_available_permits, 1);
}

#[test]
fn can_cancel_acquire_async_before_queuing() {
    let mut limiter = limiter_with(1, QueueProcessingOrder::OldestFirst, 1);

    let mut lease = limiter.attempt_acquire(1, Instant::from_nanos(0)).unwrap();
    assert!(lease.is_acquired());

    let result = limiter.acquire_async(1, true, Instant::from_nanos(MS));
    assert!(matches!(result, Err(RateLimitError::Cancelled)));
    assert_eq!(limiter.get_statistics(Instant::from_nanos(MS)).current_queued_count, 0);

    limiter.release(&mut lease, Instant::from_nanos(2 * MS));

    let stats = limiter.get_statistics(Instant::from_nanos(12 * MS));
    assert_eq!(stats.current_available_permits, 1);
}

#[test]
fn get_statistics_returns_new_instances() {
    let mut limiter = limiter_with(1, QueueProcessingOrder::OldestFirst, 1);

    let stats1 = limiter.get_statistics(Instant::from_nanos(0));
    assert_eq!(stats1.current_available_permits, 1);

    let _lease = limiter.attempt_acquire(1, Instant::from_nanos(0)).unwrap();

    let stats2 = limiter.get_statistics(Instant::from_nanos(0));
    assert_eq!(stats1.current_available_permits, 1);
    assert_eq!(stats2.current_available_permits, 0);
}

#[test]
fn get_statistics_has_correct_values() {
    let mut limiter = limiter_with(100, QueueProcessingOrder::OldestFirst, 50);
    let now = Instant::from_nanos(0);

    let stats = limiter.get_statistics(now);
    assert_eq!(stats.current_available_permits, 100);
    assert_eq!(stats.current_queued_count, 0);
    assert_eq!(stats.total_failed_leases, 0);
    assert_eq!(stats.total_successful_leases, 0);

    let mut lease1 = limiter.attempt_acquire(60, now).unwrap();
    assert!(lease1.is_acquired());
    let stats = limiter.get_statistics(now);
    assert_eq!(stats.current_available_permits, 40);
    assert_eq!(stats.current_queued_count, 0);
    assert_eq!(stats.total_failed_leases, 0);
    assert_eq!(stats.total_successful_leases, 1);

    let lease2_ticket = pending(limiter.acquire_async(50, false, now));

    let stats = limiter.get_statistics(Instant::from_nanos(10 * MS));
    assert_eq!(stats.current_available_permits, 40);
    assert_eq!(stats.current_queued_count, 50);
    assert_eq!(stats.total_failed_leases, 0);
    assert_eq!(stats.total_successful_leases, 1);

    let lease3 = ready(limiter.acquire_async(1, false, Instant::from_nanos(10 * MS)));
    assert!(!lease3.is_acquired());
    let stats = limiter.get_statistics(Instant::from_nanos(10 * MS));
    assert_eq!(stats.current_available_permits, 40);
    assert_eq!(stats.current_queued_count, 50);
    assert_eq!(stats.total_failed_leases, 1);
    assert_eq!(stats.total_successful_leases, 1);

    let lease4 = limiter.attempt_acquire(100, Instant::from_nanos(10 * MS)).unwrap();
    assert!(!lease4.is_acquired());
    let stats = limiter.get_statistics(Instant::from_nanos(10 * MS));
    assert_eq!(stats.current_available_permits, 40);
    assert_eq!(stats.current_queued_count, 50);
    assert_eq!(stats.total_failed_leases, 2);
    assert_eq!(stats.total_successful_leases, 1);

    limiter.release(&mut lease1, Instant::from_nanos(20 * MS));
    let completions = limiter.take_completions();
    assert_eq!(completions.len(), 1);
    assert_eq!(completions[0].ticket, lease2_ticket);
    let lease2 = completions[0].into_lease();
    assert!(lease2.is_acquired());

    let stats = limiter.get_statistics(Instant::from_nanos(20 * MS));
    assert_eq!(stats.current_available_permits, 50);
    assert_eq!(stats.current_queued_count, 0);
    assert_eq!(stats.total_failed_leases, 2);
    assert_eq!(stats.total_successful_leases, 2);
}

#[test]
fn null_idle_duration_when_active() {
    let mut limiter = limiter_with(1, QueueProcessingOrder::OldestFirst, 1);

    let _lease = limiter.attempt_acquire(1, Instant::from_nanos(0)).unwrap();

    assert!(limiter.idle_duration(Instant::from_nanos(MS)).is_none());
}

#[test]
fn idle_duration_updates_when_idle() {
    let limiter = limiter_with(1, QueueProcessingOrder::OldestFirst, 1);

    let duration1 = limiter.idle_duration(Instant::from_nanos(MS));
    assert!(duration1.is_some());

    let duration2 = limiter.idle_duration(Instant::from_nanos(16 * MS));
    assert!(duration2.is_some());
    assert!(duration2.unwrap() > duration1.unwrap());
    assert_eq!(duration2.unwrap().as_nanos(), 16 * MS);
}

#[test]
fn idle_duration_updates_when_changing_from_active() {
    let mut limiter = limiter_with(1, QueueProcessingOrder::OldestFirst, 1);

    let mut lease = limiter.attempt_acquire(1, Instant::from_nanos(0)).unwrap();
    limiter.release(&mut lease, Instant::from_nanos(5 * MS));

    let idle = limiter.idle_duration(Instant::from_nanos(7 * MS));
    assert!(idle.is_some());
    assert_eq!(idle.unwrap().as_nanos(), 2 * MS);
}

#[test]
fn fails_when_queueing_more_than_limit_oldest_first() {
    let mut limiter = limiter_with(1, QueueProcessingOrder::OldestFirst, 1);

    let _lease = limiter.attempt_acquire(1, Instant::from_nanos(0)).unwrap();
    let _wait = pending(limiter.acquire_async(1, false, Instant::from_nanos(MS)));

    let failed_lease = ready(limiter.acquire_async(1, false, Instant::from_nanos(10 * MS)));
    assert!(!failed_lease.is_acquired());
}

#[test]
fn drops_oldest_when_queueing_more_than_limit_newest_first() {
    let mut limiter = limiter_with(1, QueueProcessingOrder::NewestFirst, 1);

    let mut lease = limiter.attempt_acquire(1, Instant::from_nanos(0)).unwrap();

    let wait1 = pending(limiter.acquire_async(1, false, Instant::from_nanos(MS)));
    assert!(limiter.take_completions().is_empty());

    let wait2 = pending(limiter.acquire_async(1, false, Instant::from_nanos(10 * MS)));

    let completions = limiter.take_completions();
    assert_eq!(completions.len(), 1);
    assert_eq!(completions[0].ticket, wait1);
    let lease1 = completions[0].into_lease();
    assert!(!lease1.is_acquired());
    assert_eq!(limiter.get_statistics(Instant::from_nanos(10 * MS)).current_queued_count, 1);

    limiter.release(&mut lease, Instant::from_nanos(20 * MS));

    let completions = limiter.take_completions();
    assert_eq!(completions.len(), 1);
    assert_eq!(completions[0].ticket, wait2);
    let lease2 = completions[0].into_lease();
    assert!(lease2.is_acquired());
}

#[test]
fn available_permits_never_exceed_the_limit() {
    let mut limiter = limiter_with(3, QueueProcessingOrder::OldestFirst, 4);
    let now = Instant::from_nanos(0);
    let mut forged = RateLimitLease::success_with_cleanup(LeaseCleanup::ReturnPermits(2));
    limiter.release(&mut forged, now);
    assert_eq!(limiter.get_statistics(now).current_available_permits, 3);

    let mut lease = limiter.attempt_acquire(2, now).unwrap();
    limiter.return_permits(3, now);
    assert_eq!(limiter.get_statistics(now).current_available_permits, 1);
    limiter.release(&mut lease, now);
    assert_eq!(limiter.get_statistics(now).current_available_permits, 3);
}

#[test]
fn a_lease_returns_its_permits_once() {
    let mut limiter = limiter_with(5, QueueProcessingOrder::OldestFirst, 0);
    let now = Instant::from_nanos(0);
    let mut first = limiter.attempt_acquire(2, now).unwrap();
    let mut second = limiter.attempt_acquire(2, now).unwrap();
    assert_eq!(limiter.get_statistics(now).current_available_permits, 1);

    limiter.release(&mut first, now);
    assert_eq!(limiter.get_statistics(now).current_available_permits, 3);
    limiter.release(&mut first, now);
    assert_eq!(limiter.get_statistics(now).current_available_permits, 3);

    limiter.release(&mut second, now);
    assert_eq!(limiter.get_statistics(now).current_available_permits, 5);
}

#[test]
fn acquire_then_release_restores_the_permits() {
    let mut limiter = limiter_with(7, QueueProcessingOrder::OldestFirst, 0);
    let now = Instant::from_nanos(0);
    let _kept = limiter.attempt_acquire(3, now).unwrap();
    let before = limiter.get_statistics(now).current_available_permits;
    let mut lease = limiter.attempt_acquire(4, now).unwrap();
    assert!(lease.is_acquired());
    assert_eq!(limiter.get_statistics(now).current_available_permits, 0);
    limiter.release(&mut lease, now);
    assert_eq!(limiter.get_statistics(now).current_available_permits, before);
}

#[test]
fn releasing_an_unacquired_lease_changes_nothing() {
    let mut limiter = limiter_with(1, QueueProcessingOrder::OldestFirst, 0);
    let now = Instant::from_nanos(0);
    let _held = limiter.attempt_acquire(1, now).unwrap();
    let mut failed = limiter.attempt_acquire(1, now).unwrap();
    assert!(!failed.is_acquired());
    let before = limiter.get_statistics(now);
    limiter.release(&mut failed, now);
    assert_eq!(limiter.get_statistics(now), before);
    assert!(limiter.idle_duration(now).is_none());
}

#[test]
fn disposed_concurrency_limiter_refuses_everything() {
    let mut limiter = limiter_with(1, QueueProcessingOrder::OldestFirst, 2);
    let now = Instant::from_nanos(0);
    let mut lease = limiter.attempt_acquire(1, now).unwrap();
    let first = pending(limiter.acquire_async(1, false, now));
    let second = pending(limiter.acquire_async(1, false, now));

    limiter.dispose(Instant::from_nanos(MS));

    let completions = limiter.take_completions();
    assert_eq!(completions.len(), 2);
    assert_eq!(completions[0].ticket, first);
    assert_eq!(completions[1].ticket, second);
    assert_eq!(completions[0].outcome, WaitOutcome::Failed { retry_after: None });
    assert!(!completions[1].into_lease().is_acquired());

    assert!(matches!(limiter.attempt_acquire(1, now), Err(RateLimitError::Disposed)));
    assert!(matches!(limiter.attempt_acquire(0, now), Err(RateLimitError::Disposed)));
    assert!(matches!(limiter.acquire_async(1, false, now), Err(RateLimitError::Disposed)));
    assert!(matches!(
        limiter.attempt_acquire(2, now),
        Err(RateLimitError::PermitCountExceeded(2, 1))
    ));

    limiter.release(&mut lease, Instant::from_nanos(2 * MS));
    let stats = limiter.get_statistics(Instant::from_nanos(2 * MS));
    assert_eq!(stats.current_available_permits, 0);
    assert_eq!(stats.current_queued_count, 0);
    assert_eq!(stats.total_failed_leases, 2);
}

#[test]
fn counters_count_one_per_lease() {
    let mut limiter = limiter_with(10, QueueProcessingOrder::OldestFirst, 0);
    let now = Instant::from_nanos(0);
    let mut successes = 0;
    let mut failures = 0;
    for n in [3u32, 0, 7, 1, 0, 10, 11] {
        match limiter.attempt_acquire(n, now) {
            Ok(lease) => {
                if lease.is_acquired() {
                    successes += 1;
                } else {
                    failures += 1;
                }
            }
            Err(_) => {}
        }
        let stats = limiter.get_statistics(now);
        assert_eq!(stats.total_successful_leases, successes);
        assert_eq!(stats.total_failed_leases, failures);
    }
    assert_eq!(successes, 3);
    assert_eq!(failures, 3);
}

#[test]
fn a_request_for_no_permits_succeeds_while_any_are_there() {
    let mut limiter = limiter_with(2, QueueProcessingOrder::OldestFirst, 5);
    let now = Instant::from_nanos(0);
    let _one = limiter.attempt_acquire(1, now).unwrap();
    let _waiting = pending(limiter.acquire_async(2, false, now));
    let lease = ready(limiter.acquire_async(0, false, now));
    assert!(lease.is_acquired());
    assert_eq!(limiter.get_statistics(now).current_available_permits, 1);
    assert_eq!(limiter.get_statistics(now).current_queued_count, 2);

    let mut emptied = limiter_with(1, QueueProcessingOrder::OldestFirst, 5);
    let _all = emptied.attempt_acquire(1, now).unwrap();
    let lease = ready(emptied.acquire_async(0, false, now));
    assert!(!lease.is_acquired());
    assert_eq!(emptied.get_statistics(now).current_queued_count, 0);
}

#[test]
fn a_request_for_the_whole_capacity_is_granted_when_full() {
    let mut limiter = limiter_with(4, QueueProcessingOrder::OldestFirst, 4);
    let now = Instant::from_nanos(0);
    let lease = limiter.attempt_acquire(4, now).unwrap();
    assert!(lease.is_acquired());
    assert!(matches!(
        limiter.attempt_acquire(5, now),
        Err(RateLimitError::PermitCountExceeded(5, 4))
    ));
}

#[test]
fn without_a_queue_nothing_waits() {
    let mut limiter = limiter_with(1, QueueProcessingOrder::NewestFirst, 0);
    let now = Instant::from_nanos(0);
    let _lease = limiter.attempt_acquire(1, now).unwrap();
    let lease = ready(limiter.acquire_async(1, false, now));
    assert!(!lease.is_acquired());
    assert_eq!(limiter.get_statistics(now).current_queued_count, 0);
}

#[test]
fn an_abandoned_waiter_is_skipped() {
    let mut limiter = limiter_with(2, QueueProcessingOrder::OldestFirst, 4);
    let now = Instant::from_nanos(0);
    let mut lease = limiter.attempt_acquire(2, now).unwrap();
    let gone = pending(limiter.acquire_async(2, false, now));
    let stays = pending(limiter.acquire_async(1, false, now));
    assert!(limiter.abandon(gone));
    assert!(!limiter.abandon(99));
    assert_eq!(limiter.get_statistics(now).current_queued_count, 3);

    limiter.release(&mut lease, now);
    let completions = limiter.take_completions();
    assert_eq!(completions.len(), 1);
    assert_eq!(completions[0].ticket, stays);
    assert_eq!(completions[0].outcome, WaitOutcome::Granted { refund: 1 });
    let stats = limiter.get_statistics(now);
    assert_eq!(stats.current_queued_count, 0);
    assert_eq!(stats.current_available_permits, 1);
}

#[test]
fn newest_first_evicts_only_as_many_as_needed() {
    let mut limiter = limiter_with(1, QueueProcessingOrder::NewestFirst, 4);
    let now = Instant::from_nanos(0);
    let _lease = limiter.attempt_acquire(1, now).unwrap();
    let a = pending(limiter.acquire_async(1, false, now));
    let b = pending(limiter.acquire_async(1, false, now));
    let _c = pending(limiter.acquire_async(1, false, now));
    let _d = pending(limiter.acquire_async(1, false, now));
    assert_eq!(limiter.get_statistics(now).current_queued_count, 4);

    // A newcomer for more than the queue holds is turned down at once.
    let mut wide = limiter_with(8, QueueProcessingOrder::NewestFirst, 4);
    let _all = wide.attempt_acquire(8, now).unwrap();
    let lease = ready(wide.acquire_async(5, false, now));
    assert!(!lease.is_acquired());

    let mut two = limiter_with(2, QueueProcessingOrder::NewestFirst, 4);
    let _all = two.attempt_acquire(2, now).unwrap();
    let t1 = pending(two.acquire_async(1, false, now));
    let t2 = pending(two.acquire_async(2, false, now));
    let t3 = pending(two.acquire_async(1, false, now));
    let t4 = pending(two.acquire_async(2, false, now));
    let evicted = two.take_completions();
    assert_eq!(evicted.len(), 2);
    assert_eq!(evicted[0].ticket, t1);
    assert_eq!(evicted[1].ticket, t2);
    assert_eq!(two.get_statistics(now).current_queued_count, 3);
    assert_eq!(two.get_statistics(now).total_failed_leases, 2);
    assert!(t3 < t4);
    assert!(a < b);
}
