use ratelimit::{
    create_per_key_concurrency, create_per_key_fixed_window, create_per_key_sliding_window,
    create_per_key_token_bucket, Duration, Instant, LimiterOptions, PartitionedRateLimiter,
    QueueProcessingOrder, RateLimitError, RateLimiter, TokenBucketRateLimiterOptions, Wait,
};

const USER1: u64 = 1;
const USER2: u64 = 2;

fn per_key_bucket(tokens: u32) -> PartitionedRateLimiter {
    let options = TokenBucketRateLimiterOptions::new(
        tokens,
        tokens,
        Duration::from_secs(60),
        0,
        QueueProcessingOrder::OldestFirst,
        false,
    )
    .expect("Failed to create options");
    PartitionedRateLimiter::new(LimiterOptions::TokenBucket(options))
        .expect("Failed to create limiter")
}

#[test]
fn test_partitioned_creates_separate_limiters() {
    let mut limiter = per_key_bucket(2);
    let now = Instant::from_nanos(0);

    let lease1 = limiter.attempt_acquire(USER1, 1, now).unwrap();
    assert!(lease1.is_acquired());
    let lease2 = limiter.attempt_acquire(USER1, 1, now).unwrap();
    assert!(lease2.is_acquired());
    let lease3 = limiter.attempt_acquire(USER1, 1, now).unwrap();
    assert!(!lease3.is_acquired());

    let lease4 = limiter.attempt_acquire(USER2, 1, now).unwrap();
    assert!(lease4.is_acquired());
    let lease5 = limiter.attempt_acquire(USER2, 1, now).unwrap();
    assert!(lease5.is_acquired());
    let lease6 = limiter.attempt_acquire(USER2, 1, now).unwrap();
    assert!(!lease6.is_acquired());

    assert_eq!(limiter.partition_count(), 2);
}

#[test]
fn test_partitioned_reuses_existing_limiters() {
    let mut limiter = per_key_bucket(3);
    let now = Instant::from_nanos(0);

    let _lease1 = limiter.attempt_acquire(USER1, 1, now);
    assert_eq!(limiter.partition_count(), 1);

    let _lease2 = limiter.attempt_acquire(USER1, 1, now);
    assert_eq!(limiter.partition_count(), 1);

    let _lease3 = limiter.attempt_acquire(USER1, 1, now);
    assert_eq!(limiter.partition_count(), 1);

    let _lease4 = limiter.attempt_acquire(USER2, 1, now);
    assert_eq!(limiter.partition_count(), 2);
}

#[test]
fn test_factory_functions() {
    let now = Instant::from_nanos(0);

    let mut tb_limiter = PartitionedRateLimiter::new(create_per_key_token_bucket(
        5,
        5,
        Duration::from_secs(60),
        0,
        QueueProcessingOrder::OldestFirst,
        false,
    ))
    .unwrap();
    let lease = tb_limiter.attempt_acquire(7, 1, now).unwrap();
    assert!(lease.is_acquired());

    let mut cc_limiter = PartitionedRateLimiter::new(create_per_key_concurrency(
        2,
        5,
        QueueProcessingOrder::OldestFirst,
    ))
    .unwrap();
    let lease = cc_limiter.attempt_acquire(42, 1, now).unwrap();
    assert!(lease.is_acquired());

    let mut fw_limiter = PartitionedRateLimiter::new(create_per_key_fixed_window(
        10,
        Duration::from_secs(60),
        5,
        QueueProcessingOrder::OldestFirst,
        false,
    ))
    .unwrap();
    let lease = fw_limiter.attempt_acquire(7, 1, now).unwrap();
    assert!(lease.is_acquired());

    let mut sw_limiter = PartitionedRateLimiter::new(create_per_key_sliding_window(
        10,
        Duration::from_secs(60),
        10,
        5,
        QueueProcessingOrder::OldestFirst,
        false,
    ))
    .unwrap();
    let lease = sw_limiter.attempt_acquire(7, 1, now).unwrap();
    assert!(lease.is_acquired());
}

#[test]
fn test_clear() {
    let mut limiter = per_key_bucket(1);
    let now = Instant::from_nanos(0);

    let _lease1 = limiter.attempt_acquire(1, 1, now);
    let _lease2 = limiter.attempt_acquire(2, 1, now);
    let _lease3 = limiter.attempt_acquire(3, 1, now);
    assert_eq!(limiter.partition_count(), 3);

    limiter.clear();
    assert_eq!(limiter.partition_count(), 0);

    let lease4 = limiter.attempt_acquire(1, 1, now).unwrap();
    assert!(lease4.is_acquired());
    assert_eq!(limiter.partition_count(), 1);
}

#[test]
fn test_async_acquire() {
    let mut limiter = per_key_bucket(1);
    let now = Instant::from_nanos(0);

    let lease1 = limiter.acquire_async(USER1, 1, None, now).unwrap();
    assert!(matches!(lease1, Wait::Ready(ref lease) if lease.is_acquired()));

    let lease2 = limiter.acquire_async(USER2, 1, None, now).unwrap();
    assert!(matches!(lease2, Wait::Ready(ref lease) if lease.is_acquired()));
}

#[test]
fn a_family_is_not_built_from_broken_options() {
    let broken = create_per_key_concurrency(0, 5, QueueProcessingOrder::OldestFirst);
    assert_eq!(
        PartitionedRateLimiter::new(broken).err(),
        Some(RateLimitError::InvalidParameter("permit_limit must be greater than 0".to_string()))
    );
    let broken = create_per_key_sliding_window(
        1,
        Duration::from_secs(1),
        0,
        0,
        QueueProcessingOrder::OldestFirst,
        false,
    );
    assert!(matches!(
        PartitionedRateLimiter::with_idle_limit(broken, Duration::from_secs(1)),
        Err(RateLimitError::InvalidParameter(_))
    ));
}

#[test]
fn a_family_keeps_its_idle_limit() {
    let options = create_per_key_concurrency(1, 1, QueueProcessingOrder::OldestFirst);
    let family = PartitionedRateLimiter::new(options).unwrap();
    assert_eq!(family.idle_time_limit(), Duration::from_secs(10));
    let family =
        PartitionedRateLimiter::with_idle_limit(options, Duration::from_millis(250)).unwrap();
    assert_eq!(family.idle_time_limit(), Duration::from_millis(250));
    assert_eq!(family.partition_count(), 0);
    assert!(family.limiter(3).is_none());
}

#[test]
fn a_family_serves_waiters_of_each_key() {
    let options = create_per_key_concurrency(1, 2, QueueProcessingOrder::OldestFirst);
    let mut family = PartitionedRateLimiter::new(options).unwrap();
    let now = Instant::from_nanos(0);
    let mut lease = family.attempt_acquire(USER1, 1, now).unwrap();
    let (ticket, mut receiver) = match family.acquire_async(USER1, 1, None, now).unwrap() {
        Wait::Pending(ticket, receiver) => (ticket, receiver),
        Wait::Ready(_) => panic!("the request does not wait"),
    };
    assert_eq!(ticket, 0);
    let other = family.acquire_async(USER2, 1, None, now).unwrap();
    assert!(matches!(other, Wait::Ready(_)));
    assert_eq!(family.get_statistics(USER1, now).current_queued_count, 1);
    assert_eq!(family.get_statistics(USER2, now).current_queued_count, 0);
    assert_eq!(family.get_statistics(9, now).current_available_permits, 1);
    assert_eq!(family.partition_count(), 3);

    family.release(77, &mut ratelimit::RateLimitLease::success(), now);
    assert!(receiver.try_recv().is_err());
    family.release(USER1, &mut lease, now);
    let granted = receiver.try_recv().expect("the waiter is served");
    assert!(granted.is_acquired());
    assert_eq!(family.partition_count(), 3);
    let member = family.limiter(USER1).expect("the key has a limiter");
    assert_eq!(member.get_statistics(now).total_successful_leases, 2);
}

#[test]
fn a_family_cancels_waits_by_key() {
    let options = create_per_key_concurrency(1, 2, QueueProcessingOrder::OldestFirst);
    let mut family = PartitionedRateLimiter::new(options).unwrap();
    let now = Instant::from_nanos(0);
    let _lease = family.attempt_acquire(USER1, 1, now).unwrap();
    let (ticket, receiver) = match family.acquire_async(USER1, 1, None, now).unwrap() {
        Wait::Pending(ticket, receiver) => (ticket, receiver),
        Wait::Ready(_) => panic!("the request does not wait"),
    };
    let (_other, gone) = match family.acquire_async(USER1, 1, None, now).unwrap() {
        Wait::Pending(ticket, receiver) => (ticket, receiver),
        Wait::Ready(_) => panic!("the request does not wait"),
    };
    assert_eq!(family.get_statistics(USER1, now).current_queued_count, 2);
    assert_eq!(family.cancel(USER1, ticket, receiver, now), RateLimitError::Cancelled);
    assert_eq!(family.get_statistics(USER1, now).current_queued_count, 1);

    drop(gone);
    let swept = family.sweep();
    assert_eq!(swept, vec![vec![1]]);
    assert_eq!(family.get_statistics(USER1, now).current_queued_count, 1);

    let token = tokio_util::sync::CancellationToken::new();
    token.cancel();
    let result = family.acquire_async(USER1, 1, Some(&token), now);
    assert!(matches!(result, Err(RateLimitError::Cancelled)));
}

#[test]
fn a_family_replenishes_all_its_limiters() {
    let options = create_per_key_fixed_window(
        2,
        Duration::from_millis(100),
        0,
        QueueProcessingOrder::OldestFirst,
        true,
    );
    let mut family = PartitionedRateLimiter::new(options).unwrap();
    let now = Instant::from_nanos(0);
    assert!(family.attempt_acquire(USER1, 2, now).unwrap().is_acquired());
    assert!(family.attempt_acquire(USER2, 1, now).unwrap().is_acquired());
    family.replenish(Instant::from_nanos(100_000_000));
    assert_eq!(family.get_statistics(USER1, now).current_available_permits, 2);
    assert_eq!(family.get_statistics(USER2, now).current_available_permits, 2);
}

#[test]
fn a_disposed_family_sends_its_waiters_away() {
    let options = create_per_key_concurrency(1, 2, QueueProcessingOrder::OldestFirst);
    let mut family = PartitionedRateLimiter::new(options).unwrap();
    let now = Instant::from_nanos(0);
    let _lease = family.attempt_acquire(USER1, 1, now).unwrap();
    let (_ticket, mut receiver) = match family.acquire_async(USER1, 1, None, now).unwrap() {
        Wait::Pending(ticket, receiver) => (ticket, receiver),
        Wait::Ready(_) => panic!("the request does not wait"),
    };
    family.dispose(now);
    let lease = receiver.try_recv().expect("the waiter is sent away");
    assert!(!lease.is_acquired());
    assert!(matches!(family.attempt_acquire(USER1, 1, now), Err(RateLimitError::Disposed)));
    // A new key still gets a new limiter.
    assert!(family.attempt_acquire(USER2, 1, now).unwrap().is_acquired());
}
