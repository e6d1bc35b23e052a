use ratelimit::{
    ChainHost, ChainWait, ConcurrencyLimiter, ConcurrencyLimiterOptions, Duration, Instant,
    Limiter, MetadataValue, QueueProcessingOrder, RateLimitError, RateLimiter,
};
use tokio_util::sync::CancellationToken;

const MS: u64 = 1_000_000;

fn member(permit_limit: u32, queue_limit: u32) -> Limiter {
    Limiter::Concurrency(
        ConcurrencyLimiter::new(
            ConcurrencyLimiterOptions {
                permit_limit,
                queue_limit,
                queue_processing_order: QueueProcessingOrder::OldestFirst,
            },
            Instant::from_nanos(0),
        )
        .unwrap(),
    )
}

fn available(host: &ChainHost, index: usize) -> i64 {
    host.limiter(index).unwrap().get_statistics(Instant::from_nanos(0)).current_available_permits
}

#[test]
fn a_chain_host_needs_members() {
    let result = ChainHost::new(Vec::new(), Instant::from_nanos(0));
    assert!(matches!(result, Err(RateLimitError::InvalidParameter(_))));
}

#[test]
fn a_chain_host_takes_a_request_through_its_members() {
    let now = Instant::from_nanos(0);
    let mut host = ChainHost::new(vec![member(2, 0), member(1, 4), member(2, 0)], now).unwrap();
    assert_eq!(host.limiter_count(), 3);
    let mut first = host.attempt_acquire(1, now).unwrap();
    assert!(first.is_acquired());

    let (progress, mut receiver) = match host.acquire_async(1, None, now).unwrap() {
        ChainWait::Pending(progress, receiver) => (progress, receiver),
        ChainWait::Ready(_) => panic!("the request does not wait"),
    };
    assert_eq!(progress.waits_at(), 1);
    assert!(receiver.try_recv().is_err());
    assert_eq!(host.get_statistics(now).current_queued_count, 1);

    host.release(&mut first, Instant::from_nanos(MS));
    let completion = receiver.try_recv().expect("the wait has ended");
    assert_eq!(completion.ticket, progress.waits_for());

    let mut lease = match host.resume(progress, completion, None, Instant::from_nanos(2 * MS)) {
        Ok(ChainWait::Ready(lease)) => lease,
        _ => panic!("the request does not get through"),
    };
    assert!(lease.is_acquired());
    assert_eq!(available(&host, 0), 1);
    assert_eq!(available(&host, 1), 0);
    assert_eq!(available(&host, 2), 1);

    host.release(&mut lease, Instant::from_nanos(3 * MS));
    assert_eq!(available(&host, 0), 2);
    assert_eq!(available(&host, 1), 1);
    assert_eq!(available(&host, 2), 2);
    assert_eq!(
        host.idle_duration(Instant::from_nanos(4 * MS)),
        Some(Duration::from_millis(1))
    );
}

#[test]
fn a_chain_host_gives_back_what_a_cancelled_request_held() {
    let now = Instant::from_nanos(0);
    let mut host = ChainHost::new(vec![member(2, 0), member(1, 4)], now).unwrap();
    let mut first = host.attempt_acquire(1, now).unwrap();
    let (progress, receiver) = match host.acquire_async(1, None, now).unwrap() {
        ChainWait::Pending(progress, receiver) => (progress, receiver),
        ChainWait::Ready(_) => panic!("the request does not wait"),
    };
    assert_eq!(available(&host, 0), 0);

    assert_eq!(host.cancel(progress, receiver, now), RateLimitError::Cancelled);
    assert_eq!(available(&host, 0), 1);
    assert_eq!(host.get_statistics(now).current_queued_count, 0);

    // A request that is cancelled too late gives back what it was granted.
    let (progress, receiver) = match host.acquire_async(1, None, now).unwrap() {
        ChainWait::Pending(progress, receiver) => (progress, receiver),
        ChainWait::Ready(_) => panic!("the request does not wait"),
    };
    host.release(&mut first, now);
    assert_eq!(available(&host, 1), 0);
    assert_eq!(host.cancel(progress, receiver, now), RateLimitError::Cancelled);
    assert_eq!(available(&host, 0), 2);
    assert_eq!(available(&host, 1), 1);
}

#[test]
fn a_chain_host_releases_the_grant_of_somebody_who_has_gone() {
    let now = Instant::from_nanos(0);
    let mut host = ChainHost::new(vec![member(1, 4)], now).unwrap();
    let mut first = host.attempt_acquire(1, now).unwrap();
    let (_progress, receiver) = match host.acquire_async(1, None, now).unwrap() {
        ChainWait::Pending(progress, receiver) => (progress, receiver),
        ChainWait::Ready(_) => panic!("the request does not wait"),
    };
    drop(receiver);
    host.release(&mut first, now);
    assert_eq!(available(&host, 0), 1);
    assert_eq!(host.get_statistics(now).total_successful_leases, 2);
}

#[test]
fn a_chain_host_marks_where_a_request_was_turned_down() {
    let now = Instant::from_nanos(0);
    let mut host = ChainHost::new(vec![member(2, 0), member(1, 0)], now).unwrap();
    let _held = host.attempt_acquire(1, now).unwrap();
    let token = CancellationToken::new();
    match host.acquire_async(1, Some(&token), now).unwrap() {
        ChainWait::Ready(lease) => {
            assert!(!lease.is_acquired());
            assert_eq!(
                lease.try_get_metadata("FailedLimiterIndex"),
                Some(MetadataValue::Index(1))
            );
        }
        ChainWait::Pending(..) => panic!("the request waits"),
    }
    assert_eq!(available(&host, 0), 1);
    host.replenish(Instant::from_nanos(MS));
    assert_eq!(available(&host, 0), 1);
}

#[test]
fn a_disposed_chain_host_sends_its_waiters_away() {
    let now = Instant::from_nanos(0);
    let mut host = ChainHost::new(vec![member(2, 0), member(1, 4)], now).unwrap();
    let _first = host.attempt_acquire(1, now).unwrap();
    let (progress, mut receiver) = match host.acquire_async(1, None, now).unwrap() {
        ChainWait::Pending(progress, receiver) => (progress, receiver),
        ChainWait::Ready(_) => panic!("the request does not wait"),
    };
    host.dispose(Instant::from_nanos(MS));
    let completion = receiver.try_recv().expect("the wait has ended");
    match host.resume(progress, completion, None, Instant::from_nanos(MS)) {
        Ok(ChainWait::Ready(lease)) => {
            assert!(!lease.is_acquired());
            assert_eq!(
                lease.try_get_metadata("FailedLimiterIndex"),
                Some(MetadataValue::Index(1))
            );
        }
        _ => panic!("the request is not sent away"),
    }
    assert!(matches!(host.attempt_acquire(1, now), Err(RateLimitError::Disposed)));
    assert_eq!(host.get_statistics(now).current_queued_count, 0);
}
