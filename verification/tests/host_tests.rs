use ratelimit::{
    create_per_key_concurrency, Duration, Instant, LimiterHost, LimiterOptions,
    QueueProcessingOrder, RateLimitError, RateLimitLease, Subscribers,
    TokenBucketRateLimiterOptions, Wait,
};
use tokio::sync::oneshot::Receiver;
use tokio_util::sync::CancellationToken;

const MS: u64 = 1_000_000;

fn concurrency_host(permit_limit: u32, queue_limit: u32) -> LimiterHost {
    let options =
        create_per_key_concurrency(permit_limit, queue_limit, QueueProcessingOrder::OldestFirst);
    LimiterHost::new(options, Instant::from_nanos(0)).unwrap()
}

fn waits(result: Result<Wait, RateLimitError>) -> (u64, Receiver<RateLimitLease>) {
    match result {
        Ok(Wait::Pending(ticket, receiver)) => (ticket, receiver),
        Ok(Wait::Ready(_)) => panic!("the request does not wait"),
        Err(error) => panic!("the request fails: {:?}", error),
    }
}

#[test]
fn a_subscriber_gets_what_is_sent_to_its_ticket() {
    let mut subscribers: Subscribers<u32> = Subscribers::new();
    let mut first = subscribers.subscribe(10);
    let mut second = subscribers.subscribe(20);
    assert_eq!(subscribers.len(), 2);
    assert!(first.try_recv().is_err());

    assert_eq!(subscribers.deliver(20, 7), None);
    assert_eq!(subscribers.len(), 1);
    assert_eq!(second.try_recv().ok(), Some(7));
    assert!(first.try_recv().is_err());

    // Nobody is subscribed under the ticket any more.
    assert_eq!(subscribers.deliver(20, 8), Some(8));
    assert_eq!(subscribers.deliver(30, 9), Some(9));

    assert_eq!(subscribers.deliver(10, 1), None);
    assert_eq!(first.try_recv().ok(), Some(1));
    assert_eq!(subscribers.len(), 0);
}

#[test]
fn what_is_sent_to_somebody_who_has_gone_comes_back() {
    let mut subscribers: Subscribers<String> = Subscribers::new();
    let stays = subscribers.subscribe(1);
    let goes = subscribers.subscribe(2);
    assert!(subscribers.closed().is_empty());
    drop(goes);
    assert_eq!(subscribers.closed(), vec![2]);
    assert_eq!(subscribers.deliver(2, "lost".to_string()), Some("lost".to_string()));
    assert_eq!(subscribers.len(), 1);
    assert!(subscribers.unsubscribe(1));
    assert!(!subscribers.unsubscribe(1));
    assert_eq!(subscribers.len(), 0);
    drop(stays);
}

#[test]
fn a_host_sends_the_lease_to_whoever_waits() {
    let mut host = concurrency_host(1, 2);
    let now = Instant::from_nanos(0);
    let mut held = host.attempt_acquire(1, now).unwrap();
    assert!(held.is_acquired());
    let (first, mut first_receiver) = waits(host.acquire_async(1, None, now));
    let (second, mut second_receiver) = waits(host.acquire_async(1, None, now));
    assert_eq!((first, second), (0, 1));
    assert!(first_receiver.try_recv().is_err());

    host.release(&mut held, Instant::from_nanos(MS));
    let mut lease = first_receiver.try_recv().expect("the first waiter is served");
    assert!(lease.is_acquired());
    assert!(second_receiver.try_recv().is_err());
    let stats = host.get_statistics(Instant::from_nanos(MS));
    assert_eq!(stats.current_available_permits, 0);
    assert_eq!(stats.current_queued_count, 1);
    assert_eq!(stats.total_successful_leases, 2);

    host.release(&mut lease, Instant::from_nanos(2 * MS));
    let mut lease = second_receiver.try_recv().expect("the second waiter is served");
    host.release(&mut lease, Instant::from_nanos(3 * MS));
    assert_eq!(host.get_statistics(Instant::from_nanos(3 * MS)).current_available_permits, 1);
    assert_eq!(
        host.idle_duration(Instant::from_nanos(5 * MS)),
        Some(Duration::from_millis(2))
    );
}

#[test]
fn a_lease_for_somebody_who_has_gone_is_released() {
    let mut host = concurrency_host(1, 2);
    let now = Instant::from_nanos(0);
    let mut held = host.attempt_acquire(1, now).unwrap();
    let (_first, first_receiver) = waits(host.acquire_async(1, None, now));
    let (_second, mut second_receiver) = waits(host.acquire_async(1, None, now));
    drop(first_receiver);

    // The permit goes to the first waiter, comes back, and goes to the second.
    host.release(&mut held, Instant::from_nanos(MS));
    let lease = second_receiver.try_recv().expect("the second waiter is served");
    assert!(lease.is_acquired());
    let stats = host.get_statistics(Instant::from_nanos(MS));
    assert_eq!(stats.current_available_permits, 0);
    assert_eq!(stats.current_queued_count, 0);
    assert_eq!(stats.total_successful_leases, 3);
}

#[test]
fn swept_waiters_leave_when_their_turn_comes() {
    let mut host = concurrency_host(2, 4);
    let now = Instant::from_nanos(0);
    let mut held = host.attempt_acquire(2, now).unwrap();
    let (gone, gone_receiver) = waits(host.acquire_async(2, None, now));
    let (_stays, mut stays_receiver) = waits(host.acquire_async(1, None, now));
    drop(gone_receiver);
    assert_eq!(host.sweep(), vec![gone]);
    assert!(host.sweep().is_empty());
    assert_eq!(host.get_statistics(now).current_queued_count, 3);

    host.release(&mut held, now);
    assert!(stays_receiver.try_recv().expect("the waiter is served").is_acquired());
    let stats = host.get_statistics(now);
    assert_eq!(stats.current_available_permits, 1);
    assert_eq!(stats.current_queued_count, 0);
    assert_eq!(stats.total_successful_leases, 2);
}

#[test]
fn a_cancelled_token_keeps_a_request_from_waiting() {
    let mut host = concurrency_host(1, 2);
    let now = Instant::from_nanos(0);
    let token = CancellationToken::new();
    let _held = host.attempt_acquire(1, now).unwrap();

    let (ticket, receiver) = waits(host.acquire_async(1, Some(&token), now));
    assert_eq!(host.get_statistics(now).current_queued_count, 1);

    token.cancel();
    let result = host.acquire_async(1, Some(&token), now);
    assert!(matches!(result, Err(RateLimitError::Cancelled)));
    assert_eq!(host.get_statistics(now).current_queued_count, 1);

    assert_eq!(host.cancel(ticket, receiver, now), RateLimitError::Cancelled);
    let stats = host.get_statistics(now);
    assert_eq!(stats.current_queued_count, 0);
    assert_eq!(stats.total_failed_leases, 0);
    assert_eq!(stats.total_successful_leases, 1);
}

#[test]
fn a_grant_that_is_cancelled_too_late_is_released() {
    let mut host = concurrency_host(1, 2);
    let now = Instant::from_nanos(0);
    let mut held = host.attempt_acquire(1, now).unwrap();
    let (ticket, receiver) = waits(host.acquire_async(1, None, now));
    host.release(&mut held, now);
    assert_eq!(host.get_statistics(now).current_available_permits, 0);

    // The lease is in the channel already; the cancellation gives it back.
    assert_eq!(host.cancel(ticket, receiver, now), RateLimitError::Cancelled);
    assert_eq!(host.get_statistics(now).current_available_permits, 1);
}

#[test]
fn a_disposed_host_sends_everybody_away() {
    let options = LimiterOptions::TokenBucket(TokenBucketRateLimiterOptions {
        token_limit: 1,
        tokens_per_period: 1,
        replenishment_period: Duration::from_secs(1),
        queue_limit: 2,
        queue_processing_order: QueueProcessingOrder::OldestFirst,
        auto_replenishment: true,
    });
    let mut host = LimiterHost::new(options, Instant::from_nanos(0)).unwrap();
    let now = Instant::from_nanos(0);
    assert!(host.attempt_acquire(1, now).unwrap().is_acquired());
    let (_ticket, mut receiver) = waits(host.acquire_async(1, None, now));

    host.replenish(Instant::from_nanos(500 * MS));
    assert!(receiver.try_recv().is_err());

    host.dispose(Instant::from_nanos(600 * MS));
    let lease = receiver.try_recv().expect("the waiter is sent away");
    assert!(!lease.is_acquired());
    assert_eq!(lease.retry_after(), Some(Duration::from_secs(1)));
    assert!(matches!(host.attempt_acquire(1, now), Err(RateLimitError::Disposed)));
    assert!(matches!(host.acquire_async(1, None, now), Err(RateLimitError::Disposed)));
    assert_eq!(host.get_statistics(now).total_failed_leases, 1);
}

#[test]
fn a_replenished_host_serves_its_waiters() {
    let options = LimiterOptions::TokenBucket(TokenBucketRateLimiterOptions {
        token_limit: 2,
        tokens_per_period: 2,
        replenishment_period: Duration::from_secs(1),
        queue_limit: 2,
        queue_processing_order: QueueProcessingOrder::OldestFirst,
        auto_replenishment: true,
    });
    let mut host = LimiterHost::new(options, Instant::from_nanos(0)).unwrap();
    let now = Instant::from_nanos(0);
    assert!(host.attempt_acquire(2, now).unwrap().is_acquired());
    let (_ticket, mut receiver) = waits(host.acquire_async(1, None, now));
    host.replenish(Instant::from_nanos(500 * MS));
    let lease = receiver.try_recv().expect("the waiter is served");
    assert!(lease.is_acquired());
    assert_eq!(host.get_statistics(Instant::from_nanos(500 * MS)).current_available_permits, 0);
}

#[test]
fn the_flagged_subscribers_are_picked_in_their_order() {
    let mut subscribers: Subscribers<u32> = Subscribers::new();
    let first = subscribers.subscribe(5);
    let second = subscribers.subscribe(3);
    let third = subscribers.subscribe(9);
    assert_eq!(subscribers.closed_flags(), vec![false, false, false]);
    assert_eq!(subscribers.flagged_tickets(&vec![true, false, true]), vec![5, 9]);
    assert_eq!(subscribers.flagged_tickets(&vec![false, true]), vec![3]);
    assert_eq!(subscribers.flagged_tickets(&vec![true, true, true, true]), vec![5, 3, 9]);
    assert!(subscribers.flagged_tickets(&Vec::new()).is_empty());

    drop(second);
    drop(first);
    assert_eq!(subscribers.closed_flags(), vec![true, true, false]);
    assert_eq!(subscribers.closed(), vec![5, 3]);
    drop(third);
    assert_eq!(subscribers.closed(), vec![5, 3, 9]);
}

#[test]
fn abandoned_tickets_lose_their_channel_and_their_turn() {
    let mut host = concurrency_host(2, 6);
    let now = Instant::from_nanos(0);
    let mut held = host.attempt_acquire(2, now).unwrap();
    let (first, mut first_receiver) = waits(host.acquire_async(2, None, now));
    let (second, mut second_receiver) = waits(host.acquire_async(1, None, now));
    let (third, mut third_receiver) = waits(host.acquire_async(1, None, now));

    host.abandon_all(&vec![first, third, 99]);
    assert_eq!(host.get_statistics(now).current_queued_count, 4);
    // Their channels are dropped: nothing will come through them.
    assert!(first_receiver.try_recv().is_err());
    assert!(third_receiver.try_recv().is_err());
    assert!(host.sweep().is_empty());

    host.release(&mut held, now);
    assert!(second_receiver.try_recv().expect("the waiter is served").is_acquired());
    let stats = host.get_statistics(now);
    assert_eq!(stats.current_queued_count, 0);
    assert_eq!(stats.current_available_permits, 1);
    assert_eq!(stats.total_successful_leases, 2);
    assert_eq!(second, 1);
}

#[test]
fn a_sweep_takes_those_who_have_gone_in_their_order() {
    let mut host = concurrency_host(1, 6);
    let now = Instant::from_nanos(0);
    let _held = host.attempt_acquire(1, now).unwrap();
    let (a, a_receiver) = waits(host.acquire_async(1, None, now));
    let (_b, _b_receiver) = waits(host.acquire_async(1, None, now));
    let (c, c_receiver) = waits(host.acquire_async(1, None, now));
    drop(c_receiver);
    drop(a_receiver);
    assert_eq!(host.sweep(), vec![a, c]);
    assert!(host.sweep().is_empty());
    assert_eq!(host.get_statistics(now).current_queued_count, 3);
}

#[test]
fn without_a_token_nothing_is_cancelled() {
    let mut host = concurrency_host(1, 3);
    let now = Instant::from_nanos(0);
    let _held = host.attempt_acquire(1, now).unwrap();
    let token = CancellationToken::new();
    assert!(matches!(host.acquire_async(1, Some(&token), now), Ok(Wait::Pending(..))));
    token.cancel();
    assert!(matches!(host.acquire_async(1, None, now), Ok(Wait::Pending(..))));
    assert!(matches!(host.acquire_async(1, Some(&token), now), Err(RateLimitError::Cancelled)));
}
