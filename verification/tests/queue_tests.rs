use ratelimit::{
    Duration, Instant, QueueProcessingOrder, RateLimitError, RateLimiterStatistics, Turnstile,
    WaitQueue, Waiter,
};

fn permits(waiters: &[Waiter]) -> Vec<u32> {
    waiters.iter().map(|w| w.permits).collect()
}

fn tickets(waiters: &[Waiter]) -> Vec<u64> {
    waiters.iter().map(|w| w.ticket).collect()
}

#[test]
fn the_queue_counts_what_is_asked_for() {
    let mut queue = WaitQueue::new(10, QueueProcessingOrder::OldestFirst);
    assert!(queue.is_empty());
    assert_eq!(queue.queue_limit(), 10);
    assert_eq!(queue.processing_order(), QueueProcessingOrder::OldestFirst);
    assert!(queue.accepts(10));
    assert!(!queue.accepts(11));
    assert!(!queue.accepts(0));
    let (first, evicted) = queue.enqueue(4);
    assert_eq!(first, 0);
    assert!(evicted.is_empty());
    let (second, _) = queue.enqueue(5);
    assert_eq!(second, 1);
    assert_eq!(queue.queued_permits(), 9);
    assert_eq!(queue.len(), 2);
    assert!(queue.accepts(1));
    assert!(!queue.accepts(2));

    let removed = queue.remove(first);
    assert_eq!(removed, Some(Waiter { ticket: 0, permits: 4, abandoned: false }));
    assert_eq!(queue.remove(first), None);
    assert_eq!(queue.queued_permits(), 5);
    let all = queue.take_all();
    assert_eq!(tickets(&all), vec![1]);
    assert_eq!(queue.queued_permits(), 0);
    assert!(queue.is_empty());
}

#[test]
fn oldest_first_serves_from_the_front_and_stops_at_the_first_that_does_not_fit() {
    let mut queue = WaitQueue::new(20, QueueProcessingOrder::OldestFirst);
    for n in [2u32, 3, 9, 1] {
        queue.enqueue(n);
    }
    let granted = queue.drain(6);
    assert_eq!(permits(&granted), vec![2, 3]);
    assert_eq!(queue.queued_permits(), 10);
    // The one that asks for nine stands in the way of the one behind it.
    let granted = queue.drain(1);
    assert!(granted.is_empty());
    let granted = queue.drain(10);
    assert_eq!(permits(&granted), vec![9, 1]);
    assert!(queue.is_empty());
}

#[test]
fn newest_first_serves_from_the_back() {
    let mut queue = WaitQueue::new(20, QueueProcessingOrder::NewestFirst);
    for n in [9u32, 3, 2] {
        queue.enqueue(n);
    }
    let granted = queue.drain(6);
    assert_eq!(permits(&granted), vec![2, 3]);
    assert_eq!(tickets(&granted), vec![2, 1]);
    assert_eq!(queue.queued_permits(), 9);
    assert_eq!(queue.len(), 1);
}

#[test]
fn abandoned_heads_leave_without_permits() {
    let mut queue = WaitQueue::new(20, QueueProcessingOrder::OldestFirst);
    let (a, _) = queue.enqueue(5);
    let (_b, _) = queue.enqueue(2);
    let (c, _) = queue.enqueue(7);
    assert!(queue.abandon(a));
    assert!(queue.abandon(c));
    assert!(!queue.abandon(100));
    assert_eq!(queue.queued_permits(), 14);
    let granted = queue.drain(2);
    assert_eq!(permits(&granted), vec![2]);
    assert!(queue.is_empty());
    assert_eq!(queue.queued_permits(), 0);
}

#[test]
fn newest_first_pushes_out_the_oldest() {
    let mut queue = WaitQueue::new(6, QueueProcessingOrder::NewestFirst);
    queue.enqueue(2);
    queue.enqueue(2);
    queue.enqueue(2);
    assert!(queue.accepts(6));
    assert!(!queue.accepts(7));
    let (ticket, evicted) = queue.enqueue(3);
    assert_eq!(ticket, 3);
    assert_eq!(tickets(&evicted), vec![0, 1]);
    assert_eq!(queue.queued_permits(), 5);
    let (_, evicted) = queue.enqueue(6);
    assert_eq!(tickets(&evicted), vec![2, 3]);
    assert_eq!(queue.queued_permits(), 6);

    let mut strict = WaitQueue::new(6, QueueProcessingOrder::OldestFirst);
    strict.enqueue(4);
    assert!(!strict.accepts(3));
    assert!(strict.accepts(2));
}

#[test]
fn the_turnstile_keeps_the_counters() {
    let mut turnstile = Turnstile::new(3, 2, QueueProcessingOrder::OldestFirst, Instant::from_nanos(5));
    assert_eq!(turnstile.capacity(), 3);
    assert_eq!(turnstile.queue_limit(), 2);
    assert!(!turnstile.is_disposed());
    assert!(turnstile.queue_is_empty());
    assert_eq!(turnstile.idle_duration(Instant::from_nanos(9)), Some(Duration::from_nanos(4)));
    turnstile.count_success();
    turnstile.count_failure();
    turnstile.count_failure();
    turnstile.settle(false, Instant::from_nanos(10));
    assert_eq!(turnstile.idle_duration(Instant::from_nanos(11)), None);
    turnstile.settle(true, Instant::from_nanos(12));
    turnstile.settle(true, Instant::from_nanos(20));
    turnstile.idle_from(Instant::from_nanos(1));
    assert_eq!(turnstile.idle_duration(Instant::from_nanos(22)), Some(Duration::from_nanos(10)));
    assert_eq!(turnstile.statistics(2), RateLimiterStatistics::new(2, 0, 1, 2));
    assert_eq!(turnstile.processing_order(), QueueProcessingOrder::OldestFirst);
    assert_eq!(turnstile.queued_permits(), 0);
}

#[test]
fn errors_compare_by_what_they_say() {
    assert_eq!(
        RateLimitError::invalid("reason"),
        RateLimitError::InvalidParameter("reason".to_string())
    );
    assert_ne!(RateLimitError::Cancelled, RateLimitError::Disposed);
    assert_ne!(
        RateLimitError::PermitCountExceeded(2, 1),
        RateLimitError::PermitCountExceeded(3, 1)
    );
    assert_eq!(RateLimitError::QueueLimitExceeded.clone(), RateLimitError::QueueLimitExceeded);
}
