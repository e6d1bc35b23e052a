use ratelimit::{
    Acquisition, ConcurrencyLimiterOptions, Duration, FixedWindowRateLimiterOptions, Instant,
    Limiter, LimiterOptions, QueueProcessingOrder, RateLimitLease, RateLimiter,
    SlidingWindowRateLimiterOptions, TokenBucketRateLimiterOptions,
};

const CAPACITY: u32 = 7;
const QUEUE_LIMIT: u32 = 9;

/// A small generator of numbers that is the same on every run.
struct Numbers(u64);

impl Numbers {
    fn next(&mut self, bound: u64) -> u64 {
        self.0 = self.0.wrapping_mul(6_364_136_223_846_793_005).wrapping_add(1_442_695_040_888_963_407);
        (self.0 >> 33) % bound
    }
}

fn options(kind: u64, order: QueueProcessingOrder, auto: bool) -> LimiterOptions {
    let window = Duration::from_millis(100);
    match kind {
        0 => LimiterOptions::Concurrency(ConcurrencyLimiterOptions {
            permit_limit: CAPACITY,
            queue_limit: QUEUE_LIMIT,
            queue_processing_order: order,
        }),
        1 => LimiterOptions::FixedWindow(FixedWindowRateLimiterOptions {
            permit_limit: CAPACITY,
            window,
            queue_limit: QUEUE_LIMIT,
            queue_processing_order: order,
            auto_replenishment: auto,
        }),
        2 => LimiterOptions::TokenBucket(TokenBucketRateLimiterOptions {
            token_limit: CAPACITY,
            tokens_per_period: 3,
            replenishment_period: window,
            queue_limit: QUEUE_LIMIT,
            queue_processing_order: order,
            auto_replenishment: auto,
        }),
        _ => LimiterOptions::SlidingWindow(SlidingWindowRateLimiterOptions {
            permit_limit: CAPACITY,
            window,
            segments_per_window: 4,
            queue_limit: QUEUE_LIMIT,
            queue_processing_order: order,
            auto_replenishment: auto,
        }),
    }
}

fn run(kind: u64, order: QueueProcessingOrder, auto: bool, seed: u64) {
    let mut numbers = Numbers(seed);
    let mut now = Instant::from_nanos(0);
    let mut limiter = Limiter::new(options(kind, order, auto), now).unwrap();
    let mut held: Vec<RateLimitLease> = Vec::new();
    let mut waiting: Vec<(u64, u32)> = Vec::new();
    // What the waiters that were abandoned asked for, in the queue or not.
    let mut abandoned: u32 = 0;
    let mut successes = 0;
    let mut failures = 0;
    for _ in 0..600 {
        now = now.saturating_add(Duration::from_millis(numbers.next(40)));
        match numbers.next(8) {
            0 | 1 => {
                let n = numbers.next(CAPACITY as u64 + 2) as u32;
                if let Ok(lease) = limiter.attempt_acquire(n, now) {
                    assert!(n <= CAPACITY);
                    held.push(lease);
                } else {
                    assert!(n > CAPACITY);
                }
            }
            2 | 3 => {
                let n = numbers.next(CAPACITY as u64 + 2) as u32;
                let cancelled = numbers.next(5) == 0;
                match limiter.acquire_async(n, cancelled, now) {
                    Ok(Acquisition::Ready(lease)) => held.push(lease),
                    Ok(Acquisition::Pending(ticket)) => {
                        assert!(!cancelled);
                        assert!(n >= 1);
                        waiting.push((ticket, n));
                    }
                    Err(_) => assert!(n > CAPACITY || cancelled),
                }
            }
            4 => {
                if !held.is_empty() {
                    let at = numbers.next(held.len() as u64) as usize;
                    let mut lease = held.swap_remove(at);
                    limiter.release(&mut lease, now);
                    limiter.release(&mut lease, now);
                }
            }
            5 => limiter.replenish(now),
            6 => {
                if !waiting.is_empty() {
                    let at = numbers.next(waiting.len() as u64) as usize;
                    let (ticket, _) = waiting.swap_remove(at);
                    assert!(limiter.cancel(ticket, now));
                    assert!(!limiter.cancel(ticket, now));
                }
            }
            _ => {
                if !waiting.is_empty() {
                    let at = numbers.next(waiting.len() as u64) as usize;
                    let gone = waiting.swap_remove(at);
                    assert!(limiter.abandon(gone.0));
                    abandoned += gone.1;
                }
            }
        }
        for completion in limiter.take_completions() {
            let lease = completion.into_lease();
            match waiting.iter().position(|(ticket, _)| *ticket == completion.ticket) {
                Some(at) => {
                    let (_, permits) = waiting.remove(at);
                    assert_eq!(permits, completion.permits);
                }
                // Only a waiter that was abandoned and pushed out is not known.
                None => assert!(!lease.is_acquired()),
            }
            if lease.is_acquired() {
                held.push(lease);
            }
        }
        let stats = limiter.get_statistics(now);
        assert!(0 <= stats.current_available_permits);
        assert!(stats.current_available_permits <= CAPACITY as i64);
        assert!(stats.current_queued_count <= QUEUE_LIMIT);
        let asked: u32 = waiting.iter().map(|(_, permits)| permits).sum();
        assert!(asked <= stats.current_queued_count);
        assert!(stats.current_queued_count <= asked + abandoned);
        assert!(stats.total_successful_leases >= successes);
        assert!(stats.total_failed_leases >= failures);
        successes = stats.total_successful_leases;
        failures = stats.total_failed_leases;
        if stats.current_queued_count > 0 {
            assert!(limiter.idle_duration(now).is_none());
        }
    }
    // With everything given back a concurrency limiter has all its permits.
    if kind == 0 {
        for (ticket, _) in waiting.drain(..) {
            limiter.cancel(ticket, now);
        }
        loop {
            for mut lease in held.drain(..) {
                limiter.release(&mut lease, now);
            }
            let completions = limiter.take_completions();
            if completions.is_empty() {
                break;
            }
            for completion in completions {
                held.push(completion.into_lease());
            }
        }
        let stats = limiter.get_statistics(now);
        assert_eq!(stats.current_available_permits, CAPACITY as i64);
        assert_eq!(stats.current_queued_count, 0);
        assert!(limiter.idle_duration(now).is_some());
    }
}

#[test]
fn concurrency_limiters_keep_their_bounds() {
    for seed in 1..20 {
        run(0, QueueProcessingOrder::OldestFirst, false, seed);
        run(0, QueueProcessingOrder::NewestFirst, false, seed);
    }
}

#[test]
fn fixed_window_limiters_keep_their_bounds() {
    for seed in 1..20 {
        run(1, QueueProcessingOrder::OldestFirst, seed % 2 == 0, seed);
        run(1, QueueProcessingOrder::NewestFirst, seed % 2 == 1, seed);
    }
}

#[test]
fn token_bucket_limiters_keep_their_bounds() {
    for seed in 1..20 {
        run(2, QueueProcessingOrder::OldestFirst, seed % 2 == 0, seed);
        run(2, QueueProcessingOrder::NewestFirst, seed % 2 == 1, seed);
    }
}

#[test]
fn sliding_window_limiters_keep_their_bounds() {
    for seed in 1..20 {
        run(3, QueueProcessingOrder::OldestFirst, seed % 2 == 0, seed);
        run(3, QueueProcessingOrder::NewestFirst, seed % 2 == 1, seed);
    }
}
