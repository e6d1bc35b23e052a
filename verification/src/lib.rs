//! Rate limiters.
//!
//! A limiter admits or defers work. The four algorithms (concurrency, fixed
//! window, token bucket, sliding window) share one acquisition procedure and
//! one wait queue; a chain and a keyed family are built on top of them.
//!
//! The limiters are deterministic state machines. None of them blocks,
//! sleeps or reads a clock: an operation takes the current time as an
//! argument and returns at once, and an acquisition that has to wait gets a
//! ticket. The outcome of a wait is a completion, which the limiter keeps
//! until it is collected.
//!
//! A host puts a limiter together with the channels of those who wait at
//! it: it opens a channel for each ticket, sends each completion through
//! the channel of its ticket, and releases what was granted to a waiter
//! that has gone. What is left to the caller is to hold the lock, to read
//! the clock, and to wait at the channel.

pub mod chain_host;
pub mod error;
pub mod host;
pub mod lease;
pub mod limiters;
pub mod metadata;
pub mod partitioned;
pub mod queue;
pub mod slots;
pub mod statistics;
pub mod time;
pub mod traits;
pub mod turnstile;
pub mod waiters;

pub use chain_host::{ChainHost, ChainWait};
pub use error::RateLimitError;
pub use host::{LimiterHost, Wait};
pub use lease::{LeaseCleanup, MetadataEntry, RateLimitLease};
pub use limiters::{
    ChainAcquisition, ChainProgress, ChainedRateLimiter, ConcurrencyLimiter,
    ConcurrencyLimiterOptions, FixedWindowRateLimiter, FixedWindowRateLimiterOptions, Limiter,
    LimiterOptions, SlidingWindowRateLimiter, SlidingWindowRateLimiterOptions,
    TokenBucketRateLimiter, TokenBucketRateLimiterOptions,
};
pub use metadata::{MetadataName, MetadataValue};
pub use partitioned::{
    create_per_key_concurrency, create_per_key_fixed_window, create_per_key_sliding_window,
    create_per_key_token_bucket, PartitionedRateLimiter,
};
pub use queue::{QueueProcessingOrder, WaitQueue, Waiter};
pub use statistics::RateLimiterStatistics;
pub use time::{Duration, Instant};
pub use traits::{RateLimiter, ReplenishingRateLimiter};
pub use turnstile::{Acquisition, Completion, Decision, Turnstile, WaitOutcome};
pub use waiters::Subscribers;
