//! The limiters.

pub mod chained;
pub mod concurrency;
pub mod fixed_window;
pub mod limiter;
pub mod sliding_window;
pub mod token_bucket;

pub use chained::{ChainAcquisition, ChainProgress, ChainedRateLimiter};
pub use concurrency::{ConcurrencyLimiter, ConcurrencyLimiterOptions, ConcurrencyState};
pub use fixed_window::{FixedWindowRateLimiter, FixedWindowRateLimiterOptions, FixedWindowState};
pub use limiter::{Limiter, LimiterOptions, LimiterState};
pub use sliding_window::{
    Segment, SlidingWindowRateLimiter, SlidingWindowRateLimiterOptions, SlidingWindowState,
};
pub use token_bucket::{TokenBucketRateLimiter, TokenBucketRateLimiterOptions, TokenBucketState};
