//! The failures a limiter can report.

use vstd::prelude::*;

verus! {

/// Why an operation on a limiter did not produce a lease.
///
/// Running out of permits is not among them: that is a lease which was not
/// acquired, so that callers can read its retry hint.
#[derive(Debug, Clone, PartialEq, Eq)]
pub enum RateLimitError {
    /// The caller cancelled a waiting acquisition.
    Cancelled,
    /// More permits were requested than the limiter can ever hold:
    /// `(requested, capacity)`.
    PermitCountExceeded(u32, u32),
    /// The limiter has been disposed.
    Disposed,
    /// A limiter could not be built from the given options.
    InvalidParameter(String),
    /// The wait queue is full. The limiters of this crate hand out a lease
    /// that was not acquired instead.
    QueueLimitExceeded,
}

impl RateLimitError {
    /// Whether the error is `InvalidParameter` with the given reason.
    pub open spec fn is_invalid(self, reason: Seq<char>) -> bool {
        self matches RateLimitError::InvalidParameter(text) && text@ == reason
    }

    /// An `InvalidParameter` error with the given reason.
    pub fn invalid(reason: &str) -> (e: RateLimitError)
        ensures
            e.is_invalid(reason@),
    {
        RateLimitError::InvalidParameter(reason.to_owned())
    }
}

} // verus!
