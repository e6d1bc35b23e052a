//! Names and values of the metadata a lease can carry.

use vstd::prelude::*;
use crate::time::Duration;

verus! {

/// The metadata names that the limiters of this crate use.
pub struct MetadataName;

impl MetadataName {
    /// How long to wait before trying again. Its value is a duration.
    pub const RETRY_AFTER: &'static str = "RetryAfter";

    /// Which member of a chain turned the request down, counted from zero.
    /// Its value is an index.
    pub const FAILED_LIMITER_INDEX: &'static str = "FailedLimiterIndex";
}

/// A value stored under a metadata name.
#[derive(Clone, Copy, Debug, PartialEq, Eq)]
pub enum MetadataValue {
    Duration(Duration),
    Index(usize),
    Count(u64),
}

impl MetadataValue {
    /// The duration, where the value is one.
    pub fn as_duration(&self) -> (r: Option<Duration>)
        ensures
            r == (match *self {
                MetadataValue::Duration(d) => Some(d),
                _ => None,
            }),
    {
        match self {
            MetadataValue::Duration(d) => Some(*d),
            _ => None,
        }
    }

    /// The index, where the value is one.
    pub fn as_index(&self) -> (r: Option<usize>)
        ensures
            r == (match *self {
                MetadataValue::Index(i) => Some(i),
                _ => None,
            }),
    {
        match self {
            MetadataValue::Index(i) => Some(*i),
            _ => None,
        }
    }

    /// The count, where the value is one.
    pub fn as_count(&self) -> (r: Option<u64>)
        ensures
            r == (match *self {
                MetadataValue::Count(c) => Some(c),
                _ => None,
            }),
    {
        match self {
            MetadataValue::Count(c) => Some(*c),
            _ => None,
        }
    }
}

} // verus!
