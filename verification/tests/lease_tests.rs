use ratelimit::{
    Completion, Duration, LeaseCleanup, MetadataName, MetadataValue, RateLimitLease, WaitOutcome,
};

#[test]
fn a_successful_lease_is_acquired_and_bare() {
    let lease = RateLimitLease::success();
    assert!(lease.is_acquired());
    assert!(lease.metadata_names().is_empty());
    assert_eq!(lease.try_get_metadata("RetryAfter"), None);
    assert_eq!(lease.retry_after(), None);
}

#[test]
fn a_failed_lease_carries_its_hint() {
    let lease = RateLimitLease::failed(Some(Duration::from_secs(3)));
    assert!(!lease.is_acquired());
    assert_eq!(lease.metadata_names(), vec!["RetryAfter".to_string()]);
    assert_eq!(
        lease.try_get_metadata(MetadataName::RETRY_AFTER),
        Some(MetadataValue::Duration(Duration::from_secs(3)))
    );
    assert_eq!(lease.retry_after(), Some(Duration::from_secs(3)));

    let bare = RateLimitLease::failed(None);
    assert!(!bare.is_acquired());
    assert!(bare.metadata_names().is_empty());
    assert_eq!(bare.retry_after(), None);
}

#[test]
fn metadata_is_kept_by_name() {
    let lease = RateLimitLease::failed(Some(Duration::from_secs(1)))
        .with_metadata(MetadataName::FAILED_LIMITER_INDEX, MetadataValue::Index(4))
        .with_metadata("Visits", MetadataValue::Count(9))
        .with_metadata("RetryAfter", MetadataValue::Duration(Duration::from_secs(2)))
        .with_metadata("Visits", MetadataValue::Count(10));
    assert!(!lease.is_acquired());
    assert_eq!(
        lease.metadata_names(),
        vec!["RetryAfter".to_string(), "FailedLimiterIndex".to_string(), "Visits".to_string()]
    );
    assert_eq!(lease.try_get_metadata("Visits"), Some(MetadataValue::Count(10)));
    assert_eq!(lease.try_get_metadata("FailedLimiterIndex"), Some(MetadataValue::Index(4)));
    assert_eq!(lease.retry_after(), Some(Duration::from_secs(2)));
    assert_eq!(lease.try_get_metadata("visits"), None);
    assert_eq!(lease.try_get_metadata(""), None);

    // A value of another kind under the name of the hint is no hint.
    let odd = RateLimitLease::success().with_metadata("RetryAfter", MetadataValue::Count(1));
    assert_eq!(odd.retry_after(), None);
}

#[test]
fn metadata_values_know_their_kind() {
    let duration = MetadataValue::Duration(Duration::from_millis(5));
    assert_eq!(duration.as_duration(), Some(Duration::from_millis(5)));
    assert_eq!(duration.as_index(), None);
    assert_eq!(duration.as_count(), None);
    let index = MetadataValue::Index(3);
    assert_eq!(index.as_index(), Some(3));
    assert_eq!(index.as_duration(), None);
    let count = MetadataValue::Count(8);
    assert_eq!(count.as_count(), Some(8));
    assert_eq!(count.as_index(), None);
    assert_eq!(MetadataName::RETRY_AFTER, "RetryAfter");
    assert_eq!(MetadataName::FAILED_LIMITER_INDEX, "FailedLimiterIndex");
}

#[test]
fn the_cleanup_is_taken_once() {
    let mut lease = RateLimitLease::success_with_cleanup(LeaseCleanup::ReturnPermits(3));
    assert!(lease.is_acquired());
    assert!(matches!(lease.take_cleanup(), Some(LeaseCleanup::ReturnPermits(3))));
    assert!(lease.take_cleanup().is_none());
    assert!(lease.is_acquired());

    let mut outer = RateLimitLease::success_with_cleanup(LeaseCleanup::Leases(vec![
        RateLimitLease::success(),
        RateLimitLease::success_with_cleanup(LeaseCleanup::ReturnPermits(1)),
    ]));
    match outer.take_cleanup() {
        Some(LeaseCleanup::Leases(inner)) => {
            assert_eq!(inner.len(), 2);
            assert!(inner[1].is_acquired());
        }
        _ => panic!("the leases are gone"),
    }
    assert!(outer.take_cleanup().is_none());
}

#[test]
fn a_completion_becomes_its_lease() {
    let granted = Completion { ticket: 1, permits: 2, outcome: WaitOutcome::Granted { refund: 2 } };
    let mut lease = granted.into_lease();
    assert!(lease.is_acquired());
    assert!(matches!(lease.take_cleanup(), Some(LeaseCleanup::ReturnPermits(2))));

    let consumed =
        Completion { ticket: 1, permits: 2, outcome: WaitOutcome::Granted { refund: 0 } };
    let mut lease = consumed.into_lease();
    assert!(lease.is_acquired());
    assert!(lease.take_cleanup().is_none());

    let failed = Completion {
        ticket: 1,
        permits: 2,
        outcome: WaitOutcome::Failed { retry_after: Some(Duration::from_millis(7)) },
    };
    let lease = failed.into_lease();
    assert!(!lease.is_acquired());
    assert_eq!(lease.retry_after(), Some(Duration::from_millis(7)));
}
