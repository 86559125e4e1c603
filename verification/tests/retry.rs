use json_localizer::failure::Failure;
use json_localizer::retry::RetryPolicy;

#[test]
fn standard_policy_has_five_retries_and_one_second() {
    let policy = RetryPolicy::standard();
    assert_eq!(policy.max_retries(), 5);
    assert_eq!(policy.base_delay(), 1);
}

#[test]
fn policy_keeps_what_it_was_made_with() {
    let policy = RetryPolicy::new(3, 10).unwrap();
    assert_eq!(policy.max_retries(), 3);
    assert_eq!(policy.base_delay(), 10);
    assert_eq!(RetryPolicy::new(5, 1), Some(RetryPolicy::standard()));
}

#[test]
fn policy_is_refused_where_a_delay_overflows() {
    assert!(RetryPolicy::new(63, 1).is_some());
    assert_eq!(RetryPolicy::new(64, 1), None);
    assert!(RetryPolicy::new(1, u64::MAX / 2).is_some());
    assert_eq!(RetryPolicy::new(1, u64::MAX / 2 + 1), None);
    assert!(RetryPolicy::new(0, u64::MAX).is_some());
    assert!(RetryPolicy::new(u32::MAX, 0).is_some());
    assert_eq!(RetryPolicy::new(u32::MAX, 1), None);
}

#[test]
fn failure_is_cloned_with_its_message() {
    let failures = vec![
        Failure::ServiceHandshake("denied".to_string()),
        Failure::Parse,
        Failure::RetryExhausted("throttled".to_string()),
        Failure::Write("disk full".to_string()),
    ];
    for failure in &failures {
        assert_eq!(&failure.clone(), failure);
    }
    assert_ne!(
        Failure::Write("a".to_string()),
        Failure::RetryExhausted("a".to_string())
    );
}
