use nylon::messaging::client::{after_failed_attempt, permit_step, PermitStep, RetryStep};
use nylon::messaging::error::{ErrorKind, MessagingError};
use nylon::messaging::options::{expand_subject, merge_headers, NatsClientOptions};
use nylon::messaging::retry::RetryPolicy;
use nylon::types::plugins::OverflowPolicy;

fn pairs(v: Vec<(&str, &str)>) -> Vec<(String, String)> {
    v.into_iter().map(|(a, b)| (a.to_string(), b.to_string())).collect()
}

#[test]
fn options_defaults() {
    let o = NatsClientOptions::new(vec!["nats://127.0.0.1:4222".to_string()]);
    assert_eq!(o.servers, vec!["nats://127.0.0.1:4222".to_string()]);
    assert_eq!(o.request_timeout_ms, 500);
    assert_eq!(o.max_inflight, 1024);
    assert_eq!(o.overflow_policy, OverflowPolicy::Queue);
    assert_eq!(o.retry_policy.max_attempts, 1);
    assert_eq!(o.retry_policy.backoff_initial_ms, 50);
    assert_eq!(o.retry_policy.backoff_max_ms, 250);
    assert!(o.default_headers.is_empty());
    assert!(o.name.is_none() && o.subject_prefix.is_none());
}

#[test]
fn subject_gets_prefix_once() {
    assert_eq!(expand_subject(None, "nylon.plugin.auth"), "nylon.plugin.auth");
    assert_eq!(expand_subject(Some("prod"), "nylon.plugin"), "prod.nylon.plugin");
    assert_eq!(expand_subject(Some("prod."), ".nylon.plugin"), "prod.nylon.plugin");
    assert_eq!(expand_subject(Some("prod"), "prod.nylon"), "prod.nylon");
    assert_eq!(expand_subject(Some("a.."), "..b"), "a.b");
}

#[test]
fn headers_merge_with_override() {
    let defaults = pairs(vec![("x-a", "1"), ("x-b", "2")]);
    let extra = pairs(vec![("x-b", "3"), ("x-c", "4")]);
    let merged = merge_headers(&defaults, Some(&extra)).expect("headers");
    assert_eq!(merged, pairs(vec![("x-a", "1"), ("x-b", "3"), ("x-c", "4")]));
    assert!(merge_headers(&Vec::new(), None).is_none());
    assert!(merge_headers(&Vec::new(), Some(&Vec::new())).is_none());
    assert_eq!(merge_headers(&defaults, None).unwrap(), defaults);
}

#[test]
fn retry_only_transient_errors() {
    let p = RetryPolicy { max_attempts: 3, backoff_initial_ms: 10, backoff_max_ms: 100 };
    assert!(p.should_retry(0, &MessagingError::Timeout { timeout_ms: 5 }));
    assert!(p.should_retry(2, &MessagingError::Request("x".to_string())));
    assert!(p.should_retry(1, &MessagingError::Closed));
    assert!(!p.should_retry(3, &MessagingError::Closed));
    assert!(!p.should_retry(0, &MessagingError::Protocol("bad".to_string())));
    assert!(!p.should_retry(0, &MessagingError::Connect("down".to_string())));
}

#[test]
fn backoff_doubles_within_bounds() {
    let p = RetryPolicy { max_attempts: 10, backoff_initial_ms: 10, backoff_max_ms: 100 };
    assert_eq!(p.backoff_delay(0), 10);
    assert_eq!(p.backoff_delay(1), 10);
    assert_eq!(p.backoff_delay(2), 20);
    assert_eq!(p.backoff_delay(3), 40);
    assert_eq!(p.backoff_delay(4), 80);
    assert_eq!(p.backoff_delay(5), 100);
    assert_eq!(p.backoff_delay(1000), 100);
    let big = RetryPolicy { max_attempts: 1, backoff_initial_ms: u64::MAX / 2, backoff_max_ms: u64::MAX };
    assert_eq!(big.backoff_delay(30), u64::MAX);
    let d = RetryPolicy::default_policy();
    let mut last = 0;
    for a in 1..40 {
        let x = d.backoff_delay(a);
        assert!(x >= last && x >= 50 && x <= 250);
        last = x;
    }
}

#[test]
fn error_kinds_wrap_messages() {
    assert!(matches!(
        MessagingError::from_error(ErrorKind::Connect, "c".to_string()),
        MessagingError::Connect(m) if m == "c"
    ));
    assert!(matches!(
        MessagingError::from_error(ErrorKind::Header, "h".to_string()),
        MessagingError::Header(m) if m == "h"
    ));
    assert!(matches!(
        MessagingError::from_error(ErrorKind::Publish, "p".to_string()),
        MessagingError::Publish(m) if m == "p"
    ));
}

#[test]
fn failed_attempts_are_retried_with_backoff() {
    let p = RetryPolicy { max_attempts: 3, backoff_initial_ms: 10, backoff_max_ms: 100 };
    assert!(matches!(
        after_failed_attempt(&p, 1, MessagingError::Timeout { timeout_ms: 5 }),
        RetryStep::Retry { delay_ms: 10 }
    ));
    assert!(matches!(
        after_failed_attempt(&p, 2, MessagingError::Closed),
        RetryStep::Retry { delay_ms: 20 }
    ));
    assert!(matches!(
        after_failed_attempt(&p, 3, MessagingError::Closed),
        RetryStep::Fail(MessagingError::Closed)
    ));
    assert!(matches!(
        after_failed_attempt(&p, 1, MessagingError::Header("h".to_string())),
        RetryStep::Fail(MessagingError::Header(m)) if m == "h"
    ));
}

#[test]
fn overflow_policy_decides_waiting() {
    assert!(matches!(permit_step(OverflowPolicy::Queue), PermitStep::Wait));
    assert!(matches!(
        permit_step(OverflowPolicy::Reject),
        PermitStep::TakeOrFail(MessagingError::Overflow { policy: OverflowPolicy::Reject })
    ));
    assert!(matches!(
        permit_step(OverflowPolicy::Shed),
        PermitStep::TakeOrFail(MessagingError::Overflow { policy: OverflowPolicy::Shed })
    ));
}
