use nylon::error::NylonError;
use nylon::tls::acme::{authorization_step, check_order_ready, AuthorizationStatus, AuthorizationStep, OrderStatus, 
    cert_path, chain_path, challenge_dir, challenge_path, credentials_path, fullchain_bytes, fullchain_path, key_path,
    parse_chain_file, pem_blocks, split_certificate_chain, RateLimiter,
};
use nylon::tls::certificate::CertificateInfo;
use nylon::tls::metrics::AcmeMetrics;

const LEAF: &str = "-----BEGIN CERTIFICATE-----\nAAAA\n-----END CERTIFICATE-----\n";
const MID: &str = "-----BEGIN CERTIFICATE-----\nBBBB\n-----END CERTIFICATE-----";

#[test]
fn rate_limiter_paces_requests() {
    let mut r = RateLimiter::new();
    assert_eq!((r.backoff_ms, r.min_interval_ms), (1000, 5000));
    assert_eq!(r.wait_if_needed(10_000), 0);
    assert_eq!(r.wait_if_needed(12_000), 3000);
    assert_eq!(r.wait_if_needed(20_000), 0);
    for _ in 0..3 {
        r.increase_backoff();
    }
    assert_eq!(r.backoff_ms, 8000);
    assert_eq!(r.wait_if_needed(21_000), 7000);
    for _ in 0..20 {
        r.increase_backoff();
    }
    assert_eq!(r.backoff_ms, 300_000);
    r.reset_backoff();
    assert_eq!(r.backoff_ms, 1000);
    assert_eq!(r.last_request_ms, Some(21_000));
}

#[test]
fn acme_file_layout() {
    assert_eq!(credentials_path("/acme"), "/acme/account.json");
    assert_eq!(cert_path("/acme", "a.com"), "/acme/certs/a.com/cert.pem");
    assert_eq!(key_path("/acme", "a.com"), "/acme/certs/a.com/key.pem");
    assert_eq!(fullchain_path("/acme", "a.com"), "/acme/certs/a.com/fullchain.pem");
    assert_eq!(chain_path("/acme", "a.com"), "/acme/certs/a.com/chain.pem");
    assert_eq!(challenge_path("/acme", "a.com", "tok"), "/acme/challenges/a.com/tok");
    assert_eq!(challenge_dir("/acme", "a.com"), "/acme/challenges/a.com");
}

#[test]
fn chain_is_split_into_certificates() {
    let text = format!("{}{}", LEAF, MID);
    let (cert, chain) = split_certificate_chain(&text).unwrap();
    assert_eq!(String::from_utf8(cert).unwrap(), LEAF);
    assert_eq!(chain.len(), 1);
    assert_eq!(String::from_utf8(chain[0].clone()).unwrap(), format!("{}\n", MID));
    match split_certificate_chain("  \n ") {
        Err(NylonError::ConfigError(m)) => assert_eq!(m, "No certificates found in chain"),
        _ => panic!("expected an error"),
    }
    assert_eq!(pem_blocks(&format!("junk\n{}", LEAF)).len(), 2);
    assert_eq!(parse_chain_file(format!("{}{}", MID, LEAF).as_bytes()).len(), 2);
    assert!(parse_chain_file(b"").is_empty());
}

#[test]
fn fullchain_is_leaf_then_chain() {
    let full = fullchain_bytes(b"L", &vec![b"A".to_vec(), b"B".to_vec()]);
    assert_eq!(full, b"LAB".to_vec());
    assert_eq!(fullchain_bytes(b"", &vec![]), Vec::<u8>::new());
}

#[test]
fn certificate_expiry() {
    let c = CertificateInfo::new("a.com".to_string(), vec![], vec![], vec![], 0, 100 * 86400);
    assert_eq!(c.days_until_expiry_at(0), 100);
    assert_eq!(c.days_until_expiry_at(70 * 86400 + 1), 29);
    assert!(c.needs_renewal_at(70 * 86400 + 1));
    assert!(!c.needs_renewal_at(70 * 86400));
    assert!(!c.is_expired_at(100 * 86400));
    assert!(c.is_expired_at(100 * 86400 + 1));
    assert_eq!(c.days_until_expiry_at(100 * 86400 + 86400 + 5), -1);
    assert!(c.needs_renewal_at(200 * 86400));
    let old = CertificateInfo::new("b.com".to_string(), vec![], vec![], vec![], 0, 1);
    assert!(old.is_expired());
    assert!(old.needs_renewal());
    assert!(old.days_until_expiry() < 0);
}

#[test]
fn metrics_count_per_domain() {
    let mut m = AcmeMetrics::new();
    m.record_issuance_failure("a.com");
    m.record_issuance_failure("a.com");
    assert_eq!(m.domain_metrics.get("a.com").unwrap().failure_count, 2);
    m.record_issuance_success("a.com");
    let a = m.domain_metrics.get("a.com").unwrap();
    assert_eq!(a.failure_count, 0);
    assert!(a.last_issuance.is_some());
    m.record_renewal_failure("b.com");
    m.record_renewal_success("b.com");
    m.update_days_until_expiry("b.com", 42);
    assert_eq!(m.domain_metrics.get("b.com").unwrap().days_until_expiry, 42);
    let s = m.get_summary();
    assert_eq!(
        (s.issuance_success, s.issuance_failure, s.renewal_success, s.renewal_failure, s.domain_count),
        (1, 2, 1, 1, 2)
    );
}

#[test]
fn acme_authorization_and_order_decisions() {
    assert_eq!(authorization_step(AuthorizationStatus::Pending).unwrap(), AuthorizationStep::AnswerChallenge);
    assert_eq!(authorization_step(AuthorizationStatus::Valid).unwrap(), AuthorizationStep::Skip);
    match authorization_step(AuthorizationStatus::Expired) {
        Err(NylonError::ConfigError(m)) => assert_eq!(m, "Authorization status is Expired"),
        _ => panic!("an expired authorization stops the issuance"),
    }
    assert!(check_order_ready(OrderStatus::Ready).is_ok());
    match check_order_ready(OrderStatus::Processing) {
        Err(NylonError::ConfigError(m)) => assert_eq!(m, "Order status is not ready: Processing"),
        _ => panic!("only a ready order is finalized"),
    }
}
