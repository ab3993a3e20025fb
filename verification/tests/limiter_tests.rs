use rate_gate::limiter::RateLimiter;
use rate_gate::model::{Decision, DenyReason};

#[test]
fn window_reset_exact_boundary() {
    // Policy (2, 10s): requests at t = 0, 1, 2 give ALLOW, ALLOW, DENY.
    let mut l = RateLimiter::new(2, 10);
    assert_eq!(l.decide_and_record("1.2.3.4".to_string(), 0), Decision::Allow);
    assert_eq!(l.decide_and_record("1.2.3.4".to_string(), 1), Decision::Allow);
    assert_eq!(
        l.decide_and_record("1.2.3.4".to_string(), 2),
        Decision::Deny(DenyReason::QuotaExceeded)
    );
    // At t = 11 the t = 1 entry is exactly 10s old and expired by the
    // strict rule, so the request is allowed again.
    assert_eq!(l.decide_and_record("1.2.3.4".to_string(), 11), Decision::Allow);
}

#[test]
fn quota_bound_within_window() {
    // Policy (3, 100): at most 3 requests of one key are allowed inside
    // any window; the 4th within the window is denied.
    let mut l = RateLimiter::new(3, 100);
    assert_eq!(l.decide_and_record("k".to_string(), 10), Decision::Allow);
    assert_eq!(l.decide_and_record("k".to_string(), 20), Decision::Allow);
    assert_eq!(l.decide_and_record("k".to_string(), 30), Decision::Allow);
    assert_eq!(
        l.decide_and_record("k".to_string(), 40),
        Decision::Deny(DenyReason::QuotaExceeded)
    );
    // The window slides: once t = 10 has aged out (strictly older than
    // 100s), one slot is free again.
    assert_eq!(l.decide_and_record("k".to_string(), 110), Decision::Allow);
    assert_eq!(
        l.decide_and_record("k".to_string(), 111),
        Decision::Deny(DenyReason::QuotaExceeded)
    );
}

#[test]
fn key_independence() {
    // Exhausting key A's quota does not affect key B.
    let mut l = RateLimiter::new(1, 3600);
    assert_eq!(l.decide_and_record("a".to_string(), 0), Decision::Allow);
    assert_eq!(
        l.decide_and_record("a".to_string(), 1),
        Decision::Deny(DenyReason::QuotaExceeded)
    );
    assert_eq!(l.decide_and_record("b".to_string(), 2), Decision::Allow);
}

#[test]
fn deny_consumes_nothing() {
    // Policy (2, 10): repeated DENYs while the window is still full do not
    // shrink future capacity once the window advances.
    let mut l = RateLimiter::new(2, 10);
    assert_eq!(l.decide_and_record("c".to_string(), 0), Decision::Allow);
    assert_eq!(l.decide_and_record("c".to_string(), 1), Decision::Allow);
    for t in [2u64, 3, 5, 9] {
        assert_eq!(
            l.decide_and_record("c".to_string(), t),
            Decision::Deny(DenyReason::QuotaExceeded)
        );
    }
    // At t = 10 the t = 0 entry has expired; exactly as if the denied
    // attempts had never happened, one slot is free.
    assert_eq!(l.decide_and_record("c".to_string(), 10), Decision::Allow);
    assert_eq!(
        l.decide_and_record("c".to_string(), 10),
        Decision::Deny(DenyReason::QuotaExceeded)
    );
}

#[test]
fn zero_quota_denies_everything() {
    let mut l = RateLimiter::new(0, 60);
    assert_eq!(
        l.decide_and_record("k".to_string(), 0),
        Decision::Deny(DenyReason::QuotaExceeded)
    );
    assert_eq!(
        l.decide_and_record("k".to_string(), 1000),
        Decision::Deny(DenyReason::QuotaExceeded)
    );
}

#[test]
fn fail_closed_on_corruption() {
    // After a critical-section failure the next call of any key is denied
    // as an internal fault, never allowed.
    let mut l = RateLimiter::new(5, 3600);
    assert_eq!(l.decide_and_record("a".to_string(), 0), Decision::Allow);
    l.mark_corrupted();
    assert_eq!(
        l.decide_and_record("a".to_string(), 1),
        Decision::Deny(DenyReason::StateAccessFailure)
    );
    assert_eq!(
        l.decide_and_record("never-seen".to_string(), 2),
        Decision::Deny(DenyReason::StateAccessFailure)
    );
}

#[test]
fn is_rate_limited_reports_denies() {
    let mut l = RateLimiter::new(1, 10);
    assert!(!l.is_rate_limited("9.9.9.9", 0));
    assert!(l.is_rate_limited("9.9.9.9", 1));
    assert!(!l.is_rate_limited("8.8.8.8", 1));
    assert!(!l.is_rate_limited("9.9.9.9", 11));
}
