use rate_gate::gate::{client_key, GateOutcome, RateLimiterMiddleware};
use rate_gate::model::DenyReason;
use rate_gate::responder::{health_status, rejection_body, rejection_response, REJECTION_STATUS};

#[test]
fn client_key_uses_peer_address() {
    assert_eq!(client_key(Some("203.0.113.7:443")), "203.0.113.7:443");
}

#[test]
fn client_key_falls_back_to_sentinel() {
    assert_eq!(client_key(None), "unknown");
}

#[test]
fn gate_forwards_then_rejects() {
    let mut svc = RateLimiterMiddleware::new(2, 10).into_service();
    assert_eq!(svc.call(Some("1.2.3.4"), 0), GateOutcome::Forward);
    assert_eq!(svc.call(Some("1.2.3.4"), 1), GateOutcome::Forward);
    assert_eq!(
        svc.call(Some("1.2.3.4"), 2),
        GateOutcome::Reject(DenyReason::QuotaExceeded)
    );
    assert_eq!(svc.call(Some("1.2.3.4"), 11), GateOutcome::Forward);
}

#[test]
fn sentinel_clients_share_one_bucket() {
    // Two distinct physical clients, neither with a determinable address,
    // collapse to the sentinel key and visibly share one quota.
    let mut svc = RateLimiterMiddleware::new(1, 60).into_service();
    assert_eq!(svc.call(None, 0), GateOutcome::Forward);
    assert_eq!(svc.call(None, 1), GateOutcome::Reject(DenyReason::QuotaExceeded));
    // A client with an address is not caught by the sentinel's bucket.
    assert_eq!(svc.call(Some("1.2.3.4"), 2), GateOutcome::Forward);
}

#[test]
fn gate_keys_are_independent() {
    let mut svc = RateLimiterMiddleware::new(1, 3600).into_service();
    assert_eq!(svc.call(Some("a"), 0), GateOutcome::Forward);
    assert_eq!(svc.call(Some("a"), 1), GateOutcome::Reject(DenyReason::QuotaExceeded));
    assert_eq!(svc.call(Some("b"), 2), GateOutcome::Forward);
}

#[test]
fn gate_fails_closed_after_corruption() {
    let mut svc = RateLimiterMiddleware::new(5, 3600).into_service();
    assert_eq!(svc.call(Some("a"), 0), GateOutcome::Forward);
    svc.mark_corrupted();
    assert_eq!(
        svc.call(Some("a"), 1),
        GateOutcome::Reject(DenyReason::StateAccessFailure)
    );
    assert_eq!(svc.call(None, 2), GateOutcome::Reject(DenyReason::StateAccessFailure));
}

#[test]
fn health_status_maps_probe_result() {
    assert_eq!(health_status(true), 200);
    assert_eq!(health_status(false), 504);
}

#[test]
fn rejection_body_exact_shape() {
    let body = rejection_body("2024-01-01T00:00:00+00:00");
    assert_eq!(
        body,
        "{\"success\": false, \"error\": \"Rate limit excedido. Por favor, int\u{e9}ntalo m\u{e1}s tarde.\", \"timestamp\": \"2024-01-01T00:00:00+00:00\"}"
    );
}

#[test]
fn rejection_response_shape() {
    assert_eq!(REJECTION_STATUS, 429);
    let (status, body) = rejection_response();
    assert_eq!(status, 429);
    let prefix = "{\"success\": false, \"error\": \"Rate limit excedido. Por favor, int\u{e9}ntalo m\u{e1}s tarde.\", \"timestamp\": \"";
    assert!(body.starts_with(prefix));
    assert!(body.ends_with("\"}"));
    // The clock's timestamp is embedded between frame and close and has the
    // promised shape: at least the 25 characters of an RFC 3339 instant,
    // all decimal digits or the separators, never a quote or a backslash.
    let ts = &body[prefix.len()..body.len() - 2];
    assert!(ts.len() >= 25);
    assert!(ts
        .chars()
        .all(|c| c.is_ascii_digit() || c == '-' || c == ':' || c == 'T' || c == '.' || c == '+'));
    assert!(ts[..4].chars().all(|c| c.is_ascii_digit()));
}
