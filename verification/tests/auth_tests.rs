use plexo_relay::auth::{AuthDecision, HeaderInput, RateCounter, ServiceAuthConfig};

fn config() -> ServiceAuthConfig {
    ServiceAuthConfig::new("super-secret-key".to_string(), "relay").with_rate_limit(3, 60)
}

fn token(s: &str) -> HeaderInput {
    HeaderInput::Token(s.to_string())
}

#[test]
fn missing_header_is_unauthorized() {
    let cfg = config();
    let mut c = RateCounter::new(100);
    let d = cfg.evaluate_request(&HeaderInput::Missing, &mut c, 100);
    assert_eq!(d, AuthDecision::Unauthorized);
    assert_eq!(d.status_code(), 401);
    assert_eq!(c.count, 0);
}

#[test]
fn unreadable_header_is_bad_request() {
    let cfg = config();
    let mut c = RateCounter::new(100);
    let d = cfg.evaluate_request(&HeaderInput::Unreadable, &mut c, 100);
    assert_eq!(d, AuthDecision::BadRequest);
    assert_eq!(d.status_code(), 400);
    assert_eq!(c.count, 0);
}

#[test]
fn wrong_key_is_forbidden_even_with_long_shared_prefix() {
    let cfg = config();
    let mut c = RateCounter::new(100);
    let d = cfg.evaluate_request(&token("super-secret-keX"), &mut c, 100);
    assert_eq!(d, AuthDecision::Forbidden);
    assert_eq!(d.status_code(), 403);
    let d2 = cfg.evaluate_request(&token("super-secret-key-with-extra"), &mut c, 100);
    assert_eq!(d2, AuthDecision::Forbidden);
    let d3 = cfg.evaluate_request(&token(""), &mut c, 100);
    assert_eq!(d3, AuthDecision::Forbidden);
    assert_eq!(c.count, 0);
}

#[test]
fn correct_key_is_allowed_and_counted() {
    let cfg = config();
    let mut c = RateCounter::new(100);
    let d = cfg.evaluate_request(&token("super-secret-key"), &mut c, 100);
    assert_eq!(d, AuthDecision::Allow);
    assert_eq!(d.status_code(), 200);
    assert_eq!(c.count, 1);
    assert_eq!(c.window_start, 100);
}

#[test]
fn request_over_budget_is_refused() {
    let cfg = config();
    let mut c = RateCounter::new(100);
    for i in 0..3u32 {
        let d = cfg.evaluate_request(&token("super-secret-key"), &mut c, 100 + i as u64);
        assert_eq!(d, AuthDecision::Allow);
    }
    let d = cfg.evaluate_request(&token("super-secret-key"), &mut c, 110);
    assert_eq!(d, AuthDecision::TooManyRequests);
    assert_eq!(d.status_code(), 429);
    assert_eq!(c.count, 3);
}

#[test]
fn elapsed_window_resets_the_counter() {
    let cfg = config();
    let mut c = RateCounter::new(100);
    for _ in 0..3 {
        cfg.evaluate_request(&token("super-secret-key"), &mut c, 100);
    }
    assert_eq!(
        cfg.evaluate_request(&token("super-secret-key"), &mut c, 101),
        AuthDecision::TooManyRequests
    );
    let d = cfg.evaluate_request(&token("super-secret-key"), &mut c, 160);
    assert_eq!(d, AuthDecision::Allow);
    assert_eq!(c.count, 1);
    assert_eq!(c.window_start, 160);
}

#[test]
fn defaults_and_builders() {
    let cfg = ServiceAuthConfig::new("k".to_string(), "svc");
    assert_eq!(cfg.header_name(), "x-service-key");
    assert_eq!(cfg.service_name(), "svc");
    assert_eq!(cfg.window_secs(), 60);
    let cfg = cfg
        .with_header_name("x-relay-key")
        .unwrap()
        .with_rate_limit(10, 30);
    assert_eq!(cfg.header_name(), "x-relay-key");
    assert_eq!(cfg.window_secs(), 30);
}

#[test]
fn header_names_are_validated_and_normalized() {
    let cfg = ServiceAuthConfig::new("k".to_string(), "svc");
    let cfg = cfg.with_header_name("X-Custom-Key").unwrap();
    assert_eq!(cfg.header_name(), "x-custom-key");
    assert!(cfg.clone().with_header_name("bad name").is_err());
    assert!(cfg.clone().with_header_name("").is_err());
    assert!(cfg.with_header_name("nl\nname").is_err());
}

#[test]
fn sweep_keeps_live_counters_only() {
    let cfg = config();
    let c = RateCounter::new(100);
    assert!(cfg.keep_counter(&c, 100));
    assert!(cfg.keep_counter(&c, 159));
    assert!(!cfg.keep_counter(&c, 160));
    assert!(!cfg.keep_counter(&c, 500));
}
