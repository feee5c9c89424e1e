use rustboard::metrics::AppMetrics;
use rustboard::metrics::MetricEvent;
use rustboard::outside::now_unix_ts;
use rustboard::ratelimit::RateLimiter;
use rustboard::role::ClientRole;
use rustboard::style::default_fill_color;
use rustboard::style::default_stroke_color;
use rustboard::text::bytes_eq_constant_time;
use rustboard::text::str_eq;

#[test]
fn default_styles() {
    assert_eq!(default_stroke_color(), "#000000");
    assert_eq!(default_fill_color(), None);
}

#[test]
fn metrics_start_at_zero_and_count() {
    let mut m = AppMetrics::new();
    assert_eq!(m.sessions_created, 0);
    assert_eq!(m.token_rotations, 0);
    m.record(MetricEvent::SessionCreated);
    m.record(MetricEvent::SessionCreated);
    m.record(MetricEvent::RateLimitedRequest);
    assert_eq!(m.sessions_created, 2);
    assert_eq!(m.rate_limited_requests, 1);
    assert_eq!(m.ws_connections, 0);
    m.token_revocations = u64::MAX;
    m.record(MetricEvent::TokenRevocation);
    assert_eq!(m.token_revocations, 0);
}

#[test]
fn rate_limiter_admits_up_to_the_quota_per_window() {
    let mut r = RateLimiter::new(2, 60);
    assert!(r.allow("1.2.3.4", 0));
    assert!(r.allow("1.2.3.4", 10));
    assert!(!r.allow("1.2.3.4", 20));
    assert!(r.allow("5.6.7.8", 20));
    assert!(!r.allow("1.2.3.4", 60));
    assert!(r.allow("1.2.3.4", 61));
    assert!(!r.allow("1.2.3.4", 62));
    assert!(r.allow("1.2.3.4", 200));
}

#[test]
fn rate_limiter_with_zero_quota_refuses_everything() {
    let mut r = RateLimiter::new(0, 60);
    assert!(!r.allow("k", 0));
    assert!(!r.allow("k", 1000));
}

#[test]
fn roles_parse_and_cover() {
    assert_eq!(ClientRole::from_name("editor"), Some(ClientRole::Editor));
    assert_eq!(ClientRole::from_name("viewer"), Some(ClientRole::Viewer));
    assert_eq!(ClientRole::from_name("owner"), None);
    assert_eq!(ClientRole::from_query(Some("viewer")), ClientRole::Viewer);
    assert_eq!(ClientRole::from_query(Some("editor")), ClientRole::Editor);
    assert_eq!(ClientRole::from_query(None), ClientRole::Editor);
    assert!(ClientRole::Editor.covers(ClientRole::Viewer));
    assert!(ClientRole::Editor.covers(ClientRole::Editor));
    assert!(ClientRole::Viewer.covers(ClientRole::Viewer));
    assert!(!ClientRole::Viewer.covers(ClientRole::Editor));
}

#[test]
fn text_comparisons() {
    assert!(str_eq("abc", "abc"));
    assert!(!str_eq("abc", "abd"));
    assert!(!str_eq("abc", "ab"));
    assert!(bytes_eq_constant_time(b"xyz", b"xyz"));
    assert!(!bytes_eq_constant_time(b"xyz", b"xyw"));
    assert!(!bytes_eq_constant_time(b"xy", b"xyz"));
}

#[test]
fn clock_reads_after_2020() {
    assert!(now_unix_ts() > 1_577_836_800);
}
