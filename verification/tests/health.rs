//! The health endpoint.

use supergateway::cli::LogLevel;
use supergateway::health::check_health;
use supergateway::observe::Metrics;

#[test]
fn test_health_not_ready() {
    let m = Metrics::new();
    let resp = check_health(&m, false, LogLevel::Info);
    assert_eq!(resp.status_code(), 503);
    assert_eq!(resp.content_type(), "text/plain");
    assert_eq!(resp.body(), "Service Unavailable");
}

#[test]
fn test_health_ready_ok() {
    let mut m = Metrics::new();
    m.set_ready();
    let resp = check_health(&m, false, LogLevel::Info);
    assert_eq!(resp.status_code(), 200);
    assert_eq!(resp.content_type(), "text/plain");
    assert_eq!(resp.body(), "ok");
}

#[test]
fn test_health_detail_requires_debug() {
    let mut m = Metrics::new();
    m.set_ready();
    m.total_requests = 5;

    // detail=true but level=info → plain "ok"
    let resp = check_health(&m, true, LogLevel::Info);
    assert_eq!(resp.status_code(), 200);
    assert_eq!(resp.content_type(), "text/plain");
    assert_eq!(resp.body(), "ok");

    // detail=true and level=debug → JSON
    let resp = check_health(&m, true, LogLevel::Debug);
    assert_eq!(resp.status_code(), 200);
    assert_eq!(resp.content_type(), "application/json");

    let parsed: serde_json::Value = serde_json::from_str(resp.body()).unwrap();
    assert_eq!(parsed["total_requests"], 5);
    assert_eq!(parsed["ready"], true);
}

#[test]
fn test_health_detail_not_ready_returns_503() {
    let m = Metrics::new();
    // Even with detail=true and debug, should still 503 if not ready.
    let resp = check_health(&m, true, LogLevel::Debug);
    assert_eq!(resp.status_code(), 503);
}

#[test]
fn test_health_detail_all_fields_present() {
    let mut m = Metrics::new();
    m.set_ready();
    let resp = check_health(&m, true, LogLevel::Debug);
    let parsed: serde_json::Value = serde_json::from_str(resp.body()).unwrap();

    // Verify all expected counter fields exist.
    let expected_fields = [
        "active_sessions",
        "active_children",
        "active_clients",
        "total_requests",
        "total_spawns",
        "spawn_failures",
        "session_timeouts",
        "forced_kills",
        "client_disconnects",
        "backpressure_events",
        "queue_depth_max",
        "decode_errors",
        "ready",
    ];
    for field in &expected_fields {
        assert!(
            parsed.get(field).is_some(),
            "missing field in health detail: {field}"
        );
    }
}
