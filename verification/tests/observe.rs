//! Counters and log lines.

use supergateway::cli::{LogLevel, OutputTransport};
use supergateway::observe::{gauge_text, Logger, Metrics};

#[test]
fn test_metrics_new() {
    let m = Metrics::new();
    assert_eq!(m.active_sessions, 0);
    assert!(!m.is_ready());
}

#[test]
fn test_metrics_inc_dec() {
    let mut m = Metrics::new();
    let mut logger = Logger::buffered(OutputTransport::Sse, LogLevel::Info);

    Metrics::inc_and_log(&mut m.active_sessions, "active_sessions", &mut logger);
    assert_eq!(m.active_sessions, 1);

    Metrics::inc_and_log(&mut m.active_sessions, "active_sessions", &mut logger);
    assert_eq!(m.active_sessions, 2);

    Metrics::dec_and_log(&mut m.active_sessions, "active_sessions", &mut logger);
    assert_eq!(m.active_sessions, 1);

    let output = logger.get_output();
    assert!(output.contains("active_sessions=1 (+1)"));
    assert!(output.contains("active_sessions=2 (+1)"));
    assert!(output.contains("active_sessions=1 (-1)"));
}

#[test]
fn test_metrics_monotonic_inc() {
    let mut m = Metrics::new();
    Metrics::inc(&mut m.total_requests);
    Metrics::inc(&mut m.total_requests);
    Metrics::inc(&mut m.total_requests);
    assert_eq!(m.total_requests, 3);
}

#[test]
fn test_metrics_update_max() {
    let mut m = Metrics::new();
    Metrics::update_max(&mut m.queue_depth_max, 10);
    assert_eq!(m.queue_depth_max, 10);
    Metrics::update_max(&mut m.queue_depth_max, 5);
    assert_eq!(m.queue_depth_max, 10);
    Metrics::update_max(&mut m.queue_depth_max, 20);
    assert_eq!(m.queue_depth_max, 20);
}

#[test]
fn test_metrics_set_ready() {
    let mut m = Metrics::new();
    assert!(!m.is_ready());
    m.set_ready();
    assert!(m.is_ready());
}

#[test]
fn test_metrics_snapshot_json() {
    let mut m = Metrics::new();
    m.active_sessions = 2;
    m.total_requests = 42;
    m.set_ready();

    let json = m.snapshot_json();
    let parsed: serde_json::Value = serde_json::from_str(&json).unwrap();
    assert_eq!(parsed["active_sessions"], 2);
    assert_eq!(parsed["total_requests"], 42);
    assert_eq!(parsed["ready"], true);
    assert_eq!(parsed["decode_errors"], 0);
}

#[test]
fn test_logger_prefix() {
    let mut logger = Logger::buffered(OutputTransport::Sse, LogLevel::Info);
    logger.info("hello");
    let output = logger.get_output();
    assert!(output.starts_with("[supergateway] hello"));
}

#[test]
fn test_logger_debug_suppressed_at_info() {
    let mut logger = Logger::buffered(OutputTransport::Sse, LogLevel::Info);
    logger.debug("secret debug message");
    let output = logger.get_output();
    assert!(output.is_empty(), "debug should be suppressed at info level");
}

#[test]
fn test_logger_debug_emitted_at_debug() {
    let mut logger = Logger::buffered(OutputTransport::Sse, LogLevel::Debug);
    logger.debug("visible debug message");
    let output = logger.get_output();
    assert!(output.contains("visible debug message"));
}

#[test]
fn test_logger_none_suppresses_all() {
    let mut logger = Logger::buffered(OutputTransport::Sse, LogLevel::Off);
    logger.info("should not appear");
    logger.error("should not appear");
    logger.debug("should not appear");
    let output = logger.get_output();
    assert!(output.is_empty(), "none level should suppress all output");
}

#[test]
fn test_logger_startup_message() {
    let mut logger = Logger::buffered(OutputTransport::Sse, LogLevel::Info);
    logger.startup("0.1.0", "stdio", "sse", 8000);
    let output = logger.get_output();
    assert!(output.contains("[supergateway] supergateway v0.1.0"));
    assert!(output.contains("stdio → sse"));
    assert!(output.contains("port 8000"));
}

#[test]
fn test_logger_stderr_routing_for_stdio_output() {
    let logger = Logger::new(OutputTransport::Stdio, LogLevel::Info);
    assert!(logger.all_stderr());
}

#[test]
fn test_logger_mixed_routing_for_non_stdio_output() {
    let logger = Logger::new(OutputTransport::Sse, LogLevel::Info);
    assert!(!logger.all_stderr());

    let logger2 = Logger::new(OutputTransport::Ws, LogLevel::Info);
    assert!(!logger2.all_stderr());

    let logger3 = Logger::new(OutputTransport::StreamableHttp, LogLevel::Info);
    assert!(!logger3.all_stderr());
}

#[test]
fn test_no_header_values_at_info_level() {
    // Verify that info-level logging of headers only shows count, not values.
    let mut logger = Logger::buffered(OutputTransport::Sse, LogLevel::Info);
    // Simulate what a gateway would do: log header count at info, values at debug.
    let headers = vec![("Authorization", "Bearer secret-token")];
    logger.info(&format!("custom headers configured: {}", headers.len()));
    logger.debug(&format!("headers: {:?}", headers));
    let output = logger.get_output();
    assert!(output.contains("custom headers configured: 1"));
    assert!(
        !output.contains("secret-token"),
        "header values must not appear at info level"
    );
}

#[test]
fn test_inc_and_log_output_prefixed() {
    let mut m = Metrics::new();
    let mut logger = Logger::buffered(OutputTransport::Sse, LogLevel::Info);
    Metrics::inc_and_log(&mut m.active_clients, "active_clients", &mut logger);
    let output = logger.get_output();
    assert!(output.contains("[supergateway] active_clients=1 (+1)"));
}

#[test]
fn gauge_is_told_with_its_change() {
    assert_eq!(gauge_text("active_clients", 12, " (-1)"), "active_clients=12 (-1)");
}
