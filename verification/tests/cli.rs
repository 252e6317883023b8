//! The command line.

use supergateway::cli::{
    parse_cors, parse_header, validate_path, Config, CorsConfig, CorsOrigin, InputMode, LogLevel,
    OutputTransport, RawArgs,
};

fn make_raw(stdio: Option<&str>, sse: Option<&str>, sh: Option<&str>) -> RawArgs {
    RawArgs {
        stdio: stdio.map(String::from),
        sse: sse.map(String::from),
        streamable_http: sh.map(String::from),
        output_transport: None,
        port: 8000,
        base_url: String::new(),
        sse_path: "/sse".into(),
        message_path: "/message".into(),
        streamable_http_path: "/mcp".into(),
        log_level: LogLevel::Info,
        cors: None,
        health_endpoint: None,
        header: vec![],
        oauth2_bearer: None,
        oauth2_server_client_id: None,
        oauth2_server_client_secret: None,
        oauth2_token_expiry: 3600,
        oauth2_issuer: None,
        stateful: false,
        session_timeout: None,
        protocol_version: "2024-11-05".into(),
    }
}

#[test]
fn test_output_transport_parse() {
    assert_eq!("stdio".parse::<OutputTransport>().unwrap(), OutputTransport::Stdio);
    assert_eq!("sse".parse::<OutputTransport>().unwrap(), OutputTransport::Sse);
    assert_eq!("ws".parse::<OutputTransport>().unwrap(), OutputTransport::Ws);
    assert_eq!(
        "streamableHttp".parse::<OutputTransport>().unwrap(),
        OutputTransport::StreamableHttp
    );
    assert!("invalid".parse::<OutputTransport>().is_err());
    assert_eq!(
        "invalid".parse::<OutputTransport>().unwrap_err(),
        "invalid output transport 'invalid': expected stdio|sse|ws|streamableHttp"
    );
}

#[test]
fn test_log_level_parse() {
    assert_eq!("debug".parse::<LogLevel>().unwrap(), LogLevel::Debug);
    assert_eq!("info".parse::<LogLevel>().unwrap(), LogLevel::Info);
    assert_eq!("none".parse::<LogLevel>().unwrap(), LogLevel::Off);
    assert_eq!(
        "loud".parse::<LogLevel>().unwrap_err(),
        "invalid log level 'loud': expected debug|info|none"
    );
    assert!("warn".parse::<LogLevel>().is_err());
}

#[test]
fn test_header_parsing() {
    let h = parse_header("X-Custom: foo:bar").unwrap();
    assert_eq!(h.name, "X-Custom");
    assert_eq!(h.value, "foo:bar");

    let h2 = parse_header("Content-Type: application/json").unwrap();
    assert_eq!(h2.name, "Content-Type");
    assert_eq!(h2.value, "application/json");

    assert!(parse_header("no-colon-here").is_err());
    assert!(parse_header(": empty-name").is_err());
}

#[test]
fn test_cors_parsing() {
    // Absent
    assert!(matches!(parse_cors(None), CorsConfig::Disabled));

    // Present no values
    assert!(matches!(
        parse_cors(Some(vec![])),
        CorsConfig::Wildcard
    ));

    // Literal origins
    let config = parse_cors(Some(vec!["http://localhost:3000".into()]));
    assert!(matches!(config, CorsConfig::Origins(ref o) if o.len() == 1));

    // Regex origin
    let config = parse_cors(Some(vec!["/example\\.com$/".into()]));
    if let CorsConfig::Origins(ref origins) = config {
        assert!(matches!(origins[0], CorsOrigin::Regex(_)));
    } else {
        panic!("expected Origins");
    }

    // Invalid regex falls back to literal
    let config = parse_cors(Some(vec!["/[invalid/".into()]));
    if let CorsConfig::Origins(ref origins) = config {
        assert!(matches!(origins[0], CorsOrigin::Literal(_)));
    } else {
        panic!("expected Origins");
    }
}

#[test]
fn test_path_validation() {
    assert!(validate_path("--ssePath", "/sse").is_ok());
    assert!(validate_path("--ssePath", "sse").is_err());
}

#[test]
fn test_no_input_error() {
    let raw = make_raw(None, None, None);
    assert!(Config::validate(raw).is_err());
}

#[test]
fn test_multiple_inputs_error() {
    let raw = make_raw(Some("echo"), Some("http://x"), None);
    assert!(Config::validate(raw).is_err());
}

#[test]
fn test_stdio_default_output_sse() {
    let raw = make_raw(Some("echo hi"), None, None);
    let config = Config::validate(raw).unwrap();
    assert_eq!(config.input_mode, InputMode::Stdio);
    assert_eq!(config.output_transport, OutputTransport::Sse);
}

#[test]
fn test_sse_default_output_stdio() {
    let raw = make_raw(None, Some("http://localhost:8080/sse"), None);
    let config = Config::validate(raw).unwrap();
    assert_eq!(config.input_mode, InputMode::Sse);
    assert_eq!(config.output_transport, OutputTransport::Stdio);
}

#[test]
fn test_streamable_http_default_output_stdio() {
    let raw = make_raw(None, None, Some("http://localhost:8080/mcp"));
    let config = Config::validate(raw).unwrap();
    assert_eq!(config.input_mode, InputMode::StreamableHttp);
    assert_eq!(config.output_transport, OutputTransport::Stdio);
}

#[test]
fn test_invalid_combination_stdio_to_stdio() {
    let mut raw = make_raw(Some("echo hi"), None, None);
    raw.output_transport = Some(OutputTransport::Stdio);
    assert!(Config::validate(raw).is_err());
}

#[test]
fn test_invalid_combination_sse_to_sse() {
    let mut raw = make_raw(None, Some("http://x"), None);
    raw.output_transport = Some(OutputTransport::Sse);
    assert!(Config::validate(raw).is_err());
}

#[test]
fn test_valid_stdio_to_ws() {
    let mut raw = make_raw(Some("echo hi"), None, None);
    raw.output_transport = Some(OutputTransport::Ws);
    let config = Config::validate(raw).unwrap();
    assert_eq!(config.output_transport, OutputTransport::Ws);
}

#[test]
fn test_valid_stdio_to_streamable_http() {
    let mut raw = make_raw(Some("echo hi"), None, None);
    raw.output_transport = Some(OutputTransport::StreamableHttp);
    let config = Config::validate(raw).unwrap();
    assert_eq!(config.output_transport, OutputTransport::StreamableHttp);
}

#[test]
fn test_session_timeout_positive() {
    let mut raw = make_raw(Some("echo hi"), None, None);
    raw.session_timeout = Some(5000);
    let config = Config::validate(raw).unwrap();
    assert_eq!(config.session_timeout, Some(5000));
}

#[test]
fn test_session_timeout_zero_error() {
    let mut raw = make_raw(Some("echo hi"), None, None);
    raw.session_timeout = Some(0);
    assert!(Config::validate(raw).is_err());
}

#[test]
fn test_session_timeout_negative_error() {
    let mut raw = make_raw(Some("echo hi"), None, None);
    raw.session_timeout = Some(-100);
    assert!(Config::validate(raw).is_err());
}

#[test]
fn test_oauth2_bearer_adds_header() {
    let mut raw = make_raw(Some("echo hi"), None, None);
    raw.oauth2_bearer = Some("my-token".into());
    let config = Config::validate(raw).unwrap();
    assert_eq!(config.headers.len(), 1);
    assert_eq!(config.headers[0].name, "Authorization");
    assert_eq!(config.headers[0].value, "Bearer my-token");
}

#[test]
fn test_oauth2_bearer_empty_no_header() {
    let mut raw = make_raw(Some("echo hi"), None, None);
    raw.oauth2_bearer = Some(String::new());
    let config = Config::validate(raw).unwrap();
    assert!(config.headers.is_empty());
}

#[test]
fn test_health_endpoints_validated() {
    let mut raw = make_raw(Some("echo hi"), None, None);
    raw.health_endpoint = Some(vec!["/healthz".into(), "/ready".into()]);
    let config = Config::validate(raw).unwrap();
    assert_eq!(config.health_endpoints, vec!["/healthz", "/ready"]);
}

#[test]
fn test_health_endpoint_bad_path() {
    let mut raw = make_raw(Some("echo hi"), None, None);
    raw.health_endpoint = Some(vec!["healthz".into()]);
    assert!(Config::validate(raw).is_err());
}

#[test]
fn test_bad_sse_path() {
    let mut raw = make_raw(Some("echo hi"), None, None);
    raw.sse_path = "no-slash".into();
    assert!(Config::validate(raw).is_err());
}
