//! A client on stdio, a server over SSE.

use supergateway::client::sse::SseEvent;
use supergateway::gateway::sse_to_stdio::{
    build_fallback_init, build_initialized_notification, extract_error_code, generate_init_id,
    intercept_protocol_version, make_error_response, strip_error_prefix, InitPhase,
    SseToStdioGateway, StdinAction, CLIENT_ERROR_MESSAGE, FALLBACK_CLIENT_NAME,
};
use supergateway::json::RawValue;
use supergateway::jsonrpc::{parse_message, RawMessage};

fn make_gateway() -> SseToStdioGateway {
    SseToStdioGateway::new(
        "http://localhost:8080/sse".into(),
        "2024-11-05".into(),
        Vec::new(),
    )
}

fn raw(s: &str) -> RawValue {
    RawValue::from_string(s.into()).unwrap()
}

#[test]
fn strip_prefix_negative_code() {
    assert_eq!(
        strip_error_prefix("MCP error -32600: Invalid request"),
        "Invalid request"
    );
}

#[test]
fn strip_prefix_positive_code() {
    assert_eq!(
        strip_error_prefix("MCP error 500: Server error"),
        "Server error"
    );
}

#[test]
fn strip_prefix_no_match_missing_prefix() {
    assert_eq!(
        strip_error_prefix("Some other error"),
        "Some other error"
    );
}

#[test]
fn strip_prefix_no_match_no_digits() {
    assert_eq!(
        strip_error_prefix("MCP error abc: not a code"),
        "MCP error abc: not a code"
    );
}

#[test]
fn strip_prefix_no_match_no_colon_space() {
    assert_eq!(
        strip_error_prefix("MCP error -32600 no colon"),
        "MCP error -32600 no colon"
    );
}

#[test]
fn strip_prefix_empty_message_after_strip() {
    assert_eq!(strip_error_prefix("MCP error 0: "), "");
}

#[test]
fn fallback_init_structure() {
    let msg = build_fallback_init("test-id", "2024-11-05");
    assert!(msg.is_initialize_request());
    assert_eq!(msg.id.as_ref().unwrap().get(), "\"test-id\"");
    let params: serde_json::Value =
        serde_json::from_str(msg.params.as_ref().unwrap().get()).unwrap();
    assert_eq!(params["protocolVersion"], "2024-11-05");
    assert_eq!(params["clientInfo"]["name"], FALLBACK_CLIENT_NAME);
    assert!(params["capabilities"]["roots"]["listChanged"]
        .as_bool()
        .unwrap());
    assert!(params["capabilities"]["sampling"].is_object());
}

#[test]
fn initialized_notification_structure() {
    let msg = build_initialized_notification();
    assert!(msg.is_notification());
    assert_eq!(msg.method_str(), Some("notifications/initialized"));
    assert!(msg.id.is_none());
}

#[test]
fn init_id_format() {
    let id = generate_init_id();
    assert!(id.starts_with("init_"));
    let parts: Vec<&str> = id.splitn(3, '_').collect();
    assert_eq!(parts.len(), 3);
    assert_eq!(parts[0], "init");
    assert!(parts[1].chars().all(|c| c.is_ascii_digit()));
    assert_eq!(parts[2].len(), 9);
    assert!(parts[2]
        .chars()
        .all(|c| c.is_ascii_digit() || c.is_ascii_lowercase()));
}

#[test]
fn init_id_unique() {
    let id1 = generate_init_id();
    let id2 = generate_init_id();
    assert_ne!(id1, id2);
}

#[test]
fn intercept_sets_version() {
    let msg = RawMessage {
        jsonrpc: "2.0".into(),
        id: Some(raw("1")),
        method: Some("initialize".into()),
        params: Some(raw(r#"{"protocolVersion":"2024-01-01","capabilities":{}}"#)),
        result: None,
        error: None,
        ..Default::default()
    };
    let result = intercept_protocol_version(msg, "2024-11-05");
    let params: serde_json::Value =
        serde_json::from_str(result.params.as_ref().unwrap().get()).unwrap();
    assert_eq!(params["protocolVersion"], "2024-11-05");
    assert!(params["capabilities"].is_object());
}

#[test]
fn intercept_noop_for_non_init() {
    let msg = RawMessage {
        jsonrpc: "2.0".into(),
        id: Some(raw("1")),
        method: Some("tools/list".into()),
        params: None,
        result: None,
        error: None,
        ..Default::default()
    };
    let result = intercept_protocol_version(msg, "2024-11-05");
    assert_eq!(result.method_str(), Some("tools/list"));
}

#[test]
fn intercept_preserves_other_params() {
    let msg = RawMessage {
        jsonrpc: "2.0".into(),
        id: Some(raw("0")),
        method: Some("initialize".into()),
        params: Some(raw(r#"{"protocolVersion":"old","capabilities":{"roots":{"listChanged":true}},"clientInfo":{"name":"test","version":"1.0"}}"#)),
        result: None,
        error: None,
        ..Default::default()
    };
    let result = intercept_protocol_version(msg, "2024-11-05");
    let params: serde_json::Value =
        serde_json::from_str(result.params.as_ref().unwrap().get()).unwrap();
    assert_eq!(params["protocolVersion"], "2024-11-05");
    assert_eq!(params["clientInfo"]["name"], "test");
    assert!(params["capabilities"]["roots"]["listChanged"]
        .as_bool()
        .unwrap());
}

#[test]
fn error_response_with_prefix_stripping() {
    let resp = make_error_response(
        Some(raw("5")),
        "MCP error -32600: Invalid request",
        None,
    );
    assert!(resp.is_response());
    assert_eq!(resp.id.as_ref().unwrap().get(), "5");
    let s = resp.to_json();
    assert!(s.contains("-32000"));
    assert!(s.contains("Invalid request"));
    assert!(!s.contains("MCP error"));
}

#[test]
fn error_response_fallback_message() {
    let resp = make_error_response(Some(raw("1")), "", None);
    let s = resp.to_json();
    assert!(s.contains(CLIENT_ERROR_MESSAGE));
}

#[test]
fn error_response_no_prefix() {
    let resp = make_error_response(Some(raw("1")), "custom error", None);
    let s = resp.to_json();
    assert!(s.contains("custom error"));
    assert!(s.contains("-32000"));
}

#[test]
fn error_response_null_id() {
    let resp = make_error_response(None, "fail", None);
    assert_eq!(resp.id.as_ref().unwrap().get(), "null");
}

#[test]
fn error_response_preserves_original_code() {
    let resp = make_error_response(
        Some(raw("5")),
        "Method not found",
        Some(-32601),
    );
    let s = resp.to_json();
    assert!(s.contains("-32601"));
    assert!(s.contains("Method not found"));
    assert!(!s.contains("-32000"));
}

#[test]
fn extract_code_from_error_response() {
    let msg = parse_message(r#"{"jsonrpc":"2.0","id":1,"error":{"code":-32601,"message":"Method not found"}}"#).unwrap();
    assert_eq!(extract_error_code(&msg), Some(-32601));
}

#[test]
fn extract_code_no_error_field() {
    let msg = parse_message(r#"{"jsonrpc":"2.0","id":1,"result":{}}"#).unwrap();
    assert_eq!(extract_error_code(&msg), None);
}

#[test]
fn extract_code_malformed_error() {
    let msg = parse_message(r#"{"jsonrpc":"2.0","id":1,"error":{"message":"no code"}}"#).unwrap();
    assert_eq!(extract_error_code(&msg), None);
}

#[test]
fn sse_event_endpoint_discovery() {
    let mut gw = make_gateway();
    let event = SseEvent {
        event_type: "endpoint".into(),
        data: "/message?sessionId=abc".into(),
        id: String::new(),
    };
    let result = gw.handle_sse_event(&event);
    assert!(result.stdout.is_empty());
    assert!(result.post.is_empty());
    assert_eq!(
        gw.endpoint_url(),
        Some("http://localhost:8080/message?sessionId=abc".into())
    );
}

#[test]
fn sse_event_absolute_endpoint() {
    let mut gw = make_gateway();
    let event = SseEvent {
        event_type: "endpoint".into(),
        data: "http://other-host:9090/msg".into(),
        id: String::new(),
    };
    gw.handle_sse_event(&event);
    assert_eq!(
        gw.endpoint_url(),
        Some("http://other-host:9090/msg".into())
    );
}

#[test]
fn sse_event_message_forwarded_when_ready() {
    let mut gw = make_gateway();
    gw.phase = InitPhase::Ready;

    let json = r#"{"jsonrpc":"2.0","id":1,"result":{"tools":[]}}"#;
    let event = SseEvent {
        event_type: "message".into(),
        data: json.into(),
        id: String::new(),
    };
    let result = gw.handle_sse_event(&event);
    assert_eq!(result.stdout.len(), 1);
    assert!(result.stdout[0].is_response());
}

#[test]
fn sse_event_unknown_type_ignored() {
    let mut gw = make_gateway();
    let event = SseEvent {
        event_type: "keepalive".into(),
        data: String::new(),
        id: String::new(),
    };
    let result = gw.handle_sse_event(&event);
    assert!(result.stdout.is_empty());
    assert!(result.post.is_empty());
}

#[test]
fn sse_event_invalid_json_ignored() {
    let mut gw = make_gateway();
    gw.phase = InitPhase::Ready;

    let event = SseEvent {
        event_type: "message".into(),
        data: "not valid json".into(),
        id: String::new(),
    };
    let result = gw.handle_sse_event(&event);
    assert!(result.stdout.is_empty());
}

#[test]
fn sse_event_synthetic_init_response_absorbed() {
    let mut gw = make_gateway();
    gw.phase = InitPhase::WaitingSyntheticInit("test-init-id".into());

    // Queue a pending message.
    gw.pending.push(RawMessage {
        jsonrpc: "2.0".into(),
        id: Some(raw("42")),
        method: Some("tools/list".into()),
        params: None,
        result: None,
        error: None,
        ..Default::default()
    });

    // Server sends init response.
    let json = r#"{"jsonrpc":"2.0","id":"test-init-id","result":{"protocolVersion":"2024-11-05","capabilities":{}}}"#;
    let event = SseEvent {
        event_type: "message".into(),
        data: json.into(),
        id: String::new(),
    };
    let result = gw.handle_sse_event(&event);

    // Init response NOT forwarded to stdout.
    assert!(result.stdout.is_empty());
    // Initialized notification + pending message queued for POST.
    assert_eq!(result.post.len(), 2);
    assert_eq!(
        result.post[0].method_str(),
        Some("notifications/initialized")
    );
    assert_eq!(result.post[1].method_str(), Some("tools/list"));
    assert!(gw.is_initialized());
}

#[test]
fn sse_event_notification_during_synthetic_init() {
    let mut gw = make_gateway();
    gw.phase = InitPhase::WaitingSyntheticInit("test-init-id".into());

    let json = r#"{"jsonrpc":"2.0","method":"notifications/progress","params":{"token":"x"}}"#;
    let event = SseEvent {
        event_type: "message".into(),
        data: json.into(),
        id: String::new(),
    };
    let result = gw.handle_sse_event(&event);

    // Notification forwarded to stdout.
    assert_eq!(result.stdout.len(), 1);
    assert!(result.stdout[0].is_notification());
    // Still waiting for init.
    assert!(!gw.is_initialized());
}

#[test]
fn sse_event_passthrough_init_response_forwarded() {
    let mut gw = make_gateway();
    gw.phase = InitPhase::WaitingPassthroughInit;

    let json = r#"{"jsonrpc":"2.0","id":0,"result":{"protocolVersion":"2024-11-05","capabilities":{}}}"#;
    let event = SseEvent {
        event_type: "message".into(),
        data: json.into(),
        id: String::new(),
    };
    let result = gw.handle_sse_event(&event);

    // Response forwarded to stdout (passthrough).
    assert_eq!(result.stdout.len(), 1);
    assert!(result.stdout[0].is_response());
    assert!(gw.is_initialized());
}

#[test]
fn sse_to_stdio_stdin_init_passthrough() {
    let mut gw = make_gateway();
    let msg = RawMessage {
        jsonrpc: "2.0".into(),
        id: Some(raw("0")),
        method: Some("initialize".into()),
        params: Some(raw(r#"{"protocolVersion":"2024-01-01","capabilities":{}}"#)),
        result: None,
        error: None,
        ..Default::default()
    };
    let action = gw.handle_stdin_message(msg);

    match action {
        StdinAction::Post(msgs) => {
            assert_eq!(msgs.len(), 1);
            assert!(msgs[0].is_initialize_request());
            let params: serde_json::Value =
                serde_json::from_str(msgs[0].params.as_ref().unwrap().get())
                    .unwrap();
            assert_eq!(params["protocolVersion"], "2024-11-05");
        }
        _ => panic!("expected Post action"),
    }
    assert!(matches!(gw.phase, InitPhase::WaitingPassthroughInit));
}

#[test]
fn sse_to_stdio_stdin_fallback_init() {
    let mut gw = make_gateway();
    let msg = RawMessage {
        jsonrpc: "2.0".into(),
        id: Some(raw("1")),
        method: Some("tools/list".into()),
        params: None,
        result: None,
        error: None,
        ..Default::default()
    };
    let action = gw.handle_stdin_message(msg);

    match action {
        StdinAction::PostInit(init_msg) => {
            assert!(init_msg.is_initialize_request());
            let params: serde_json::Value =
                serde_json::from_str(init_msg.params.as_ref().unwrap().get())
                    .unwrap();
            assert_eq!(params["protocolVersion"], "2024-11-05");
            assert_eq!(params["clientInfo"]["name"], FALLBACK_CLIENT_NAME);
        }
        _ => panic!("expected PostInit action"),
    }
    assert_eq!(gw.pending.len(), 1);
}

#[test]
fn sse_to_stdio_stdin_buffered_during_init() {
    let mut gw = make_gateway();
    gw.phase = InitPhase::WaitingSyntheticInit("some-id".into());

    let msg = RawMessage {
        jsonrpc: "2.0".into(),
        id: Some(raw("2")),
        method: Some("tools/call".into()),
        params: None,
        result: None,
        error: None,
        ..Default::default()
    };
    let action = gw.handle_stdin_message(msg);
    assert!(matches!(action, StdinAction::Buffered));
    assert_eq!(gw.pending.len(), 1);
}

#[test]
fn sse_to_stdio_stdin_forward_when_ready() {
    let mut gw = make_gateway();
    gw.phase = InitPhase::Ready;

    let msg = RawMessage {
        jsonrpc: "2.0".into(),
        id: Some(raw("3")),
        method: Some("tools/list".into()),
        params: None,
        result: None,
        error: None,
        ..Default::default()
    };
    let action = gw.handle_stdin_message(msg);

    match action {
        StdinAction::Post(msgs) => {
            assert_eq!(msgs.len(), 1);
            assert_eq!(msgs[0].method_str(), Some("tools/list"));
        }
        _ => panic!("expected Post action"),
    }
}

#[test]
fn sse_to_stdio_full_synthetic_init_dance() {
    let mut gw = make_gateway();

    // Step 1: Endpoint discovered.
    let ep_event = SseEvent {
        event_type: "endpoint".into(),
        data: "/message".into(),
        id: String::new(),
    };
    gw.handle_sse_event(&ep_event);
    assert!(gw.endpoint_url().is_some());

    // Step 2: Non-init stdin message arrives.
    let stdin_msg = RawMessage {
        jsonrpc: "2.0".into(),
        id: Some(raw("1")),
        method: Some("tools/list".into()),
        params: None,
        result: None,
        error: None,
        ..Default::default()
    };
    let action = gw.handle_stdin_message(stdin_msg);
    let init_msg = match action {
        StdinAction::PostInit(m) => m,
        _ => panic!("expected PostInit"),
    };
    let init_id = init_msg
        .id
        .as_ref()
        .unwrap()
        .get()
        .trim_matches('"')
        .to_owned();

    // Step 3: Second stdin message arrives (buffered).
    let stdin_msg2 = RawMessage {
        jsonrpc: "2.0".into(),
        id: Some(raw("2")),
        method: Some("resources/list".into()),
        params: None,
        result: None,
        error: None,
        ..Default::default()
    };
    let action2 = gw.handle_stdin_message(stdin_msg2);
    assert!(matches!(action2, StdinAction::Buffered));

    // Step 4: Server sends init response via SSE.
    let init_resp_json = format!(
        r#"{{"jsonrpc":"2.0","id":"{}","result":{{"protocolVersion":"2024-11-05","capabilities":{{}}}}}}"#,
        init_id
    );
    let sse_event = SseEvent {
        event_type: "message".into(),
        data: init_resp_json,
        id: String::new(),
    };
    let result = gw.handle_sse_event(&sse_event);

    // Init response absorbed (not in stdout).
    assert!(result.stdout.is_empty());
    // Follow-up POSTs: initialized + 2 pending messages.
    assert_eq!(result.post.len(), 3);
    assert_eq!(
        result.post[0].method_str(),
        Some("notifications/initialized")
    );
    assert_eq!(result.post[1].method_str(), Some("tools/list"));
    assert_eq!(result.post[2].method_str(), Some("resources/list"));
    assert!(gw.is_initialized());

    // Step 5: Subsequent SSE messages forwarded to stdout.
    let json = r#"{"jsonrpc":"2.0","id":1,"result":{"tools":[]}}"#;
    let msg_event = SseEvent {
        event_type: "message".into(),
        data: json.into(),
        id: String::new(),
    };
    let result2 = gw.handle_sse_event(&msg_event);
    assert_eq!(result2.stdout.len(), 1);
}

#[test]
fn sse_to_stdio_full_passthrough_init_dance() {
    let mut gw = make_gateway();

    // Step 1: Init message from stdin.
    let init_msg = RawMessage {
        jsonrpc: "2.0".into(),
        id: Some(raw("0")),
        method: Some("initialize".into()),
        params: Some(raw(r#"{"protocolVersion":"2024-01-01","capabilities":{"roots":{"listChanged":true}}}"#)),
        result: None,
        error: None,
        ..Default::default()
    };
    let action = gw.handle_stdin_message(init_msg);

    match action {
        StdinAction::Post(msgs) => {
            assert_eq!(msgs.len(), 1);
            let params: serde_json::Value =
                serde_json::from_str(msgs[0].params.as_ref().unwrap().get())
                    .unwrap();
            assert_eq!(params["protocolVersion"], "2024-11-05");
            assert!(params["capabilities"]["roots"]["listChanged"]
                .as_bool()
                .unwrap());
        }
        _ => panic!("expected Post"),
    }

    // Step 2: Server sends init response.
    let json = r#"{"jsonrpc":"2.0","id":0,"result":{"protocolVersion":"2024-11-05","capabilities":{}}}"#;
    let event = SseEvent {
        event_type: "message".into(),
        data: json.into(),
        id: String::new(),
    };
    let result = gw.handle_sse_event(&event);

    // Response forwarded to stdout (passthrough).
    assert_eq!(result.stdout.len(), 1);
    assert!(result.stdout[0].is_response());
    assert!(gw.is_initialized());
}
