//! A client on stdio, a server over HTTP.

use supergateway::cli::{LogLevel, OutputTransport};
use supergateway::gateway::http_to_stdio::{
    classify_content_type, HttpToStdioGateway, InitPhase, ResponseType,
};
use supergateway::gateway::sse_to_stdio::{make_error_response, StdinAction};
use supergateway::json::RawValue;
use supergateway::jsonrpc::RawMessage;
use supergateway::observe::Logger;
use supergateway::serve::HttpResponse;

fn make_gateway() -> HttpToStdioGateway {
    HttpToStdioGateway::new(
        "http://localhost:8080/mcp".into(),
        "2024-11-05".into(),
        Vec::new(),
    )
}

fn log() -> Logger {
    Logger::buffered(OutputTransport::Stdio, LogLevel::Debug)
}

fn raw(s: &str) -> RawValue {
    RawValue::from_string(s.into()).unwrap()
}

#[test]
fn classify_json() {
    assert_eq!(
        classify_content_type(Some("application/json")),
        ResponseType::Json
    );
    assert_eq!(
        classify_content_type(Some("application/json; charset=utf-8")),
        ResponseType::Json
    );
}

#[test]
fn classify_sse() {
    assert_eq!(
        classify_content_type(Some("text/event-stream")),
        ResponseType::Sse
    );
}

#[test]
fn classify_unknown() {
    assert!(matches!(
        classify_content_type(Some("text/plain")),
        ResponseType::Unknown(_)
    ));
    assert!(matches!(
        classify_content_type(None),
        ResponseType::Unknown(_)
    ));
}

#[test]
fn gateway_url() {
    let gw = make_gateway();
    assert_eq!(gw.url(), "http://localhost:8080/mcp");
}

#[test]
fn not_initialized_initially() {
    let gw = make_gateway();
    assert!(!gw.is_initialized());
}

#[test]
fn http_to_stdio_stdin_init_passthrough() {
    let mut gw = make_gateway();
    let msg = RawMessage {
        jsonrpc: "2.0".into(),
        id: Some(raw("0")),
        method: Some("initialize".into()),
        params: Some(raw(r#"{"protocolVersion":"2024-01-01","capabilities":{}}"#)),
        result: None,
        error: None,
        ..Default::default()
    };
    let action = gw.handle_stdin_message(msg);

    match action {
        StdinAction::Post(msgs) => {
            assert_eq!(msgs.len(), 1);
            assert!(msgs[0].is_initialize_request());
            let params: serde_json::Value =
                serde_json::from_str(msgs[0].params.as_ref().unwrap().get())
                    .unwrap();
            assert_eq!(params["protocolVersion"], "2024-11-05");
        }
        _ => panic!("expected Post action"),
    }
    match &gw.phase {
        InitPhase::WaitingPassthroughInit(init_id) => {
            assert_eq!(init_id, "0");
        }
        other => panic!("expected WaitingPassthroughInit, got {:?}", other),
    }
}

#[test]
fn http_to_stdio_stdin_fallback_init() {
    let mut gw = make_gateway();
    let msg = RawMessage {
        jsonrpc: "2.0".into(),
        id: Some(raw("1")),
        method: Some("tools/list".into()),
        params: None,
        result: None,
        error: None,
        ..Default::default()
    };
    let action = gw.handle_stdin_message(msg);

    match action {
        StdinAction::PostInit(init_msg) => {
            assert!(init_msg.is_initialize_request());
            let params: serde_json::Value =
                serde_json::from_str(init_msg.params.as_ref().unwrap().get())
                    .unwrap();
            assert_eq!(params["protocolVersion"], "2024-11-05");
            assert_eq!(params["clientInfo"]["name"], "supergateway");
        }
        _ => panic!("expected PostInit action"),
    }
    assert_eq!(gw.pending.len(), 1);
}

#[test]
fn http_to_stdio_stdin_buffered_during_init() {
    let mut gw = make_gateway();
    gw.phase = InitPhase::WaitingSyntheticInit("some-id".into());

    let msg = RawMessage {
        jsonrpc: "2.0".into(),
        id: Some(raw("2")),
        method: Some("tools/call".into()),
        params: None,
        result: None,
        error: None,
        ..Default::default()
    };
    let action = gw.handle_stdin_message(msg);
    assert!(matches!(action, StdinAction::Buffered));
    assert_eq!(gw.pending.len(), 1);
}

#[test]
fn http_to_stdio_stdin_forward_when_ready() {
    let mut gw = make_gateway();
    gw.phase = InitPhase::Ready;

    let msg = RawMessage {
        jsonrpc: "2.0".into(),
        id: Some(raw("3")),
        method: Some("tools/list".into()),
        params: None,
        result: None,
        error: None,
        ..Default::default()
    };
    let action = gw.handle_stdin_message(msg);

    match action {
        StdinAction::Post(msgs) => {
            assert_eq!(msgs.len(), 1);
            assert_eq!(msgs[0].method_str(), Some("tools/list"));
        }
        _ => panic!("expected Post action"),
    }
}

#[test]
fn response_passthrough_init() {
    let mut gw = make_gateway();
    gw.phase = InitPhase::WaitingPassthroughInit("0".into());

    let resp_msg = RawMessage {
        jsonrpc: "2.0".into(),
        id: Some(raw("0")),
        method: None,
        params: None,
        result: Some(raw(r#"{"protocolVersion":"2024-11-05","capabilities":{}}"#)),
        error: None,
        ..Default::default()
    };

    let result = gw.handle_response_messages(vec![resp_msg]);
    // Response forwarded to stdout (passthrough).
    assert_eq!(result.stdout.len(), 1);
    assert!(result.stdout[0].is_response());
    assert!(result.post.is_empty());
    assert!(gw.is_initialized());
}

#[test]
fn response_synthetic_init_absorbed() {
    let mut gw = make_gateway();
    gw.phase = InitPhase::WaitingSyntheticInit("test-init-id".into());

    // Queue a pending message.
    gw.pending.push(RawMessage {
        jsonrpc: "2.0".into(),
        id: Some(raw("42")),
        method: Some("tools/list".into()),
        params: None,
        result: None,
        error: None,
        ..Default::default()
    });

    let resp_msg = RawMessage {
        jsonrpc: "2.0".into(),
        id: Some(raw("\"test-init-id\"")),
        method: None,
        params: None,
        result: Some(raw(r#"{"protocolVersion":"2024-11-05","capabilities":{}}"#)),
        error: None,
        ..Default::default()
    };

    let result = gw.handle_response_messages(vec![resp_msg]);
    // Init response absorbed — not in stdout.
    assert!(result.stdout.is_empty());
    // Follow-up: initialized + pending.
    assert_eq!(result.post.len(), 2);
    assert_eq!(
        result.post[0].method_str(),
        Some("notifications/initialized")
    );
    assert_eq!(result.post[1].method_str(), Some("tools/list"));
    assert!(gw.is_initialized());
}

#[test]
fn response_forwarded_when_ready() {
    let mut gw = make_gateway();
    gw.phase = InitPhase::Ready;

    let resp_msg = RawMessage {
        jsonrpc: "2.0".into(),
        id: Some(raw("1")),
        method: None,
        params: None,
        result: Some(raw(r#"{"tools":[]}"#)),
        error: None,
        ..Default::default()
    };

    let result = gw.handle_response_messages(vec![resp_msg]);
    assert_eq!(result.stdout.len(), 1);
    assert!(result.stdout[0].is_response());
    assert!(result.post.is_empty());
}

#[test]
fn response_notification_during_synthetic_init() {
    let mut gw = make_gateway();
    gw.phase = InitPhase::WaitingSyntheticInit("test-init-id".into());

    // Server sends a notification (not the init response).
    let notif = RawMessage {
        jsonrpc: "2.0".into(),
        id: None,
        method: Some("notifications/progress".into()),
        params: Some(raw(r#"{"token":"x"}"#)),
        result: None,
        error: None,
        ..Default::default()
    };

    let result = gw.handle_response_messages(vec![notif]);
    // Notification forwarded to stdout.
    assert_eq!(result.stdout.len(), 1);
    assert!(result.stdout[0].is_notification());
    // Still waiting for init.
    assert!(!gw.is_initialized());
}

#[test]
fn parse_json_single() {
    let gw = make_gateway();
    let body = br#"{"jsonrpc":"2.0","id":1,"result":{"tools":[]}}"#;
    let msgs = gw.parse_json_response(body, &mut log());
    assert_eq!(msgs.len(), 1);
    assert!(msgs[0].is_response());
}

#[test]
fn parse_json_batch() {
    let gw = make_gateway();
    let body =
        br#"[{"jsonrpc":"2.0","id":1,"result":{}},{"jsonrpc":"2.0","method":"notify"}]"#;
    let msgs = gw.parse_json_response(body, &mut log());
    assert_eq!(msgs.len(), 2);
    assert!(msgs[0].is_response());
    assert!(msgs[1].is_notification());
}

#[test]
fn parse_json_invalid() {
    let gw = make_gateway();
    let msgs = gw.parse_json_response(b"not json", &mut log());
    assert!(msgs.is_empty());
}

#[test]
fn parse_json_invalid_utf8() {
    let gw = make_gateway();
    let msgs = gw.parse_json_response(&[0xff, 0xfe], &mut log());
    assert!(msgs.is_empty());
}

#[test]
fn parse_sse_message_event() {
    let gw = make_gateway();
    let json = r#"{"jsonrpc":"2.0","id":1,"result":{"tools":[]}}"#;
    let msgs = gw.parse_sse_event_data("message", json, &mut log());
    assert_eq!(msgs.len(), 1);
    assert!(msgs[0].is_response());
}

#[test]
fn parse_sse_non_message_ignored() {
    let gw = make_gateway();
    let msgs = gw.parse_sse_event_data("endpoint", "/message", &mut log());
    assert!(msgs.is_empty());
}

#[test]
fn parse_sse_invalid_json() {
    let gw = make_gateway();
    let msgs = gw.parse_sse_event_data("message", "not json", &mut log());
    assert!(msgs.is_empty());
}

#[test]
fn http_to_stdio_full_passthrough_init_dance() {
    let mut gw = make_gateway();

    // Step 1: Init message from stdin.
    let init_msg = RawMessage {
        jsonrpc: "2.0".into(),
        id: Some(raw("0")),
        method: Some("initialize".into()),
        params: Some(raw(r#"{"protocolVersion":"2024-01-01","capabilities":{"roots":{"listChanged":true}}}"#)),
        result: None,
        error: None,
        ..Default::default()
    };
    let action = gw.handle_stdin_message(init_msg);
    match action {
        StdinAction::Post(msgs) => {
            assert_eq!(msgs.len(), 1);
            let params: serde_json::Value =
                serde_json::from_str(msgs[0].params.as_ref().unwrap().get())
                    .unwrap();
            assert_eq!(params["protocolVersion"], "2024-11-05");
            // Other params preserved.
            assert!(params["capabilities"]["roots"]["listChanged"]
                .as_bool()
                .unwrap());
        }
        _ => panic!("expected Post"),
    }

    // Step 2: Server JSON response.
    let resp_msg = RawMessage {
        jsonrpc: "2.0".into(),
        id: Some(raw("0")),
        method: None,
        params: None,
        result: Some(raw(r#"{"protocolVersion":"2024-11-05","capabilities":{}}"#)),
        error: None,
        ..Default::default()
    };
    let result = gw.handle_response_messages(vec![resp_msg]);
    assert_eq!(result.stdout.len(), 1);
    assert!(result.stdout[0].is_response());
    assert!(result.post.is_empty());
    assert!(gw.is_initialized());

    // Step 3: Normal message forwarded.
    let msg = RawMessage {
        jsonrpc: "2.0".into(),
        id: Some(raw("1")),
        method: Some("tools/list".into()),
        params: None,
        result: None,
        error: None,
        ..Default::default()
    };
    let action = gw.handle_stdin_message(msg);
    match action {
        StdinAction::Post(msgs) => {
            assert_eq!(msgs.len(), 1);
            assert_eq!(msgs[0].method_str(), Some("tools/list"));
        }
        _ => panic!("expected Post"),
    }
}

#[test]
fn http_to_stdio_full_synthetic_init_dance() {
    let mut gw = make_gateway();

    // Step 1: Non-init stdin message arrives.
    let stdin_msg = RawMessage {
        jsonrpc: "2.0".into(),
        id: Some(raw("1")),
        method: Some("tools/list".into()),
        params: None,
        result: None,
        error: None,
        ..Default::default()
    };
    let action = gw.handle_stdin_message(stdin_msg);
    let init_msg = match action {
        StdinAction::PostInit(m) => m,
        _ => panic!("expected PostInit"),
    };
    let init_id = init_msg
        .id
        .as_ref()
        .unwrap()
        .get()
        .trim_matches('"')
        .to_owned();

    // Step 2: Second stdin message buffered.
    let stdin_msg2 = RawMessage {
        jsonrpc: "2.0".into(),
        id: Some(raw("2")),
        method: Some("resources/list".into()),
        params: None,
        result: None,
        error: None,
        ..Default::default()
    };
    let action2 = gw.handle_stdin_message(stdin_msg2);
    assert!(matches!(action2, StdinAction::Buffered));

    // Step 3: Server init response.
    let resp_msg = RawMessage {
        jsonrpc: "2.0".into(),
        id: Some(RawValue::from_string(format!("\"{init_id}\"")).unwrap()),
        method: None,
        params: None,
        result: Some(raw(r#"{"protocolVersion":"2024-11-05","capabilities":{}}"#)),
        error: None,
        ..Default::default()
    };
    let result = gw.handle_response_messages(vec![resp_msg]);

    // Init response absorbed.
    assert!(result.stdout.is_empty());
    // Follow-up: initialized + 2 pending messages.
    assert_eq!(result.post.len(), 3);
    assert_eq!(
        result.post[0].method_str(),
        Some("notifications/initialized")
    );
    assert_eq!(result.post[1].method_str(), Some("tools/list"));
    assert_eq!(result.post[2].method_str(), Some("resources/list"));
    assert!(gw.is_initialized());

    // Step 4: Subsequent responses forwarded normally.
    let resp_msg2 = RawMessage {
        jsonrpc: "2.0".into(),
        id: Some(raw("1")),
        method: None,
        params: None,
        result: Some(raw(r#"{"tools":[]}"#)),
        error: None,
        ..Default::default()
    };
    let result2 = gw.handle_response_messages(vec![resp_msg2]);
    assert_eq!(result2.stdout.len(), 1);
    assert!(result2.post.is_empty());
}

#[test]
fn error_response_accessible() {
    let resp = make_error_response(Some(raw("5")), "MCP error -32600: Invalid", None);
    assert!(resp.is_response());
    let s = resp.to_json();
    assert!(s.contains("-32000")); // CLIENT_ERROR_CODE
    assert!(s.contains("Invalid")); // Prefix stripped
}

#[test]
fn error_response_preserves_code() {
    let resp = make_error_response(Some(raw("5")), "Invalid", Some(-32600));
    let s = resp.to_json();
    assert!(s.contains("-32600")); // Original code preserved
    assert!(!s.contains("-32000"));
}

#[test]
fn what_cannot_be_read_is_logged() {
    let gw = make_gateway();
    let mut log = log();
    gw.parse_json_response(br#"{"jsonrpc":"2.0","method":"fine"}"#, &mut log);
    assert_eq!(log.get_output(), "");
    gw.parse_json_response(b"{}", &mut log);
    gw.parse_json_response(&[0xff, 0xfe], &mut log);
    gw.parse_sse_event_data("ping", "{}", &mut log);
    gw.parse_sse_event_data("message", "{}", &mut log);
    assert_eq!(
        log.get_output(),
        "[supergateway] HTTP response: JSON-RPC parse error: missing field `jsonrpc`\n\
         [supergateway] HTTP response: invalid UTF-8: invalid utf-8 sequence of 1 bytes from index 0\n\
         [supergateway] HTTP SSE: ignoring event type 'ping'\n\
         [supergateway] HTTP SSE: JSON-RPC parse error: missing field `jsonrpc`\n"
    );
}

#[test]
fn events_of_an_answer_are_logged_in_their_order() {
    let mut gw = make_gateway();
    gw.phase = InitPhase::WaitingSyntheticInit("q".into());
    let reply = HttpResponse {
        status: 200,
        headers: vec![("content-type".to_string(), "text/event-stream".to_string())],
        body: b"event: tick\ndata: 1\n\ndata: {}\n\n\
                data: {\"jsonrpc\":\"2.0\",\"id\":\"q\",\"result\":{}}\n\n"
            .to_vec(),
    };
    let mut log = log();
    gw.handle_response(&reply, false, &mut log);
    assert!(gw.is_initialized());
    assert_eq!(
        log.get_output(),
        "[supergateway] HTTP SSE: ignoring event type 'tick'\n\
         [supergateway] HTTP SSE: JSON-RPC parse error: missing field `jsonrpc`\n\
         [supergateway] HTTP: synthetic init response received\n"
    );
}
