//! A server on stdio, clients over HTTP with sessions.

use supergateway::cli::{CorsConfig, LogLevel};
use supergateway::cors::CorsHandler;
use supergateway::error::GatewayError;
use supergateway::gateway::exchange::{
    format_sse_batch_event, format_sse_event, format_sse_keepalive, Polled, SessionData,
    INIT_NOTIFICATION_BUFFER_CAP,
};
use supergateway::gateway::reply::Setup;
use supergateway::gateway::stateful_http::{
    Forwarded, GatewayRequest, GatewayResponse, Post, RequestResult, StatefulHttpGateway,
    MAX_BODY_SIZE,
};
use supergateway::json::RawValue;
use supergateway::jsonrpc::RawMessage;
use supergateway::observe::Metrics;
use supergateway::session::SessionId;

fn make_notification(method: &str) -> RawMessage {
    RawMessage {
        jsonrpc: "2.0".into(),
        id: None,
        method: Some(method.into()),
        params: None,
        result: None,
        error: None,
        ..Default::default()
    }
}

fn make_response(id: &str) -> RawMessage {
    RawMessage {
        jsonrpc: "2.0".into(),
        id: Some(RawValue::from_string(id.into()).unwrap()),
        method: None,
        params: None,
        result: Some(RawValue::from_string(r#"{"ok":true}"#.into()).unwrap()),
        error: None,
        ..Default::default()
    }
}

fn make_gateway_request(
    method: &str,
    path: &str,
    body: &str,
    headers: Vec<(&str, &str)>,
) -> GatewayRequest {
    GatewayRequest {
        method: method.to_string(),
        path: path.to_string(),
        headers: headers
            .iter()
            .map(|(k, v)| (k.to_string(), v.to_string()))
            .collect(),
        body: body.as_bytes().to_vec(),
        query: Vec::new(),
    }
}

fn gateway(cors: CorsConfig) -> StatefulHttpGateway {
    let setup = Setup {
        cors: CorsHandler::new(cors, true),
        custom_headers: vec![],
        log_level: LogLevel::Debug,
        health_endpoints: vec!["/healthz".into()],
    };
    StatefulHttpGateway::new("/mcp".into(), setup, None, Metrics::new())
}

fn make_test_gateway() -> StatefulHttpGateway {
    gateway(CorsConfig::Disabled)
}

fn make_test_gateway_with_cors() -> StatefulHttpGateway {
    gateway(CorsConfig::Wildcard)
}

fn make_test_gateway_max_sessions(max: usize) -> StatefulHttpGateway {
    let mut gw = gateway(CorsConfig::Disabled);
    gw.sessions.config.max_sessions = max;
    gw
}

fn create_test_session(gw: &mut StatefulHttpGateway) -> SessionId {
    gw.sessions.create(SessionId::new(), SessionData::new()).unwrap()
}

/// Carries a request out. The children take what they get and never answer.
fn request(gw: &mut StatefulHttpGateway, req: &GatewayRequest) -> GatewayResponse {
    match gw.handle_request(req) {
        RequestResult::Response(r) => r,
        RequestResult::SseStream(_) => panic!("expected Response, got SseStream"),
        RequestResult::Initialize(post) => match gw.start_session(post) {
            Ok(post) => forward(gw, post),
            Err(r) => r,
        },
        RequestResult::Forward(post) => forward(gw, post),
        RequestResult::Drain(_, r) => r,
    }
}

fn forward(gw: &mut StatefulHttpGateway, post: Post) -> GatewayResponse {
    let id = post.session.clone().unwrap();
    let resp = match gw.after_write(&id, &post.messages, Ok(())) {
        Forwarded::Respond(r) => r,
        Forwarded::Wait(mut exchange) => {
            assert!(!gw.advance_exchange(&id, &mut exchange, 0));
            assert!(gw.advance_exchange(&id, &mut exchange, u64::MAX));
            gw.finish_exchange(&id, exchange)
        }
    };
    gw.complete_post(post, resp).0
}

fn take(data: &mut SessionData, ticket: &str) -> RawMessage {
    match data.poll(ticket) {
        Polled::Message(m) => m,
        _ => panic!("expected a message"),
    }
}

#[test]
fn stateful_http_sse_event_format() {
    let msg = make_response("1");
    let event = format_sse_event(&msg);
    assert!(event.starts_with("event: message\ndata: "));
    assert!(event.ends_with("\n\n"));
    assert!(event.contains("\"jsonrpc\":\"2.0\""));
}

#[test]
fn sse_batch_event_format() {
    let msgs = vec![make_response("1"), make_response("2")];
    let event = format_sse_batch_event(&msgs);
    assert!(event.starts_with("event: message\ndata: ["));
    assert!(event.ends_with("\n\n"));
}

#[test]
fn sse_keepalive_format() {
    let ka = format_sse_keepalive();
    assert_eq!(ka, ": keepalive\n\n");
}

#[test]
fn route_response_to_pending() {
    let mut data = SessionData::new();

    // Register a pending request
    let ticket = data.register_pending(&vec!["1".to_string()]);

    // Route a response
    let resp = make_response("1");
    assert!(data.route_response(resp));

    // Should receive on the channel
    let received = take(&mut data, &ticket);
    assert!(received.is_response());
    assert_eq!(received.id.as_ref().unwrap().get(), "1");
}

#[test]
fn route_response_no_pending() {
    let mut data = SessionData::new();

    let resp = make_response("99");
    assert!(!data.route_response(resp));
}

#[test]
fn notification_buffered_before_init() {
    let mut data = SessionData::new();
    let mut metrics = Metrics::new();

    // Before init_done, notifications should be buffered
    let notif = make_notification("tools/listChanged");
    data.route_notification(notif, &mut metrics);
    assert!(data.next_notification().is_none());

    data.mark_init_done(&mut metrics);
    assert!(data.next_notification().unwrap().is_notification());
    assert!(data.next_notification().is_none());
}

#[test]
fn notification_flushed_on_init_done() {
    let mut data = SessionData::new();
    let mut metrics = Metrics::new();

    // Buffer two notifications
    data.route_notification(make_notification("a"), &mut metrics);
    data.route_notification(make_notification("b"), &mut metrics);

    // Take the notification receiver before marking init done
    assert!(data.claim_stream());

    // Mark init done (flushes buffer)
    data.mark_init_done(&mut metrics);

    // Should receive the buffered notifications
    let msg1 = data.next_notification().unwrap();
    assert_eq!(msg1.method_str(), Some("a"));
    let msg2 = data.next_notification().unwrap();
    assert_eq!(msg2.method_str(), Some("b"));
}

#[test]
fn notification_sent_directly_after_init() {
    let mut data = SessionData::new();
    let mut metrics = Metrics::new();

    assert!(data.claim_stream());
    data.mark_init_done(&mut metrics);

    // After init, notifications go directly to channel
    data.route_notification(make_notification("c"), &mut metrics);
    let msg = data.next_notification().unwrap();
    assert_eq!(msg.method_str(), Some("c"));
}

#[test]
fn notification_buffer_cap_discards_oldest() {
    let mut data = SessionData::new();
    let mut metrics = Metrics::new();

    // Fill buffer beyond cap
    for i in 0..INIT_NOTIFICATION_BUFFER_CAP + 5 {
        data.route_notification(make_notification(&format!("n{i}")), &mut metrics);
    }

    data.mark_init_done(&mut metrics);
    let mut buf = Vec::new();
    while let Some(msg) = data.next_notification() {
        buf.push(msg);
    }
    assert_eq!(buf.len(), INIT_NOTIFICATION_BUFFER_CAP);
    // Oldest should have been discarded, newest should be present
    assert_eq!(buf[0].method_str(), Some("n5"));
    let last = &buf[INIT_NOTIFICATION_BUFFER_CAP - 1];
    let expected_method = format!("n{}", INIT_NOTIFICATION_BUFFER_CAP + 4);
    assert_eq!(last.method_str(), Some(expected_method.as_str()));
}

#[test]
fn sse_stream_single_claim() {
    let mut data = SessionData::new();

    // First claim succeeds
    assert!(data.claim_stream());

    // Second claim fails
    assert!(!data.claim_stream());
}

#[test]
fn take_notification_rx_only_once() {
    let mut data = SessionData::new();

    assert!(data.claim_stream());
    assert!(!data.claim_stream());
}

#[test]
fn fail_pending_sends_errors() {
    let mut data = SessionData::new();

    let ticket1 = data.register_pending(&vec!["1".to_string()]);
    let ticket2 = data.register_pending(&vec!["\"abc\"".to_string()]);

    data.child_closed();

    let err1 = take(&mut data, &ticket1);
    assert!(err1.is_response());
    assert!(err1.error.is_some());

    let err2 = take(&mut data, &ticket2);
    assert!(err2.is_response());
    assert!(err2.error.is_some());

    // Nothing is pending any more
    assert!(!data.route_response(make_response("1")));
    assert!(!data.route_response(make_response("\"abc\"")));
}

#[test]
fn gateway_response_from_error() {
    let err = GatewayError::payload_too_large();
    let resp = GatewayResponse::from_error(&err);
    assert_eq!(resp.status, 413);
    assert_eq!(String::from_utf8_lossy(&resp.body), "payload too large");
}

#[test]
fn gateway_response_sse() {
    let resp = GatewayResponse::sse(200, "event: message\ndata: {}\n\n");
    assert_eq!(resp.status, 200);
    let ct = resp.headers.iter().find(|(k, _)| k == "content-type");
    assert_eq!(ct.unwrap().1, "text/event-stream");
}

#[test]
fn stateful_http_post_wrong_content_type_returns_415() {
    let mut gw = make_test_gateway();
    let req = make_gateway_request(
        "POST",
        "/mcp",
        "{}",
        vec![
            ("content-type", "text/plain"),
            ("accept", "application/json, text/event-stream"),
        ],
    );
    let resp = request(&mut gw, &req);
    assert_eq!(resp.status, 415);
}

#[test]
fn stateful_http_post_missing_accept_returns_406() {
    let mut gw = make_test_gateway();
    let req = make_gateway_request(
        "POST",
        "/mcp",
        "{}",
        vec![("content-type", "application/json")],
    );
    let resp = request(&mut gw, &req);
    assert_eq!(resp.status, 406);
}

#[test]
fn stateful_http_post_body_too_large_returns_413() {
    let mut gw = make_test_gateway();
    let big_body = "x".repeat(MAX_BODY_SIZE + 1);
    let req = make_gateway_request(
        "POST",
        "/mcp",
        &big_body,
        vec![
            ("content-type", "application/json"),
            ("accept", "application/json, text/event-stream"),
        ],
    );
    let resp = request(&mut gw, &req);
    assert_eq!(resp.status, 413);
}

#[test]
fn stateful_http_post_malformed_json_returns_400() {
    let mut gw = make_test_gateway();
    let req = make_gateway_request(
        "POST",
        "/mcp",
        "not json",
        vec![
            ("content-type", "application/json"),
            ("accept", "application/json, text/event-stream"),
        ],
    );
    let resp = request(&mut gw, &req);
    assert_eq!(resp.status, 400);
}

#[test]
fn post_non_init_without_session_id_returns_400() {
    let mut gw = make_test_gateway();
    let body = r#"{"jsonrpc":"2.0","id":1,"method":"tools/list"}"#;
    let req = make_gateway_request(
        "POST",
        "/mcp",
        body,
        vec![
            ("content-type", "application/json"),
            ("accept", "application/json, text/event-stream"),
        ],
    );
    let resp = request(&mut gw, &req);
    assert_eq!(resp.status, 400);
}

#[test]
fn post_with_invalid_session_returns_404() {
    let mut gw = make_test_gateway();
    let body = r#"{"jsonrpc":"2.0","id":1,"method":"tools/list"}"#;
    let req = make_gateway_request(
        "POST",
        "/mcp",
        body,
        vec![
            ("content-type", "application/json"),
            ("accept", "application/json, text/event-stream"),
            ("mcp-session-id", "nonexistent-session"),
        ],
    );
    let resp = request(&mut gw, &req);
    assert_eq!(resp.status, 404);
}

#[test]
fn get_missing_accept_returns_406() {
    let mut gw = make_test_gateway();
    let req = make_gateway_request("GET", "/mcp", "", vec![]);
    let resp = request(&mut gw, &req);
    assert_eq!(resp.status, 406);
}

#[test]
fn get_missing_session_id_returns_400() {
    let mut gw = make_test_gateway();
    let req = make_gateway_request(
        "GET",
        "/mcp",
        "",
        vec![("accept", "text/event-stream")],
    );
    let resp = request(&mut gw, &req);
    assert_eq!(resp.status, 400);
}

#[test]
fn get_invalid_session_returns_404() {
    let mut gw = make_test_gateway();
    let req = make_gateway_request(
        "GET",
        "/mcp",
        "",
        vec![
            ("accept", "text/event-stream"),
            ("mcp-session-id", "nonexistent"),
        ],
    );
    let resp = request(&mut gw, &req);
    assert_eq!(resp.status, 404);
}

#[test]
fn delete_missing_session_id_returns_400() {
    let mut gw = make_test_gateway();
    let req = make_gateway_request("DELETE", "/mcp", "", vec![]);
    let resp = request(&mut gw, &req);
    assert_eq!(resp.status, 400);
}

#[test]
fn delete_invalid_session_returns_404() {
    let mut gw = make_test_gateway();
    let req = make_gateway_request(
        "DELETE",
        "/mcp",
        "",
        vec![("mcp-session-id", "nonexistent")],
    );
    let resp = request(&mut gw, &req);
    assert_eq!(resp.status, 404);
}

#[test]
fn put_returns_405_json_rpc() {
    let mut gw = make_test_gateway();
    let req = make_gateway_request("PUT", "/mcp", "", vec![]);
    let resp = request(&mut gw, &req);
    assert_eq!(resp.status, 405);
    let body = String::from_utf8_lossy(&resp.body);
    let parsed: serde_json::Value = serde_json::from_str(&body).unwrap();
    assert_eq!(parsed["error"]["code"], -32000);
}

#[test]
fn stateful_http_health_endpoint_returns_503_before_ready() {
    let mut gw = make_test_gateway();
    let req = make_gateway_request("GET", "/healthz", "", vec![]);
    let resp = request(&mut gw, &req);
    assert_eq!(resp.status, 503);
}

#[test]
fn stateful_http_health_endpoint_returns_200_when_ready() {
    let mut gw = make_test_gateway();
    gw.metrics.set_ready();
    let req = make_gateway_request("GET", "/healthz", "", vec![]);
    let resp = request(&mut gw, &req);
    assert_eq!(resp.status, 200);
    assert_eq!(String::from_utf8_lossy(&resp.body), "ok");
}

#[test]
fn stateful_http_options_preflight_returns_204() {
    let mut gw = make_test_gateway_with_cors();
    let req = make_gateway_request(
        "OPTIONS",
        "/mcp",
        "",
        vec![("origin", "https://example.com")],
    );
    let resp = request(&mut gw, &req);
    assert_eq!(resp.status, 204);
    let acao = resp
        .headers
        .iter()
        .find(|(k, _)| k == "Access-Control-Allow-Origin");
    assert!(acao.is_some());
}

#[test]
fn cors_exposes_session_header() {
    let mut gw = make_test_gateway_with_cors();
    let req = make_gateway_request(
        "DELETE",
        "/mcp",
        "",
        vec![
            ("origin", "https://example.com"),
            ("mcp-session-id", "test"),
        ],
    );
    let resp = request(&mut gw, &req);
    let expose = resp
        .headers
        .iter()
        .find(|(k, _)| k == "Access-Control-Expose-Headers");
    assert!(expose.is_some());
    assert!(expose.unwrap().1.contains("Mcp-Session-Id"));
}

#[test]
fn stateful_http_unknown_path_returns_404() {
    let mut gw = make_test_gateway();
    let req = make_gateway_request("GET", "/unknown", "", vec![]);
    let resp = request(&mut gw, &req);
    assert_eq!(resp.status, 404);
}

#[test]
fn post_initialize_creates_session() {
    let mut gw = make_test_gateway();
    let init_body = r#"{"jsonrpc":"2.0","id":0,"method":"initialize","params":{"capabilities":{}}}"#;
    let req = make_gateway_request(
        "POST",
        "/mcp",
        init_body,
        vec![
            ("content-type", "application/json"),
            ("accept", "application/json, text/event-stream"),
        ],
    );
    let resp = request(&mut gw, &req);

    // The child never answers: the session is there all the same
    let session_header = resp
        .headers
        .iter()
        .find(|(k, _)| k == "Mcp-Session-Id");
    if session_header.is_some() {
        // Verify session exists
        assert!(gw.sessions.len() > 0);
    }
}

#[test]
fn stateful_http_post_notification_returns_202() {
    let mut gw = make_test_gateway();

    // First create a session via initialize
    let sid = create_test_session(&mut gw);

    // Send a notification to the session
    let notif_body = r#"{"jsonrpc":"2.0","method":"notifications/initialized"}"#;
    let req = make_gateway_request(
        "POST",
        "/mcp",
        notif_body,
        vec![
            ("content-type", "application/json"),
            ("accept", "application/json, text/event-stream"),
            ("mcp-session-id", sid.as_str()),
        ],
    );
    let resp = request(&mut gw, &req);
    assert_eq!(resp.status, 202);
}

#[test]
fn delete_session_returns_200() {
    let mut gw = make_test_gateway();
    let sid = create_test_session(&mut gw);

    let req = make_gateway_request(
        "DELETE",
        "/mcp",
        "",
        vec![("mcp-session-id", sid.as_str())],
    );
    let resp = request(&mut gw, &req);
    assert_eq!(resp.status, 200);
}

#[test]
fn delete_idempotent() {
    let mut gw = make_test_gateway();
    let sid = create_test_session(&mut gw);

    // First DELETE
    let req = make_gateway_request(
        "DELETE",
        "/mcp",
        "",
        vec![("mcp-session-id", sid.as_str())],
    );
    let resp1 = request(&mut gw, &req);
    assert_eq!(resp1.status, 200);

    // Second DELETE (idempotent)
    let resp2 = request(&mut gw, &req);
    assert_eq!(resp2.status, 200);
}

#[test]
fn post_to_closing_session_returns_503() {
    let mut gw = make_test_gateway();
    let sid = create_test_session(&mut gw);

    // DELETE to start closing
    let del_req = make_gateway_request(
        "DELETE",
        "/mcp",
        "",
        vec![("mcp-session-id", sid.as_str())],
    );
    request(&mut gw, &del_req);

    // POST to closing session
    let body = r#"{"jsonrpc":"2.0","id":1,"method":"tools/list"}"#;
    let req = make_gateway_request(
        "POST",
        "/mcp",
        body,
        vec![
            ("content-type", "application/json"),
            ("accept", "application/json, text/event-stream"),
            ("mcp-session-id", sid.as_str()),
        ],
    );
    let resp = request(&mut gw, &req);
    assert_eq!(resp.status, 503);
}

#[test]
fn max_sessions_returns_503() {
    // Create gateway with max 2 sessions
    let mut gw = make_test_gateway_max_sessions(2);

    let _s1 = create_test_session(&mut gw);
    let _s2 = create_test_session(&mut gw);

    // Third should fail
    let init_body = r#"{"jsonrpc":"2.0","id":0,"method":"initialize","params":{}}"#;
    let req = make_gateway_request(
        "POST",
        "/mcp",
        init_body,
        vec![
            ("content-type", "application/json"),
            ("accept", "application/json, text/event-stream"),
        ],
    );
    let resp = request(&mut gw, &req);
    assert_eq!(resp.status, 503);
}
