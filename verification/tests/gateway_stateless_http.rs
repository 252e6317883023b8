//! A server on stdio, clients over HTTP without sessions.

use supergateway::child::ChildError;
use supergateway::cli::{CorsConfig, LogLevel};
use supergateway::cors::CorsHandler;
use supergateway::gateway::exchange::format_sse_event;
use supergateway::gateway::reply::Setup;
use supergateway::gateway::sse_to_stdio::{
    build_fallback_init, build_initialized_notification, generate_init_id,
};
use supergateway::gateway::stateful_http::{GatewayRequest, GatewayResponse};
use supergateway::gateway::stateless_http::{
    convert_h1_request, Conversation, Outcome, ReadEvent, StatelessHttpGateway, Step,
    MAX_BODY_SIZE, MAX_CONCURRENT_REQUESTS,
};
use supergateway::h1::H1Request;
use supergateway::json::RawValue;
use supergateway::jsonrpc::{Parsed, RawMessage};
use supergateway::observe::Metrics;

fn raw(s: &str) -> RawValue {
    RawValue::from_string(s.into()).unwrap()
}

fn make_gateway_request(
    method: &str,
    path: &str,
    body: &str,
    headers: Vec<(&str, &str)>,
) -> GatewayRequest {
    GatewayRequest {
        method: method.to_string(),
        path: path.to_string(),
        headers: headers
            .iter()
            .map(|(k, v)| (k.to_string(), v.to_string()))
            .collect(),
        body: body.as_bytes().to_vec(),
        query: Vec::new(),
    }
}

fn gateway(cors: CorsConfig) -> StatelessHttpGateway {
    let setup = Setup {
        cors: CorsHandler::new(cors, false),
        custom_headers: vec![],
        log_level: LogLevel::Debug,
        health_endpoints: vec!["/healthz".into()],
    };
    StatelessHttpGateway::new("/mcp".into(), setup, "2024-11-05".into(), Metrics::new())
}

fn make_test_gateway() -> StatelessHttpGateway {
    gateway(CorsConfig::Disabled)
}

fn make_test_gateway_with_cors() -> StatelessHttpGateway {
    gateway(CorsConfig::Wildcard)
}

fn post_headers() -> Vec<(&'static str, &'static str)> {
    vec![
        ("content-type", "application/json"),
        ("accept", "application/json, text/event-stream"),
    ]
}

#[derive(Clone, Copy, PartialEq)]
enum Child {
    /// Answers `initialize` with capabilities and every other request with a tool result.
    Mock,
    /// Takes everything and never answers.
    Silent,
    /// Has exited.
    Dead,
}

fn mock_answer(msg: &RawMessage) -> Option<RawMessage> {
    let id = msg.id.clone()?;
    let result = if msg.is_initialize_request() {
        r#"{"protocolVersion":"2024-11-05","capabilities":{}}"#
    } else {
        r#"{"content":[{"type":"text","text":"ok"}]}"#
    };
    Some(RawMessage {
        jsonrpc: "2.0".into(),
        id: Some(id),
        method: None,
        params: None,
        result: Some(raw(result)),
        error: None,
        ..Default::default()
    })
}

/// Carries a request out with a child of the kind.
fn request(gw: &mut StatelessHttpGateway, req: &GatewayRequest, child: Child) -> GatewayResponse {
    let call = match gw.handle_request(req) {
        Outcome::Respond(r) => return r,
        Outcome::Spawn(call) => call,
    };
    let mut answers: Vec<RawMessage> = Vec::new();
    let mut now: u64 = 0;
    let (mut talk, mut step) = Conversation::begin(call.messages, gw.protocol_version.as_str());
    loop {
        step = match step {
            Step::Write(messages) => {
                if child == Child::Dead {
                    talk.written(Err(ChildError::BrokenPipe), now)
                } else {
                    if child == Child::Mock {
                        answers.extend(messages.iter().filter_map(mock_answer));
                    }
                    talk.written(Ok(()), now)
                }
            }
            Step::Read(timeout) => {
                if answers.is_empty() {
                    now += timeout;
                    talk.read(ReadEvent::TimedOut, now, false)
                } else {
                    talk.read(ReadEvent::Parsed(Parsed::Single(answers.remove(0))), now, false)
                }
            }
            Step::Done(resp) => return gw.complete(&call.cors, resp),
        };
    }
}

#[test]
fn stateless_http_sse_event_format() {
    let msg = RawMessage {
        jsonrpc: "2.0".into(),
        id: Some(raw("1")),
        method: None,
        params: None,
        result: Some(raw(r#"{"ok":true}"#)),
        error: None,
        ..Default::default()
    };
    let event = format_sse_event(&msg);
    assert!(event.starts_with("event: message\ndata: "));
    assert!(event.ends_with("\n\n"));
    assert!(event.contains("\"jsonrpc\":\"2.0\""));
}

#[test]
fn get_returns_405() {
    let mut gw = make_test_gateway();
    let req = make_gateway_request("GET", "/mcp", "", vec![]);
    let resp = request(&mut gw, &req, Child::Mock);
    assert_eq!(resp.status, 405);
    let ct = resp
        .headers
        .iter()
        .find(|(k, _)| k.eq_ignore_ascii_case("content-type"));
    assert!(ct.is_none(), "405 should have no Content-Type");
    // Body is JSON-RPC error
    let body = String::from_utf8_lossy(&resp.body);
    let parsed: serde_json::Value = serde_json::from_str(&body).unwrap();
    assert_eq!(parsed["error"]["code"], -32000);
    assert_eq!(parsed["error"]["message"], "Method not allowed.");
    assert!(parsed["id"].is_null());
}

#[test]
fn delete_returns_405() {
    let mut gw = make_test_gateway();
    let req = make_gateway_request("DELETE", "/mcp", "", vec![]);
    let resp = request(&mut gw, &req, Child::Mock);
    assert_eq!(resp.status, 405);
}

#[test]
fn put_returns_405() {
    let mut gw = make_test_gateway();
    let req = make_gateway_request("PUT", "/mcp", "", vec![]);
    let resp = request(&mut gw, &req, Child::Mock);
    assert_eq!(resp.status, 405);
}

#[test]
fn stateless_http_post_wrong_content_type_returns_415() {
    let mut gw = make_test_gateway();
    let req = make_gateway_request(
        "POST",
        "/mcp",
        "{}",
        vec![
            ("content-type", "text/plain"),
            ("accept", "application/json, text/event-stream"),
        ],
    );
    let resp = request(&mut gw, &req, Child::Mock);
    assert_eq!(resp.status, 415);
}

#[test]
fn stateless_http_post_missing_accept_returns_406() {
    let mut gw = make_test_gateway();
    let req = make_gateway_request(
        "POST",
        "/mcp",
        "{}",
        vec![("content-type", "application/json")],
    );
    let resp = request(&mut gw, &req, Child::Mock);
    assert_eq!(resp.status, 406);
}

#[test]
fn stateless_http_post_body_too_large_returns_413() {
    let mut gw = make_test_gateway();
    let big_body = "x".repeat(MAX_BODY_SIZE + 1);
    let req = make_gateway_request("POST", "/mcp", &big_body, post_headers());
    let resp = request(&mut gw, &req, Child::Mock);
    assert_eq!(resp.status, 413);
}

#[test]
fn stateless_http_post_malformed_json_returns_400() {
    let mut gw = make_test_gateway();
    let req = make_gateway_request("POST", "/mcp", "not json", post_headers());
    let resp = request(&mut gw, &req, Child::Mock);
    assert_eq!(resp.status, 400);
}

#[test]
fn generate_init_id_format() {
    let id = generate_init_id();
    assert!(id.starts_with("init_"));
    let parts: Vec<&str> = id.split('_').collect();
    assert_eq!(parts.len(), 3);
    assert_eq!(parts[0], "init");
    // Timestamp (digits)
    assert!(parts[1].chars().all(|c| c.is_ascii_digit()));
    // 9 base-36 chars
    assert_eq!(parts[2].len(), 9);
    assert!(parts[2]
        .chars()
        .all(|c| c.is_ascii_lowercase() || c.is_ascii_digit()));
}

#[test]
fn generate_init_id_unique() {
    let id1 = generate_init_id();
    let id2 = generate_init_id();
    assert_ne!(id1, id2);
}

#[test]
fn synthetic_init_has_correct_shape() {
    let msg = build_fallback_init("init_123_abc", "2024-11-05");
    assert!(msg.is_initialize_request());
    assert_eq!(msg.id.as_ref().unwrap().get(), r#""init_123_abc""#);
    let params_str = msg.params.as_ref().unwrap().get();
    let params: serde_json::Value = serde_json::from_str(params_str).unwrap();
    assert_eq!(params["protocolVersion"], "2024-11-05");
    assert_eq!(params["capabilities"]["roots"]["listChanged"], true);
    assert!(params["capabilities"]["sampling"].is_object());
    assert_eq!(params["clientInfo"]["name"], "supergateway");
}

#[test]
fn initialized_notification_shape() {
    let msg = build_initialized_notification();
    assert!(msg.is_notification());
    assert_eq!(msg.method_str(), Some("notifications/initialized"));
    assert!(msg.id.is_none());
    assert!(msg.params.is_none());
}

#[test]
fn request_permit_increments_and_decrements() {
    let mut gw = make_test_gateway();
    let body = r#"{"jsonrpc":"2.0","id":1,"method":"test"}"#;
    let req = make_gateway_request("POST", "/mcp", body, post_headers());
    let call = match gw.handle_request(&req) {
        Outcome::Spawn(call) => call,
        Outcome::Respond(_) => panic!("expected a child"),
    };
    assert_eq!(gw.active_requests, 1);
    gw.complete(&call.cors, GatewayResponse::accepted());
    assert_eq!(gw.active_requests, 0);
}

#[test]
fn max_concurrent_requests_returns_503() {
    let mut gw = make_test_gateway();
    gw.active_requests = MAX_CONCURRENT_REQUESTS;
    let body = r#"{"jsonrpc":"2.0","id":1,"method":"test"}"#;
    let req = make_gateway_request("POST", "/mcp", body, post_headers());
    let resp = request(&mut gw, &req, Child::Mock);
    assert_eq!(resp.status, 503);
}

#[test]
fn stateless_http_health_endpoint_returns_503_before_ready() {
    let mut gw = make_test_gateway();
    let req = make_gateway_request("GET", "/healthz", "", vec![]);
    let resp = request(&mut gw, &req, Child::Mock);
    assert_eq!(resp.status, 503);
}

#[test]
fn stateless_http_health_endpoint_returns_200_when_ready() {
    let mut gw = make_test_gateway();
    gw.metrics.set_ready();
    let req = make_gateway_request("GET", "/healthz", "", vec![]);
    let resp = request(&mut gw, &req, Child::Mock);
    assert_eq!(resp.status, 200);
    assert_eq!(String::from_utf8_lossy(&resp.body), "ok");
}

#[test]
fn stateless_http_options_preflight_returns_204() {
    let mut gw = make_test_gateway_with_cors();
    let req = make_gateway_request(
        "OPTIONS",
        "/mcp",
        "",
        vec![("origin", "https://example.com")],
    );
    let resp = request(&mut gw, &req, Child::Mock);
    assert_eq!(resp.status, 204);
    let acao = resp
        .headers
        .iter()
        .find(|(k, _)| k == "Access-Control-Allow-Origin");
    assert!(acao.is_some());
}

#[test]
fn cors_no_session_header_exposed() {
    let mut gw = make_test_gateway_with_cors();
    let req = make_gateway_request(
        "GET",
        "/mcp",
        "",
        vec![("origin", "https://example.com")],
    );
    let resp = request(&mut gw, &req, Child::Mock);
    let expose = resp
        .headers
        .iter()
        .find(|(k, _)| k == "Access-Control-Expose-Headers");
    assert!(
        expose.is_none(),
        "stateless mode should not expose Mcp-Session-Id"
    );
}

#[test]
fn stateless_http_unknown_path_returns_404() {
    let mut gw = make_test_gateway();
    let req = make_gateway_request("GET", "/unknown", "", vec![]);
    let resp = request(&mut gw, &req, Child::Mock);
    assert_eq!(resp.status, 404);
}

#[test]
fn no_session_id_in_405() {
    let mut gw = make_test_gateway();
    let req = make_gateway_request("GET", "/mcp", "", vec![]);
    let resp = request(&mut gw, &req, Child::Mock);
    let sid = resp
        .headers
        .iter()
        .find(|(k, _)| k == "Mcp-Session-Id");
    assert!(sid.is_none());
}

#[test]
fn post_initialize_passthrough() {
    let mut gw = make_test_gateway();

    let body =
        r#"{"jsonrpc":"2.0","id":0,"method":"initialize","params":{"capabilities":{}}}"#;
    let req = make_gateway_request("POST", "/mcp", body, post_headers());
    let resp = request(&mut gw, &req, Child::Mock);

    assert_eq!(resp.status, 200);
    let ct = resp
        .headers
        .iter()
        .find(|(k, _)| k == "content-type");
    assert_eq!(ct.unwrap().1, "text/event-stream");
    // No Mcp-Session-Id
    let sid = resp
        .headers
        .iter()
        .find(|(k, _)| k == "Mcp-Session-Id");
    assert!(sid.is_none());
    // Body contains init response
    let body_str = String::from_utf8_lossy(&resp.body);
    assert!(body_str.contains("protocolVersion"));
}

#[test]
fn post_auto_init_tool_call() {
    let mut gw = make_test_gateway();

    let body = r#"{"jsonrpc":"2.0","id":1,"method":"tools/call","params":{"name":"echo","arguments":{"text":"hello"}}}"#;
    let req = make_gateway_request("POST", "/mcp", body, post_headers());
    let resp = request(&mut gw, &req, Child::Mock);

    assert_eq!(resp.status, 200);
    let body_str = String::from_utf8_lossy(&resp.body);
    // Should contain the tool response (not the init response)
    assert!(body_str.contains("\"ok\"") || body_str.contains("\"result\""));
}

#[test]
fn stateless_http_post_notification_returns_202() {
    let mut gw = make_test_gateway();

    let body = r#"{"jsonrpc":"2.0","method":"notifications/progress","params":{"token":"x"}}"#;
    let req = make_gateway_request("POST", "/mcp", body, post_headers());
    let resp = request(&mut gw, &req, Child::Mock);

    assert_eq!(resp.status, 202);
}

#[test]
fn auto_init_timeout_returns_502() {
    // Child never responds → auto-init times out after 5s
    let mut gw = make_test_gateway();

    let body = r#"{"jsonrpc":"2.0","id":1,"method":"tools/list"}"#;
    let req = make_gateway_request("POST", "/mcp", body, post_headers());
    let resp = request(&mut gw, &req, Child::Silent);

    assert_eq!(resp.status, 502);
    let body_str = String::from_utf8_lossy(&resp.body);
    let parsed: serde_json::Value = serde_json::from_str(&body_str).unwrap();
    assert_eq!(parsed["error"]["code"], -32603);
}

#[test]
fn post_batch_request() {
    let mut gw = make_test_gateway();

    let body = r#"[{"jsonrpc":"2.0","id":1,"method":"tools/call","params":{}},{"jsonrpc":"2.0","id":2,"method":"tools/call","params":{}}]"#;
    let req = make_gateway_request("POST", "/mcp", body, post_headers());
    let resp = request(&mut gw, &req, Child::Mock);

    assert_eq!(resp.status, 200);
    let body_str = String::from_utf8_lossy(&resp.body);
    // Should contain two SSE events (one per request)
    let event_count = body_str.matches("event: message").count();
    assert_eq!(event_count, 2, "expected 2 SSE events, body: {body_str}");
}

#[test]
fn child_death_returns_502() {
    let mut gw = make_test_gateway();

    let body = r#"{"jsonrpc":"2.0","id":1,"method":"tools/list"}"#;
    let req = make_gateway_request("POST", "/mcp", body, post_headers());
    let resp = request(&mut gw, &req, Child::Dead);

    // Child dies during auto-init → either 502 (ChildDead) or 502 (AutoInitTimeout)
    assert!(
        resp.status == 502 || resp.status == 500,
        "expected 502 or 500, got {}",
        resp.status
    );
}

#[test]
fn request_is_taken_off_the_server() {
    let pair = |k: &str, v: &str| (k.to_string(), v.to_string());
    let req = convert_h1_request(H1Request {
        method: "POST".into(),
        uri: "/mcp?a=1&&b&a=2=3".into(),
        headers: vec![pair("Accept", "x"), pair("X-A", "1"), pair("Accept", "y")],
        body: vec![1, 2],
    });
    assert_eq!(req.method, "POST");
    assert_eq!(req.path, "/mcp");
    assert_eq!(req.headers, [pair("Accept", "y"), pair("X-A", "1")]);
    assert_eq!(req.header("accept"), Some("y"));
    assert_eq!(req.query, [pair("a", "2=3"), pair("b", "")]);
    assert_eq!(req.body, [1, 2]);
}
