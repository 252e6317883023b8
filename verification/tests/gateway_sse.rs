//! A server on stdio, clients over SSE.

use supergateway::cli::{CorsConfig, Header, LogLevel};
use supergateway::cors::CorsHandler;
use supergateway::gateway::hub::Received;
use supergateway::gateway::reply::{GatewayResponse, Setup};
use supergateway::gateway::sse::{SseEvent, SseGateway, MAX_BODY_SIZE};
use supergateway::jsonrpc::{parse_line, Parsed};
use supergateway::observe::Metrics;
use supergateway::session::SessionId;

fn gateway(base_url: &str, cors: CorsConfig, custom: Vec<Header>, health: Vec<String>) -> SseGateway {
    let setup = Setup {
        cors: CorsHandler::new(cors, false),
        custom_headers: custom,
        log_level: LogLevel::Debug,
        health_endpoints: health,
    };
    SseGateway::new(base_url.to_string(), "/message".to_string(), setup, Metrics::new())
}

fn make_gateway() -> SseGateway {
    gateway("", CorsConfig::Disabled, vec![], vec!["/health".to_string()])
}

/// Posts to a child that echoes its input as long as it is alive.
fn post(
    gw: &mut SseGateway,
    alive: bool,
    param: Option<&str>,
    body: &[u8],
    origin: Option<&str>,
) -> GatewayResponse {
    match gw.handle_message(param, body, origin) {
        Ok(messages) => {
            if alive {
                for msg in messages {
                    gw.relay(Parsed::Single(msg));
                }
            }
            gw.message_answer(alive, origin)
        }
        Err(resp) => resp,
    }
}

fn take(gw: &mut SseGateway, id: &SessionId) -> SseEvent {
    match gw.next_event(id) {
        Received::Event(e) => e,
        _ => panic!("expected an event"),
    }
}

#[test]
fn event_serialize_endpoint() {
    let e = SseEvent::Endpoint("http://localhost:8000/message?sessionId=abc".into());
    assert_eq!(
        e.serialize(),
        "event: endpoint\ndata: http://localhost:8000/message?sessionId=abc\n\n"
    );
}

#[test]
fn event_serialize_message() {
    let e = SseEvent::Message(r#"{"jsonrpc":"2.0","id":1,"result":"ok"}"#.into());
    assert_eq!(
        e.serialize(),
        "event: message\ndata: {\"jsonrpc\":\"2.0\",\"id\":1,\"result\":\"ok\"}\n\n"
    );
}

#[test]
fn event_serialize_keepalive() {
    assert_eq!(SseEvent::Keepalive.serialize(), ": keepalive\n\n");
}

#[test]
fn connect_returns_endpoint_event() {
    let mut gw = make_gateway();
    let conn = gw.handle_sse_connect(None);

    // First event should be endpoint
    let first = take(&mut gw, &conn.session_id);
    match first {
        SseEvent::Endpoint(url) => {
            assert!(url.starts_with("/message?sessionId="));
            assert!(url.contains(conn.session_id.as_str()));
        }
        other => panic!("expected Endpoint, got {other:?}"),
    }

    assert_eq!(gw.client_count(), 1);
}

#[test]
fn connect_with_base_url() {
    let mut gw = gateway("http://example.com", CorsConfig::Disabled, vec![], vec![]);

    let conn = gw.handle_sse_connect(None);
    let first = take(&mut gw, &conn.session_id);
    match first {
        SseEvent::Endpoint(url) => {
            assert!(url.starts_with("http://example.com/message?sessionId="));
        }
        other => panic!("expected Endpoint, got {other:?}"),
    }
}

#[test]
fn connect_sse_response_headers() {
    let mut gw = make_gateway();
    let conn = gw.handle_sse_connect(None);

    let find = |name: &str| -> Option<String> {
        conn.headers
            .iter()
            .find(|(n, _)| n.eq_ignore_ascii_case(name))
            .map(|(_, v)| v.clone())
    };

    assert_eq!(find("Content-Type").as_deref(), Some("text/event-stream"));
    assert_eq!(find("Cache-Control").as_deref(), Some("no-cache"));
    assert_eq!(find("Connection").as_deref(), Some("keep-alive"));
    assert_eq!(find("X-Accel-Buffering").as_deref(), Some("no"));
}

#[test]
fn sse_disconnect_removes_client() {
    let mut gw = make_gateway();
    let conn = gw.handle_sse_connect(None);
    assert_eq!(gw.client_count(), 1);

    gw.disconnect_client(&conn.session_id);
    assert_eq!(gw.client_count(), 0);
}

#[test]
fn sse_disconnect_idempotent() {
    let mut gw = make_gateway();
    let conn = gw.handle_sse_connect(None);

    gw.disconnect_client(&conn.session_id);
    gw.disconnect_client(&conn.session_id); // no panic
    assert_eq!(gw.client_count(), 0);
}

#[test]
fn message_missing_session_id() {
    let mut gw = make_gateway();
    let resp = post(&mut gw, true, None, b"body", None);
    assert_eq!(resp.status, 400);
    assert_eq!(resp.body, "Missing sessionId parameter");
}

#[test]
fn message_empty_session_id() {
    let mut gw = make_gateway();
    let resp = post(&mut gw, true, Some(""), b"body", None);
    assert_eq!(resp.status, 400);
    assert_eq!(resp.body, "Missing sessionId parameter");
}

#[test]
fn message_unknown_session_id() {
    let mut gw = make_gateway();
    let resp = post(&mut gw, true, Some("nonexistent-id"), b"body", None);
    assert_eq!(resp.status, 503);
    assert!(resp.body.contains("No active SSE connection for session"));
    assert!(resp.body.contains("nonexistent-id"));
}

#[test]
fn message_empty_body() {
    let mut gw = make_gateway();
    let conn = gw.handle_sse_connect(None);
    let resp = post(&mut gw, true, Some(conn.session_id.as_str()), b"", None);
    assert_eq!(resp.status, 400);
    assert_eq!(resp.body, "Empty body");
}

#[test]
fn message_too_large() {
    let mut gw = make_gateway();
    let conn = gw.handle_sse_connect(None);
    let big_body = vec![b'{'; MAX_BODY_SIZE + 1];
    let resp = post(&mut gw, true, Some(conn.session_id.as_str()), &big_body, None);
    assert_eq!(resp.status, 413);
}

#[test]
fn message_malformed_json() {
    let mut gw = make_gateway();
    let conn = gw.handle_sse_connect(None);
    let resp = post(&mut gw, true, Some(conn.session_id.as_str()), b"not json!", None);
    assert_eq!(resp.status, 400);
}

#[test]
fn message_invalid_utf8() {
    let mut gw = make_gateway();
    let conn = gw.handle_sse_connect(None);
    let resp = post(&mut gw, true, Some(conn.session_id.as_str()), &[0xFF, 0xFE], None);
    assert_eq!(resp.status, 400);
    assert_eq!(resp.body, "Invalid UTF-8");
}

#[test]
fn message_valid_returns_202() {
    let mut gw = make_gateway();
    let conn = gw.handle_sse_connect(None);
    let body = br#"{"jsonrpc":"2.0","id":1,"method":"ping"}"#;
    let resp = post(&mut gw, true, Some(conn.session_id.as_str()), body, None);
    assert_eq!(resp.status, 202);
    assert_eq!(resp.body, "Accepted");
}

#[test]
fn message_batch_valid() {
    let mut gw = make_gateway();
    let conn = gw.handle_sse_connect(None);
    let body = br#"[{"jsonrpc":"2.0","id":1,"method":"a"},{"jsonrpc":"2.0","method":"b"}]"#;
    let resp = post(&mut gw, true, Some(conn.session_id.as_str()), body, None);
    assert_eq!(resp.status, 202);
}

#[test]
fn relay_roundtrip() {
    let mut gw = make_gateway();
    let conn = gw.handle_sse_connect(None);

    // Consume endpoint event
    let _ = take(&mut gw, &conn.session_id);

    // POST a message — cat echoes it back
    let body = br#"{"jsonrpc":"2.0","id":1,"method":"ping"}"#;
    let resp = post(&mut gw, true, Some(conn.session_id.as_str()), body, None);
    assert_eq!(resp.status, 202);

    // Receive broadcast
    let msg = take(&mut gw, &conn.session_id);
    match msg {
        SseEvent::Message(json) => {
            let parsed: serde_json::Value = serde_json::from_str(&json).unwrap();
            assert_eq!(parsed["method"], "ping");
        }
        other => panic!("expected Message, got {other:?}"),
    }
}

#[test]
fn sse_early_buffer_drains_to_first_client() {
    let mut gw = make_gateway();

    // Messages that come before anybody is connected
    gw.relay(parse_line(r#"{"jsonrpc":"2.0","method":"notif1"}"#).unwrap());
    gw.relay(parse_line(r#"{"jsonrpc":"2.0","method":"notif2"}"#).unwrap());

    // Connect client — should receive buffered messages
    let conn = gw.handle_sse_connect(None);

    // First: endpoint event
    let first = take(&mut gw, &conn.session_id);
    assert!(matches!(first, SseEvent::Endpoint(_)));

    // Then: buffered messages
    let msg1 = take(&mut gw, &conn.session_id);
    match msg1 {
        SseEvent::Message(json) => assert!(json.contains("notif1")),
        other => panic!("expected Message, got {other:?}"),
    }
    let msg2 = take(&mut gw, &conn.session_id);
    match msg2 {
        SseEvent::Message(json) => assert!(json.contains("notif2")),
        other => panic!("expected Message, got {other:?}"),
    }

    // Nothing is buffered from now on
    gw.disconnect_client(&conn.session_id);
    gw.relay(parse_line(r#"{"jsonrpc":"2.0","method":"notif3"}"#).unwrap());
    let conn2 = gw.handle_sse_connect(None);
    assert!(matches!(take(&mut gw, &conn2.session_id), SseEvent::Endpoint(_)));
    assert!(matches!(gw.next_event(&conn2.session_id), Received::Nothing));
}

#[test]
fn sse_broadcast_to_multiple_clients() {
    let mut gw = make_gateway();

    let conn1 = gw.handle_sse_connect(None);
    let conn2 = gw.handle_sse_connect(None);
    assert_eq!(gw.client_count(), 2);

    // Consume endpoint events
    let _ = take(&mut gw, &conn1.session_id);
    let _ = take(&mut gw, &conn2.session_id);

    // POST a message
    let body = br#"{"jsonrpc":"2.0","id":1,"method":"broadcast_test"}"#;
    let resp = post(&mut gw, true, Some(conn1.session_id.as_str()), body, None);
    assert_eq!(resp.status, 202);

    // Both clients should receive the broadcast
    let msg1 = take(&mut gw, &conn1.session_id);
    let msg2 = take(&mut gw, &conn2.session_id);

    for msg in [&msg1, &msg2] {
        match msg {
            SseEvent::Message(json) => {
                assert!(json.contains("broadcast_test"));
            }
            other => panic!("expected Message, got {other:?}"),
        }
    }
}

#[test]
fn message_to_dead_child() {
    let mut gw = make_gateway();

    let conn = gw.handle_sse_connect(None);
    let body = br#"{"jsonrpc":"2.0","id":1,"method":"ping"}"#;
    let resp = post(&mut gw, false, Some(conn.session_id.as_str()), body, None);
    assert_eq!(resp.status, 502);
}

#[test]
fn sse_health_endpoint_not_ready() {
    let gw = make_gateway();
    let resp = gw.handle_health("/health", false, None);
    assert!(resp.is_some());
    let resp = resp.unwrap();
    assert_eq!(resp.status, 503);
}

#[test]
fn sse_health_endpoint_ready() {
    let mut gw = make_gateway();
    gw.metrics.set_ready();
    let resp = gw.handle_health("/health", false, None).unwrap();
    assert_eq!(resp.status, 200);
    assert_eq!(resp.body, "ok");
}

#[test]
fn sse_health_endpoint_wrong_path() {
    let gw = make_gateway();
    assert!(gw.handle_health("/not-health", false, None).is_none());
}

#[test]
fn cors_headers_on_message() {
    let mut gw = gateway("", CorsConfig::Wildcard, vec![], vec![]);

    let conn = gw.handle_sse_connect(Some("https://example.com"));
    let body = br#"{"jsonrpc":"2.0","id":1,"method":"test"}"#;
    let resp = post(
        &mut gw,
        true,
        Some(conn.session_id.as_str()),
        body,
        Some("https://example.com"),
    );
    assert_eq!(resp.status, 202);

    let has_cors = resp
        .headers
        .iter()
        .any(|(n, v)| n == "Access-Control-Allow-Origin" && v == "*");
    assert!(has_cors, "expected CORS header, got {:?}", resp.headers);
}

#[test]
fn cors_preflight() {
    let gw = gateway("", CorsConfig::Wildcard, vec![], vec![]);

    let resp = gw.handle_options(Some("https://example.com"));
    assert!(resp.is_some());
    let resp = resp.unwrap();
    assert_eq!(resp.status, 204);
}

#[test]
fn cors_disabled_no_options() {
    let gw = make_gateway();
    assert!(gw.handle_options(Some("https://example.com")).is_none());
}

#[test]
fn custom_headers_applied() {
    let custom = vec![Header {
        name: "X-Custom".into(),
        value: "hello".into(),
    }];
    let mut gw = gateway("", CorsConfig::Disabled, custom, vec![]);

    // Check on SSE connect
    let conn = gw.handle_sse_connect(None);
    let has_custom = conn
        .headers
        .iter()
        .any(|(n, v)| n == "X-Custom" && v == "hello");
    assert!(has_custom, "expected X-Custom on SSE, got {:?}", conn.headers);

    // Check on POST
    let body = br#"{"jsonrpc":"2.0","id":1,"method":"test"}"#;
    let resp = post(&mut gw, true, Some(conn.session_id.as_str()), body, None);
    let has_custom = resp
        .headers
        .iter()
        .any(|(n, v)| n == "X-Custom" && v == "hello");
    assert!(has_custom, "expected X-Custom on POST, got {:?}", resp.headers);
}

#[test]
fn sse_metrics_tracked_on_connect_disconnect() {
    let mut gw = gateway("", CorsConfig::Disabled, vec![], vec![]);

    let conn = gw.handle_sse_connect(None);
    assert_eq!(gw.metrics.active_clients, 1);

    gw.disconnect_client(&conn.session_id);
    assert_eq!(gw.metrics.active_clients, 0);
    assert_eq!(gw.metrics.client_disconnects, 1);
}

#[test]
fn metrics_total_requests_on_post() {
    let mut gw = gateway("", CorsConfig::Disabled, vec![], vec![]);

    let conn = gw.handle_sse_connect(None);
    let body = br#"{"jsonrpc":"2.0","id":1,"method":"test"}"#;
    post(&mut gw, true, Some(conn.session_id.as_str()), body, None);
    assert_eq!(gw.metrics.total_requests, 1);

    // Even failed requests count
    post(&mut gw, true, None, b"", None);
    assert_eq!(gw.metrics.total_requests, 2);
}

#[test]
fn sse_rapid_connect_disconnect_no_leaks() {
    let mut gw = make_gateway();
    let mut connections = Vec::new();

    for _ in 0..20 {
        let conn = gw.handle_sse_connect(None);
        connections.push(conn);
    }
    assert_eq!(gw.client_count(), 20);

    for conn in &connections {
        gw.disconnect_client(&conn.session_id);
    }
    assert_eq!(gw.client_count(), 0);
}
