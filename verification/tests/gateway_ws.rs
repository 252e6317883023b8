//! A server on stdio, clients over WebSocket.

use supergateway::cli::{CorsConfig, Header, LogLevel};
use supergateway::cors::CorsHandler;
use supergateway::gateway::hub::Received;
use supergateway::gateway::mux::IdMultiplexer;
use supergateway::gateway::reply::Setup;
use supergateway::gateway::ws::{
    child_lost, WsEvent, WsGateway, WsText, MAX_FRAME_SIZE, MAX_WS_CLIENTS, WS_CLOSE_INTERNAL,
    WS_CLOSE_TOO_LARGE,
};
use supergateway::json::RawValue;
use supergateway::jsonrpc::{parse_line, Parsed};
use supergateway::observe::Metrics;
use supergateway::session::SessionId;

fn gateway(custom: Vec<Header>, health: Vec<String>) -> WsGateway {
    let setup = Setup {
        cors: CorsHandler::new(CorsConfig::Disabled, false),
        custom_headers: custom,
        log_level: LogLevel::Debug,
        health_endpoints: health,
    };
    WsGateway::new(setup, Metrics::new())
}

fn make_gateway() -> WsGateway {
    gateway(vec![], vec!["/health".to_string()])
}

/// Sends a text to a child that echoes its input as long as it is alive.
fn send(gw: &mut WsGateway, alive: bool, id: &SessionId, text: &str) -> Result<(), (u16, String)> {
    if let WsText::Messages(messages) = gw.handle_ws_message(id, text)? {
        for msg in messages {
            let msg = gw.number_message(id, msg);
            if !alive {
                return Err(child_lost());
            }
            gw.relay(Parsed::Single(msg));
        }
    }
    Ok(())
}

fn take(gw: &mut WsGateway, id: &SessionId) -> WsEvent {
    match gw.next_event(id) {
        Received::Event(e) => e,
        _ => panic!("expected an event"),
    }
}

#[test]
fn connect_assigns_unique_client_ids() {
    let mut gw = make_gateway();
    let conn1 = gw.handle_ws_connect().unwrap();
    let conn2 = gw.handle_ws_connect().unwrap();
    assert_ne!(conn1.client_id.as_str(), conn2.client_id.as_str());
    assert_eq!(gw.client_count(), 2);
}

#[test]
fn connect_increments_metrics() {
    let mut gw = make_gateway();
    let _conn = gw.handle_ws_connect().unwrap();
    assert_eq!(gw.metrics.active_clients, 1);
}

#[test]
fn ws_disconnect_removes_client() {
    let mut gw = make_gateway();
    let conn = gw.handle_ws_connect().unwrap();
    assert_eq!(gw.client_count(), 1);

    gw.disconnect_client(&conn.client_id);
    assert_eq!(gw.client_count(), 0);
}

#[test]
fn ws_disconnect_idempotent() {
    let mut gw = make_gateway();
    let conn = gw.handle_ws_connect().unwrap();

    gw.disconnect_client(&conn.client_id);
    gw.disconnect_client(&conn.client_id); // no panic
    assert_eq!(gw.client_count(), 0);
}

#[test]
fn disconnect_cleans_up_mux_entries() {
    let mut gw = make_gateway();
    let conn = gw.handle_ws_connect().unwrap();

    // Simulate a request being mangled
    let raw_id = RawValue::from_string("42".into()).unwrap();
    let mangled = gw.mux.mangle(&conn.client_id, &raw_id);

    gw.disconnect_client(&conn.client_id);
    assert!(gw.mux.unmangle(mangled).is_none());
}

#[test]
fn mux_mangle_unmangle_roundtrip() {
    let mut mux = IdMultiplexer::new();
    let client_id = SessionId::new();
    let original_id = RawValue::from_string("42".into()).unwrap();

    let mangled = mux.mangle(&client_id, &original_id);
    let (cid, oid) = mux.unmangle(mangled).unwrap();
    assert_eq!(cid.as_str(), client_id.as_str());
    assert_eq!(oid.get(), "42");
}

#[test]
fn mux_preserves_string_ids() {
    let mut mux = IdMultiplexer::new();
    let client_id = SessionId::new();
    let original_id = RawValue::from_string(r#""abc-def""#.into()).unwrap();

    let mangled = mux.mangle(&client_id, &original_id);
    let (_, oid) = mux.unmangle(mangled).unwrap();
    assert_eq!(oid.get(), r#""abc-def""#);
}

#[test]
fn mux_preserves_null_id() {
    let mut mux = IdMultiplexer::new();
    let client_id = SessionId::new();
    let original_id = RawValue::from_string("null".into()).unwrap();

    let mangled = mux.mangle(&client_id, &original_id);
    let (_, oid) = mux.unmangle(mangled).unwrap();
    assert_eq!(oid.get(), "null");
}

#[test]
fn mux_ids_with_colon() {
    let mut mux = IdMultiplexer::new();
    let client_id = SessionId::new();
    let original_id = RawValue::from_string(r#""a:b:c""#.into()).unwrap();

    let mangled = mux.mangle(&client_id, &original_id);
    let (_, oid) = mux.unmangle(mangled).unwrap();
    assert_eq!(oid.get(), r#""a:b:c""#);
}

#[test]
fn mux_unique_mangled_ids() {
    let mut mux = IdMultiplexer::new();
    let client_id = SessionId::new();
    let id1 = RawValue::from_string("1".into()).unwrap();
    let id2 = RawValue::from_string("1".into()).unwrap();

    let m1 = mux.mangle(&client_id, &id1);
    let m2 = mux.mangle(&client_id, &id2);
    assert_ne!(m1, m2);
}

#[test]
fn mux_remove_client_cleans_pending() {
    let mut mux = IdMultiplexer::new();
    let client_a = SessionId::new();
    let client_b = SessionId::new();
    let id = RawValue::from_string("1".into()).unwrap();

    let ma = mux.mangle(&client_a, &id);
    let mb = mux.mangle(&client_b, &id);

    mux.remove_client(client_a.as_str());
    // client_a's entries removed, client_b's remain
    assert!(mux.unmangle(ma).is_none());
    assert!(mux.unmangle(mb).is_some());
}

#[test]
fn handle_message_valid_request() {
    let mut gw = make_gateway();
    let conn = gw.handle_ws_connect().unwrap();

    let result = send(
        &mut gw,
        true,
        &conn.client_id,
        r#"{"jsonrpc":"2.0","id":1,"method":"ping"}"#,
    );
    assert!(result.is_ok());
}

#[test]
fn handle_message_notification() {
    let mut gw = make_gateway();
    let conn = gw.handle_ws_connect().unwrap();

    let result = send(
        &mut gw,
        true,
        &conn.client_id,
        r#"{"jsonrpc":"2.0","method":"notifications/ping"}"#,
    );
    assert!(result.is_ok());
}

#[test]
fn handle_message_invalid_json_keeps_connection() {
    let mut gw = make_gateway();
    let conn = gw.handle_ws_connect().unwrap();

    let result = send(&mut gw, true, &conn.client_id, "not json!");
    assert!(result.is_ok());
    assert_eq!(gw.client_count(), 1);
}

#[test]
fn handle_message_too_large() {
    let mut gw = make_gateway();
    let conn = gw.handle_ws_connect().unwrap();

    let big = "x".repeat(MAX_FRAME_SIZE + 1);
    let result = send(&mut gw, true, &conn.client_id, &big);
    assert!(result.is_err());
    let (code, _) = result.unwrap_err();
    assert_eq!(code, WS_CLOSE_TOO_LARGE);
}

#[test]
fn handle_message_batch() {
    let mut gw = make_gateway();
    let conn = gw.handle_ws_connect().unwrap();

    let result = send(
        &mut gw,
        true,
        &conn.client_id,
        r#"[{"jsonrpc":"2.0","id":1,"method":"a"},{"jsonrpc":"2.0","method":"b"}]"#,
    );
    assert!(result.is_ok());
}

#[test]
fn handle_message_dead_child() {
    let mut gw = make_gateway();

    let conn = gw.handle_ws_connect().unwrap();
    let result = send(
        &mut gw,
        false,
        &conn.client_id,
        r#"{"jsonrpc":"2.0","id":1,"method":"ping"}"#,
    );
    assert!(result.is_err());
    let (code, _) = result.unwrap_err();
    assert_eq!(code, WS_CLOSE_INTERNAL);
}

#[test]
fn relay_roundtrip_routes_response_to_correct_client() {
    let mut gw = make_gateway();
    let conn = gw.handle_ws_connect().unwrap();

    // Send a request — cat echoes it back (as a request, not response, but
    // for the roundtrip test we verify the message arrives)
    let result = send(
        &mut gw,
        true,
        &conn.client_id,
        r#"{"jsonrpc":"2.0","id":1,"method":"ping"}"#,
    );
    assert!(result.is_ok());

    // The echoed message has id + method → broadcast (server-initiated request)
    let msg = take(&mut gw, &conn.client_id);
    match msg {
        WsEvent::Message(json) => {
            let parsed: serde_json::Value = serde_json::from_str(&json).unwrap();
            assert_eq!(parsed["method"], "ping");
        }
        other => panic!("expected Message, got {other:?}"),
    }
}

#[test]
fn ws_early_buffer_drains_to_first_client() {
    let mut gw = make_gateway();

    // Messages that come before anybody is connected
    gw.relay(parse_line(r#"{"jsonrpc":"2.0","method":"notif1"}"#).unwrap());
    gw.relay(parse_line(r#"{"jsonrpc":"2.0","method":"notif2"}"#).unwrap());

    let conn = gw.handle_ws_connect().unwrap();

    let msg1 = take(&mut gw, &conn.client_id);
    match msg1 {
        WsEvent::Message(json) => assert!(json.contains("notif1")),
        other => panic!("expected Message, got {other:?}"),
    }
    let msg2 = take(&mut gw, &conn.client_id);
    match msg2 {
        WsEvent::Message(json) => assert!(json.contains("notif2")),
        other => panic!("expected Message, got {other:?}"),
    }

    // Nothing is buffered from now on
    gw.disconnect_client(&conn.client_id);
    gw.relay(parse_line(r#"{"jsonrpc":"2.0","method":"notif3"}"#).unwrap());
    let conn2 = gw.handle_ws_connect().unwrap();
    assert!(matches!(gw.next_event(&conn2.client_id), Received::Nothing));
}

#[test]
fn ws_broadcast_to_multiple_clients() {
    let mut gw = make_gateway();

    let conn1 = gw.handle_ws_connect().unwrap();
    let conn2 = gw.handle_ws_connect().unwrap();
    assert_eq!(gw.client_count(), 2);

    // Send a notification (no id) — will broadcast
    let result = send(
        &mut gw,
        true,
        &conn1.client_id,
        r#"{"jsonrpc":"2.0","method":"broadcast_test"}"#,
    );
    assert!(result.is_ok());

    // Both clients should receive the broadcast
    let msg1 = take(&mut gw, &conn1.client_id);
    let msg2 = take(&mut gw, &conn2.client_id);

    for msg in [&msg1, &msg2] {
        match msg {
            WsEvent::Message(json) => {
                assert!(json.contains("broadcast_test"));
            }
            other => panic!("expected Message, got {other:?}"),
        }
    }
}

#[test]
fn ws_health_endpoint_not_ready() {
    let gw = make_gateway();
    let resp = gw.handle_health("/health", false, None);
    assert!(resp.is_some());
    assert_eq!(resp.unwrap().status, 503);
}

#[test]
fn ws_health_endpoint_ready() {
    let mut gw = make_gateway();
    gw.metrics.set_ready();
    let resp = gw.handle_health("/health", false, None).unwrap();
    assert_eq!(resp.status, 200);
    assert_eq!(resp.body, "ok");
}

#[test]
fn ws_health_endpoint_wrong_path() {
    let gw = make_gateway();
    assert!(gw.handle_health("/not-health", false, None).is_none());
}

#[test]
fn custom_headers_applied_in_ws_mode() {
    let mut gw = gateway(
        vec![
            Header { name: "X-Custom".into(), value: "hello".into() },
            Header { name: "X-Other".into(), value: "world".into() },
        ],
        vec!["/health".to_string()],
    );

    gw.metrics.set_ready();
    let resp = gw.handle_health("/health", false, None).unwrap();
    assert!(resp.headers.iter().any(|(n, v)| n == "X-Custom" && v == "hello"));
    assert!(resp.headers.iter().any(|(n, v)| n == "X-Other" && v == "world"));
}

#[test]
fn ws_metrics_tracked_on_connect_disconnect() {
    let mut gw = gateway(vec![], vec![]);

    let conn = gw.handle_ws_connect().unwrap();
    assert_eq!(gw.metrics.active_clients, 1);

    gw.disconnect_client(&conn.client_id);
    assert_eq!(gw.metrics.active_clients, 0);
    assert_eq!(gw.metrics.client_disconnects, 1);
}

#[test]
fn metrics_total_requests_on_message() {
    let mut gw = make_gateway();
    let conn = gw.handle_ws_connect().unwrap();

    let _ = send(
        &mut gw,
        true,
        &conn.client_id,
        r#"{"jsonrpc":"2.0","id":1,"method":"test"}"#,
    );
    assert_eq!(gw.metrics.total_requests, 1);
}

#[test]
fn ws_rapid_connect_disconnect_no_leaks() {
    let mut gw = make_gateway();
    let mut connections = Vec::new();

    for _ in 0..20 {
        let conn = gw.handle_ws_connect().unwrap();
        connections.push(conn);
    }
    assert_eq!(gw.client_count(), 20);

    for conn in &connections {
        gw.disconnect_client(&conn.client_id);
    }
    assert_eq!(gw.client_count(), 0);
}

#[test]
fn close_all_sends_close_frames() {
    let mut gw = make_gateway();
    let conn1 = gw.handle_ws_connect().unwrap();
    let conn2 = gw.handle_ws_connect().unwrap();
    assert_eq!(gw.client_count(), 2);

    gw.close_all_clients(WS_CLOSE_INTERNAL, "test");

    // Clients should receive close events
    let evt1 = take(&mut gw, &conn1.client_id);
    match evt1 {
        WsEvent::Close(code, reason) => {
            assert_eq!(code, WS_CLOSE_INTERNAL);
            assert_eq!(reason, "test");
        }
        other => panic!("expected Close, got {other:?}"),
    }
    let evt2 = take(&mut gw, &conn2.client_id);
    assert!(matches!(evt2, WsEvent::Close(WS_CLOSE_INTERNAL, _)));

    assert_eq!(gw.client_count(), 0);
}

#[test]
fn max_clients_returns_503() {
    let mut gw = make_gateway();
    let mut connections = Vec::new();
    for _ in 0..MAX_WS_CLIENTS {
        connections.push(gw.handle_ws_connect().unwrap());
    }
    assert_eq!(gw.client_count(), MAX_WS_CLIENTS);

    match gw.handle_ws_connect() {
        Err(resp) => assert_eq!(resp.status, 503),
        Ok(_) => panic!("expected 503, but connect succeeded"),
    }
}
