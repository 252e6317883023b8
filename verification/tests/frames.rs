//! WebSocket connections: the opening request, frames in both directions.

use supergateway::cli::{CorsConfig, Header, LogLevel};
use supergateway::cors::CorsHandler;
use supergateway::gateway::reply::Setup;
use supergateway::gateway::ws::{
    event_bytes, sendable, split_target, FrameAction, Input, Opening, WsEvent, WsGateway,
    WS_CLOSE_INTERNAL,
};
use supergateway::observe::Metrics;
use supergateway::session::SessionId;

fn gateway(cors: CorsConfig) -> WsGateway {
    let setup = Setup {
        cors: CorsHandler::new(cors, false),
        custom_headers: vec![Header { name: "X-A".into(), value: "1".into() }],
        log_level: LogLevel::Debug,
        health_endpoints: vec!["/health".to_string()],
    };
    WsGateway::new(setup, Metrics::new())
}

fn upgrade_headers() -> Vec<(String, String)> {
    [
        ("host", "localhost:8000"),
        ("upgrade", "websocket"),
        ("connection", "Upgrade"),
        ("sec-websocket-key", "dGhlIHNhbXBsZSBub25jZQ=="),
        ("sec-websocket-version", "13"),
    ]
    .iter()
    .map(|(k, v)| (k.to_string(), v.to_string()))
    .collect()
}

/// A frame as a client sends it.
fn client_frame(opcode: u8, payload: &[u8]) -> Vec<u8> {
    assert!(payload.len() < 126);
    let mask = [1u8, 2, 3, 4];
    let mut out = vec![0x80 | opcode, 0x80 | payload.len() as u8];
    out.extend_from_slice(&mask);
    out.extend(payload.iter().enumerate().map(|(i, b)| b ^ mask[i % 4]));
    out
}

#[test]
fn handshake_opens_a_connection() {
    let mut gw = gateway(CorsConfig::Disabled);
    match gw.open_connection("GET", "/ws", &upgrade_headers()) {
        Opening::Upgrade(_, bytes) => {
            let answer = String::from_utf8(bytes).unwrap();
            assert!(answer.starts_with("HTTP/1.1 101"));
            assert!(answer.contains("s3pPLMBiTxaQ9kYGzzhZRbK+xOo="));
            assert!(answer.ends_with("\r\nX-A: 1\r\n\r\n"));
        }
        other => panic!("expected Upgrade, got {other:?}"),
    }
    assert_eq!(gw.client_count(), 1);
    assert_eq!(gw.metrics.active_clients, 1);
}

#[test]
fn request_that_is_no_handshake_is_refused() {
    let mut gw = gateway(CorsConfig::Disabled);
    match gw.open_connection("GET", "/ws", &vec![("host".to_string(), "x".to_string())]) {
        Opening::Refuse(bytes) => {
            assert_eq!(bytes, b"HTTP/1.1 400 Bad Request\r\nContent-Length: 0\r\n\r\n")
        }
        other => panic!("expected Refuse, got {other:?}"),
    }
    match gw.open_connection("POST", "/ws", &upgrade_headers()) {
        Opening::Refuse(bytes) => {
            assert_eq!(bytes, b"HTTP/1.1 405 Method Not Allowed\r\nContent-Length: 0\r\n\r\n")
        }
        other => panic!("expected Refuse, got {other:?}"),
    }
    assert_eq!(gw.client_count(), 0);
}

#[test]
fn health_and_options_come_before_the_handshake() {
    let mut gw = gateway(CorsConfig::Disabled);
    match gw.open_connection("GET", "/health?x=1", &vec![]) {
        Opening::Respond(resp) => assert_eq!(resp.status, 503),
        other => panic!("expected Respond, got {other:?}"),
    }
    gw.metrics.set_ready();
    match gw.open_connection("GET", "/health?detail=true", &vec![]) {
        Opening::Respond(resp) => {
            assert_eq!(resp.status, 200);
            assert!(resp.body.contains("active_clients"));
        }
        other => panic!("expected Respond, got {other:?}"),
    }
    assert!(matches!(gw.open_connection("OPTIONS", "/ws", &vec![]), Opening::HangUp));
    let mut gw = gateway(CorsConfig::Wildcard);
    match gw.open_connection("OPTIONS", "/ws", &vec![("origin".into(), "https://a.b".into())]) {
        Opening::Respond(resp) => assert_eq!(resp.status, 204),
        other => panic!("expected Respond, got {other:?}"),
    }
}

#[test]
fn target_is_split_at_the_question_mark() {
    assert_eq!(split_target("/a?b=c?d"), ("/a".to_string(), "b=c?d".to_string()));
    assert_eq!(split_target("/a"), ("/a".to_string(), String::new()));
}

#[test]
fn text_frame_becomes_messages() {
    let mut gw = gateway(CorsConfig::Disabled);
    let conn = gw.handle_ws_connect().unwrap();
    let mut input = client_frame(1, br#"{"jsonrpc":"2.0","id":"a","method":"ping"}"#);
    let whole = input.len();
    input.extend_from_slice(b"more");
    match gw.handle_input(&conn.client_id, &input) {
        Input::Frame(FrameAction::Forward(messages), rest) => {
            assert_eq!(messages.len(), 1);
            assert_eq!(messages[0].id.as_ref().unwrap().get(), "\"a\"");
            assert_eq!(rest, b"more");
        }
        _ => panic!("expected a message"),
    }
    assert!(matches!(gw.handle_input(&conn.client_id, &input[..whole - 1]), Input::More));
    assert!(matches!(gw.handle_input(&conn.client_id, &[]), Input::More));
}

#[test]
fn messages_of_a_batch_are_numbered_one_by_one() {
    let mut gw = gateway(CorsConfig::Disabled);
    let conn = gw.handle_ws_connect().unwrap();
    let batch = br#"[{"jsonrpc":"2.0","id":"a","method":"x"},{"jsonrpc":"2.0","method":"y"},{"jsonrpc":"2.0","id":7,"method":"z"}]"#;
    let messages = match gw.handle_frame(&conn.client_id, 1, batch.to_vec()) {
        FrameAction::Forward(messages) => messages,
        _ => panic!("expected messages"),
    };
    let mut messages = messages.into_iter();
    let first = gw.number_message(&conn.client_id, messages.next().unwrap());
    assert_eq!(first.id.unwrap().get(), "1");
    let note = gw.number_message(&conn.client_id, messages.next().unwrap());
    assert!(note.id.is_none());
    // Where the rest is not written, no number is taken for it.
    assert!(gw.mux.unmangle(2).is_none());
    let (owner, id) = gw.mux.unmangle(1).unwrap();
    assert_eq!(owner.as_str(), conn.client_id.as_str());
    assert_eq!(id.get(), "\"a\"");
    let last = gw.number_message(&conn.client_id, messages.next().unwrap());
    assert_eq!(last.id.unwrap().get(), "2");
    gw.mux.remove_client(conn.client_id.as_str());
    assert!(gw.mux.unmangle(2).is_none());
}

#[test]
fn text_that_is_no_message_is_noted() {
    let mut gw = gateway(CorsConfig::Disabled);
    let conn = gw.connect_as(SessionId::from_value("me")).unwrap();
    match gw.handle_frame(&conn.client_id, 1, b"{}".to_vec()) {
        FrameAction::Note(line) => {
            assert_eq!(line, "invalid JSON from client me: missing field `jsonrpc`")
        }
        _ => panic!("expected a note"),
    }
    assert_eq!(gw.metrics.total_requests, 1);
}

#[test]
fn opening_request_is_read_off_the_wire() {
    let mut gw = gateway(CorsConfig::Disabled);
    let mut request = b"GET /ws? HTTP/1.1\r\n".to_vec();
    for (name, value) in upgrade_headers() {
        request.extend_from_slice(format!("{name}: {value}\r\n").as_bytes());
    }
    assert!(gw.open_bytes(&request).is_none());
    assert_eq!(gw.metrics.active_clients, 0);
    request.extend_from_slice(b"\r\n");
    match gw.open_bytes(&request) {
        Some(Opening::Upgrade(_, bytes)) => {
            assert!(bytes.starts_with(b"HTTP/1.1 101 Switching Protocols\r\n"))
        }
        other => panic!("expected an upgrade, got {other:?}"),
    }
    assert_eq!(gw.metrics.active_clients, 1);
    let post = b"POST /ws HTTP/1.1\r\nTransfer-Encoding: chunked\r\n\r\n2\r\nhi\r\n0\r\n";
    assert!(gw.open_bytes(post).is_none());
    let mut whole = post.to_vec();
    whole.extend_from_slice(b"\r\n");
    match gw.open_bytes(&whole) {
        Some(Opening::Refuse(bytes)) => assert!(bytes.starts_with(b"HTTP/1.1 405 ")),
        other => panic!("expected a refusal, got {other:?}"),
    }
    assert!(matches!(gw.open_bytes(b"nonsense\r\n\r\n"), Some(Opening::HangUp)));
}

#[test]
fn unmasked_frame_of_a_client_breaks_the_protocol() {
    let mut gw = gateway(CorsConfig::Disabled);
    let conn = gw.handle_ws_connect().unwrap();
    assert!(matches!(gw.handle_input(&conn.client_id, &[0x81, 1, b'x']), Input::Broken));
}

#[test]
fn ping_and_close_are_answered() {
    let mut gw = gateway(CorsConfig::Disabled);
    let conn = gw.handle_ws_connect().unwrap();
    match gw.handle_input(&conn.client_id, &client_frame(9, b"hi")) {
        Input::Frame(FrameAction::Reply(bytes), rest) => {
            assert_eq!(bytes, [0x8a, 2, b'h', b'i']);
            assert!(rest.is_empty());
        }
        _ => panic!("expected a pong"),
    }
    match gw.handle_input(&conn.client_id, &client_frame(8, &[0x03, 0xe8])) {
        Input::Frame(FrameAction::Close(bytes), _) => assert_eq!(bytes, [0x88, 2, 0x03, 0xe8]),
        _ => panic!("expected a close frame"),
    }
    assert!(matches!(
        gw.handle_frame(&conn.client_id, 9, vec![0; 126]),
        FrameAction::Ignore
    ));
    assert!(matches!(gw.handle_frame(&conn.client_id, 2, vec![1]), FrameAction::Ignore));
}

#[test]
fn bad_texts_end_the_connection() {
    let mut gw = gateway(CorsConfig::Disabled);
    let conn = gw.handle_ws_connect().unwrap();
    match gw.handle_frame(&conn.client_id, 1, vec![0xff, 0xfe]) {
        FrameAction::Close(bytes) => {
            assert_eq!(&bytes[..4], [0x88, 15, 0x03, 0xf0]);
            assert_eq!(&bytes[4..], b"invalid UTF-8");
        }
        _ => panic!("expected Close"),
    }
}

#[test]
fn events_are_written_as_frames() {
    let bytes = event_bytes(&WsEvent::Message("{}".into()));
    assert_eq!(bytes, [0x81, 2, b'{', b'}']);
    assert!(sendable(WS_CLOSE_INTERNAL, "gone"));
    let bytes = event_bytes(&WsEvent::Close(WS_CLOSE_INTERNAL, "gone".into()));
    assert_eq!(bytes, [0x88, 6, 0x03, 0xf3, b'g', b'o', b'n', b'e']);
    assert!(!sendable(1005, ""));
    assert!(!sendable(1000, &"x".repeat(124)));
}
