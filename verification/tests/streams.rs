//! Streams to clients, sessions that are closed, and where messages are posted.

use supergateway::cli::{CorsConfig, LogLevel, OutputTransport};
use supergateway::client::http::HttpClientError;
use supergateway::client::sse::resolve_endpoint_url;
use supergateway::codec::{CodecError, MessageRead, StdoutCodec};
use supergateway::cors::CorsHandler;
use supergateway::gateway::exchange::Exchange;
use supergateway::gateway::http_to_stdio::{handle_client_error, ErrorAction};
use supergateway::gateway::hub::{Received, BACKPRESSURE_TIMEOUT_MS, CLIENT_CHANNEL_CAP};
use supergateway::gateway::reply::Setup;
use supergateway::gateway::sse::{
    stream_step, SseEvent, SseGateway, StreamStep, KEEPALIVE_INTERVAL_MS,
};
use supergateway::gateway::stateful_http::{
    notification_step, DrainStep, Forwarded, GatewayRequest, GatewayResponse, Post, RequestResult,
    StatefulHttpGateway,
};
use supergateway::jsonrpc::{parse_line, parse_message, Parsed};
use supergateway::observe::{Logger, Metrics};
use supergateway::serve::HttpResponse;
use supergateway::session::SessionId;

fn setup() -> Setup {
    Setup {
        cors: CorsHandler::new(CorsConfig::Disabled, false),
        custom_headers: vec![],
        log_level: LogLevel::Debug,
        health_endpoints: vec![],
    }
}

fn line(text: &str) -> Parsed {
    parse_line(text).unwrap()
}

// ---- The endpoint ---------------------------------------------------------------------

#[test]
fn endpoint_does_not_see_the_query_of_the_stream() {
    let at = |url: &str, endpoint: &str| resolve_endpoint_url(url, endpoint);
    assert_eq!(
        at("http://localhost:8080?token=abc", "/message"),
        "http://localhost:8080/message"
    );
    assert_eq!(at("http://h#top", "/message"), "http://h/message");
    assert_eq!(at("http://h?x=a/b", "message"), "http://h/message");
    assert_eq!(at("http://h/sse?x=a/b", "message"), "http://h/message");
    assert_eq!(at("http://h/api/sse?x=a/b#c/d", "message"), "http://h/api/message");
    assert_eq!(at("https://h/api/?q", "/m?sessionId=1"), "https://h/m?sessionId=1");
    assert_eq!(at("http://h", "message"), "http://h/message");
}

#[test]
fn header_of_an_answer_is_looked_up_as_given() {
    let resp = HttpResponse {
        status: 200,
        headers: vec![("content-type".to_string(), "text/plain".to_string())],
        body: vec![],
    };
    assert_eq!(resp.header("content-type"), Some("text/plain"));
    assert_eq!(resp.header("Content-Type"), None);
}

#[test]
fn closing_of_the_server_is_logged() {
    let mut logger = Logger::buffered(OutputTransport::Stdio, LogLevel::Info);
    let error = HttpClientError::Io("unexpected EOF".to_string());
    assert_eq!(handle_client_error(&error, &mut logger), ErrorAction::Exit);
    assert_eq!(
        logger.get_output(),
        "[supergateway] remote HTTP connection closed (B-004), exiting with code 1\n"
    );
}

// ---- Lines of a child -----------------------------------------------------------------

#[test]
fn line_that_is_too_long_is_dropped() {
    let mut codec = StdoutCodec::new(8);
    let mut metrics = Metrics::new();
    let mut logger = Logger::buffered(OutputTransport::Sse, LogLevel::Info);
    codec.push(b"aaaaaaaaaa");
    assert!(matches!(
        codec.read_message(&mut metrics, &mut logger),
        Err(CodecError::BufferOverflow { size: 10, limit: 8 })
    ));
    codec.push(b"{\"jsonrpc\":\"2.0\",\"method\":\"m\"}\n");
    match codec.read_message(&mut metrics, &mut logger) {
        Ok(MessageRead::Message(Parsed::Single(m))) => assert_eq!(m.method_str(), Some("m")),
        other => panic!("expected a message, got {other:?}"),
    }
    assert_eq!(metrics.decode_errors, 0);
}

// ---- Streams --------------------------------------------------------------------------

fn written(step: StreamStep) -> String {
    match step {
        StreamStep::Write(text) => text,
        other => panic!("expected Write, got {other:?}"),
    }
}

#[test]
fn silent_stream_is_kept_open() {
    let event = Received::Event(SseEvent::Message("{}".to_string()));
    assert_eq!(written(stream_step(event, 0)), "event: message\ndata: {}\n\n");
    assert!(matches!(
        stream_step(Received::Nothing, KEEPALIVE_INTERVAL_MS - 1),
        StreamStep::Wait
    ));
    assert_eq!(written(stream_step(Received::Nothing, KEEPALIVE_INTERVAL_MS)), ": keepalive\n\n");
    assert!(matches!(stream_step(Received::Closed, 0), StreamStep::Close));

    let msg = parse_message(r#"{"jsonrpc":"2.0","method":"n"}"#).unwrap();
    assert_eq!(
        written(notification_step(Some(Some(msg)), 0)),
        "event: message\ndata: {\"jsonrpc\":\"2.0\",\"method\":\"n\"}\n\n"
    );
    assert!(matches!(notification_step(Some(None), 14_999), StreamStep::Wait));
    assert_eq!(written(notification_step(Some(None), 15_000)), ": keepalive\n\n");
    assert!(matches!(notification_step(None, 15_000), StreamStep::Close));
}

#[test]
fn clients_that_fall_behind_are_known() {
    let mut gw = SseGateway::new(String::new(), "/message".into(), setup(), Metrics::new());
    let note = || line(r#"{"jsonrpc":"2.0","method":"n"}"#);
    let slow = gw.connect_as(SessionId::from_value("slow"), None);
    assert!(gw.hub.behind().is_empty());
    for _ in 0..CLIENT_CHANNEL_CAP {
        gw.relay_at(note(), 0);
    }
    assert_eq!(gw.hub.behind(), ["slow"]);
    assert!(matches!(gw.next_event(&slow.session_id), Received::Event(_)));
    gw.relay_at(note(), 10);
    assert!(gw.hub.behind().is_empty());
    gw.relay_at(note(), 20);
    assert_eq!(gw.hub.behind(), ["slow"]);
    gw.relay_at(note(), 20 + BACKPRESSURE_TIMEOUT_MS);
    assert!(gw.hub.behind().is_empty());
    assert!(!gw.hub.contains("slow"));
}

// ---- Sessions that are closed ---------------------------------------------------------

fn request(method: &str, session: Option<&str>, body: &str) -> GatewayRequest {
    let mut headers = vec![
        ("content-type".to_string(), "application/json".to_string()),
        ("accept".to_string(), "application/json, text/event-stream".to_string()),
    ];
    if let Some(id) = session {
        headers.push(("mcp-session-id".to_string(), id.to_string()));
    }
    GatewayRequest {
        method: method.into(),
        path: "/mcp".into(),
        headers,
        body: body.as_bytes().to_vec(),
        query: vec![],
    }
}

/// A gateway with one session, and an exchange in it that waits for two answers.
fn waiting() -> (StatefulHttpGateway, SessionId, Post, Exchange) {
    let mut gw = StatefulHttpGateway::new("/mcp".into(), setup(), Some(500), Metrics::new());
    let init = r#"{"jsonrpc":"2.0","id":0,"method":"initialize","params":{}}"#;
    let RequestResult::Initialize(post) = gw.handle_request(&request("POST", None, init)) else {
        panic!("expected Initialize");
    };
    let post = gw
        .start_session_as(SessionId::from_value("s"), post)
        .unwrap_or_else(|_| panic!("no session"));
    let id = post.session.clone().unwrap();
    let resp = GatewayResponse::new(200);
    gw.complete_post(post, resp);
    let two = r#"[{"jsonrpc":"2.0","id":1,"method":"a"},{"jsonrpc":"2.0","id":2,"method":"b"}]"#;
    let RequestResult::Forward(post) = gw.handle_request(&request("POST", Some("s"), two)) else {
        panic!("expected Forward");
    };
    let Forwarded::Wait(exchange) = gw.after_write(&id, &post.messages, Ok(())) else {
        panic!("expected Wait");
    };
    (gw, id, post, exchange)
}

fn body(gw: &mut StatefulHttpGateway, id: &SessionId, exchange: Exchange) -> String {
    String::from_utf8(gw.finish_exchange(id, exchange).body).unwrap()
}

#[test]
fn session_closed_by_force_still_answers() {
    let (mut gw, id, post, mut exchange) = waiting();
    gw.relay(&id, line(r#"{"jsonrpc":"2.0","id":1,"result":"x"}"#));
    gw.handle_request(&request("DELETE", Some("s"), ""));
    assert_eq!(gw.drain_session(&id, 4_999), DrainStep::Wait);
    assert_eq!(gw.drain_session(&id, 5_000), DrainStep::Forced);
    assert_eq!(gw.sessions.len(), 0);
    // The answer that came before is read, and the next one still comes.
    assert!(!gw.advance_exchange(&id, &mut exchange, 0));
    gw.relay(&id, line(r#"{"jsonrpc":"2.0","id":2,"result":"y"}"#));
    assert!(gw.advance_exchange(&id, &mut exchange, 0));
    let text = body(&mut gw, &id, exchange);
    assert!(text.contains(r#""id":1,"result":"x""#));
    assert!(text.contains(r#""id":2,"result":"y""#));
    // Nothing is kept for nobody.
    assert_eq!(gw.parting.len(), 0);
    let resp = GatewayResponse::new(200);
    assert!(gw.complete_post(post, resp).1.is_none());
}

#[test]
fn child_of_a_closed_session_dies() {
    let (mut gw, id, _, mut exchange) = waiting();
    gw.relay(&id, line(r#"{"jsonrpc":"2.0","id":1,"result":"x"}"#));
    assert_eq!(gw.drain_session(&id, 5_000), DrainStep::Forced);
    gw.child_closed(&id);
    assert!(!gw.advance_exchange(&id, &mut exchange, 0));
    assert!(gw.advance_exchange(&id, &mut exchange, 0));
    let text = body(&mut gw, &id, exchange);
    assert!(text.contains(r#""id":1,"result":"x""#));
    assert!(text.contains("Child process dead"));
}

#[test]
fn stream_of_a_closed_session_ends_with_its_child() {
    let (mut gw, id, _, exchange) = waiting();
    gw.relay(&id, line(r#"{"jsonrpc":"2.0","id":1,"result":"x"}"#));
    assert!(matches!(
        gw.handle_request(&request("GET", Some("s"), "")),
        RequestResult::SseStream(_)
    ));
    gw.relay(&id, line(r#"{"jsonrpc":"2.0","method":"n"}"#));
    assert_eq!(gw.drain_session(&id, 5_000), DrainStep::Forced);
    assert_eq!(gw.next_notification(&id).unwrap().unwrap().method_str(), Some("n"));
    assert!(gw.next_notification(&id).unwrap().is_none());
    gw.child_closed(&id);
    assert!(gw.next_notification(&id).is_none());
    body(&mut gw, &id, exchange);
    assert_eq!(gw.parting.len(), 1);
    assert!(gw.disconnect_sse_stream(&id).is_none());
    assert_eq!(gw.parting.len(), 0);
}

#[test]
fn idle_session_is_closed_and_counted() {
    let (mut gw, id, post, exchange) = waiting();
    let generation = gw.sessions.timeout_gen(&id).unwrap();
    // The session is in use.
    assert!(!gw.close_idle(&id, generation));
    let resp = gw.finish_exchange(&id, exchange);
    let (_, timer) = gw.complete_post(post, resp);
    assert_eq!(timer, Some((500, generation)));
    assert!(!gw.close_idle(&id, generation - 1));
    assert_eq!(gw.metrics.session_timeouts, 0);
    assert!(gw.close_idle(&id, generation));
    assert_eq!(gw.metrics.session_timeouts, 1);
    assert_eq!(gw.sessions.len(), 0);
}
