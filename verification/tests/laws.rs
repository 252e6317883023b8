//! What holds of the library as a whole, on concrete values.

use supergateway::cli::{CorsConfig, CorsOrigin, Header, LogLevel, OAuth2ServerConfig, OutputTransport};
use supergateway::client::http::{HttpClient, HttpResponse as ClientResponse};
use supergateway::client::sse::{ReconnectState, SseParser};
use supergateway::codec::{write_message, MessageRead, StdoutCodec};
use supergateway::cors::{apply_custom_headers, CorsHandler, CorsResult};
use supergateway::error::GatewayError;
use supergateway::gateway::exchange::{Exchange, SessionData, NOTIFICATION_CHANNEL_CAP};
use supergateway::gateway::http_to_stdio::{HttpToStdioGateway, InitPhase};
use supergateway::gateway::hub::{
    Received, BACKPRESSURE_TIMEOUT_MS, CLIENT_CHANNEL_CAP, EARLY_BUFFER_CAP,
};
use supergateway::gateway::reply::Setup;
use supergateway::gateway::sse::{SseEvent, SseGateway};
use supergateway::gateway::sse_to_stdio::{strip_error_prefix, StdinAction};
use supergateway::gateway::stateful_http::{
    DrainStep, Forwarded, GatewayRequest, RequestResult, StatefulHttpGateway,
};
use supergateway::gateway::stateless_http::{Conversation, ReadEvent, Step};
use supergateway::gateway::ws::{WsEvent, WsGateway};
use supergateway::health::check_health;
use supergateway::jsonrpc::{parse_line, parse_message, Parsed, RawMessage};
use supergateway::oauth2::{OAuth2Handler, OAuth2Result, CODE_EXPIRY_MS};
use supergateway::observe::{Logger, Metrics};
use supergateway::serve::HttpResponse;
use supergateway::session::{SessionError, SessionId, SessionManager, SessionManagerConfig};
use supergateway::text::{decimal_text, parse_number};

fn setup(expose: bool) -> Setup {
    Setup {
        cors: CorsHandler::new(CorsConfig::Disabled, expose),
        custom_headers: vec![],
        log_level: LogLevel::Debug,
        health_endpoints: vec![],
    }
}

fn msg(text: &str) -> RawMessage {
    parse_message(text).unwrap()
}

fn log() -> Logger {
    Logger::buffered(OutputTransport::Stdio, LogLevel::Debug)
}

fn note(i: usize) -> Parsed {
    parse_line(&format!(r#"{{"jsonrpc":"2.0","method":"n{i}"}}"#)).unwrap()
}

fn pairs(list: &[(&str, &str)]) -> Vec<(String, String)> {
    list.iter()
        .map(|(k, v)| (k.to_string(), v.to_string()))
        .collect()
}

// ---- Clients and their queues ---------------------------------------------------------

fn sse_gateway() -> SseGateway {
    SseGateway::new(String::new(), "/message".into(), setup(false), Metrics::new())
}

fn waiting(gw: &mut SseGateway, id: &SessionId) -> Vec<String> {
    let mut out = Vec::new();
    while let Received::Event(SseEvent::Message(m)) = gw.next_event(id) {
        out.push(m);
    }
    out
}

#[test]
fn queue_of_a_client_stays_bounded() {
    let mut gw = sse_gateway();
    let conn = gw.connect_as(SessionId::from_value("a"), None);
    assert!(matches!(gw.next_event(&conn.session_id), Received::Event(SseEvent::Endpoint(_))));
    for i in 0..CLIENT_CHANNEL_CAP + 10 {
        gw.relay_at(note(i), 0);
    }
    assert_eq!(waiting(&mut gw, &conn.session_id).len(), CLIENT_CHANNEL_CAP);
    assert_eq!(gw.client_count(), 1);
}

#[test]
fn client_that_does_not_keep_up_is_dropped_after_the_timeout() {
    let mut gw = sse_gateway();
    let slow = gw.connect_as(SessionId::from_value("slow"), None);
    for i in 0..CLIENT_CHANNEL_CAP {
        gw.relay_at(note(i), 0);
    }
    // The endpoint event takes one place: the queue became too full just now.
    gw.relay_at(note(0), 1000);
    gw.relay_at(note(0), BACKPRESSURE_TIMEOUT_MS - 1);
    assert_eq!(gw.client_count(), 1);
    gw.relay_at(note(0), BACKPRESSURE_TIMEOUT_MS);
    assert_eq!(gw.client_count(), 0);
    assert_eq!(gw.metrics.backpressure_events, 1);
    assert_eq!(gw.metrics.client_disconnects, 1);
    // What was queued can still be read.
    assert!(matches!(gw.next_event(&slow.session_id), Received::Event(SseEvent::Endpoint(_))));
    assert_eq!(waiting(&mut gw, &slow.session_id).len(), CLIENT_CHANNEL_CAP - 1);
    assert!(matches!(gw.next_event(&slow.session_id), Received::Closed));
}

#[test]
fn client_that_hung_up_leaves_with_the_next_event() {
    let mut gw = sse_gateway();
    let conn = gw.connect_as(SessionId::from_value("a"), None);
    gw.stop_listening(&conn.session_id);
    assert_eq!(gw.client_count(), 1);
    gw.relay_at(note(0), 0);
    assert_eq!(gw.client_count(), 0);
    assert_eq!(gw.metrics.backpressure_events, 0);
    assert!(matches!(gw.next_event(&conn.session_id), Received::Closed));
}

#[test]
fn early_events_are_kept_up_to_the_cap_and_in_order() {
    let mut gw = sse_gateway();
    for i in 0..EARLY_BUFFER_CAP + 3 {
        gw.relay_at(note(i), 0);
    }
    let conn = gw.connect_as(SessionId::from_value("a"), None);
    assert!(matches!(gw.next_event(&conn.session_id), Received::Event(SseEvent::Endpoint(_))));
    let got = waiting(&mut gw, &conn.session_id);
    assert!(got[0].contains("\"n0\""));
    assert!(got[1].contains("\"n1\""));
    // One place in the queue was taken by the endpoint.
    assert_eq!(got.len(), EARLY_BUFFER_CAP - 1);
}

#[test]
fn events_are_read_back() {
    let mut parser = SseParser::new();
    let events = parser.feed(&SseEvent::Endpoint("/m?sessionId=1".into()).serialize());
    assert_eq!(events.len(), 1);
    assert!(events[0].is_endpoint());
    assert_eq!(events[0].data, "/m?sessionId=1");
    let events = parser.feed(&SseEvent::Message("{\"a\":1}".into()).serialize());
    assert_eq!(events[0].event_type, "message");
    assert_eq!(events[0].data, "{\"a\":1}");
    assert!(parser.feed(&SseEvent::Keepalive.serialize()).is_empty());
}

#[test]
fn events_do_not_depend_on_the_chunks() {
    let text = "event: a\r\ndata: 1\r\n\r\ndata: 2\ndata: 3\n\nid: 9\rdata: 4\r\r: end\n";
    let mut whole = SseParser::new();
    let all = whole.feed(text);
    let mut parser = SseParser::new();
    let mut got = Vec::new();
    for c in text.chars() {
        got.extend(parser.feed(&c.to_string()));
    }
    assert_eq!(all.len(), 3);
    assert_eq!(got.len(), 3);
    for (a, b) in all.iter().zip(&got) {
        assert_eq!(a.event_type, b.event_type);
        assert_eq!(a.data, b.data);
        assert_eq!(a.id, b.id);
    }
    assert_eq!(parser.last_event_id(), "9");
}

#[test]
fn wait_before_a_reconnect_doubles_up_to_the_longest() {
    let mut state = ReconnectState::new();
    let waits: Vec<u64> = (0..8).map(|_| state.next_delay()).collect();
    for w in waits.windows(2) {
        assert!(w[1] == w[0] * 2 || w[1] == 30_000);
    }
    assert_eq!(*waits.last().unwrap(), 30_000);
}

// ---- Numbers for requests ---------------------------------------------------------------

#[test]
fn answer_returns_to_its_client_once() {
    let mut gw = WsGateway::new(setup(false), Metrics::new());
    let a = gw.connect_as(SessionId::from_value("a")).unwrap();
    let b = gw.connect_as(SessionId::from_value("b")).unwrap();
    let text = r#"{"jsonrpc":"2.0","id":"x","method":"ping"}"#;
    let first = gw.number_message(&a.client_id, msg(text));
    let second = gw.number_message(&b.client_id, msg(text));
    assert_eq!(first.id.as_ref().unwrap().get(), "1");
    assert_eq!(second.id.as_ref().unwrap().get(), "2");
    let answer = r#"{"jsonrpc":"2.0","id":2,"result":{}}"#;
    gw.relay_at(parse_line(answer).unwrap(), 0);
    assert!(matches!(gw.next_event(&a.client_id), Received::Nothing));
    match gw.next_event(&b.client_id) {
        Received::Event(WsEvent::Message(json)) => {
            assert_eq!(json, r#"{"jsonrpc":"2.0","id":"x","result":{}}"#)
        }
        _ => panic!("expected the answer"),
    }
    gw.relay_at(parse_line(answer).unwrap(), 1);
    assert!(matches!(gw.next_event(&b.client_id), Received::Nothing));
    // Nothing is owed to a client that left.
    gw.disconnect_client(&a.client_id);
    gw.relay_at(parse_line(r#"{"jsonrpc":"2.0","id":1,"result":{}}"#).unwrap(), 2);
    assert!(matches!(gw.next_event(&b.client_id), Received::Nothing));
}

#[test]
fn requests_of_the_server_go_to_all() {
    let mut gw = WsGateway::new(setup(false), Metrics::new());
    let a = gw.connect_as(SessionId::from_value("a")).unwrap();
    let b = gw.connect_as(SessionId::from_value("b")).unwrap();
    gw.relay_at(parse_line(r#"{"jsonrpc":"2.0","id":7,"method":"roots/list"}"#).unwrap(), 0);
    for id in [&a.client_id, &b.client_id] {
        match gw.next_event(id) {
            Received::Event(WsEvent::Message(json)) => assert!(json.contains("\"id\":7")),
            _ => panic!("expected the request"),
        }
    }
    gw.child_exited();
    for id in [&a.client_id, &b.client_id] {
        assert!(matches!(gw.next_event(id), Received::Event(WsEvent::Close(1011, _))));
    }
}

// ---- Exchanges with a child -----------------------------------------------------------------

fn answer(id: &str) -> RawMessage {
    msg(&format!(r#"{{"jsonrpc":"2.0","id":{id},"result":"r{id}"}}"#))
}

#[test]
fn answers_follow_the_requests_whatever_their_order() {
    let ids = vec!["1".to_string(), "2".to_string(), "3".to_string()];
    let mut bodies = Vec::new();
    for order in [["1", "2", "3"], ["3", "1", "2"], ["2", "3", "1"]] {
        let mut data = SessionData::new();
        let mut metrics = Metrics::new();
        let ticket = data.register_pending(&ids);
        let mut x = Exchange::start(ticket, ids.clone());
        for id in order {
            data.route_single_message(answer(id), &mut metrics);
        }
        assert!(!x.advance(&mut data, 0));
        assert!(!x.advance(&mut data, 0));
        assert!(x.advance(&mut data, 0));
        assert!(x.is_complete());
        bodies.push(x.body());
    }
    assert_eq!(bodies[0], bodies[1]);
    assert_eq!(bodies[0], bodies[2]);
    let one = bodies[0].find("r1").unwrap();
    let two = bodies[0].find("r2").unwrap();
    let three = bodies[0].find("r3").unwrap();
    assert!(one < two && two < three);
}

#[test]
fn answer_reaches_only_its_exchange() {
    let mut data = SessionData::new();
    let mut metrics = Metrics::new();
    let first = data.register_pending(&vec!["1".to_string()]);
    let second = data.register_pending(&vec!["2".to_string()]);
    let mut a = Exchange::start(first, vec!["1".to_string()]);
    let mut b = Exchange::start(second, vec!["2".to_string()]);
    data.route_single_message(answer("2"), &mut metrics);
    assert!(!a.advance(&mut data, 0));
    assert!(b.advance(&mut data, 0));
    assert!(a.advance(&mut data, 60_000));
    assert!(!a.is_complete());
}

#[test]
fn notifications_are_bounded_and_early_ones_come_first() {
    let mut data = SessionData::new();
    let mut metrics = Metrics::new();
    let notice = |i: usize| msg(&format!(r#"{{"jsonrpc":"2.0","method":"n{i}"}}"#));
    data.route_single_message(notice(0), &mut metrics);
    data.route_single_message(answer("1"), &mut metrics);
    for i in 1..NOTIFICATION_CHANNEL_CAP + 5 {
        data.route_single_message(notice(i), &mut metrics);
    }
    let mut got = Vec::new();
    while let Some(m) = data.next_notification() {
        got.push(m);
    }
    assert_eq!(got.len(), NOTIFICATION_CHANNEL_CAP);
    assert_eq!(got[0].method_str(), Some("n0"));
    assert_eq!(got[1].method_str(), Some("n1"));
    assert_eq!(metrics.backpressure_events, 5);
}

// ---- Sessions ---------------------------------------------------------------------------------

#[test]
fn sessions_are_limited() {
    let config = SessionManagerConfig { max_sessions: 1, drain_timeout: 10, session_timeout: None };
    let mut sessions: SessionManager<SessionData> = SessionManager::new(config);
    let id = sessions.create(SessionId::from_value("a"), SessionData::new()).unwrap();
    assert!(matches!(
        sessions.create(SessionId::from_value("b"), SessionData::new()),
        Err(SessionError::MaxSessionsReached)
    ));
    assert!(sessions.complete_close(&id));
    assert!(!sessions.complete_close(&id));
    assert!(sessions.create(SessionId::from_value("b"), SessionData::new()).is_ok());
}

#[test]
fn use_of_a_session_stops_its_timers() {
    let config = SessionManagerConfig {
        max_sessions: 9,
        drain_timeout: 10,
        session_timeout: Some(100),
    };
    let mut sessions: SessionManager<SessionData> = SessionManager::new(config);
    let id = sessions.create(SessionId::from_value("a"), SessionData::new()).unwrap();
    let before = sessions.timeout_gen(&id).unwrap();
    sessions.acquire(&id).unwrap();
    assert_eq!(sessions.access_count(&id), Some(1));
    assert!(!sessions.try_idle_close(&id, before));
    sessions.release(&id);
    assert_eq!(sessions.access_count(&id), Some(0));
    assert!(!sessions.try_idle_close(&id, before));
    let now = sessions.timeout_gen(&id).unwrap();
    assert!(sessions.try_idle_close(&id, now));
    assert!(matches!(sessions.acquire(&id), Err(SessionError::NotFound)));
}

fn stateful() -> StatefulHttpGateway {
    StatefulHttpGateway::new("/mcp".into(), setup(true), Some(500), Metrics::new())
}

fn request(method: &str, session: Option<&str>, body: &str) -> GatewayRequest {
    let mut headers = pairs(&[
        ("content-type", "application/json"),
        ("accept", "application/json, text/event-stream"),
    ]);
    if let Some(id) = session {
        headers.push(("mcp-session-id".to_string(), id.to_string()));
    }
    GatewayRequest {
        method: method.into(),
        path: "/mcp".into(),
        headers,
        body: body.as_bytes().to_vec(),
        query: vec![],
    }
}

const INIT: &str = r#"{"jsonrpc":"2.0","id":0,"method":"initialize","params":{}}"#;
const LIST: &str = r#"{"jsonrpc":"2.0","id":1,"method":"tools/list"}"#;

#[test]
fn session_from_initialize_to_delete() {
    let mut gw = stateful();
    // Nothing but a request to initialize makes a session.
    assert!(matches!(
        gw.handle_request(&request("POST", None, LIST)),
        RequestResult::Response(ref r) if r.status == 400
    ));
    let post = match gw.handle_request(&request("POST", None, INIT)) {
        RequestResult::Initialize(post) => post,
        _ => panic!("expected Initialize"),
    };
    let post = gw.start_session(post).unwrap_or_else(|_| panic!("no session"));
    let id = post.session.clone().unwrap();
    let mut exchange = match gw.after_write(&id, &post.messages, Ok(())) {
        Forwarded::Wait(x) => x,
        _ => panic!("expected Wait"),
    };
    gw.relay(&id, parse_line(r#"{"jsonrpc":"2.0","id":0,"result":{"ok":1}}"#).unwrap());
    assert!(gw.advance_exchange(&id, &mut exchange, 0));
    let resp = gw.finish_exchange(&id, exchange);
    let (resp, timer) = gw.complete_post(post, resp);
    assert_eq!(resp.status, 200);
    assert!(resp.headers.iter().any(|(k, v)| k == "Mcp-Session-Id" && v == id.as_str()));
    assert_eq!(
        String::from_utf8(resp.body).unwrap(),
        "event: message\ndata: {\"jsonrpc\":\"2.0\",\"id\":0,\"result\":{\"ok\":1}}\n\n"
    );
    let (after, generation) = timer.unwrap();
    assert_eq!(after, 500);
    assert_eq!(gw.sessions.timeout_gen(&id), Some(generation));

    // The stream is given once.
    assert!(matches!(
        gw.handle_request(&request("GET", Some(id.as_str()), "")),
        RequestResult::SseStream(_)
    ));
    assert!(matches!(
        gw.handle_request(&request("GET", Some(id.as_str()), "")),
        RequestResult::Response(ref r) if r.status == 409
    ));
    gw.relay(&id, note(5));
    assert_eq!(gw.next_notification(&id).unwrap().unwrap().method_str(), Some("n5"));
    gw.disconnect_sse_stream(&id);

    // A deleted session takes no requests, and can be deleted again.
    match gw.handle_request(&request("DELETE", Some(id.as_str()), "")) {
        RequestResult::Drain(_, r) => assert_eq!(r.status, 200),
        _ => panic!("expected Drain"),
    }
    assert!(matches!(
        gw.handle_request(&request("DELETE", Some(id.as_str()), "")),
        RequestResult::Response(ref r) if r.status == 200
    ));
    assert!(matches!(
        gw.handle_request(&request("POST", Some(id.as_str()), LIST)),
        RequestResult::Response(ref r) if r.status == 503
    ));
    assert_eq!(gw.drain_session(&id, 0), DrainStep::Closed);
    assert!(matches!(
        gw.handle_request(&request("DELETE", Some(id.as_str()), "")),
        RequestResult::Response(ref r) if r.status == 404
    ));
}

#[test]
fn child_that_cannot_be_started_is_reported() {
    let mut gw = stateful();
    let post = match gw.handle_request(&request("POST", None, INIT)) {
        RequestResult::Initialize(post) => post,
        _ => panic!("expected Initialize"),
    };
    let resp = gw.spawn_failed(post, "no such file");
    assert_eq!(resp.status, 500);
    assert!(String::from_utf8(resp.body).unwrap().contains("failed to spawn child: no such file"));
    assert_eq!(gw.metrics.spawn_failures, 1);
    assert_eq!(gw.sessions.len(), 0);
}

// ---- Conversations ------------------------------------------------------------------------------

#[test]
fn child_is_initialized_before_anything_else() {
    let (mut talk, step) =
        Conversation::begin_as(vec![msg(LIST)], "2024-11-05", "init_1_abc".to_string());
    match step {
        Step::Write(ms) => {
            assert_eq!(ms.len(), 1);
            assert!(ms[0].is_initialize_request());
            assert_eq!(ms[0].id.as_ref().unwrap().get(), "\"init_1_abc\"");
        }
        _ => panic!("expected Write"),
    }
    assert!(matches!(talk.written(Ok(()), 10), Step::Read(5000)));
    // What the child says before it is initialized comes first in the answer.
    assert!(matches!(talk.read(ReadEvent::Parsed(note(1)), 20, false), Step::Read(4990)));
    let init = r#"{"jsonrpc":"2.0","id":"init_1_abc","result":{}}"#;
    match talk.read(ReadEvent::Parsed(parse_line(init).unwrap()), 30, false) {
        Step::Write(ms) => {
            assert_eq!(ms.len(), 2);
            assert_eq!(ms[0].method_str(), Some("notifications/initialized"));
            assert_eq!(ms[1].method_str(), Some("tools/list"));
        }
        _ => panic!("expected Write"),
    }
    assert!(matches!(talk.written(Ok(()), 40), Step::Read(60000)));
    let list = r#"{"jsonrpc":"2.0","id":1,"result":[]}"#;
    match talk.read(ReadEvent::Parsed(parse_line(list).unwrap()), 50, false) {
        Step::Done(resp) => {
            assert_eq!(resp.status, 200);
            let body = String::from_utf8(resp.body).unwrap();
            assert!(body.find("\"n1\"").unwrap() < body.find("\"result\":[]").unwrap());
            assert!(!body.contains("init_1_abc"));
        }
        _ => panic!("expected Done"),
    }
}

#[test]
fn request_to_initialize_is_passed_through() {
    let (mut talk, step) = Conversation::begin(vec![msg(INIT)], "2024-11-05");
    match step {
        Step::Write(ms) => {
            assert_eq!(ms.len(), 1);
            assert_eq!(ms[0].id.as_ref().unwrap().get(), "0");
        }
        _ => panic!("expected Write"),
    }
    assert!(matches!(talk.written(Ok(()), 0), Step::Read(_)));
    assert!(matches!(
        talk.read(ReadEvent::Closed, 1, true),
        Step::Done(ref r) if r.status == 502
    ));
}

// ---- Clients of other servers -----------------------------------------------------------------------

fn http_gateway() -> HttpToStdioGateway {
    HttpToStdioGateway::new("http://h/mcp".into(), "2024-11-05".into(), vec![])
}

#[test]
fn waiting_messages_are_posted_once_and_in_order() {
    let mut gw = http_gateway();
    assert!(matches!(
        gw.handle_stdin_as(msg(LIST), "init_1_x".to_string()),
        StdinAction::PostInit(_)
    ));
    assert!(matches!(
        gw.handle_stdin_message(msg(r#"{"jsonrpc":"2.0","method":"second"}"#)),
        StdinAction::Buffered
    ));
    let reply = HttpResponse {
        status: 200,
        headers: pairs(&[("content-type", "application/json"), ("mcp-session-id", "s1")]),
        body: br#"{"jsonrpc":"2.0","id":"init_1_x","result":{}}"#.to_vec(),
    };
    let mut headers = gw.request_headers();
    gw.note_session(&mut headers, &reply);
    assert_eq!(headers, pairs(&[("Mcp-Session-Id", "s1")]));
    assert_eq!(gw.request_headers(), pairs(&[("Mcp-Session-Id", "s1")]));
    let out = gw.handle_response(&reply, false, &mut log());
    assert!(out.stdout.is_empty());
    let methods: Vec<_> = out.post.iter().map(|m| m.method_str()).collect();
    assert_eq!(
        methods,
        [Some("notifications/initialized"), Some("tools/list"), Some("second")]
    );
    assert!(gw.is_initialized());
    assert!(gw.pending.is_empty());
}

#[test]
fn delivery_posts_follow_ups_before_the_rest() {
    let mut gw = http_gateway();
    let mut delivery = gw.deliver_as(msg(LIST), "init_1_y".to_string());
    let (init, follow_up) = delivery.next_post().unwrap();
    assert!(init.is_initialize_request());
    assert!(!follow_up);
    assert!(delivery.headers().is_empty());
    let reply = HttpResponse {
        status: 200,
        headers: pairs(&[("content-type", "application/json"), ("mcp-session-id", "s2")]),
        body: br#"{"jsonrpc":"2.0","id":"init_1_y","result":{}}"#.to_vec(),
    };
    assert!(gw.answered(&mut delivery, &reply, false, &mut log()).is_empty());
    assert_eq!(delivery.headers(), &pairs(&[("Mcp-Session-Id", "s2")]));
    let (first, follow_up) = delivery.next_post().unwrap();
    assert_eq!(first.method_str(), Some("notifications/initialized"));
    assert!(follow_up);
    let accepted = HttpResponse { status: 202, headers: vec![], body: vec![] };
    assert!(gw.answered(&mut delivery, &accepted, true, &mut log()).is_empty());
    let (second, follow_up) = delivery.next_post().unwrap();
    assert_eq!(second.method_str(), Some("tools/list"));
    assert!(follow_up);
    let list = HttpResponse {
        status: 200,
        headers: pairs(&[("content-type", "application/json")]),
        body: br#"{"jsonrpc":"2.0","id":1,"result":[]}"#.to_vec(),
    };
    assert_eq!(gw.answered(&mut delivery, &list, true, &mut log()).len(), 1);
    assert!(delivery.next_post().is_none());
}

#[test]
fn only_the_synthetic_answer_is_kept_back() {
    let mut gw = http_gateway();
    gw.phase = InitPhase::WaitingSyntheticInit("q".into());
    let reply = HttpResponse {
        status: 200,
        headers: pairs(&[("content-type", "text/event-stream")]),
        body: b"data: {\"jsonrpc\":\"2.0\",\"method\":\"a\"}\n\n\
                data: {\"jsonrpc\":\"2.0\",\"id\":\"q\",\"result\":{}}\n\n\
                data: {\"jsonrpc\":\"2.0\",\"method\":\"b\"}\n\n"
            .to_vec(),
    };
    let out = gw.handle_response(&reply, false, &mut log());
    let methods: Vec<_> = out.stdout.iter().map(|m| m.method_str()).collect();
    assert_eq!(methods, [Some("a"), Some("b")]);
}

#[test]
fn error_prefix_is_taken_away() {
    assert_eq!(strip_error_prefix("MCP error -7: MCP error 8: x"), "MCP error 8: x");
}

#[test]
fn captured_session_is_sent() {
    let mut client = HttpClient::new(&vec![Header { name: "X".into(), value: "1".into() }]);
    let resp = ClientResponse {
        status: 200,
        headers: pairs(&[("MCP-SESSION-ID", "abc")]),
        body: vec![],
    };
    client.capture_session_id(&resp.headers);
    assert_eq!(client.build_headers(), pairs(&[("X", "1"), ("Mcp-Session-Id", "abc")]));
    assert_eq!(
        client.post_headers("application/json").last().unwrap().1,
        "application/json"
    );
}

// ---- Authorization --------------------------------------------------------------------------------

fn oauth() -> OAuth2Handler {
    OAuth2Handler::new(OAuth2ServerConfig {
        client_id: "c".into(),
        client_secret: "s".into(),
        token_expiry_secs: 10,
        issuer: None,
    })
}

fn status(r: &OAuth2Result) -> u16 {
    match r {
        OAuth2Result::EndpointResponse(resp) => resp.status,
        OAuth2Result::Passthrough(Ok(())) => 0,
        OAuth2Result::Passthrough(Err(_)) => 1,
    }
}

fn run(
    h: &mut OAuth2Handler,
    method: &str,
    path: &str,
    headers: &[(&str, &str)],
    body: &str,
    query: &[(&str, &str)],
    now: u64,
    name: &str,
) -> OAuth2Result {
    h.process_at(
        method,
        path,
        &pairs(headers),
        body.as_bytes(),
        &pairs(query),
        now,
        name.to_string(),
        format!("{name}-2"),
    )
}

#[test]
fn token_works_until_it_expires() {
    let mut h = oauth();
    let body = "grant_type=client_credentials&client_id=c&client_secret=s";
    assert_eq!(status(&run(&mut h, "POST", "/token", &[], body, &[], 1000, "tok")), 200);
    let auth = [("authorization", "Bearer tok")];
    assert_eq!(status(&run(&mut h, "POST", "/mcp", &auth, "", &[], 10_999, "x")), 0);
    assert_eq!(status(&run(&mut h, "POST", "/mcp", &auth, "", &[], 11_001, "x")), 1);
    let other = [("authorization", "Bearer other")];
    assert_eq!(status(&run(&mut h, "POST", "/mcp", &other, "", &[], 1001, "x")), 1);
}

#[test]
fn code_is_used_once_and_in_time() {
    let query = [
        ("client_id", "c"),
        ("redirect_uri", "https://a.b/cb"),
        ("response_type", "code"),
    ];
    let body = "grant_type=authorization_code&code=code1&client_id=c&client_secret=s&redirect_uri=https%3A%2F%2Fa.b%2Fcb";
    let mut h = oauth();
    assert_eq!(status(&run(&mut h, "GET", "/authorize", &[], "", &query, 0, "code1")), 302);
    assert_eq!(status(&run(&mut h, "POST", "/token", &[], body, &[], 1, "t1")), 200);
    assert_eq!(status(&run(&mut h, "POST", "/token", &[], body, &[], 2, "t2")), 400);
    let mut h = oauth();
    assert_eq!(status(&run(&mut h, "GET", "/authorize", &[], "", &query, 0, "code1")), 302);
    let late = CODE_EXPIRY_MS + 1;
    assert_eq!(status(&run(&mut h, "POST", "/token", &[], body, &[], late, "t1")), 400);
}

#[test]
fn code_gets_a_token_whatever_comes_between() {
    // The challenge of the verifier in RFC 7636, appendix B.
    let verifier = "dBjftJeZ4CVP-mB92K27uhbUJU1p1r_wW1gFWFOEjXk";
    let issue = [
        ("client_id", "c"),
        ("redirect_uri", "https://a.b/cb"),
        ("response_type", "code"),
        ("code_challenge", "E9Melhoa2OwvFrEMTJguCHaoeK1t8URWbuGJSstw-cM"),
        ("code_challenge_method", "S256"),
    ];
    let proper = format!(
        "grant_type=authorization_code&code=k&client_id=c&client_secret=s\
         &redirect_uri=https%3A%2F%2Fa.b%2Fcb&code_verifier={verifier}"
    );
    let stranger = proper.replace("client_secret=s", "client_secret=x");
    let unverified = proper.replace(verifier, "other");
    let other_issue = [
        ("client_id", "c"),
        ("redirect_uri", "https://a.b/cb"),
        ("response_type", "code"),
    ];
    let ask = |between: &[(&str, &str, &str)], now: u64| {
        let mut h = oauth();
        assert_eq!(status(&run(&mut h, "GET", "/authorize", &[], "", &issue, 5, "k")), 302);
        for (i, (method, path, body)) in between.iter().enumerate() {
            let query: &[(&str, &str)] = if *path == "/authorize" { &other_issue } else { &[] };
            run(&mut h, method, path, &[], body, query, 6, &format!("n{i}"));
        }
        let first = status(&run(&mut h, "POST", "/token", &[], &proper, &[], now, "t"));
        let second = status(&run(&mut h, "POST", "/token", &[], &proper, &[], now, "u"));
        (first, second)
    };
    let last = 5 + CODE_EXPIRY_MS;
    assert_eq!(ask(&[], 7), (200, 400));
    assert_eq!(ask(&[], last), (200, 400));
    assert_eq!(ask(&[], last + 1), (400, 400));
    let harmless = [
        ("GET", "/authorize", ""),
        ("POST", "/token", stranger.as_str()),
        ("POST", "/register", r#"{"redirect_uris":["https://n.c"]}"#),
        ("GET", "/mcp", ""),
    ];
    assert_eq!(ask(&harmless, 7), (200, 400));
    // A client that shows its secret uses the code up, even where it gets nothing for it.
    assert_eq!(ask(&[("POST", "/token", unverified.as_str())], 7), (400, 400));
}

#[test]
fn registered_client_is_known() {
    let mut h = oauth();
    let reg = r#"{"redirect_uris":["https://n.c/cb"]}"#;
    assert_eq!(status(&run(&mut h, "POST", "/register", &[], reg, &[], 0, "new")), 201);
    let query = [
        ("client_id", "new"),
        ("redirect_uri", "https://n.c/cb"),
        ("response_type", "code"),
    ];
    assert_eq!(status(&run(&mut h, "GET", "/authorize", &[], "", &query, 1, "k")), 302);
    let unknown = [
        ("client_id", "nobody"),
        ("redirect_uri", "https://n.c/cb"),
        ("response_type", "code"),
    ];
    assert_ne!(status(&run(&mut h, "GET", "/authorize", &[], "", &unknown, 1, "k")), 302);
}

// ---- The rest --------------------------------------------------------------------------------------

#[test]
fn reading_does_not_depend_on_the_chunks() {
    let mut metrics = Metrics::new();
    let mut logger = Logger::buffered(OutputTransport::Sse, LogLevel::Debug);
    let mut bytes = Vec::new();
    write_message(&mut bytes, &msg(LIST));
    bytes.extend_from_slice("bad é\n".as_bytes());
    write_message(&mut bytes, &msg(INIT));
    let mut codec = StdoutCodec::new(1024);
    let mut methods = Vec::new();
    for b in &bytes {
        codec.push(&[*b]);
        while let Ok(MessageRead::Message(Parsed::Single(m))) =
            codec.read_message(&mut metrics, &mut logger)
        {
            methods.push(m.method_str().unwrap().to_string());
        }
    }
    assert_eq!(methods, ["tools/list", "initialize"]);
    assert_eq!(metrics.decode_errors, 1);
}

#[test]
fn written_message_is_read() {
    let text = r#"{"jsonrpc":"2.0","id":1.50,"method":"m","params":[1, 2],"_meta":{"a":null}}"#;
    let m = msg(text);
    let mut bytes = Vec::new();
    write_message(&mut bytes, &m);
    let line = String::from_utf8(bytes).unwrap();
    let again = msg(line.trim_end());
    assert_eq!(again.id.as_ref().unwrap().get(), "1.50");
    assert_eq!(again.params.as_ref().unwrap().get(), "[1, 2]");
    assert_eq!(again.extra[0].0, "_meta");
    assert_eq!(again.to_json(), m.to_json());
}

#[test]
fn health_is_good_when_ready() {
    let mut m = Metrics::new();
    for detail in [false, true] {
        assert_eq!(check_health(&m, detail, LogLevel::Info).status_code(), 503);
    }
    m.set_ready();
    for detail in [false, true] {
        assert_eq!(check_health(&m, detail, LogLevel::Debug).status_code(), 200);
    }
}

#[test]
fn errors_have_error_status() {
    for e in [
        GatewayError::bad_request("x"),
        GatewayError::invalid_session(),
        GatewayError::child_dead(),
        GatewayError::method_not_allowed(),
        GatewayError::auto_init_timeout(),
        GatewayError::sse_stream_conflict(),
    ] {
        assert!(e.status_code() >= 400);
        assert_eq!(e.content_type() == "text/plain", e.json_rpc_code().is_none());
    }
}

#[test]
fn stdout_is_kept_clean() {
    let mut logger = Logger::new(OutputTransport::Stdio, LogLevel::Debug);
    logger.info("a");
    logger.debug("b");
    logger.error("c");
    let lines = logger.take_pending();
    assert_eq!(lines.len(), 3);
    assert!(lines.iter().all(|l| l.to_stderr));
    let mut logger = Logger::new(OutputTransport::Sse, LogLevel::Off);
    logger.info("a");
    logger.error("c");
    assert!(logger.take_pending().is_empty());
}

#[test]
fn cors_list_varies_and_grants_no_credentials() {
    let list = CorsConfig::Origins(vec![CorsOrigin::Literal("https://a.b".into())]);
    let handler = CorsHandler::new(list, false);
    for (origin, granted) in [("https://a.b", true), ("https://evil.b", false)] {
        let headers = match handler.process("GET", Some(origin)) {
            CorsResult::ResponseHeaders(h) => h,
            _ => panic!("expected headers"),
        };
        assert!(headers.iter().any(|(k, v)| k == "Vary" && v == "Origin"));
        assert_eq!(
            headers.iter().any(|(k, _)| k == "Access-Control-Allow-Origin"),
            granted
        );
        assert!(!headers.iter().any(|(k, _)| k == "Access-Control-Allow-Credentials"));
    }
}

#[test]
fn last_custom_header_wins() {
    let mut headers = pairs(&[("x-a", "0"), ("B", "1")]);
    let custom = vec![
        Header { name: "X-A".into(), value: "1".into() },
        Header { name: "x-A".into(), value: "2".into() },
    ];
    apply_custom_headers(&mut headers, &custom);
    assert_eq!(headers, pairs(&[("B", "1"), ("x-A", "2")]));
}

#[test]
fn number_is_read_back() {
    for n in [0, 7, 10, 65535, u64::MAX] {
        assert_eq!(parse_number(&decimal_text(n), u64::MAX), Some(n));
    }
    assert_eq!(parse_number("65536", 65535), None);
    assert_eq!(parse_number("", 9), None);
    assert_eq!(parse_number("1x", 99), None);
}
