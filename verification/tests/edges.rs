//! Edge cases, and what every error says.

use supergateway::child::{
    stderr_log_line, ChildError, ChildState, KillStep, WriteOutcome,
};
use supergateway::cli::{
    parse_cors, CorsConfig, CorsOrigin, LogLevel, OAuth2ServerConfig, OutputTransport,
};
use supergateway::client::http::{HttpClient, HttpClientError, RedirectStep, MAX_GET_REDIRECTS};
use supergateway::codec::{read_stderr_line, CodecError};
use supergateway::cors::CorsHandler;
use supergateway::gateway::http_to_stdio::{handle_client_error, read_stdin_line, ErrorAction};
use supergateway::gateway::reply::{http_reason, reply_bytes, GatewayResponse};
use supergateway::gateway::sse_to_stdio::{extract_error_code, init_id, narrow_code};
use supergateway::gateway::stateful_http::parse_query;
use supergateway::json::{quote, read_strings, write_array, write_object, RawValue};
use supergateway::jsonrpc::{batch_to_json, parse_line, parse_message, ParseError, Problem, RawMessage};
use supergateway::oauth2::{percent_decode, unauthorized_response, OAuth2Error, OAuth2Handler, OAuth2Result};
use supergateway::observe::Logger;
use supergateway::text::{split_text, trim, trim_quotes};

fn pairs(list: &[(&str, &str)]) -> Vec<(String, String)> {
    list.iter()
        .map(|(k, v)| (k.to_string(), v.to_string()))
        .collect()
}

#[test]
fn child_takes_messages_while_it_lives() {
    let msg = parse_message(r#"{"jsonrpc":"2.0","id":1,"method":"m"}"#).unwrap();
    let mut child = ChildState::started();
    assert_eq!(
        child.begin_write(&msg).unwrap(),
        b"{\"jsonrpc\":\"2.0\",\"id\":1,\"method\":\"m\"}\n"
    );
    assert!(child.end_write(WriteOutcome::Written).is_ok());
    assert!(matches!(
        child.end_write(WriteOutcome::Failed("disk".into())),
        Err(ChildError::Io(ref e)) if e == "disk"
    ));
    assert!(!child.dead);
    assert!(matches!(child.end_write(WriteOutcome::PipeBroken), Err(ChildError::BrokenPipe)));
    assert!(child.dead && !child.stdin_open);
    assert!(matches!(child.begin_write(&msg), Err(ChildError::BrokenPipe)));
}

#[test]
fn child_ends() {
    let mut child = ChildState::started();
    child.close_stdin();
    assert!(!child.stdin_open);
    assert_eq!(child.kill_step(0, 100), KillStep::Wait);
    assert_eq!(child.kill_step(99, 100), KillStep::Wait);
    assert_eq!(child.kill_step(100, 100), KillStep::Kill);
    child.exited(Some(42));
    assert_eq!(child.exit_code, Some(42));
    assert_eq!(child.kill_step(0, 100), KillStep::Done);
    let mut child = ChildState::started();
    child.read_failed(&CodecError::Io("x".into()));
    assert!(!child.dead);
    child.read_failed(&CodecError::InvalidUtf8);
    assert!(child.dead);
}

#[test]
fn stderr_lines_are_logged() {
    assert_eq!(stderr_log_line("oops"), Some("[child stderr] oops".to_string()));
    assert_eq!(stderr_log_line(""), None);
    assert_eq!(read_stderr_line(b"a\nb", 9), (Some("a".to_string()), 2));
    assert_eq!(read_stderr_line(b"abcdef\n", 3), (Some("abc".to_string()), 7));
}

#[test]
fn child_errors_in_words() {
    assert_eq!(ChildError::Spawn("x".into()).to_string(), "failed to spawn child: x");
    assert_eq!(ChildError::BrokenPipe.to_string(), "broken pipe to child stdin");
    assert_eq!(ChildError::StdoutClosed.to_string(), "child stdout closed");
    assert_eq!(ChildError::Io("x".into()).to_string(), "I/O error: x");
    assert_eq!(
        ChildError::Codec(CodecError::BufferOverflow { size: 7, limit: 5 }).to_string(),
        "codec error: partial buffer overflow (7 bytes exceeds 5 byte limit)"
    );
    assert_eq!(
        CodecError::InvalidUtf8.to_string(),
        "invalid UTF-8 on stdout (protocol violation)"
    );
}

#[test]
fn http_client_errors_in_words() {
    assert_eq!(HttpClientError::InvalidUrl("u".into()).to_string(), "invalid URL: u");
    assert_eq!(HttpClientError::Connect("c".into()).to_string(), "connection failed: c");
    assert_eq!(HttpClientError::Tls("t".into()).to_string(), "TLS error: t");
    assert_eq!(HttpClientError::Protocol("p".into()).to_string(), "HTTP protocol error: p");
    assert_eq!(
        HttpClientError::TooManyRedirects { count: 6, max: 5 }.to_string(),
        "too many redirects (6 of max 5)"
    );
    assert_eq!(
        HttpClientError::ServerError { status: 502, body: "b".into() }.to_string(),
        "server error 502: b"
    );
    assert_eq!(HttpClientError::Io("i".into()).to_string(), "I/O error: i");
}

#[test]
fn redirects_are_followed_so_often() {
    let client = HttpClient::new(&vec![]);
    let to = pairs(&[("location", "/b")]);
    assert!(matches!(client.redirect_step("http://h/a", 200, &to, 0), RedirectStep::Done));
    match client.redirect_step("http://h:81/a", 302, &to, 0) {
        RedirectStep::Follow(url) => assert_eq!(url, "http://h:81/b"),
        other => panic!("expected Follow, got {other:?}"),
    }
    assert!(matches!(
        client.redirect_step("http://h/a", 302, &vec![], 0),
        RedirectStep::Done
    ));
    assert!(matches!(
        client.redirect_step("http://h/a", 302, &to, MAX_GET_REDIRECTS),
        RedirectStep::TooMany(HttpClientError::TooManyRedirects { count: 6, max: 5 })
    ));
}

#[test]
fn closed_connection_makes_the_gateway_exit() {
    let mut logger = Logger::buffered(OutputTransport::Stdio, LogLevel::Info);
    let reset = HttpClientError::Io("connection reset by peer".into());
    assert_eq!(handle_client_error(&reset, &mut logger), ErrorAction::Exit);
    let eof = HttpClientError::Io("unexpected EOF".into());
    assert_eq!(handle_client_error(&eof, &mut logger), ErrorAction::Exit);
    let other = HttpClientError::Connect("refused".into());
    assert_eq!(handle_client_error(&other, &mut logger), ErrorAction::Retry);
    assert!(logger.get_output().contains("HTTP transport error: connection failed: refused"));
}

#[test]
fn texts_that_are_no_message() {
    assert!(matches!(
        parse_message(r#"{"id":1}"#),
        Err(ParseError::Message(Problem::MissingVersion))
    ));
    assert!(matches!(
        parse_message(r#"{"jsonrpc":2}"#),
        Err(ParseError::Message(Problem::VersionNotString))
    ));
    assert!(matches!(
        parse_message(r#"{"jsonrpc":"2.0","method":1}"#),
        Err(ParseError::Message(Problem::MethodNotString))
    ));
    assert!(matches!(parse_message("[]"), Err(ParseError::Syntax(_))));
    assert!(parse_line("[{}]").is_err());
    assert!(parse_line("[]").is_ok());
    let e = parse_message(r#"{"id":1}"#).unwrap_err();
    assert_eq!(e.message(), "missing field `jsonrpc`");
}

#[test]
fn values_keep_their_text() {
    assert_eq!(RawValue::from_string(" 1.0 ".into()).unwrap().get(), "1.0");
    assert_eq!(RawValue::from_string("{\"a\" : 1}".into()).unwrap().get(), "{\"a\" : 1}");
    assert!(RawValue::from_string("nope".into()).is_none());
    assert!(RawValue::from_string("1 2".into()).is_none());
    assert_eq!(quote("a\"b\n"), r#""a\"b\n""#);
    assert_eq!(write_array(&vec!["1".into(), "null".into()]), "[1,null]");
    assert_eq!(write_object(&pairs(&[("a", "1"), ("b c", "[]")])), r#"{"a":1,"b c":[]}"#);
    assert_eq!(read_strings(r#"["a","b"]"#), Some(vec!["a".to_string(), "b".to_string()]));
    assert_eq!(read_strings("[1,\"x\"]"), Some(vec!["x".to_string()]));
    assert_eq!(read_strings("1"), None);
}

#[test]
fn batches_are_written() {
    let a = RawMessage::error_response(None, -32000, "no");
    assert_eq!(
        batch_to_json(&vec![a]),
        r#"[{"jsonrpc":"2.0","id":null,"error":{"code":-32000,"message":"no"}}]"#
    );
}

#[test]
fn stdin_lines_are_read() {
    assert!(read_stdin_line("  \n").is_none());
    assert!(read_stdin_line("nonsense\n").is_none());
    assert!(read_stdin_line("[]\n").is_none());
    let m = read_stdin_line(" {\"jsonrpc\":\"2.0\",\"method\":\"m\"}\r\n").unwrap();
    assert_eq!(m.method_str(), Some("m"));
}

#[test]
fn error_codes_are_narrowed() {
    assert_eq!(narrow_code(Some(-32600)), Some(-32600));
    assert_eq!(narrow_code(Some(4294967297)), Some(1));
    assert_eq!(narrow_code(None), None);
    let m = parse_message(r#"{"jsonrpc":"2.0","id":1,"error":{"code":-5,"message":""}}"#).unwrap();
    assert_eq!(extract_error_code(&m), Some(-5));
}

#[test]
fn init_ids_are_made_of_time_and_random_bytes() {
    assert_eq!(init_id(12, &[0, 1, 9, 10, 35, 36, 37, 255, 71]), "init_12_019az013z");
}

#[test]
fn forms_and_queries_are_decoded() {
    assert_eq!(percent_decode("a%20b+c%2"), "a b c%2");
    assert_eq!(parse_query("a=1&b&a=2"), pairs(&[("a", "2"), ("b", "")]));
    assert_eq!(split_text("a,,b", ','), ["a", "", "b"]);
    assert_eq!(trim("\t x \n"), "x");
    assert_eq!(trim_quotes("\"\"x\""), "x");
}

#[test]
fn origins_are_literal_or_patterns() {
    assert!(matches!(parse_cors(None), CorsConfig::Disabled));
    assert!(matches!(parse_cors(Some(vec![])), CorsConfig::Wildcard));
    match parse_cors(Some(vec!["https://a.b".into(), "/^https:..x$/".into(), "/[/".into()])) {
        CorsConfig::Origins(os) => {
            assert!(matches!(os[0], CorsOrigin::Literal(ref s) if s == "https://a.b"));
            assert!(matches!(os[1], CorsOrigin::Regex(ref s) if s == "^https:..x$"));
            assert!(matches!(os[2], CorsOrigin::Literal(ref s) if s == "/[/"));
        }
        _ => panic!("expected a list"),
    }
    let handler = CorsHandler::new(
        CorsConfig::Origins(vec![CorsOrigin::Regex("^https://.*[.]b$".into())]),
        false,
    );
    assert!(handler.origin_allowed("https://a.b"));
    assert!(!handler.origin_allowed("https://a.c"));
}

#[test]
fn replies_are_written() {
    assert_eq!(http_reason(200), "OK");
    assert_eq!(http_reason(503), "Service Unavailable");
    let resp = GatewayResponse {
        status: 202,
        headers: pairs(&[("Content-Type", "text/plain")]),
        body: "Accepted".into(),
    };
    let text = String::from_utf8(reply_bytes(&resp)).unwrap();
    assert!(text.starts_with("HTTP/1.1 202 Accepted\r\nContent-Type: text/plain\r\n"));
    assert!(text.ends_with("\r\n\r\nAccepted"));
}

fn error_of(r: OAuth2Result) -> (u16, String) {
    match r {
        OAuth2Result::EndpointResponse(resp) => {
            let v: serde_json::Value = serde_json::from_slice(&resp.body).unwrap();
            (resp.status, v["error_description"].as_str().unwrap().to_string())
        }
        other => panic!("expected an answer, got {other:?}"),
    }
}

fn token(h: &mut OAuth2Handler, body: &str, now: u64) -> (u16, String) {
    error_of(h.process_at(
        "POST",
        "/token",
        &vec![],
        body.as_bytes(),
        &vec![],
        now,
        "t".into(),
        "u".into(),
    ))
}

fn authorize(h: &mut OAuth2Handler, query: &[(&str, &str)]) -> OAuth2Result {
    h.process_at(
        "GET",
        "/authorize",
        &vec![],
        b"",
        &pairs(query),
        0,
        "k".into(),
        "l".into(),
    )
}

fn oauth() -> OAuth2Handler {
    OAuth2Handler::new(OAuth2ServerConfig {
        client_id: "c".into(),
        client_secret: "s".into(),
        token_expiry_secs: 10,
        issuer: None,
    })
}

#[test]
fn marked_registration_stands_for_the_document_in_it() {
    let mut h = oauth();
    let inner = r#"{\"redirect_uris\":[\"https://n.c\"]}"#;
    let body = format!(r#"{{"$serde_json::private::RawValue":"{inner}"}}"#);
    let r = h.process_at(
        "POST",
        "/register",
        &vec![],
        body.as_bytes(),
        &vec![],
        0,
        "id".into(),
        "secret".into(),
    );
    match r {
        OAuth2Result::EndpointResponse(resp) => {
            let v: serde_json::Value = serde_json::from_slice(&resp.body).unwrap();
            assert_eq!(resp.status, 201);
            assert_eq!(v["redirect_uris"][0], "https://n.c");
        }
        other => panic!("expected an answer, got {other:?}"),
    }
}

#[test]
fn token_requests_are_refused_with_reasons() {
    let mut h = oauth();
    assert_eq!(token(&mut h, "a=b", 0), (400, "missing grant_type".to_string()));
    assert_eq!(
        token(&mut h, "grant_type=password", 0),
        (400, "unsupported grant_type".to_string())
    );
    assert_eq!(
        token(&mut h, "grant_type=authorization_code", 0),
        (400, "missing code".to_string())
    );
    let base = "grant_type=authorization_code&client_id=c&client_secret=s&code=k";
    assert_eq!(
        token(&mut h, base, 0),
        (400, "invalid or expired authorization code".to_string())
    );
    let query = [("client_id", "c"), ("redirect_uri", "https://a/cb"), ("response_type", "code")];
    authorize(&mut h, &query);
    assert_eq!(
        token(&mut h, &format!("{base}&redirect_uri=https://b"), 0),
        (400, "redirect_uri mismatch".to_string())
    );
    authorize(&mut h, &query);
    assert_eq!(
        token(&mut h, base, 600_001),
        (400, "authorization code expired".to_string())
    );
    let mut with_pkce = query.to_vec();
    with_pkce.push(("code_challenge", "xyz"));
    with_pkce.push(("code_challenge_method", "S256"));
    authorize(&mut h, &with_pkce);
    assert_eq!(
        token(&mut h, base, 0),
        (400, "missing code_verifier (PKCE required)".to_string())
    );
}

#[test]
fn authorization_requests_are_refused_with_reasons() {
    let mut h = oauth();
    assert_eq!(error_of(authorize(&mut h, &[])).1, "missing client_id");
    assert_eq!(error_of(authorize(&mut h, &[("client_id", "c")])).1, "missing redirect_uri");
    let query = [("client_id", "c"), ("redirect_uri", "u"), ("response_type", "token")];
    assert_eq!(error_of(authorize(&mut h, &query)).1, "only 'code' is supported");
    let query = [("client_id", "x"), ("redirect_uri", "u"), ("response_type", "code")];
    assert_eq!(error_of(authorize(&mut h, &query)).1, "unknown client_id");
    let query = [
        ("client_id", "c"),
        ("redirect_uri", "u"),
        ("response_type", "code"),
        ("code_challenge", "z"),
        ("code_challenge_method", "plain"),
    ];
    assert_eq!(
        error_of(authorize(&mut h, &query)).1,
        "only S256 code_challenge_method is supported"
    );
    let resp = unauthorized_response(&OAuth2Error::Unauthorized("expired".into()));
    assert_eq!(resp.status, 401);
}
