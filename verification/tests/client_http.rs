//! The HTTP client: headers, sessions, redirects, failed requests.

use supergateway::cli::Header;
use supergateway::client::http::{
    get_header, is_redirect, resolve_redirect_url, HttpClient, HttpClientError, HttpResponse,
};

fn response(status: u16, body: Vec<u8>, content_type: Option<&str>) -> HttpResponse {
    let mut headers = Vec::new();
    if let Some(value) = content_type {
        headers.push(("Content-Type".to_owned(), value.to_owned()));
    }
    HttpResponse { status, headers, body }
}

#[test]
fn get_header_case_insensitive() {
    let headers = vec![
        ("Content-Type".to_owned(), "application/json".to_owned()),
        ("Mcp-Session-Id".to_owned(), "sess-123".to_owned()),
    ];
    assert_eq!(get_header(&headers, "content-type"), Some("application/json"));
    assert_eq!(get_header(&headers, "MCP-SESSION-ID"), Some("sess-123"));
    assert_eq!(get_header(&headers, "X-Missing"), None);
}

#[test]
fn redirect_status_codes() {
    assert!(is_redirect(301));
    assert!(is_redirect(302));
    assert!(is_redirect(303));
    assert!(is_redirect(307));
    assert!(is_redirect(308));
    assert!(!is_redirect(200));
    assert!(!is_redirect(404));
    assert!(!is_redirect(304));
}

#[test]
fn resolve_absolute_url() {
    let result = resolve_redirect_url(
        "http://example.com/old",
        "https://other.com/new",
    );
    assert_eq!(result, "https://other.com/new");
}

#[test]
fn resolve_protocol_relative() {
    let result = resolve_redirect_url(
        "https://example.com/old",
        "//cdn.example.com/asset",
    );
    assert_eq!(result, "https://cdn.example.com/asset");
}

#[test]
fn resolve_absolute_path() {
    let result = resolve_redirect_url(
        "http://example.com:8080/old/page",
        "/new/page",
    );
    assert_eq!(result, "http://example.com:8080/new/page");
}

#[test]
fn resolve_relative_path() {
    let result = resolve_redirect_url(
        "http://example.com/dir/old",
        "new",
    );
    assert_eq!(result, "http://example.com:80/dir/new");
}

#[test]
fn http_response_content_type() {
    let resp = HttpResponse {
        status: 200,
        headers: vec![
            ("Content-Type".to_owned(), "text/event-stream".to_owned()),
        ],
        body: Vec::new(),
    };
    assert_eq!(resp.content_type(), Some("text/event-stream"));
}

#[test]
fn http_response_session_id() {
    let resp = HttpResponse {
        status: 200,
        headers: vec![
            ("Mcp-Session-Id".to_owned(), "abc-123".to_owned()),
        ],
        body: Vec::new(),
    };
    assert_eq!(resp.mcp_session_id(), Some("abc-123"));
}

#[test]
fn http_response_missing_headers() {
    let resp = HttpResponse {
        status: 200,
        headers: Vec::new(),
        body: Vec::new(),
    };
    assert_eq!(resp.content_type(), None);
    assert_eq!(resp.mcp_session_id(), None);
}

#[test]
fn client_new_with_headers() {
    let headers = vec![
        Header {
            name: "X-Custom".into(),
            value: "val".into(),
        },
        Header {
            name: "Authorization".into(),
            value: "Bearer tok123".into(),
        },
    ];
    let client = HttpClient::new(&headers);
    assert_eq!(client.custom_headers.len(), 2);
    assert_eq!(client.custom_headers[0].0, "X-Custom");
    assert_eq!(client.custom_headers[1].1, "Bearer tok123");
}

#[test]
fn client_new_empty_headers() {
    let client = HttpClient::new(&Vec::new());
    assert!(client.custom_headers.is_empty());
}

#[test]
fn session_id_initially_none() {
    let client = HttpClient::new(&Vec::new());
    assert!(client.session_id().is_none());
}

#[test]
fn session_id_set_and_get() {
    let mut client = HttpClient::new(&Vec::new());
    client.set_session_id(Some("sess-abc".into()));
    assert_eq!(client.session_id(), Some("sess-abc".into()));
}

#[test]
fn session_id_clear() {
    let mut client = HttpClient::new(&Vec::new());
    client.set_session_id(Some("sess-abc".into()));
    client.set_session_id(None);
    assert!(client.session_id().is_none());
}

#[test]
fn capture_session_id_from_headers() {
    let mut client = HttpClient::new(&Vec::new());
    let headers = vec![
        ("Mcp-Session-Id".to_owned(), "new-sess".to_owned()),
    ];
    client.capture_session_id(&headers);
    assert_eq!(client.session_id(), Some("new-sess".into()));
}

#[test]
fn capture_session_id_case_insensitive() {
    let mut client = HttpClient::new(&Vec::new());
    let headers = vec![
        ("mcp-session-id".to_owned(), "lower-case".to_owned()),
    ];
    client.capture_session_id(&headers);
    assert_eq!(client.session_id(), Some("lower-case".into()));
}

#[test]
fn capture_session_id_not_present_keeps_old() {
    let mut client = HttpClient::new(&Vec::new());
    client.set_session_id(Some("old-sess".into()));
    let headers = vec![
        ("Content-Type".to_owned(), "application/json".to_owned()),
    ];
    client.capture_session_id(&headers);
    assert_eq!(client.session_id(), Some("old-sess".into()));
}

#[test]
fn build_headers_includes_custom() {
    let headers = vec![
        Header { name: "X-A".into(), value: "1".into() },
        Header { name: "X-B".into(), value: "2".into() },
    ];
    let client = HttpClient::new(&headers);
    let built = client.build_headers();
    assert_eq!(built.len(), 2);
    assert_eq!(built[0].0, "X-A");
    assert_eq!(built[1].0, "X-B");
}

#[test]
fn build_headers_injects_session_id() {
    let mut client = HttpClient::new(&Vec::new());
    client.set_session_id(Some("sess-xyz".into()));
    let built = client.build_headers();
    assert_eq!(built.len(), 1);
    assert_eq!(built[0].0, "Mcp-Session-Id");
    assert_eq!(built[0].1, "sess-xyz");
}

#[test]
fn build_headers_no_session_id_when_none() {
    let client = HttpClient::new(&Vec::new());
    let built = client.build_headers();
    assert!(built.is_empty());
}

#[test]
fn build_headers_deduplicates_session_id() {
    let headers = vec![
        Header {
            name: "Mcp-Session-Id".into(),
            value: "old-from-cli".into(),
        },
    ];
    let mut client = HttpClient::new(&headers);
    client.set_session_id(Some("captured-id".into()));
    let built = client.build_headers();
    // Should have only one Mcp-Session-Id, the captured one.
    let session_headers: Vec<_> = built
        .iter()
        .filter(|(n, _)| n.eq_ignore_ascii_case("Mcp-Session-Id"))
        .collect();
    assert_eq!(session_headers.len(), 1);
    assert_eq!(session_headers[0].1, "captured-id");
}

#[test]
fn check_error_response_2xx_passes_through() {
    let client = HttpClient::new(&Vec::new());
    let resp = response(200, b"body".to_vec(), Some("application/json"));
    let result = client.check_error_response(resp).unwrap();
    assert_eq!(result.status, 200);
    assert_eq!(result.body, b"body");
}

#[test]
fn check_error_response_json_error_passes_through() {
    let client = HttpClient::new(&Vec::new());
    let resp = response(400, b"{\"error\":true}".to_vec(), Some("application/json"));
    let result = client.check_error_response(resp).unwrap();
    assert_eq!(result.status, 400);
    assert_eq!(result.body, b"{\"error\":true}");
}

#[test]
fn check_error_response_json_charset_passes_through() {
    let client = HttpClient::new(&Vec::new());
    let resp =
        response(500, b"{\"jsonrpc\":\"2.0\"}".to_vec(), Some("application/json; charset=utf-8"));
    let result = client.check_error_response(resp).unwrap();
    assert_eq!(result.status, 500);
}

#[test]
fn check_error_response_non_json_error() {
    let client = HttpClient::new(&Vec::new());
    let resp = response(502, b"upstream error".to_vec(), Some("text/plain"));
    let err = client.check_error_response(resp).unwrap_err();
    match err {
        HttpClientError::ServerError { status, body } => {
            assert_eq!(status, 502);
            assert_eq!(body, "upstream error");
        }
        _ => panic!("expected ServerError, got {err:?}"),
    }
}

#[test]
fn check_error_response_no_content_type_error() {
    let client = HttpClient::new(&Vec::new());
    let resp = response(503, b"down".to_vec(), None);
    let err = client.check_error_response(resp).unwrap_err();
    assert!(matches!(err, HttpClientError::ServerError { status: 503, .. }));
}

#[test]
fn http_error_display() {
    let err = HttpClientError::InvalidUrl("bad url".into());
    assert!(err.to_string().contains("bad url"));

    let err = HttpClientError::ServerError {
        status: 500,
        body: "oops".into(),
    };
    let msg = err.to_string();
    assert!(msg.contains("500"));
    assert!(msg.contains("oops"));

    let err = HttpClientError::TooManyRedirects { count: 5, max: 5 };
    let msg = err.to_string();
    assert!(msg.contains("5"));
}
