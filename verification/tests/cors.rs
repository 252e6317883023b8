//! Requests from other origins, and custom headers.

use supergateway::cli::{CorsConfig, CorsOrigin, Header};
use supergateway::cors::{
    apply_custom_headers, header_within_limit, CorsHandler, CorsResult, MAX_HEADER_SIZE,
};

fn disabled() -> CorsHandler {
    CorsHandler::new(CorsConfig::Disabled, false)
}

fn wildcard(expose_session: bool) -> CorsHandler {
    CorsHandler::new(CorsConfig::Wildcard, expose_session)
}

fn allow_list(origins: Vec<CorsOrigin>, expose_session: bool) -> CorsHandler {
    CorsHandler::new(CorsConfig::Origins(origins), expose_session)
}

fn find_header<'a>(headers: &'a [(String, String)], name: &str) -> Option<&'a str> {
    headers
        .iter()
        .find(|(n, _)| n.eq_ignore_ascii_case(name))
        .map(|(_, v)| v.as_str())
}

#[test]
fn disabled_no_headers_on_get() {
    let h = disabled();
    assert!(!h.is_enabled());
    assert!(matches!(
        h.process("GET", Some("https://example.com")),
        CorsResult::Disabled
    ));
}

#[test]
fn disabled_no_options_handling() {
    let h = disabled();
    assert!(matches!(
        h.process("OPTIONS", Some("https://example.com")),
        CorsResult::Disabled
    ));
}

#[test]
fn wildcard_allow_all_on_response() {
    let h = wildcard(false);
    assert!(h.is_enabled());
    let result = h.process("POST", Some("https://any-origin.com"));
    match result {
        CorsResult::ResponseHeaders(headers) => {
            assert_eq!(find_header(&headers, "Access-Control-Allow-Origin"), Some("*"));
            // Wildcard must NOT have Allow-Credentials
            assert!(find_header(&headers, "Access-Control-Allow-Credentials").is_none());
            // No Vary in wildcard mode
            assert!(find_header(&headers, "Vary").is_none());
        }
        _ => panic!("expected ResponseHeaders"),
    }
}

#[test]
fn wildcard_options_preflight() {
    let h = wildcard(false);
    let result = h.process("OPTIONS", Some("https://any-origin.com"));
    match result {
        CorsResult::Preflight(headers) => {
            assert_eq!(find_header(&headers, "Access-Control-Allow-Origin"), Some("*"));
            assert_eq!(
                find_header(&headers, "Access-Control-Allow-Methods"),
                Some("GET, POST, DELETE, OPTIONS")
            );
            assert!(find_header(&headers, "Access-Control-Allow-Headers")
                .unwrap()
                .contains("Mcp-Session-Id"));
            assert_eq!(find_header(&headers, "Access-Control-Max-Age"), Some("86400"));
            // No Expose-Headers when expose_session is false
            assert!(find_header(&headers, "Access-Control-Expose-Headers").is_none());
        }
        _ => panic!("expected Preflight"),
    }
}

#[test]
fn wildcard_no_credentials() {
    // Credentials safety: wildcard must NOT be combined with Allow-Credentials.
    let h = wildcard(false);
    match h.process("GET", None) {
        CorsResult::ResponseHeaders(headers) => {
            assert_eq!(find_header(&headers, "Access-Control-Allow-Origin"), Some("*"));
            assert!(find_header(&headers, "Access-Control-Allow-Credentials").is_none());
        }
        _ => panic!("expected ResponseHeaders"),
    }
}

#[test]
fn exact_origin_matched() {
    let h = allow_list(
        vec![CorsOrigin::Literal("https://example.com".into())],
        false,
    );
    match h.process("GET", Some("https://example.com")) {
        CorsResult::ResponseHeaders(headers) => {
            assert_eq!(
                find_header(&headers, "Access-Control-Allow-Origin"),
                Some("https://example.com")
            );
            assert_eq!(find_header(&headers, "Vary"), Some("Origin"));
        }
        _ => panic!("expected ResponseHeaders"),
    }
}

#[test]
fn exact_origin_not_matched() {
    let h = allow_list(
        vec![CorsOrigin::Literal("https://example.com".into())],
        false,
    );
    match h.process("GET", Some("https://evil.com")) {
        CorsResult::ResponseHeaders(headers) => {
            // No Allow-Origin for unmatched origin
            assert!(find_header(&headers, "Access-Control-Allow-Origin").is_none());
            // Vary: Origin still present
            assert_eq!(find_header(&headers, "Vary"), Some("Origin"));
        }
        _ => panic!("expected ResponseHeaders"),
    }
}

#[test]
fn exact_origin_no_origin_header() {
    let h = allow_list(
        vec![CorsOrigin::Literal("https://example.com".into())],
        false,
    );
    match h.process("GET", None) {
        CorsResult::ResponseHeaders(headers) => {
            assert!(find_header(&headers, "Access-Control-Allow-Origin").is_none());
            assert_eq!(find_header(&headers, "Vary"), Some("Origin"));
        }
        _ => panic!("expected ResponseHeaders"),
    }
}

#[test]
fn regex_origin_matched() {
    let re: String = r"^https://.*\.example\.com$".into();
    let h = allow_list(vec![CorsOrigin::Regex(re)], false);
    match h.process("GET", Some("https://sub.example.com")) {
        CorsResult::ResponseHeaders(headers) => {
            assert_eq!(
                find_header(&headers, "Access-Control-Allow-Origin"),
                Some("https://sub.example.com")
            );
        }
        _ => panic!("expected ResponseHeaders"),
    }
}

#[test]
fn regex_origin_not_matched() {
    let re: String = r"^https://.*\.example\.com$".into();
    let h = allow_list(vec![CorsOrigin::Regex(re)], false);
    match h.process("GET", Some("https://evil.com")) {
        CorsResult::ResponseHeaders(headers) => {
            assert!(find_header(&headers, "Access-Control-Allow-Origin").is_none());
        }
        _ => panic!("expected ResponseHeaders"),
    }
}

#[test]
fn mixed_exact_and_regex() {
    let re: String = r"^https://.*\.dev$".into();
    let h = allow_list(
        vec![
            CorsOrigin::Literal("https://prod.example.com".into()),
            CorsOrigin::Regex(re),
        ],
        false,
    );

    // Exact match
    match h.process("GET", Some("https://prod.example.com")) {
        CorsResult::ResponseHeaders(headers) => {
            assert_eq!(
                find_header(&headers, "Access-Control-Allow-Origin"),
                Some("https://prod.example.com")
            );
        }
        _ => panic!("expected ResponseHeaders"),
    }

    // Regex match
    match h.process("GET", Some("https://app.dev")) {
        CorsResult::ResponseHeaders(headers) => {
            assert_eq!(
                find_header(&headers, "Access-Control-Allow-Origin"),
                Some("https://app.dev")
            );
        }
        _ => panic!("expected ResponseHeaders"),
    }

    // Neither
    match h.process("GET", Some("https://other.com")) {
        CorsResult::ResponseHeaders(headers) => {
            assert!(find_header(&headers, "Access-Control-Allow-Origin").is_none());
        }
        _ => panic!("expected ResponseHeaders"),
    }
}

#[test]
fn allowlist_preflight_matched() {
    let h = allow_list(
        vec![CorsOrigin::Literal("https://example.com".into())],
        false,
    );
    match h.process("OPTIONS", Some("https://example.com")) {
        CorsResult::Preflight(headers) => {
            assert_eq!(
                find_header(&headers, "Access-Control-Allow-Origin"),
                Some("https://example.com")
            );
            assert!(find_header(&headers, "Access-Control-Allow-Methods").is_some());
            assert!(find_header(&headers, "Access-Control-Allow-Headers").is_some());
            assert_eq!(find_header(&headers, "Access-Control-Max-Age"), Some("86400"));
            assert_eq!(find_header(&headers, "Vary"), Some("Origin"));
        }
        _ => panic!("expected Preflight"),
    }
}

#[test]
fn allowlist_preflight_not_matched() {
    let h = allow_list(
        vec![CorsOrigin::Literal("https://example.com".into())],
        false,
    );
    match h.process("OPTIONS", Some("https://evil.com")) {
        CorsResult::Preflight(headers) => {
            // No Allow-Origin
            assert!(find_header(&headers, "Access-Control-Allow-Origin").is_none());
            // No methods/headers/max-age either
            assert!(find_header(&headers, "Access-Control-Allow-Methods").is_none());
            // Still has Vary
            assert_eq!(find_header(&headers, "Vary"), Some("Origin"));
        }
        _ => panic!("expected Preflight"),
    }
}

#[test]
fn expose_session_header_when_enabled() {
    let h = wildcard(true);
    match h.process("GET", Some("https://example.com")) {
        CorsResult::ResponseHeaders(headers) => {
            assert_eq!(
                find_header(&headers, "Access-Control-Expose-Headers"),
                Some("Mcp-Session-Id")
            );
        }
        _ => panic!("expected ResponseHeaders"),
    }
}

#[test]
fn no_expose_session_header_when_disabled() {
    let h = wildcard(false);
    match h.process("GET", Some("https://example.com")) {
        CorsResult::ResponseHeaders(headers) => {
            assert!(find_header(&headers, "Access-Control-Expose-Headers").is_none());
        }
        _ => panic!("expected ResponseHeaders"),
    }
}

#[test]
fn expose_session_on_preflight() {
    let h = wildcard(true);
    match h.process("OPTIONS", Some("https://example.com")) {
        CorsResult::Preflight(headers) => {
            assert_eq!(
                find_header(&headers, "Access-Control-Expose-Headers"),
                Some("Mcp-Session-Id")
            );
        }
        _ => panic!("expected Preflight"),
    }
}

#[test]
fn expose_session_allowlist() {
    let h = allow_list(
        vec![CorsOrigin::Literal("https://example.com".into())],
        true,
    );
    match h.process("GET", Some("https://example.com")) {
        CorsResult::ResponseHeaders(headers) => {
            assert_eq!(
                find_header(&headers, "Access-Control-Expose-Headers"),
                Some("Mcp-Session-Id")
            );
        }
        _ => panic!("expected ResponseHeaders"),
    }
}

#[test]
fn options_case_insensitive() {
    let h = wildcard(false);
    assert!(matches!(
        h.process("options", Some("https://x.com")),
        CorsResult::Preflight(_)
    ));
    assert!(matches!(
        h.process("Options", Some("https://x.com")),
        CorsResult::Preflight(_)
    ));
}

#[test]
fn vary_origin_in_allowlist_mode() {
    let h = allow_list(
        vec![CorsOrigin::Literal("https://example.com".into())],
        false,
    );

    // Matched origin
    match h.process("GET", Some("https://example.com")) {
        CorsResult::ResponseHeaders(headers) => {
            assert_eq!(find_header(&headers, "Vary"), Some("Origin"));
        }
        _ => panic!("expected ResponseHeaders"),
    }

    // Unmatched origin — still has Vary
    match h.process("GET", Some("https://other.com")) {
        CorsResult::ResponseHeaders(headers) => {
            assert_eq!(find_header(&headers, "Vary"), Some("Origin"));
        }
        _ => panic!("expected ResponseHeaders"),
    }
}

#[test]
fn no_vary_in_wildcard_mode() {
    let h = wildcard(false);
    match h.process("GET", Some("https://example.com")) {
        CorsResult::ResponseHeaders(headers) => {
            assert!(find_header(&headers, "Vary").is_none());
        }
        _ => panic!("expected ResponseHeaders"),
    }
}

#[test]
fn header_within_limit_normal() {
    assert!(header_within_limit("Content-Type", "application/json"));
    assert!(header_within_limit("X-Custom", "short value"));
}

#[test]
fn header_within_limit_at_boundary() {
    // name + value + 4 = MAX_HEADER_SIZE
    let name = "X";
    let value_len = MAX_HEADER_SIZE - 1 - 4; // name="X" (1) + 4 overhead
    let value = "a".repeat(value_len);
    assert!(header_within_limit(name, &value));

    // One byte over
    let value_over = "a".repeat(value_len + 1);
    assert!(!header_within_limit(name, &value_over));
}

#[test]
fn header_reject_oversized() {
    let big_name = "X-".to_string() + &"A".repeat(MAX_HEADER_SIZE);
    assert!(!header_within_limit(&big_name, "value"));
}

#[test]
fn apply_custom_headers_basic() {
    let mut response = vec![
        ("Content-Type".to_string(), "text/plain".to_string()),
    ];
    let custom = vec![Header {
        name: "X-Custom".into(),
        value: "hello".into(),
    }];
    apply_custom_headers(&mut response, &custom);

    assert_eq!(response.len(), 2);
    assert_eq!(response[1].0, "X-Custom");
    assert_eq!(response[1].1, "hello");
}

#[test]
fn apply_custom_headers_last_wins() {
    let mut response = vec![
        ("Content-Type".to_string(), "text/plain".to_string()),
    ];
    let custom = vec![
        Header {
            name: "Content-Type".into(),
            value: "application/json".into(),
        },
    ];
    apply_custom_headers(&mut response, &custom);

    assert_eq!(response.len(), 1);
    assert_eq!(response[0].0, "Content-Type");
    assert_eq!(response[0].1, "application/json");
}

#[test]
fn apply_custom_headers_case_insensitive() {
    let mut response = vec![
        ("content-type".to_string(), "text/plain".to_string()),
    ];
    let custom = vec![Header {
        name: "Content-Type".into(),
        value: "application/json".into(),
    }];
    apply_custom_headers(&mut response, &custom);

    assert_eq!(response.len(), 1);
    assert_eq!(response[0].1, "application/json");
}

#[test]
fn apply_custom_headers_multiple() {
    let mut response = Vec::new();
    let custom = vec![
        Header { name: "X-A".into(), value: "1".into() },
        Header { name: "X-B".into(), value: "2".into() },
        Header { name: "X-A".into(), value: "3".into() }, // overwrites first X-A
    ];
    apply_custom_headers(&mut response, &custom);

    assert_eq!(response.len(), 2);
    // X-A should have last value
    let xa = response.iter().find(|(n, _)| n == "X-A").unwrap();
    assert_eq!(xa.1, "3");
    let xb = response.iter().find(|(n, _)| n == "X-B").unwrap();
    assert_eq!(xb.1, "2");
}

#[test]
fn apply_custom_headers_empty() {
    let mut response = vec![
        ("Existing".to_string(), "value".to_string()),
    ];
    apply_custom_headers(&mut response, &Vec::new());
    assert_eq!(response.len(), 1);
}
