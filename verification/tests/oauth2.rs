//! The authorization server.

use base64::engine::general_purpose::URL_SAFE_NO_PAD;
use base64::Engine;
use sha2::{Digest, Sha256};
use supergateway::cli::OAuth2ServerConfig;
use supergateway::oauth2::{
    parse_form_urlencoded, verify_pkce_s256, OAuth2Error, OAuth2Handler, OAuth2Result,
};
use supergateway::pairs::get_value;

fn test_config() -> OAuth2ServerConfig {
    OAuth2ServerConfig {
        client_id: "test-client".into(),
        client_secret: "test-secret".into(),
        token_expiry_secs: 3600,
        issuer: Some("https://example.com".into()),
    }
}

fn make_headers(pairs: &[(&str, &str)]) -> Vec<(String, String)> {
    pairs
        .iter()
        .map(|(k, v)| (k.to_string(), v.to_string()))
        .collect()
}

fn empty_query() -> Vec<(String, String)> {
    Vec::new()
}

#[test]
fn metadata_endpoint_returns_json() {
    let mut handler = OAuth2Handler::new(test_config());
    let headers = make_headers(&[("host", "example.com")]);
    let result = handler.process("GET", "/.well-known/oauth-authorization-server", &headers, &[], &empty_query());
    match result {
        OAuth2Result::EndpointResponse(resp) => {
            assert_eq!(resp.status, 200);
            let body: serde_json::Value = serde_json::from_slice(&resp.body).unwrap();
            assert_eq!(body["issuer"], "https://example.com");
            assert!(body["token_endpoint"].as_str().unwrap().contains("/token"));
            assert!(body["authorization_endpoint"].as_str().unwrap().contains("/authorize"));
            assert!(body["registration_endpoint"].as_str().unwrap().contains("/register"));
        }
        _ => panic!("expected EndpointResponse"),
    }
}

#[test]
fn metadata_auto_issuer_from_headers() {
    let config = OAuth2ServerConfig {
        client_id: "test".into(),
        client_secret: "secret".into(),
        token_expiry_secs: 3600,
        issuer: None, // auto-detect
    };
    let mut handler = OAuth2Handler::new(config);
    let headers = make_headers(&[
        ("host", "myserver.example.com:8000"),
        ("x-forwarded-proto", "https"),
    ]);
    let result = handler.process("GET", "/.well-known/oauth-authorization-server", &headers, &[], &empty_query());
    match result {
        OAuth2Result::EndpointResponse(resp) => {
            let body: serde_json::Value = serde_json::from_slice(&resp.body).unwrap();
            assert_eq!(body["issuer"], "https://myserver.example.com:8000");
        }
        _ => panic!("expected EndpointResponse"),
    }
}

#[test]
fn client_credentials_grant_success() {
    let mut handler = OAuth2Handler::new(test_config());
    let body = b"grant_type=client_credentials&client_id=test-client&client_secret=test-secret";
    let result = handler.process("POST", "/token", &make_headers(&[]), body, &empty_query());
    match result {
        OAuth2Result::EndpointResponse(resp) => {
            assert_eq!(resp.status, 200);
            let body: serde_json::Value = serde_json::from_slice(&resp.body).unwrap();
            assert!(body["access_token"].as_str().is_some());
            assert_eq!(body["token_type"], "Bearer");
            assert_eq!(body["expires_in"], 3600);
        }
        _ => panic!("expected EndpointResponse"),
    }
}

#[test]
fn client_credentials_bad_secret() {
    let mut handler = OAuth2Handler::new(test_config());
    let body = b"grant_type=client_credentials&client_id=test-client&client_secret=wrong";
    let result = handler.process("POST", "/token", &make_headers(&[]), body, &empty_query());
    match result {
        OAuth2Result::EndpointResponse(resp) => {
            assert_eq!(resp.status, 401);
        }
        _ => panic!("expected EndpointResponse"),
    }
}

#[test]
fn valid_token_passthrough() {
    let mut handler = OAuth2Handler::new(test_config());

    // Get a token first
    let body = b"grant_type=client_credentials&client_id=test-client&client_secret=test-secret";
    let result = handler.process("POST", "/token", &make_headers(&[]), body, &empty_query());
    let token = match result {
        OAuth2Result::EndpointResponse(resp) => {
            let body: serde_json::Value = serde_json::from_slice(&resp.body).unwrap();
            body["access_token"].as_str().unwrap().to_string()
        }
        _ => panic!("expected EndpointResponse"),
    };

    // Use token on MCP path
    let headers = make_headers(&[("authorization", &format!("Bearer {token}"))]);
    let result = handler.process("POST", "/mcp", &headers, &[], &empty_query());
    match result {
        OAuth2Result::Passthrough(Ok(())) => {} // success
        _ => panic!("expected Passthrough(Ok)"),
    }
}

#[test]
fn missing_token_returns_error() {
    let mut handler = OAuth2Handler::new(test_config());
    let result = handler.process("POST", "/mcp", &make_headers(&[]), &[], &empty_query());
    match result {
        OAuth2Result::Passthrough(Err(OAuth2Error::Unauthorized(_))) => {}
        _ => panic!("expected Passthrough(Err)"),
    }
}

#[test]
fn invalid_token_returns_error() {
    let mut handler = OAuth2Handler::new(test_config());
    let headers = make_headers(&[("authorization", "Bearer invalid-token")]);
    let result = handler.process("POST", "/mcp", &headers, &[], &empty_query());
    match result {
        OAuth2Result::Passthrough(Err(OAuth2Error::Unauthorized(_))) => {}
        _ => panic!("expected Passthrough(Err)"),
    }
}

#[test]
fn authorization_code_flow() {
    let mut handler = OAuth2Handler::new(test_config());

    // Step 1: GET /authorize
    let mut query = Vec::new();
    query.push(("client_id".to_owned(), "test-client".to_owned()));
    query.push(("redirect_uri".to_owned(), "https://example.com/callback".to_owned()));
    query.push(("response_type".to_owned(), "code".to_owned()));
    query.push(("state".to_owned(), "mystate".to_owned()));

    let result = handler.process("GET", "/authorize", &make_headers(&[]), &[], &query);
    let location = match result {
        OAuth2Result::EndpointResponse(resp) => {
            assert_eq!(resp.status, 302);
            resp.headers
                .iter()
                .find(|(k, _)| k == "location")
                .map(|(_, v)| v.clone())
                .unwrap()
        }
        _ => panic!("expected EndpointResponse"),
    };

    // Extract the code from redirect
    assert!(location.starts_with("https://example.com/callback?code="));
    assert!(location.contains("&state=mystate"));
    let code = location
        .split("code=")
        .nth(1)
        .unwrap()
        .split('&')
        .next()
        .unwrap();

    // Step 2: POST /token with the code
    let body = format!(
        "grant_type=authorization_code&code={}&client_id=test-client&client_secret=test-secret&redirect_uri=https%3A%2F%2Fexample.com%2Fcallback",
        code
    );
    let result = handler.process("POST", "/token", &make_headers(&[]), body.as_bytes(), &empty_query());
    match result {
        OAuth2Result::EndpointResponse(resp) => {
            assert_eq!(resp.status, 200);
            let body: serde_json::Value = serde_json::from_slice(&resp.body).unwrap();
            assert!(body["access_token"].as_str().is_some());
        }
        _ => panic!("expected EndpointResponse"),
    }
}

#[test]
fn pkce_s256_flow() {
    let mut handler = OAuth2Handler::new(test_config());

    // Generate PKCE pair
    let verifier = "dBjftJeZ4CVP-mB92K27uhbUJU1p1r_wW1gFWFOEjXk";
    let mut hasher = Sha256::new();
    hasher.update(verifier.as_bytes());
    let challenge = URL_SAFE_NO_PAD.encode(hasher.finalize());

    // Step 1: GET /authorize with PKCE
    let mut query = Vec::new();
    query.push(("client_id".to_owned(), "test-client".to_owned()));
    query.push(("redirect_uri".to_owned(), "https://example.com/callback".to_owned()));
    query.push(("response_type".to_owned(), "code".to_owned()));
    query.push(("code_challenge".to_owned(), challenge));
    query.push(("code_challenge_method".to_owned(), "S256".to_owned()));

    let result = handler.process("GET", "/authorize", &make_headers(&[]), &[], &query);
    let location = match result {
        OAuth2Result::EndpointResponse(resp) => {
            assert_eq!(resp.status, 302);
            resp.headers.iter().find(|(k, _)| k == "location").unwrap().1.clone()
        }
        _ => panic!("expected redirect"),
    };

    let code = location.split("code=").nth(1).unwrap().split('&').next().unwrap();

    // Step 2: POST /token with code_verifier
    let body = format!(
        "grant_type=authorization_code&code={}&client_id=test-client&client_secret=test-secret&redirect_uri=https%3A%2F%2Fexample.com%2Fcallback&code_verifier={}",
        code, verifier
    );
    let result = handler.process("POST", "/token", &make_headers(&[]), body.as_bytes(), &empty_query());
    match result {
        OAuth2Result::EndpointResponse(resp) => {
            assert_eq!(resp.status, 200);
        }
        _ => panic!("expected EndpointResponse"),
    }
}

#[test]
fn pkce_wrong_verifier_fails() {
    let mut handler = OAuth2Handler::new(test_config());

    let verifier = "correct-verifier-value";
    let mut hasher = Sha256::new();
    hasher.update(verifier.as_bytes());
    let challenge = URL_SAFE_NO_PAD.encode(hasher.finalize());

    let mut query = Vec::new();
    query.push(("client_id".to_owned(), "test-client".to_owned()));
    query.push(("redirect_uri".to_owned(), "https://example.com/callback".to_owned()));
    query.push(("response_type".to_owned(), "code".to_owned()));
    query.push(("code_challenge".to_owned(), challenge));
    query.push(("code_challenge_method".to_owned(), "S256".to_owned()));

    let result = handler.process("GET", "/authorize", &make_headers(&[]), &[], &query);
    let location = match result {
        OAuth2Result::EndpointResponse(resp) => {
            resp.headers.iter().find(|(k, _)| k == "location").unwrap().1.clone()
        }
        _ => panic!("expected redirect"),
    };
    let code = location.split("code=").nth(1).unwrap().split('&').next().unwrap();

    // Use wrong verifier
    let body = format!(
        "grant_type=authorization_code&code={}&client_id=test-client&client_secret=test-secret&redirect_uri=https%3A%2F%2Fexample.com%2Fcallback&code_verifier=wrong-verifier",
        code
    );
    let result = handler.process("POST", "/token", &make_headers(&[]), body.as_bytes(), &empty_query());
    match result {
        OAuth2Result::EndpointResponse(resp) => {
            assert_eq!(resp.status, 400);
            let body: serde_json::Value = serde_json::from_slice(&resp.body).unwrap();
            assert_eq!(body["error"], "invalid_grant");
        }
        _ => panic!("expected EndpointResponse"),
    }
}

#[test]
fn dynamic_registration_and_use() {
    let mut handler = OAuth2Handler::new(test_config());

    // Register a new client
    let reg_body = r#"{"redirect_uris":["https://newclient.example.com/callback"],"grant_types":["authorization_code","client_credentials"]}"#;
    let result = handler.process(
        "POST",
        "/register",
        &make_headers(&[]),
        reg_body.as_bytes(),
        &empty_query(),
    );
    let (new_client_id, new_client_secret) = match result {
        OAuth2Result::EndpointResponse(resp) => {
            assert_eq!(resp.status, 201);
            let body: serde_json::Value = serde_json::from_slice(&resp.body).unwrap();
            (
                body["client_id"].as_str().unwrap().to_string(),
                body["client_secret"].as_str().unwrap().to_string(),
            )
        }
        _ => panic!("expected EndpointResponse"),
    };

    // Use the new client for client_credentials
    let body = format!(
        "grant_type=client_credentials&client_id={}&client_secret={}",
        new_client_id, new_client_secret
    );
    let result = handler.process("POST", "/token", &make_headers(&[]), body.as_bytes(), &empty_query());
    match result {
        OAuth2Result::EndpointResponse(resp) => {
            assert_eq!(resp.status, 200);
        }
        _ => panic!("expected EndpointResponse"),
    }
}

#[test]
fn registration_missing_redirect_uris() {
    let mut handler = OAuth2Handler::new(test_config());
    let body = "{}";
    let result = handler.process("POST", "/register", &make_headers(&[]), body.as_bytes(), &empty_query());
    match result {
        OAuth2Result::EndpointResponse(resp) => {
            assert_eq!(resp.status, 400);
        }
        _ => panic!("expected EndpointResponse"),
    }
}

#[test]
fn unsupported_grant_type() {
    let mut handler = OAuth2Handler::new(test_config());
    let body = b"grant_type=refresh_token&refresh_token=abc";
    let result = handler.process("POST", "/token", &make_headers(&[]), body, &empty_query());
    match result {
        OAuth2Result::EndpointResponse(resp) => {
            assert_eq!(resp.status, 400);
            let body: serde_json::Value = serde_json::from_slice(&resp.body).unwrap();
            assert_eq!(body["error"], "unsupported_grant_type");
        }
        _ => panic!("expected EndpointResponse"),
    }
}

#[test]
fn pkce_s256_verification() {
    // RFC 7636 Appendix B example (adjusted)
    let verifier = "dBjftJeZ4CVP-mB92K27uhbUJU1p1r_wW1gFWFOEjXk";
    let mut hasher = Sha256::new();
    hasher.update(verifier.as_bytes());
    let challenge = URL_SAFE_NO_PAD.encode(hasher.finalize());

    assert!(verify_pkce_s256(verifier, &challenge));
    assert!(!verify_pkce_s256("wrong-verifier", &challenge));
}

#[test]
fn parse_form_urlencoded_basic() {
    let params = parse_form_urlencoded("grant_type=client_credentials&client_id=test");
    assert_eq!(get_value(&params, "grant_type").unwrap(), "client_credentials");
    assert_eq!(get_value(&params, "client_id").unwrap(), "test");
}

#[test]
fn parse_form_urlencoded_percent_decode() {
    let params = parse_form_urlencoded("redirect_uri=https%3A%2F%2Fexample.com%2Fcallback");
    assert_eq!(
        get_value(&params, "redirect_uri").unwrap(),
        "https://example.com/callback"
    );
}

#[test]
fn parse_form_urlencoded_empty() {
    let params = parse_form_urlencoded("");
    assert!(params.is_empty());
}
