//! Errors and their answers.

use supergateway::child::ChildError;
use supergateway::error::{GatewayError, INTERNAL_ERROR, INVALID_REQUEST, SERVER_ERROR};
use supergateway::session::SessionError;

#[test]
fn bad_request_400_plain_text() {
    let e = GatewayError::bad_request("malformed JSON");
    assert_eq!(e.status_code(), 400);
    assert_eq!(e.content_type(), "text/plain");
    assert!(e.json_rpc_code().is_none());
    assert_eq!(e.body(), "bad request: malformed JSON");
}

#[test]
fn invalid_request_200_json_rpc() {
    let e = GatewayError::invalid_request("missing method field");
    assert_eq!(e.status_code(), 200);
    assert_eq!(e.content_type(), "application/json");
    assert_eq!(e.json_rpc_code(), Some(INVALID_REQUEST));

    let body = e.body();
    let parsed: serde_json::Value = serde_json::from_str(&body).unwrap();
    assert_eq!(parsed["jsonrpc"], "2.0");
    assert_eq!(parsed["error"]["code"], -32600);
    assert!(parsed["error"]["message"]
        .as_str()
        .unwrap()
        .contains("missing method field"));
    assert!(parsed["id"].is_null());
}

#[test]
fn session_not_found_404_plain_text() {
    let e = GatewayError::invalid_session();
    assert_eq!(e.status_code(), 404);
    assert_eq!(e.content_type(), "text/plain");
    assert!(e.json_rpc_code().is_none());
    assert_eq!(e.body(), "Invalid or missing session ID");
}

#[test]
fn session_closing_503_json_rpc() {
    let e = GatewayError::session_closing();
    assert_eq!(e.status_code(), 503);
    assert_eq!(e.content_type(), "application/json");
    assert_eq!(e.json_rpc_code(), Some(SERVER_ERROR));

    let body = e.body();
    let parsed: serde_json::Value = serde_json::from_str(&body).unwrap();
    assert_eq!(parsed["error"]["code"], -32000);
    assert_eq!(parsed["error"]["message"], "Session closing");
}

#[test]
fn method_not_allowed_405_json_rpc() {
    let e = GatewayError::method_not_allowed();
    assert_eq!(e.status_code(), 405);
    assert_eq!(e.content_type(), "application/json");
    assert_eq!(e.json_rpc_code(), Some(SERVER_ERROR));

    let body = e.body();
    let parsed: serde_json::Value = serde_json::from_str(&body).unwrap();
    assert_eq!(parsed["error"]["code"], -32000);
    assert_eq!(parsed["error"]["message"], "Method not allowed.");
}

#[test]
fn child_dead_502_json_rpc() {
    let e = GatewayError::child_dead();
    assert_eq!(e.status_code(), 502);
    assert_eq!(e.content_type(), "application/json");
    assert_eq!(e.json_rpc_code(), Some(INTERNAL_ERROR));

    let body = e.body();
    let parsed: serde_json::Value = serde_json::from_str(&body).unwrap();
    assert_eq!(parsed["error"]["code"], -32603);
}

#[test]
fn auto_init_timeout_502_json_rpc() {
    let e = GatewayError::auto_init_timeout();
    assert_eq!(e.status_code(), 502);
    assert_eq!(e.json_rpc_code(), Some(INTERNAL_ERROR));
}

#[test]
fn internal_error_500_json_rpc() {
    let e = GatewayError::Internal("something broke".into());
    assert_eq!(e.status_code(), 500);
    assert_eq!(e.content_type(), "application/json");
    assert_eq!(e.json_rpc_code(), Some(INTERNAL_ERROR));
}

#[test]
fn service_unavailable_503_plain_text() {
    let e = GatewayError::max_sessions();
    assert_eq!(e.status_code(), 503);
    assert_eq!(e.content_type(), "text/plain");
    assert!(e.json_rpc_code().is_none());
    assert!(e.body().contains("max sessions"));
}

#[test]
fn not_ready_503_plain_text() {
    let e = GatewayError::not_ready();
    assert_eq!(e.status_code(), 503);
    assert_eq!(e.content_type(), "text/plain");
    assert!(e.body().contains("not ready"));
}

#[test]
fn not_acceptable_406() {
    let e = GatewayError::missing_accept();
    assert_eq!(e.status_code(), 406);
    assert_eq!(e.content_type(), "text/plain");
}

#[test]
fn unsupported_media_type_415() {
    let e = GatewayError::wrong_content_type("application/json", "text/html");
    assert_eq!(e.status_code(), 415);
    assert_eq!(e.content_type(), "text/plain");
    assert!(e.body().contains("application/json"));
    assert!(e.body().contains("text/html"));
}

#[test]
fn conflict_409() {
    let e = GatewayError::sse_stream_conflict();
    assert_eq!(e.status_code(), 409);
    assert_eq!(e.content_type(), "text/plain");
}

#[test]
fn payload_too_large_413() {
    let e = GatewayError::payload_too_large();
    assert_eq!(e.status_code(), 413);
    assert_eq!(e.content_type(), "text/plain");
}

#[test]
fn header_too_large_431() {
    let e = GatewayError::header_too_large();
    assert_eq!(e.status_code(), 431);
    assert_eq!(e.content_type(), "text/plain");
}

#[test]
fn session_error_not_found_maps_to_404() {
    let e: GatewayError = SessionError::NotFound.into();
    assert_eq!(e.status_code(), 404);
    assert!(matches!(e, GatewayError::SessionNotFound));
}

#[test]
fn session_error_closing_maps_to_503_json_rpc() {
    let e: GatewayError = SessionError::Closing.into();
    assert_eq!(e.status_code(), 503);
    assert!(matches!(e, GatewayError::SessionClosing));
    assert_eq!(e.json_rpc_code(), Some(SERVER_ERROR));
}

#[test]
fn session_error_max_sessions_maps_to_503_plain() {
    let e: GatewayError = SessionError::MaxSessionsReached.into();
    assert_eq!(e.status_code(), 503);
    assert!(e.json_rpc_code().is_none());
    assert!(matches!(e, GatewayError::ServiceUnavailable(_)));
}

#[test]
fn child_error_maps_to_502() {
    let e: GatewayError = ChildError::BrokenPipe.into();
    assert_eq!(e.status_code(), 502);
    assert_eq!(e.json_rpc_code(), Some(INTERNAL_ERROR));
}

#[test]
fn io_error_maps_to_500() {
    let e = GatewayError::Io("disk full".into());
    assert_eq!(e.status_code(), 500);
    assert_eq!(e.json_rpc_code(), Some(INTERNAL_ERROR));
}

#[test]
fn json_rpc_body_has_null_id() {
    let e = GatewayError::child_dead();
    let body = e.body();
    let parsed: serde_json::Value = serde_json::from_str(&body).unwrap();
    assert_eq!(parsed["jsonrpc"], "2.0");
    assert!(parsed["id"].is_null());
    assert!(parsed["error"].is_object());
    assert!(parsed["result"].is_null()); // absent
}

#[test]
fn plain_text_body_is_display_string() {
    let e = GatewayError::PayloadTooLarge;
    assert_eq!(e.body(), "payload too large");
    assert_eq!(e.body(), e.to_string());
}
