//! The event stream client.

use supergateway::client::sse::{
    resolve_endpoint_url, OutgoingBuffer, ReconnectState, SseClientError, SseEvent, SseParser,
    OUTGOING_BUFFER_CAP,
};

#[test]
fn parse_simple_message_event() {
    let mut parser = SseParser::new();
    let events = parser.feed("data: hello world\n\n");
    assert_eq!(events.len(), 1);
    assert_eq!(events[0].event_type, "message");
    assert_eq!(events[0].data, "hello world");
    assert!(events[0].id.is_empty());
}

#[test]
fn parse_named_event() {
    let mut parser = SseParser::new();
    let events = parser.feed("event: endpoint\ndata: /message\n\n");
    assert_eq!(events.len(), 1);
    assert_eq!(events[0].event_type, "endpoint");
    assert_eq!(events[0].data, "/message");
    assert!(events[0].is_endpoint());
}

#[test]
fn parse_event_with_id() {
    let mut parser = SseParser::new();
    let events = parser.feed("id: 42\ndata: test\n\n");
    assert_eq!(events.len(), 1);
    assert_eq!(events[0].id, "42");
    assert_eq!(events[0].data, "test");
    assert_eq!(parser.last_event_id(), "42");
}

#[test]
fn parse_multi_line_data() {
    let mut parser = SseParser::new();
    let events = parser.feed("data: line1\ndata: line2\ndata: line3\n\n");
    assert_eq!(events.len(), 1);
    assert_eq!(events[0].data, "line1\nline2\nline3");
}

#[test]
fn parse_multi_line_data_with_empty_lines() {
    let mut parser = SseParser::new();
    let events = parser.feed("data: line1\ndata:\ndata: line3\n\n");
    assert_eq!(events.len(), 1);
    assert_eq!(events[0].data, "line1\n\nline3");
}

#[test]
fn comments_ignored() {
    let mut parser = SseParser::new();
    let events = parser.feed(": keepalive\ndata: actual data\n\n");
    assert_eq!(events.len(), 1);
    assert_eq!(events[0].data, "actual data");
}

#[test]
fn comment_only_no_event() {
    let mut parser = SseParser::new();
    let events = parser.feed(": just a comment\n\n");
    assert!(events.is_empty());
}

#[test]
fn retry_field_parsed() {
    let mut parser = SseParser::new();
    let _ = parser.feed("retry: 5000\ndata: x\n\n");
    assert_eq!(parser.retry_interval(), Some(5000));
}

#[test]
fn retry_field_non_numeric_ignored() {
    let mut parser = SseParser::new();
    let _ = parser.feed("retry: abc\ndata: x\n\n");
    assert_eq!(parser.retry_interval(), None);
}

#[test]
fn empty_data_no_event() {
    let mut parser = SseParser::new();
    // Blank line with no data fields → no event dispatched.
    let events = parser.feed("event: test\n\n");
    assert!(events.is_empty());
}

#[test]
fn data_no_space_after_colon() {
    let mut parser = SseParser::new();
    let events = parser.feed("data:no-space\n\n");
    assert_eq!(events.len(), 1);
    assert_eq!(events[0].data, "no-space");
}

#[test]
fn data_with_colon_in_value() {
    let mut parser = SseParser::new();
    let events = parser.feed("data: key:value:extra\n\n");
    assert_eq!(events.len(), 1);
    assert_eq!(events[0].data, "key:value:extra");
}

#[test]
fn field_with_no_value() {
    let mut parser = SseParser::new();
    let events = parser.feed("data\n\n");
    assert_eq!(events.len(), 1);
    assert_eq!(events[0].data, "");
}

#[test]
fn unknown_fields_ignored() {
    let mut parser = SseParser::new();
    let events = parser.feed("foo: bar\ndata: actual\n\n");
    assert_eq!(events.len(), 1);
    assert_eq!(events[0].data, "actual");
}

#[test]
fn id_with_null_ignored() {
    let mut parser = SseParser::new();
    let events = parser.feed("id: valid\ndata: a\n\n");
    assert_eq!(parser.last_event_id(), "valid");
    // ID containing null should be ignored.
    let events2 = parser.feed("id: bad\x00id\ndata: b\n\n");
    assert_eq!(events2.len(), 1);
    // last_event_id unchanged.
    assert_eq!(parser.last_event_id(), "valid");
    let _ = events;
}

#[test]
fn multiple_events_in_one_chunk() {
    let mut parser = SseParser::new();
    let events = parser.feed(
        "data: first\n\ndata: second\n\nevent: custom\ndata: third\n\n",
    );
    assert_eq!(events.len(), 3);
    assert_eq!(events[0].data, "first");
    assert_eq!(events[1].data, "second");
    assert_eq!(events[2].event_type, "custom");
    assert_eq!(events[2].data, "third");
}

#[test]
fn chunked_input_across_boundaries() {
    let mut parser = SseParser::new();
    // Feed partial data.
    let events1 = parser.feed("data: hel");
    assert!(events1.is_empty());
    let events2 = parser.feed("lo\n");
    assert!(events2.is_empty());
    let events3 = parser.feed("\n");
    assert_eq!(events3.len(), 1);
    assert_eq!(events3[0].data, "hello");
}

#[test]
fn chunked_field_split() {
    let mut parser = SseParser::new();
    let e1 = parser.feed("eve");
    assert!(e1.is_empty());
    let e2 = parser.feed("nt: endpoint\nda");
    assert!(e2.is_empty());
    let e3 = parser.feed("ta: /msg\n\n");
    assert_eq!(e3.len(), 1);
    assert_eq!(e3[0].event_type, "endpoint");
    assert_eq!(e3[0].data, "/msg");
}

#[test]
fn sse_crlf_line_endings() {
    let mut parser = SseParser::new();
    let events = parser.feed("data: hello\r\n\r\n");
    assert_eq!(events.len(), 1);
    assert_eq!(events[0].data, "hello");
}

#[test]
fn mixed_line_endings() {
    let mut parser = SseParser::new();
    let events = parser.feed("data: a\ndata: b\r\n\r\n");
    assert_eq!(events.len(), 1);
    assert_eq!(events[0].data, "a\nb");
}

#[test]
fn last_event_id_persists_across_events() {
    let mut parser = SseParser::new();
    let _ = parser.feed("id: 1\ndata: a\n\n");
    assert_eq!(parser.last_event_id(), "1");
    // Next event without id — last_event_id still "1".
    let _ = parser.feed("data: b\n\n");
    assert_eq!(parser.last_event_id(), "1");
    // Next event with new id.
    let _ = parser.feed("id: 2\ndata: c\n\n");
    assert_eq!(parser.last_event_id(), "2");
}

#[test]
fn empty_id_resets_last_event_id() {
    let mut parser = SseParser::new();
    let _ = parser.feed("id: 1\ndata: a\n\n");
    assert_eq!(parser.last_event_id(), "1");
    // Empty id field: an empty string is valid but doesn't
    // update last_event_id (only non-empty values update it).
    let events = parser.feed("id: \ndata: b\n\n");
    assert_eq!(events[0].id, "");
    // last_event_id unchanged since id was empty string.
    assert_eq!(parser.last_event_id(), "1");
}

#[test]
fn event_type_resets_after_dispatch() {
    let mut parser = SseParser::new();
    let events = parser.feed("event: custom\ndata: a\n\ndata: b\n\n");
    assert_eq!(events[0].event_type, "custom");
    // Second event should default to "message".
    assert_eq!(events[1].event_type, "message");
}

#[test]
fn reconnect_exponential_backoff() {
    let mut state = ReconnectState::new();
    assert_eq!(state.next_delay(), 1000);
    assert_eq!(state.attempts, 1);
    assert_eq!(state.next_delay(), 2000);
    assert_eq!(state.attempts, 2);
    assert_eq!(state.next_delay(), 4000);
    assert_eq!(state.next_delay(), 8000);
    assert_eq!(state.next_delay(), 16000);
    // Max is 30s.
    assert_eq!(state.next_delay(), 30000);
    assert_eq!(state.next_delay(), 30000);
}

#[test]
fn reconnect_reset() {
    let mut state = ReconnectState::new();
    let _ = state.next_delay();
    let _ = state.next_delay();
    assert_eq!(state.attempts, 2);
    state.reset();
    assert_eq!(state.attempts, 0);
    assert_eq!(state.next_delay(), 1000);
}

#[test]
fn reconnect_server_retry() {
    let mut state = ReconnectState::new();
    state.set_retry(5000);
    assert_eq!(state.next_delay(), 5000);
    // After next_delay, backoff resumes from the retry value * 2.
    assert_eq!(state.next_delay(), 10000);
}

#[test]
fn reconnect_server_retry_capped() {
    let mut state = ReconnectState::new();
    state.set_retry(60000);
    // Should be capped to RECONNECT_MAX.
    assert_eq!(state.next_delay(), 30000);
}

#[test]
fn buffer_push_and_drain() {
    let mut buf = OutgoingBuffer::new();
    assert!(buf.is_empty());
    assert_eq!(buf.len(), 0);

    buf.push(b"msg1".to_vec()).unwrap();
    buf.push(b"msg2".to_vec()).unwrap();
    assert_eq!(buf.len(), 2);
    assert!(!buf.is_empty());

    let drained = buf.drain();
    assert_eq!(drained.len(), 2);
    assert_eq!(drained[0], b"msg1");
    assert_eq!(drained[1], b"msg2");
    assert!(buf.is_empty());
}

#[test]
fn buffer_capacity_enforced() {
    let mut buf = OutgoingBuffer::with_capacity(3);
    assert_eq!(buf.capacity(), 3);

    buf.push(b"1".to_vec()).unwrap();
    buf.push(b"2".to_vec()).unwrap();
    buf.push(b"3".to_vec()).unwrap();
    assert!(buf.is_full());

    // 4th message should fail.
    let err = buf.push(b"4".to_vec()).unwrap_err();
    match err {
        SseClientError::BufferFull { cap } => assert_eq!(cap, 3),
        _ => panic!("expected BufferFull, got {err:?}"),
    }
}

#[test]
fn buffer_default_capacity() {
    let buf = OutgoingBuffer::new();
    assert_eq!(buf.capacity(), OUTGOING_BUFFER_CAP);
}

#[test]
fn buffer_drain_then_reuse() {
    let mut buf = OutgoingBuffer::with_capacity(2);
    buf.push(b"a".to_vec()).unwrap();
    buf.push(b"b".to_vec()).unwrap();
    assert!(buf.is_full());

    let _ = buf.drain();
    assert!(buf.is_empty());

    // Can push again after drain.
    buf.push(b"c".to_vec()).unwrap();
    assert_eq!(buf.len(), 1);
}

#[test]
fn buffer_full_at_256() {
    let mut buf = OutgoingBuffer::new();
    for i in 0..256 {
        buf.push(format!("msg-{i}").into_bytes()).unwrap();
    }
    assert!(buf.is_full());
    assert_eq!(buf.len(), 256);

    // 257th message should fail.
    let err = buf.push(b"overflow".to_vec()).unwrap_err();
    assert!(matches!(err, SseClientError::BufferFull { cap: 256 }));
}

#[test]
fn resolve_absolute_endpoint() {
    let result = resolve_endpoint_url(
        "http://localhost:8080/sse",
        "http://other-host:9090/message",
    );
    assert_eq!(result, "http://other-host:9090/message");
}

#[test]
fn resolve_absolute_path_endpoint() {
    let result = resolve_endpoint_url(
        "http://localhost:8080/sse",
        "/message",
    );
    assert_eq!(result, "http://localhost:8080/message");
}

#[test]
fn resolve_relative_endpoint() {
    let result = resolve_endpoint_url(
        "http://localhost:8080/api/sse",
        "message",
    );
    assert_eq!(result, "http://localhost:8080/api/message");
}

#[test]
fn resolve_relative_endpoint_root_path() {
    let result = resolve_endpoint_url(
        "http://localhost:8080/sse",
        "message",
    );
    assert_eq!(result, "http://localhost:8080/message");
}

#[test]
fn resolve_https_endpoint() {
    let result = resolve_endpoint_url(
        "https://secure.example.com/sse",
        "/api/message",
    );
    assert_eq!(result, "https://secure.example.com/api/message");
}

#[test]
fn resolve_protocol_relative_endpoint() {
    let result = resolve_endpoint_url(
        "https://example.com/sse",
        "//other.com/msg",
    );
    assert_eq!(result, "https://other.com/msg");
}

#[test]
fn resolve_endpoint_with_query_string() {
    let result = resolve_endpoint_url(
        "http://localhost:8080/sse?token=abc",
        "/message",
    );
    assert_eq!(result, "http://localhost:8080/message");
}

#[test]
fn sse_event_is_endpoint() {
    let event = SseEvent {
        event_type: "endpoint".into(),
        data: "/message".into(),
        id: String::new(),
    };
    assert!(event.is_endpoint());

    let event2 = SseEvent {
        event_type: "message".into(),
        data: "hello".into(),
        id: String::new(),
    };
    assert!(!event2.is_endpoint());
}

#[test]
fn sse_error_display() {
    let err = SseClientError::BufferFull { cap: 256 };
    assert!(err.to_string().contains("256"));

    let err = SseClientError::NotConnected;
    assert!(err.to_string().contains("not connected"));

    let err = SseClientError::NoEndpoint;
    assert!(err.to_string().contains("endpoint"));

    let err = SseClientError::StreamEnded;
    assert!(err.to_string().contains("ended"));
}

#[test]
fn parse_json_rpc_event() {
    let mut parser = SseParser::new();
    let json = r#"{"jsonrpc":"2.0","id":1,"result":{"tools":[]}}"#;
    let input = format!("event: message\ndata: {json}\n\n");
    let events = parser.feed(&input);
    assert_eq!(events.len(), 1);
    assert_eq!(events[0].event_type, "message");
    assert_eq!(events[0].data, json);
}

#[test]
fn parse_endpoint_then_message() {
    let mut parser = SseParser::new();
    let input =
        "event: endpoint\ndata: /message?sessionId=abc\n\ndata: {\"jsonrpc\":\"2.0\"}\n\n";
    let events = parser.feed(input);
    assert_eq!(events.len(), 2);
    assert!(events[0].is_endpoint());
    assert_eq!(events[0].data, "/message?sessionId=abc");
    assert_eq!(events[1].event_type, "message");
    assert_eq!(events[1].data, "{\"jsonrpc\":\"2.0\"}");
}
