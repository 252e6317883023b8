//! HTTP and WebSocket on the wire.

use supergateway::serve::{
    base64_encode, http_delete, http_get_sse, http_post, is_head_end, parse_request, parse_status,
    read_http_response, sha1_bytes, write_error, write_response, write_sse_response_headers,
    ws_accept_key, ws_read_frame, ws_write_close_frame, ws_write_pong_frame, ws_write_text_frame,
    ParsedHttpUrl,
};

fn pairs(list: &[(&str, &str)]) -> Vec<(String, String)> {
    list.iter()
        .map(|(k, v)| (k.to_string(), v.to_string()))
        .collect()
}

fn lines(list: &[&str]) -> Vec<String> {
    list.iter().map(|l| l.to_string()).collect()
}

fn text(bytes: &[u8]) -> String {
    String::from_utf8(bytes.to_vec()).unwrap()
}

#[test]
fn request_head_is_read() {
    let head = lines(&[
        "post /message?sessionId=abc&x=1&flag HTTP/1.1\r\n",
        "Content-Type:  application/json \r\n",
        "Content-Length: 12\r\n",
        "no colon here\r\n",
        "\r\n",
    ]);
    let (req, length) = parse_request(&head).unwrap();
    assert_eq!(req.method, "POST");
    assert_eq!(req.path, "/message");
    assert_eq!(req.query, "sessionId=abc&x=1&flag");
    assert_eq!(length, 12);
    assert_eq!(req.header("content-type"), Some("application/json"));
    assert_eq!(req.header("CONTENT-LENGTH"), Some("12"));
    assert_eq!(req.header("accept"), None);
    assert_eq!(req.query_param("sessionId"), Some("abc".to_string()));
    assert_eq!(req.query_param("x"), Some("1".to_string()));
    assert_eq!(req.query_param("flag"), None);
    assert_eq!(req.query_param("missing"), None);
}

#[test]
fn request_without_target_is_refused() {
    assert!(parse_request(&lines(&["GET\r\n", "\r\n"])).is_none());
    assert!(parse_request(&lines(&[])).is_none());
    let (req, length) = parse_request(&lines(&["GET / HTTP/1.1\r\n", "\r\n"])).unwrap();
    assert_eq!(req.query, "");
    assert_eq!(length, 0);
}

#[test]
fn head_ends_with_a_blank_line() {
    assert!(is_head_end("\r\n"));
    assert!(is_head_end("\n"));
    assert!(!is_head_end("Host: x\r\n"));
}

#[test]
fn response_is_written() {
    let mut out = Vec::new();
    write_response(&mut out, 202, "Accepted", &pairs(&[("X-A", "1")]), b"ok");
    assert_eq!(
        text(&out),
        "HTTP/1.1 202 Accepted\r\nX-A: 1\r\nContent-Length: 2\r\nConnection: close\r\n\r\nok"
    );
}

#[test]
fn error_is_written_as_plain_text() {
    let mut out = Vec::new();
    write_error(&mut out, 404, "Not Found", "nothing here");
    assert_eq!(
        text(&out),
        "HTTP/1.1 404 Not Found\r\nContent-Type: text/plain\r\nContent-Length: 12\r\n\
         Connection: close\r\n\r\nnothing here"
    );
}

#[test]
fn stream_head_has_no_length() {
    let mut out = Vec::new();
    write_sse_response_headers(&mut out, &pairs(&[("Content-Type", "text/event-stream")]));
    assert_eq!(text(&out), "HTTP/1.1 200 OK\r\nContent-Type: text/event-stream\r\n\r\n");
}

#[test]
fn digest_of_known_text() {
    let hex: String = sha1_bytes(b"abc").iter().map(|b| format!("{b:02x}")).collect();
    assert_eq!(hex, "a9993e364706816aba3e25717850c26c9cd0d89d");
    let hex: String = sha1_bytes(b"").iter().map(|b| format!("{b:02x}")).collect();
    assert_eq!(hex, "da39a3ee5e6b4b0d3255bfef95601890afd80709");
    let hex: String = sha1_bytes(&[b'a'; 1000])
        .iter()
        .map(|b| format!("{b:02x}"))
        .collect();
    assert_eq!(hex, "291e9a6c66994949b57ba5e650361e98fc36b1ba");
}

#[test]
fn base64_of_known_text() {
    assert_eq!(base64_encode(b""), "");
    assert_eq!(base64_encode(b"f"), "Zg==");
    assert_eq!(base64_encode(b"fo"), "Zm8=");
    assert_eq!(base64_encode(b"foo"), "Zm9v");
    assert_eq!(base64_encode(b"foobar"), "Zm9vYmFy");
    assert_eq!(base64_encode(&[0xfb, 0xff]), "+/8=");
}

#[test]
fn accept_key_of_known_key() {
    assert_eq!(
        ws_accept_key("dGhlIHNhbXBsZSBub25jZQ=="),
        "s3pPLMBiTxaQ9kYGzzhZRbK+xOo="
    );
}

#[test]
fn text_frame_is_read_back() {
    for n in [0usize, 5, 125, 126, 300, 65535, 65536, 70000] {
        let payload = vec![b'x'; n];
        let mut out = Vec::new();
        ws_write_text_frame(&mut out, &payload);
        let written = out.len();
        out.extend_from_slice(b"rest");
        let (frame, used) = ws_read_frame(&out).unwrap();
        assert_eq!(used, written);
        assert!(frame.is_text());
        assert!(frame.fin);
        assert_eq!(frame.payload, payload);
    }
}

#[test]
fn masked_frame_is_unmasked() {
    let bytes = [0x81, 0x85, 0x37, 0xfa, 0x21, 0x3d, 0x7f, 0x9f, 0x4d, 0x51, 0x58];
    let (frame, used) = ws_read_frame(&bytes).unwrap();
    assert_eq!(used, 11);
    assert!(frame.is_text());
    assert_eq!(frame.payload, b"Hello");
    assert!(ws_read_frame(&bytes[..10]).is_none());
    assert!(ws_read_frame(&[]).is_none());
}

#[test]
fn control_frames_are_written() {
    let mut out = Vec::new();
    ws_write_close_frame(&mut out, 1011, "bye");
    assert_eq!(out, [0x88, 5, 0x03, 0xf3, b'b', b'y', b'e']);
    assert!(ws_read_frame(&out).unwrap().0.is_close());
    let mut out = Vec::new();
    ws_write_pong_frame(&mut out, b"hi");
    assert_eq!(out, [0x8a, 2, b'h', b'i']);
    let (ping, _) = ws_read_frame(&[0x89, 0]).unwrap();
    assert!(ping.is_ping());
}

#[test]
fn urls_are_taken_apart() {
    let u = ParsedHttpUrl::parse("http://example.com:8080/a/b?c=d").unwrap();
    assert_eq!(u.host, "example.com");
    assert_eq!(u.port, 8080);
    assert_eq!(u.path_and_query, "/a/b?c=d");
    assert_eq!(u.addr(), "example.com:8080");
    assert_eq!(u.host_header(), "example.com:8080");
    let u = ParsedHttpUrl::parse("http://example.com").unwrap();
    assert_eq!(u.port, 80);
    assert_eq!(u.path_and_query, "/");
    assert_eq!(u.host_header(), "example.com");
    assert!(ParsedHttpUrl::parse("ftp://example.com").is_none());
    assert!(ParsedHttpUrl::parse("http://example.com:99999/").is_none());
}

#[test]
fn post_is_composed() {
    let out = http_post("http://h:81/p", &pairs(&[("X-A", "1")]), b"{}").unwrap();
    assert_eq!(out.addr, "h:81");
    assert_eq!(
        text(&out.bytes),
        "POST /p HTTP/1.1\r\nHost: h:81\r\nContent-Length: 2\r\nContent-Type: application/json\r\n\
         Accept: application/json, text/event-stream\r\nX-A: 1\r\nConnection: close\r\n\r\n{}"
    );
    assert!(http_post("nonsense", &pairs(&[]), b"").is_none());
}

#[test]
fn get_is_composed() {
    let out = http_get_sse("http://h/s", &pairs(&[]), Some("7")).unwrap();
    assert_eq!(out.addr, "h:80");
    assert_eq!(
        text(&out.bytes),
        "GET /s HTTP/1.1\r\nHost: h\r\nAccept: text/event-stream\r\nLast-Event-ID: 7\r\n\
         Connection: keep-alive\r\n\r\n"
    );
    let out = http_get_sse("http://h/s", &pairs(&[]), Some("")).unwrap();
    assert!(!text(&out.bytes).contains("Last-Event-ID"));
}

#[test]
fn delete_is_composed() {
    let out = http_delete("http://h/s", &pairs(&[("Mcp-Session-Id", "x")])).unwrap();
    assert_eq!(
        text(&out.bytes),
        "DELETE /s HTTP/1.1\r\nHost: h\r\nContent-Length: 0\r\nMcp-Session-Id: x\r\n\
         Connection: close\r\n\r\n"
    );
}

#[test]
fn response_head_is_read() {
    let (resp, length) = read_http_response(&lines(&[
        "HTTP/1.1 200 OK\r\n",
        "Content-Type: application/json\r\n",
        "Content-Length: 17\r\n",
        "\r\n",
    ]));
    assert_eq!(resp.status, 200);
    assert_eq!(length, Some(17));
    assert_eq!(resp.header("content-type"), Some("application/json"));
    let (resp, length) = read_http_response(&lines(&["HTTP/1.1 204 No Content\r\n", "\r\n"]));
    assert_eq!(resp.status, 204);
    assert_eq!(length, None);
    assert_eq!(parse_status("HTTP/1.1"), 0);
    assert_eq!(parse_status("HTTP/1.1 abc"), 0);
}
