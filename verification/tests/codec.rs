//! Lines of a child process: messages on stdout, text on stderr.

use supergateway::cli::{LogLevel, OutputTransport};
use supergateway::codec::{
    read_stderr_line, write_message, CodecError, MessageRead, StdoutCodec, DEFAULT_PARTIAL_BUFFER,
    MAX_MESSAGE_SIZE, STDERR_MAX_LINE,
};
use supergateway::json::RawValue;
use supergateway::jsonrpc::{Parsed, RawMessage};
use supergateway::observe::{Logger, Metrics};

fn test_logger() -> Logger {
    Logger::buffered(OutputTransport::Sse, LogLevel::Debug)
}

/// A reader of a stream that holds these bytes and then ends.
fn reader(data: &[u8], max_buffer: usize) -> StdoutCodec {
    let mut codec = StdoutCodec::new(max_buffer);
    codec.push(data);
    codec.finish();
    codec
}

fn next(
    codec: &mut StdoutCodec,
    metrics: &mut Metrics,
    logger: &mut Logger,
) -> Result<Option<Parsed>, CodecError> {
    match codec.read_message(metrics, logger)? {
        MessageRead::Message(p) => Ok(Some(p)),
        MessageRead::More => panic!("the stream has ended"),
        MessageRead::End => Ok(None),
    }
}

#[test]
fn single_message() {
    let data = b"{\"jsonrpc\":\"2.0\",\"id\":1,\"method\":\"ping\"}\n";
    let mut codec = reader(data, DEFAULT_PARTIAL_BUFFER);
    let mut metrics = Metrics::new();
    let mut logger = test_logger();

    let msg = next(&mut codec, &mut metrics, &mut logger).unwrap().unwrap();
    assert!(matches!(msg, Parsed::Single(ref m) if m.is_request()));
    assert!(next(&mut codec, &mut metrics, &mut logger).unwrap().is_none());
}

#[test]
fn batch_message() {
    let data =
        b"[{\"jsonrpc\":\"2.0\",\"id\":1,\"method\":\"a\"},{\"jsonrpc\":\"2.0\",\"method\":\"b\"}]\n";
    let mut codec = reader(data, DEFAULT_PARTIAL_BUFFER);
    let mut metrics = Metrics::new();
    let mut logger = test_logger();

    match next(&mut codec, &mut metrics, &mut logger).unwrap().unwrap() {
        Parsed::Batch(msgs) => {
            assert_eq!(msgs.len(), 2);
            assert!(msgs[0].is_request());
            assert!(msgs[1].is_notification());
        }
        _ => panic!("expected batch"),
    }
}

#[test]
fn empty_lines_skipped() {
    let data = b"\n\n  \n{\"jsonrpc\":\"2.0\",\"id\":1,\"method\":\"ping\"}\n\n";
    let mut codec = reader(data, DEFAULT_PARTIAL_BUFFER);
    let mut metrics = Metrics::new();
    let mut logger = test_logger();

    let msg = next(&mut codec, &mut metrics, &mut logger).unwrap().unwrap();
    assert!(matches!(msg, Parsed::Single(_)));
    assert!(next(&mut codec, &mut metrics, &mut logger).unwrap().is_none());
}

#[test]
fn codec_crlf_line_endings() {
    let data = b"{\"jsonrpc\":\"2.0\",\"id\":1,\"method\":\"ping\"}\r\n";
    let mut codec = reader(data, DEFAULT_PARTIAL_BUFFER);
    let mut metrics = Metrics::new();
    let mut logger = test_logger();

    let msg = next(&mut codec, &mut metrics, &mut logger).unwrap().unwrap();
    assert!(matches!(msg, Parsed::Single(ref m) if m.is_request()));
}

#[test]
fn oversized_message_skipped() {
    let big = "x".repeat(MAX_MESSAGE_SIZE + 1);
    let valid = "{\"jsonrpc\":\"2.0\",\"id\":1,\"method\":\"ping\"}";
    let data = format!("{big}\n{valid}\n");
    let mut codec = reader(data.as_bytes(), DEFAULT_PARTIAL_BUFFER);
    let mut metrics = Metrics::new();
    let mut logger = test_logger();

    // Oversized line skipped; we get the valid message
    let msg = next(&mut codec, &mut metrics, &mut logger).unwrap().unwrap();
    assert!(matches!(msg, Parsed::Single(ref m) if m.is_request()));
    assert_eq!(metrics.decode_errors, 1);
    let log_output = logger.get_output();
    assert!(log_output.contains("exceeds 16MB limit"));
}

#[test]
fn parse_error_skipped() {
    let data = b"not json at all\n{\"jsonrpc\":\"2.0\",\"id\":1,\"method\":\"ping\"}\n";
    let mut codec = reader(data, DEFAULT_PARTIAL_BUFFER);
    let mut metrics = Metrics::new();
    let mut logger = test_logger();

    let msg = next(&mut codec, &mut metrics, &mut logger).unwrap().unwrap();
    assert!(matches!(msg, Parsed::Single(ref m) if m.is_request()));
    assert_eq!(metrics.decode_errors, 1);

    let log_output = logger.get_output();
    assert!(log_output.contains("JSON parse error"));
    assert!(log_output.contains("not json at all"));
}

#[test]
fn partial_buffer_overflow() {
    // 1024 bytes with no newline, max_buffer = 512
    let data = vec![b'a'; 1024];
    let mut codec = reader(&data, 512);
    let mut metrics = Metrics::new();
    let mut logger = test_logger();

    match next(&mut codec, &mut metrics, &mut logger) {
        Err(CodecError::BufferOverflow { size, limit }) => {
            assert!(size > 512);
            assert_eq!(limit, 512);
        }
        other => panic!("expected BufferOverflow, got {other:?}"),
    }
}

#[test]
fn invalid_utf8_stdout_fatal() {
    let mut data = Vec::new();
    data.extend_from_slice(b"\xff\xfe invalid utf8");
    data.push(b'\n');
    let mut codec = reader(&data, DEFAULT_PARTIAL_BUFFER);
    let mut metrics = Metrics::new();
    let mut logger = test_logger();

    match next(&mut codec, &mut metrics, &mut logger) {
        Err(CodecError::InvalidUtf8) => {}
        other => panic!("expected InvalidUtf8, got {other:?}"),
    }
    assert_eq!(metrics.decode_errors, 1);
}

#[test]
fn stderr_lossy_utf8() {
    let mut data = Vec::new();
    data.extend_from_slice(b"hello \xff world\n");
    
    let line = read_stderr_line(&data[..], STDERR_MAX_LINE).0.unwrap();
    assert!(line.contains("hello"));
    assert!(line.contains('\u{FFFD}'));
    assert!(line.contains("world"));
}

#[test]
fn stderr_line_truncation() {
    let long_line = "a".repeat(8192);
    let data = format!("{long_line}\n").into_bytes();
    
    let line = read_stderr_line(&data[..], STDERR_MAX_LINE).0.unwrap();
    assert_eq!(line.len(), STDERR_MAX_LINE);
}

#[test]
fn stderr_crlf() {
    let data = b"stderr output\r\n";
    
    let line = read_stderr_line(&data[..], STDERR_MAX_LINE).0.unwrap();
    assert_eq!(line, "stderr output");
}

#[test]
fn eof_with_trailing_newline() {
    let data = b"{\"jsonrpc\":\"2.0\",\"id\":1,\"method\":\"ping\"}\n";
    let mut codec = reader(data, DEFAULT_PARTIAL_BUFFER);
    let mut metrics = Metrics::new();
    let mut logger = test_logger();

    assert!(next(&mut codec, &mut metrics, &mut logger).unwrap().is_some());
    assert!(next(&mut codec, &mut metrics, &mut logger).unwrap().is_none());
}

#[test]
fn eof_without_trailing_newline() {
    let data = b"{\"jsonrpc\":\"2.0\",\"id\":1,\"method\":\"ping\"}";
    let mut codec = reader(data, DEFAULT_PARTIAL_BUFFER);
    let mut metrics = Metrics::new();
    let mut logger = test_logger();

    let msg = next(&mut codec, &mut metrics, &mut logger).unwrap().unwrap();
    assert!(matches!(msg, Parsed::Single(ref m) if m.is_request()));
    assert!(next(&mut codec, &mut metrics, &mut logger).unwrap().is_none());
}

#[test]
fn eof_trailing_invalid_discarded() {
    let data = b"not valid json";
    let mut codec = reader(data, DEFAULT_PARTIAL_BUFFER);
    let mut metrics = Metrics::new();
    let mut logger = test_logger();

    // Invalid trailing data is skipped (parse error), then EOF
    assert!(next(&mut codec, &mut metrics, &mut logger).unwrap().is_none());
    assert_eq!(metrics.decode_errors, 1);
}

#[test]
fn write_message_format() {
    let msg = RawMessage {
        jsonrpc: "2.0".into(),
        id: Some(RawValue::from_string("1".into()).unwrap()),
        method: Some("ping".into()),
        params: None,
        result: None,
        error: None,
        ..Default::default()
    };
    let mut out = Vec::new();
    write_message(&mut out, &msg);
    let output = String::from_utf8(out).unwrap();
    assert!(output.ends_with('\n'));
    assert!(output.contains("\"jsonrpc\":\"2.0\""));
    assert!(output.contains("\"method\":\"ping\""));
}

#[test]
fn multiple_messages() {
    let data = [
        "{\"jsonrpc\":\"2.0\",\"id\":1,\"method\":\"a\"}\n",
        "{\"jsonrpc\":\"2.0\",\"id\":2,\"method\":\"b\"}\n",
        "{\"jsonrpc\":\"2.0\",\"method\":\"c\"}\n",
    ]
    .concat();
    let mut codec = reader(data.as_bytes(), DEFAULT_PARTIAL_BUFFER);
    let mut metrics = Metrics::new();
    let mut logger = test_logger();

    let m1 = next(&mut codec, &mut metrics, &mut logger).unwrap().unwrap();
    assert!(matches!(m1, Parsed::Single(ref m) if m.method_str() == Some("a")));

    let m2 = next(&mut codec, &mut metrics, &mut logger).unwrap().unwrap();
    assert!(matches!(m2, Parsed::Single(ref m) if m.method_str() == Some("b")));

    let m3 = next(&mut codec, &mut metrics, &mut logger).unwrap().unwrap();
    assert!(matches!(m3, Parsed::Single(ref m) if m.is_notification()));

    assert!(next(&mut codec, &mut metrics, &mut logger).unwrap().is_none());
}

#[test]
fn partial_utf8_at_boundary() {
    // Multi-byte UTF-8: é = 0xC3 0xA9, correctly handled when
    // split across reads.
    let msg = "{\"jsonrpc\":\"2.0\",\"id\":1,\"method\":\"café\"}\n";
    let mut codec = reader(msg.as_bytes(), DEFAULT_PARTIAL_BUFFER);
    let mut metrics = Metrics::new();
    let mut logger = test_logger();

    let parsed = next(&mut codec, &mut metrics, &mut logger).unwrap().unwrap();
    match parsed {
        Parsed::Single(m) => assert_eq!(m.method_str(), Some("café")),
        _ => panic!("expected single"),
    }
}

#[test]
fn stderr_eof() {
            assert!(read_stderr_line(&[], STDERR_MAX_LINE).0.is_none());
}

#[test]
fn stderr_eof_without_newline() {
    let data = b"trailing stderr";
    
    let line = read_stderr_line(&data[..], STDERR_MAX_LINE).0.unwrap();
    assert_eq!(line, "trailing stderr");
}
