use lsp_symbols::codec::{
    apply_header, frame, read_body, read_header_line, read_message, FrameError, HeaderStep,
};
use lsp_symbols::correlate::{await_reply, keep_waiting, match_reply};
use lsp_symbols::json::{dump_json, parse_json, Json};
use lsp_symbols::requests::{encode, symbol_request_message};

#[test]
fn frame_prefixes_byte_length() {
    assert_eq!(frame("{}"), "Content-Length: 2\r\n\r\n{}");
    // Two bytes for the one character.
    assert_eq!(frame("é"), "Content-Length: 2\r\n\r\né");
    assert_eq!(frame(""), "Content-Length: 0\r\n\r\n");
}

#[test]
fn encoded_message_is_compact_json() {
    let message = symbol_request_message("foo");
    let text = dump_json(&message);
    assert_eq!(
        text,
        "{\"id\":10,\"jsonrpc\":2,\"method\":\"workspace/symbol\",\"params\":{\"query\":\"foo\"}}"
    );
    assert_eq!(encode(&message), frame(&text));
}

#[test]
fn decode_of_encode_gives_payload_back() {
    let message = symbol_request_message("naïve \"quoted\"");
    let wire = encode(&message);
    let (text, used) = read_message(wire.as_bytes()).unwrap();
    assert_eq!(text, dump_json(&message));
    assert_eq!(used, wire.len());
    let reparsed = parse_json(&text).unwrap();
    assert_eq!(dump_json(&reparsed), text);
}

#[test]
fn decode_stops_at_end_of_first_frame() {
    let mut bytes = frame("{\"a\":1}").into_bytes();
    let first = bytes.len();
    bytes.extend_from_slice(frame("[]").as_bytes());
    let (text, used) = read_message(&bytes).unwrap();
    assert_eq!(text, "{\"a\":1}");
    assert_eq!(used, first);
}

#[test]
fn missing_length_is_a_data_error() {
    let r = read_message(b"X-Custom: 1\r\n\r\n{}");
    assert_eq!(r, Err(FrameError::MissingLength));
    assert!(FrameError::MissingLength.is_data_error());
    assert_eq!(read_message(b"\r\n{}"), Err(FrameError::MissingLength));
}

#[test]
fn malformed_header_lines() {
    assert_eq!(read_message(b"Content-Length:5\r\n\r\nhello"), Err(FrameError::MalformedHeader));
    assert_eq!(read_message(b"a b c\r\n\r\n"), Err(FrameError::MalformedHeader));
    assert_eq!(read_message(b"\n"), Err(FrameError::MalformedHeader));
}

#[test]
fn header_names_ignore_case_and_extra_headers() {
    let r = read_message(b"content-LENGTH: 2\r\nX-Other: yes\r\n\r\n[]");
    assert_eq!(r, Ok(("[]".to_string(), 37)));
}

#[test]
fn length_accepts_plus_sign_and_rejects_garbage() {
    assert_eq!(read_message(b"Content-Length: +2\r\n\r\n[]"), Ok(("[]".to_string(), 24)));
    assert_eq!(read_message(b"Content-Length: 2x\r\n\r\n[]"), Err(FrameError::InvalidLength));
    assert_eq!(read_message(b"Content-Length: \r\n\r\n[]"), Err(FrameError::InvalidLength));
    assert_eq!(
        read_message(b"Content-Length: 99999999999999999999999\r\n\r\n"),
        Err(FrameError::InvalidLength)
    );
}

#[test]
fn content_type_must_be_utf8() {
    let ok = read_message(b"Content-Length: 2\r\nContent-Type: utf-8\r\n\r\n{}");
    assert_eq!(ok, Ok(("{}".to_string(), 44)));
    let ok2 = read_message(b"Content-Type: utf8\r\nContent-Length: 2\r\n\r\n{}");
    assert_eq!(ok2, Ok(("{}".to_string(), 43)));
    let bad = read_message(b"Content-Length: 2\r\nContent-Type: latin1\r\n\r\n{}");
    assert_eq!(bad, Err(FrameError::InvalidContentType));
}

#[test]
fn truncated_input_is_unexpected_eof() {
    assert_eq!(read_message(b""), Err(FrameError::UnexpectedEof));
    assert_eq!(read_message(b"Content-Length: 2\r\n"), Err(FrameError::UnexpectedEof));
    assert_eq!(read_message(b"Content-Length: 5\r\n\r\nab"), Err(FrameError::UnexpectedEof));
    assert!(!FrameError::UnexpectedEof.is_data_error());
}

#[test]
fn invalid_utf8_body_or_header() {
    assert_eq!(read_message(b"Content-Length: 1\r\n\r\n\xff"), Err(FrameError::InvalidUtf8));
    assert_eq!(read_message(b"X-\xff: 1\r\n\r\n"), Err(FrameError::InvalidUtf8));
    assert_eq!(read_body(&[0xc3, 0xa9]), Ok("é".to_string()));
}

#[test]
fn header_steps_one_line_at_a_time() {
    assert_eq!(read_header_line(None, b"Content-Length: 12\r\n"), HeaderStep::Continue(Some(12)));
    assert_eq!(read_header_line(Some(12), b"\r\n"), HeaderStep::Body(12));
    assert_eq!(read_header_line(None, b""), HeaderStep::Fail(FrameError::UnexpectedEof));
    assert_eq!(apply_header("Content-Length:  3\r\n", None), HeaderStep::Fail(FrameError::MalformedHeader));
    assert_eq!(apply_header("Content-Length: \u{a0}7\r\n", None), HeaderStep::Continue(Some(7)));
}

#[test]
fn match_reply_checks_the_id() {
    assert!(match_reply("{\"id\":10,\"result\":[]}", 10).is_some());
    assert!(match_reply("{\"id\":100,\"result\":[]}", 10).is_none());
    assert!(match_reply("{\"method\":\"window/logMessage\"}", 10).is_none());
    assert!(match_reply("not json", 10).is_none());
    assert!(match_reply("{\"id\":\"10\"}", 10).is_none());
}

#[test]
fn await_reply_skips_other_frames() {
    let mut stream = Vec::new();
    stream.extend_from_slice(frame("{\"jsonrpc\":\"2.0\",\"method\":\"textDocument/publishDiagnostics\"}").as_bytes());
    stream.extend_from_slice(frame("{\"id\":20,\"result\":null}").as_bytes());
    let wanted = frame("{\"id\":10,\"result\":[{\"name\":\"x\"}]}");
    stream.extend_from_slice(wanted.as_bytes());
    let end = stream.len();
    stream.extend_from_slice(frame("{\"id\":10,\"result\":[]}").as_bytes());
    let (message, used) = await_reply(&stream, 10).unwrap();
    assert_eq!(used, end);
    let result = message.get("result").unwrap();
    assert_eq!(result.items_len(), Some(1));
}

#[test]
fn await_reply_passes_over_a_few_bad_frames() {
    let mut stream = b"garbage\r\n".to_vec();
    stream.extend_from_slice(b"Content-Length: 1\r\n\r\n\xff");
    stream.extend_from_slice(frame("{\"id\":10}").as_bytes());
    let (message, used) = await_reply(&stream, 10).unwrap();
    assert_eq!(used, stream.len());
    assert_eq!(message.get("id").unwrap().as_u32(), Some(10));
}

#[test]
fn await_reply_counts_failures_in_a_row() {
    let mut stream = Vec::new();
    for _ in 0..2 {
        stream.extend_from_slice(b"bad\r\n");
    }
    stream.extend_from_slice(frame("{\"id\":1}").as_bytes());
    for _ in 0..2 {
        stream.extend_from_slice(b"bad\r\n");
    }
    stream.extend_from_slice(frame("{\"id\":10}").as_bytes());
    assert!(await_reply(&stream, 10).is_ok());
}

#[test]
fn await_reply_surfaces_decode_errors() {
    let mut stream = Vec::new();
    for _ in 0..3 {
        stream.extend_from_slice(b"garbage\r\n");
    }
    stream.extend_from_slice(frame("{\"id\":10}").as_bytes());
    assert_eq!(await_reply(&stream, 10).unwrap_err(), FrameError::MalformedHeader);
    assert_eq!(await_reply(frame("{\"id\":1}").as_bytes(), 10).unwrap_err(), FrameError::UnexpectedEof);
    assert_eq!(await_reply(b"", 10).unwrap_err(), FrameError::UnexpectedEof);
}

#[test]
fn parsed_numbers_keep_their_parts() {
    let v = parse_json("[3, 2.5, -1]").unwrap();
    assert_eq!(v.at(0).unwrap().as_u32(), Some(3));
    assert_eq!(v.at(1).unwrap().as_u32(), None);
    assert_eq!(v.at(2).unwrap().as_u32(), None);
    assert!(matches!(v.at(1), Some(Json::Number(true, 25, -1))));
}

#[test]
fn waiting_goes_on_below_the_failure_bound() {
    assert!(keep_waiting(FrameError::MalformedHeader, 0));
    assert!(keep_waiting(FrameError::InvalidUtf8, 1));
    assert!(!keep_waiting(FrameError::MissingLength, 2));
    assert!(!keep_waiting(FrameError::UnexpectedEof, 0));
}
