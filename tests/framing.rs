use lsp_rpc::framing::{decimal_digits, frame_message, read_message, ReadError, ReadOutcome};

fn body_of(r: Result<ReadOutcome, ReadError>) -> (String, usize) {
    match r {
        Ok(ReadOutcome::Message { body, consumed }) => (body, consumed),
        other => panic!("expected a message, got {:?}", other),
    }
}

#[test]
fn frame_has_exact_header() {
    let framed = frame_message("{\"id\":1}");
    assert_eq!(framed, b"Content-Length: 8\r\n\r\n{\"id\":1}".to_vec());
}

#[test]
fn frame_counts_bytes_not_chars() {
    let framed = frame_message("é");
    assert_eq!(framed, b"Content-Length: 2\r\n\r\n\xc3\xa9".to_vec());
}

#[test]
fn decimal_digits_of_numbers() {
    assert_eq!(decimal_digits(0), b"0".to_vec());
    assert_eq!(decimal_digits(7), b"7".to_vec());
    assert_eq!(decimal_digits(120), b"120".to_vec());
    assert_eq!(decimal_digits(usize::MAX), usize::MAX.to_string().into_bytes());
}

#[test]
fn round_trip_keeps_body() {
    let body = "{\"jsonrpc\":\"2.0\",\"id\":42,\"method\":\"initialize\",\"params\":{\"x\":\"ü→\"}}";
    let framed = frame_message(body);
    let (read, consumed) = body_of(read_message(&framed, false));
    assert_eq!(read, body);
    assert_eq!(consumed, framed.len());
}

#[test]
fn round_trip_empty_body() {
    let framed = frame_message("");
    let (read, consumed) = body_of(read_message(&framed, true));
    assert_eq!(read, "");
    assert_eq!(consumed, framed.len());
}

#[test]
fn round_trip_with_following_message() {
    let mut bytes = frame_message("{\"a\":1}");
    let first_len = bytes.len();
    bytes.extend(frame_message("{\"b\":2}"));
    let (read, consumed) = body_of(read_message(&bytes, false));
    assert_eq!(read, "{\"a\":1}");
    assert_eq!(consumed, first_len);
    let (read, _) = body_of(read_message(&bytes[consumed..], false));
    assert_eq!(read, "{\"b\":2}");
}

#[test]
fn extra_header_lines_are_skipped() {
    let bytes = b"Content-Length: 2\r\nContent-Type: application/json\r\n\r\n{}";
    let (read, consumed) = body_of(read_message(bytes, false));
    assert_eq!(read, "{}");
    assert_eq!(consumed, bytes.len());
}

#[test]
fn bad_header_fails_before_body() {
    let r = read_message(b"Content-Type: text\r\n", false);
    assert!(matches!(r, Err(ReadError::UnexpectedHeader)));
    let r = read_message(b"Content-Length: abc\r\n\r\n{}", false);
    assert!(matches!(r, Err(ReadError::UnexpectedHeader)));
    let r = read_message(b"Content-Length: \r\n\r\n", true);
    assert!(matches!(r, Err(ReadError::UnexpectedHeader)));
}

#[test]
fn closed_empty_stream_has_no_more_messages() {
    assert!(matches!(read_message(b"", true), Ok(ReadOutcome::Closed)));
    assert!(matches!(read_message(b"", false), Ok(ReadOutcome::NeedMore)));
}

#[test]
fn partial_input_needs_more() {
    assert!(matches!(read_message(b"Content-Len", false), Ok(ReadOutcome::NeedMore)));
    assert!(matches!(read_message(b"Content-Length: 5\r\n", false), Ok(ReadOutcome::NeedMore)));
    assert!(matches!(read_message(b"Content-Length: 5\r\n\r\n{}", false), Ok(ReadOutcome::NeedMore)));
}

#[test]
fn stream_closed_mid_message_is_an_error() {
    let r = read_message(b"Content-Length: 5\r\n\r\n{}", true);
    assert!(matches!(r, Err(ReadError::UnexpectedEof)));
    let r = read_message(b"Content-Length: 5\r\n", true);
    assert!(matches!(r, Err(ReadError::UnexpectedEof)));
    let r = read_message(b"Content-Len", true);
    assert!(matches!(r, Err(ReadError::UnexpectedHeader)));
}

#[test]
fn invalid_utf8_body_is_an_error() {
    let r = read_message(b"Content-Length: 2\r\n\r\n\xff\xfe", false);
    assert!(matches!(r, Err(ReadError::InvalidUtf8)));
}

#[test]
fn oversized_length_is_an_error() {
    let r = read_message(b"Content-Length: 99999999999999999999999\r\n\r\n", false);
    assert!(matches!(r, Err(ReadError::InvalidLength)));
}

#[test]
fn bare_newline_header_line_is_accepted() {
    let (read, _) = body_of(read_message(b"Content-Length: 3\n\r\nabc", false));
    assert_eq!(read, "abc");
}
