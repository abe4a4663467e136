use axon::lsp_stub::{
    content_length, content_length_in, frame, handle, header_complete, message_frame, reply,
    respond, Response,
};
use serde_json::Value;

fn parse(text: &str) -> Value {
    serde_json::from_str(text).unwrap()
}

fn answer(text: &str, ignore_shutdown: bool) -> Option<(Value, bool)> {
    match respond(&parse(text), ignore_shutdown) {
        Response::Reply { message, ready } => Some((message, ready)),
        Response::Silence => None,
        Response::Exit => panic!("unexpected exit"),
    }
}

#[test]
fn initialize_is_answered_with_no_capabilities() {
    let (message, ready) = answer(r#"{"id":1,"method":"initialize"}"#, false).unwrap();
    assert!(ready);
    assert_eq!(message, parse(r#"{"jsonrpc":"2.0","id":1,"result":{"capabilities":{}}}"#));
}

#[test]
fn other_requests_get_null_and_notifications_silence() {
    for text in [
        r#"{"id":"a","method":"textDocument/hover"}"#,
        r#"{"id":"a"}"#,
        r#"{"id":"a","method":7}"#,
        r#"{"id":"a","method":"shutdown"}"#,
    ] {
        let (message, ready) = answer(text, false).unwrap();
        assert!(!ready);
        assert_eq!(message, parse(r#"{"jsonrpc":"2.0","id":"a","result":null}"#));
    }
    assert!(answer(r#"{"method":"initialized"}"#, false).is_none());
    assert!(answer(r#"{"method":"initialize"}"#, false).is_none());
    assert!(answer(r#"{"method":"shutdown"}"#, false).is_none());
    assert!(answer("[]", false).is_none());
}

#[test]
fn shutdown_and_exit_can_be_ignored() {
    assert!(answer(r#"{"id":1,"method":"shutdown"}"#, true).is_none());
    assert!(answer(r#"{"method":"exit"}"#, true).is_none());
    assert!(answer(r#"{"id":2,"method":"exit"}"#, true).is_none());
    assert!(matches!(respond(&parse(r#"{"method":"exit"}"#), false), Response::Exit));
    assert!(matches!(respond(&parse(r#"{"id":2,"method":"exit"}"#), false), Response::Exit));
}

#[test]
fn a_body_that_is_no_json_ends_the_conversation() {
    assert!(matches!(handle(b"{oops", false), Response::Exit));
    assert!(matches!(handle(b"", true), Response::Exit));
    assert!(matches!(handle(br#"{"method":"initialized"}"#, false), Response::Silence));
    assert!(matches!(
        handle(br#"{"id":1,"method":"x"}"#, false),
        Response::Reply { ready: false, .. }
    ));
}

#[test]
fn a_frame_reads_back() {
    for body in [&b""[..], b"{}", "{\"a\":\"é\"}".as_bytes(), &[7u8; 12345]] {
        let framed = frame(body);
        let end = (0..=framed.len()).find(|n| header_complete(&framed[..*n])).unwrap();
        assert_eq!(content_length(&framed[..end]), Some(body.len()));
        assert_eq!(&framed[end..], body);
    }
    assert_eq!(frame(b"abc"), b"Content-Length: 3\r\n\r\nabc");
}

#[test]
fn a_message_is_framed_by_its_bytes() {
    let message = reply(&Value::from(3), Value::from("é"));
    let framed = message_frame(&message);
    let text = "{\"jsonrpc\":\"2.0\",\"id\":3,\"result\":\"é\"}";
    assert_eq!(framed, format!("Content-Length: {}\r\n\r\n{text}", text.len()).into_bytes());
}

#[test]
fn the_first_usable_length_counts() {
    assert_eq!(content_length_in("content-LENGTH:  42 \r\n\r\n"), Some(42));
    assert_eq!(content_length_in("Content-Type: a:b\r\nContent-Length: 7\r\n\r\n"), Some(7));
    assert_eq!(content_length_in("Content-Length: x\r\nContent-Length: 8\r\n\r\n"), Some(8));
    assert_eq!(content_length_in("Content-Length: 1\r\nContent-Length: 2\r\n\r\n"), Some(1));
    assert_eq!(content_length_in("Content-Length : 1\r\n\r\n"), None);
    assert_eq!(content_length_in("Content-Length: -1\r\n\r\n"), None);
    assert_eq!(content_length_in("Content-Length: +5\r\n\r\n"), Some(5));
    assert_eq!(content_length_in("\r\n\r\n"), None);
    // Bytes that are no text do not hide the line that follows.
    assert_eq!(content_length(b"X: \xff\xfe\r\nContent-Length: 9\r\n\r\n"), Some(9));
    assert!(!header_complete(b"\n\r\n"));
    assert!(header_complete(b"\r\n\r\n"));
}
