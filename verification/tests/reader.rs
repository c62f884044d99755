use sugondese::http_request::HttpRequest;
use sugondese::method_verb::HttpMethod;
use sugondese::request_reader::{ParseState, ParseStep, ReadDemand, StreamEvent};

fn line(text: &str) -> StreamEvent {
    StreamEvent::Line(text.to_string())
}

fn expect_continue(step: ParseStep) -> ParseState {
    match step {
        ParseStep::Continue(state) => state,
        ParseStep::Done(request) => panic!("done too early: {request:?}"),
        ParseStep::Rejected => panic!("rejected"),
    }
}

fn expect_done(step: ParseStep) -> HttpRequest {
    match step {
        ParseStep::Done(request) => request,
        ParseStep::Continue(_) => panic!("not done"),
        ParseStep::Rejected => panic!("rejected"),
    }
}

fn is_rejected(step: ParseStep) -> bool {
    matches!(step, ParseStep::Rejected)
}

fn headers_read(lines: &[&str]) -> ParseStep {
    let mut state = expect_continue(ParseState::new().advance(line("POST /p HTTP/1.1\r\n")));
    for text in lines {
        assert_eq!(state.demand(), ReadDemand::Line);
        state = expect_continue(state.advance(line(text)));
    }
    state.advance(line("\r\n"))
}

#[test]
fn reading_starts_with_a_line() {
    assert_eq!(ParseState::new().demand(), ReadDemand::Line);
}

#[test]
fn get_is_complete_after_the_request_line() {
    let request = expect_done(ParseState::new().advance(line("GET /a?x=1 HTTP/1.1\r\n")));
    assert_eq!(request.method, HttpMethod::Get);
    assert_eq!(request.uri, "/a?x=1");
    assert_eq!(request.body, None);
}

#[test]
fn delete_is_complete_after_the_request_line() {
    let request = expect_done(ParseState::new().advance(line("DELETE /a HTTP/1.1\r\n")));
    assert_eq!(request.method, HttpMethod::Delete);
    assert_eq!(request.uri, "/a");
    assert_eq!(request.body, None);
}

#[test]
fn bad_request_line_is_rejected() {
    assert!(is_rejected(ParseState::new().advance(line("BREW /pot HTCPCP/1.0\r\n"))));
    assert!(is_rejected(ParseState::new().advance(line("GET\r\n"))));
    assert!(is_rejected(ParseState::new().advance(line(""))));
}

#[test]
fn failed_read_is_rejected_in_every_state() {
    assert!(is_rejected(ParseState::new().advance(StreamEvent::Failed)));
    let headers = expect_continue(ParseState::new().advance(line("PUT /p HTTP/1.1\r\n")));
    assert!(is_rejected(headers.advance(StreamEvent::Failed)));
    let body = expect_continue(headers_read(&["Content-Length: 2\r\n"]));
    assert!(is_rejected(body.advance(StreamEvent::Failed)));
}

#[test]
fn event_of_another_kind_is_rejected() {
    assert!(is_rejected(ParseState::new().advance(StreamEvent::Bytes(b"GET / \r\n".to_vec()))));
    let body = expect_continue(headers_read(&["Content-Length: 2\r\n"]));
    assert!(is_rejected(body.advance(line("hi"))));
}

#[test]
fn post_without_length_has_no_body() {
    let request = expect_done(headers_read(&["Host: localhost\r\n"]));
    assert_eq!(request.method, HttpMethod::Post);
    assert_eq!(request.uri, "/p");
    assert_eq!(request.body, None);
}

#[test]
fn post_with_length_zero_has_no_body() {
    let request = expect_done(headers_read(&["Content-Length: 0\r\n"]));
    assert_eq!(request.body, None);
}

#[test]
fn post_with_unreadable_length_has_no_body() {
    let request = expect_done(headers_read(&["Content-Length: many\r\n"]));
    assert_eq!(request.body, None);
}

#[test]
fn post_with_colon_in_the_length_has_no_body() {
    let request = expect_done(headers_read(&["Content-Length: 1:2\r\n"]));
    assert_eq!(request.method, HttpMethod::Post);
    assert_eq!(request.uri, "/p");
    assert_eq!(request.body, None);
}

#[test]
fn post_with_length_asks_for_that_many_bytes() {
    let state = expect_continue(headers_read(&[
        "Host: localhost\r\n",
        "Content-Length: 5\r\n",
        "Accept: */*\r\n",
    ]));
    assert_eq!(state.demand(), ReadDemand::Bytes(5));
    let request = expect_done(state.advance(StreamEvent::Bytes(b"hello".to_vec())));
    assert_eq!(request.method, HttpMethod::Post);
    assert_eq!(request.uri, "/p");
    assert_eq!(request.body, Some("hello".to_string()));
}

#[test]
fn body_is_decoded_as_utf8() {
    let state = expect_continue(headers_read(&["Content-Length: 6\r\n"]));
    let request = expect_done(state.advance(StreamEvent::Bytes(vec![
        0x63, 0x61, 0x66, 0xc3, 0xa9, 0x21,
    ])));
    assert_eq!(request.body, Some("caf\u{e9}!".to_string()));
}

#[test]
fn body_that_is_not_utf8_is_rejected() {
    let state = expect_continue(headers_read(&["Content-Length: 2\r\n"]));
    assert!(is_rejected(state.advance(StreamEvent::Bytes(vec![0xc3, 0x28]))));
}

#[test]
fn body_of_another_length_is_rejected() {
    let state = expect_continue(headers_read(&["Content-Length: 5\r\n"]));
    assert!(is_rejected(state.advance(StreamEvent::Bytes(b"hell".to_vec()))));
    let state = expect_continue(headers_read(&["Content-Length: 5\r\n"]));
    assert!(is_rejected(state.advance(StreamEvent::Bytes(b"hello!".to_vec()))));
}

#[test]
fn end_of_stream_in_the_headers_is_rejected() {
    let state = expect_continue(ParseState::new().advance(line("POST /p HTTP/1.1\r\n")));
    let state = expect_continue(state.advance(line("Host: localhost\r\n")));
    assert!(is_rejected(state.advance(line(""))));
}

#[test]
fn only_carriage_return_and_line_feed_end_the_headers() {
    let state = expect_continue(ParseState::new().advance(line("POST /p HTTP/1.1\r\n")));
    let state = expect_continue(state.advance(line("\n")));
    let state = expect_continue(state.advance(line("Content-Length: 1\r\n")));
    let state = expect_continue(state.advance(line(" \r\n")));
    let state = expect_continue(state.advance(line("\r\n")));
    assert_eq!(state.demand(), ReadDemand::Bytes(1));
}

#[test]
fn put_carries_a_body_too() {
    let state = expect_continue(ParseState::new().advance(line("PUT /things/3 HTTP/1.1\r\n")));
    let state = expect_continue(state.advance(line("content-length: 2\r\n")));
    let state = expect_continue(state.advance(line("\r\n")));
    let request = expect_done(state.advance(StreamEvent::Bytes(b"{}".to_vec())));
    assert_eq!(request.method, HttpMethod::Put);
    assert_eq!(request.uri, "/things/3");
    assert_eq!(request.body, Some("{}".to_string()));
}
