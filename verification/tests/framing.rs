use sugondese::http_request::HttpRequest;
use sugondese::method_verb::HttpMethod;
use sugondese::request_reader::parse_request;

fn parsed(input: &str) -> Option<(HttpMethod, String, Option<String>)> {
    parse_request(input.as_bytes()).map(|request: HttpRequest| {
        (request.method, request.uri, request.body)
    })
}

#[test]
fn body_ends_after_the_announced_length() {
    let request = parsed(
        "POST /submit HTTP/1.1\r\nHost: localhost\r\nContent-Length: 5\r\n\r\nhelloEXTRA BYTES",
    );
    assert_eq!(
        request,
        Some((HttpMethod::Post, "/submit".to_string(), Some("hello".to_string())))
    );
}

#[test]
fn body_of_exactly_the_announced_length() {
    let request = parsed("PUT /p HTTP/1.1\r\ncontent-length: 5\r\n\r\nhello");
    assert_eq!(
        request,
        Some((HttpMethod::Put, "/p".to_string(), Some("hello".to_string())))
    );
}

#[test]
fn body_shorter_than_announced_is_a_failure() {
    assert_eq!(parsed("POST /p HTTP/1.1\r\nContent-Length: 6\r\n\r\nhello"), None);
}

#[test]
fn get_ignores_headers_and_body() {
    let request = parsed("GET /a?b=1 HTTP/1.1\r\nContent-Length: 5\r\n\r\nhello");
    assert_eq!(request, Some((HttpMethod::Get, "/a?b=1".to_string(), None)));
}

#[test]
fn delete_never_has_a_body() {
    let request = parsed("DELETE /things/4 HTTP/1.1\r\nContent-Length: 2\r\n\r\n{}");
    assert_eq!(request, Some((HttpMethod::Delete, "/things/4".to_string(), None)));
}

#[test]
fn request_line_without_line_end_is_read() {
    assert_eq!(parsed("GET /"), Some((HttpMethod::Get, "/".to_string(), None)));
}

#[test]
fn post_without_content_length_has_no_body() {
    let request = parsed("POST /p HTTP/1.1\r\nHost: localhost\r\n\r\nignored");
    assert_eq!(request, Some((HttpMethod::Post, "/p".to_string(), None)));
}

#[test]
fn post_that_ends_in_the_headers_is_a_failure() {
    assert_eq!(parsed("POST /p HTTP/1.1\r\nHost: localhost\r\n"), None);
    assert_eq!(parsed("POST /p HTTP/1.1\r\n"), None);
    assert_eq!(parsed("POST /p HTTP/1.1\r\nContent-Length: 5"), None);
}

#[test]
fn bare_line_feed_does_not_end_the_headers() {
    assert_eq!(parsed("POST /p HTTP/1.1\nContent-Length: 2\n\nhi"), None);
    let request = parsed("POST /p HTTP/1.1\nContent-Length: 2\n\n\r\nhi");
    assert_eq!(
        request,
        Some((HttpMethod::Post, "/p".to_string(), Some("hi".to_string())))
    );
}

#[test]
fn empty_input_is_a_failure() {
    assert_eq!(parsed(""), None);
    assert_eq!(parsed("\r\n"), None);
}

#[test]
fn unknown_method_is_a_failure() {
    assert_eq!(parsed("PATCH /p HTTP/1.1\r\n\r\n"), None);
    assert_eq!(parsed("get /p HTTP/1.1\r\n\r\n"), None);
}

#[test]
fn request_line_that_is_not_utf8_is_a_failure() {
    assert!(parse_request(b"GET /\xff HTTP/1.1\r\n").is_none());
}

#[test]
fn header_line_that_is_not_utf8_is_a_failure() {
    assert!(parse_request(b"POST / HTTP/1.1\r\nX: \xc3\x28\r\n\r\n").is_none());
}

#[test]
fn body_that_is_not_utf8_is_a_failure() {
    assert!(parse_request(b"POST / HTTP/1.1\r\nContent-Length: 2\r\n\r\n\xc3\x28").is_none());
}

#[test]
fn body_is_counted_in_bytes() {
    let request = parse_request(
        b"POST / HTTP/1.1\r\nContent-Length: 5\r\n\r\ncaf\xc3\xa9\xc3\xa9",
    )
    .unwrap();
    assert_eq!(request.body, Some("caf\u{e9}".to_string()));
}

#[test]
fn body_may_hold_line_ends() {
    let request = parsed("POST / HTTP/1.1\r\nContent-Length: 6\r\n\r\na\r\n\r\nbc").unwrap();
    assert_eq!(request.2, Some("a\r\n\r\nb".to_string()));
}

#[test]
fn post_whose_length_is_no_number_has_no_body() {
    let request = parsed("POST /p HTTP/1.1\r\nContent-Length: 1:2\r\n\r\nhi");
    assert_eq!(request, Some((HttpMethod::Post, "/p".to_string(), None)));
    let request = parsed("PUT /p HTTP/1.1\r\nContent-Length: two\r\n\r\nhi");
    assert_eq!(request, Some((HttpMethod::Put, "/p".to_string(), None)));
}
