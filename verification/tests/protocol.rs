use http_server::headers::Headers;
use http_server::laws::serialize_request;
use http_server::request::{HttpRequest, ParseError};
use http_server::response::HttpResponse;

#[test]
fn parse_simple_get() {
    let input = b"GET / HTTP/1.1\r\nHost: localhost\r\n\r\n";
    let req = HttpRequest::parse(input).unwrap();
    assert_eq!(req.method, b"GET".to_vec());
    assert_eq!(req.path, b"/".to_vec());
    assert_eq!(req.version, b"HTTP/1.1".to_vec());
    assert_eq!(req.headers.get(b"Host"), Some(&b"localhost".to_vec()));
    assert_eq!(req.body, Vec::<u8>::new());
}

#[test]
fn round_trip_request() {
    let mut headers = Headers::new();
    headers.insert(b"Host".to_vec(), b"localhost".to_vec());
    headers.insert(b"Content-Length".to_vec(), b"5".to_vec());
    let req = HttpRequest {
        method: b"POST".to_vec(),
        path: b"/files/data".to_vec(),
        version: b"HTTP/1.1".to_vec(),
        headers,
        body: b"hello".to_vec(),
    };
    let wire = serialize_request(&req);
    let back = HttpRequest::parse(&wire).unwrap();
    assert_eq!(back.method, req.method);
    assert_eq!(back.path, req.path);
    assert_eq!(back.version, req.version);
    assert_eq!(back.body, req.body);
    assert_eq!(back.headers.len(), 2);
    assert_eq!(back.headers.get(b"Host"), Some(&b"localhost".to_vec()));
    assert_eq!(back.headers.get(b"Content-Length"), Some(&b"5".to_vec()));
}

#[test]
fn truncated_body_rejected() {
    let input = b"POST /files/f HTTP/1.1\r\nContent-Length: 10\r\n\r\nhello";
    assert!(matches!(HttpRequest::parse(input), Err(ParseError::TruncatedBody)));
}

#[test]
fn empty_header_value_dropped() {
    let input = b"GET / HTTP/1.1\r\nX-Empty: \r\n\r\n";
    let req = HttpRequest::parse(input).unwrap();
    assert_eq!(req.headers.get(b"X-Empty"), None);
    assert_eq!(req.headers.len(), 0);
}

#[test]
fn header_value_leading_space_trimmed() {
    let input = b"GET / HTTP/1.1\r\nX-Empty:  value\r\n\r\n";
    let req = HttpRequest::parse(input).unwrap();
    assert_eq!(req.headers.get(b"X-Empty"), Some(&b"value".to_vec()));
}

#[test]
fn empty_header_name_dropped() {
    let input = b"GET / HTTP/1.1\r\n : value\r\n\r\n";
    let req = HttpRequest::parse(input).unwrap();
    assert_eq!(req.headers.len(), 0);
}

#[test]
fn request_line_with_two_tokens_malformed() {
    let input = b"GET /\r\n\r\n";
    assert!(matches!(HttpRequest::parse(input), Err(ParseError::MalformedRequestLine)));
}

#[test]
fn empty_input_malformed() {
    assert!(matches!(HttpRequest::parse(b""), Err(ParseError::MalformedRequestLine)));
}

#[test]
fn header_without_separator_malformed() {
    let input = b"GET / HTTP/1.1\r\nBadHeader\r\n\r\n";
    assert!(matches!(HttpRequest::parse(input), Err(ParseError::MalformedHeader)));
}

#[test]
fn missing_terminator_malformed() {
    let input = b"GET / HTTP/1.1\r\nHost: x\r\n";
    assert!(matches!(HttpRequest::parse(input), Err(ParseError::MalformedHeader)));
}

#[test]
fn bare_lf_line_endings_accepted() {
    let input = b"GET /abc HTTP/1.1\nAccept: text\n\n";
    let req = HttpRequest::parse(input).unwrap();
    assert_eq!(req.path, b"/abc".to_vec());
    assert_eq!(req.headers.get(b"Accept"), Some(&b"text".to_vec()));
}

#[test]
fn leading_blank_lines_skipped() {
    let input = b"\r\n  \r\nGET / HTTP/1.1\r\n\r\n";
    let req = HttpRequest::parse(input).unwrap();
    assert_eq!(req.method, b"GET".to_vec());
}

#[test]
fn unparsable_content_length_means_empty_body() {
    let input = b"GET / HTTP/1.1\r\nContent-Length: abc\r\n\r\nleftover";
    let req = HttpRequest::parse(input).unwrap();
    assert_eq!(req.body, Vec::<u8>::new());
}

#[test]
fn body_is_exactly_declared_length() {
    let input = b"POST / HTTP/1.1\r\nContent-Length: 3\r\n\r\nabcdef";
    let req = HttpRequest::parse(input).unwrap();
    assert_eq!(req.body, b"abc".to_vec());
}

#[test]
fn repeated_header_last_occurrence_wins() {
    let input = b"GET / HTTP/1.1\r\nX-K: one\r\nX-K: two\r\n\r\n";
    let req = HttpRequest::parse(input).unwrap();
    assert_eq!(req.headers.len(), 1);
    assert_eq!(req.headers.get(b"X-K"), Some(&b"two".to_vec()));
}

#[test]
fn header_value_may_contain_separator() {
    let input = b"GET / HTTP/1.1\r\nX-Note: a: b\r\n\r\n";
    let req = HttpRequest::parse(input).unwrap();
    assert_eq!(req.headers.get(b"X-Note"), Some(&b"a: b".to_vec()));
}

#[test]
fn serialize_response_with_explicit_content_length() {
    let mut headers = Headers::new();
    headers.insert(b"Content-Type".to_vec(), b"text/plain".to_vec());
    headers.insert(b"Content-Length".to_vec(), b"2".to_vec());
    let resp = HttpResponse::new(200, headers, b"hi".to_vec());
    let expected = b"HTTP/1.1 200 OK\r\nContent-Type: text/plain\r\nContent-Length: 2\r\n\r\nhi";
    assert_eq!(resp.to_string(), expected.to_vec());
}

#[test]
fn serializer_inserts_content_length_when_missing() {
    let mut headers = Headers::new();
    headers.insert(b"Content-Type".to_vec(), b"text/plain".to_vec());
    let resp = HttpResponse::new(200, headers, b"hi".to_vec());
    let expected = b"HTTP/1.1 200 OK\r\nContent-Type: text/plain\r\nContent-Length: 2\r\n\r\nhi";
    assert_eq!(resp.to_string(), expected.to_vec());
}

#[test]
fn status_created_message() {
    let resp = HttpResponse::new(201, Headers::new(), Vec::new());
    let expected = b"HTTP/1.1 201 Created\r\nContent-Length: 0\r\n\r\n";
    assert_eq!(resp.to_string(), expected.to_vec());
}

#[test]
fn status_not_found_message() {
    let resp = HttpResponse::new(404, Headers::new(), Vec::new());
    let expected = b"HTTP/1.1 404 Not Found\r\nContent-Length: 0\r\n\r\n";
    assert_eq!(resp.to_string(), expected.to_vec());
}

#[test]
fn status_other_code_internal_error_message() {
    let resp = HttpResponse::new(500, Headers::new(), Vec::new());
    let expected = b"HTTP/1.1 500 Internal error\r\nContent-Length: 0\r\n\r\n";
    assert_eq!(resp.to_string(), expected.to_vec());
}
