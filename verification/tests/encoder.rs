use echo_server::encoder::encode;
use echo_server::headers::Headers;
use echo_server::request::{Method, ParsedRequest};
use echo_server::response::{ResponseSpec, Status};
use echo_server::router::route;

fn body_after_blank_line(wire: &[u8]) -> &[u8] {
    let at = wire.windows(4).position(|w| w == b"\r\n\r\n").unwrap();
    &wire[at + 4..]
}

fn announced_length(wire: &[u8]) -> usize {
    let at = wire.windows(4).position(|w| w == b"\r\n\r\n").unwrap();
    let head = String::from_utf8(wire[..at].to_vec()).unwrap();
    let line = head
        .split("\r\n")
        .find(|line| line.to_ascii_lowercase().starts_with("content-length:"))
        .unwrap();
    line["content-length:".len()..].trim().parse().unwrap()
}

#[test]
fn encodes_the_echo_of_hello_world() {
    let response = route(ParsedRequest::new(
        Method::Post,
        "/echo".to_string(),
        None,
        b"hello world".to_vec(),
    ));
    assert_eq!(
        encode(&response),
        b"HTTP/1.1 200 OK\r\nContent-Length: 11\r\nConnection: close\r\n\r\nhello world"
    );
}

#[test]
fn encodes_not_found() {
    assert_eq!(
        encode(&ResponseSpec::not_found()),
        b"HTTP/1.1 404 Not Found\r\nContent-Length: 9\r\nConnection: close\r\n\r\nNot Found"
    );
}

#[test]
fn encodes_bad_request() {
    assert_eq!(
        encode(&ResponseSpec::bad_request()),
        b"HTTP/1.1 400 Bad Request\r\nContent-Length: 11\r\nConnection: close\r\n\r\nBad Request"
    );
}

#[test]
fn encodes_an_empty_body() {
    assert_eq!(
        encode(&ResponseSpec::new(Status::Success, Vec::new())),
        b"HTTP/1.1 200 OK\r\nContent-Length: 0\r\nConnection: close\r\n\r\n"
    );
}

#[test]
fn encoding_frames_what_was_not_framed() {
    let response = ResponseSpec { status: Status::Success, headers: Headers::new(), body: b"abc".to_vec() };
    assert_eq!(
        encode(&response),
        b"HTTP/1.1 200 OK\r\nContent-Length: 3\r\nConnection: close\r\n\r\nabc"
    );
    assert_eq!(response.headers.len(), 0);
}

#[test]
fn encoding_overwrites_wrong_framing_and_keeps_the_order() {
    let mut headers = Headers::new();
    headers.insert(b"content-length", b"999").unwrap();
    headers.insert(b"X-Served-By", b"echo").unwrap();
    headers.insert(b"Connection", b"keep-alive").unwrap();
    headers.insert(b"Content-Type", b"text/plain").unwrap();
    let response = ResponseSpec { status: Status::NotFound, headers, body: b"gone".to_vec() };
    assert_eq!(
        encode(&response),
        &b"HTTP/1.1 404 Not Found\r\nContent-Length: 4\r\nX-Served-By: echo\r\nConnection: close\r\nContent-Type: text/plain\r\n\r\ngone"[..]
    );
}

#[test]
fn the_body_goes_out_as_it_is() {
    let body: Vec<u8> = vec![0x00, 0x0d, 0x0a, 0x0d, 0x0a, 0xff, 0x80, b'%', b'2', b'0'];
    let wire = encode(&ResponseSpec::new(Status::Success, body.clone()));
    assert_eq!(body_after_blank_line(&wire), &body[..]);
    assert_eq!(announced_length(&wire), body.len());
}

#[test]
fn content_length_is_the_length_of_what_follows_the_head() {
    let requests = vec![
        ParsedRequest::new(Method::Post, "/echo".to_string(), None, vec![7; 100_000]),
        ParsedRequest::new(Method::Post, "/echo".to_string(), None, Vec::new()),
        ParsedRequest::new(Method::Get, "/echo".to_string(), Some("msg=hi%20there".to_string()), Vec::new()),
        ParsedRequest::new(Method::Get, "/echo".to_string(), Some("msg=%FF%FE".to_string()), Vec::new()),
        ParsedRequest::new(Method::Get, "/echo".to_string(), None, Vec::new()),
        ParsedRequest::new(Method::Get, "/echo".to_string(), Some("foo=bar".to_string()), Vec::new()),
        ParsedRequest::new(Method::Other, "/echo".to_string(), None, Vec::new()),
        ParsedRequest::new(Method::Get, "/unknown".to_string(), None, Vec::new()),
    ];
    for request in requests {
        let response = route(request);
        let wire = encode(&response);
        assert_eq!(body_after_blank_line(&wire), &response.body[..]);
        assert_eq!(announced_length(&wire), response.body.len());
        let head = String::from_utf8(wire[..wire.len() - response.body.len()].to_vec()).unwrap();
        assert!(head.contains("\r\nConnection: close\r\n"));
        assert!(head.ends_with("\r\n\r\n"));
    }
    let bad = ResponseSpec::bad_request();
    let wire = encode(&bad);
    assert_eq!(announced_length(&wire), 11);
    assert_eq!(body_after_blank_line(&wire), b"Bad Request");
}
