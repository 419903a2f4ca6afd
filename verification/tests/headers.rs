use echo_server::decimal::{push_decimal, to_decimal};
use echo_server::headers::{valid_name, valid_value, HeaderError, Headers};
use echo_server::response::{frame_headers, ResponseSpec, Status};

fn fields(headers: &Headers) -> Vec<(Vec<u8>, Vec<u8>)> {
    let mut all = Vec::new();
    let mut index = 0;
    while let Some((name, value)) = headers.field(index) {
        all.push((name.clone(), value.clone()));
        index += 1;
    }
    assert_eq!(index, headers.len());
    all
}

fn pair(name: &str, value: &str) -> (Vec<u8>, Vec<u8>) {
    (name.as_bytes().to_vec(), value.as_bytes().to_vec())
}

#[test]
fn new_headers_are_empty() {
    let headers = Headers::new();
    assert_eq!(headers.len(), 0);
    assert!(headers.field(0).is_none());
    assert!(headers.get(b"Content-Length").is_none());
}

#[test]
fn fields_keep_the_order_of_insertion() {
    let mut headers = Headers::new();
    assert_eq!(headers.insert(b"Zeta", b"1"), Ok(()));
    assert_eq!(headers.insert(b"Alpha", b"2"), Ok(()));
    assert_eq!(headers.insert(b"Mid", b"3"), Ok(()));
    assert_eq!(fields(&headers), vec![pair("Zeta", "1"), pair("Alpha", "2"), pair("Mid", "3")]);
    assert!(headers.field(3).is_none());
    assert!(headers.field(usize::MAX).is_none());
}

#[test]
fn a_name_is_set_once_whatever_its_case() {
    let mut headers = Headers::new();
    headers.insert(b"Content-Type", b"text/plain").unwrap();
    headers.insert(b"X-Trace", b"a").unwrap();
    headers.insert(b"content-type", b"text/html").unwrap();
    assert_eq!(headers.len(), 2);
    assert_eq!(fields(&headers), vec![pair("content-type", "text/html"), pair("X-Trace", "a")]);
    headers.insert(b"X-TRACE", b"b").unwrap();
    assert_eq!(fields(&headers), vec![pair("content-type", "text/html"), pair("X-TRACE", "b")]);
}

#[test]
fn lookup_ignores_case() {
    let mut headers = Headers::new();
    headers.insert(b"Content-Length", b"11").unwrap();
    for name in ["Content-Length", "content-length", "CONTENT-LENGTH", "cOnTeNt-LeNgTh"] {
        assert_eq!(headers.get(name.as_bytes()).map(|v| v.as_slice()), Some(&b"11"[..]));
    }
    for name in ["Content-Lengt", "Content-Lengthh", "Content_Length", "", "Connection"] {
        assert!(headers.get(name.as_bytes()).is_none(), "name {:?}", name);
    }
}

#[test]
fn only_letters_are_folded() {
    let mut headers = Headers::new();
    headers.insert(b"a^b", b"1").unwrap();
    headers.insert(b"a~b", b"2").unwrap();
    headers.insert(b"A^B", b"3").unwrap();
    assert_eq!(fields(&headers), vec![pair("A^B", "3"), pair("a~b", "2")]);
    headers.insert(b"x`", b"4").unwrap();
    assert!(headers.get(b"x@").is_none());
}

#[test]
fn invalid_names_are_refused() {
    for name in ["", " ", "a b", "a:b", "a\r\nb", "caf\u{e9}", "a\tb", "(a)", "a,b", "a/b", "a=b", "a\"", "a\u{7f}", "a@b", "[a]", "{a}", "a\\b", "a;b", "a<b>", "a?"] {
        let mut headers = Headers::new();
        headers.insert(b"Keep", b"me").unwrap();
        assert_eq!(headers.insert(name.as_bytes(), b"v"), Err(HeaderError::InvalidName), "name {:?}", name);
        assert_eq!(fields(&headers), vec![pair("Keep", "me")]);
        assert!(!valid_name(name.as_bytes()));
    }
}

#[test]
fn every_token_byte_is_a_name_byte() {
    let token = "!#$%&'*+-.^_`|~0123456789ABCDEFGHIJKLMNOPQRSTUVWXYZabcdefghijklmnopqrstuvwxyz";
    assert!(valid_name(token.as_bytes()));
    let mut count = 0;
    for b in 0..=255u8 {
        if valid_name(&[b]) {
            assert!(token.as_bytes().contains(&b), "byte {:#x}", b);
            count += 1;
        }
    }
    assert_eq!(count, token.len());
}

#[test]
fn invalid_values_are_refused() {
    for value in ["a\r\nInjected: yes", "\n", "\r", "a\u{0}b", "a\u{7f}", "\u{1b}[0m"] {
        let mut headers = Headers::new();
        headers.insert(b"Keep", b"me").unwrap();
        assert_eq!(headers.insert(b"Keep", value.as_bytes()), Err(HeaderError::InvalidValue), "value {:?}", value);
        assert_eq!(fields(&headers), vec![pair("Keep", "me")]);
        assert!(!valid_value(value.as_bytes()));
    }
}

#[test]
fn values_may_hold_tabs_spaces_and_high_bytes() {
    let mut headers = Headers::new();
    assert_eq!(headers.insert(b"Empty", b""), Ok(()));
    assert_eq!(headers.insert(b"Spaced", b" a \t b "), Ok(()));
    assert_eq!(headers.insert(b"High", &[0x80, 0xff, 0xe9]), Ok(()));
    assert_eq!(headers.get(b"empty").map(|v| v.as_slice()), Some(&b""[..]));
    assert_eq!(headers.get(b"high").map(|v| v.as_slice()), Some(&[0x80u8, 0xff, 0xe9][..]));
    for b in 0..=255u8 {
        assert_eq!(valid_value(&[b]), b == 0x09 || (b >= 0x20 && b != 0x7f), "byte {:#x}", b);
    }
}

#[test]
fn the_name_is_judged_before_the_value() {
    let mut headers = Headers::new();
    assert_eq!(headers.insert(b"bad name", b"bad\nvalue"), Err(HeaderError::InvalidName));
    assert_eq!(headers.insert(b"good", b"bad\nvalue"), Err(HeaderError::InvalidValue));
    assert_eq!(headers.len(), 0);
}

#[test]
fn a_copy_holds_the_same_fields() {
    let mut headers = Headers::new();
    headers.insert(b"A", b"1").unwrap();
    headers.insert(b"B", b"2").unwrap();
    let mut copy = headers.copy();
    assert_eq!(fields(&copy), fields(&headers));
    copy.insert(b"C", b"3").unwrap();
    assert_eq!(headers.len(), 2);
    assert_eq!(copy.len(), 3);
}

#[test]
fn decimal_notation_is_exact() {
    assert_eq!(to_decimal(0), b"0");
    assert_eq!(to_decimal(9), b"9");
    assert_eq!(to_decimal(10), b"10");
    assert_eq!(to_decimal(11), b"11");
    assert_eq!(to_decimal(99), b"99");
    assert_eq!(to_decimal(100), b"100");
    assert_eq!(to_decimal(404), b"404");
    assert_eq!(to_decimal(1_000_000), b"1000000");
    assert_eq!(to_decimal(1_234_567_890), b"1234567890");
    assert_eq!(to_decimal(usize::MAX), usize::MAX.to_string().as_bytes());
}

#[test]
fn decimal_notation_is_appended() {
    let mut out = b"n=".to_vec();
    push_decimal(&mut out, 42);
    push_decimal(&mut out, 0);
    assert_eq!(out, b"n=420");
}

#[test]
fn status_codes_and_reasons() {
    assert_eq!(Status::Success.code(), 200);
    assert_eq!(Status::BadRequest.code(), 400);
    assert_eq!(Status::NotFound.code(), 404);
    assert_eq!(Status::Success.reason(), "OK");
    assert_eq!(Status::BadRequest.reason(), "Bad Request");
    assert_eq!(Status::NotFound.reason(), "Not Found");
}

#[test]
fn a_new_response_is_framed() {
    let response = ResponseSpec::new(Status::Success, b"hello world".to_vec());
    assert_eq!(response.status, Status::Success);
    assert_eq!(fields(&response.headers), vec![pair("Content-Length", "11"), pair("Connection", "close")]);
    assert_eq!(response.body, b"hello world");
    let empty = ResponseSpec::new(Status::NotFound, Vec::new());
    assert_eq!(fields(&empty.headers), vec![pair("Content-Length", "0"), pair("Connection", "close")]);
}

#[test]
fn the_fixed_responses() {
    let not_found = ResponseSpec::not_found();
    assert_eq!(not_found.status.code(), 404);
    assert_eq!(not_found.body, b"Not Found");
    assert_eq!(fields(&not_found.headers), vec![pair("Content-Length", "9"), pair("Connection", "close")]);
    let bad_request = ResponseSpec::bad_request();
    assert_eq!(bad_request.status.code(), 400);
    assert_eq!(bad_request.body, b"Bad Request");
    assert_eq!(fields(&bad_request.headers), vec![pair("Content-Length", "11"), pair("Connection", "close")]);
}

#[test]
fn framing_overwrites_in_place_and_appends_what_is_missing() {
    let mut headers = Headers::new();
    headers.insert(b"connection", b"keep-alive").unwrap();
    headers.insert(b"X-First", b"1").unwrap();
    headers.insert(b"CONTENT-LENGTH", b"999").unwrap();
    let mut response = ResponseSpec { status: Status::Success, headers, body: b"abc".to_vec() };
    response.frame();
    assert_eq!(
        fields(&response.headers),
        vec![pair("Connection", "close"), pair("X-First", "1"), pair("Content-Length", "3")]
    );
    assert_eq!(response.body, b"abc");
    assert_eq!(response.status, Status::Success);

    let mut bare = Headers::new();
    bare.insert(b"X-First", b"1").unwrap();
    frame_headers(&mut bare, 1234);
    assert_eq!(
        fields(&bare),
        vec![pair("X-First", "1"), pair("Content-Length", "1234"), pair("Connection", "close")]
    );
    frame_headers(&mut bare, 5);
    assert_eq!(
        fields(&bare),
        vec![pair("X-First", "1"), pair("Content-Length", "5"), pair("Connection", "close")]
    );
}
