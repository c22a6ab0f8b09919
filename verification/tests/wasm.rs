use minireq::error::Error;
use minireq::request::ParsedRequest;
use minireq::wasm::{
    build_full_url, build_headers_string, get_reason_phrase, get_response_headers, nul_terminated,
    send_request,
};

#[test]
fn host_is_given_the_url_without_fragment() {
    let request =
        ParsedRequest::new(minireq::get("https://user:pw@example.com:8443/a?b=c#d")).unwrap();
    assert_eq!(build_full_url(&request), b"https://example.com:8443/a?b=c".to_vec());
    let request = ParsedRequest::new(minireq::get("http://example.com")).unwrap();
    assert_eq!(build_full_url(&request), b"http://example.com/".to_vec());
}

#[test]
fn host_is_given_the_headers_as_lines() {
    let request = ParsedRequest::new(
        minireq::get("http://example.com/").with_header("A", "1").with_header("B", "x: y"),
    )
    .unwrap();
    assert_eq!(build_headers_string(&request), b"A:1\nB:x: y\0".to_vec());
    let request = ParsedRequest::new(minireq::get("http://example.com/")).unwrap();
    assert_eq!(build_headers_string(&request), b"\0".to_vec());
    assert_eq!(nul_terminated(b"GET"), b"GET\0".to_vec());
}

#[test]
fn status_codes_have_their_names() {
    for (code, name) in [
        (200, "OK"),
        (201, "Created"),
        (202, "Accepted"),
        (204, "No Content"),
        (301, "Moved Permanently"),
        (302, "Found"),
        (303, "See Other"),
        (304, "Not Modified"),
        (307, "Temporary Redirect"),
        (308, "Permanent Redirect"),
        (400, "Bad Request"),
        (401, "Unauthorized"),
        (403, "Forbidden"),
        (404, "Not Found"),
        (405, "Method Not Allowed"),
        (429, "Too Many Requests"),
        (500, "Internal Server Error"),
        (502, "Bad Gateway"),
        (503, "Service Unavailable"),
        (504, "Gateway Timeout"),
        (418, "Unknown"),
        (0, "Unknown"),
        (-1, "Unknown"),
    ] {
        assert_eq!(get_reason_phrase(code), name.as_bytes().to_vec());
    }
}

#[test]
fn headers_of_the_host_are_read_line_by_line() {
    let text = b"Content-Type: text/html\r\n X-Two :  b:c \nnocolon\n\nLast:z".to_vec();
    let headers = get_response_headers(text.len() as i32, text).unwrap();
    assert_eq!(headers.len(), 3);
    assert_eq!(headers.get(b"content-type").unwrap(), &b"text/html".to_vec());
    assert_eq!(headers.get(b"x-two").unwrap(), &b"b:c".to_vec());
    assert_eq!(headers.get(b"last").unwrap(), &b"z".to_vec());
}

#[test]
fn headers_of_the_host_end_where_it_says() {
    let headers = get_response_headers(3, b"a:bXX\nc:d".to_vec()).unwrap();
    assert_eq!(headers.len(), 1);
    assert_eq!(headers.get(b"a").unwrap(), &b"b".to_vec());
    assert_eq!(get_response_headers(0, b"a:b".to_vec()).unwrap().len(), 0);
    assert_eq!(get_response_headers(100, b"a:b".to_vec()).unwrap().len(), 1);
}

#[test]
fn failure_of_the_host_is_an_error() {
    assert!(matches!(
        get_response_headers(-1, b"a:b".to_vec()),
        Err(Error::Other("Failed to get response headers"))
    ));
    assert!(matches!(
        get_response_headers(2, vec![0xff, 0xfe]),
        Err(Error::Other("Invalid UTF-8 in response headers"))
    ));
    assert!(matches!(
        send_request(b"http://x/".to_vec(), -7, vec![0; 8], 0, 0, Vec::new()),
        Err(Error::Other("WASM HTTP request failed"))
    ));
    assert!(matches!(
        send_request(b"http://x/".to_vec(), 0, vec![0; 8], 200, -1, Vec::new()),
        Err(Error::Other("Failed to get response headers"))
    ));
}

#[test]
fn response_is_made_of_what_the_host_handed_back() {
    let mut body = b"hello".to_vec();
    body.resize(32, 0);
    let response = send_request(
        b"http://example.com/".to_vec(),
        5,
        body,
        404,
        8,
        b"X-A: yes and more".to_vec(),
    )
    .unwrap();
    assert_eq!(response.status_code, 404);
    assert_eq!(response.reason_phrase, b"Not Found".to_vec());
    assert_eq!(response.url, b"http://example.com/".to_vec());
    assert_eq!(response.as_bytes(), b"hello");
    assert_eq!(response.headers.get(b"x-a").unwrap(), &b"yes".to_vec());
}
