use minireq::connection::{
    deadline_at, effective_timeout, handle_redirects, plan_connection, time_left, NextHop,
};
use minireq::error::Error;
use minireq::request::{Method, ParsedRequest, Request};
use minireq::response::{Response, ResponseLazy};
use minireq::stream::{HttpStream, StreamEnd};

const ORIGIN: &str = "http://localhost:35562";

fn url(path: &str) -> String {
    format!("{}{}", ORIGIN, path)
}

struct Seen {
    method: String,
    path: String,
    headers: Vec<(String, String)>,
    body: Vec<u8>,
}

fn read_request(wire: &[u8]) -> Seen {
    let split = wire.windows(4).position(|w| w == b"\r\n\r\n").unwrap();
    let head = String::from_utf8(wire[..split].to_vec()).unwrap();
    let mut lines = head.split("\r\n");
    let mut first = lines.next().unwrap().split(' ');
    let method = first.next().unwrap().to_string();
    let path = first.next().unwrap().to_string();
    assert_eq!(first.next().unwrap(), "HTTP/1.1");
    let mut headers = Vec::new();
    for line in lines {
        let colon = line.find(": ").unwrap();
        headers.push((line[..colon].to_lowercase(), line[colon + 2..].to_string()));
    }
    let rest = &wire[split + 4..];
    let length = headers
        .iter()
        .find(|(k, _)| k == "content-length")
        .map(|(_, v)| v.parse::<usize>().unwrap())
        .unwrap_or(0);
    assert_eq!(rest.len(), length);
    Seen { method, path, headers, body: rest.to_vec() }
}

fn answer(status: &str, headers: &[(&str, &str)], body: &[u8]) -> Vec<u8> {
    let mut out = format!("HTTP/1.1 {}\r\n", status).into_bytes();
    for (k, v) in headers {
        out.extend_from_slice(format!("{}: {}\r\n", k, v).as_bytes());
    }
    out.extend_from_slice(format!("Content-Length: {}\r\n\r\n", body.len()).as_bytes());
    out.extend_from_slice(body);
    out
}

fn tagged(tag: &str, seen: &Seen) -> Vec<u8> {
    let mut body = format!("{}: ", tag).into_bytes();
    body.extend_from_slice(&seen.body);
    answer("200 OK", &[], &body)
}

fn serve(wire: &[u8]) -> Vec<u8> {
    let seen = read_request(wire);
    assert!(seen.headers.iter().any(|(k, v)| k == "host" && v == "localhost:35562"));
    assert!(seen.headers.iter().any(|(k, v)| k == "connection" && v == "close"));
    match (seen.method.as_str(), seen.path.as_str()) {
        ("GET", "/header_pong") => {
            let ping = seen.headers.iter().find(|(k, _)| k == "ping").unwrap().1.clone();
            answer("200 OK", &[], ping.as_bytes())
        }
        ("GET", "/a") => tagged("j", &seen),
        ("GET", "/slow_a") => tagged("j", &seen),
        ("HEAD", "/b") => b"HTTP/1.1 418 I'm a teapot\r\nContent-Length: 5\r\n\r\n".to_vec(),
        ("POST", "/c") => tagged("l", &seen),
        ("PUT", "/d") => tagged("m", &seen),
        ("DELETE", "/e") => tagged("n", &seen),
        ("TRACE", "/f") => tagged("o", &seen),
        ("OPTIONS", "/g") => tagged("p", &seen),
        ("CONNECT", "/h") => tagged("q", &seen),
        ("PATCH", "/i") => tagged("r", &seen),
        ("POST", "/redirect") => answer("303 See Other", &[("Location", "/a")], b""),
        ("GET", "/redirect") => {
            answer("301 Moved Permanently", &[("Location", "http://localhost:35562/a")], b"")
        }
        ("GET", "/redirect-baz") => {
            answer("301 Moved Permanently", &[("Location", "/a#baz")], b"")
        }
        ("GET", "/infiniteredirect") => answer(
            "301 Moved Permanently",
            &[("Location", "http://localhost:35562/redirectpong")],
            b"",
        ),
        ("GET", "/redirectpong") => {
            answer("301 Moved Permanently", &[("Location", "/infiniteredirect")], b"")
        }
        ("GET", "/relativeredirect") => {
            answer("307 Temporary Redirect", &[("Location", "/a")], b"")
        }
        ("GET", "/dir/relative") => answer("302 Found", &[("Location", "../a")], b""),
        ("GET", "/dir/../a") => tagged("j", &seen),
        ("GET", "/long_header") => {
            let long = "a".repeat(1000);
            answer("200 OK", &[("Long-Header", long.as_str())], b"")
        }
        ("GET", "/long_status_line") => {
            b"HTTP/1.1 203 Non-Authoritative Information\r\n\r\n".to_vec()
        }
        ("GET", "/massive_content_length") => {
            let mut out =
                b"HTTP/1.1 200 OK\r\nContent-Length: 18446744073709551615\r\n\r\n".to_vec();
            out.extend_from_slice(&[b'.'; 100]);
            out
        }
        _ => answer("404 Not Found", &[], b"Not Found"),
    }
}

/// The milliseconds that the server takes to answer.
fn delay(path: &[u8]) -> u64 {
    if path == b"/slow_a" {
        2000
    } else {
        1
    }
}

fn send(request: Request) -> Result<Response, Error> {
    let deadline = deadline_at(0, effective_timeout(request.timeout, None));
    let mut now = 0u64;
    let mut parsed = ParsedRequest::new(request)?;
    loop {
        time_left(deadline, now)?;
        now += delay(&parsed.url.path_and_query);
        time_left(deadline, now)?;
        let plan = plan_connection(&parsed, false)?;
        assert_eq!(plan.host, b"localhost".to_vec());
        assert_eq!(plan.port, 35562);
        assert!(plan.tunnel.is_none());
        let is_head = parsed.config.method.is_head();
        let received = serve(&parsed.as_bytes());
        let stream = HttpStream::new(received, StreamEnd::Eof);
        let lazy = ResponseLazy::from_stream(
            stream,
            parsed.config.max_headers_size,
            parsed.config.max_status_line_len,
        )?;
        match handle_redirects(parsed, lazy)? {
            NextHop::Redirect(next) => parsed = next,
            NextHop::Destination(response) => return Response::create(response, is_head),
        }
    }
}

fn get_body(result: Result<Response, Error>) -> String {
    result.unwrap().as_str().unwrap().to_string()
}

fn get_status_code(result: Result<Response, Error>) -> i32 {
    result.unwrap().status_code
}

#[test]
fn test_timeout_too_low() {
    let result = send(
        minireq::request::get(&url("/slow_a")).with_body(b"Q".to_vec()).with_timeout(1),
    );
    assert!(result.is_err());
}

#[test]
fn timeout_is_a_failure_of_the_transport() {
    let result = send(
        minireq::request::get(&url("/slow_a")).with_body(b"Q".to_vec()).with_timeout(1),
    );
    assert!(matches!(result.err(), Some(Error::IoError(minireq::IoErrorKind::TimedOut))));
}

#[test]
fn test_timeout_high_enough() {
    let body = get_body(send(
        minireq::request::get(&url("/slow_a")).with_body(b"Q".to_vec()).with_timeout(3),
    ));
    assert_eq!(body, "j: Q");
}

#[test]
fn test_headers() {
    let body = get_body(send(
        minireq::request::get(&url("/header_pong")).with_header("Ping", "Qwerty"),
    ));
    assert_eq!("Qwerty", body);
}

#[test]
fn test_custom_method() {
    let body = get_body(send(
        Request::new(Method::Custom(b"GET".to_vec()), &url("/a")).with_body(b"Q".to_vec()),
    ));
    assert_eq!("j: Q", body);
}

#[test]
fn test_get() {
    let body = get_body(send(minireq::request::get(&url("/a")).with_body(b"Q".to_vec())));
    assert_eq!(body, "j: Q");
}

#[test]
fn test_get_status() {
    let response = send(minireq::request::get(&url("/a")).with_body(b"Q".to_vec())).unwrap();
    assert_eq!(response.status_code, 200);
    assert_eq!(response.reason_phrase, b"OK".to_vec());
    assert_eq!(response.url, url("/a").into_bytes());
}

#[test]
fn test_redirect_get() {
    let body = get_body(send(minireq::request::get(&url("/redirect")).with_body(b"Q".to_vec())));
    assert_eq!(body, "j: Q");
}

#[test]
fn redirect_get_ends_at_target() {
    let response =
        send(minireq::request::get(&url("/redirect")).with_body(b"Q".to_vec())).unwrap();
    assert_eq!(response.url, url("/a").into_bytes());
    assert_eq!(response.as_bytes(), b"j: Q");
}

#[test]
fn test_redirect_post() {
    // POSTing to /redirect returns a 303, after which a GET request goes to the
    // given location, without the body. The server answers only GET requests on
    // the /a path.
    let body = get_body(send(minireq::request::post(&url("/redirect")).with_body(b"Q".to_vec())));
    assert_eq!(body, "j: ");
}

#[test]
fn see_other_turns_post_into_get_without_body() {
    let body = get_body(send(
        minireq::request::post(&url("/redirect"))
            .with_header("Content-Type", "text/plain")
            .with_body(b"Q".to_vec()),
    ));
    assert_eq!(body, "j: ");
}

#[test]
fn test_redirect_with_fragment() {
    let first_url = url("/redirect#foo");
    let res = send(minireq::request::get(&first_url)).unwrap();
    assert_eq!(String::from_utf8(res.url).unwrap().as_str(), url("/a#foo"));
}

#[test]
fn test_redirect_with_overridden_fragment() {
    let first_url = url("/redirect-baz#foo");
    let res = send(minireq::request::get(&first_url)).unwrap();
    assert_eq!(String::from_utf8(res.url).unwrap().as_str(), url("/a#baz"));
}

#[test]
fn test_infinite_redirect() {
    let body = send(minireq::request::get(&url("/infiniteredirect")));
    assert!(body.is_err());
}

#[test]
fn infinite_redirect_is_a_loop() {
    let result = send(minireq::request::get(&url("/infiniteredirect")));
    assert!(matches!(result.err(), Some(Error::InfiniteRedirectionLoop)));
}

#[test]
fn redirects_beyond_the_limit_are_too_many() {
    let result = send(minireq::request::get(&url("/infiniteredirect")).with_max_redirects(1));
    assert!(matches!(result.err(), Some(Error::TooManyRedirections)));
}

#[test]
fn redirects_are_not_followed_when_none_are_allowed() {
    let response = send(minireq::request::get(&url("/redirect")).with_max_redirects(0)).unwrap();
    assert_eq!(response.status_code, 301);
    assert_eq!(response.url, url("/redirect").into_bytes());
}

#[test]
fn test_relative_redirect_get() {
    let body =
        get_body(send(minireq::request::get(&url("/relativeredirect")).with_body(b"Q".to_vec())));
    assert_eq!(body, "j: Q");
}

#[test]
fn relative_target_is_read_against_the_directory() {
    let response = send(minireq::request::get(&url("/dir/relative"))).unwrap();
    assert_eq!(response.url, url("/dir/../a").into_bytes());
}

#[test]
fn test_head() {
    assert_eq!(get_status_code(send(minireq::request::head(&url("/b")))), 418);
}

#[test]
fn head_reads_no_body() {
    let response = send(minireq::request::head(&url("/b"))).unwrap();
    assert_eq!(response.as_bytes(), b"");
}

#[test]
fn test_post() {
    let body = get_body(send(minireq::request::post(&url("/c")).with_body(b"E".to_vec())));
    assert_eq!(body, "l: E");
}

#[test]
fn test_put() {
    let body = get_body(send(minireq::request::put(&url("/d")).with_body(b"R".to_vec())));
    assert_eq!(body, "m: R");
}

#[test]
fn test_delete() {
    assert_eq!(get_body(send(minireq::request::delete(&url("/e")))), "n: ");
}

#[test]
fn test_trace() {
    assert_eq!(get_body(send(minireq::request::trace(&url("/f")))), "o: ");
}

#[test]
fn test_options() {
    let body = get_body(send(minireq::request::options(&url("/g")).with_body(b"U".to_vec())));
    assert_eq!(body, "p: U");
}

#[test]
fn test_connect() {
    let body = get_body(send(minireq::request::connect(&url("/h")).with_body(b"I".to_vec())));
    assert_eq!(body, "q: I");
}

#[test]
fn test_patch() {
    let body = get_body(send(minireq::request::patch(&url("/i")).with_body(b"O".to_vec())));
    assert_eq!(body, "r: O");
}

#[test]
fn test_header_cap() {
    let body = send(minireq::request::get(&url("/long_header")).with_max_headers_size(999));
    assert!(body.is_err());
    assert!(matches!(body.err(), Some(Error::HeadersOverflow)));

    let body = send(minireq::request::get(&url("/long_header")).with_max_headers_size(1500));
    assert!(body.is_ok());
}

#[test]
fn test_status_line_cap() {
    let expected_status_line = "HTTP/1.1 203 Non-Authoritative Information";

    let body = send(
        minireq::request::get(&url("/long_status_line"))
            .with_max_status_line_length(expected_status_line.len() + 1),
    );
    assert!(body.is_err());
    assert!(matches!(body.err(), Some(Error::StatusLineOverflow)));

    let body = send(
        minireq::request::get(&url("/long_status_line"))
            .with_max_status_line_length(expected_status_line.len() + 2),
    );
    assert!(body.is_ok());
}

#[test]
fn test_massive_content_length() {
    let response = send(minireq::request::get(&url("/massive_content_length"))).unwrap();
    assert_eq!(response.as_bytes().len(), 100);
}

#[test]
fn https_needs_a_tls_layer() {
    let parsed = ParsedRequest::new(minireq::request::get("https://example.com")).unwrap();
    assert!(parsed.https_required());
    assert!(matches!(plan_connection(&parsed, false), Err(Error::HttpsFeatureNotEnabled)));
    let plan = plan_connection(&parsed, true).unwrap();
    assert_eq!(plan.host, b"example.com".to_vec());
    assert_eq!(plan.port, 443);
    assert!(plan.tls);
}
