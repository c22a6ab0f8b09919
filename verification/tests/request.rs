use minireq::connection::{
    deadline_at, effective_timeout, handle_redirects, plan_connection, time_left, NextHop,
};
use minireq::error::{Error, IoErrorKind};
use minireq::headers::Headers;
use minireq::request::{Method, ParsedRequest, Request};
use minireq::response::ResponseLazy;
use minireq::stream::{HttpStream, StreamEnd};
use minireq::Proxy;

fn wire(request: Request) -> String {
    String::from_utf8(ParsedRequest::new(request).unwrap().as_bytes()).unwrap()
}

fn response(text: &str) -> ResponseLazy {
    ResponseLazy::from_stream(HttpStream::new(text.as_bytes().to_vec(), StreamEnd::Eof), None, None)
        .unwrap()
}

#[test]
fn new_request_has_the_defaults() {
    let request = Request::new(Method::Get, "http://example.com/");
    assert_eq!(request.url, b"http://example.com/".to_vec());
    assert_eq!(request.headers.len(), 0);
    assert!(request.body.is_none());
    assert!(request.timeout.is_none());
    assert!(request.max_headers_size.is_none());
    assert!(request.max_status_line_len.is_none());
    assert_eq!(request.max_redirects, 100);
    assert!(request.proxy.is_none());
}

#[test]
fn builder_sets_what_it_is_told() {
    let request = minireq::get("http://example.com/")
        .with_timeout(7)
        .with_max_headers_size(1000)
        .with_max_status_line_length(100)
        .with_max_redirects(3)
        .with_proxy(Proxy::new(b"proxy:3128").unwrap())
        .with_body(b"body".to_vec());
    assert_eq!(request.timeout, Some(7));
    assert_eq!(request.max_headers_size, Some(1000));
    assert_eq!(request.max_status_line_len, Some(100));
    assert_eq!(request.max_redirects, 3);
    assert_eq!(request.proxy.unwrap().port, 3128);
    assert_eq!(request.body, Some(b"body".to_vec()));
}

#[test]
fn get_without_body_is_written_with_host_and_close() {
    assert_eq!(
        wire(minireq::get("http://example.com/path?q=1#frag")),
        "GET /path?q=1 HTTP/1.1\r\nHost: example.com\r\nConnection: close\r\n\r\n"
    );
}

#[test]
fn body_is_written_after_its_length() {
    assert_eq!(
        wire(minireq::post("http://example.com:8080/c").with_body(b"E".to_vec())),
        "POST /c HTTP/1.1\r\nHost: example.com:8080\r\nConnection: close\r\nContent-Length: 1\r\n\r\nE"
    );
    assert_eq!(
        wire(minireq::get("http://example.com/a").with_body(b"Q".to_vec())),
        "GET /a HTTP/1.1\r\nHost: example.com\r\nConnection: close\r\nContent-Length: 1\r\n\r\nQ"
    );
}

#[test]
fn length_is_announced_but_for_head_and_bare_get() {
    assert_eq!(
        wire(minireq::post("http://example.com/")),
        "POST / HTTP/1.1\r\nHost: example.com\r\nConnection: close\r\nContent-Length: 0\r\n\r\n"
    );
    assert_eq!(
        wire(minireq::head("http://example.com/")),
        "HEAD / HTTP/1.1\r\nHost: example.com\r\nConnection: close\r\n\r\n"
    );
}

#[test]
fn headers_are_written_in_the_order_they_were_set() {
    assert_eq!(
        wire(
            minireq::get("http://example.com/")
                .with_header("Zebra", "1")
                .with_header("Accept", "text/html")
                .with_header("zebra", "2")
        ),
        "GET / HTTP/1.1\r\nHost: example.com\r\nzebra: 2\r\nAccept: text/html\r\nConnection: close\r\n\r\n"
    );
}

#[test]
fn headers_that_are_set_are_not_supplied() {
    assert_eq!(
        wire(
            minireq::put("https://example.com:443/d")
                .with_header("host", "other")
                .with_header("CONNECTION", "keep-alive")
                .with_header("Content-length", "5")
                .with_body(b"R".to_vec())
        ),
        "PUT /d HTTP/1.1\r\nhost: other\r\nCONNECTION: keep-alive\r\nContent-length: 5\r\n\r\nR"
    );
    assert_eq!(
        wire(minireq::post("http://example.com/").with_header("Transfer-Encoding", "chunked")),
        "POST / HTTP/1.1\r\nHost: example.com\r\nTransfer-Encoding: chunked\r\nConnection: close\r\n\r\n"
    );
}

#[test]
fn port_of_the_scheme_is_not_written() {
    assert!(wire(minireq::get("http://example.com:80/")).contains("Host: example.com\r\n"));
    assert!(wire(minireq::get("http://example.com:443/")).contains("Host: example.com:443\r\n"));
    assert!(wire(minireq::get("https://example.com:443/")).contains("Host: example.com\r\n"));
}

#[test]
fn custom_method_is_written_as_it_stands() {
    assert!(wire(Request::new(Method::Custom(b"PURGE".to_vec()), "http://example.com/x"))
        .starts_with("PURGE /x HTTP/1.1\r\n"));
    for (request, name) in [
        (minireq::get("http://x/"), "GET"),
        (minireq::head("http://x/"), "HEAD"),
        (minireq::post("http://x/"), "POST"),
        (minireq::put("http://x/"), "PUT"),
        (minireq::delete("http://x/"), "DELETE"),
        (minireq::connect("http://x/"), "CONNECT"),
        (minireq::options("http://x/"), "OPTIONS"),
        (minireq::trace("http://x/"), "TRACE"),
        (minireq::patch("http://x/"), "PATCH"),
    ] {
        assert!(wire(request).starts_with(&format!("{} / HTTP/1.1\r\n", name)));
    }
}

#[test]
fn params_are_added_to_the_query() {
    assert!(wire(minireq::get("http://example.com/p").with_param("a", "1").with_param("b", "2"))
        .starts_with("GET /p?a=1&b=2 HTTP/1.1\r\n"));
    assert!(wire(minireq::get("http://example.com/p?x=0#f").with_param("a", "1"))
        .starts_with("GET /p?x=0&a=1 HTTP/1.1\r\n"));
    assert!(wire(minireq::get("http://example.com").with_param("a", "1"))
        .starts_with("GET /?a=1 HTTP/1.1\r\n"));
}

#[test]
fn url_that_is_none_fails_the_request() {
    assert!(matches!(ParsedRequest::new(minireq::get("example.com")), Err(Error::InvalidUrl)));
}

#[test]
fn redirect_turns_the_request_and_remembers_the_way() {
    let mut request = ParsedRequest::new(minireq::get("http://example.com/a#f")).unwrap();
    request.redirect_to(b"/b").unwrap();
    assert_eq!(request.url.to_bytes(), b"http://example.com/b#f".to_vec());
    assert_eq!(request.redirects.len(), 1);
    assert_eq!(request.redirects[0].to_bytes(), b"http://example.com/a#f".to_vec());
    request.redirect_to(b"c#g").unwrap();
    assert_eq!(request.url.to_bytes(), b"http://example.com/c#g".to_vec());
    assert!(matches!(request.redirect_to(b"/a#other"), Err(Error::InfiniteRedirectionLoop)));
    assert!(matches!(request.redirect_to(b"/c"), Err(Error::InfiniteRedirectionLoop)));
    assert!(matches!(request.redirect_to(b"ftp://x/"), Err(Error::InvalidUrl)));
    assert_eq!(request.url.to_bytes(), b"http://example.com/c#g".to_vec());
    assert_eq!(request.redirects.len(), 2);
}

#[test]
fn redirect_beyond_the_limit_is_refused() {
    let mut request =
        ParsedRequest::new(minireq::get("http://example.com/0").with_max_redirects(2)).unwrap();
    request.redirect_to(b"/1").unwrap();
    request.redirect_to(b"/2").unwrap();
    assert!(matches!(request.redirect_to(b"/3"), Err(Error::TooManyRedirections)));
    assert_eq!(request.url.to_bytes(), b"http://example.com/2".to_vec());
}

#[test]
fn redirect_without_location_is_missing_it() {
    let request = ParsedRequest::new(minireq::get("http://example.com/")).unwrap();
    let result = handle_redirects(request, response("HTTP/1.1 302 Found\r\n\r\n"));
    assert!(matches!(result, Err(Error::RedirectLocationMissing)));
}

#[test]
fn each_redirect_status_is_followed() {
    for status in [301, 302, 303, 307, 308] {
        let request =
            ParsedRequest::new(minireq::post("http://example.com/").with_body(b"B".to_vec()))
                .unwrap();
        let text = format!("HTTP/1.1 {} R\r\nLocation: /next\r\n\r\n", status);
        match handle_redirects(request, response(&text)).unwrap() {
            NextHop::Redirect(next) => {
                assert_eq!(next.url.path_and_query, b"/next".to_vec());
                if status == 303 {
                    assert!(next.config.method.is_get());
                    assert!(next.config.body.is_none());
                } else {
                    assert!(matches!(next.config.method, Method::Post));
                    assert_eq!(next.config.body, Some(b"B".to_vec()));
                }
            }
            NextHop::Destination(_) => panic!("{} was not followed", status),
        }
    }
}

#[test]
fn see_other_drops_what_described_the_body() {
    let request = ParsedRequest::new(
        minireq::post("http://example.com/")
            .with_header("Content-Type", "text/plain")
            .with_header("X-Keep", "1")
            .with_header("content-length", "1")
            .with_body(b"B".to_vec()),
    )
    .unwrap();
    match handle_redirects(request, response("HTTP/1.1 303 See Other\r\nLocation: /n\r\n\r\n"))
        .unwrap()
    {
        NextHop::Redirect(next) => {
            assert_eq!(next.config.headers.len(), 1);
            assert_eq!(next.config.headers.get(b"x-keep").unwrap(), &b"1".to_vec());
            assert_eq!(
                String::from_utf8(next.as_bytes()).unwrap(),
                "GET /n HTTP/1.1\r\nHost: example.com\r\nX-Keep: 1\r\nConnection: close\r\n\r\n"
            );
        }
        NextHop::Destination(_) => panic!("303 was not followed"),
    }
}

#[test]
fn other_statuses_are_the_destination() {
    for status in [200, 204, 300, 304, 305, 404, 500] {
        let request = ParsedRequest::new(minireq::get("http://example.com/x?y#z")).unwrap();
        let text = format!("HTTP/1.1 {} S\r\nLocation: /next\r\n\r\n", status);
        match handle_redirects(request, response(&text)).unwrap() {
            NextHop::Destination(response) => {
                assert_eq!(response.status_code, status);
                assert_eq!(response.url, b"http://example.com/x?y#z".to_vec());
            }
            NextHop::Redirect(_) => panic!("{} was followed", status),
        }
    }
}

#[test]
fn timeout_of_the_request_goes_before_the_environment() {
    assert_eq!(effective_timeout(Some(3), Some(b"8")), Some(3));
    assert_eq!(effective_timeout(None, Some(b"8")), Some(8));
    assert_eq!(effective_timeout(None, Some(b"eight")), None);
    assert_eq!(effective_timeout(None, Some(b"")), None);
    assert_eq!(effective_timeout(None, Some(b"-1")), None);
    assert_eq!(effective_timeout(None, None), None);
    assert_eq!(effective_timeout(Some(0), None), Some(0));
}

#[test]
fn deadline_is_the_start_plus_the_timeout() {
    assert_eq!(deadline_at(5_000, Some(1)), Some(6_000));
    assert_eq!(deadline_at(5_000, Some(0)), Some(5_000));
    assert_eq!(deadline_at(5_000, None), None);
    assert_eq!(deadline_at(5_000, Some(u64::MAX)), Some(u64::MAX));
    assert_eq!(deadline_at(u64::MAX - 999, Some(1)), Some(u64::MAX));
    assert_eq!(deadline_at(u64::MAX - 1000, Some(1)), Some(u64::MAX));
}

#[test]
fn time_runs_out_at_the_deadline() {
    assert!(matches!(time_left(None, 123), Ok(None)));
    assert!(matches!(time_left(Some(6_000), 5_000), Ok(Some(1_000))));
    assert!(matches!(time_left(Some(6_000), 5_999), Ok(Some(1))));
    assert!(matches!(time_left(Some(6_000), 6_000), Err(Error::IoError(IoErrorKind::TimedOut))));
    assert!(matches!(time_left(Some(6_000), 9_000), Err(Error::IoError(IoErrorKind::TimedOut))));
}

#[test]
fn connection_goes_to_the_proxy_and_opens_a_tunnel() {
    let request = ParsedRequest::new(
        minireq::get("http://example.com/x")
            .with_proxy(Proxy::new(b"user:pass@proxy.local:3128").unwrap()),
    )
    .unwrap();
    let plan = plan_connection(&request, false).unwrap();
    assert_eq!(plan.host, b"proxy.local".to_vec());
    assert_eq!(plan.port, 3128);
    assert!(!plan.tls);
    assert_eq!(
        String::from_utf8(plan.tunnel.unwrap()).unwrap(),
        "CONNECT example.com:80 HTTP/1.1\r\nHost: example.com:80\r\nProxy-Authorization: Basic dXNlcjpwYXNz\r\n\r\n"
    );
}

#[test]
fn header_mapping_keeps_one_value_per_name() {
    let mut headers = Headers::new();
    headers.insert(b"Accept".to_vec(), b"a".to_vec());
    headers.insert(b"Host".to_vec(), b"h".to_vec());
    headers.insert(b"ACCEPT".to_vec(), b"b".to_vec());
    assert_eq!(headers.len(), 2);
    assert_eq!(headers.name_at(0), &b"ACCEPT".to_vec());
    assert_eq!(headers.value_at(0), &b"b".to_vec());
    assert_eq!(headers.find(b"host"), Some(1));
    assert_eq!(headers.find(b"none"), None);
    assert!(headers.contains(b"accept"));
    headers.remove(b"aCCept");
    assert_eq!(headers.len(), 1);
    assert!(!headers.contains(b"accept"));
    headers.remove(b"accept");
    assert_eq!(headers.len(), 1);
    let copy = headers.duplicate();
    assert_eq!(copy.get(b"host").unwrap(), &b"h".to_vec());
}
