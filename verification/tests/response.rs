use minireq::error::{Error, IoErrorKind};
use minireq::headers::Headers;
use minireq::response::{
    classify_framing, length_hint, parse_chunk_size, parse_header, parse_status_line, read_chunked,
    read_line, read_metadata, read_trailers, read_until_closed, read_with_content_length,
    HttpStreamState, Response, ResponseLazy, MAX_CONTENT_LENGTH,
};
use minireq::stream::{HttpStream, StreamEnd};

fn stream(wire: &[u8]) -> HttpStream {
    HttpStream::new(wire.to_vec(), StreamEnd::Eof)
}

fn lazy(wire: &[u8]) -> ResponseLazy {
    ResponseLazy::from_stream(stream(wire), None, None).unwrap()
}

fn eager(wire: &[u8]) -> Response {
    Response::create(lazy(wire), false).unwrap()
}

#[test]
fn content_length_body_is_read_exactly() {
    let response = eager(b"HTTP/1.1 200 OK\r\nContent-Length: 4\r\n\r\nj: Qextra");
    assert_eq!(response.status_code, 200);
    assert_eq!(response.reason_phrase, b"OK".to_vec());
    assert_eq!(response.as_str().unwrap(), "j: Q");
}

#[test]
fn chunked_body_is_joined_and_length_is_set() {
    let response = eager(
        b"HTTP/1.1 200 OK\r\nTransfer-Encoding: chunked\r\n\r\n2\r\nj:\r\n2;ext=1\r\n Q\r\n0\r\nX-Trailer: yes\r\n\r\n",
    );
    assert_eq!(response.as_bytes(), b"j: Q");
    assert_eq!(response.headers.get(b"content-length").unwrap(), &b"4".to_vec());
    assert!(response.headers.get(b"transfer-encoding").is_none());
    assert_eq!(response.headers.get(b"x-trailer").unwrap(), &b"yes".to_vec());
}

#[test]
fn body_without_framing_ends_with_the_connection() {
    let response = eager(b"HTTP/1.1 200 OK\r\nServer: x\r\n\r\nall of it");
    assert_eq!(response.as_bytes(), b"all of it");
    assert_eq!(response.into_bytes(), b"all of it".to_vec());
}

#[test]
fn framings_give_the_same_body() {
    let content = b"The quick brown fox";
    let plain = eager(b"HTTP/1.1 200 OK\r\nContent-Length: 19\r\n\r\nThe quick brown fox");
    let chunked = eager(
        b"HTTP/1.1 200 OK\r\nTransfer-Encoding: chunked\r\n\r\n4\r\nThe \r\nA\r\nquick brow\r\n5\r\nn fox\r\n0\r\n\r\n",
    );
    let closed = eager(b"HTTP/1.1 200 OK\r\n\r\nThe quick brown fox");
    assert_eq!(plain.as_bytes(), content);
    assert_eq!(chunked.as_bytes(), content);
    assert_eq!(closed.as_bytes(), content);
    assert_eq!(chunked.headers.get(b"Content-Length").unwrap(), &b"19".to_vec());
    assert_eq!(plain.headers.get(b"content-length").unwrap(), &b"19".to_vec());
}

#[test]
fn header_name_is_found_in_any_case() {
    for name in ["Content-Type", "content-type", "CONTENT-TYPE", "cOnTeNt-TyPe"] {
        let wire = format!("HTTP/1.1 200 OK\r\n{}: text/html\r\n\r\n", name);
        let response = eager(wire.as_bytes());
        assert_eq!(response.headers.get(b"content-type").unwrap(), &b"text/html".to_vec());
        assert_eq!(response.headers.name_at(0), &b"content-type".to_vec());
    }
}

#[test]
fn head_and_empty_statuses_read_no_body() {
    let wire = b"HTTP/1.1 200 OK\r\nContent-Length: 5\r\n\r\nhello";
    let response = Response::create(lazy(wire), true).unwrap();
    assert_eq!(response.as_bytes(), b"");
    for status in ["204 No Content", "304 Not Modified"] {
        let wire = format!("HTTP/1.1 {}\r\nTransfer-Encoding: chunked\r\n\r\nzz\r\n", status);
        let mut parent = lazy(wire.as_bytes());
        let body = parent.collect_body(false).unwrap();
        assert_eq!(body, Vec::<u8>::new());
        assert_eq!(parent.stream.remaining(), b"zz\r\n");
        assert_eq!(parent.state, HttpStreamState::Chunked(true, 0, 0));
    }
}

#[test]
fn line_ends_at_line_feed_without_carriage_return() {
    let mut s = stream(b"first\r\nsecond\nthird\r\r\nlast");
    assert_eq!(read_line(&mut s, None, Error::HeadersOverflow).unwrap(), b"first".to_vec());
    assert_eq!(read_line(&mut s, None, Error::HeadersOverflow).unwrap(), b"second".to_vec());
    assert_eq!(read_line(&mut s, None, Error::HeadersOverflow).unwrap(), b"third\r".to_vec());
    assert_eq!(read_line(&mut s, None, Error::HeadersOverflow).unwrap(), b"last".to_vec());
    assert_eq!(read_line(&mut s, None, Error::HeadersOverflow).unwrap(), b"".to_vec());
}

#[test]
fn line_longer_than_the_limit_overflows() {
    let mut s = stream(b"abcd\r\nrest");
    assert!(matches!(
        read_line(&mut s, Some(5), Error::StatusLineOverflow),
        Err(Error::StatusLineOverflow)
    ));
    assert_eq!(s.remaining(), b"abcd\r\nrest");
    assert_eq!(read_line(&mut s, Some(6), Error::StatusLineOverflow).unwrap(), b"abcd".to_vec());
    assert_eq!(s.remaining(), b"rest");
    assert_eq!(read_line(&mut s, Some(4), Error::StatusLineOverflow).unwrap(), b"rest".to_vec());
    let mut s = stream(b"rest!");
    assert!(matches!(
        read_line(&mut s, Some(4), Error::HeadersOverflow),
        Err(Error::HeadersOverflow)
    ));
}

#[test]
fn line_that_is_not_utf8_is_refused() {
    let mut s = stream(b"caf\xe9\r\n");
    assert!(matches!(
        read_line(&mut s, None, Error::HeadersOverflow),
        Err(Error::InvalidUtf8InResponse)
    ));
    let mut s = stream("caf\u{e9}\r\n".as_bytes());
    assert_eq!(
        read_line(&mut s, None, Error::HeadersOverflow).unwrap(),
        "caf\u{e9}".as_bytes().to_vec()
    );
}

#[test]
fn failed_transport_fails_the_line() {
    let mut s = HttpStream::new(b"partial".to_vec(), StreamEnd::Failed(IoErrorKind::TimedOut));
    assert!(matches!(
        read_line(&mut s, None, Error::HeadersOverflow),
        Err(Error::IoError(IoErrorKind::TimedOut))
    ));
    assert_eq!(s.remaining(), b"partial");
}

#[test]
fn status_line_is_split_at_its_spaces() {
    assert_eq!(parse_status_line(b"HTTP/1.1 200 OK"), (200, b"OK".to_vec()));
    assert_eq!(parse_status_line(b"HTTP/1.1 404 Not Found"), (404, b"Not Found".to_vec()));
    assert_eq!(parse_status_line(b"HTTP/1.1 204"), (204, b"".to_vec()));
    assert_eq!(parse_status_line(b"HTTP/1.1 204 "), (204, b"".to_vec()));
    assert_eq!(parse_status_line(b"HTTP/1.1 200  two"), (200, b" two".to_vec()));
}

#[test]
fn status_line_without_code_is_503() {
    let missing = b"Server did not provide a status line".to_vec();
    assert_eq!(parse_status_line(b""), (503, missing.clone()));
    assert_eq!(parse_status_line(b"HTTP/1.1"), (503, missing.clone()));
    assert_eq!(parse_status_line(b"HTTP/1.1 abc OK"), (503, missing.clone()));
    assert_eq!(parse_status_line(b"HTTP/1.1  200 OK"), (503, missing));
}

#[test]
fn header_is_split_at_its_first_colon() {
    assert_eq!(
        parse_header(b"Content-Type: text/html"),
        Some((b"content-type".to_vec(), b"text/html".to_vec()))
    );
    assert_eq!(parse_header(b"X:y"), Some((b"x".to_vec(), b"y".to_vec())));
    assert_eq!(parse_header(b"X:  y"), Some((b"x".to_vec(), b" y".to_vec())));
    assert_eq!(parse_header(b"Date: 12:30"), Some((b"date".to_vec(), b"12:30".to_vec())));
    assert_eq!(parse_header(b"X:"), Some((b"x".to_vec(), b"".to_vec())));
    assert_eq!(parse_header(b"no colon"), None);
    assert_eq!(parse_header(b""), None);
}

#[test]
fn chunked_goes_before_a_length() {
    let mut headers = Headers::new();
    headers.insert(b"content-length".to_vec(), b"7".to_vec());
    assert_eq!(classify_framing(&headers).unwrap(), HttpStreamState::ContentLength(7));
    headers.insert(b"transfer-encoding".to_vec(), b" Chunked ".to_vec());
    assert_eq!(classify_framing(&headers).unwrap(), HttpStreamState::Chunked(true, 0, 0));
    headers.insert(b"content-length".to_vec(), b"seven".to_vec());
    assert_eq!(classify_framing(&headers).unwrap(), HttpStreamState::Chunked(true, 0, 0));
    headers.remove(b"transfer-encoding");
    assert!(matches!(classify_framing(&headers), Err(Error::MalformedContentLength)));
    headers.remove(b"content-length");
    assert_eq!(classify_framing(&headers).unwrap(), HttpStreamState::EndOnClose);
    headers.insert(b"transfer-encoding".to_vec(), b"gzip".to_vec());
    assert_eq!(classify_framing(&headers).unwrap(), HttpStreamState::EndOnClose);
}

#[test]
fn of_several_lengths_the_one_whose_name_sorts_last_counts() {
    for wire in [
        &b"HTTP/1.1 200 OK\r\nContent-Length: 3\r\n Content-Length: 5\r\n\r\n"[..],
        b"HTTP/1.1 200 OK\r\n Content-Length: 5\r\nContent-Length: 3\r\n\r\n",
    ] {
        assert_eq!(lazy(wire).state, HttpStreamState::ContentLength(3));
    }
    for wire in [
        &b"HTTP/1.1 200 OK\r\nContent-Length: 3\r\nContent-Length : 7\r\n\r\n"[..],
        b"HTTP/1.1 200 OK\r\nContent-Length : 7\r\nContent-Length: 3\r\n\r\n",
        b"HTTP/1.1 200 OK\r\nContent-Length : 7\r\n Content-Length: 5\r\nContent-Length: 3\r\n\r\n",
    ] {
        assert_eq!(lazy(wire).state, HttpStreamState::ContentLength(7));
    }
    let wire = b"HTTP/1.1 200 OK\r\nContent-Length: 3\r\n Content-Length: x\r\n\r\n";
    assert!(matches!(
        ResponseLazy::from_stream(stream(wire), None, None),
        Err(Error::MalformedContentLength)
    ));
}

#[test]
fn malformed_content_length_fails_the_head() {
    for value in ["-1", "12abc", "", "1.5"] {
        let wire = format!("HTTP/1.1 200 OK\r\nContent-Length: {}\r\n\r\n", value);
        let result = ResponseLazy::from_stream(stream(wire.as_bytes()), None, None);
        assert!(matches!(result, Err(Error::MalformedContentLength)));
    }
    let parent = lazy(b"HTTP/1.1 200 OK\r\nContent-Length:  12 \r\n\r\n");
    assert_eq!(parent.state, HttpStreamState::ContentLength(12));
}

#[test]
fn head_gives_status_headers_and_what_is_left_for_trailers() {
    let mut s = stream(b"HTTP/1.1 201 Created\r\nA: 1\r\nnot a header\r\nB: 2\r\nA: 3\r\n\r\nbody");
    let metadata = read_metadata(&mut s, Some(100), Some(100)).unwrap();
    assert_eq!(metadata.status_code, 201);
    assert_eq!(metadata.reason_phrase, b"Created".to_vec());
    assert_eq!(metadata.headers.len(), 2);
    assert_eq!(metadata.headers.get(b"a").unwrap(), &b"3".to_vec());
    assert_eq!(metadata.headers.get(b"b").unwrap(), &b"2".to_vec());
    assert_eq!(metadata.state, HttpStreamState::EndOnClose);
    assert_eq!(metadata.max_trailing_headers_size, Some(100 - 6 - 14 - 6 - 6));
    assert_eq!(s.remaining(), b"body");
}

#[test]
fn headers_beyond_the_budget_overflow() {
    let wire = b"HTTP/1.1 200 OK\r\nAbcd: efgh\r\nIjkl: mnop\r\n\r\n";
    assert!(ResponseLazy::from_stream(stream(wire), Some(26), None).is_ok());
    assert!(matches!(
        ResponseLazy::from_stream(stream(wire), Some(25), None),
        Err(Error::HeadersOverflow)
    ));
    assert!(matches!(
        ResponseLazy::from_stream(stream(wire), Some(23), None),
        Err(Error::HeadersOverflow)
    ));
    assert!(matches!(
        ResponseLazy::from_stream(stream(wire), Some(11), None),
        Err(Error::HeadersOverflow)
    ));
    let mut s = stream(wire);
    assert!(read_metadata(&mut s, Some(11), None).is_err());
    assert_eq!(s.remaining(), &wire[..]);
}

#[test]
fn length_hint_is_capped() {
    assert_eq!(length_hint(0), 1);
    assert_eq!(length_hint(41), 42);
    assert_eq!(length_hint(MAX_CONTENT_LENGTH - 1), MAX_CONTENT_LENGTH);
    assert_eq!(length_hint(MAX_CONTENT_LENGTH), MAX_CONTENT_LENGTH + 1);
    assert_eq!(length_hint(usize::MAX), 16 * 1024 + 1);
}

#[test]
fn absurd_content_length_reserves_no_more_than_the_cap() {
    let mut parent =
        lazy(b"HTTP/1.1 200 OK\r\nContent-Length: 18446744073709551615\r\n\r\nab");
    assert!(matches!(parent.next(), Some(Ok((b'a', 16385)))));
    assert!(matches!(parent.next(), Some(Ok((b'b', 16385)))));
    assert!(parent.next().is_none());
    assert_eq!(parent.state, HttpStreamState::ContentLength(usize::MAX - 2));
}

#[test]
fn bytes_come_with_what_is_left_of_the_length() {
    let mut s = stream(b"abc");
    let mut left = 2usize;
    assert!(matches!(read_with_content_length(&mut s, &mut left), Some(Ok((b'a', 2)))));
    assert!(matches!(read_with_content_length(&mut s, &mut left), Some(Ok((b'b', 1)))));
    assert!(read_with_content_length(&mut s, &mut left).is_none());
    assert_eq!(left, 0);
    assert_eq!(s.remaining(), b"c");
}

#[test]
fn bytes_until_close_come_with_a_hint_of_one() {
    let mut s = HttpStream::new(b"ab".to_vec(), StreamEnd::Failed(IoErrorKind::ConnectionReset));
    assert!(matches!(read_until_closed(&mut s), Some(Ok((b'a', 1)))));
    assert!(matches!(read_until_closed(&mut s), Some(Ok((b'b', 1)))));
    assert!(matches!(
        read_until_closed(&mut s),
        Some(Err(Error::IoError(IoErrorKind::ConnectionReset)))
    ));
    let mut s = stream(b"");
    assert!(read_until_closed(&mut s).is_none());
}

#[test]
fn chunk_size_line_is_hexadecimal() {
    assert_eq!(parse_chunk_size(b"0"), Some(0));
    assert_eq!(parse_chunk_size(b""), Some(0));
    assert_eq!(parse_chunk_size(b"1A"), Some(26));
    assert_eq!(parse_chunk_size(b" 1a "), Some(26));
    assert_eq!(parse_chunk_size(b"1a;name=value"), Some(26));
    assert_eq!(parse_chunk_size(b"1a ; name=value"), Some(26));
    assert_eq!(parse_chunk_size(b";name"), None);
    assert_eq!(parse_chunk_size(b"0x1a"), None);
    assert_eq!(parse_chunk_size(b"1g"), None);
    assert_eq!(parse_chunk_size(b"10000000000000000"), None);
}

#[test]
fn chunked_bytes_come_with_what_is_left_of_the_chunk() {
    let mut s = stream(b"3\r\nabc\r\n1\r\nd\r\n0\r\n\r\nnext");
    let mut headers = Headers::new();
    headers.insert(b"transfer-encoding".to_vec(), b"chunked".to_vec());
    let (mut expecting, mut chunk, mut total) = (true, 0usize, 0usize);
    let mut step = |s: &mut HttpStream, h: &mut Headers, e: &mut bool, c: &mut usize, t: &mut usize| {
        read_chunked(s, h, e, c, t, None)
    };
    assert!(matches!(
        step(&mut s, &mut headers, &mut expecting, &mut chunk, &mut total),
        Some(Ok((b'a', 3)))
    ));
    assert_eq!((expecting, chunk, total), (true, 2, 3));
    assert!(matches!(
        step(&mut s, &mut headers, &mut expecting, &mut chunk, &mut total),
        Some(Ok((b'b', 2)))
    ));
    assert!(matches!(
        step(&mut s, &mut headers, &mut expecting, &mut chunk, &mut total),
        Some(Ok((b'c', 1)))
    ));
    assert_eq!((expecting, chunk, total), (true, 0, 3));
    assert_eq!(s.remaining(), b"1\r\nd\r\n0\r\n\r\nnext");
    assert!(matches!(
        step(&mut s, &mut headers, &mut expecting, &mut chunk, &mut total),
        Some(Ok((b'd', 1)))
    ));
    assert_eq!((expecting, chunk, total), (true, 0, 4));
    assert!(step(&mut s, &mut headers, &mut expecting, &mut chunk, &mut total).is_none());
    assert_eq!((expecting, chunk, total), (false, 0, 4));
    assert_eq!(headers.get(b"content-length").unwrap(), &b"4".to_vec());
    assert!(!headers.contains(b"transfer-encoding"));
    assert_eq!(s.remaining(), b"next");
    assert!(step(&mut s, &mut headers, &mut expecting, &mut chunk, &mut total).is_none());
    assert_eq!(s.remaining(), b"next");
}

#[test]
fn malformed_chunk_length_is_reported() {
    let mut parent = lazy(b"HTTP/1.1 200 OK\r\nTransfer-Encoding: chunked\r\n\r\nzz\r\nab\r\n");
    assert!(matches!(parent.next(), Some(Err(Error::MalformedChunkLength))));
    assert_eq!(parent.stream.remaining(), b"zz\r\nab\r\n");
    let long = format!(
        "HTTP/1.1 200 OK\r\nTransfer-Encoding: chunked\r\n\r\n1;{}\r\na\r\n",
        "x".repeat(1024)
    );
    let mut parent = lazy(long.as_bytes());
    assert!(matches!(parent.next(), Some(Err(Error::MalformedChunkLength))));
}

#[test]
fn chunk_sizes_that_do_not_add_up_are_malformed() {
    let mut parent = lazy(
        b"HTTP/1.1 200 OK\r\nTransfer-Encoding: chunked\r\n\r\n1\r\na\r\nffffffffffffffff\r\nb",
    );
    assert!(matches!(parent.next(), Some(Ok((b'a', 1)))));
    assert!(matches!(parent.next(), Some(Err(Error::MalformedChunkLength))));
}

#[test]
fn missing_chunk_end_is_reported() {
    let mut parent = lazy(b"HTTP/1.1 200 OK\r\nTransfer-Encoding: chunked\r\n\r\n2\r\nabcd\r\n");
    assert!(matches!(parent.next(), Some(Ok((b'a', 2)))));
    assert!(matches!(parent.next(), Some(Err(Error::MalformedChunkEnd))));
    assert!(matches!(parent.next(), Some(Err(Error::MalformedChunkEnd))));
    assert_eq!(parent.state, HttpStreamState::Chunked(true, 1, 2));
}

#[test]
fn chunk_must_end_with_carriage_return_and_line_feed() {
    let head = "HTTP/1.1 200 OK\r\nTransfer-Encoding: chunked\r\n\r\n";
    for body in ["1\r\naX\n0\r\n\r\n", "1\r\na\n0\r\n\r\n", "1\r\na\n\r0\r\n\r\n", "1\r\na\r\r\n"] {
        let wire = format!("{}{}", head, body);
        let mut parent = lazy(wire.as_bytes());
        assert!(matches!(parent.next(), Some(Err(Error::MalformedChunkEnd))));
        assert_eq!(parent.stream.remaining(), body.as_bytes());
        assert_eq!(parent.state, HttpStreamState::Chunked(true, 0, 0));
    }
    let mut parent = lazy(format!("{}{}", head, "1\r\na\r\n0\r\n\r\n").as_bytes());
    assert!(matches!(parent.next(), Some(Ok((b'a', 1)))));
    assert_eq!(parent.stream.remaining(), b"0\r\n\r\n");
}

#[test]
fn chunk_that_ends_with_the_stream_is_malformed() {
    let head = "HTTP/1.1 200 OK\r\nTransfer-Encoding: chunked\r\n\r\n";
    for body in ["1\r\na", "1\r\na\r", "1\r\na\n"] {
        let wire = format!("{}{}", head, body);
        let mut parent = lazy(wire.as_bytes());
        assert!(matches!(parent.next(), Some(Err(Error::MalformedChunkEnd))));
        assert_eq!(parent.stream.remaining(), body.as_bytes());
    }
}

#[test]
fn chunk_end_that_has_not_come_is_waited_for() {
    let head = b"HTTP/1.1 200 OK\r\nTransfer-Encoding: chunked\r\n\r\n1\r\na";
    let open = HttpStream::new(head.to_vec(), StreamEnd::Failed(IoErrorKind::WouldBlock));
    let mut parent = ResponseLazy::from_stream(open, None, None).unwrap();
    assert!(matches!(parent.next(), Some(Err(Error::IoError(IoErrorKind::WouldBlock)))));
    parent.feed(b"\r");
    assert!(matches!(parent.next(), Some(Err(Error::IoError(IoErrorKind::WouldBlock)))));
    assert_eq!(parent.stream.remaining(), b"1\r\na\r");
    parent.feed(b"\n");
    assert!(matches!(parent.next(), Some(Ok((b'a', 1)))));
    assert_eq!(parent.stream.remaining(), b"");

    let failed = HttpStream::new(head.to_vec(), StreamEnd::Failed(IoErrorKind::TimedOut));
    let mut parent = ResponseLazy::from_stream(failed, None, None).unwrap();
    assert!(matches!(parent.next(), Some(Err(Error::IoError(IoErrorKind::TimedOut)))));
}

#[test]
fn error_leaves_what_was_read_and_where_it_stopped() {
    let wire = b"HTTP/1.1 200 OK\r\nTransfer-Encoding: chunked\r\n\r\n2\r\nab\r\nzz\r\n";
    let mut parent = lazy(wire);
    let mut buf = vec![b'.'; 4];
    assert!(matches!(parent.read(&mut buf), Err(Error::MalformedChunkLength)));
    assert_eq!(buf, b"ab..".to_vec());
    assert_eq!(parent.stream.remaining(), b"zz\r\n");
    assert_eq!(parent.state, HttpStreamState::Chunked(true, 0, 2));

    let mut parent = lazy(wire);
    assert!(matches!(parent.collect_body(false), Err(Error::MalformedChunkLength)));
    assert_eq!(parent.stream.remaining(), b"zz\r\n");
    assert_eq!(parent.state, HttpStreamState::Chunked(true, 0, 2));
}

#[test]
fn responses_are_compared_copied_and_shown() {
    let first = eager(b"HTTP/1.1 200 OK\r\nA: b\r\n\r\nbody");
    let copy = first.clone();
    assert_eq!(first, copy);
    assert_eq!(copy.headers, first.headers);
    let other = eager(b"HTTP/1.1 200 OK\r\nA: b\r\n\r\nbodies");
    assert_ne!(first, other);
    assert!(format!("{:?}", first).contains("status_code: 200"));
}

#[test]
fn truncated_chunked_body_ends_without_a_length() {
    let parent = lazy(b"HTTP/1.1 200 OK\r\nTransfer-Encoding: chunked\r\n\r\n5\r\nab");
    let response = Response::create(parent, false).unwrap();
    assert_eq!(response.as_bytes(), b"ab");
    assert!(response.headers.get(b"content-length").is_none());
    assert!(response.headers.contains(b"transfer-encoding"));
}

#[test]
fn trailers_are_merged_until_a_line_that_is_no_header() {
    let mut s = stream(b"A: 1\r\nB: 2\r\n\r\nrest");
    let mut headers = Headers::new();
    headers.insert(b"a".to_vec(), b"0".to_vec());
    read_trailers(&mut s, &mut headers, Some(14)).unwrap();
    assert_eq!(headers.get(b"a").unwrap(), &b"1".to_vec());
    assert_eq!(headers.get(b"b").unwrap(), &b"2".to_vec());
    assert_eq!(s.remaining(), b"rest");
}

#[test]
fn trailers_beyond_the_budget_overflow_and_change_nothing() {
    let mut s = stream(b"A: 1\r\nB: 2\r\n\r\nrest");
    let mut headers = Headers::new();
    headers.insert(b"a".to_vec(), b"0".to_vec());
    assert!(matches!(read_trailers(&mut s, &mut headers, Some(13)), Err(Error::HeadersOverflow)));
    assert_eq!(headers.get(b"a").unwrap(), &b"0".to_vec());
    assert!(headers.get(b"b").is_none());
    assert_eq!(s.remaining(), b"A: 1\r\nB: 2\r\n\r\nrest");
}

#[test]
fn body_is_read_into_a_buffer() {
    let mut parent = lazy(b"HTTP/1.1 200 OK\r\nContent-Length: 5\r\n\r\nhello");
    let mut buf = vec![0u8; 3];
    assert_eq!(parent.read(&mut buf).unwrap(), 3);
    assert_eq!(buf, b"hel".to_vec());
    assert_eq!(parent.read(&mut buf).unwrap(), 2);
    assert_eq!(buf, b"lol".to_vec());
    assert_eq!(parent.read(&mut buf).unwrap(), 0);
    let mut empty = Vec::new();
    let mut parent = lazy(b"HTTP/1.1 200 OK\r\n\r\nhello");
    assert_eq!(parent.read(&mut empty).unwrap(), 0);
    assert_eq!(parent.stream.remaining(), b"hello");
}

#[test]
fn reading_goes_on_after_more_bytes_have_arrived() {
    let head = b"HTTP/1.1 200 OK\r\nTransfer-Encoding: chunked\r\n\r\n";
    let open = HttpStream::new(head.to_vec(), StreamEnd::Failed(IoErrorKind::WouldBlock));
    let mut parent = ResponseLazy::from_stream(open, None, None).unwrap();
    let mut body = Vec::new();
    for piece in [&b"3\r"[..], b"\nab", b"c", b"\r\n2\r\nde\r\n0\r", b"\n\r\n"] {
        assert!(matches!(
            parent.collect_into(&mut body),
            Err(Error::IoError(IoErrorKind::WouldBlock))
        ));
        parent.feed(piece);
    }
    parent.finish(StreamEnd::Eof);
    parent.collect_into(&mut body).unwrap();
    assert_eq!(body, b"abcde".to_vec());
    assert_eq!(parent.headers.get(b"content-length").unwrap(), &b"5".to_vec());
}

#[test]
fn head_is_not_read_before_it_has_arrived() {
    let wire = b"HTTP/1.1 200 OK\r\nContent-Length: 2\r\n\r\nok";
    for cut in 0..wire.len() - 2 {
        let open =
            HttpStream::new(wire[..cut].to_vec(), StreamEnd::Failed(IoErrorKind::WouldBlock));
        assert!(matches!(
            ResponseLazy::from_stream(open, None, None),
            Err(Error::IoError(IoErrorKind::WouldBlock))
        ));
    }
}

#[test]
fn body_that_is_not_utf8_is_no_text() {
    let response = eager(b"HTTP/1.1 200 OK\r\n\r\n\xff\xfe");
    assert!(matches!(response.as_str(), Err(Error::InvalidUtf8InBody(_))));
    assert_eq!(response.as_bytes(), b"\xff\xfe");
    let response = eager("HTTP/1.1 200 OK\r\n\r\ncaf\u{e9}".as_bytes());
    assert_eq!(response.as_str().unwrap(), "caf\u{e9}");
}

#[test]
fn response_is_made_of_its_parts() {
    let mut headers = Headers::new();
    headers.insert(b"a".to_vec(), b"b".to_vec());
    let response =
        Response::new(404, b"Not Found".to_vec(), headers, b"http://x/".to_vec(), b"gone".to_vec());
    assert_eq!(response.status_code, 404);
    assert_eq!(response.reason_phrase, b"Not Found".to_vec());
    assert_eq!(response.url, b"http://x/".to_vec());
    assert_eq!(response.headers.get(b"A").unwrap(), &b"b".to_vec());
    assert_eq!(response.as_bytes(), b"gone");
}
