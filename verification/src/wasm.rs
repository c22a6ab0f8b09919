//! The backend for hosts that perform the request themselves: what is handed to
//! the host, and how what the host hands back becomes a response.
//!
//! The host takes method, URL and headers as text that ends in a zero byte, and
//! gives back the body, the status code, and the headers as lines of
//! `name:value`.

use crate::bytes::{
    copy_bytes, find, find_byte, lemma_find_from, lowercase, to_lowercase, trim, trim_bytes, COLON,
    LF,
};
use crate::error::Error;
use crate::headers::{inserted, Entries, Headers};
use crate::http_url::{port_text, scheme_text, Port, Url};
use crate::numbers::push_decimal;
use crate::request::ParsedRequest;
use crate::response::{Answer, Response};
use crate::utf8::is_utf8;
use vstd::prelude::*;
use vstd::slice::slice_subrange;
use vstd::string::StringSliceAdditionalSpecFns;
use vstd::utf8::valid_utf8;

verus! {

/// The most bytes of a body that the host is given room for.
pub const MAX_RESPONSE_SIZE: usize = 10485760;

/// The bytes of room that the host is given for the headers.
pub const MAX_HEADERS_SIZE: usize = 8192;

/// The URL that the host is given: scheme, host, the port if the URL names one,
/// and path with query.
pub open spec fn host_url_spec(url: Url) -> Seq<u8> {
    scheme_text(url.https) + url.host + port_text(url.port) + url.path_and_query
}

/// Builds the URL that the host is given.
pub fn build_full_url(parsed_request: &ParsedRequest) -> (r: Vec<u8>)
    ensures
        r@ == host_url_spec(parsed_request.url@),
{
    let mut url: Vec<u8> = Vec::new();
    if parsed_request.url.https {
        url.extend_from_slice("https://".as_bytes());
    } else {
        url.extend_from_slice("http://".as_bytes());
    }
    url.extend_from_slice(parsed_request.url.host.as_slice());
    if let Port::Explicit(port) = parsed_request.url.port {
        url.push(COLON);
        push_decimal(&mut url, port as u64);
    }
    let ghost before = url@;
    assert(before =~= scheme_text(parsed_request.url@.https) + parsed_request.url@.host + port_text(
        parsed_request.url@.port,
    ));
    url.extend_from_slice(parsed_request.url.path_and_query.as_slice());
    assert(url@ =~= host_url_spec(parsed_request.url@));
    url
}

/// The first `upto` headers as lines of `name:value`, with a line feed between
/// one line and the next.
pub open spec fn joined_headers(entries: Entries, upto: int) -> Seq<u8>
    decreases upto,
{
    if upto <= 0 {
        Seq::<u8>::empty()
    } else if upto == 1 {
        entries[0].0 + seq![COLON] + entries[0].1
    } else {
        joined_headers(entries, upto - 1) + seq![LF] + entries[upto - 1].0 + seq![COLON]
            + entries[upto - 1].1
    }
}

/// The headers that the host is given: all of them as lines of `name:value`, then
/// a zero byte.
pub open spec fn headers_string_spec(entries: Entries) -> Seq<u8> {
    joined_headers(entries, entries.len() as int) + seq![0u8]
}

/// Builds the headers that the host is given.
pub fn build_headers_string(parsed_request: &ParsedRequest) -> (r: Vec<u8>)
    ensures
        r@ == headers_string_spec(parsed_request.config.headers@),
{
    let headers = &parsed_request.config.headers;
    let mut headers_str: Vec<u8> = Vec::new();
    let mut i: usize = 0;
    assert(headers_str@ =~= joined_headers(headers@, 0));
    while i < headers.len()
        invariant
            0 <= i <= headers@.len(),
            headers_str@ == joined_headers(headers@, i as int),
        decreases headers@.len() - i,
    {
        if i > 0 {
            headers_str.push(LF);
        }
        headers_str.extend_from_slice(headers.name_at(i).as_slice());
        headers_str.push(COLON);
        headers_str.extend_from_slice(headers.value_at(i).as_slice());
        assert(headers_str@ =~= joined_headers(headers@, i + 1));
        i += 1;
    }
    headers_str.push(0);
    assert(headers_str@ =~= headers_string_spec(headers@));
    headers_str
}

/// A copy of `text` that ends in a zero byte, as the host takes method and URL.
pub fn nul_terminated(text: &[u8]) -> (r: Vec<u8>)
    ensures
        r@ == text@ + seq![0u8],
{
    let mut out = copy_bytes(text);
    out.push(0);
    assert(out@ =~= text@ + seq![0u8]);
    out
}

/// The headers after one line of the host's answer has been taken in. A line
/// without a colon changes nothing; of any other, the name is what stands before
/// the first colon, trimmed and in lower case, and the value what follows it,
/// trimmed.
pub open spec fn with_host_line(entries: Entries, line: Seq<u8>) -> Entries {
    let colon = find(line, COLON);
    if colon < line.len() {
        inserted(entries, lowercase(trim(line.take(colon))), trim(line.skip(colon + 1)))
    } else {
        entries
    }
}

/// The headers that the lines of `text` give, taken in one after the other.
pub open spec fn host_headers_spec(text: Seq<u8>, entries: Entries) -> Entries
    decreases text.len(),
{
    if text.len() == 0 {
        entries
    } else {
        let n = find(text, LF);
        if n < text.len() {
            proof {
                lemma_find_from(text, LF, 0);
            }
            host_headers_spec(text.skip(n + 1), with_host_line(entries, text.take(n)))
        } else {
            with_host_line(entries, text)
        }
    }
}

/// Reads the headers of the host's answer. `result` is what the host returned:
/// the number of bytes that it wrote to `headers_buf`, or a negative number if it
/// failed.
///
/// Names and values are trimmed, and names lower-cased, as ASCII text: the white
/// space that is trimmed is tab, line feed, vertical tab, form feed, carriage
/// return and space, and only the letters `A` to `Z` are lower-cased. Bytes
/// beyond ASCII stay as they are.
#[verifier::rlimit(40)]
pub fn get_response_headers(result: i32, headers_buf: Vec<u8>) -> (r: Result<Headers, Error>)
    ensures
        ({
            let text = if result < headers_buf@.len() {
                headers_buf@.take(result as int)
            } else {
                headers_buf@
            };
            if result < 0 {
                r matches Err(x) && x == Error::Other("Failed to get response headers")
            } else if !valid_utf8(text) {
                r matches Err(x) && x == Error::Other("Invalid UTF-8 in response headers")
            } else {
                r matches Ok(headers) && headers@ == host_headers_spec(text, Entries::empty())
                    && headers.wf()
            }
        }),
{
    if result < 0 {
        return Err(Error::Other("Failed to get response headers"));
    }
    let ghost given = headers_buf@;
    let mut buf = headers_buf;
    let headers_len = result as usize;
    buf.truncate(headers_len);
    assert(buf@ =~= if result < given.len() {
        given.take(result as int)
    } else {
        given
    });
    if !is_utf8(buf.as_slice()) {
        return Err(Error::Other("Invalid UTF-8 in response headers"));
    }
    let text = buf.as_slice();
    let len = text.len();
    let mut headers = Headers::new();
    let mut off: usize = 0;
    assert(text@.skip(0) =~= text@);
    while off < len
        invariant
            0 <= off <= len,
            len == text@.len(),
            headers.wf(),
            host_headers_spec(text@, Entries::empty()) == host_headers_spec(
                text@.skip(off as int),
                headers@,
            ),
        decreases len - off,
    {
        let rest = slice_subrange(text, off, len);
        let n = find_byte(rest, LF, 0);
        let line = slice_subrange(rest, 0, n);
        let ghost before = headers@;
        let colon = find_byte(line, COLON, 0);
        if colon < line.len() {
            let key = to_lowercase(trim_bytes(slice_subrange(line, 0, colon)));
            let value = copy_bytes(trim_bytes(slice_subrange(line, colon + 1, line.len())));
            headers.insert(key, value);
        }
        assert(headers@ == with_host_line(before, rest@.take(n as int)));
        if n < rest.len() {
            assert(rest@.skip(n + 1) =~= text@.skip(off + n + 1));
            off = off + n + 1;
        } else {
            assert(rest@.take(n as int) =~= rest@);
            assert(text@.skip(len as int) =~= Seq::<u8>::empty());
            off = len;
        }
    }
    Ok(headers)
}

/// The reason phrase that goes with a status code: the host gives none.
pub open spec fn reason_phrase_spec(status_code: int) -> Seq<u8> {
    if status_code == 200 {
        "OK".spec_bytes()
    } else if status_code == 201 {
        "Created".spec_bytes()
    } else if status_code == 202 {
        "Accepted".spec_bytes()
    } else if status_code == 204 {
        "No Content".spec_bytes()
    } else if status_code == 301 {
        "Moved Permanently".spec_bytes()
    } else if status_code == 302 {
        "Found".spec_bytes()
    } else if status_code == 303 {
        "See Other".spec_bytes()
    } else if status_code == 304 {
        "Not Modified".spec_bytes()
    } else if status_code == 307 {
        "Temporary Redirect".spec_bytes()
    } else if status_code == 308 {
        "Permanent Redirect".spec_bytes()
    } else if status_code == 400 {
        "Bad Request".spec_bytes()
    } else if status_code == 401 {
        "Unauthorized".spec_bytes()
    } else if status_code == 403 {
        "Forbidden".spec_bytes()
    } else if status_code == 404 {
        "Not Found".spec_bytes()
    } else if status_code == 405 {
        "Method Not Allowed".spec_bytes()
    } else if status_code == 429 {
        "Too Many Requests".spec_bytes()
    } else if status_code == 500 {
        "Internal Server Error".spec_bytes()
    } else if status_code == 502 {
        "Bad Gateway".spec_bytes()
    } else if status_code == 503 {
        "Service Unavailable".spec_bytes()
    } else if status_code == 504 {
        "Gateway Timeout".spec_bytes()
    } else {
        "Unknown".spec_bytes()
    }
}

/// The name of a status code.
fn reason_phrase_text(status_code: i32) -> (r: &'static str)
    ensures
        r.spec_bytes() == reason_phrase_spec(status_code as int),
{
    match status_code {
        200 => "OK",
        201 => "Created",
        202 => "Accepted",
        204 => "No Content",
        301 => "Moved Permanently",
        302 => "Found",
        303 => "See Other",
        304 => "Not Modified",
        307 => "Temporary Redirect",
        308 => "Permanent Redirect",
        400 => "Bad Request",
        401 => "Unauthorized",
        403 => "Forbidden",
        404 => "Not Found",
        405 => "Method Not Allowed",
        429 => "Too Many Requests",
        500 => "Internal Server Error",
        502 => "Bad Gateway",
        503 => "Service Unavailable",
        504 => "Gateway Timeout",
        _ => "Unknown",
    }
}

/// The reason phrase that goes with a status code.
pub fn get_reason_phrase(status_code: i32) -> (r: Vec<u8>)
    ensures
        r@ == reason_phrase_spec(status_code as int),
{
    copy_bytes(reason_phrase_text(status_code).as_bytes())
}

/// Makes the response of what the host handed back. `result` and
/// `headers_result` are what the host returned for the body and for the headers:
/// the number of bytes that it wrote, or a negative number if it failed.
pub fn send_request(
    full_url: Vec<u8>,
    result: i32,
    response_buf: Vec<u8>,
    status_code: i32,
    headers_result: i32,
    headers_buf: Vec<u8>,
) -> (r: Result<Response, Error>)
    ensures
        ({
            let text = if headers_result < headers_buf@.len() {
                headers_buf@.take(headers_result as int)
            } else {
                headers_buf@
            };
            if result < 0 {
                r matches Err(x) && x == Error::Other("WASM HTTP request failed")
            } else if headers_result < 0 {
                r matches Err(x) && x == Error::Other("Failed to get response headers")
            } else if !valid_utf8(text) {
                r matches Err(x) && x == Error::Other("Invalid UTF-8 in response headers")
            } else {
                r matches Ok(response) && response.headers.wf() && response@ == (Answer {
                    status_code: status_code as int,
                    reason_phrase: reason_phrase_spec(status_code as int),
                    headers: host_headers_spec(text, Entries::empty()),
                    url: full_url@,
                    body: if result < response_buf@.len() {
                        response_buf@.take(result as int)
                    } else {
                        response_buf@
                    },
                })
            }
        }),
{
    if result < 0 {
        return Err(Error::Other("WASM HTTP request failed"));
    }
    let ghost given = response_buf@;
    let mut body = response_buf;
    let response_len = result as usize;
    body.truncate(response_len);
    assert(body@ =~= if result < given.len() {
        given.take(result as int)
    } else {
        given
    });
    let response_headers = match get_response_headers(headers_result, headers_buf) {
        Ok(headers) => headers,
        Err(e) => {
            return Err(e);
        },
    };
    Ok(
        Response::new(
            status_code,
            get_reason_phrase(status_code),
            response_headers,
            full_url,
            body,
        ),
    )
}

} // verus!
