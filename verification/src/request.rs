//! Requests: how one is described, how it is written onto the wire, and how it is
//! turned towards the target of a redirect.

use crate::bytes::{
    contains_byte, copy_bytes, find_byte, AMPERSAND, COLON, EQUALS, QUESTION, SP,
};
use crate::error::Error;
use crate::headers::{inserted, lookup, Entries, Headers};
use crate::http_url::{
    parse_spec, port_number, resolve_spec, same_resource, HttpUrl, Port, Url,
};
use crate::numbers::{decimal, push_decimal};
use crate::proxy::Proxy;
use vstd::prelude::*;
use vstd::string::StringSliceAdditionalSpecFns;

verus! {

/// How often a request follows a redirect, unless it says otherwise.
pub const DEFAULT_MAX_REDIRECTS: usize = 100;

/// An HTTP request method.
pub enum Method {
    /// `GET`
    Get,
    /// `HEAD`
    Head,
    /// `POST`
    Post,
    /// `PUT`
    Put,
    /// `DELETE`
    Delete,
    /// `CONNECT`
    Connect,
    /// `OPTIONS`
    Options,
    /// `TRACE`
    Trace,
    /// `PATCH`
    Patch,
    /// Any other method, written onto the wire as it stands.
    Custom(Vec<u8>),
}

impl Method {
    /// The method as it is written onto the wire.
    pub open spec fn text(&self) -> Seq<u8> {
        match self {
            Method::Get => "GET".spec_bytes(),
            Method::Head => "HEAD".spec_bytes(),
            Method::Post => "POST".spec_bytes(),
            Method::Put => "PUT".spec_bytes(),
            Method::Delete => "DELETE".spec_bytes(),
            Method::Connect => "CONNECT".spec_bytes(),
            Method::Options => "OPTIONS".spec_bytes(),
            Method::Trace => "TRACE".spec_bytes(),
            Method::Patch => "PATCH".spec_bytes(),
            Method::Custom(name) => name@,
        }
    }

    /// Appends the method as it is written onto the wire.
    pub fn write_to(&self, dst: &mut Vec<u8>)
        ensures
            final(dst)@ == old(dst)@ + self.text(),
    {
        match self {
            Method::Get => dst.extend_from_slice("GET".as_bytes()),
            Method::Head => dst.extend_from_slice("HEAD".as_bytes()),
            Method::Post => dst.extend_from_slice("POST".as_bytes()),
            Method::Put => dst.extend_from_slice("PUT".as_bytes()),
            Method::Delete => dst.extend_from_slice("DELETE".as_bytes()),
            Method::Connect => dst.extend_from_slice("CONNECT".as_bytes()),
            Method::Options => dst.extend_from_slice("OPTIONS".as_bytes()),
            Method::Trace => dst.extend_from_slice("TRACE".as_bytes()),
            Method::Patch => dst.extend_from_slice("PATCH".as_bytes()),
            Method::Custom(name) => dst.extend_from_slice(name.as_slice()),
        }
    }

    /// Whether the method is `HEAD`.
    pub fn is_head(&self) -> (r: bool)
        ensures
            r == (self is Head),
    {
        match self {
            Method::Head => true,
            _ => false,
        }
    }

    /// Whether the method is `GET`.
    pub fn is_get(&self) -> (r: bool)
        ensures
            r == (self is Get),
    {
        match self {
            Method::Get => true,
            _ => false,
        }
    }
}

/// An HTTP request, as its builder describes it.
pub struct Request {
    /// The method.
    pub method: Method,
    /// The URL, as it was given.
    pub url: Vec<u8>,
    /// The parameters to add to the query, already joined by `&`.
    pub params: Vec<u8>,
    /// The headers, in the order in which they were first set.
    pub headers: Headers,
    /// The body.
    pub body: Option<Vec<u8>>,
    /// The time that the whole request may take, in seconds.
    pub timeout: Option<u64>,
    /// The most bytes that the response's headers may take.
    pub max_headers_size: Option<usize>,
    /// The most bytes that the response's status line may take.
    pub max_status_line_len: Option<usize>,
    /// How often the request follows a redirect.
    pub max_redirects: usize,
    /// The proxy to tunnel through.
    pub proxy: Option<Proxy>,
}

impl Request {
    /// Whether the request is as its builder starts: for `url`, with no
    /// parameters, no headers, no body, no timeout, no limits, no proxy, and the
    /// default number of redirects.
    pub open spec fn is_fresh(&self, url: Seq<u8>) -> bool {
        &&& self.url@ == url
        &&& self.params@ == Seq::<u8>::empty()
        &&& self.headers@ == Entries::empty()
        &&& self.headers.wf()
        &&& self.body is None
        &&& self.timeout is None
        &&& self.max_headers_size is None
        &&& self.max_status_line_len is None
        &&& self.max_redirects == DEFAULT_MAX_REDIRECTS
        &&& self.proxy is None
    }

    /// A request for `url` with the given method: no headers, no body, no timeout,
    /// no limits, and the default number of redirects.
    pub fn new(method: Method, url: &str) -> (r: Request)
        ensures
            r.method == method,
            r.is_fresh(url.spec_bytes()),
    {
        Request {
            method,
            url: copy_bytes(url.as_bytes()),
            params: Vec::new(),
            headers: Headers::new(),
            body: None,
            timeout: None,
            max_headers_size: None,
            max_status_line_len: None,
            max_redirects: DEFAULT_MAX_REDIRECTS,
            proxy: None,
        }
    }

    /// Sets a header. A header of that name, in whatever case, is overwritten.
    pub fn with_header(self, key: &str, value: &str) -> (r: Request)
        ensures
            r.headers@ == inserted(self.headers@, key.spec_bytes(), value.spec_bytes()),
            self.headers.wf() ==> r.headers.wf(),
            r == (Request { headers: r.headers, ..self }),
    {
        let mut request = self;
        request.headers.insert(copy_bytes(key.as_bytes()), copy_bytes(value.as_bytes()));
        request
    }

    /// Sets the body.
    pub fn with_body(self, body: Vec<u8>) -> (r: Request)
        ensures
            r == (Request { body: Some(body), ..self }),
    {
        let mut request = self;
        request.body = Some(body);
        request
    }

    /// The parameters after `key=value` has been added to them.
    pub open spec fn params_with(params: Seq<u8>, key: Seq<u8>, value: Seq<u8>) -> Seq<u8> {
        if params.len() == 0 {
            key + seq![EQUALS] + value
        } else {
            params + seq![AMPERSAND] + key + seq![EQUALS] + value
        }
    }

    /// Adds `key=value` to the query of the URL. Key and value are written as they
    /// stand.
    pub fn with_param(self, key: &str, value: &str) -> (r: Request)
        ensures
            r.params@ == Self::params_with(self.params@, key.spec_bytes(), value.spec_bytes()),
            r == (Request { params: r.params, ..self }),
    {
        let mut request = self;
        if request.params.len() > 0 {
            request.params.push(AMPERSAND);
        }
        request.params.extend_from_slice(key.as_bytes());
        request.params.push(EQUALS);
        request.params.extend_from_slice(value.as_bytes());
        assert(request.params@ =~= Self::params_with(
            self.params@,
            key.spec_bytes(),
            value.spec_bytes(),
        ));
        request
    }

    /// Sets the time that the whole request may take, in seconds.
    pub fn with_timeout(self, timeout: u64) -> (r: Request)
        ensures
            r == (Request { timeout: Some(timeout), ..self }),
    {
        let mut request = self;
        request.timeout = Some(timeout);
        request
    }

    /// Sets how often the request follows a redirect.
    pub fn with_max_redirects(self, max_redirects: usize) -> (r: Request)
        ensures
            r == (Request { max_redirects, ..self }),
    {
        let mut request = self;
        request.max_redirects = max_redirects;
        request
    }

    /// Sets the most bytes that the response's headers may take.
    pub fn with_max_headers_size(self, max_headers_size: usize) -> (r: Request)
        ensures
            r == (Request { max_headers_size: Some(max_headers_size), ..self }),
    {
        let mut request = self;
        request.max_headers_size = Some(max_headers_size);
        request
    }

    /// Sets the most bytes that the response's status line may take.
    pub fn with_max_status_line_length(self, max_status_line_len: usize) -> (r: Request)
        ensures
            r == (Request { max_status_line_len: Some(max_status_line_len), ..self }),
    {
        let mut request = self;
        request.max_status_line_len = Some(max_status_line_len);
        request
    }

    /// Sets the proxy to tunnel through.
    pub fn with_proxy(self, proxy: Proxy) -> (r: Request)
        ensures
            r == (Request { proxy: Some(proxy), ..self }),
    {
        let mut request = self;
        request.proxy = Some(proxy);
        request
    }
}

/// A `GET` request for `url`.
pub fn get(url: &str) -> (r: Request)
    ensures
        r.method is Get,
        r.is_fresh(url.spec_bytes()),
{
    Request::new(Method::Get, url)
}

/// A `HEAD` request for `url`.
pub fn head(url: &str) -> (r: Request)
    ensures
        r.method is Head,
        r.is_fresh(url.spec_bytes()),
{
    Request::new(Method::Head, url)
}

/// A `POST` request for `url`.
pub fn post(url: &str) -> (r: Request)
    ensures
        r.method is Post,
        r.is_fresh(url.spec_bytes()),
{
    Request::new(Method::Post, url)
}

/// A `PUT` request for `url`.
pub fn put(url: &str) -> (r: Request)
    ensures
        r.method is Put,
        r.is_fresh(url.spec_bytes()),
{
    Request::new(Method::Put, url)
}

/// A `DELETE` request for `url`.
pub fn delete(url: &str) -> (r: Request)
    ensures
        r.method is Delete,
        r.is_fresh(url.spec_bytes()),
{
    Request::new(Method::Delete, url)
}

/// A `CONNECT` request for `url`.
pub fn connect(url: &str) -> (r: Request)
    ensures
        r.method is Connect,
        r.is_fresh(url.spec_bytes()),
{
    Request::new(Method::Connect, url)
}

/// An `OPTIONS` request for `url`.
pub fn options(url: &str) -> (r: Request)
    ensures
        r.method is Options,
        r.is_fresh(url.spec_bytes()),
{
    Request::new(Method::Options, url)
}

/// A `TRACE` request for `url`.
pub fn trace(url: &str) -> (r: Request)
    ensures
        r.method is Trace,
        r.is_fresh(url.spec_bytes()),
{
    Request::new(Method::Trace, url)
}

/// A `PATCH` request for `url`.
pub fn patch(url: &str) -> (r: Request)
    ensures
        r.method is Patch,
        r.is_fresh(url.spec_bytes()),
{
    Request::new(Method::Patch, url)
}

/// Whether a header of the given name is set.
pub open spec fn names(entries: Entries, name: Seq<u8>) -> bool {
    lookup(entries, name) is Some
}

/// The bytes of a body that may be absent.
pub open spec fn body_view(body: Option<Vec<u8>>) -> Option<Seq<u8>> {
    match body {
        Some(body) => Some(body@),
        None => None,
    }
}

/// The request line: method, path with query, and protocol version.
pub open spec fn request_line(method: Seq<u8>, url: Url) -> Seq<u8> {
    method + seq![SP] + url.path_and_query + " HTTP/1.1\r\n".spec_bytes()
}

/// Whether the URL names a port other than its scheme's own.
pub open spec fn names_other_port(url: Url) -> bool {
    url.port matches Port::Explicit(port) && port != (if url.https {
        443u16
    } else {
        80u16
    })
}

/// The `Host` header of a request: the host, and the port where the URL names
/// one other than its scheme's own.
pub open spec fn host_line(url: Url) -> Seq<u8> {
    "Host: ".spec_bytes() + url.host + (if names_other_port(url) {
        seq![COLON] + decimal(port_number(url) as nat)
    } else {
        Seq::<u8>::empty()
    }) + "\r\n".spec_bytes()
}

/// One header as it is written onto the wire.
pub open spec fn header_line(entry: (Seq<u8>, Seq<u8>)) -> Seq<u8> {
    entry.0 + seq![COLON, SP] + entry.1 + "\r\n".spec_bytes()
}

/// The first `upto` headers as they are written onto the wire, in their order.
pub open spec fn header_lines(entries: Entries, upto: int) -> Seq<u8>
    decreases upto,
{
    if upto <= 0 {
        Seq::<u8>::empty()
    } else {
        header_lines(entries, upto - 1) + header_line(entries[upto - 1])
    }
}

/// The length that a request announces for its body, unless its headers say
/// something of the body's length themselves: the length of the body, or zero
/// without one. A `HEAD` request announces none, nor does a `GET` request without
/// a body.
pub open spec fn length_due(method: Method, body: Option<Seq<u8>>) -> Option<nat> {
    if method is Head || (method is Get && body is None) {
        None
    } else {
        match body {
            Some(body) => Some(body.len()),
            None => Some(0),
        }
    }
}

/// The `Content-Length` header that the serializer adds, if it adds one.
pub open spec fn length_line(method: Method, entries: Entries, body: Option<Seq<u8>>) -> Seq<u8> {
    match length_due(method, body) {
        Some(length) => if names(entries, "content-length".spec_bytes()) || names(
            entries,
            "transfer-encoding".spec_bytes(),
        ) {
            Seq::<u8>::empty()
        } else {
            "Content-Length: ".spec_bytes() + decimal(length) + "\r\n".spec_bytes()
        },
        None => Seq::<u8>::empty(),
    }
}

/// The head of a request as it is written onto the wire.
///
/// The request line comes first; then `Host`, unless the request sets it; then
/// the request's headers in their order; then `Connection: close` and
/// `Content-Length`, unless the request sets them; then the empty line. The URL's
/// fragment and credentials are not written.
pub open spec fn head_spec(method: Method, url: Url, entries: Entries, body: Option<Seq<u8>>) -> Seq<
    u8,
> {
    request_line(method.text(), url) + (if names(entries, "host".spec_bytes()) {
        Seq::<u8>::empty()
    } else {
        host_line(url)
    }) + header_lines(entries, entries.len() as int) + (if names(
        entries,
        "connection".spec_bytes(),
    ) {
        Seq::<u8>::empty()
    } else {
        "Connection: close\r\n".spec_bytes()
    }) + length_line(method, entries, body) + "\r\n".spec_bytes()
}

/// A request as it is written onto the wire: the head, then the body.
pub open spec fn wire_spec(method: Method, url: Url, entries: Entries, body: Option<Seq<u8>>) -> Seq<
    u8,
> {
    head_spec(method, url, entries, body) + (match body {
        Some(body) => body,
        None => Seq::<u8>::empty(),
    })
}

/// The URL with parameters added to its query.
pub open spec fn url_with_params(url: Url, params: Seq<u8>) -> Url {
    if params.len() == 0 {
        url
    } else {
        Url {
            path_and_query: url.path_and_query + seq![
                if contains_byte(url.path_and_query, QUESTION) {
                    AMPERSAND
                } else {
                    QUESTION
                },
            ] + params,
            ..url
        }
    }
}

/// Whether a redirect to `target` would lead back to a URL that the request has
/// been to: the URL it stands at, or one it was redirected from.
pub open spec fn visited(redirects: Seq<HttpUrl>, current: Url, target: Url) -> bool {
    same_resource(current, target) || exists|i: int|
        0 <= i < redirects.len() && same_resource((#[trigger] redirects[i])@, target)
}

/// A request on its way: the URL that it stands at, the URLs that it was
/// redirected from, and what its builder said.
pub struct ParsedRequest {
    /// The URL that the request goes to next.
    pub url: HttpUrl,
    /// The URLs that the request was redirected from, oldest first.
    pub redirects: Vec<HttpUrl>,
    /// What the builder said.
    pub config: Request,
}

/// Whether no two of the URLs that a request has been to name the same resource:
/// the URL it stands at and those it was redirected from.
pub open spec fn never_twice(redirects: Seq<HttpUrl>, current: Url) -> bool {
    &&& forall|i: int|
        0 <= i < redirects.len() ==> !same_resource((#[trigger] redirects[i])@, current)
    &&& forall|i: int, j: int|
        0 <= i < j < redirects.len() ==> !same_resource(
            (#[trigger] redirects[i])@,
            (#[trigger] redirects[j])@,
        )
}

/// Appends the request line.
fn push_request_line(http: &mut Vec<u8>, method: &Method, url: &HttpUrl)
    ensures
        final(http)@ == old(http)@ + request_line(method.text(), url@),
{
    method.write_to(http);
    http.push(SP);
    http.extend_from_slice(url.path_and_query.as_slice());
    http.extend_from_slice(" HTTP/1.1\r\n".as_bytes());
    assert(http@ =~= old(http)@ + request_line(method.text(), url@));
}

/// Appends the `Host` header.
fn push_host_line(http: &mut Vec<u8>, url: &HttpUrl)
    ensures
        final(http)@ == old(http)@ + host_line(url@),
{
    http.extend_from_slice("Host: ".as_bytes());
    http.extend_from_slice(url.host.as_slice());
    let ghost before = http@;
    if let Port::Explicit(port) = url.port {
        let scheme_port: u16 = if url.https {
            443
        } else {
            80
        };
        if port != scheme_port {
            http.push(COLON);
            push_decimal(http, port as u64);
        }
    }
    assert(http@ =~= before + (if names_other_port(url@) {
        seq![COLON] + decimal(port_number(url@) as nat)
    } else {
        Seq::<u8>::empty()
    }));
    http.extend_from_slice("\r\n".as_bytes());
    assert(http@ =~= old(http)@ + host_line(url@));
}

/// Appends the headers, each on its line, in their order.
fn push_header_lines(http: &mut Vec<u8>, headers: &Headers)
    ensures
        final(http)@ == old(http)@ + header_lines(headers@, headers@.len() as int),
{
    let mut i: usize = 0;
    assert(http@ =~= old(http)@ + header_lines(headers@, 0));
    while i < headers.len()
        invariant
            0 <= i <= headers@.len(),
            http@ == old(http)@ + header_lines(headers@, i as int),
        decreases headers@.len() - i,
    {
        let ghost before = http@;
        http.extend_from_slice(headers.name_at(i).as_slice());
        http.push(COLON);
        http.push(SP);
        http.extend_from_slice(headers.value_at(i).as_slice());
        http.extend_from_slice("\r\n".as_bytes());
        assert(http@ =~= before + header_line(headers@[i as int]));
        assert(http@ =~= old(http)@ + header_lines(headers@, i + 1));
        i += 1;
    }
}

/// Appends the `Content-Length` header, where the serializer adds one.
fn push_length_line(
    http: &mut Vec<u8>,
    method: &Method,
    headers: &Headers,
    body: &Option<Vec<u8>>,
)
    ensures
        final(http)@ == old(http)@ + length_line(*method, headers@, body_view(*body)),
{
    let due: Option<usize> = if method.is_head() || (method.is_get() && body.is_none()) {
        None
    } else {
        match body {
            Some(body) => Some(body.len()),
            None => Some(0),
        }
    };
    if let Some(length) = due {
        if !headers.contains("content-length".as_bytes()) && !headers.contains(
            "transfer-encoding".as_bytes(),
        ) {
            http.extend_from_slice("Content-Length: ".as_bytes());
            push_decimal(http, length as u64);
            http.extend_from_slice("\r\n".as_bytes());
        }
    }
    assert(http@ =~= old(http)@ + length_line(*method, headers@, body_view(*body)));
}

impl ParsedRequest {
    /// The invariant of a request on its way: its URL is well-formed, it has been
    /// to no URL twice, and it has followed no more redirects than it allows.
    pub open spec fn wf(&self) -> bool {
        &&& self.url.wf()
        &&& never_twice(self.redirects@, self.url@)
        &&& self.redirects@.len() <= self.config.max_redirects
    }

    /// Parses the URL of a request and adds the parameters to its query.
    pub fn new(config: Request) -> (r: Result<ParsedRequest, Error>)
        ensures
            match parse_spec(config.url@, None) {
                Ok(url) => r matches Ok(parsed) && parsed.url@ == url_with_params(
                    url,
                    config.params@,
                ) && parsed.wf() && parsed.redirects@.len() == 0 && parsed.config == config,
                Err(e) => r matches Err(x) && x == e,
            },
    {
        let mut url = match HttpUrl::parse(config.url.as_slice(), None) {
            Ok(url) => url,
            Err(e) => {
                return Err(e);
            },
        };
        if config.params.len() > 0 {
            let ghost before = url@;
            let query = find_byte(url.path_and_query.as_slice(), QUESTION, 0);
            if query < url.path_and_query.len() {
                url.path_and_query.push(AMPERSAND);
            } else {
                url.path_and_query.push(QUESTION);
            }
            url.path_and_query.extend_from_slice(config.params.as_slice());
            assert(url.path_and_query@ =~= url_with_params(before, config.params@).path_and_query);
            assert(url.path_and_query@[0] == before.path_and_query[0]);
        }
        Ok(ParsedRequest { url, redirects: Vec::new(), config })
    }

    /// Whether the request needs a TLS layer for its next hop.
    pub fn https_required(&self) -> (r: bool)
        ensures
            r == self.url@.https,
    {
        self.url.https
    }

    /// The head of the request as it is written onto the wire.
    #[verifier::rlimit(40)]
    pub fn get_http_head(&self) -> (r: Vec<u8>)
        ensures
            r@ == head_spec(
                self.config.method,
                self.url@,
                self.config.headers@,
                body_view(self.config.body),
            ),
    {
        let headers = &self.config.headers;
        let mut http: Vec<u8> = Vec::new();
        push_request_line(&mut http, &self.config.method, &self.url);
        let ghost first = http@;
        if !headers.contains("host".as_bytes()) {
            push_host_line(&mut http, &self.url);
        }
        let ghost second = http@;
        push_header_lines(&mut http, headers);
        let ghost third = http@;
        if !headers.contains("connection".as_bytes()) {
            http.extend_from_slice("Connection: close\r\n".as_bytes());
        }
        let ghost fourth = http@;
        push_length_line(&mut http, &self.config.method, headers, &self.config.body);
        let ghost fifth = http@;
        http.extend_from_slice("\r\n".as_bytes());
        assert(first =~= request_line(self.config.method.text(), self.url@));
        assert(second == first + (if names(headers@, "host".spec_bytes()) {
            Seq::<u8>::empty()
        } else {
            host_line(self.url@)
        })) by {
            assert(first =~= first + Seq::<u8>::empty());
        }
        assert(fourth == third + (if names(headers@, "connection".spec_bytes()) {
            Seq::<u8>::empty()
        } else {
            "Connection: close\r\n".spec_bytes()
        })) by {
            assert(third =~= third + Seq::<u8>::empty());
        }
        http
    }

    /// The request as it is written onto the wire: the head, then the body.
    pub fn as_bytes(&self) -> (r: Vec<u8>)
        ensures
            r@ == wire_spec(
                self.config.method,
                self.url@,
                self.config.headers@,
                body_view(self.config.body),
            ),
    {
        let mut head = self.get_http_head();
        if let Some(body) = &self.config.body {
            head.extend_from_slice(body.as_slice());
        }
        assert(head@ =~= wire_spec(
            self.config.method,
            self.url@,
            self.config.headers@,
            body_view(self.config.body),
        ));
        head
    }

    /// Whether a redirect to `target` would lead back to a URL that the request
    /// has been to.
    pub fn has_visited(&self, target: &HttpUrl) -> (r: bool)
        ensures
            r == visited(self.redirects@, self.url@, target@),
    {
        if self.url.is_same_resource(target) {
            return true;
        }
        let mut i: usize = 0;
        while i < self.redirects.len()
            invariant
                0 <= i <= self.redirects@.len(),
                !same_resource(self.url@, target@),
                forall|j: int| 0 <= j < i ==> !same_resource((#[trigger] self.redirects@[j])@, target@),
            decreases self.redirects@.len() - i,
        {
            if self.redirects[i].is_same_resource(target) {
                return true;
            }
            i += 1;
        }
        false
    }

    /// Turns the request towards the target of a redirect.
    ///
    /// The request must have a redirect left to follow, the target must be a URL,
    /// and it must not be one that the request has been to. Then the request
    /// stands at the target, and the URL it stood at joins those it was
    /// redirected from. Otherwise the request stays as it is.
    #[verifier::rlimit(40)]
    pub fn redirect_to(&mut self, location: &[u8]) -> (r: Result<(), Error>)
        ensures
            final(self).config == old(self).config,
            old(self).url.wf() ==> final(self).url.wf(),
            old(self).wf() ==> final(self).wf(),
            r matches Err(_) ==> *final(self) == *old(self),
            if old(self).redirects@.len() >= old(self).config.max_redirects {
                r matches Err(x) && x == Error::TooManyRedirections
            } else {
                match resolve_spec(old(self).url@, location@) {
                    Err(e) => r matches Err(x) && x == e,
                    Ok(target) => if visited(old(self).redirects@, old(self).url@, target) {
                        r matches Err(x) && x == Error::InfiniteRedirectionLoop
                    } else {
                        r is Ok && final(self).url@ == target && final(self).redirects@.len()
                            == old(self).redirects@.len() + 1 && final(self).redirects@.last()
                            == old(self).url && final(self).redirects@.drop_last() == old(
                            self,
                        ).redirects@
                    },
                }
            },
    {
        if self.redirects.len() >= self.config.max_redirects {
            return Err(Error::TooManyRedirections);
        }
        let mut target = match self.url.resolve(location) {
            Ok(target) => target,
            Err(e) => {
                return Err(e);
            },
        };
        if self.has_visited(&target) {
            return Err(Error::InfiniteRedirectionLoop);
        }
        core::mem::swap(&mut self.url, &mut target);
        self.redirects.push(target);
        assert(self.redirects@.drop_last() =~= old(self).redirects@);
        proof {
            if old(self).wf() {
                let before = old(self).redirects@;
                let after = self.redirects@;
                assert forall|i: int| 0 <= i < after.len() implies !same_resource(
                    (#[trigger] after[i])@,
                    self.url@,
                ) by {
                    if i < before.len() {
                        assert(after[i] == before[i]);
                    }
                }
                assert forall|i: int, j: int| 0 <= i < j < after.len() implies !same_resource(
                    (#[trigger] after[i])@,
                    (#[trigger] after[j])@,
                ) by {
                    assert(after[i] == before[i]);
                    if j < before.len() {
                        assert(after[j] == before[j]);
                    }
                }
            }
        }
        Ok(())
    }
}

} // verus!
