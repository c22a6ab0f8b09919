//! Tunnelling through an HTTP proxy with `CONNECT`.

use crate::bytes::{copy_bytes, copy_range, find, find_byte, AT, COLON, EQUALS};
use crate::error::{Error, IoErrorKind};
use crate::http_url::{find_last, port_number, HttpUrl, Url};
use crate::numbers::{decimal, parse_u16, parse_unsigned, push_decimal};
use crate::response::{metadata_spec, read_metadata};
use crate::stream::HttpStream;
use vstd::prelude::*;
use vstd::slice::slice_subrange;
use vstd::string::StringSliceAdditionalSpecFns;

verus! {

/// The port of a proxy that names none.
pub const DEFAULT_PROXY_PORT: u16 = 8080;

/// The character that stands for a value of six bits.
pub open spec fn base64_char(v: int) -> u8 {
    if v < 26 {
        (0x41 + v) as u8
    } else if v < 52 {
        (0x61 + v - 26) as u8
    } else if v < 62 {
        (0x30 + v - 52) as u8
    } else if v == 62 {
        0x2b
    } else {
        0x2f
    }
}

/// The base64 form of `s`, in the standard alphabet and padded with `=`.
pub open spec fn base64(s: Seq<u8>) -> Seq<u8>
    decreases s.len(),
{
    if s.len() == 0 {
        Seq::<u8>::empty()
    } else if s.len() == 1 {
        seq![base64_char((s[0] / 4) as int), base64_char((s[0] % 4) * 16), EQUALS, EQUALS]
    } else if s.len() == 2 {
        seq![
            base64_char((s[0] / 4) as int),
            base64_char((s[0] % 4) * 16 + s[1] / 16),
            base64_char((s[1] % 16) * 4),
            EQUALS,
        ]
    } else {
        seq![
            base64_char((s[0] / 4) as int),
            base64_char((s[0] % 4) * 16 + s[1] / 16),
            base64_char((s[1] % 16) * 4 + s[2] / 64),
            base64_char((s[2] % 64) as int),
        ] + base64(s.skip(3))
    }
}

/// The character that stands for a value of six bits.
fn encode_sextet(v: u8) -> (r: u8)
    requires
        v < 64,
    ensures
        r == base64_char(v as int),
{
    if v < 26 {
        0x41 + v
    } else if v < 52 {
        0x61 + (v - 26)
    } else if v < 62 {
        0x30 + (v - 52)
    } else if v == 62 {
        0x2b
    } else {
        0x2f
    }
}

/// Appends the base64 form of `s`.
#[verifier::rlimit(40)]
pub fn push_base64(out: &mut Vec<u8>, s: &[u8])
    ensures
        final(out)@ == old(out)@ + base64(s@),
{
    let mut i: usize = 0;
    let len = s.len();
    assert(s@.skip(0) =~= s@);
    assert(out@ =~= old(out)@ + Seq::<u8>::empty());
    while len - i >= 3
        invariant
            0 <= i <= len,
            len == s@.len(),
            old(out)@ + base64(s@) == out@ + base64(s@.skip(i as int)),
        decreases len - i,
    {
        let ghost rest = s@.skip(i as int);
        let ghost before = out@;
        let a = s[i];
        let b = s[i + 1];
        let c = s[i + 2];
        out.push(encode_sextet(a / 4));
        out.push(encode_sextet((a % 4) * 16 + b / 16));
        out.push(encode_sextet((b % 16) * 4 + c / 64));
        out.push(encode_sextet(c % 64));
        proof {
            assert(rest.skip(3) =~= s@.skip(i + 3));
            assert(out@ =~= before + seq![
                base64_char((rest[0] / 4) as int),
                base64_char((rest[0] % 4) * 16 + rest[1] / 16),
                base64_char((rest[1] % 16) * 4 + rest[2] / 64),
                base64_char((rest[2] % 64) as int),
            ]);
            assert(out@ + base64(s@.skip(i + 3)) =~= before + base64(rest));
        }
        i += 3;
    }
    let ghost rest = s@.skip(i as int);
    let ghost before = out@;
    if len - i == 1 {
        let a = s[i];
        out.push(encode_sextet(a / 4));
        out.push(encode_sextet((a % 4) * 16));
        out.push(EQUALS);
        out.push(EQUALS);
        assert(out@ =~= before + base64(rest));
    } else if len - i == 2 {
        let a = s[i];
        let b = s[i + 1];
        out.push(encode_sextet(a / 4));
        out.push(encode_sextet((a % 4) * 16 + b / 16));
        out.push(encode_sextet((b % 16) * 4));
        out.push(EQUALS);
        assert(out@ =~= before + base64(rest));
    } else {
        assert(out@ =~= before + base64(rest));
    }
}

/// What a proxy is.
pub struct ProxyView {
    /// The proxy's host.
    pub host: Seq<u8>,
    /// The proxy's port.
    pub port: u16,
    /// The user name and password to give the proxy.
    pub credentials: Option<(Seq<u8>, Seq<u8>)>,
}

/// An HTTP proxy that tunnels connections opened with `CONNECT`.
pub struct Proxy {
    /// The proxy's host.
    pub host: Vec<u8>,
    /// The proxy's port.
    pub port: u16,
    /// The user name and password to give the proxy.
    pub credentials: Option<(Vec<u8>, Vec<u8>)>,
}

impl View for Proxy {
    type V = ProxyView;

    open spec fn view(&self) -> ProxyView {
        ProxyView {
            host: self.host@,
            port: self.port,
            credentials: match self.credentials {
                Some((user, password)) => Some((user@, password@)),
                None => None,
            },
        }
    }
}

/// The user name and password that stand before the last `@` of a proxy's address.
pub open spec fn proxy_credentials_spec(text: Seq<u8>) -> Option<(Seq<u8>, Seq<u8>)> {
    let at = find_last(text, AT, text.len() as int);
    if at < 0 {
        None
    } else {
        let userinfo = text.take(at);
        let colon = find(userinfo, COLON);
        if colon < userinfo.len() {
            Some((userinfo.take(colon), userinfo.skip(colon + 1)))
        } else {
            Some((userinfo, Seq::<u8>::empty()))
        }
    }
}

/// What parsing a proxy's address gives. The address is `host`, `host:port`,
/// `user:password@host` or `user:password@host:port`; a proxy without a port
/// listens on 8080.
pub open spec fn proxy_spec(text: Seq<u8>) -> Result<ProxyView, Error> {
    let at = find_last(text, AT, text.len() as int);
    let host_port = text.skip(at + 1);
    let colon = find(host_port, COLON);
    let host = host_port.take(colon);
    if host.len() == 0 {
        Err(Error::InvalidUrl)
    } else if colon < host_port.len() {
        match parse_unsigned(host_port.skip(colon + 1), 10, 0xffff) {
            Some(port) => Ok(
                ProxyView { host, port: port as u16, credentials: proxy_credentials_spec(text) },
            ),
            None => Err(Error::InvalidUrl),
        }
    } else {
        Ok(ProxyView { host, port: DEFAULT_PROXY_PORT, credentials: proxy_credentials_spec(text) })
    }
}

/// The host and port of a tunnel's far end, as a `CONNECT` request names them.
pub open spec fn target_spec(url: Url) -> Seq<u8> {
    url.host + seq![COLON] + decimal(port_number(url) as nat)
}

/// The header that gives the proxy its credentials; nothing without credentials.
pub open spec fn authorization_spec(credentials: Option<(Seq<u8>, Seq<u8>)>) -> Seq<u8> {
    match credentials {
        Some((user, password)) => "Proxy-Authorization: Basic ".spec_bytes() + base64(
            user + seq![COLON] + password,
        ) + "\r\n".spec_bytes(),
        None => Seq::<u8>::empty(),
    }
}

/// The request that asks a proxy for a tunnel to the host and port of `url`.
pub open spec fn connect_spec(proxy: ProxyView, url: Url) -> Seq<u8> {
    "CONNECT ".spec_bytes() + target_spec(url) + " HTTP/1.1\r\nHost: ".spec_bytes() + target_spec(
        url,
    ) + "\r\n".spec_bytes() + authorization_spec(proxy.credentials) + "\r\n".spec_bytes()
}

/// Whether a status code says that the proxy has opened the tunnel.
pub open spec fn tunnel_open(status_code: int) -> bool {
    200 <= status_code <= 299
}

/// Finds the last `@`.
fn find_last_at(text: &[u8]) -> (r: Option<usize>)
    ensures
        match r {
            Some(at) => at == find_last(text@, AT, text@.len() as int) && at < text.len(),
            None => find_last(text@, AT, text@.len() as int) == -1,
        },
{
    let mut upto: usize = text.len();
    while upto > 0
        invariant
            0 <= upto <= text.len(),
            find_last(text@, AT, text@.len() as int) == find_last(text@, AT, upto as int),
        decreases upto,
    {
        if text[upto - 1] == AT {
            return Some(upto - 1);
        }
        upto -= 1;
    }
    None
}

impl Proxy {
    /// Parses a proxy's address.
    #[verifier::rlimit(40)]
    pub fn new(proxy: &[u8]) -> (r: Result<Proxy, Error>)
        ensures
            match proxy_spec(proxy@) {
                Ok(parsed) => r matches Ok(p) && p@ == parsed,
                Err(e) => r matches Err(x) && x == e,
            },
    {
        let at = find_last_at(proxy);
        let (credentials, from): (Option<(Vec<u8>, Vec<u8>)>, usize) = match at {
            Some(at) => {
                let userinfo = slice_subrange(proxy, 0, at);
                let colon = find_byte(userinfo, COLON, 0);
                if colon < userinfo.len() {
                    (
                        Some(
                            (
                                copy_range(userinfo, 0, colon),
                                copy_range(userinfo, colon + 1, userinfo.len()),
                            ),
                        ),
                        at + 1,
                    )
                } else {
                    (Some((copy_bytes(userinfo), Vec::new())), at + 1)
                }
            },
            None => (None, 0),
        };
        let host_port = slice_subrange(proxy, from, proxy.len());
        let colon = find_byte(host_port, COLON, 0);
        let host = slice_subrange(host_port, 0, colon);
        if host.len() == 0 {
            return Err(Error::InvalidUrl);
        }
        let port = if colon < host_port.len() {
            match parse_u16(slice_subrange(host_port, colon + 1, host_port.len())) {
                Some(port) => port,
                None => {
                    return Err(Error::InvalidUrl);
                },
            }
        } else {
            DEFAULT_PROXY_PORT
        };
        Ok(Proxy { host: copy_bytes(host), port, credentials })
    }

    /// The request that asks the proxy for a tunnel to the host and port of `url`.
    #[verifier::rlimit(40)]
    pub fn connect(&self, url: &HttpUrl) -> (r: Vec<u8>)
        ensures
            r@ == connect_spec(self@, url@),
    {
        let mut target: Vec<u8> = Vec::new();
        target.extend_from_slice(url.host.as_slice());
        target.push(COLON);
        push_decimal(&mut target, url.port() as u64);
        assert(target@ =~= target_spec(url@));
        let mut out: Vec<u8> = Vec::new();
        out.extend_from_slice("CONNECT ".as_bytes());
        out.extend_from_slice(target.as_slice());
        out.extend_from_slice(" HTTP/1.1\r\nHost: ".as_bytes());
        out.extend_from_slice(target.as_slice());
        out.extend_from_slice("\r\n".as_bytes());
        let ghost before = out@;
        if let Some((user, password)) = &self.credentials {
            let mut plain: Vec<u8> = Vec::new();
            plain.extend_from_slice(user.as_slice());
            plain.push(COLON);
            plain.extend_from_slice(password.as_slice());
            assert(plain@ =~= user@ + seq![COLON] + password@);
            out.extend_from_slice("Proxy-Authorization: Basic ".as_bytes());
            push_base64(&mut out, plain.as_slice());
            out.extend_from_slice("\r\n".as_bytes());
            assert(out@ =~= before + authorization_spec(self@.credentials));
        }
        assert(out@ =~= before + authorization_spec(self@.credentials));
        out.extend_from_slice("\r\n".as_bytes());
        assert(out@ =~= connect_spec(self@, url@));
        out
    }

    /// Reads the proxy's answer to a `CONNECT` request: its status line and
    /// headers. With a status from 200 to 299 the tunnel is open and what is left
    /// in the stream comes from the far end; with any other the proxy has refused.
    pub fn verify_response(
        stream: &mut HttpStream,
        max_headers_size: Option<usize>,
        max_status_line_len: Option<usize>,
    ) -> (r: Result<(), Error>)
        ensures
            final(stream).end() == old(stream).end(),
            match metadata_spec(
                old(stream).rest(),
                old(stream).end(),
                max_headers_size,
                max_status_line_len,
            ) {
                Ok((metadata, tunnel)) => final(stream).rest() == tunnel && (if tunnel_open(
                    metadata.status_code,
                ) {
                    r is Ok
                } else {
                    r matches Err(x) && x == Error::IoError(IoErrorKind::ConnectionRefused)
                }),
                Err(e) => r matches Err(x) && x == e && final(stream).rest() == old(
                    stream,
                ).rest(),
            },
    {
        let metadata = match read_metadata(stream, max_headers_size, max_status_line_len) {
            Ok(metadata) => metadata,
            Err(e) => {
                return Err(e);
            },
        };
        if 200 <= metadata.status_code && metadata.status_code <= 299 {
            Ok(())
        } else {
            Err(Error::IoError(IoErrorKind::ConnectionRefused))
        }
    }

    /// A copy of the proxy.
    pub fn duplicate(&self) -> (r: Proxy)
        ensures
            r@ == self@,
    {
        Proxy {
            host: copy_bytes(self.host.as_slice()),
            port: self.port,
            credentials: match &self.credentials {
                Some((user, password)) => Some(
                    (copy_bytes(user.as_slice()), copy_bytes(password.as_slice())),
                ),
                None => None,
            },
        }
    }
}

} // verus!
