//! The decisions of an exchange: where to connect, how long there is left, and
//! what to do with a response: follow its redirect, or hand it out.
//!
//! Whoever owns the socket carries the decisions out: it connects where
//! [`plan_connection`] says, writes what [`ParsedRequest::as_bytes`] gives, feeds
//! what it reads to the response, and asks [`handle_redirects`] what comes next.

use crate::bytes::copy_bytes;
use crate::error::{Error, IoErrorKind};
use crate::headers::{lookup, removed};
use crate::http_url::{full_url_spec, port_number, resolve_spec};
use crate::numbers::{parse_u64, parse_unsigned};
use crate::proxy::connect_spec;
use crate::request::{visited, Method, ParsedRequest, Request};
use crate::response::ResponseLazy;
use vstd::prelude::*;
use vstd::string::StringSliceAdditionalSpecFns;

verus! {

/// The time that a request may take, in seconds: what the request itself says,
/// else what the environment says, if that is a number; else there is no limit.
pub open spec fn timeout_spec(explicit: Option<u64>, environment: Option<Seq<u8>>) -> Option<u64> {
    match explicit {
        Some(seconds) => Some(seconds),
        None => match environment {
            Some(text) => match parse_unsigned(text, 10, u64::MAX as nat) {
                Some(seconds) => Some(seconds as u64),
                None => None,
            },
            None => None,
        },
    }
}

/// The time that a request may take, in seconds. `environment` is the value of the
/// environment's timeout variable, if it is set.
pub fn effective_timeout(explicit: Option<u64>, environment: Option<&[u8]>) -> (r: Option<u64>)
    ensures
        r == timeout_spec(
            explicit,
            match environment {
                Some(text) => Some(text@),
                None => None,
            },
        ),
{
    match explicit {
        Some(seconds) => Some(seconds),
        None => match environment {
            Some(text) => parse_u64(text),
            None => None,
        },
    }
}

/// The instant at which a request that starts at `start` runs out of time, both in
/// milliseconds. An instant too late to be written down is the latest that can be.
pub open spec fn deadline_spec(start: u64, timeout: Option<u64>) -> Option<u64> {
    match timeout {
        Some(seconds) => if start + seconds * 1000 <= u64::MAX {
            Some((start + seconds * 1000) as u64)
        } else {
            Some(u64::MAX)
        },
        None => None,
    }
}

/// The instant at which a request that starts at `start` runs out of time. It is
/// fixed once, when the request starts: later connections and redirects share it.
pub fn deadline_at(start: u64, timeout: Option<u64>) -> (r: Option<u64>)
    ensures
        r == deadline_spec(start, timeout),
{
    match timeout {
        Some(seconds) => {
            if seconds > (u64::MAX - start) / 1000 {
                Some(u64::MAX)
            } else {
                Some(start + seconds * 1000)
            }
        },
        None => None,
    }
}

/// The milliseconds left at `now` before `deadline`: for a connect, a read or a
/// write that starts then. Without a deadline there is no limit. At the deadline
/// and after it, the request has timed out.
pub fn time_left(deadline: Option<u64>, now: u64) -> (r: Result<Option<u64>, Error>)
    ensures
        match deadline {
            None => r matches Ok(None),
            Some(at) => if now < at {
                r matches Ok(Some(left)) && left == at - now
            } else {
                r matches Err(x) && x == Error::IoError(IoErrorKind::TimedOut)
            },
        },
{
    match deadline {
        None => Ok(None),
        Some(at) => {
            if now < at {
                Ok(Some(at - now))
            } else {
                Err(Error::IoError(IoErrorKind::TimedOut))
            }
        },
    }
}

/// However late an operation of a request starts, the time it is given ends at the
/// request's deadline: it is never more than the request's whole timeout.
pub proof fn law_time_left_is_bounded(start: u64, seconds: u64, now: u64)
    requires
        start <= now,
    ensures
        deadline_spec(start, Some(seconds)) matches Some(at) && (now < at ==> now + (at - now)
            == at && at - now <= seconds * 1000),
{
}

/// Where a connection for a request goes, and what is done on it before the
/// request is written.
pub struct ConnectPlan {
    /// The host to connect to.
    pub host: Vec<u8>,
    /// The port to connect to.
    pub port: u16,
    /// The request to send first, which asks a proxy for a tunnel.
    pub tunnel: Option<Vec<u8>>,
    /// Whether the connection, or the tunnel once it is open, is wrapped in TLS.
    pub tls: bool,
}

/// Decides where the connection for the request's next hop goes.
///
/// A URL of the scheme `https` needs a TLS layer. With a proxy, the connection
/// goes to the proxy and opens with a `CONNECT` request for the URL's host and
/// port; without one, it goes to the URL's host and port.
pub fn plan_connection(request: &ParsedRequest, tls_available: bool) -> (r: Result<
    ConnectPlan,
    Error,
>)
    ensures
        if request.url@.https && !tls_available {
            r matches Err(x) && x == Error::HttpsFeatureNotEnabled
        } else {
            r matches Ok(plan) && plan.tls == request.url@.https && match request.config.proxy {
                Some(proxy) => {
                    &&& plan.host@ == proxy@.host
                    &&& plan.port == proxy@.port
                    &&& plan.tunnel matches Some(tunnel)
                    &&& tunnel@ == connect_spec(proxy@, request.url@)
                },
                None => plan.host@ == request.url@.host && plan.port == port_number(request.url@)
                    && plan.tunnel is None,
            }
        },
{
    if request.url.https && !tls_available {
        return Err(Error::HttpsFeatureNotEnabled);
    }
    match &request.config.proxy {
        Some(proxy) => Ok(
            ConnectPlan {
                host: copy_bytes(proxy.host.as_slice()),
                port: proxy.port,
                tunnel: Some(proxy.connect(&request.url)),
                tls: request.url.https,
            },
        ),
        None => Ok(
            ConnectPlan {
                host: copy_bytes(request.url.host.as_slice()),
                port: request.url.port(),
                tunnel: None,
                tls: request.url.https,
            },
        ),
    }
}

/// Whether a status code redirects.
pub open spec fn is_redirect(status_code: int) -> bool {
    status_code == 301 || status_code == 302 || status_code == 303 || status_code == 307
        || status_code == 308
}

/// What comes after a response.
pub enum NextHop {
    /// The response redirects: this request is to be sent next.
    Redirect(ParsedRequest),
    /// The response is the one that the caller gets.
    Destination(ResponseLazy),
}

/// Decides what comes after a response.
///
/// A response redirects if its status is 301, 302, 303, 307 or 308 and the
/// request follows redirects at all. Then the request must have a redirect left,
/// the response must name a target in `Location`, and the target must be a URL
/// that the request has not been to; the request is turned towards it. After a
/// 303 the request becomes a `GET` without body, `Content-Length` and
/// `Content-Type`; after the others it keeps method and body.
///
/// Any other response is the destination: its URL is set to the URL that the
/// request stands at, fragment included.
#[verifier::rlimit(40)]
pub fn handle_redirects(request: ParsedRequest, response: ResponseLazy) -> (r: Result<NextHop, Error>)
    ensures
        if is_redirect(response@.status_code) && request.config.max_redirects > 0 {
            if request.redirects@.len() >= request.config.max_redirects {
                r matches Err(x) && x == Error::TooManyRedirections
            } else {
                match lookup(response@.headers, "location".spec_bytes()) {
                    None => r matches Err(x) && x == Error::RedirectLocationMissing,
                    Some(location) => match resolve_spec(request.url@, location) {
                        Err(e) => r matches Err(x) && x == e,
                        Ok(target) => if visited(request.redirects@, request.url@, target) {
                            r matches Err(x) && x == Error::InfiniteRedirectionLoop
                        } else {
                            &&& r matches Ok(NextHop::Redirect(next))
                            &&& request.wf() ==> next.wf()
                            &&& next.url@ == target
                            &&& next.redirects@.len() == request.redirects@.len() + 1
                            &&& next.redirects@.last() == request.url
                            &&& next.config.max_redirects == request.config.max_redirects
                            &&& if response@.status_code == 303 {
                                &&& next.config == (Request {
                                    method: Method::Get,
                                    body: None,
                                    headers: next.config.headers,
                                    ..request.config
                                })
                                &&& next.config.headers@ == removed(
                                    removed(
                                        request.config.headers@,
                                        "content-length".spec_bytes(),
                                    ),
                                    "content-type".spec_bytes(),
                                )
                            } else {
                                next.config == request.config
                            }
                        },
                    },
                }
            }
        } else {
            &&& r matches Ok(NextHop::Destination(destination))
            &&& destination@ == (crate::response::Lazy {
                url: full_url_spec(request.url@),
                ..response@
            })
            &&& destination.headers.wf() == response.headers.wf()
        },
{
    let mut request = request;
    let mut response = response;
    let status_code = response.status_code;
    let redirects = status_code == 301 || status_code == 302 || status_code == 303 || status_code
        == 307 || status_code == 308;
    if redirects && request.config.max_redirects > 0 {
        if request.redirects.len() >= request.config.max_redirects {
            return Err(Error::TooManyRedirections);
        }
        let location = match response.headers.get("location".as_bytes()) {
            Some(location) => location,
            None => {
                return Err(Error::RedirectLocationMissing);
            },
        };
        match request.redirect_to(location.as_slice()) {
            Ok(()) => {},
            Err(e) => {
                return Err(e);
            },
        }
        if status_code == 303 {
            request.config.method = Method::Get;
            request.config.body = None;
            request.config.headers.remove("content-length".as_bytes());
            request.config.headers.remove("content-type".as_bytes());
        }
        Ok(NextHop::Redirect(request))
    } else {
        response.url = request.url.to_bytes();
        Ok(NextHop::Destination(response))
    }
}

} // verus!
