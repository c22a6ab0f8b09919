//! Everything that can go wrong with a request.

use vstd::prelude::*;

verus! {

/// `core::str::Utf8Error`, the error with which `core::str::from_utf8` refuses
/// bytes. It is carried through as it comes: nothing is claimed of what it holds.
#[verifier::external_type_specification]
#[verifier::external_body]
pub struct ExUtf8Error(core::str::Utf8Error);

/// The kind of a transport failure, as reported by whoever drives the socket.
#[derive(Clone, Copy, Debug, PartialEq, Eq, Structural)]
pub enum IoErrorKind {
    /// The deadline of the request passed before the operation finished.
    TimedOut,
    /// No bytes are available yet on a transport that does not block.
    WouldBlock,
    /// The peer refused the connection, or a proxy refused the tunnel.
    ConnectionRefused,
    /// The peer reset the connection.
    ConnectionReset,
    /// The connection was aborted.
    ConnectionAborted,
    /// The transport is not connected.
    NotConnected,
    /// The transport was closed for writing.
    BrokenPipe,
    /// The stream ended in the middle of a read that needed more bytes.
    UnexpectedEof,
    /// The data was not what the operation expected.
    InvalidData,
    /// The operation was interrupted.
    Interrupted,
    /// Any other failure.
    Other,
}

/// The outcomes of a request that are not a response.
#[derive(Debug)]
pub enum Error {
    /// The URL could not be parsed, or its scheme is neither `http` nor `https`.
    InvalidUrl,
    /// The URL asks for `https` and no TLS layer is available.
    HttpsFeatureNotEnabled,
    /// The host holds non-ASCII characters and no punycode encoder is available.
    PunycodeFeatureNotEnabled,
    /// The punycode encoder rejected a label of the host.
    PunycodeConversionFailed,
    /// The status line is longer than the request allows.
    StatusLineOverflow,
    /// The headers together are longer than the request allows.
    HeadersOverflow,
    /// The `Content-Length` header is not a non-negative number.
    MalformedContentLength,
    /// A chunk's size line is not hexadecimal, or is too long.
    MalformedChunkLength,
    /// A chunk's data is not followed by a line break.
    MalformedChunkEnd,
    /// A redirect came without a `Location` header.
    RedirectLocationMissing,
    /// A redirect led to a URL that this request has already visited.
    InfiniteRedirectionLoop,
    /// The request was redirected more often than it allows.
    TooManyRedirections,
    /// The status line or a header is not UTF-8.
    InvalidUtf8InResponse,
    /// The body was asked for as text and is not UTF-8.
    InvalidUtf8InBody(core::str::Utf8Error),
    /// The transport failed.
    IoError(IoErrorKind),
    /// A failure of the embedding, with its message.
    Other(&'static str),
}

} // verus!
