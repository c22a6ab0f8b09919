//! A minimal HTTP/1.1 client, as a protocol engine with machine-checked contracts.
//!
//! The engine does everything of an exchange but move bytes: it parses URLs,
//! writes requests, reads status lines and headers, decodes bodies that are
//! framed by length, by chunks or by the end of the connection, follows
//! redirects, and keeps the deadline. It never touches a socket. Whoever owns the
//! socket writes what [`request::ParsedRequest::as_bytes`] gives, hands what it
//! reads to a [`stream::HttpStream`], and asks [`connection::handle_redirects`]
//! what comes next.
//!
//! Text is held as bytes throughout: header names and values, URLs and reason
//! phrases are `Vec<u8>`, and the contracts speak of `Seq<u8>`.

pub mod arrival;
pub mod bytes;
pub mod connection;
pub mod error;
pub mod headers;
pub mod http_url;
pub mod laws;
pub mod numbers;
pub mod proxy;
pub mod request;
pub mod response;
pub mod stream;
pub mod url_laws;
pub mod utf8;
pub mod wasm;

pub use crate::error::{Error, IoErrorKind};
pub use crate::headers::Headers;
pub use crate::proxy::Proxy;
pub use crate::request::{
    connect, delete, get, head, options, patch, post, put, trace, Method, Request,
};
pub use crate::response::{Response, ResponseLazy};
