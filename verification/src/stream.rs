//! The receiving side of a connection, as the protocol engine sees it: the bytes
//! that have arrived and not been read yet, and what a read finds after them.
//!
//! The engine never touches a socket. Whoever owns the socket appends what it
//! receives with [`HttpStream::feed`] and records how the transport ended with
//! [`HttpStream::finish`]; a transport that has nothing to give right now is one
//! that ends in `Failed(WouldBlock)`.

use crate::error::IoErrorKind;
use vstd::prelude::*;
use vstd::slice::slice_subrange;

verus! {

/// What a read finds after the last byte that has arrived.
#[derive(Clone, Copy, Debug, PartialEq, Eq, Structural)]
pub enum StreamEnd {
    /// The peer closed the connection.
    Eof,
    /// The transport reported a failure.
    Failed(IoErrorKind),
}

/// The bytes of a response that have arrived, with a read position.
pub struct HttpStream {
    data: Vec<u8>,
    pos: usize,
    end: StreamEnd,
}

impl HttpStream {
    /// The bytes that have arrived and not been read.
    pub closed spec fn rest(&self) -> Seq<u8> {
        if self.pos <= self.data@.len() {
            self.data@.skip(self.pos as int)
        } else {
            Seq::empty()
        }
    }

    /// What follows those bytes.
    pub closed spec fn end(&self) -> StreamEnd {
        self.end
    }

    /// A stream that holds `data` and then ends in `end`.
    pub fn new(data: Vec<u8>, end: StreamEnd) -> (s: HttpStream)
        ensures
            s.rest() == data@,
            s.end() == end,
    {
        assert(data@.skip(0) =~= data@);
        HttpStream { data, pos: 0, end }
    }

    /// The bytes that have arrived and not been read.
    pub fn remaining(&self) -> (r: &[u8])
        ensures
            r@ == self.rest(),
    {
        let len = self.data.len();
        if self.pos <= len {
            slice_subrange(self.data.as_slice(), self.pos, len)
        } else {
            slice_subrange(self.data.as_slice(), len, len)
        }
    }

    /// What follows the bytes that have arrived.
    pub fn ending(&self) -> (e: StreamEnd)
        ensures
            e == self.end(),
    {
        self.end
    }

    /// Marks the first `n` unread bytes as read.
    pub fn advance(&mut self, n: usize)
        requires
            n <= old(self).rest().len(),
        ensures
            final(self).rest() == old(self).rest().skip(n as int),
            final(self).end() == old(self).end(),
    {
        if self.pos <= self.data.len() {
            assert(self.data@.skip(self.pos as int).skip(n as int) =~= self.data@.skip(
                self.pos + n,
            ));
            self.pos = self.pos + n;
        } else {
            assert(self.rest().skip(n as int) =~= self.rest());
        }
    }

    /// Reads one byte: `None` at the end of a closed stream, the failure at the end
    /// of a failed one. Only a byte that is handed out counts as read.
    pub fn next_byte(&mut self) -> (r: Option<Result<u8, IoErrorKind>>)
        ensures
            final(self).end() == old(self).end(),
            r == if old(self).rest().len() > 0 {
                Some(Ok::<u8, IoErrorKind>(old(self).rest()[0]))
            } else {
                match old(self).end() {
                    StreamEnd::Eof => None,
                    StreamEnd::Failed(kind) => Some(Err(kind)),
                }
            },
            final(self).rest() == if old(self).rest().len() > 0 {
                old(self).rest().skip(1)
            } else {
                old(self).rest()
            },
    {
        if self.pos < self.data.len() {
            let byte = self.data[self.pos];
            assert(self.data@.skip(self.pos as int).skip(1) =~= self.data@.skip(self.pos + 1));
            self.pos = self.pos + 1;
            Some(Ok(byte))
        } else {
            match self.end {
                StreamEnd::Eof => None,
                StreamEnd::Failed(kind) => Some(Err(kind)),
            }
        }
    }

    /// Appends bytes that have arrived.
    pub fn feed(&mut self, bytes: &[u8])
        ensures
            final(self).rest() == old(self).rest() + bytes@,
            final(self).end() == old(self).end(),
    {
        if self.pos > self.data.len() {
            self.pos = self.data.len();
            assert(self.data@.skip(self.pos as int) =~= Seq::<u8>::empty());
        }
        let ghost before = self.data@;
        self.data.extend_from_slice(bytes);
        assert(self.data@.skip(self.pos as int) =~= before.skip(self.pos as int) + bytes@);
    }

    /// Records what follows the bytes that have arrived.
    pub fn finish(&mut self, end: StreamEnd)
        ensures
            final(self).rest() == old(self).rest(),
            final(self).end() == end,
    {
        self.end = end;
    }
}

} // verus!
