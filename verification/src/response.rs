//! Responses: the status line and headers, the three ways a body is framed, and
//! the lazy and the eager form of a response.

use crate::bytes::{
    bytes_eq, copy_bytes, copy_range, find, find_byte, find_from, is_sorted_before,
    lemma_find_from, lowercase, sorts_before, to_lowercase, trim, trim_bytes, COLON, CR, LF,
    SEMICOLON, SP,
};
use crate::error::Error;
use crate::headers::{inserted, removed, Entries, Headers};
use crate::numbers::{decimal, parse_i32, parse_signed32, parse_unsigned, parse_usize, to_decimal};
use crate::stream::{HttpStream, StreamEnd};
use crate::utf8::is_utf8;
use vstd::prelude::*;
use vstd::slice::slice_subrange;
use vstd::string::StringSliceAdditionalSpecFns;
use vstd::utf8::valid_utf8;

verus! {

/// A line without the carriage return that may end it.
pub open spec fn strip_cr(raw: Seq<u8>) -> Seq<u8> {
    if raw.len() > 0 && raw.last() == CR {
        raw.drop_last()
    } else {
        raw
    }
}

/// What reading one line from `rest` gives: the line and the bytes after it, or
/// the error.
///
/// A line ends at the first line feed; a carriage return just before it is not part
/// of the line. A closed stream ends the last line without a line feed. With a limit
/// of `m`, a line fails with `overflow_error` as soon as an `m + 1`-th byte arrives
/// before the line has ended. A line that is not UTF-8 is refused.
pub open spec fn line_spec(
    rest: Seq<u8>,
    end: StreamEnd,
    max_len: Option<usize>,
    overflow_error: Error,
) -> Result<(Seq<u8>, Seq<u8>), Error> {
    let n = find(rest, LF);
    if max_len matches Some(m) && m < rest.len() && m <= n {
        Err(overflow_error)
    } else if n < rest.len() {
        let line = strip_cr(rest.take(n));
        if valid_utf8(line) {
            Ok((line, rest.skip(n + 1)))
        } else {
            Err(Error::InvalidUtf8InResponse)
        }
    } else {
        match end {
            StreamEnd::Eof => if valid_utf8(rest) {
                Ok((rest, Seq::<u8>::empty()))
            } else {
                Err(Error::InvalidUtf8InResponse)
            },
            StreamEnd::Failed(kind) => Err(Error::IoError(kind)),
        }
    }
}

/// A line that is not empty takes at least one byte from the input, and what is
/// left is a suffix of the input.
pub proof fn lemma_line_spec_consumes(
    rest: Seq<u8>,
    end: StreamEnd,
    max_len: Option<usize>,
    overflow_error: Error,
)
    ensures
        line_spec(rest, end, max_len, overflow_error) matches Ok((line, after)) ==> {
            &&& after.len() <= rest.len()
            &&& after == rest.skip(rest.len() - after.len())
            &&& line.len() > 0 ==> after.len() < rest.len()
            &&& line.len() <= rest.len() - after.len()
            &&& valid_utf8(line)
        },
{
    lemma_find_from(rest, LF, 0);
    let n = find(rest, LF);
    if n >= rest.len() {
        assert(rest.skip(rest.len() as int) =~= Seq::<u8>::empty());
    }
}

/// Reads one line from the front of `input`, which is followed by `end`. Returns
/// the line and the number of bytes it took.
pub fn scan_line(input: &[u8], end: StreamEnd, max_len: Option<usize>, overflow_error: Error) -> (r:
    Result<(Vec<u8>, usize), Error>)
    ensures
        match line_spec(input@, end, max_len, overflow_error) {
            Ok((line, after)) => r matches Ok((v, k)) && v@ == line && k <= input@.len()
                && input@.skip(k as int) == after,
            Err(e) => r matches Err(x) && x == e,
        },
{
    let n = find_byte(input, LF, 0);
    if let Some(m) = max_len {
        if m < input.len() && m <= n {
            return Err(overflow_error);
        }
    }
    if n < input.len() {
        let hi: usize = if n > 0 && input[n - 1] == CR {
            n - 1
        } else {
            n
        };
        let line = slice_subrange(input, 0, hi);
        assert(line@ =~= strip_cr(input@.take(n as int)));
        if !is_utf8(line) {
            return Err(Error::InvalidUtf8InResponse);
        }
        Ok((copy_bytes(line), n + 1))
    } else {
        match end {
            StreamEnd::Eof => {
                if !is_utf8(input) {
                    return Err(Error::InvalidUtf8InResponse);
                }
                assert(input@.skip(n as int) =~= Seq::<u8>::empty());
                Ok((copy_bytes(input), n))
            },
            StreamEnd::Failed(kind) => Err(Error::IoError(kind)),
        }
    }
}

/// Reads one line from the stream. On an error nothing is read.
pub fn read_line(stream: &mut HttpStream, max_len: Option<usize>, overflow_error: Error) -> (r:
    Result<Vec<u8>, Error>)
    ensures
        final(stream).end() == old(stream).end(),
        match line_spec(old(stream).rest(), old(stream).end(), max_len, overflow_error) {
            Ok((line, after)) => r matches Ok(v) && v@ == line && final(stream).rest() == after,
            Err(e) => r matches Err(x) && x == e && final(stream).rest() == old(stream).rest(),
        },
{
    let scanned = scan_line(stream.remaining(), stream.ending(), max_len, overflow_error);
    match scanned {
        Ok((line, taken)) => {
            stream.advance(taken);
            Ok(line)
        },
        Err(e) => Err(e),
    }
}

/// The reason phrase that stands in for a status line without a status code.
pub open spec fn missing_status_line() -> Seq<u8> {
    "Server did not provide a status line".spec_bytes()
}

/// The status code and reason phrase of a status line.
///
/// The code stands between the first and the second space, the reason phrase is
/// all that follows the second space. Where the code is not a number, the status
/// is 503 with a reason phrase that says so.
pub open spec fn status_line_spec(line: Seq<u8>) -> (int, Seq<u8>) {
    let first = find(line, SP);
    let second = find_from(line, SP, first + 1);
    let code = if first < line.len() {
        line.subrange(first + 1, second)
    } else {
        Seq::<u8>::empty()
    };
    let reason = if second < line.len() {
        line.skip(second + 1)
    } else {
        Seq::<u8>::empty()
    };
    match parse_signed32(code) {
        Some(status) => (status, reason),
        None => (503, missing_status_line()),
    }
}

/// Splits a status line into status code and reason phrase.
pub fn parse_status_line(line: &[u8]) -> (r: (i32, Vec<u8>))
    ensures
        r.0 == status_line_spec(line@).0,
        r.1@ == status_line_spec(line@).1,
{
    let first = find_byte(line, SP, 0);
    let len = line.len();
    let mut second: usize = len;
    if first < len {
        second = find_byte(line, SP, first + 1);
    }
    let code: &[u8] = if first < len {
        slice_subrange(line, first + 1, second)
    } else {
        slice_subrange(line, len, len)
    };
    assert(code@ =~= if first < len {
        line@.subrange(first + 1, second as int)
    } else {
        Seq::<u8>::empty()
    });
    match parse_i32(code) {
        Some(status) => {
            let reason = if second < len {
                copy_range(line, second + 1, len)
            } else {
                Vec::new()
            };
            assert(reason@ =~= if second < len {
                line@.skip(second + 1)
            } else {
                Seq::<u8>::empty()
            });
            (status, reason)
        },
        None => (503, copy_bytes("Server did not provide a status line".as_bytes())),
    }
}

/// The name and value of a header line, or `None` for a line without a colon.
///
/// The name is all that stands before the first colon, in lower case. The value is
/// all that follows it, without the one space that may come first.
pub open spec fn header_spec(line: Seq<u8>) -> Option<(Seq<u8>, Seq<u8>)> {
    let colon = find(line, COLON);
    if colon >= line.len() {
        None
    } else {
        let value = if colon + 1 < line.len() && line[colon + 1] == SP {
            line.skip(colon + 2)
        } else {
            line.skip(colon + 1)
        };
        Some((lowercase(line.take(colon)), value))
    }
}

/// Splits a header line into name and value.
pub fn parse_header(line: &[u8]) -> (r: Option<(Vec<u8>, Vec<u8>)>)
    ensures
        match header_spec(line@) {
            Some((name, value)) => r matches Some((n, v)) && n@ == name && v@ == value,
            None => r is None,
        },
{
    let colon = find_byte(line, COLON, 0);
    let len = line.len();
    if colon >= len {
        return None;
    }
    let from: usize = if colon + 1 < len && line[colon + 1] == SP {
        colon + 2
    } else {
        colon + 1
    };
    let name = to_lowercase(slice_subrange(line, 0, colon));
    let value = copy_range(line, from, len);
    Some((name, value))
}

/// How the body of a response is framed, and how far reading it has come.
#[derive(Clone, Copy, Debug, PartialEq, Eq, Structural)]
pub enum HttpStreamState {
    /// The body is all that arrives until the peer closes the connection.
    EndOnClose,
    /// The body has this many bytes left.
    ContentLength(usize),
    /// The body comes in chunks: whether more chunks are expected, how many bytes
    /// of the current chunk are left, and how many bytes all chunks so far hold.
    Chunked(bool, usize, usize),
}

/// Whether a header says that the body comes in chunks.
pub open spec fn says_chunked(entry: (Seq<u8>, Seq<u8>)) -> bool {
    trim(lowercase(entry.0)) == "transfer-encoding".spec_bytes() && trim(lowercase(entry.1))
        == "chunked".spec_bytes()
}

/// Whether a header gives the length of the body.
pub open spec fn says_length(entry: (Seq<u8>, Seq<u8>)) -> bool {
    trim(lowercase(entry.0)) == "content-length".spec_bytes()
}

/// The length that a header gives, if its value is a number.
pub open spec fn length_value(entry: (Seq<u8>, Seq<u8>)) -> Option<nat> {
    parse_unsigned(trim(entry.1), 10, usize::MAX as nat)
}

/// Whether any header says that the body comes in chunks.
pub open spec fn any_chunked(entries: Entries) -> bool {
    exists|i: int| 0 <= i < entries.len() && says_chunked(#[trigger] entries[i])
}

/// Whether any header that gives the length of the body fails to be a number.
pub open spec fn any_malformed_length(entries: Entries) -> bool {
    exists|i: int|
        0 <= i < entries.len() && says_length(#[trigger] entries[i]) && length_value(entries[i])
            is None
}

/// Index of the header that gives the length of the body among the first `upto`
/// headers, or `-1` if none does. Where several do, it is the one whose name
/// sorts last.
pub open spec fn length_entry(entries: Entries, upto: int) -> int
    decreases upto,
{
    if upto <= 0 {
        -1
    } else {
        let best = length_entry(entries, upto - 1);
        if says_length(entries[upto - 1]) && (best < 0 || !sorts_before(
            entries[upto - 1].0,
            entries[best].0,
        )) {
            upto - 1
        } else {
            best
        }
    }
}

/// The length of the body that the first `upto` headers give.
pub open spec fn last_length(entries: Entries, upto: int) -> Option<nat> {
    let index = length_entry(entries, upto);
    if index < 0 {
        None
    } else {
        length_value(entries[index])
    }
}

/// The framing that the headers announce. Chunked transfer goes before a length;
/// a length that is not a number is an error; with neither, the body ends with
/// the connection.
pub open spec fn framing_spec(entries: Entries) -> Result<HttpStreamState, Error> {
    if any_chunked(entries) {
        Ok(HttpStreamState::Chunked(true, 0, 0))
    } else if any_malformed_length(entries) {
        Err(Error::MalformedContentLength)
    } else {
        match last_length(entries, entries.len() as int) {
            Some(n) => Ok(HttpStreamState::ContentLength(n as usize)),
            None => Ok(HttpStreamState::EndOnClose),
        }
    }
}

/// Decides from the headers how the body is framed.
///
/// Names and values are compared as ASCII text: upper-case letters `A` to `Z`
/// count as their lower-case forms, and the white space that is trimmed is tab,
/// line feed, vertical tab, form feed, carriage return and space. No other byte
/// is folded or trimmed, so white space and letters beyond ASCII are part of the
/// name or value they stand in. Where several headers give a length, which can
/// be only where their names differ in white space, the one whose name sorts last
/// counts, as in a mapping that is kept sorted by name.
#[verifier::rlimit(40)]
pub fn classify_framing(headers: &Headers) -> (r: Result<HttpStreamState, Error>)
    ensures
        match framing_spec(headers@) {
            Ok(state) => r matches Ok(x) && x == state,
            Err(e) => r matches Err(x) && x == e,
        },
{
    let mut chunked = false;
    let mut malformed = false;
    let mut best: Option<usize> = None;
    let mut content_length: Option<usize> = None;
    let mut i: usize = 0;
    while i < headers.len()
        invariant
            0 <= i <= headers@.len(),
            chunked == (exists|j: int| 0 <= j < i && says_chunked(#[trigger] headers@[j])),
            malformed == (exists|j: int|
                0 <= j < i && says_length(#[trigger] headers@[j]) && length_value(headers@[j])
                    is None),
            match best {
                Some(index) => index < i && index == length_entry(headers@, i as int),
                None => length_entry(headers@, i as int) == -1,
            },
            !malformed ==> match last_length(headers@, i as int) {
                Some(n) => content_length == Some(n as usize),
                None => content_length is None,
            },
        decreases headers@.len() - i,
    {
        let name = to_lowercase(headers.name_at(i).as_slice());
        let ghost entry = headers@[i as int];
        if bytes_eq(trim_bytes(name.as_slice()), "transfer-encoding".as_bytes()) {
            let value = to_lowercase(headers.value_at(i).as_slice());
            if bytes_eq(trim_bytes(value.as_slice()), "chunked".as_bytes()) {
                assert(says_chunked(entry));
                chunked = true;
            }
        }
        if bytes_eq(trim_bytes(name.as_slice()), "content-length".as_bytes()) {
            assert(says_length(entry));
            let counts = match best {
                Some(index) => !is_sorted_before(
                    headers.name_at(i).as_slice(),
                    headers.name_at(index).as_slice(),
                ),
                None => true,
            };
            match parse_usize(trim_bytes(headers.value_at(i).as_slice()), 10) {
                Some(length) => {
                    if counts {
                        content_length = Some(length);
                    }
                },
                None => {
                    malformed = true;
                },
            }
            if counts {
                best = Some(i);
            }
        }
        i += 1;
    }
    if chunked {
        Ok(HttpStreamState::Chunked(true, 0, 0))
    } else if malformed {
        Err(Error::MalformedContentLength)
    } else {
        match content_length {
            Some(length) => Ok(HttpStreamState::ContentLength(length)),
            None => Ok(HttpStreamState::EndOnClose),
        }
    }
}

/// What is left of a budget of header bytes once a line of `len` bytes is charged
/// to it: the line and the two bytes of its line break.
pub open spec fn charged(budget: Option<usize>, len: nat) -> Option<usize> {
    match budget {
        Some(b) => Some((b - len - 2) as usize),
        None => None,
    }
}

/// Whether a line of `len` bytes is more than the budget allows.
pub open spec fn exceeds(budget: Option<usize>, len: nat) -> bool {
    budget matches Some(b) && b < len + 2
}

/// The headers after a header line has been taken in: a line without a colon
/// changes nothing.
pub open spec fn with_line(entries: Entries, line: Seq<u8>) -> Entries {
    match header_spec(line) {
        Some((name, value)) => inserted(entries, name, value),
        None => entries,
    }
}

/// What reading a block of header lines from `rest` gives: the headers, what is
/// left of the budget, and the bytes after the block.
///
/// The block ends at the first empty line. Each line before it must fit into what
/// is left of the budget, and is charged to it.
pub open spec fn header_block_spec(
    rest: Seq<u8>,
    end: StreamEnd,
    budget: Option<usize>,
    entries: Entries,
) -> Result<(Entries, Option<usize>, Seq<u8>), Error>
    decreases rest.len(),
{
    match line_spec(rest, end, budget, Error::HeadersOverflow) {
        Err(e) => Err(e),
        Ok((line, after)) => {
            if line.len() == 0 {
                Ok((entries, budget, after))
            } else if exceeds(budget, line.len()) {
                Err(Error::HeadersOverflow)
            } else {
                proof {
                    lemma_line_spec_consumes(rest, end, budget, Error::HeadersOverflow);
                }
                header_block_spec(
                    after,
                    end,
                    charged(budget, line.len()),
                    with_line(entries, line),
                )
            }
        },
    }
}

/// What the head of a response says.
pub struct Metadata {
    /// The status code.
    pub status_code: int,
    /// The reason phrase.
    pub reason_phrase: Seq<u8>,
    /// The headers, their names in lower case.
    pub headers: Entries,
    /// How the body is framed.
    pub state: HttpStreamState,
    /// What is left of the budget of header bytes, for the trailers.
    pub max_trailing_headers_size: Option<usize>,
}

/// The head of a response, as `read_metadata` returns it.
pub struct ResponseMetadata {
    /// The status code.
    pub status_code: i32,
    /// The reason phrase.
    pub reason_phrase: Vec<u8>,
    /// The headers, their names in lower case.
    pub headers: Headers,
    /// How the body is framed.
    pub state: HttpStreamState,
    /// What is left of the budget of header bytes, for the trailers.
    pub max_trailing_headers_size: Option<usize>,
}

impl View for ResponseMetadata {
    type V = Metadata;

    open spec fn view(&self) -> Metadata {
        Metadata {
            status_code: self.status_code as int,
            reason_phrase: self.reason_phrase@,
            headers: self.headers@,
            state: self.state,
            max_trailing_headers_size: self.max_trailing_headers_size,
        }
    }
}

/// What reading the head of a response from `rest` gives: what the head says and
/// the bytes after it, which are the body.
pub open spec fn metadata_spec(
    rest: Seq<u8>,
    end: StreamEnd,
    max_headers_size: Option<usize>,
    max_status_line_len: Option<usize>,
) -> Result<(Metadata, Seq<u8>), Error> {
    match line_spec(rest, end, max_status_line_len, Error::StatusLineOverflow) {
        Err(e) => Err(e),
        Ok((line, after)) => match header_block_spec(
            after,
            end,
            max_headers_size,
            Entries::empty(),
        ) {
            Err(e) => Err(e),
            Ok((entries, budget, body)) => match framing_spec(entries) {
                Err(e) => Err(e),
                Ok(state) => Ok(
                    (
                        Metadata {
                            status_code: status_line_spec(line).0,
                            reason_phrase: status_line_spec(line).1,
                            headers: entries,
                            state,
                            max_trailing_headers_size: budget,
                        },
                        body,
                    ),
                ),
            },
        },
    }
}

/// Reads a block of header lines from the front of `input` into `headers`.
/// Returns what is left of the budget and the number of bytes that the block took.
pub fn scan_header_block(
    input: &[u8],
    end: StreamEnd,
    max_headers_size: Option<usize>,
    headers: &mut Headers,
) -> (r: Result<(Option<usize>, usize), Error>)
    ensures
        old(headers).wf() ==> final(headers).wf(),
        match header_block_spec(input@, end, max_headers_size, old(headers)@) {
            Ok((entries, budget, after)) => r matches Ok((b, k)) && final(headers)@ == entries && b
                == budget && k <= input@.len() && input@.skip(k as int) == after,
            Err(e) => r matches Err(x) && x == e,
        },
{
    let mut budget = max_headers_size;
    let mut off: usize = 0;
    let len = input.len();
    assert(input@.skip(0) =~= input@);
    loop
        invariant
            0 <= off <= len,
            len == input@.len(),
            old(headers).wf() ==> headers.wf(),
            header_block_spec(input@, end, max_headers_size, old(headers)@) == header_block_spec(
                input@.skip(off as int),
                end,
                budget,
                headers@,
            ),
        decreases len - off,
    {
        let sub = slice_subrange(input, off, len);
        proof {
            lemma_line_spec_consumes(sub@, end, budget, Error::HeadersOverflow);
        }
        let (line, taken) = match scan_line(sub, end, budget, Error::HeadersOverflow) {
            Ok(found) => found,
            Err(e) => {
                return Err(e);
            },
        };
        assert(input@.skip(off as int).skip(taken as int) =~= input@.skip(off + taken));
        if line.len() == 0 {
            return Ok((budget, off + taken));
        }
        if let Some(b) = budget {
            if b < 2 || b - 2 < line.len() {
                return Err(Error::HeadersOverflow);
            }
            budget = Some(b - 2 - line.len());
        }
        if let Some((name, value)) = parse_header(line.as_slice()) {
            headers.insert(name, value);
        }
        off = off + taken;
    }
}

/// Reads the head of a response: the status line, the headers up to the empty
/// line, and from them the framing of the body. On an error nothing is read.
pub fn read_metadata(
    stream: &mut HttpStream,
    max_headers_size: Option<usize>,
    max_status_line_len: Option<usize>,
) -> (r: Result<ResponseMetadata, Error>)
    ensures
        final(stream).end() == old(stream).end(),
        match metadata_spec(
            old(stream).rest(),
            old(stream).end(),
            max_headers_size,
            max_status_line_len,
        ) {
            Ok((metadata, body)) => r matches Ok(m) && m@ == metadata && m.headers.wf()
                && final(stream).rest() == body,
            Err(e) => r matches Err(x) && x == e && final(stream).rest() == old(stream).rest(),
        },
{
    let input = stream.remaining();
    let end = stream.ending();
    let (line, first) = match scan_line(input, end, max_status_line_len, Error::StatusLineOverflow) {
        Ok(found) => found,
        Err(e) => {
            return Err(e);
        },
    };
    let (status_code, reason_phrase) = parse_status_line(line.as_slice());
    let mut headers = Headers::new();
    let block = slice_subrange(input, first, input.len());
    let (budget, second) = match scan_header_block(block, end, max_headers_size, &mut headers) {
        Ok(found) => found,
        Err(e) => {
            return Err(e);
        },
    };
    let state = match classify_framing(&headers) {
        Ok(state) => state,
        Err(e) => {
            return Err(e);
        },
    };
    assert(input@.skip(first as int).skip(second as int) =~= input@.skip(first + second));
    stream.advance(first + second);
    Ok(
        ResponseMetadata {
            status_code,
            reason_phrase,
            headers,
            state,
            max_trailing_headers_size: budget,
        },
    )
}

/// The most that a length hint says is left, so that nobody reserves memory on a
/// server's word.
pub const MAX_CONTENT_LENGTH: usize = 16384;

/// The longest line that may give a chunk's size.
pub const MAX_CHUNK_SIZE_LINE: usize = 1024;

/// What reading one byte of a body gives: the byte with a hint of how many bytes
/// are expected from it on, an error, or `None` at the end of the body.
pub type Item = Option<Result<(u8, usize), Error>>;

/// The length hint that goes with a byte after which `left` bytes are expected:
/// the byte itself and what follows it, capped.
pub open spec fn hint(left: usize) -> usize {
    if left < MAX_CONTENT_LENGTH {
        (left + 1) as usize
    } else {
        (MAX_CONTENT_LENGTH + 1) as usize
    }
}

/// The length hint that goes with a byte after which `left` bytes are expected.
pub fn length_hint(left: usize) -> (r: usize)
    ensures
        r == hint(left),
        1 <= r <= MAX_CONTENT_LENGTH + 1,
{
    if left < MAX_CONTENT_LENGTH {
        left + 1
    } else {
        MAX_CONTENT_LENGTH + 1
    }
}

/// What a read at the end of the arrived bytes gives.
pub open spec fn at_end(end: StreamEnd) -> Item {
    match end {
        StreamEnd::Eof => None,
        StreamEnd::Failed(kind) => Some(Err(Error::IoError(kind))),
    }
}

/// One step of a body that ends with the connection: the item and the bytes left.
pub open spec fn until_closed_spec(rest: Seq<u8>, end: StreamEnd) -> (Item, Seq<u8>) {
    if rest.len() > 0 {
        (Some(Ok((rest[0], 1usize))), rest.skip(1))
    } else {
        (at_end(end), rest)
    }
}

/// Reads one byte of a body that ends with the connection.
pub fn read_until_closed(bytes: &mut HttpStream) -> (r: Item)
    ensures
        final(bytes).end() == old(bytes).end(),
        r == until_closed_spec(old(bytes).rest(), old(bytes).end()).0,
        final(bytes).rest() == until_closed_spec(old(bytes).rest(), old(bytes).end()).1,
{
    match bytes.next_byte() {
        Some(Ok(byte)) => Some(Ok((byte, 1))),
        Some(Err(kind)) => Some(Err(Error::IoError(kind))),
        None => None,
    }
}

/// One step of a body of known length: the item, the bytes left in the stream and
/// the length left. Only a byte that is handed out counts against the length.
pub open spec fn content_length_spec(rest: Seq<u8>, end: StreamEnd, left: usize) -> (
    Item,
    Seq<u8>,
    usize,
) {
    if left == 0 {
        (None, rest, left)
    } else if rest.len() > 0 {
        (Some(Ok((rest[0], hint((left - 1) as usize)))), rest.skip(1), (left - 1) as usize)
    } else {
        (at_end(end), rest, left)
    }
}

/// Reads one byte of a body of known length.
pub fn read_with_content_length(bytes: &mut HttpStream, content_length: &mut usize) -> (r: Item)
    ensures
        final(bytes).end() == old(bytes).end(),
        r == content_length_spec(old(bytes).rest(), old(bytes).end(), *old(content_length)).0,
        final(bytes).rest() == content_length_spec(
            old(bytes).rest(),
            old(bytes).end(),
            *old(content_length),
        ).1,
        *final(content_length) == content_length_spec(
            old(bytes).rest(),
            old(bytes).end(),
            *old(content_length),
        ).2,
{
    if *content_length > 0 {
        match bytes.next_byte() {
            Some(Ok(byte)) => {
                *content_length = *content_length - 1;
                Some(Ok((byte, length_hint(*content_length))))
            },
            Some(Err(kind)) => Some(Err(Error::IoError(kind))),
            None => None,
        }
    } else {
        None
    }
}

/// What reading the trailers of a chunked body from `rest` gives: the headers with
/// the trailers set in them, and the bytes after the trailers.
///
/// The trailers end at the first line that is not a header, which is taken too.
/// Each trailer must fit into what is left of the budget, and is charged to it.
pub open spec fn trailers_spec(
    rest: Seq<u8>,
    end: StreamEnd,
    budget: Option<usize>,
    entries: Entries,
) -> Result<(Entries, Seq<u8>), Error>
    decreases rest.len(),
{
    match line_spec(rest, end, budget, Error::HeadersOverflow) {
        Err(e) => Err(e),
        Ok((line, after)) => match header_spec(line) {
            None => Ok((entries, after)),
            Some((name, value)) => {
                if exceeds(budget, line.len()) {
                    Err(Error::HeadersOverflow)
                } else {
                    proof {
                        lemma_line_spec_consumes(rest, end, budget, Error::HeadersOverflow);
                        lemma_find_from(line, COLON, 0);
                    }
                    trailers_spec(
                        after,
                        end,
                        charged(budget, line.len()),
                        inserted(entries, name, value),
                    )
                }
            },
        },
    }
}

/// Reads the trailers of a chunked body from the front of `input` into `headers`.
/// Returns the number of bytes that they took.
pub fn scan_trailers(
    input: &[u8],
    end: StreamEnd,
    max_headers_size: Option<usize>,
    headers: &mut Headers,
) -> (r: Result<usize, Error>)
    ensures
        old(headers).wf() ==> final(headers).wf(),
        match trailers_spec(input@, end, max_headers_size, old(headers)@) {
            Ok((entries, after)) => r matches Ok(k) && final(headers)@ == entries && k
                <= input@.len() && input@.skip(k as int) == after,
            Err(e) => r matches Err(x) && x == e,
        },
{
    let mut budget = max_headers_size;
    let mut off: usize = 0;
    let len = input.len();
    assert(input@.skip(0) =~= input@);
    loop
        invariant
            0 <= off <= len,
            len == input@.len(),
            old(headers).wf() ==> headers.wf(),
            trailers_spec(input@, end, max_headers_size, old(headers)@) == trailers_spec(
                input@.skip(off as int),
                end,
                budget,
                headers@,
            ),
        decreases len - off,
    {
        let sub = slice_subrange(input, off, len);
        proof {
            lemma_line_spec_consumes(sub@, end, budget, Error::HeadersOverflow);
        }
        let (line, taken) = match scan_line(sub, end, budget, Error::HeadersOverflow) {
            Ok(found) => found,
            Err(e) => {
                return Err(e);
            },
        };
        assert(input@.skip(off as int).skip(taken as int) =~= input@.skip(off + taken));
        let (name, value) = match parse_header(line.as_slice()) {
            Some(header) => header,
            None => {
                return Ok(off + taken);
            },
        };
        proof {
            lemma_find_from(line@, COLON, 0);
        }
        if let Some(b) = budget {
            if b < 2 || b - 2 < line.len() {
                return Err(Error::HeadersOverflow);
            }
            budget = Some(b - 2 - line.len());
        }
        headers.insert(name, value);
        off = off + taken;
    }
}

/// Reads the trailers of a chunked body into `headers`. On an error nothing is
/// read and the headers stay as they are.
pub fn read_trailers(
    bytes: &mut HttpStream,
    headers: &mut Headers,
    max_headers_size: Option<usize>,
) -> (r: Result<(), Error>)
    ensures
        final(bytes).end() == old(bytes).end(),
        old(headers).wf() ==> final(headers).wf(),
        match trailers_spec(old(bytes).rest(), old(bytes).end(), max_headers_size, old(headers)@) {
            Ok((entries, after)) => r is Ok && final(headers)@ == entries && final(bytes).rest()
                == after,
            Err(e) => r matches Err(x) && x == e && final(headers)@ == old(headers)@
                && final(bytes).rest() == old(bytes).rest(),
        },
{
    let mut merged = headers.duplicate();
    let scanned = scan_trailers(bytes.remaining(), bytes.ending(), max_headers_size, &mut merged);
    match scanned {
        Ok(taken) => {
            bytes.advance(taken);
            *headers = merged;
            Ok(())
        },
        Err(e) => Err(e),
    }
}

/// The size that a chunk's size line gives. An empty line stands for zero; what
/// follows a semicolon is not read; the rest, trimmed, is a hexadecimal number.
pub open spec fn chunk_size_spec(line: Seq<u8>) -> Option<nat> {
    if line.len() == 0 {
        Some(0)
    } else {
        parse_unsigned(trim(line.take(find(line, SEMICOLON))), 16, usize::MAX as nat)
    }
}

/// Reads the size of a chunk from its size line.
pub fn parse_chunk_size(line: &[u8]) -> (r: Option<usize>)
    ensures
        match chunk_size_spec(line@) {
            Some(n) => r == Some(n as usize),
            None => r is None,
        },
{
    if line.len() == 0 {
        return Some(0);
    }
    let semicolon = find_byte(line, SEMICOLON, 0);
    parse_usize(trim_bytes(slice_subrange(line, 0, semicolon)), 16)
}

/// The headers of a chunked response once its body has been read to the end: the
/// length of the body is set, the transfer encoding is gone.
pub open spec fn finished_headers(entries: Entries, total: usize) -> Entries {
    removed(
        inserted(entries, "content-length".spec_bytes(), decimal(total as nat)),
        "transfer-encoding".spec_bytes(),
    )
}

/// Where the reading of a chunked body stands.
pub struct Chunking {
    /// The bytes left in the stream.
    pub rest: Seq<u8>,
    /// The headers of the response.
    pub headers: Entries,
    /// Whether more chunks are expected.
    pub expecting_more_chunks: bool,
    /// How many bytes of the current chunk are left.
    pub chunk_length: usize,
    /// How many bytes all chunks so far hold.
    pub content_length: usize,
}

/// What reading the end of a chunk from `rest` gives: the bytes after it, or the
/// error.
///
/// A chunk ends with exactly two bytes, carriage return and line feed. Any other
/// two bytes are malformed, and so is a stream that closes before both have come.
/// A transport that fails before both have come fails the reading.
pub open spec fn chunk_end_spec(rest: Seq<u8>, end: StreamEnd) -> Result<Seq<u8>, Error> {
    if rest.len() >= 2 {
        if rest[0] == CR && rest[1] == LF {
            Ok(rest.skip(2))
        } else {
            Err(Error::MalformedChunkEnd)
        }
    } else {
        match end {
            StreamEnd::Eof => Err(Error::MalformedChunkEnd),
            StreamEnd::Failed(kind) => Err(Error::IoError(kind)),
        }
    }
}

/// Reads the end of a chunk from the front of `input`, which is followed by `end`.
/// Returns the number of bytes that it took, which is two.
pub fn scan_chunk_end(input: &[u8], end: StreamEnd) -> (r: Result<usize, Error>)
    ensures
        match chunk_end_spec(input@, end) {
            Ok(after) => r matches Ok(k) && k == 2 && k <= input@.len() && input@.skip(k as int)
                == after,
            Err(e) => r matches Err(x) && x == e,
        },
{
    if input.len() >= 2 {
        if input[0] == CR && input[1] == LF {
            Ok(2)
        } else {
            Err(Error::MalformedChunkEnd)
        }
    } else {
        match end {
            StreamEnd::Eof => Err(Error::MalformedChunkEnd),
            StreamEnd::Failed(kind) => Err(Error::IoError(kind)),
        }
    }
}

/// One step inside a chunk of which `chunk_length` bytes are left, `rest` being
/// the bytes at the chunk's read position. After the chunk's last byte the two
/// bytes that end the chunk are read too, and the byte is handed out only if
/// they are a carriage return and a line feed. Where no byte can be handed out,
/// the reading stands where it stood before the step: at `before`.
pub open spec fn chunk_data_spec(
    rest: Seq<u8>,
    end: StreamEnd,
    chunk_length: usize,
    content_length: usize,
    before: Chunking,
) -> (Item, Chunking) {
    if rest.len() == 0 {
        (at_end(end), before)
    } else if chunk_length == 1 {
        match chunk_end_spec(rest.skip(1), end) {
            Err(e) => (Some(Err(e)), before),
            Ok(after) => (
                Some(Ok((rest[0], hint(0)))),
                Chunking {
                    rest: after,
                    headers: before.headers,
                    expecting_more_chunks: before.expecting_more_chunks,
                    chunk_length: 0,
                    content_length,
                },
            ),
        }
    } else {
        (
            Some(Ok((rest[0], hint((chunk_length - 1) as usize)))),
            Chunking {
                rest: rest.skip(1),
                headers: before.headers,
                expecting_more_chunks: before.expecting_more_chunks,
                chunk_length: (chunk_length - 1) as usize,
                content_length,
            },
        )
    }
}

/// One step of a chunked body: the item, and where the reading stands after it.
///
/// Between chunks the step reads the next chunk's size line. A size of zero ends
/// the body: the trailers are read into the headers, the length of the body is
/// set and the transfer encoding removed. Any other size opens a chunk, and the
/// step goes on to hand out its first byte. A step that hands out no byte and
/// does not end the body leaves everything as it was.
pub open spec fn chunked_spec(
    before: Chunking,
    end: StreamEnd,
    max_trailing_headers_size: Option<usize>,
) -> (Item, Chunking) {
    if before.chunk_length > 0 {
        chunk_data_spec(before.rest, end, before.chunk_length, before.content_length, before)
    } else if !before.expecting_more_chunks {
        (None, before)
    } else {
        match line_spec(before.rest, end, Some(MAX_CHUNK_SIZE_LINE), Error::MalformedChunkLength) {
            Err(e) => (Some(Err(e)), before),
            Ok((line, after)) => match chunk_size_spec(line) {
                None => (Some(Err(Error::MalformedChunkLength)), before),
                Some(size) => {
                    if size == 0 {
                        match trailers_spec(after, end, max_trailing_headers_size, before.headers) {
                            Err(e) => (Some(Err(e)), before),
                            Ok((merged, body_end)) => (
                                None,
                                Chunking {
                                    rest: body_end,
                                    headers: finished_headers(merged, before.content_length),
                                    expecting_more_chunks: false,
                                    chunk_length: 0,
                                    content_length: before.content_length,
                                },
                            ),
                        }
                    } else if before.content_length + size > usize::MAX {
                        (Some(Err(Error::MalformedChunkLength)), before)
                    } else {
                        chunk_data_spec(
                            after,
                            end,
                            size as usize,
                            (before.content_length + size) as usize,
                            before,
                        )
                    }
                },
            },
        }
    }
}

/// Reads one byte of a chunked body.
#[verifier::rlimit(40)]
pub fn read_chunked(
    bytes: &mut HttpStream,
    headers: &mut Headers,
    expecting_more_chunks: &mut bool,
    chunk_length: &mut usize,
    content_length: &mut usize,
    max_trailing_headers_size: Option<usize>,
) -> (r: Item)
    ensures
        final(bytes).end() == old(bytes).end(),
        old(headers).wf() ==> final(headers).wf(),
        ({
            let before = Chunking {
                rest: old(bytes).rest(),
                headers: old(headers)@,
                expecting_more_chunks: *old(expecting_more_chunks),
                chunk_length: *old(chunk_length),
                content_length: *old(content_length),
            };
            let step = chunked_spec(before, old(bytes).end(), max_trailing_headers_size);
            &&& r == step.0
            &&& final(bytes).rest() == step.1.rest
            &&& final(headers)@ == step.1.headers
            &&& *final(expecting_more_chunks) == step.1.expecting_more_chunks
            &&& *final(chunk_length) == step.1.chunk_length
            &&& *final(content_length) == step.1.content_length
        }),
{
    let input = bytes.remaining();
    let end = bytes.ending();
    let len = input.len();
    let mut off: usize = 0;
    let mut chunk: usize = *chunk_length;
    let mut total: usize = *content_length;
    assert(input@.skip(0) =~= input@);
    if chunk == 0 {
        if !*expecting_more_chunks {
            return None;
        }
        let (line, taken) = match scan_line(
            input,
            end,
            Some(MAX_CHUNK_SIZE_LINE),
            Error::MalformedChunkLength,
        ) {
            Ok(found) => found,
            Err(e) => {
                return Some(Err(e));
            },
        };
        let size = match parse_chunk_size(line.as_slice()) {
            Some(size) => size,
            None => {
                return Some(Err(Error::MalformedChunkLength));
            },
        };
        if size == 0 {
            let mut merged = headers.duplicate();
            let trailers = slice_subrange(input, taken, len);
            let more = match scan_trailers(trailers, end, max_trailing_headers_size, &mut merged) {
                Ok(more) => more,
                Err(e) => {
                    return Some(Err(e));
                },
            };
            merged.insert(copy_bytes("content-length".as_bytes()), to_decimal(total as u64));
            merged.remove("transfer-encoding".as_bytes());
            assert(input@.skip(taken as int).skip(more as int) =~= input@.skip(taken + more));
            bytes.advance(taken + more);
            *headers = merged;
            *expecting_more_chunks = false;
            return None;
        }
        if size > usize::MAX - total {
            return Some(Err(Error::MalformedChunkLength));
        }
        off = taken;
        chunk = size;
        total = total + size;
    }
    if off >= len {
        return match end {
            StreamEnd::Eof => None,
            StreamEnd::Failed(kind) => Some(Err(Error::IoError(kind))),
        };
    }
    let byte = input[off];
    assert(input@.skip(off as int)[0] == byte);
    assert(input@.skip(off as int).skip(1) =~= input@.skip(off + 1));
    let mut next: usize = off + 1;
    if chunk == 1 {
        let tail = slice_subrange(input, next, len);
        match scan_chunk_end(tail, end) {
            Ok(taken) => {
                assert(input@.skip(next as int).skip(taken as int) =~= input@.skip(next + taken));
                next = next + taken;
            },
            Err(e) => {
                return Some(Err(e));
            },
        }
    }
    bytes.advance(next);
    *chunk_length = chunk - 1;
    *content_length = total;
    Some(Ok((byte, length_hint(chunk - 1))))
}

/// What a lazily loaded response is: what its head said, and where the reading
/// of its body stands.
pub struct Lazy {
    /// The status code.
    pub status_code: int,
    /// The reason phrase.
    pub reason_phrase: Seq<u8>,
    /// The headers, their names in lower case.
    pub headers: Entries,
    /// The URL that the response came from.
    pub url: Seq<u8>,
    /// The bytes that have arrived and not been read.
    pub rest: Seq<u8>,
    /// What follows those bytes.
    pub end: StreamEnd,
    /// How the body is framed, and how far reading it has come.
    pub state: HttpStreamState,
    /// What is left of the budget of header bytes, for the trailers.
    pub max_trailing_headers_size: Option<usize>,
}

/// One step of reading a body: the item, and the response after it.
pub open spec fn step_spec(lazy: Lazy) -> (Item, Lazy) {
    match lazy.state {
        HttpStreamState::EndOnClose => {
            let step = until_closed_spec(lazy.rest, lazy.end);
            (step.0, Lazy { rest: step.1, ..lazy })
        },
        HttpStreamState::ContentLength(left) => {
            let step = content_length_spec(lazy.rest, lazy.end, left);
            (step.0, Lazy { rest: step.1, state: HttpStreamState::ContentLength(step.2), ..lazy })
        },
        HttpStreamState::Chunked(expecting_more_chunks, chunk_length, content_length) => {
            let step = chunked_spec(
                Chunking {
                    rest: lazy.rest,
                    headers: lazy.headers,
                    expecting_more_chunks,
                    chunk_length,
                    content_length,
                },
                lazy.end,
                lazy.max_trailing_headers_size,
            );
            (
                step.0,
                Lazy {
                    rest: step.1.rest,
                    headers: step.1.headers,
                    state: HttpStreamState::Chunked(
                        step.1.expecting_more_chunks,
                        step.1.chunk_length,
                        step.1.content_length,
                    ),
                    ..lazy
                },
            )
        },
    }
}

/// A step that hands out a byte takes at least that byte from the stream, and its
/// length hint is at least one and at most one more than the cap. A step that
/// hands out an error changes nothing.
#[verifier::rlimit(40)]
pub proof fn lemma_step(lazy: Lazy)
    ensures
        step_spec(lazy).0 matches Some(Ok((_, length))) ==> step_spec(lazy).1.rest.len()
            < lazy.rest.len() && 1 <= length <= MAX_CONTENT_LENGTH + 1,
        step_spec(lazy).0 matches Some(Err(_)) ==> step_spec(lazy).1 == lazy,
        step_spec(lazy).1.end == lazy.end,
        step_spec(lazy).1.status_code == lazy.status_code,
        step_spec(lazy).1.reason_phrase == lazy.reason_phrase,
        step_spec(lazy).1.url == lazy.url,
{
    match lazy.state {
        HttpStreamState::EndOnClose => {},
        HttpStreamState::ContentLength(_) => {},
        HttpStreamState::Chunked(_, chunk_length, _) => {
            lemma_line_spec_consumes(
                lazy.rest,
                lazy.end,
                Some(MAX_CHUNK_SIZE_LINE),
                Error::MalformedChunkLength,
            );
        },
    }
}

/// What reading a body to its end gives, `body` being the bytes read so far: the
/// whole body and the response after it, or the first error.
pub open spec fn drain_spec(lazy: Lazy, body: Seq<u8>) -> Result<(Seq<u8>, Lazy), Error>
    decreases lazy.rest.len(),
{
    match step_spec(lazy).0 {
        None => Ok((body, step_spec(lazy).1)),
        Some(Err(e)) => Err(e),
        Some(Ok((byte, _))) => {
            proof {
                lemma_step(lazy);
            }
            drain_spec(step_spec(lazy).1, body.push(byte))
        },
    }
}

/// Whether a response has no body to read: one to a `HEAD` request, and one with
/// status 204 or 304.
pub open spec fn skips_body(is_head: bool, status_code: int) -> bool {
    is_head || status_code == 204 || status_code == 304
}

/// The body of a response and the response after reading it. Where the response
/// has no body to read, nothing is read.
pub open spec fn body_spec(lazy: Lazy, is_head: bool) -> Result<(Seq<u8>, Lazy), Error> {
    if skips_body(is_head, lazy.status_code) {
        Ok((Seq::<u8>::empty(), lazy))
    } else {
        drain_spec(lazy, Seq::<u8>::empty())
    }
}

/// Where reading a body stops, `body` being the bytes read so far: at the end of
/// the body, or at the first error. With it come the bytes read until then and
/// the response as it stands then, from which reading can go on once the cause of
/// the error is gone.
pub open spec fn collect_spec(lazy: Lazy, body: Seq<u8>) -> (Option<Error>, Seq<u8>, Lazy)
    decreases lazy.rest.len(),
{
    match step_spec(lazy).0 {
        None => (None, body, step_spec(lazy).1),
        Some(Err(e)) => (Some(e), body, lazy),
        Some(Ok((byte, _))) => {
            proof {
                lemma_step(lazy);
            }
            collect_spec(step_spec(lazy).1, body.push(byte))
        },
    }
}

/// Reading a body to its end is reading it until it stops, where it stops at the
/// end.
pub proof fn lemma_collect_spec(lazy: Lazy, body: Seq<u8>)
    ensures
        drain_spec(lazy, body) == match collect_spec(lazy, body) {
            (None, read, after) => Ok::<(Seq<u8>, Lazy), Error>((read, after)),
            (Some(e), _, _) => Err::<(Seq<u8>, Lazy), Error>(e),
        },
    decreases lazy.rest.len(),
{
    lemma_step(lazy);
    if let Some(Ok((byte, _))) = step_spec(lazy).0 {
        lemma_collect_spec(step_spec(lazy).1, body.push(byte));
    }
}

/// Where filling a buffer of `capacity` bytes from a body stops, `filled` being
/// the bytes stored so far: when the buffer is full, at the end of the body, or at
/// the first error. With it come the bytes stored until then and the response as
/// it stands then.
pub open spec fn fill_spec(lazy: Lazy, filled: Seq<u8>, capacity: nat) -> (
    Option<Error>,
    Seq<u8>,
    Lazy,
)
    decreases lazy.rest.len(),
{
    if filled.len() >= capacity {
        (None, filled, lazy)
    } else {
        match step_spec(lazy).0 {
            None => (None, filled, step_spec(lazy).1),
            Some(Err(e)) => (Some(e), filled, lazy),
            Some(Ok((byte, _))) => {
                proof {
                    lemma_step(lazy);
                }
                fill_spec(step_spec(lazy).1, filled.push(byte), capacity)
            },
        }
    }
}

/// An HTTP response whose body is loaded as it is read.
///
/// Reading yields the body byte by byte. With each byte comes a hint of how many
/// bytes are expected from it on: for a chunked body, how many are left of the
/// current chunk. The hint never exceeds the cap by more than one.
pub struct ResponseLazy {
    /// The status code of the response, such as 404.
    pub status_code: i32,
    /// The reason phrase of the response, such as "Not Found".
    pub reason_phrase: Vec<u8>,
    /// The headers of the response, their names in lower case.
    pub headers: Headers,
    /// The URL of the resource that this response holds.
    pub url: Vec<u8>,
    /// The bytes of the body that have arrived and not been read.
    pub stream: HttpStream,
    /// How the body is framed, and how far reading it has come.
    pub state: HttpStreamState,
    /// What is left of the budget of header bytes, for the trailers.
    pub max_trailing_headers_size: Option<usize>,
}

impl View for ResponseLazy {
    type V = Lazy;

    open spec fn view(&self) -> Lazy {
        Lazy {
            status_code: self.status_code as int,
            reason_phrase: self.reason_phrase@,
            headers: self.headers@,
            url: self.url@,
            rest: self.stream.rest(),
            end: self.stream.end(),
            state: self.state,
            max_trailing_headers_size: self.max_trailing_headers_size,
        }
    }
}

impl ResponseLazy {
    /// Reads the head of a response from the stream. The body stays in the stream,
    /// and the URL is left empty.
    pub fn from_stream(
        stream: HttpStream,
        max_headers_size: Option<usize>,
        max_status_line_len: Option<usize>,
    ) -> (r: Result<ResponseLazy, Error>)
        ensures
            match metadata_spec(stream.rest(), stream.end(), max_headers_size, max_status_line_len) {
                Ok((metadata, body)) => r matches Ok(lazy) && lazy.headers.wf() && lazy@ == (Lazy {
                    status_code: metadata.status_code,
                    reason_phrase: metadata.reason_phrase,
                    headers: metadata.headers,
                    url: Seq::<u8>::empty(),
                    rest: body,
                    end: stream.end(),
                    state: metadata.state,
                    max_trailing_headers_size: metadata.max_trailing_headers_size,
                }),
                Err(e) => r matches Err(x) && x == e,
            },
    {
        let mut stream = stream;
        let metadata = match read_metadata(&mut stream, max_headers_size, max_status_line_len) {
            Ok(metadata) => metadata,
            Err(e) => {
                return Err(e);
            },
        };
        let ResponseMetadata {
            status_code,
            reason_phrase,
            headers,
            state,
            max_trailing_headers_size,
        } = metadata;
        Ok(
            ResponseLazy {
                status_code,
                reason_phrase,
                headers,
                url: Vec::new(),
                stream,
                state,
                max_trailing_headers_size,
            },
        )
    }

    /// Reads the next byte of the body.
    pub fn next(&mut self) -> (r: Item)
        ensures
            r == step_spec(old(self)@).0,
            final(self)@ == step_spec(old(self)@).1,
            old(self).headers.wf() ==> final(self).headers.wf(),
            r matches Some(Ok((_, length))) ==> 1 <= length <= MAX_CONTENT_LENGTH + 1,
    {
        proof {
            lemma_step(self@);
        }
        match self.state {
            HttpStreamState::EndOnClose => read_until_closed(&mut self.stream),
            HttpStreamState::ContentLength(length) => {
                let mut length = length;
                let item = read_with_content_length(&mut self.stream, &mut length);
                self.state = HttpStreamState::ContentLength(length);
                item
            },
            HttpStreamState::Chunked(expecting_chunks, length, content_length) => {
                let mut expecting_chunks = expecting_chunks;
                let mut length = length;
                let mut content_length = content_length;
                let item = read_chunked(
                    &mut self.stream,
                    &mut self.headers,
                    &mut expecting_chunks,
                    &mut length,
                    &mut content_length,
                    self.max_trailing_headers_size,
                );
                self.state = HttpStreamState::Chunked(expecting_chunks, length, content_length);
                item
            },
        }
    }

    /// Whether the response has no body to read: it answers a `HEAD` request, or
    /// its status is 204 or 304.
    pub fn expects_no_body(&self, is_head: bool) -> (r: bool)
        ensures
            r == skips_body(is_head, self@.status_code),
    {
        is_head || self.status_code == 204 || self.status_code == 304
    }

    /// Reads the body on into `body` until it ends or an error stops the reading.
    /// The bytes read until then are in `body` either way, and the response
    /// stands where the reading stopped: after a failure of the transport that has
    /// passed, a second call reads on.
    pub fn collect_into(&mut self, body: &mut Vec<u8>) -> (r: Result<(), Error>)
        ensures
            old(self).headers.wf() ==> final(self).headers.wf(),
            ({
                let stop = collect_spec(old(self)@, old(body)@);
                &&& final(body)@ == stop.1
                &&& final(self)@ == stop.2
                &&& match stop.0 {
                    None => r is Ok,
                    Some(e) => r matches Err(x) && x == e,
                }
            }),
    {
        loop
            invariant
                old(self).headers.wf() ==> self.headers.wf(),
                collect_spec(old(self)@, old(body)@) == collect_spec(self@, body@),
            decreases self@.rest.len(),
        {
            proof {
                lemma_step(self@);
            }
            match self.next() {
                None => {
                    return Ok(());
                },
                Some(Err(e)) => {
                    return Err(e);
                },
                Some(Ok((byte, length))) => {
                    body.reserve(length);
                    body.push(byte);
                },
            }
        }
    }

    /// Reads the body to its end, unless the response has none to read: the
    /// response to a `HEAD` request, and one with status 204 or 304, is left
    /// untouched whatever its headers say of a body. After an error the response
    /// stands where the reading stopped: at the step that failed.
    pub fn collect_body(&mut self, is_head: bool) -> (r: Result<Vec<u8>, Error>)
        ensures
            old(self).headers.wf() ==> final(self).headers.wf(),
            match body_spec(old(self)@, is_head) {
                Ok((body, after)) => r matches Ok(b) && b@ == body && final(self)@ == after,
                Err(e) => r matches Err(x) && x == e && final(self)@ == collect_spec(
                    old(self)@,
                    Seq::<u8>::empty(),
                ).2,
            },
            skips_body(is_head, old(self).status_code as int) ==> final(self)@ == old(self)@,
    {
        let mut body: Vec<u8> = Vec::new();
        if self.expects_no_body(is_head) {
            return Ok(body);
        }
        proof {
            lemma_collect_spec(self@, body@);
        }
        match self.collect_into(&mut body) {
            Ok(()) => Ok(body),
            Err(e) => Err(e),
        }
    }

    /// Reads bytes of the body into `buf` until it is full or the body ends, and
    /// returns how many were stored. An empty buffer reads nothing. After an error
    /// the bytes read until then are at the front of `buf`, and the response
    /// stands at the step that failed.
    pub fn read(&mut self, buf: &mut [u8]) -> (r: Result<usize, Error>)
        ensures
            old(self).headers.wf() ==> final(self).headers.wf(),
            final(buf)@.len() == old(buf)@.len(),
            ({
                let stop = fill_spec(old(self)@, Seq::<u8>::empty(), old(buf)@.len());
                &&& stop.1.len() <= final(buf)@.len()
                &&& final(buf)@.take(stop.1.len() as int) == stop.1
                &&& final(buf)@.skip(stop.1.len() as int) == old(buf)@.skip(stop.1.len() as int)
                &&& final(self)@ == stop.2
                &&& match stop.0 {
                    None => r matches Ok(n) && n == stop.1.len(),
                    Some(e) => r matches Err(x) && x == e,
                }
            }),
    {
        let mut index: usize = 0;
        let capacity = buf.len();
        assert(buf@.take(0) =~= Seq::<u8>::empty());
        while index < capacity
            invariant
                0 <= index <= capacity,
                capacity == buf@.len(),
                buf@.len() == old(buf)@.len(),
                old(self).headers.wf() ==> self.headers.wf(),
                buf@.skip(index as int) == old(buf)@.skip(index as int),
                fill_spec(old(self)@, Seq::<u8>::empty(), capacity as nat) == fill_spec(
                    self@,
                    buf@.take(index as int),
                    capacity as nat,
                ),
            decreases capacity - index,
        {
            let ghost filled = buf@.take(index as int);
            let ghost before = buf@;
            match self.next() {
                None => {
                    return Ok(index);
                },
                Some(Err(e)) => {
                    return Err(e);
                },
                Some(Ok((byte, _))) => {
                    buf[index] = byte;
                    assert(buf@.take(index + 1) =~= filled.push(byte));
                    assert(buf@.skip(index + 1) =~= before.skip(index + 1));
                    assert(before.skip(index + 1) =~= before.skip(index as int).skip(1));
                    assert(old(buf)@.skip(index + 1) =~= old(buf)@.skip(index as int).skip(1));
                    index += 1;
                },
            }
        }
        Ok(index)
    }

    /// Appends bytes that have arrived from the transport.
    pub fn feed(&mut self, bytes: &[u8])
        ensures
            final(self)@ == (Lazy { rest: old(self)@.rest + bytes@, ..old(self)@ }),
            final(self).headers.wf() == old(self).headers.wf(),
    {
        self.stream.feed(bytes);
    }

    /// Records how the transport ended.
    pub fn finish(&mut self, end: StreamEnd)
        ensures
            final(self)@ == (Lazy { end, ..old(self)@ }),
            final(self).headers.wf() == old(self).headers.wf(),
    {
        self.stream.finish(end);
    }
}

/// What a response is.
pub struct Answer {
    /// The status code.
    pub status_code: int,
    /// The reason phrase.
    pub reason_phrase: Seq<u8>,
    /// The headers, their names in lower case.
    pub headers: Entries,
    /// The URL that the response came from.
    pub url: Seq<u8>,
    /// The body.
    pub body: Seq<u8>,
}

/// An HTTP response with its whole body.
#[derive(Clone, Debug, PartialEq, Eq)]
pub struct Response {
    /// The status code of the response, such as 404.
    pub status_code: i32,
    /// The reason phrase of the response, such as "Not Found".
    pub reason_phrase: Vec<u8>,
    /// The headers of the response, their names in lower case.
    pub headers: Headers,
    /// The URL of the resource that this response holds. It differs from the URL
    /// of the request where the request was redirected or its URL was completed.
    pub url: Vec<u8>,
    /// The body of the response.
    pub body: Vec<u8>,
}

impl View for Response {
    type V = Answer;

    open spec fn view(&self) -> Answer {
        Answer {
            status_code: self.status_code as int,
            reason_phrase: self.reason_phrase@,
            headers: self.headers@,
            url: self.url@,
            body: self.body@,
        }
    }
}

impl Response {
    /// A response made of its parts.
    pub fn new(
        status_code: i32,
        reason_phrase: Vec<u8>,
        headers: Headers,
        url: Vec<u8>,
        body: Vec<u8>,
    ) -> (r: Response)
        ensures
            r@ == (Answer {
                status_code: status_code as int,
                reason_phrase: reason_phrase@,
                headers: headers@,
                url: url@,
                body: body@,
            }),
            r.headers.wf() == headers.wf(),
    {
        Response { status_code, reason_phrase, headers, url, body }
    }

    /// The response made of the head of a lazy response and a body.
    pub fn from_lazy(parent: ResponseLazy, body: Vec<u8>) -> (r: Response)
        ensures
            r@ == (Answer {
                status_code: parent@.status_code,
                reason_phrase: parent@.reason_phrase,
                headers: parent@.headers,
                url: parent@.url,
                body: body@,
            }),
            r.headers.wf() == parent.headers.wf(),
    {
        let ResponseLazy { status_code, reason_phrase, headers, url, .. } = parent;
        Response { status_code, reason_phrase, headers, url, body }
    }

    /// Loads the body of a lazy response. The status, the reason phrase and the
    /// URL are the lazy response's; the headers are its headers once the body has
    /// been read.
    pub fn create(parent: ResponseLazy, is_head: bool) -> (r: Result<Response, Error>)
        ensures
            match body_spec(parent@, is_head) {
                Ok((body, after)) => r matches Ok(response) && response@ == (Answer {
                    status_code: parent@.status_code,
                    reason_phrase: parent@.reason_phrase,
                    headers: after.headers,
                    url: parent@.url,
                    body,
                }) && (parent.headers.wf() ==> response.headers.wf()),
                Err(e) => r matches Err(x) && x == e,
            },
    {
        let mut parent = parent;
        proof {
            lemma_body_spec_keeps(parent@, is_head);
        }
        let body = match parent.collect_body(is_head) {
            Ok(body) => body,
            Err(e) => {
                return Err(e);
            },
        };
        Ok(Response::from_lazy(parent, body))
    }

    /// The body as text.
    pub fn as_str(&self) -> (r: Result<&str, Error>)
        ensures
            r is Ok <==> valid_utf8(self@.body),
            r matches Ok(text) ==> text.spec_bytes() == self@.body,
            r matches Err(e) ==> e is InvalidUtf8InBody,
    {
        match core::str::from_utf8(self.body.as_slice()) {
            Ok(text) => Ok(text),
            Err(err) => Err(Error::InvalidUtf8InBody(err)),
        }
    }

    /// The bytes of the body.
    pub fn as_bytes(&self) -> (r: &[u8])
        ensures
            r@ == self@.body,
    {
        self.body.as_slice()
    }

    /// Turns the response into the bytes of its body.
    pub fn into_bytes(self) -> (r: Vec<u8>)
        ensures
            r@ == self@.body,
    {
        self.body
    }
}

/// Reading a body leaves the status, the reason phrase and the URL as they are.
pub proof fn lemma_drain_spec_keeps(lazy: Lazy, body: Seq<u8>)
    ensures
        drain_spec(lazy, body) matches Ok((_, after)) ==> after.status_code == lazy.status_code
            && after.reason_phrase == lazy.reason_phrase && after.url == lazy.url && after.end
            == lazy.end,
    decreases lazy.rest.len(),
{
    lemma_step(lazy);
    if let Some(Ok((byte, _))) = step_spec(lazy).0 {
        lemma_drain_spec_keeps(step_spec(lazy).1, body.push(byte));
    }
}

/// Loading a body leaves the status, the reason phrase and the URL as they are.
pub proof fn lemma_body_spec_keeps(lazy: Lazy, is_head: bool)
    ensures
        body_spec(lazy, is_head) matches Ok((_, after)) ==> after.status_code == lazy.status_code
            && after.reason_phrase == lazy.reason_phrase && after.url == lazy.url && after.end
            == lazy.end,
{
    lemma_drain_spec_keeps(lazy, Seq::<u8>::empty());
}

} // verus!
