//! What holds of the engine as a whole: laws that relate what a server sends to
//! what a caller gets, whatever the bytes are.

use crate::bytes::{
    contains_byte, lemma_find_from, lemma_find_from_is, lowercase, COLON, CR, LF, SP,
};
use crate::error::Error;
use crate::headers::{
    distinct_names, inserted, lemma_inserted, lemma_inserted_lookup, lemma_lookup_any_case,
    lemma_removed, lemma_removed_other, lookup, same_name, Entries,
};
use crate::numbers::{decimal, lemma_decimal_round_trip, parse_unsigned};
use crate::request::{head_spec, wire_spec, Method};
use crate::response::{
    body_spec, chunk_size_spec, drain_spec, finished_headers, framing_spec, header_block_spec,
    header_spec, line_spec, metadata_spec, skips_body, status_line_spec, step_spec, strip_cr,
    trailers_spec, with_line, HttpStreamState, Lazy, Metadata, MAX_CHUNK_SIZE_LINE,
};
use vstd::utf8::valid_utf8;
use crate::stream::StreamEnd;
use vstd::prelude::*;
use vstd::string::StringSliceAdditionalSpecFns;

verus! {

/// A header line as a server writes it: name, colon, space, value.
pub open spec fn header_line_of(name: Seq<u8>, value: Seq<u8>) -> Seq<u8> {
    name + seq![COLON, SP] + value
}

/// Header names are case-insensitive: however a server writes the name of a
/// header, the header is stored under the name in lower case, and is found under
/// the name in any case, with the value that the server gave.
pub proof fn law_header_names_ignore_case(
    entries: Entries,
    name: Seq<u8>,
    value: Seq<u8>,
    asked: Seq<u8>,
)
    requires
        !contains_byte(name, COLON),
        same_name(asked, name),
    ensures
        header_spec(header_line_of(name, value)) == Some((lowercase(name), value)),
        lookup(with_line(entries, header_line_of(name, value)), asked) == Some(value),
        lookup(with_line(entries, header_line_of(name, value)), lowercase(name)) == Some(value),
{
    let line = header_line_of(name, value);
    let n = name.len() as int;
    lemma_find_from(name, COLON, 0);
    assert forall|j: int| 0 <= j < name.len() implies line[j] != COLON by {
        assert(line[j] == name[j]);
    }
    assert(line[name.len() as int] == COLON);
    lemma_find_from_is(line, COLON, 0, name.len() as int);
    assert(line[n + 1] == SP);
    assert(line.take(name.len() as int) =~= name);
    assert(line.skip(n + 2) =~= value);
    let stored = lowercase(name);
    assert(lowercase(stored) =~= stored);
    lemma_inserted_lookup(entries, stored, value);
    lemma_lookup_any_case(inserted(entries, stored, value), stored, asked);
}

/// However a server writes the name of the `Content-Type` header, the header is
/// found under `content-type`, with the value that the server gave.
pub proof fn law_content_type_in_any_case(entries: Entries, name: Seq<u8>, value: Seq<u8>)
    requires
        lowercase(name) == "content-type".spec_bytes(),
    ensures
        lookup(with_line(entries, header_line_of(name, value)), "content-type".spec_bytes())
            == Some(value),
{
    let stored = "content-type".spec_bytes();
    reveal_strlit("content-type");
    vstd::utf8::is_ascii_chars_encode_utf8("content-type"@);
    lemma_find_from(name, COLON, 0);
    let colon = crate::bytes::find(name, COLON);
    if colon < name.len() {
        assert(lowercase(name)[colon] == COLON);
        assert(stored[colon] != COLON);
    }
    assert(lowercase(stored) =~= stored);
    law_header_names_ignore_case(entries, name, value, stored);
}

/// A response to a `HEAD` request, and one with status 204 or 304, has no body to
/// read: whatever its headers say of a body and whatever has arrived, the body is
/// empty and not one byte is taken from the stream.
pub proof fn law_no_body_is_read(lazy: Lazy, is_head: bool)
    requires
        skips_body(is_head, lazy.status_code),
    ensures
        body_spec(lazy, is_head) == Ok::<(Seq<u8>, Lazy), crate::error::Error>(
            (Seq::<u8>::empty(), lazy),
        ),
{
}

/// A request carries its body unchanged: the bytes written onto the wire end with
/// the bytes of the body.
pub proof fn law_request_ends_with_body(
    method: Method,
    url: crate::http_url::Url,
    entries: Entries,
    body: Seq<u8>,
)
    ensures
        wire_spec(method, url, entries, Some(body)) == head_spec(method, url, entries, Some(body))
            + body,
{
}

/// The fragment of a URL and its credentials are for the client alone: what is
/// written onto the wire does not depend on them.
pub proof fn law_fragment_is_not_sent(
    method: Method,
    url: crate::http_url::Url,
    other: crate::http_url::Url,
    entries: Entries,
    body: Option<Seq<u8>>,
)
    requires
        other == (crate::http_url::Url {
            fragment: other.fragment,
            credentials: other.credentials,
            ..url
        }),
    ensures
        wire_spec(method, url, entries, body) == wire_spec(method, other, entries, body),
{
}

/// Reading the rest of a body of known length, `read` being the bytes read so far.
proof fn lemma_drain_known_length(lazy: Lazy, body: Seq<u8>, extra: Seq<u8>, read: Seq<u8>)
    requires
        body.len() <= usize::MAX,
        lazy.state == HttpStreamState::ContentLength(body.len() as usize),
        lazy.rest == body + extra,
    ensures
        drain_spec(lazy, read) == Ok::<(Seq<u8>, Lazy), crate::error::Error>(
            (read + body, Lazy { rest: extra, state: HttpStreamState::ContentLength(0), ..lazy }),
        ),
    decreases body.len(),
{
    if body.len() == 0 {
        assert(lazy.rest =~= extra);
        assert(read + body =~= read);
    } else {
        let next = step_spec(lazy).1;
        assert(lazy.rest[0] == body[0]);
        assert(lazy.rest.skip(1) =~= body.skip(1) + extra);
        lemma_drain_known_length(next, body.skip(1), extra, read.push(body[0]));
        assert(read.push(body[0]) + body.skip(1) =~= read + body);
    }
}

/// A body of known length arrives byte for byte: where a response announces the
/// length of its body and the body has arrived, reading the body yields exactly
/// its bytes and leaves in the stream what came after them.
pub proof fn law_body_of_known_length(lazy: Lazy, body: Seq<u8>, extra: Seq<u8>)
    requires
        !skips_body(false, lazy.status_code),
        body.len() <= usize::MAX,
        lazy.state == HttpStreamState::ContentLength(body.len() as usize),
        lazy.rest == body + extra,
    ensures
        body_spec(lazy, false) == Ok::<(Seq<u8>, Lazy), crate::error::Error>(
            (body, Lazy { rest: extra, state: HttpStreamState::ContentLength(0), ..lazy }),
        ),
{
    lemma_drain_known_length(lazy, body, extra, Seq::<u8>::empty());
    assert(Seq::<u8>::empty() + body =~= body);
}

/// Reading the rest of a body that ends with the connection, `read` being the
/// bytes read so far.
proof fn lemma_drain_until_closed(lazy: Lazy, read: Seq<u8>)
    requires
        lazy.state == HttpStreamState::EndOnClose,
        lazy.end == StreamEnd::Eof,
    ensures
        drain_spec(lazy, read) == Ok::<(Seq<u8>, Lazy), crate::error::Error>(
            (read + lazy.rest, Lazy { rest: Seq::<u8>::empty(), ..lazy }),
        ),
    decreases lazy.rest.len(),
{
    if lazy.rest.len() == 0 {
        assert(lazy.rest =~= Seq::<u8>::empty());
        assert(read + lazy.rest =~= read);
    } else {
        let next = step_spec(lazy).1;
        lemma_drain_until_closed(next, read.push(lazy.rest[0]));
        assert(read.push(lazy.rest[0]) + lazy.rest.skip(1) =~= read + lazy.rest);
    }
}

/// A body that ends with the connection arrives byte for byte: reading it yields
/// all that the server sent before it closed the connection.
pub proof fn law_body_until_closed(lazy: Lazy)
    requires
        !skips_body(false, lazy.status_code),
        lazy.state == HttpStreamState::EndOnClose,
        lazy.end == StreamEnd::Eof,
    ensures
        body_spec(lazy, false) == Ok::<(Seq<u8>, Lazy), crate::error::Error>(
            (lazy.rest, Lazy { rest: Seq::<u8>::empty(), ..lazy }),
        ),
{
    lemma_drain_until_closed(lazy, Seq::<u8>::empty());
    assert(Seq::<u8>::empty() + lazy.rest =~= lazy.rest);
}

/// The names of the two headers that say how a body is framed are different names.
pub proof fn lemma_framing_names_differ()
    ensures
        !same_name("content-length".spec_bytes(), "transfer-encoding".spec_bytes()),
{
    reveal_strlit("content-length");
    reveal_strlit("transfer-encoding");
    vstd::utf8::is_ascii_chars_encode_utf8("content-length"@);
    vstd::utf8::is_ascii_chars_encode_utf8("transfer-encoding"@);
    assert(lowercase("content-length".spec_bytes()).len() == 14);
    assert(lowercase("transfer-encoding".spec_bytes()).len() == 17);
}

/// Once a chunked body has been read to its end, the headers give its length: the
/// `content-length` header is the decimal form of the number of bytes that the
/// chunks held, which reads back as that number; and `transfer-encoding` is gone.
pub proof fn law_finished_headers_give_length(entries: Entries, total: usize)
    requires
        distinct_names(entries),
    ensures
        lookup(finished_headers(entries, total), "content-length".spec_bytes()) == Some(
            decimal(total as nat),
        ),
        parse_unsigned(decimal(total as nat), 10, usize::MAX as nat) == Some(total as nat),
        lookup(finished_headers(entries, total), "transfer-encoding".spec_bytes()) is None,
        distinct_names(finished_headers(entries, total)),
{
    let length = "content-length".spec_bytes();
    let encoding = "transfer-encoding".spec_bytes();
    let set = inserted(entries, length, decimal(total as nat));
    lemma_framing_names_differ();
    lemma_inserted(entries, length, decimal(total as nat));
    lemma_removed(set, encoding);
    lemma_removed_other(set, encoding, length);
    lemma_decimal_round_trip(total as nat, usize::MAX as nat);
}

/// The line break of the wire: carriage return, line feed.
pub open spec fn line_break() -> Seq<u8> {
    seq![CR, LF]
}

/// Whether `line` is a size line for a chunk of `size` bytes: one line of text,
/// short enough, that gives that size.
pub open spec fn size_line_for(line: Seq<u8>, size: nat) -> bool {
    &&& !contains_byte(line, LF)
    &&& line.len() + 1 < MAX_CHUNK_SIZE_LINE
    &&& valid_utf8(line)
    &&& chunk_size_spec(line) == Some(size)
}

/// Chunks as a server sends them, each a size line with the chunk's data: size
/// line, line break, data, line break.
pub open spec fn chunks_wire(chunks: Seq<(Seq<u8>, Seq<u8>)>) -> Seq<u8>
    decreases chunks.len(),
{
    if chunks.len() == 0 {
        Seq::<u8>::empty()
    } else {
        chunks[0].0 + line_break() + chunks[0].1 + line_break() + chunks_wire(chunks.skip(1))
    }
}

/// The content that chunks carry: their data, one after the other.
pub open spec fn chunks_data(chunks: Seq<(Seq<u8>, Seq<u8>)>) -> Seq<u8>
    decreases chunks.len(),
{
    if chunks.len() == 0 {
        Seq::<u8>::empty()
    } else {
        chunks[0].1 + chunks_data(chunks.skip(1))
    }
}

/// Whether every chunk has data, and a size line for it.
pub open spec fn well_chunked(chunks: Seq<(Seq<u8>, Seq<u8>)>) -> bool {
    forall|i: int|
        0 <= i < chunks.len() ==> (#[trigger] chunks[i]).1.len() > 0 && size_line_for(
            chunks[i].0,
            chunks[i].1.len(),
        )
}

/// A chunked body without trailers as a server sends it: the chunks, the size
/// line of the last chunk, which has no data, and the empty line.
pub open spec fn chunked_wire(chunks: Seq<(Seq<u8>, Seq<u8>)>, last: Seq<u8>) -> Seq<u8> {
    chunks_wire(chunks) + last + line_break() + line_break()
}

/// A line of text that is followed by a line break is read as it stands.
pub proof fn lemma_line_is_read(
    line: Seq<u8>,
    tail: Seq<u8>,
    end: StreamEnd,
    max_len: Option<usize>,
    overflow_error: Error,
)
    requires
        !contains_byte(line, LF),
        valid_utf8(line),
        max_len matches Some(m) ==> line.len() + 1 < m,
    ensures
        line_spec(line + line_break() + tail, end, max_len, overflow_error) == Ok::<
            (Seq<u8>, Seq<u8>),
            Error,
        >((line, tail)),
{
    let rest = line + line_break() + tail;
    let n = line.len() as int;
    lemma_find_from(line, LF, 0);
    assert forall|j: int| 0 <= j < n + 1 implies rest[j] != LF by {
        if j < n {
            assert(rest[j] == line[j]);
        } else {
            assert(rest[j] == CR);
        }
    }
    assert(rest[n + 1] == LF);
    lemma_find_from_is(rest, LF, 0, n + 1);
    assert(rest.take(n + 1) =~= line.push(CR));
    assert(line.push(CR).drop_last() =~= line);
    assert(strip_cr(rest.take(n + 1)) == line);
    assert(rest.skip(n + 2) =~= tail);
}

/// Whether `line` is a line of text: it holds no line feed, and is UTF-8.
pub open spec fn is_text_line(line: Seq<u8>) -> bool {
    !contains_byte(line, LF) && valid_utf8(line)
}

/// Whether every line is a line of text and not empty.
pub open spec fn are_header_lines(lines: Seq<Seq<u8>>) -> bool {
    forall|i: int|
        0 <= i < lines.len() ==> is_text_line(#[trigger] lines[i]) && lines[i].len() > 0
}

/// Lines as a server sends them, each followed by a line break.
pub open spec fn lines_wire(lines: Seq<Seq<u8>>) -> Seq<u8>
    decreases lines.len(),
{
    if lines.len() == 0 {
        Seq::<u8>::empty()
    } else {
        lines[0] + line_break() + lines_wire(lines.skip(1))
    }
}

/// The headers after header lines have been taken in, one after the other.
pub open spec fn headers_of(lines: Seq<Seq<u8>>, entries: Entries) -> Entries
    decreases lines.len(),
{
    if lines.len() == 0 {
        entries
    } else {
        headers_of(lines.skip(1), with_line(entries, lines[0]))
    }
}

/// The headers of a response are what its header lines say, line by line: where
/// a server sends header lines, an empty line and a body, and the request sets no
/// limit, the lines are taken in one after the other and the body is left in the
/// stream.
pub proof fn law_headers_are_read_line_by_line(
    lines: Seq<Seq<u8>>,
    body: Seq<u8>,
    end: StreamEnd,
    entries: Entries,
)
    requires
        are_header_lines(lines),
    ensures
        header_block_spec(lines_wire(lines) + line_break() + body, end, None, entries) == Ok::<
            (Entries, Option<usize>, Seq<u8>),
            Error,
        >((headers_of(lines, entries), None, body)),
    decreases lines.len(),
{
    let rest = lines_wire(lines) + line_break() + body;
    if lines.len() == 0 {
        assert(rest =~= Seq::<u8>::empty() + line_break() + body);
        lemma_line_is_read(Seq::<u8>::empty(), body, end, None, Error::HeadersOverflow);
    } else {
        let others = lines.skip(1);
        let tail = lines_wire(others) + line_break() + body;
        assert(rest =~= lines[0] + line_break() + tail);
        lemma_line_is_read(lines[0], tail, end, None, Error::HeadersOverflow);
        assert forall|i: int| 0 <= i < others.len() implies is_text_line(#[trigger] others[i])
            && others[i].len() > 0 by {
            assert(others[i] == lines[i + 1]);
        }
        law_headers_are_read_line_by_line(others, body, end, with_line(entries, lines[0]));
    }
}

/// The head of a response is what its lines say: where a server sends a status
/// line, header lines, an empty line and a body, and the request sets no limit,
/// the status is read from the status line, the headers from the header lines,
/// the framing from the headers, and the body is left in the stream.
pub proof fn law_head_is_read_line_by_line(
    status_line: Seq<u8>,
    lines: Seq<Seq<u8>>,
    body: Seq<u8>,
    end: StreamEnd,
)
    requires
        is_text_line(status_line),
        are_header_lines(lines),
    ensures
        metadata_spec(
            status_line + line_break() + lines_wire(lines) + line_break() + body,
            end,
            None,
            None,
        ) == match framing_spec(headers_of(lines, Entries::empty())) {
            Ok(state) => Ok::<(Metadata, Seq<u8>), Error>(
                (
                    Metadata {
                        status_code: status_line_spec(status_line).0,
                        reason_phrase: status_line_spec(status_line).1,
                        headers: headers_of(lines, Entries::empty()),
                        state,
                        max_trailing_headers_size: None,
                    },
                    body,
                ),
            ),
            Err(e) => Err::<(Metadata, Seq<u8>), Error>(e),
        },
{
    let block = lines_wire(lines) + line_break() + body;
    let rest = status_line + line_break() + lines_wire(lines) + line_break() + body;
    assert(rest =~= status_line + line_break() + block);
    lemma_line_is_read(status_line, block, end, None, Error::StatusLineOverflow);
    law_headers_are_read_line_by_line(lines, body, end, Entries::empty());
}

/// The lazy response that a head and the bytes after it make, before its URL is
/// set.
pub open spec fn lazy_of(metadata: Metadata, rest: Seq<u8>, end: StreamEnd) -> Lazy {
    Lazy {
        status_code: metadata.status_code,
        reason_phrase: metadata.reason_phrase,
        headers: metadata.headers,
        url: Seq::<u8>::empty(),
        rest,
        end,
        state: metadata.state,
        max_trailing_headers_size: metadata.max_trailing_headers_size,
    }
}

/// A body makes the round trip unchanged: where a server answers with a status
/// line, header lines that announce the length of the body, an empty line and
/// the body, the caller gets the body byte for byte, whatever the bytes are, and
/// whatever the server sends after them.
pub proof fn law_body_round_trip(
    status_line: Seq<u8>,
    lines: Seq<Seq<u8>>,
    body: Seq<u8>,
    extra: Seq<u8>,
    end: StreamEnd,
)
    requires
        is_text_line(status_line),
        are_header_lines(lines),
        body.len() <= usize::MAX,
        framing_spec(headers_of(lines, Entries::empty())) == Ok::<HttpStreamState, Error>(
            HttpStreamState::ContentLength(body.len() as usize),
        ),
        !skips_body(false, status_line_spec(status_line).0),
    ensures
        metadata_spec(
            status_line + line_break() + lines_wire(lines) + line_break() + (body + extra),
            end,
            None,
            None,
        ) matches Ok((metadata, rest)) && body_spec(lazy_of(metadata, rest, end), false)
            matches Ok((read, _)) && read == body,
{
    law_head_is_read_line_by_line(status_line, lines, body + extra, end);
    let head = metadata_spec(
        status_line + line_break() + lines_wire(lines) + line_break() + (body + extra),
        end,
        None,
        None,
    );
    let metadata = head->Ok_0.0;
    law_body_of_known_length(lazy_of(metadata, body + extra, end), body, extra);
}

/// Reading on inside a chunk: the bytes of the chunk that are left are read, then
/// the chunk's line break, and the reading stands between chunks.
proof fn lemma_drain_chunk(lazy: Lazy, data: Seq<u8>, tail: Seq<u8>, total: usize, read: Seq<u8>)
    requires
        0 < data.len() <= usize::MAX,
        lazy.state == HttpStreamState::Chunked(true, data.len() as usize, total),
        lazy.rest == data + line_break() + tail,
    ensures
        drain_spec(lazy, read) == drain_spec(
            Lazy { rest: tail, state: HttpStreamState::Chunked(true, 0, total), ..lazy },
            read + data,
        ),
    decreases data.len(),
{
    let next = step_spec(lazy).1;
    assert(lazy.rest[0] == data[0]);
    if data.len() == 1 {
        assert(lazy.rest.skip(1) =~= line_break() + tail);
        assert((line_break() + tail).skip(2) =~= tail);
        assert(read.push(data[0]) =~= read + data);
    } else {
        assert(lazy.rest.skip(1) =~= data.skip(1) + line_break() + tail);
        lemma_drain_chunk(next, data.skip(1), tail, total, read.push(data[0]));
        assert(read.push(data[0]) + data.skip(1) =~= read + data);
    }
}

/// The step that ends a chunked body: it reads the size line of the last chunk and
/// the empty line, and finishes the headers.
#[verifier::rlimit(40)]
proof fn lemma_close_body(lazy: Lazy, last: Seq<u8>, extra: Seq<u8>, total: usize)
    requires
        size_line_for(last, 0),
        lazy.state == HttpStreamState::Chunked(true, 0, total),
        lazy.rest == last + line_break() + line_break() + extra,
        lazy.max_trailing_headers_size matches Some(budget) ==> budget >= 2,
    ensures
        step_spec(lazy).0 is None,
        step_spec(lazy).1 == (Lazy {
            rest: extra,
            headers: finished_headers(lazy.headers, total),
            state: HttpStreamState::Chunked(false, 0, total),
            ..lazy
        }),
{
    let after = line_break() + extra;
    assert(lazy.rest =~= last + line_break() + after);
    lemma_line_is_read(
        last,
        after,
        lazy.end,
        Some(MAX_CHUNK_SIZE_LINE),
        Error::MalformedChunkLength,
    );
    assert(after =~= Seq::<u8>::empty() + line_break() + extra);
    lemma_line_is_read(
        Seq::<u8>::empty(),
        extra,
        lazy.end,
        lazy.max_trailing_headers_size,
        Error::HeadersOverflow,
    );
    assert(header_spec(Seq::<u8>::empty()) is None);
    assert(trailers_spec(after, lazy.end, lazy.max_trailing_headers_size, lazy.headers) == Ok::<
        (Entries, Seq<u8>),
        Error,
    >((lazy.headers, extra)));
}

/// The step that opens a chunk: it reads the chunk's size line and hands out the
/// chunk's first byte.
#[verifier::rlimit(40)]
proof fn lemma_open_chunk(
    lazy: Lazy,
    size_line: Seq<u8>,
    data: Seq<u8>,
    tail: Seq<u8>,
    total: usize,
)
    requires
        data.len() > 0,
        size_line_for(size_line, data.len()),
        total + data.len() <= usize::MAX,
        lazy.state == HttpStreamState::Chunked(true, 0, total),
        lazy.rest == size_line + line_break() + data + line_break() + tail,
    ensures
        step_spec(lazy).0 matches Some(Ok((byte, _))) && byte == data[0],
        step_spec(lazy).1 == if data.len() == 1 {
            Lazy {
                rest: tail,
                state: HttpStreamState::Chunked(true, 0, (total + 1) as usize),
                ..lazy
            }
        } else {
            Lazy {
                rest: data.skip(1) + line_break() + tail,
                state: HttpStreamState::Chunked(
                    true,
                    (data.len() - 1) as usize,
                    (total + data.len()) as usize,
                ),
                ..lazy
            }
        },
{
    let after = data + line_break() + tail;
    assert(lazy.rest =~= size_line + line_break() + after);
    lemma_line_is_read(
        size_line,
        after,
        lazy.end,
        Some(MAX_CHUNK_SIZE_LINE),
        Error::MalformedChunkLength,
    );
    assert(after[0] == data[0]);
    if data.len() == 1 {
        assert(after.skip(1) =~= line_break() + tail);
        assert((line_break() + tail).skip(2) =~= tail);
    } else {
        assert(after.skip(1) =~= data.skip(1) + line_break() + tail);
    }
}

/// Reading one whole chunk from between two chunks.
proof fn lemma_drain_one_chunk(
    lazy: Lazy,
    size_line: Seq<u8>,
    data: Seq<u8>,
    tail: Seq<u8>,
    total: usize,
    read: Seq<u8>,
)
    requires
        data.len() > 0,
        size_line_for(size_line, data.len()),
        total + data.len() <= usize::MAX,
        lazy.state == HttpStreamState::Chunked(true, 0, total),
        lazy.rest == size_line + line_break() + data + line_break() + tail,
    ensures
        drain_spec(lazy, read) == drain_spec(
            Lazy {
                rest: tail,
                state: HttpStreamState::Chunked(true, 0, (total + data.len()) as usize),
                ..lazy
            },
            read + data,
        ),
{
    lemma_open_chunk(lazy, size_line, data, tail, total);
    let grown = (total + data.len()) as usize;
    let next = step_spec(lazy).1;
    assert(drain_spec(lazy, read) == drain_spec(next, read.push(data[0])));
    if data.len() == 1 {
        assert(read.push(data[0]) =~= read + data);
    } else {
        lemma_drain_chunk(next, data.skip(1), tail, grown, read.push(data[0]));
        assert(read.push(data[0]) + data.skip(1) =~= read + data);
    }
}

/// Reading the end of a chunked body from between two chunks.
proof fn lemma_drain_last_chunk(
    lazy: Lazy,
    last: Seq<u8>,
    extra: Seq<u8>,
    total: usize,
    read: Seq<u8>,
)
    requires
        size_line_for(last, 0),
        lazy.state == HttpStreamState::Chunked(true, 0, total),
        lazy.rest == last + line_break() + line_break() + extra,
        lazy.max_trailing_headers_size matches Some(budget) ==> budget >= 2,
    ensures
        drain_spec(lazy, read) == Ok::<(Seq<u8>, Lazy), Error>(
            (
                read,
                Lazy {
                    rest: extra,
                    headers: finished_headers(lazy.headers, total),
                    state: HttpStreamState::Chunked(false, 0, total),
                    ..lazy
                },
            ),
        ),
{
    lemma_close_body(lazy, last, extra, total);
}

/// How the wire and the content of chunks are made of those of the first chunk
/// and of the others.
proof fn lemma_chunks_unfold(chunks: Seq<(Seq<u8>, Seq<u8>)>, last: Seq<u8>, extra: Seq<u8>)
    ensures
        chunks.len() == 0 ==> chunked_wire(chunks, last) + extra == last + line_break()
            + line_break() + extra && chunks_data(chunks) == Seq::<u8>::empty(),
        chunks.len() > 0 ==> chunked_wire(chunks, last) + extra == chunks[0].0 + line_break()
            + chunks[0].1 + line_break() + (chunked_wire(chunks.skip(1), last) + extra)
            && chunks_data(chunks) == chunks[0].1 + chunks_data(chunks.skip(1)),
{
    if chunks.len() == 0 {
        assert(chunked_wire(chunks, last) + extra =~= last + line_break() + line_break() + extra);
    } else {
        assert(chunked_wire(chunks, last) + extra =~= chunks[0].0 + line_break() + chunks[0].1
            + line_break() + (chunked_wire(chunks.skip(1), last) + extra));
    }
}

/// Reading a chunked body from between two chunks to its end, `read` being the
/// bytes read so far and `total` the bytes that the chunks so far held.
#[verifier::rlimit(40)]
proof fn lemma_drain_chunks(
    lazy: Lazy,
    chunks: Seq<(Seq<u8>, Seq<u8>)>,
    last: Seq<u8>,
    extra: Seq<u8>,
    total: usize,
    read: Seq<u8>,
)
    requires
        well_chunked(chunks),
        size_line_for(last, 0),
        total + chunks_data(chunks).len() <= usize::MAX,
        lazy.state == HttpStreamState::Chunked(true, 0, total),
        lazy.rest == chunked_wire(chunks, last) + extra,
        lazy.max_trailing_headers_size matches Some(budget) ==> budget >= 2,
    ensures
        drain_spec(lazy, read) == Ok::<(Seq<u8>, Lazy), Error>(
            (
                read + chunks_data(chunks),
                Lazy {
                    rest: extra,
                    headers: finished_headers(
                        lazy.headers,
                        (total + chunks_data(chunks).len()) as usize,
                    ),
                    state: HttpStreamState::Chunked(
                        false,
                        0,
                        (total + chunks_data(chunks).len()) as usize,
                    ),
                    ..lazy
                },
            ),
        ),
    decreases chunks.len(),
{
    lemma_chunks_unfold(chunks, last, extra);
    if chunks.len() == 0 {
        lemma_drain_last_chunk(lazy, last, extra, total, read);
        assert(read + Seq::<u8>::empty() =~= read);
    } else {
        let size_line = chunks[0].0;
        let data = chunks[0].1;
        let others = chunks.skip(1);
        let tail = chunked_wire(others, last) + extra;
        assert(size_line_for(size_line, data.len()));
        lemma_drain_one_chunk(lazy, size_line, data, tail, total, read);
        let grown = (total + data.len()) as usize;
        assert forall|i: int| 0 <= i < others.len() implies (#[trigger] others[i]).1.len() > 0
            && size_line_for(others[i].0, others[i].1.len()) by {
            assert(others[i] == chunks[i + 1]);
        }
        let between = Lazy { rest: tail, state: HttpStreamState::Chunked(true, 0, grown), ..lazy };
        lemma_drain_chunks(between, others, last, extra, grown, read + data);
        assert(read + data + chunks_data(others) =~= read + (data + chunks_data(others)));
    }
}

/// Chunked framing carries the content unchanged: where a server sends content in
/// chunks, however it cuts the content and writes the sizes, reading the body
/// yields the content byte for byte, as if it had been sent with its length
/// alone. Afterwards the headers give the length of the content in place of the
/// transfer encoding, and what came after the body is left in the stream.
pub proof fn law_chunked_body(
    lazy: Lazy,
    chunks: Seq<(Seq<u8>, Seq<u8>)>,
    last: Seq<u8>,
    extra: Seq<u8>,
)
    requires
        !skips_body(false, lazy.status_code),
        well_chunked(chunks),
        size_line_for(last, 0),
        chunks_data(chunks).len() <= usize::MAX,
        lazy.state == HttpStreamState::Chunked(true, 0, 0),
        lazy.rest == chunked_wire(chunks, last) + extra,
        lazy.max_trailing_headers_size matches Some(budget) ==> budget >= 2,
    ensures
        body_spec(lazy, false) == Ok::<(Seq<u8>, Lazy), Error>(
            (
                chunks_data(chunks),
                Lazy {
                    rest: extra,
                    headers: finished_headers(lazy.headers, chunks_data(chunks).len() as usize),
                    state: HttpStreamState::Chunked(false, 0, chunks_data(chunks).len() as usize),
                    ..lazy
                },
            ),
        ),
{
    lemma_drain_chunks(lazy, chunks, last, extra, 0, Seq::<u8>::empty());
    assert(Seq::<u8>::empty() + chunks_data(chunks) =~= chunks_data(chunks));
}

/// The two framings agree: the same content, sent once with its length and once
/// in chunks, is read as the same body; and after the chunked body the headers
/// give the length that the other response announced.
pub proof fn law_framings_agree(
    plain: Lazy,
    chunked: Lazy,
    chunks: Seq<(Seq<u8>, Seq<u8>)>,
    last: Seq<u8>,
)
    requires
        !skips_body(false, plain.status_code),
        !skips_body(false, chunked.status_code),
        well_chunked(chunks),
        size_line_for(last, 0),
        chunks_data(chunks).len() <= usize::MAX,
        distinct_names(chunked.headers),
        plain.state == HttpStreamState::ContentLength(chunks_data(chunks).len() as usize),
        plain.rest == chunks_data(chunks),
        chunked.state == HttpStreamState::Chunked(true, 0, 0),
        chunked.rest == chunked_wire(chunks, last),
        chunked.max_trailing_headers_size matches Some(budget) ==> budget >= 2,
    ensures
        body_spec(plain, false) matches Ok((body, _)) && body_spec(chunked, false) matches Ok(
            (other, after),
        ) && body == other && body == chunks_data(chunks) && lookup(
            after.headers,
            "content-length".spec_bytes(),
        ) == Some(decimal(body.len())) && parse_unsigned(
            decimal(body.len()),
            10,
            usize::MAX as nat,
        ) == Some(body.len()),
{
    let content = chunks_data(chunks);
    assert(plain.rest =~= content + Seq::<u8>::empty());
    law_body_of_known_length(plain, content, Seq::<u8>::empty());
    assert(chunked.rest =~= chunked_wire(chunks, last) + Seq::<u8>::empty());
    law_chunked_body(chunked, chunks, last, Seq::<u8>::empty());
    law_finished_headers_give_length(chunked.headers, content.len() as usize);
}

} // verus!
