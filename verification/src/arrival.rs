//! What holds when bytes arrive late: the engine reads as far as the bytes that
//! have arrived allow, waits, and reads on. The laws here say that it then reads
//! what it would have read had all bytes been there from the start.

use crate::bytes::{find, lemma_find_concat, lemma_find_from, COLON, LF};
use crate::error::{Error, IoErrorKind};
use crate::headers::Entries;
use crate::response::{
    charged, chunk_data_spec, chunk_size_spec, chunked_spec, collect_spec, exceeds,
    header_block_spec, header_spec, lemma_line_spec_consumes, lemma_step, line_spec,
    metadata_spec, step_spec, trailers_spec, with_line, Chunking, HttpStreamState, Item, Lazy,
    Metadata, MAX_CHUNK_SIZE_LINE,
};
use crate::stream::StreamEnd;
use vstd::prelude::*;

verus! {

/// The end of a stream that may yet go on: a read at it would block.
pub open spec fn open_end() -> StreamEnd {
    StreamEnd::Failed(IoErrorKind::WouldBlock)
}

/// The error of a read that has to wait for bytes.
pub open spec fn waits() -> Error {
    Error::IoError(IoErrorKind::WouldBlock)
}

/// A line that has been read, or refused, from a stream that may yet go on is
/// read, or refused, in the same way whatever arrives later.
pub proof fn lemma_line_arrival(
    rest: Seq<u8>,
    more: Seq<u8>,
    end: StreamEnd,
    max_len: Option<usize>,
    overflow_error: Error,
)
    requires
        overflow_error != waits(),
    ensures
        match line_spec(rest, open_end(), max_len, overflow_error) {
            Ok((line, after)) => line_spec(rest + more, end, max_len, overflow_error) == Ok::<
                (Seq<u8>, Seq<u8>),
                Error,
            >((line, after + more)),
            Err(e) => e != waits() ==> line_spec(rest + more, end, max_len, overflow_error)
                == Err::<(Seq<u8>, Seq<u8>), Error>(e),
        },
{
    let n = find(rest, LF);
    let all = rest + more;
    lemma_find_concat(rest, more, LF);
    lemma_find_from(rest, LF, 0);
    lemma_find_from(more, LF, 0);
    if n < rest.len() {
        assert(all.take(n) =~= rest.take(n));
        assert(all.skip(n + 1) =~= rest.skip(n + 1) + more);
    }
}

/// A block of headers that has been read, or refused, from a stream that may yet
/// go on is read, or refused, in the same way whatever arrives later.
pub proof fn lemma_header_block_arrival(
    rest: Seq<u8>,
    more: Seq<u8>,
    end: StreamEnd,
    budget: Option<usize>,
    entries: Entries,
)
    ensures
        match header_block_spec(rest, open_end(), budget, entries) {
            Ok((headers, left, after)) => header_block_spec(rest + more, end, budget, entries)
                == Ok::<(Entries, Option<usize>, Seq<u8>), Error>((headers, left, after + more)),
            Err(e) => e != waits() ==> header_block_spec(rest + more, end, budget, entries)
                == Err::<(Entries, Option<usize>, Seq<u8>), Error>(e),
        },
    decreases rest.len(),
{
    lemma_line_arrival(rest, more, end, budget, Error::HeadersOverflow);
    lemma_line_spec_consumes(rest, open_end(), budget, Error::HeadersOverflow);
    if let Ok((line, after)) = line_spec(rest, open_end(), budget, Error::HeadersOverflow) {
        if line.len() > 0 && !exceeds(budget, line.len()) {
            lemma_header_block_arrival(
                after,
                more,
                end,
                charged(budget, line.len()),
                with_line(entries, line),
            );
        }
    }
}

/// Trailers that have been read, or refused, from a stream that may yet go on are
/// read, or refused, in the same way whatever arrives later.
pub proof fn lemma_trailers_arrival(
    rest: Seq<u8>,
    more: Seq<u8>,
    end: StreamEnd,
    budget: Option<usize>,
    entries: Entries,
)
    ensures
        match trailers_spec(rest, open_end(), budget, entries) {
            Ok((headers, after)) => trailers_spec(rest + more, end, budget, entries) == Ok::<
                (Entries, Seq<u8>),
                Error,
            >((headers, after + more)),
            Err(e) => e != waits() ==> trailers_spec(rest + more, end, budget, entries) == Err::<
                (Entries, Seq<u8>),
                Error,
            >(e),
        },
    decreases rest.len(),
{
    lemma_line_arrival(rest, more, end, budget, Error::HeadersOverflow);
    lemma_line_spec_consumes(rest, open_end(), budget, Error::HeadersOverflow);
    if let Ok((line, after)) = line_spec(rest, open_end(), budget, Error::HeadersOverflow) {
        if let Some((name, value)) = header_spec(line) {
            lemma_find_from(line, COLON, 0);
            if !exceeds(budget, line.len()) {
                lemma_trailers_arrival(
                    after,
                    more,
                    end,
                    charged(budget, line.len()),
                    crate::headers::inserted(entries, name, value),
                );
            }
        }
    }
}

/// The head of a response is read once and for all: a head that has been read,
/// or refused, from a stream that may yet go on is read, or refused, in the same
/// way whatever arrives later. So a reader may try as soon as bytes have arrived,
/// and try again from the start whenever it had to wait.
pub proof fn law_head_arrival(
    rest: Seq<u8>,
    more: Seq<u8>,
    end: StreamEnd,
    max_headers_size: Option<usize>,
    max_status_line_len: Option<usize>,
)
    ensures
        match metadata_spec(rest, open_end(), max_headers_size, max_status_line_len) {
            Ok((metadata, body)) => metadata_spec(
                rest + more,
                end,
                max_headers_size,
                max_status_line_len,
            ) == Ok::<(Metadata, Seq<u8>), Error>((metadata, body + more)),
            Err(e) => e != waits() ==> metadata_spec(
                rest + more,
                end,
                max_headers_size,
                max_status_line_len,
            ) == Err::<(Metadata, Seq<u8>), Error>(e),
        },
{
    lemma_line_arrival(rest, more, end, max_status_line_len, Error::StatusLineOverflow);
    if let Ok((_, after)) = line_spec(
        rest,
        open_end(),
        max_status_line_len,
        Error::StatusLineOverflow,
    ) {
        lemma_header_block_arrival(after, more, end, max_headers_size, Entries::empty());
    }
}

/// A response after `more` bytes have arrived, with `end` after them.
pub open spec fn fed(lazy: Lazy, more: Seq<u8>, end: StreamEnd) -> Lazy {
    Lazy { rest: lazy.rest + more, end, ..lazy }
}

/// The reading of a chunked body after `more` bytes have arrived.
pub open spec fn fed_chunking(chunking: Chunking, more: Seq<u8>) -> Chunking {
    Chunking { rest: chunking.rest + more, ..chunking }
}

/// Whether a step did not have to wait for bytes.
pub open spec fn went_on(item: Item) -> bool {
    item != Some(Err::<(u8, usize), Error>(waits()))
}

/// A step inside a chunk that did not have to wait stays as it is whatever
/// arrives later.
proof fn lemma_chunk_data_arrival(
    rest: Seq<u8>,
    more: Seq<u8>,
    end: StreamEnd,
    chunk_length: usize,
    content_length: usize,
    before: Chunking,
)
    ensures
        ({
            let step = chunk_data_spec(rest, open_end(), chunk_length, content_length, before);
            let late = chunk_data_spec(
                rest + more,
                end,
                chunk_length,
                content_length,
                fed_chunking(before, more),
            );
            went_on(step.0) ==> late.0 == step.0 && late.1 == fed_chunking(step.1, more)
        }),
{
    if rest.len() > 0 {
        assert((rest + more)[0] == rest[0]);
        assert((rest + more).skip(1) =~= rest.skip(1) + more);
        let tail = rest.skip(1);
        if tail.len() >= 2 {
            assert((tail + more)[0] == tail[0]);
            assert((tail + more)[1] == tail[1]);
            assert((tail + more).skip(2) =~= tail.skip(2) + more);
        }
    }
}

/// A step of a chunked body that did not have to wait stays as it is whatever
/// arrives later.
#[verifier::rlimit(40)]
proof fn lemma_chunked_arrival(
    before: Chunking,
    more: Seq<u8>,
    end: StreamEnd,
    max_trailing_headers_size: Option<usize>,
)
    ensures
        ({
            let step = chunked_spec(before, open_end(), max_trailing_headers_size);
            let late = chunked_spec(fed_chunking(before, more), end, max_trailing_headers_size);
            went_on(step.0) ==> late.0 == step.0 && late.1 == fed_chunking(step.1, more)
        }),
{
    if before.chunk_length > 0 {
        lemma_chunk_data_arrival(
            before.rest,
            more,
            end,
            before.chunk_length,
            before.content_length,
            before,
        );
    } else if before.expecting_more_chunks {
        lemma_line_arrival(
            before.rest,
            more,
            end,
            Some(MAX_CHUNK_SIZE_LINE),
            Error::MalformedChunkLength,
        );
        if let Ok((line, after)) = line_spec(
            before.rest,
            open_end(),
            Some(MAX_CHUNK_SIZE_LINE),
            Error::MalformedChunkLength,
        ) {
            if let Some(size) = chunk_size_spec(line) {
                if size == 0 {
                    lemma_trailers_arrival(
                        after,
                        more,
                        end,
                        max_trailing_headers_size,
                        before.headers,
                    );
                } else if before.content_length + size <= usize::MAX {
                    lemma_chunk_data_arrival(
                        after,
                        more,
                        end,
                        size as usize,
                        (before.content_length + size) as usize,
                        before,
                    );
                }
            }
        }
    }
}

/// A step that did not have to wait stays as it is whatever arrives later: it
/// hands out the same item, and leaves the late bytes in the stream.
#[verifier::rlimit(40)]
pub proof fn lemma_step_arrival(lazy: Lazy, more: Seq<u8>, end: StreamEnd)
    requires
        lazy.end == open_end(),
    ensures
        went_on(step_spec(lazy).0) ==> step_spec(fed(lazy, more, end)).0 == step_spec(lazy).0
            && step_spec(fed(lazy, more, end)).1 == fed(step_spec(lazy).1, more, end),
{
    match lazy.state {
        HttpStreamState::EndOnClose => {
            if lazy.rest.len() > 0 {
                assert((lazy.rest + more)[0] == lazy.rest[0]);
                assert((lazy.rest + more).skip(1) =~= lazy.rest.skip(1) + more);
            }
        },
        HttpStreamState::ContentLength(left) => {
            if lazy.rest.len() > 0 {
                assert((lazy.rest + more)[0] == lazy.rest[0]);
                assert((lazy.rest + more).skip(1) =~= lazy.rest.skip(1) + more);
            }
        },
        HttpStreamState::Chunked(expecting_more_chunks, chunk_length, content_length) => {
            lemma_chunked_arrival(
                Chunking {
                    rest: lazy.rest,
                    headers: lazy.headers,
                    expecting_more_chunks,
                    chunk_length,
                    content_length,
                },
                more,
                end,
                lazy.max_trailing_headers_size,
            );
        },
    }
}

/// Bytes may arrive late. Reading a body as far as the bytes that have arrived
/// allow, waiting for more, and reading on gives what reading would have given
/// had all bytes been there from the start: the same bytes of the body, the same
/// end or the same error, and the same response after it.
pub proof fn law_body_arrival(lazy: Lazy, body: Seq<u8>, more: Seq<u8>, end: StreamEnd)
    requires
        lazy.end == open_end(),
    ensures
        collect_spec(fed(lazy, more, end), body) == ({
            let stop = collect_spec(lazy, body);
            if stop.0 == Some(waits()) {
                collect_spec(fed(stop.2, more, end), stop.1)
            } else {
                (stop.0, stop.1, fed(stop.2, more, end))
            }
        }),
    decreases lazy.rest.len(),
{
    lemma_step(lazy);
    lemma_step_arrival(lazy, more, end);
    match step_spec(lazy).0 {
        Some(Ok((byte, _))) => {
            law_body_arrival(step_spec(lazy).1, body.push(byte), more, end);
        },
        _ => {},
    }
}

} // verus!
