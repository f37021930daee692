//! The chunk iterator: members read one after another from offset zero, each
//! starting where the previous one's span ended.

use vstd::prelude::*;
use crate::header::{extra_fits, lemma_header_prefix};
use crate::scan::{
    ChunkError, ChunkInfo, DecodeOutcome, HEADER_LEN, MAX_MEMBER_LEN, body_start, chunk_matches,
    decodes, gzip_decode, is_boundary, is_magic_at, member_ends_at, no_boundary_before, read_chunk,
    read_outcome,
};

verus! {

/// A member's span is never shorter than its fixed header.
pub proof fn lemma_member_len(s: Seq<u8>, o: int, body: int, e: int)
    requires
        o + HEADER_LEN <= body <= s.len(),
        member_ends_at(s, o, body, e),
    ensures
        e >= o + HEADER_LEN,
{
    if is_boundary(s, o, body, e) {
    }
}

/// A chunk's span is at least its fixed header long and lies within the stream.
pub proof fn lemma_chunk_span(data: Seq<u8>, o: int, n: int, c: ChunkInfo)
    requires
        chunk_matches(data, o, n, c),
    ensures
        c.offset == o,
        c.chunk_number == n,
        o + HEADER_LEN <= o + c.compressed_size <= data.len(),
        c.preview_data is Some,
        gzip_decode(data.subrange(o, o + c.compressed_size)) == DecodeOutcome::Ok(c.preview_data->0@),
        c.uncompressed_size == c.preview_data->0@.len(),
{
    reveal(chunk_matches);
    lemma_member_len(data, o, body_start(data, o), o + c.compressed_size);
}

/// The pass has stopped at `at` after `k` chunks: with `error`, the outcome of
/// reading there; without one, at the very end of the stream.
pub open spec fn pass_stopped(data: Seq<u8>, at: int, k: int, error: Option<ChunkError>) -> bool {
    &&& error matches Some(e) ==> read_outcome(data, at, k, Err(e))
    &&& error is None ==> at == data.len()
}

/// Read position of a pass over a stream.
pub struct ChunkCursor {
    pub offset: u64,
    pub chunk_number: usize,
    pub finished: bool,
}

impl ChunkCursor {
    /// A cursor at the start of a stream.
    pub fn new() -> (r: ChunkCursor)
        ensures
            r.offset == 0,
            r.chunk_number == 0,
            !r.finished,
    {
        ChunkCursor { offset: 0, chunk_number: 0, finished: false }
    }

    /// Reads the next member of `data`. `None` once the pass is over: at the end
    /// of the stream, after an error, or when chunk numbers run out. A chunk
    /// moves the cursor past its span; an error finishes the pass.
    pub fn next_chunk(&mut self, data: &[u8]) -> (r: Option<Result<ChunkInfo, ChunkError>>)
        ensures
            old(self).finished || old(self).chunk_number == usize::MAX ==> r is None
                && final(self).finished && final(self).offset == old(self).offset
                && final(self).chunk_number == old(self).chunk_number,
            !old(self).finished && old(self).chunk_number < usize::MAX ==> (r matches Some(x)
                ==> read_outcome(data@, old(self).offset as int, old(self).chunk_number as int, x)),
            !old(self).finished && old(self).chunk_number < usize::MAX ==> (r is None
                <==> old(self).offset >= data@.len()),
            !old(self).finished && old(self).chunk_number < usize::MAX ==> (r matches Some(Ok(c))
                ==> chunk_matches(data@, old(self).offset as int, old(self).chunk_number as int, c)),
            r matches Some(Ok(c)) ==> {
                &&& final(self).offset == old(self).offset + c.compressed_size
                &&& final(self).chunk_number == old(self).chunk_number + 1
                &&& !final(self).finished
            },
            !(r matches Some(Ok(_))) ==> final(self).finished && final(self).offset == old(self).offset
                && final(self).chunk_number == old(self).chunk_number,
    {
        if self.finished || self.chunk_number == usize::MAX {
            self.finished = true;
            return None;
        }
        if self.offset >= data.len() as u64 {
            self.finished = true;
            return None;
        }
        let r = read_chunk(data, self.offset, self.chunk_number);
        proof {
            reveal(read_outcome);
        }
        match r {
            Ok(c) => {
                proof {
                    lemma_chunk_span(data@, self.offset as int, self.chunk_number as int, c);
                }
                self.offset = self.offset + c.compressed_size;
                self.chunk_number = self.chunk_number + 1;
                Some(Ok(c))
            },
            Err(e) => {
                self.finished = true;
                Some(Err(e))
            },
        }
    }
}

/// The chunks of a whole pass, and the error that stopped it, if any.
pub struct StreamScan {
    pub chunks: Vec<ChunkInfo>,
    pub error: Option<ChunkError>,
}

/// Where the pass stands after the first `k` chunks.
pub open spec fn end_of(chunks: Seq<ChunkInfo>, k: int) -> int {
    if k == 0 {
        0
    } else {
        chunks[k - 1].offset + chunks[k - 1].compressed_size
    }
}

/// The chunks tile the stream from offset zero: each is the member read where
/// the previous one ended, numbered by its place.
pub open spec fn chunks_tile(data: Seq<u8>, chunks: Seq<ChunkInfo>) -> bool {
    forall|i: int|
        0 <= i < chunks.len() ==> #[trigger] chunks[i].offset == end_of(chunks, i)
            && chunk_matches(data, end_of(chunks, i), i, chunks[i])
}

proof fn lemma_tile_push(data: Seq<u8>, before: Seq<ChunkInfo>, c: ChunkInfo)
    requires
        chunks_tile(data, before),
        c.offset == end_of(before, before.len() as int),
        chunk_matches(data, c.offset as int, before.len() as int, c),
    ensures
        chunks_tile(data, before.push(c)),
        end_of(before.push(c), before.len() + 1int) == c.offset + c.compressed_size,
{
    let after = before.push(c);
    assert forall|i: int| 0 <= i < after.len() implies #[trigger] after[i].offset == end_of(after, i)
        && chunk_matches(data, end_of(after, i), i, after[i]) by {
        if i < before.len() {
            assert(after[i] == before[i]);
            assert(end_of(after, i) == end_of(before, i));
        }
    }
}

/// Reads every member of `data` from offset zero until the stream ends or a
/// member cannot be read.
pub fn scan_stream(data: &[u8]) -> (r: StreamScan)
    ensures
        chunks_tile(data@, r.chunks@),
        r.chunks@.len() > 0 ==> r.chunks@[0].offset == 0,
        end_of(r.chunks@, r.chunks@.len() as int) <= data@.len(),
        pass_stopped(data@, end_of(r.chunks@, r.chunks@.len() as int), r.chunks@.len() as int, r.error),
        r.error is None ==> end_of(r.chunks@, r.chunks@.len() as int) == data@.len(),
{
    // The slice length bounds the offsets, and with them the chunk count.
    let len = data.len();
    let mut cursor = ChunkCursor::new();
    let mut chunks: Vec<ChunkInfo> = Vec::new();
    let mut error: Option<ChunkError> = None;
    while !cursor.finished
        invariant
            len == data@.len(),
            chunks_tile(data@, chunks@),
            cursor.offset == end_of(chunks@, chunks@.len() as int),
            cursor.offset <= data@.len(),
            cursor.chunk_number == chunks@.len(),
            cursor.chunk_number * HEADER_LEN <= cursor.offset,
            !cursor.finished ==> error is None,
            cursor.finished ==> pass_stopped(data@, cursor.offset as int, chunks@.len() as int, error),
        decreases data@.len() - cursor.offset + (if cursor.finished { 0int } else { 1int }),
    {
        let ghost before = chunks@;
        let ghost at = cursor.offset as int;
        match cursor.next_chunk(data) {
            Some(Ok(c)) => {
                proof {
                    lemma_chunk_span(data@, at, before.len() as int, c);
                    lemma_tile_push(data@, before, c);
                }
                chunks.push(c);
            },
            Some(Err(e)) => {
                error = Some(e);
            },
            None => {},
        }
    }
    StreamScan { chunks, error }
}

/// The chunks of a pass cover the stream without gap or overlap from offset
/// zero: each starts where the previous one ends.
pub proof fn lemma_chunks_contiguous(data: Seq<u8>, chunks: Seq<ChunkInfo>)
    requires
        chunks_tile(data, chunks),
    ensures
        chunks.len() > 0 ==> chunks[0].offset == 0,
        forall|i: int|
            0 <= i < chunks.len() - 1 ==> #[trigger] chunks[i + 1].offset == chunks[i].offset
                + chunks[i].compressed_size,
        forall|i: int| 0 <= i < chunks.len() ==> #[trigger] chunks[i].chunk_number == i,
{
    assert forall|i: int| 0 <= i < chunks.len() - 1 implies #[trigger] chunks[i + 1].offset
        == chunks[i].offset + chunks[i].compressed_size by {
        assert(chunks[i + 1].offset == end_of(chunks, i + 1));
    }
    assert forall|i: int| 0 <= i < chunks.len() implies #[trigger] chunks[i].chunk_number == i by {
        assert(chunks[i].offset == end_of(chunks, i));
        lemma_chunk_span(data, end_of(chunks, i), i, chunks[i]);
    }
    if chunks.len() > 0 {
        assert(chunks[0].offset == end_of(chunks, 0));
    }
}

/// Reading a chunk's span on its own, apart from the stream around it, gives a
/// chunk of the same size, decoded bytes and header line, as long as the span
/// holds the member's whole header.
pub proof fn lemma_span_reads_alone(
    data: Seq<u8>,
    o: int,
    n: int,
    c: ChunkInfo,
    k: int,
    r: Result<ChunkInfo, ChunkError>,
)
    requires
        chunk_matches(data, o, n, c),
        body_start(data, o) <= o + c.compressed_size,
        read_outcome(data.subrange(o, o + c.compressed_size), 0, k, r),
    ensures
        r matches Ok(c2) && c2.compressed_size == c.compressed_size
            && c2.uncompressed_size == c.uncompressed_size
            && c2.preview_data->0@ == c.preview_data->0@
            && c2.header_info@ == c.header_info@,
{
    reveal(chunk_matches);
    reveal(read_outcome);
    let e = o + c.compressed_size;
    let body = body_start(data, o);
    lemma_member_len(data, o, body, e);
    let span = data.subrange(o, e);
    let len = span.len() as int;
    let rest = data.subrange(o + HEADER_LEN, data.len() as int);
    let rest2 = span.subrange(HEADER_LEN as int, len);
    let h = data.subrange(o, o + HEADER_LEN);
    assert(span.subrange(0, HEADER_LEN as int) =~= h);
    assert(rest2 =~= rest.take(len - HEADER_LEN));
    assert(h[3] == data[o + 3] && span[3] == data[o + 3]);
    lemma_header_prefix(h, rest, len - HEADER_LEN);
    let body2 = body_start(span, 0);
    assert(body2 == body - o);
    assert(is_magic_at(span, 0)) by {
        assert(span[0] == data[o] && span[1] == data[o + 1]);
    }
    assert(no_boundary_before(data, o, body, e));
    assert forall|p: int| body2 <= p < len implies !is_boundary(span, 0, body2, p) by {
        if is_boundary(span, 0, body2, p) {
            assert(span.subrange(0, p) =~= data.subrange(o, o + p));
            assert(span[p] == data[o + p] && span[p + 1] == data[o + p + 1]);
            assert(is_boundary(data, o, body, o + p));
        }
    }
    assert(span.subrange(0, len) =~= span);
    assert(len <= MAX_MEMBER_LEN);
    assert(decodes(span));
    assert(member_ends_at(span, 0, body2, len));
    match r {
        Ok(c2) => {
            let e2 = c2.compressed_size as int;
            assert(member_ends_at(span, 0, body2, e2));
        },
        _ => {},
    }
}

/// A final member (no confirmed end after it, within the search ceiling) is
/// taken whole if it all decodes; else cut to its longest decodable prefix past
/// the fixed header; else reported undecodable. Its span never passes the end.
pub proof fn lemma_final_member(data: Seq<u8>, o: int, n: int, r: Result<ChunkInfo, ChunkError>)
    requires
        read_outcome(data, o, n, r),
        0 <= o,
        o + HEADER_LEN <= data.len(),
        is_magic_at(data, o),
        extra_fits(data[o + 3], data.subrange(o + HEADER_LEN, data.len() as int)),
        no_boundary_before(data, o, body_start(data, o), data.len() as int),
        data.len() - o <= MAX_MEMBER_LEN,
    ensures
        r matches Ok(c) ==> {
            let e = o + c.compressed_size;
            &&& e <= data.len()
            &&& decodes(data.subrange(o, e))
            &&& e == data.len() || (!decodes(data.subrange(o, data.len() as int)) && forall|j: int|
                e < j < data.len() ==> !decodes(#[trigger] data.subrange(o, j)))
        },
        r is Err ==> (r matches Err(ChunkError::Undecodable { offset, .. }) && offset == o),
        r is Err ==> forall|j: int|
            o + HEADER_LEN <= j <= data.len() ==> !decodes(#[trigger] data.subrange(o, j)),
        decodes(data.subrange(o, data.len() as int)) ==> (r matches Ok(c) && o + c.compressed_size
            == data.len()),
{
    reveal(read_outcome);
    reveal(chunk_matches);
    let body = body_start(data, o);
    if let Ok(c) = r {
        let e = o + c.compressed_size;
        if is_boundary(data, o, body, e) {
            assert(!is_boundary(data, o, body, e));
        }
    }
}

/// Decodes `span` as one gzip member.
pub fn decode_member(span: &[u8]) -> (r: Result<Vec<u8>, String>)
    ensures
        r matches Ok(v) ==> gzip_decode(span@) == DecodeOutcome::Ok(v@),
        r matches Err(m) ==> gzip_decode(span@) == DecodeOutcome::Err(m@),
{
    crate::scan::decode_span(span)
}

/// Decoding a chunk's span on its own, apart from the stream around it, gives
/// the chunk's decoded bytes, whose length is its uncompressed size.
pub proof fn lemma_span_decodes_alone(data: Seq<u8>, chunks: Seq<ChunkInfo>, i: int)
    requires
        chunks_tile(data, chunks),
        0 <= i < chunks.len(),
    ensures
        ({
            let c = chunks[i];
            &&& c.preview_data is Some
            &&& gzip_decode(data.subrange(c.offset as int, c.offset + c.compressed_size))
                == DecodeOutcome::Ok(c.preview_data->0@)
            &&& c.uncompressed_size == c.preview_data->0@.len()
        }),
{
    assert(chunks[i].offset == end_of(chunks, i));
    lemma_chunk_span(data, end_of(chunks, i), i, chunks[i]);
}

/// A chunk never claims more bytes than the stream holds past its offset.
pub proof fn lemma_span_within_stream(data: Seq<u8>, chunks: Seq<ChunkInfo>, i: int)
    requires
        chunks_tile(data, chunks),
        0 <= i < chunks.len(),
    ensures
        chunks[i].offset + chunks[i].compressed_size <= data.len(),
{
    assert(chunks[i].offset == end_of(chunks, i));
    lemma_chunk_span(data, end_of(chunks, i), i, chunks[i]);
}

} // verus!
