//! Boundary recovery and per-member decoding: where a member that starts at a
//! given offset ends, found by trial decoding, and the record that describes it.

use vstd::prelude::*;
use vstd::slice::slice_subrange;
use crate::header::{extra_fits, header_summary, header_view, optional_len, parse_gzip_header};

verus! {

/// Fixed size of a gzip member header.
pub const HEADER_LEN: usize = 10;

/// Longest span that is searched for the end of one member.
pub const MAX_MEMBER_LEN: usize = 20 * 1024 * 1024;

/// Decoded bytes, or a decoder's message.
pub type DecodeOutcome = Result<Seq<u8>, Seq<char>>;

/// What decoding `data` as one gzip member gives: the decoded bytes, or the
/// decoder's message. Only the first member in `data` is decoded.
pub uninterp spec fn gzip_decode(data: Seq<u8>) -> DecodeOutcome;

/// Relies on flate2's `read::GzDecoder` over an in-memory slice, read to its end:
/// the outcome depends on the bytes alone.
#[verifier::external_body]
pub(crate) fn decode_span(data: &[u8]) -> (r: Result<Vec<u8>, String>)
    ensures
        r matches Ok(v) ==> gzip_decode(data@) == DecodeOutcome::Ok(v@),
        r matches Err(m) ==> gzip_decode(data@) == DecodeOutcome::Err(m@),
{
    let mut decoder = flate2::read::GzDecoder::new(data);
    let mut out: Vec<u8> = Vec::new();
    match std::io::Read::read_to_end(&mut decoder, &mut out) {
        Ok(_) => Ok(out),
        Err(e) => Err(e.to_string()),
    }
}

pub open spec fn decodes(span: Seq<u8>) -> bool {
    gzip_decode(span) is Ok
}

/// The two magic bytes of a gzip member stand at `p`.
pub open spec fn is_magic_at(s: Seq<u8>, p: int) -> bool {
    0 <= p && p + 1 < s.len() && s[p] == 0x1f && s[p + 1] == 0x8b
}

/// Index of the first magic pair in `buffer`, if there is one.
pub fn find_gzip_header(buffer: &[u8]) -> (r: Option<usize>)
    ensures
        r matches Some(i) ==> is_magic_at(buffer@, i as int) && forall|j: int|
            0 <= j < i ==> !is_magic_at(buffer@, j),
        r is None ==> forall|j: int| 0 <= j < buffer@.len() ==> !is_magic_at(buffer@, j),
{
    let mut i: usize = 0;
    while buffer.len() - i > 1
        invariant
            i <= buffer@.len(),
            forall|j: int| 0 <= j < i ==> !is_magic_at(buffer@, j),
        decreases buffer@.len() - i,
    {
        if buffer[i] == 0x1f && buffer[i + 1] == 0x8b {
            return Some(i);
        }
        i = i + 1;
    }
    None
}

/// `p` is a confirmed end for the member at `o` whose compressed data starts at
/// `body`: a magic pair stands there and the bytes before it decode as one member.
pub open spec fn is_boundary(s: Seq<u8>, o: int, body: int, p: int) -> bool {
    &&& body <= p <= o + MAX_MEMBER_LEN
    &&& is_magic_at(s, p)
    &&& decodes(s.subrange(o, p))
}

pub open spec fn no_boundary_before(s: Seq<u8>, o: int, body: int, q: int) -> bool {
    forall|p: int| body <= p < q ==> !is_boundary(s, o, body, p)
}

/// The member at `o` ends at `e`: at the first confirmed boundary; else at the
/// search ceiling if that much decodes; else at the end of the stream if it all
/// decodes; else at the longest prefix past the fixed header that decodes.
pub open spec fn member_ends_at(s: Seq<u8>, o: int, body: int, e: int) -> bool {
    let n = s.len() as int;
    ||| is_boundary(s, o, body, e) && no_boundary_before(s, o, body, e)
    ||| no_boundary_before(s, o, body, n) && n - o > MAX_MEMBER_LEN && e == o + MAX_MEMBER_LEN
        && decodes(s.subrange(o, e))
    ||| no_boundary_before(s, o, body, n) && n - o <= MAX_MEMBER_LEN && e == n && decodes(
        s.subrange(o, n),
    )
    ||| {
        &&& no_boundary_before(s, o, body, n)
        &&& n - o <= MAX_MEMBER_LEN
        &&& !decodes(s.subrange(o, n))
        &&& o + HEADER_LEN <= e < n
        &&& decodes(s.subrange(o, e))
        &&& forall|k: int| e < k < n ==> !decodes(#[trigger] s.subrange(o, k))
    }
}

/// No end is confirmed and the span up to the search ceiling does not decode.
pub open spec fn member_too_large(s: Seq<u8>, o: int, body: int) -> bool {
    &&& no_boundary_before(s, o, body, s.len() as int)
    &&& s.len() - o > MAX_MEMBER_LEN
    &&& !decodes(s.subrange(o, o + MAX_MEMBER_LEN))
}

/// No end is confirmed and no prefix past the fixed header decodes.
pub open spec fn member_undecodable(s: Seq<u8>, o: int, body: int) -> bool {
    &&& no_boundary_before(s, o, body, s.len() as int)
    &&& s.len() - o <= MAX_MEMBER_LEN
    &&& forall|k: int| o + HEADER_LEN <= k <= s.len() ==> !decodes(#[trigger] s.subrange(o, k))
}

/// Why no chunk could be read at an offset.
pub enum ChunkError {
    /// No byte remains at the offset: the normal end of a stream.
    EndOfStream,
    /// The first two bytes are not the gzip magic pair; the three leading bytes.
    BadMagic { offset: u64, b0: u8, b1: u8, b2: u8 },
    /// The stream ends inside the header: fewer than its ten fixed bytes remain,
    /// or an announced extra field runs past the end.
    TruncatedHeader { offset: u64 },
    /// No span of the member decodes; the decoder's message for the whole rest.
    Undecodable { offset: u64, message: String },
    /// No end was found within the search ceiling and the span up to it does not decode.
    TooLarge { offset: u64 },
}

/// One member's accounting record.
pub struct ChunkInfo {
    pub chunk_number: usize,
    pub offset: u64,
    pub compressed_size: u64,
    pub uncompressed_size: u64,
    pub header_info: String,
    pub preview_data: Option<Vec<u8>>,
}

/// Start of the compressed data of the member whose header starts at `o`.
pub open spec fn body_start(s: Seq<u8>, o: int) -> int {
    o + HEADER_LEN + optional_len(s[o + 3], s.subrange(o + HEADER_LEN, s.len() as int))
}

/// The chunk record for the member at `o`, numbered `n`.
#[verifier::opaque]
pub open spec fn chunk_matches(s: Seq<u8>, o: int, n: int, c: ChunkInfo) -> bool {
    let e = o + c.compressed_size;
    &&& c.chunk_number == n
    &&& c.offset == o
    &&& is_magic_at(s, o)
    &&& extra_fits(s[o + 3], s.subrange(o + HEADER_LEN, s.len() as int))
    &&& o + HEADER_LEN <= body_start(s, o) <= s.len()
    &&& member_ends_at(s, o, body_start(s, o), e)
    &&& e <= s.len()
    &&& c.preview_data matches Some(v) && gzip_decode(s.subrange(o, e)) == DecodeOutcome::Ok(v@)
        && c.uncompressed_size == v@.len()
    &&& c.header_info@ == header_summary(
        header_view(s.subrange(o, o + HEADER_LEN), s.subrange(o + HEADER_LEN, s.len() as int)),
    )
}

fn find_member_end(data: &[u8], o: usize, body: usize) -> (r: Result<(usize, Vec<u8>), ChunkError>)
    requires
        o + HEADER_LEN <= body <= data@.len(),
    ensures
        r matches Ok((e, v)) ==> {
            &&& member_ends_at(data@, o as int, body as int, e as int)
            &&& e <= data@.len()
            &&& gzip_decode(data@.subrange(o as int, e as int)) == DecodeOutcome::Ok(v@)
        },
        r matches Err(ChunkError::TooLarge { offset }) ==> offset == o && member_too_large(
            data@,
            o as int,
            body as int,
        ),
        r matches Err(ChunkError::Undecodable { offset, message }) ==> {
            &&& offset == o
            &&& member_undecodable(data@, o as int, body as int)
            &&& gzip_decode(data@.subrange(o as int, data@.len() as int)) == DecodeOutcome::Err(message@)
        },
        r is Ok || r matches Err(ChunkError::TooLarge { .. }) || r matches Err(
            ChunkError::Undecodable { .. },
        ),
{
    let ghost s = data@;
    let n = data.len();
    // Candidates lie below the ceiling and need a byte after them.
    let end: usize = if n - o > MAX_MEMBER_LEN + 1 { o + MAX_MEMBER_LEN + 2 } else { n };
    let mut p: usize = body;
    while p < end
        invariant
            s == data@,
            n == s.len(),
            o + HEADER_LEN <= body <= p,
            body <= n,
            end <= n,
            (end == n && n - o <= MAX_MEMBER_LEN + 1) || end == o + MAX_MEMBER_LEN + 2,
            no_boundary_before(s, o as int, body as int, p as int),
        decreases end - p,
    {
        let ghost w = s.subrange(p as int, end as int);
        match find_gzip_header(slice_subrange(data, p, end)) {
            None => {
                assert forall|q: int| body <= q < end implies !is_boundary(
                    s,
                    o as int,
                    body as int,
                    q,
                ) by {
                    if q >= p && is_magic_at(s, q) && q <= o + MAX_MEMBER_LEN {
                        assert(is_magic_at(w, q - p));
                    }
                }
                p = end;
            },
            Some(i) => {
                let q = p + i;
                assert forall|k: int| body <= k < q implies !is_boundary(
                    s,
                    o as int,
                    body as int,
                    k,
                ) by {
                    if k >= p && is_magic_at(s, k) && k <= o + MAX_MEMBER_LEN {
                        assert(is_magic_at(w, k - p));
                    }
                }
                assert(is_magic_at(s, q as int)) by {
                    assert(w[i as int] == s[q as int]);
                    assert(w[i + 1] == s[q + 1]);
                }
                match decode_span(slice_subrange(data, o, q)) {
                    Ok(v) => {
                        return Ok((q, v));
                    },
                    Err(_) => {},
                }
                p = q + 1;
            },
        }
    }
    assert(no_boundary_before(s, o as int, body as int, n as int));
    if n - o > MAX_MEMBER_LEN {
        return match decode_span(slice_subrange(data, o, o + MAX_MEMBER_LEN)) {
            Ok(v) => Ok((o + MAX_MEMBER_LEN, v)),
            Err(_) => Err(ChunkError::TooLarge { offset: o as u64 }),
        };
    }
    let message = match decode_span(slice_subrange(data, o, n)) {
        Ok(v) => {
            return Ok((n, v));
        },
        Err(m) => m,
    };
    let mut k: usize = n;
    while k > o + HEADER_LEN
        invariant
            s == data@,
            n == s.len(),
            o + HEADER_LEN <= k <= n,
            n - o <= MAX_MEMBER_LEN,
            no_boundary_before(s, o as int, body as int, n as int),
            forall|j: int| k <= j <= n ==> !decodes(#[trigger] s.subrange(o as int, j)),
        decreases k,
    {
        k = k - 1;
        match decode_span(slice_subrange(data, o, k)) {
            Ok(v) => {
                return Ok((k, v));
            },
            Err(_) => {},
        }
    }
    Err(ChunkError::Undecodable { offset: o as u64, message })
}

/// What reading the member at `offset`, numbered `n`, gives: the end of the
/// stream where no byte remains; a truncated header where some bytes remain but
/// fewer than ten, or where an announced extra field runs past the end; a magic
/// mismatch; else the chunk that the boundary search finds, or why it finds none.
#[verifier::opaque]
pub open spec fn read_outcome(data: Seq<u8>, offset: int, n: int, r: Result<ChunkInfo, ChunkError>) -> bool {
    let o = offset;
    let rest = data.subrange(o + HEADER_LEN, data.len() as int);
    let body = body_start(data, o);
    if o >= data.len() {
        r matches Err(ChunkError::EndOfStream)
    } else if o + HEADER_LEN > data.len() {
        r matches Err(ChunkError::TruncatedHeader { offset: at }) && at == o
    } else if !is_magic_at(data, o) {
        r matches Err(ChunkError::BadMagic { offset: at, b0, b1, b2 }) && at == o && b0 == data[o]
            && b1 == data[o + 1] && b2 == data[o + 2]
    } else if !extra_fits(data[o + 3], rest) {
        r matches Err(ChunkError::TruncatedHeader { offset: at }) && at == o
    } else {
        match r {
            Ok(c) => chunk_matches(data, o, n, c),
            Err(ChunkError::TooLarge { offset: at }) => at == o && member_too_large(data, o, body),
            Err(ChunkError::Undecodable { offset: at, message }) => {
                &&& at == o
                &&& member_undecodable(data, o, body)
                &&& gzip_decode(data.subrange(o, data.len() as int)) == DecodeOutcome::Err(message@)
            },
            _ => false,
        }
    }
}

/// Reads the member whose header starts at `offset` in `data`, numbering it
/// `chunk_number`: finds where it ends by trial decoding, decodes it, and
/// describes it.
pub fn read_chunk(data: &[u8], offset: u64, chunk_number: usize) -> (r: Result<ChunkInfo, ChunkError>)
    ensures
        read_outcome(data@, offset as int, chunk_number as int, r),
{
    proof {
        reveal(read_outcome);
    }
    if offset >= data.len() as u64 {
        return Err(ChunkError::EndOfStream);
    }
    if data.len() as u64 - offset < HEADER_LEN as u64 {
        return Err(ChunkError::TruncatedHeader { offset });
    }
    let o = offset as usize;
    if data[o] != 0x1f || data[o + 1] != 0x8b {
        return Err(ChunkError::BadMagic { offset, b0: data[o], b1: data[o + 1], b2: data[o + 2] });
    }
    let header = slice_subrange(data, o, o + HEADER_LEN);
    let rest = slice_subrange(data, o + HEADER_LEN, data.len());
    let (info, used) = match parse_gzip_header(header, rest) {
        Some(parsed) => parsed,
        None => {
            return Err(ChunkError::TruncatedHeader { offset });
        },
    };
    let body = o + HEADER_LEN + used;
    assert(body == body_start(data@, o as int));
    proof {
        reveal(read_outcome);
        reveal(chunk_matches);
    }
    match find_member_end(data, o, body) {
        Ok((e, v)) => {
            let size = v.len() as u64;
            Ok(
                ChunkInfo {
                    chunk_number,
                    offset,
                    compressed_size: (e - o) as u64,
                    uncompressed_size: size,
                    header_info: info.display_text(),
                    preview_data: Some(v),
                },
            )
        },
        Err(err) => Err(err),
    }
}

} // verus!
