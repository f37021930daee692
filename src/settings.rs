//! `HEAD:TAIL` count specifications and the choice of which chunks to show.

use vstd::prelude::*;
use vstd::string::StrSliceExecFns;
use crate::scan::ChunkInfo;
use crate::tail::{TailBuffer, keep_last};

verus! {

/// Line counts for a content preview: the first `head_lines`, and optionally the last few.
pub struct PreviewSettings {
    pub head_lines: usize,
    pub tail_lines: Option<usize>,
}

/// Chunk counts for display: the first `head_chunks`, and optionally the last few.
pub struct ChunkFilterSettings {
    pub head_chunks: usize,
    pub tail_chunks: Option<usize>,
}

/// Head count used where the head part does not read as a number.
pub const DEFAULT_HEAD: usize = 5;

pub open spec fn is_digit(c: char) -> bool {
    '0' <= c && c <= '9'
}

/// Value of a run of decimal digits.
pub open spec fn digits_value(d: Seq<char>) -> int
    decreases d.len(),
{
    if d.len() == 0 {
        0
    } else {
        digits_value(d.drop_last()) * 10 + (d.last() as u32 - '0' as u32)
    }
}

/// The text of a count without its optional leading `+`.
pub open spec fn unsigned_digits(s: Seq<char>) -> Seq<char> {
    if s.len() > 0 && s[0] == '+' {
        s.drop_first()
    } else {
        s
    }
}

/// An unsigned integer as text: an optional `+`, then one or more decimal
/// digits, with a value that fits in `usize`.
pub open spec fn parse_count(s: Seq<char>) -> Option<int> {
    let d = unsigned_digits(s);
    if d.len() > 0 && (forall|i: int| 0 <= i < d.len() ==> is_digit(#[trigger] d[i]))
        && digits_value(d) <= usize::MAX {
        Some(digits_value(d))
    } else {
        None
    }
}

/// Index of the first `:` at or after `from`, or the length if there is none.
pub open spec fn colon_index(s: Seq<char>, from: int) -> int
    decreases s.len() - from,
{
    if from < 0 || from >= s.len() {
        s.len() as int
    } else if s[from] == ':' {
        from
    } else {
        colon_index(s, from + 1)
    }
}

/// The head count of `HEAD:TAIL`: the number before the first `:`, or the default.
pub open spec fn head_count(s: Seq<char>) -> int {
    match parse_count(s.subrange(0, colon_index(s, 0))) {
        Some(v) => v,
        None => DEFAULT_HEAD as int,
    }
}

/// The tail count of `HEAD:TAIL`: the number between the first and second `:`, if any.
pub open spec fn tail_count(s: Seq<char>) -> Option<int> {
    let c = colon_index(s, 0);
    if c < s.len() {
        parse_count(s.subrange(c + 1, colon_index(s, c + 1)))
    } else {
        None
    }
}

proof fn lemma_digits_grow(d: Seq<char>, k: int)
    requires
        0 <= k <= d.len(),
        forall|i: int| 0 <= i < d.len() ==> is_digit(#[trigger] d[i]),
    ensures
        0 <= digits_value(d.take(k)) <= digits_value(d),
    decreases d.len(),
{
    if d.len() > 0 {
        if k < d.len() {
            let p = d.drop_last();
            assert(p.take(k) =~= d.take(k));
            lemma_digits_grow(p, k);
            lemma_digits_grow(p, p.len() as int);
            assert(p.take(p.len() as int) =~= p);
        } else {
            assert(d.take(k) =~= d);
            let p = d.drop_last();
            lemma_digits_grow(p, p.len() as int);
            assert(p.take(p.len() as int) =~= p);
        }
    }
}

fn find_colon(s: &str, from: usize, len: usize) -> (r: usize)
    requires
        len == s@.len(),
        from <= len,
    ensures
        r == colon_index(s@, from as int),
        from <= r <= len,
{
    let mut i = from;
    while i < len && s.get_char(i) != ':'
        invariant
            len == s@.len(),
            from <= i <= len,
            colon_index(s@, from as int) == colon_index(s@, i as int),
        decreases len - i,
    {
        i = i + 1;
    }
    i
}

/// Reads the characters `from..to` of `s` as an unsigned count.
fn parse_count_at(s: &str, from: usize, to: usize) -> (r: Option<usize>)
    requires
        from <= to <= s@.len(),
    ensures
        r matches Some(v) ==> parse_count(s@.subrange(from as int, to as int)) == Some(v as int),
        r is None ==> parse_count(s@.subrange(from as int, to as int)) is None,
{
    let ghost t = s@.subrange(from as int, to as int);
    let mut start = from;
    if start < to && s.get_char(start) == '+' {
        start = start + 1;
    }
    let ghost d = s@.subrange(start as int, to as int);
    assert(d =~= unsigned_digits(t));
    if start == to {
        return None;
    }
    let mut v: usize = 0;
    let mut i = start;
    while i < to
        invariant
            from <= start < to <= s@.len(),
            start <= i <= to,
            d == s@.subrange(start as int, to as int),
            t == s@.subrange(from as int, to as int),
            d == unsigned_digits(t),
            forall|j: int| 0 <= j < i - start ==> is_digit(#[trigger] d[j]),
            v == digits_value(d.take(i - start)),
        decreases to - i,
    {
        let c = s.get_char(i);
        assert(c == d[i - start]);
        if c < '0' || c > '9' {
            assert(!is_digit(d[i - start]));
            return None;
        }
        let k = i - start;
        assert(d.take(k + 1).drop_last() =~= d.take(k as int));
        let digit = (c as u32 - '0' as u32) as usize;
        let next = match v.checked_mul(10) {
            Some(m) => m.checked_add(digit),
            None => None,
        };
        match next {
            Some(n) => {
                v = n;
            },
            None => {
                proof {
                    assert(digits_value(d.take(k + 1)) == v * 10 + digit);
                    if forall|j: int| 0 <= j < d.len() ==> is_digit(#[trigger] d[j]) {
                        lemma_digits_grow(d, k + 1);
                    }
                }
                return None;
            },
        }
        i = i + 1;
    }
    assert(d.take(d.len() as int) =~= d);
    Some(v)
}

/// Reads `HEAD:TAIL` into its head count and its tail count.
fn parse_head_tail(p: &str) -> (r: (usize, Option<usize>))
    ensures
        r.0 == head_count(p@),
        r.1 matches Some(t) ==> tail_count(p@) == Some(t as int),
        r.1 is None ==> tail_count(p@) is None,
{
    let len = p.unicode_len();
    let c0 = find_colon(p, 0, len);
    let head = match parse_count_at(p, 0, c0) {
        Some(v) => v,
        None => DEFAULT_HEAD,
    };
    let tail = if c0 < len {
        let c1 = find_colon(p, c0 + 1, len);
        parse_count_at(p, c0 + 1, c1)
    } else {
        None
    };
    (head, tail)
}

impl PreviewSettings {
    /// Settings from an optional `HEAD:TAIL` argument; `None` without one.
    pub fn parse(preview_arg: Option<&str>) -> (r: Option<PreviewSettings>)
        ensures
            (r is Some) == (preview_arg is Some),
            r matches Some(s) ==> s.head_lines == head_count(preview_arg->0@) && match s.tail_lines {
                Some(t) => tail_count(preview_arg->0@) == Some(t as int),
                None => tail_count(preview_arg->0@) is None,
            },
    {
        match preview_arg {
            Some(p) => {
                let (head, tail) = parse_head_tail(p);
                Some(PreviewSettings { head_lines: head, tail_lines: tail })
            },
            None => None,
        }
    }
}

impl ChunkFilterSettings {
    /// Settings from an optional `HEAD:TAIL` argument; `None` without one.
    pub fn parse(filter_arg: Option<&str>) -> (r: Option<ChunkFilterSettings>)
        ensures
            (r is Some) == (filter_arg is Some),
            r matches Some(s) ==> s.head_chunks == head_count(filter_arg->0@) && match s.tail_chunks {
                Some(t) => tail_count(filter_arg->0@) == Some(t as int),
                None => tail_count(filter_arg->0@) is None,
            },
    {
        match filter_arg {
            Some(p) => {
                let (head, tail) = parse_head_tail(p);
                Some(ChunkFilterSettings { head_chunks: head, tail_chunks: tail })
            },
            None => None,
        }
    }

    /// Whether chunk `chunk_num` of `total_chunks` is among the first or the last ones asked for.
    pub fn should_print_chunk(&self, chunk_num: usize, total_chunks: usize) -> (r: bool)
        ensures
            r == (chunk_num < self.head_chunks || (self.tail_chunks matches Some(t) && chunk_num + t
                >= total_chunks)),
    {
        if chunk_num < self.head_chunks {
            return true;
        }
        match self.tail_chunks {
            Some(tail) => chunk_num >= total_chunks.saturating_sub(tail),
            None => false,
        }
    }
}

/// Decides what becomes of a chunk as it is read: shown now (returned), or kept
/// in the tail buffer for the end of the pass. Without a filter every chunk is
/// shown; with one, the first `head_chunks` are; past them, chunks go to the
/// tail buffer if there is one and are shown otherwise.
pub fn route_chunk(
    filter: &Option<ChunkFilterSettings>,
    tail: &mut Option<TailBuffer>,
    chunk: ChunkInfo,
) -> (r: Option<ChunkInfo>)
    requires
        *old(tail) matches Some(b) ==> b.wf() && b.total_seen < usize::MAX,
    ensures
        filter is None ==> r == Some(chunk) && *final(tail) == *old(tail),
        filter matches Some(f) && chunk.chunk_number < f.head_chunks ==> r == Some(chunk)
            && *final(tail) == *old(tail),
        filter matches Some(f) && chunk.chunk_number >= f.head_chunks && *old(tail) is None ==> r
            == Some(chunk) && *final(tail) == *old(tail),
        filter matches Some(f) && chunk.chunk_number >= f.head_chunks && *old(tail) is Some ==> {
            let b = (*old(tail))->0;
            &&& r is None
            &&& *final(tail) is Some
            &&& (*final(tail))->0.wf()
            &&& chunk.chunk_number + b.capacity >= b.total_seen ==> {
                &&& (*final(tail))->0.buffered() == keep_last(b.buffered().push(chunk), b.capacity as int)
                &&& (*final(tail))->0.total_seen == b.total_seen + 1
                &&& (*final(tail))->0.capacity == b.capacity
            }
            &&& chunk.chunk_number + b.capacity < b.total_seen ==> (*final(tail))->0 == b
        },
{
    match filter {
        None => Some(chunk),
        Some(f) => {
            if chunk.chunk_number < f.head_chunks {
                Some(chunk)
            } else {
                match tail {
                    Some(b) => {
                        if b.should_buffer(chunk.chunk_number) {
                            b.add(chunk);
                        }
                        None
                    },
                    None => Some(chunk),
                }
            }
        },
    }
}

} // verus!
