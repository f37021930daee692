//! Totals over all the chunks of a pass.

use vstd::prelude::*;
use crate::scan::ChunkInfo;

verus! {

/// Aggregate over all chunks: their number and the sums of their sizes.
/// The average compression ratio is `total_uncompressed_size / total_compressed_size`.
pub struct FileSummary {
    pub total_chunks: usize,
    pub total_compressed_size: u64,
    pub total_uncompressed_size: u64,
}

pub open spec fn sum_compressed(c: Seq<ChunkInfo>) -> int
    decreases c.len(),
{
    if c.len() == 0 {
        0
    } else {
        sum_compressed(c.drop_last()) + c.last().compressed_size
    }
}

pub open spec fn sum_uncompressed(c: Seq<ChunkInfo>) -> int
    decreases c.len(),
{
    if c.len() == 0 {
        0
    } else {
        sum_uncompressed(c.drop_last()) + c.last().uncompressed_size
    }
}

/// Totals over `chunks`; `None` where a sum does not fit in `u64`.
pub fn summarize(chunks: &Vec<ChunkInfo>) -> (r: Option<FileSummary>)
    ensures
        (r is Some) == (sum_compressed(chunks@) <= u64::MAX && sum_uncompressed(chunks@) <= u64::MAX),
        r matches Some(s) ==> {
            &&& s.total_chunks == chunks@.len()
            &&& s.total_compressed_size == sum_compressed(chunks@)
            &&& s.total_uncompressed_size == sum_uncompressed(chunks@)
        },
{
    let mut comp: u128 = 0;
    let mut uncomp: u128 = 0;
    let mut i: usize = 0;
    while i < chunks.len()
        invariant
            i <= chunks@.len(),
            comp == sum_compressed(chunks@.take(i as int)),
            uncomp == sum_uncompressed(chunks@.take(i as int)),
            comp <= i * 0xffff_ffff_ffff_ffffu128,
            uncomp <= i * 0xffff_ffff_ffff_ffffu128,
        decreases chunks@.len() - i,
    {
        assert(chunks@.take(i + 1).drop_last() =~= chunks@.take(i as int));
        comp = comp + chunks[i].compressed_size as u128;
        uncomp = uncomp + chunks[i].uncompressed_size as u128;
        i = i + 1;
    }
    assert(chunks@.take(i as int) =~= chunks@);
    if comp > 0xffff_ffff_ffff_ffffu128 || uncomp > 0xffff_ffff_ffff_ffffu128 {
        return None;
    }
    Some(
        FileSummary {
            total_chunks: chunks.len(),
            total_compressed_size: comp as u64,
            total_uncompressed_size: uncomp as u64,
        },
    )
}

} // verus!
