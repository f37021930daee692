//! A fixed-capacity ring of the most recent chunk records.

use vstd::prelude::*;
use vstd::arithmetic::div_mod::{lemma_fundamental_div_mod, lemma_fundamental_div_mod_converse};
use crate::scan::ChunkInfo;

verus! {

/// Physical slot of the `k`-th oldest record when the oldest sits at `start`.
pub open spec fn slot(start: int, k: int, cap: int) -> int {
    if start + k < cap {
        start + k
    } else {
        start + k - cap
    }
}

/// The last `cap` items of `q` (all of them if there are fewer).
pub open spec fn keep_last(q: Seq<ChunkInfo>, cap: int) -> Seq<ChunkInfo> {
    if q.len() <= cap {
        q
    } else {
        q.subrange(q.len() - cap, q.len() as int)
    }
}

/// Keeping the last `cap` items after each push keeps the last `cap` of the
/// whole history: so a buffer always holds the last `capacity` records added,
/// oldest first.
pub proof fn lemma_keep_last_push(q: Seq<ChunkInfo>, c: ChunkInfo, cap: int)
    requires
        cap >= 0,
    ensures
        keep_last(keep_last(q, cap).push(c), cap) == keep_last(q.push(c), cap),
{
    if q.len() > cap {
        assert(keep_last(keep_last(q, cap).push(c), cap) =~= keep_last(q.push(c), cap));
    } else {
        assert(keep_last(q, cap) == q);
    }
}

/// Retains the most recent `capacity` records added, and counts all of them.
pub struct TailBuffer {
    pub chunks: Vec<ChunkInfo>,
    pub capacity: usize,
    pub total_seen: usize,
}

impl TailBuffer {
    /// The ring holds `min(total_seen, capacity)` records.
    pub open spec fn wf(&self) -> bool {
        &&& self.total_seen <= self.capacity ==> self.chunks@.len() == self.total_seen
        &&& self.total_seen > self.capacity ==> self.chunks@.len() == self.capacity
    }

    /// Slot of the oldest retained record.
    pub open spec fn ring_start(&self) -> int {
        if self.total_seen <= self.capacity {
            0
        } else {
            (self.total_seen as int) % (self.capacity as int)
        }
    }

    /// The retained records, oldest first.
    pub open spec fn buffered(&self) -> Seq<ChunkInfo> {
        Seq::new(
            self.chunks@.len(),
            |k: int| self.chunks@[slot(self.ring_start(), k, self.capacity as int)],
        )
    }

    /// An empty buffer that retains up to `capacity` records.
    pub fn new(capacity: usize) -> (r: TailBuffer)
        ensures
            r.wf(),
            r.capacity == capacity,
            r.total_seen == 0,
            r.buffered() == Seq::<ChunkInfo>::empty(),
    {
        let r = TailBuffer { chunks: Vec::new(), capacity, total_seen: 0 };
        assert(r.buffered() =~= Seq::<ChunkInfo>::empty());
        r
    }

    /// Adds a record; once full, it takes the place of the oldest one.
    pub fn add(&mut self, chunk: ChunkInfo)
        requires
            old(self).wf(),
            old(self).total_seen < usize::MAX,
        ensures
            final(self).wf(),
            final(self).capacity == old(self).capacity,
            final(self).total_seen == old(self).total_seen + 1,
            final(self).buffered() == keep_last(
                old(self).buffered().push(chunk),
                old(self).capacity as int,
            ),
    {
        let ghost before = self.buffered();
        let ghost cap = self.capacity as int;
        if self.capacity == 0 {
            self.total_seen = self.total_seen + 1;
            assert(self.buffered() =~= keep_last(before.push(chunk), cap));
        } else if self.chunks.len() < self.capacity {
            self.chunks.push(chunk);
            self.total_seen = self.total_seen + 1;
            assert(self.buffered() =~= keep_last(before.push(chunk), cap));
        } else {
            let t = self.total_seen;
            let idx = t % self.capacity;
            proof {
                lemma_fundamental_div_mod(t as int, cap);
                let q = t as int / cap;
                assert((q + 1) * cap == q * cap + cap) by (nonlinear_arith);
                assert(cap * q == q * cap) by (nonlinear_arith);
                if idx + 1 < cap {
                    lemma_fundamental_div_mod_converse(t + 1, cap, q, idx + 1);
                } else {
                    lemma_fundamental_div_mod_converse(t + 1, cap, q + 1, 0);
                }
                if t == cap {
                    lemma_fundamental_div_mod_converse(t as int, cap, 1, 0);
                }
            }
            self.chunks.set(idx, chunk);
            self.total_seen = t + 1;
            let ghost after = self.buffered();
            let ghost want = keep_last(before.push(chunk), cap);
            assert forall|k: int| 0 <= k < cap implies after[k] == want[k] by {
                if k + 1 < cap {
                    assert(want[k] == before[k + 1]);
                } else {
                    assert(want[k] == chunk);
                }
            }
            assert(after =~= want);
        }
    }

    /// Whether record `chunk_num` is among the last `capacity` of those seen so far.
    pub fn should_buffer(&self, chunk_num: usize) -> (r: bool)
        ensures
            r == (chunk_num + self.capacity >= self.total_seen),
    {
        chunk_num >= self.total_seen.saturating_sub(self.capacity)
    }

    /// The retained records, oldest first.
    pub fn get_buffered(&self) -> (r: Vec<&ChunkInfo>)
        requires
            self.wf(),
        ensures
            r@.len() == self.buffered().len(),
            forall|i: int| 0 <= i < r@.len() ==> *r@[i] == self.buffered()[i],
    {
        let start: usize = if self.total_seen <= self.capacity || self.capacity == 0 {
            0
        } else {
            self.total_seen % self.capacity
        };
        let mut out: Vec<&ChunkInfo> = Vec::new();
        let mut k: usize = 0;
        while k < self.chunks.len()
            invariant
                self.wf(),
                self.chunks@.len() > 0 ==> start == self.ring_start() && start < self.capacity,
                k <= self.chunks@.len(),
                out@.len() == k,
                forall|i: int| 0 <= i < k ==> *out@[i] == self.buffered()[i],
            decreases self.chunks@.len() - k,
        {
            let j: usize = if k < self.capacity - start {
                start + k
            } else {
                k - (self.capacity - start)
            };
            out.push(&self.chunks[j]);
            k = k + 1;
        }
        out
    }
}

} // verus!
