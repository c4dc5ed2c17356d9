//! Free runs of a segment, kept in the order of their offsets.

use vstd::prelude::*;
use crate::chunk::ChunkDescriptor;
use crate::seq_util::{lemma_sum_bounds, lemma_sum_insert, lemma_sum_push, lemma_sum_remove, lemma_sum_update, sum};

verus! {

/// A run of free bytes: `size` bytes from `offset` on.
#[derive(Clone, Copy, Debug, PartialEq, Eq, Structural)]
pub struct Chunk {
    pub offset: u32,
    pub size: u32,
}

impl Chunk {
    /// The offset of the first byte behind the run.
    pub open spec fn end(self) -> int {
        self.offset + self.size
    }

    /// Whether the byte at `offset` lies in the run.
    pub open spec fn has(self, offset: int) -> bool {
        self.offset <= offset < self.end()
    }
}

/// Free runs are not empty, lie inside the segment, are ordered by offset
/// and do not overlap.
pub open spec fn runs_wf(runs: Seq<Chunk>, capacity: nat) -> bool {
    &&& forall|i: int|
        0 <= i < runs.len() ==> (#[trigger] runs[i]).size > 0 && runs[i].end() <= capacity
    &&& forall|i: int, j: int|
        0 <= i < j < runs.len() ==> (#[trigger] runs[i]).end() <= (#[trigger] runs[j]).offset
}

/// No two runs touch: between any two there is at least one byte that is
/// not free.
pub open spec fn runs_apart(runs: Seq<Chunk>) -> bool {
    forall|i: int, j: int|
        0 <= i < j < runs.len() ==> (#[trigger] runs[i]).end() < (#[trigger] runs[j]).offset
}

/// Whether the byte at `offset` is free.
pub open spec fn covers(runs: Seq<Chunk>, offset: int) -> bool {
    exists|k: int| 0 <= k < runs.len() && (#[trigger] runs[k]).has(offset)
}

/// The sizes of `runs`, in the same order.
pub open spec fn sizes(runs: Seq<Chunk>) -> Seq<nat> {
    runs.map_values(|c: Chunk| c.size as nat)
}

/// The number of free bytes.
pub open spec fn total_size(runs: Seq<Chunk>) -> nat {
    sum(sizes(runs))
}

/// Whether a chunk and a run share a byte.
pub open spec fn chunk_meets_run(chunk: ChunkDescriptor, run: Chunk) -> bool {
    chunk.len > 0 && chunk.chunk < run.end() && run.offset < chunk.chunk + chunk.len
}

/// Whether two chunks share a byte.
pub open spec fn chunks_meet(a: ChunkDescriptor, b: ChunkDescriptor) -> bool {
    a.len > 0 && b.len > 0 && a.chunk < b.chunk + b.len && b.chunk < a.chunk + a.len
}

/// The position of the largest run; of the first, where several are
/// largest. 0 for an empty list.
pub open spec fn first_largest(runs: Seq<Chunk>) -> int
    decreases runs.len(),
{
    if runs.len() <= 1 {
        0
    } else {
        let k = first_largest(runs.drop_last());
        if runs.last().size > runs[k].size {
            runs.len() - 1
        } else {
            k
        }
    }
}

/// The size of the largest run; 0 for an empty list.
pub open spec fn max_size(runs: Seq<Chunk>) -> nat {
    if runs.len() == 0 {
        0
    } else {
        runs[first_largest(runs)].size as nat
    }
}

/// `first_largest` is the position of a run that no run exceeds and that
/// every earlier run is smaller than.
pub proof fn lemma_first_largest(runs: Seq<Chunk>)
    requires
        runs.len() > 0,
    ensures
        0 <= first_largest(runs) < runs.len(),
        forall|j: int| 0 <= j < runs.len() ==> (#[trigger] runs[j]).size <= max_size(runs),
        forall|j: int| 0 <= j < first_largest(runs) ==> (#[trigger] runs[j]).size < max_size(runs),
    decreases runs.len(),
{
    if runs.len() > 1 {
        let rest = runs.drop_last();
        lemma_first_largest(rest);
        assert forall|j: int| 0 <= j < runs.len() implies (#[trigger] runs[j]).size <= max_size(
            runs,
        ) by {
            if j < rest.len() {
                assert(rest[j] == runs[j]);
            }
        }
        assert forall|j: int| 0 <= j < first_largest(runs) implies (#[trigger] runs[j]).size
            < max_size(runs) by {
            assert(rest[j] == runs[j]);
        }
    }
}

/// A run that changes its size changes the free bytes by the difference.
pub proof fn lemma_total_size_update(runs: Seq<Chunk>, k: int, run: Chunk)
    requires
        0 <= k < runs.len(),
    ensures
        total_size(runs.update(k, run)) + runs[k].size == total_size(runs) + run.size,
{
    assert(sizes(runs.update(k, run)) =~= sizes(runs).update(k, run.size as nat));
    lemma_sum_update(sizes(runs), k, run.size as nat);
}

/// A run that leaves takes its size away.
pub proof fn lemma_total_size_remove(runs: Seq<Chunk>, k: int)
    requires
        0 <= k < runs.len(),
    ensures
        total_size(runs.remove(k)) + runs[k].size == total_size(runs),
{
    assert(sizes(runs.remove(k)) =~= sizes(runs).remove(k));
    lemma_sum_remove(sizes(runs), k);
}

/// A run that comes in adds its size.
pub proof fn lemma_total_size_insert(runs: Seq<Chunk>, k: int, run: Chunk)
    requires
        0 <= k <= runs.len(),
    ensures
        total_size(runs.insert(k, run)) == total_size(runs) + run.size,
{
    assert(sizes(runs.insert(k, run)) =~= sizes(runs).insert(k, run.size as nat));
    lemma_sum_insert(sizes(runs), k, run.size as nat);
}

/// A run that comes in at the end adds its size.
pub proof fn lemma_total_size_push(runs: Seq<Chunk>, run: Chunk)
    ensures
        total_size(runs.push(run)) == total_size(runs) + run.size,
{
    assert(sizes(runs.push(run)) =~= sizes(runs).push(run.size as nat));
    lemma_sum_push(sizes(runs), run.size as nat);
}

/// No run is larger than all free bytes together.
pub proof fn lemma_total_size_bounds(runs: Seq<Chunk>, k: int)
    requires
        0 <= k < runs.len(),
    ensures
        runs[k].size <= total_size(runs),
{
    lemma_sum_bounds(sizes(runs), k);
}

/// The position of the largest run of a list that is not empty.
pub fn largest_index(runs: &Vec<Chunk>) -> (k: usize)
    requires
        runs@.len() > 0,
    ensures
        k == first_largest(runs@),
        k < runs@.len(),
{
    let mut best: usize = 0;
    let mut i: usize = 1;
    proof {
        assert(runs@.take(1).len() == 1);
    }
    while i < runs.len()
        invariant
            1 <= i <= runs@.len(),
            best == first_largest(runs@.take(i as int)),
            best < i,
        decreases runs@.len() - i,
    {
        proof {
            let next = runs@.take(i + 1);
            assert(next.drop_last() =~= runs@.take(i as int));
            assert(next.last() == runs@[i as int]);
            assert(next[best as int] == runs@[best as int]);
        }
        if runs[i].size > runs[best].size {
            best = i;
        }
        i = i + 1;
    }
    proof {
        assert(runs@.take(i as int) =~= runs@);
    }
    best
}

/// The position at which a run that starts at `offset` keeps the list in
/// order: behind every run that starts at or before it.
pub fn insert_position(runs: &Vec<Chunk>, offset: u32) -> (p: usize)
    ensures
        p <= runs@.len(),
        forall|j: int| 0 <= j < p ==> (#[trigger] runs@[j]).offset <= offset,
        p < runs@.len() ==> runs@[p as int].offset > offset,
{
    let mut p: usize = 0;
    while p < runs.len() && runs[p].offset <= offset
        invariant
            p <= runs@.len(),
            forall|j: int| 0 <= j < p ==> (#[trigger] runs@[j]).offset <= offset,
        decreases runs@.len() - p,
    {
        p = p + 1;
    }
    p
}

} // verus!
