//! Chunks: the unit of allocation inside a data segment.

use vstd::prelude::*;
use crate::common::{ChunkID, SegmentID};
use crate::seq_util::{lemma_sum_bounds, lemma_sum_push, lemma_sum_remove, sum};

verus! {

/// Names a byte range of one segment of a backend.
#[derive(Clone, Copy, Debug, PartialEq, Eq, Structural)]
pub struct ChunkDescriptor {
    pub segment: SegmentID,
    pub chunk: ChunkID,
    pub len: u32,
}

impl ChunkDescriptor {
    pub fn new(segment: SegmentID, chunk: ChunkID, len: u32) -> (descriptor: Self)
        ensures
            descriptor.segment == segment,
            descriptor.chunk == chunk,
            descriptor.len == len,
    {
        Self { segment, chunk, len }
    }
}

/// A chunk handed out by a backend, as seen by its owner: the descriptor and
/// the address of the chunk's first byte in the owner's mapping.
#[derive(Clone, Copy, Debug, PartialEq, Eq, Structural)]
pub struct AllocatedChunk {
    pub descriptor: ChunkDescriptor,
    pub data: usize,
}

impl AllocatedChunk {
    pub fn new(descriptor: ChunkDescriptor, data: usize) -> (chunk: Self)
        ensures
            chunk.descriptor == descriptor,
            chunk.data == data,
    {
        Self { descriptor, data }
    }
}

/// The lengths of `chunks`, in the same order.
pub open spec fn lens(chunks: Seq<ChunkDescriptor>) -> Seq<nat> {
    chunks.map_values(|c: ChunkDescriptor| c.len as nat)
}

/// The number of bytes in `chunks`.
pub open spec fn total_len(chunks: Seq<ChunkDescriptor>) -> nat {
    sum(lens(chunks))
}

/// One chunk more adds its length.
pub proof fn lemma_total_len_push(chunks: Seq<ChunkDescriptor>, chunk: ChunkDescriptor)
    ensures
        total_len(chunks.push(chunk)) == total_len(chunks) + chunk.len,
{
    assert(lens(chunks.push(chunk)) =~= lens(chunks).push(chunk.len as nat));
    lemma_sum_push(lens(chunks), chunk.len as nat);
}

/// One chunk less takes its length away.
pub proof fn lemma_total_len_remove(chunks: Seq<ChunkDescriptor>, k: int)
    requires
        0 <= k < chunks.len(),
    ensures
        total_len(chunks.remove(k)) + chunks[k].len == total_len(chunks),
{
    assert(lens(chunks.remove(k)) =~= lens(chunks).remove(k));
    lemma_sum_remove(lens(chunks), k);
}

/// No chunk is longer than all chunks together.
pub proof fn lemma_total_len_bounds(chunks: Seq<ChunkDescriptor>, k: int)
    requires
        0 <= k < chunks.len(),
    ensures
        chunks[k].len <= total_len(chunks),
{
    lemma_sum_bounds(lens(chunks), k);
}

/// The number of bytes in chunks does not depend on their order.
pub proof fn lemma_total_len_by_multiset(a: Seq<ChunkDescriptor>, b: Seq<ChunkDescriptor>)
    requires
        a.to_multiset() == b.to_multiset(),
    ensures
        total_len(a) == total_len(b),
    decreases a.len(),
{
    broadcast use vstd::multiset::group_multiset_axioms;

    a.to_multiset_ensures();
    b.to_multiset_ensures();
    if a.len() == 0 {
        assert(a.to_multiset().len() == 0);
        assert(b.to_multiset().len() == 0);
        assert(b.len() == 0);
        assert(lens(a) =~= lens(b));
    } else {
        let last = a.len() - 1;
        let x = a[last];
        assert(a.contains(x));
        assert(a.to_multiset().count(x) > 0);
        assert(b.to_multiset().count(x) > 0);
        assert(b.contains(x));
        let j = choose|j: int| 0 <= j < b.len() && b[j] == x;
        assert(a.remove(last).to_multiset() =~= a.to_multiset().remove(x));
        assert(b.remove(j).to_multiset() =~= b.to_multiset().remove(x));
        lemma_total_len_by_multiset(a.remove(last), b.remove(j));
        lemma_total_len_remove(a, last);
        lemma_total_len_remove(b, j);
    }
}

} // verus!
