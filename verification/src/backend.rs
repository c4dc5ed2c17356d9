//! What a provider asks of the allocator that carves chunks out of data
//! segments.

use vstd::prelude::*;
use vstd::multiset::Multiset;
use crate::chunk::ChunkDescriptor;
use crate::common::ZResult;
use crate::types::{ChunkAllocResult, LimitedAlignment, MemoryLayout, ZAllocError};

verus! {

/// Whether `after` is `backend` after it took `chunks` back, one after the
/// other.
pub open spec fn freed_all<Backend: SharedMemoryProviderBackend>(
    backend: Backend,
    chunks: Seq<ChunkDescriptor>,
    after: Backend,
) -> bool
    decreases chunks.len(),
{
    if chunks.len() == 0 {
        after == backend
    } else {
        exists|mid: Backend|
            freed_all(backend, chunks.drop_last(), mid) && #[trigger] mid.free_post(
                chunks.last(),
                after,
            )
    }
}

/// A chunk allocator over one or more data segments. Implementations need
/// not be thread-safe.
///
/// The model of a backend is the number of bytes it manages, the number of
/// bytes that are free, and the chunks that it handed out and did not get
/// back.
pub trait SharedMemoryProviderBackend: LimitedAlignment + Sized {
    /// The invariant that every operation keeps.
    spec fn wf(&self) -> bool;

    /// The number of bytes under management.
    spec fn capacity(&self) -> nat;

    /// The number of bytes that are free.
    spec fn free_bytes(&self) -> nat;

    /// The chunks that were handed out and not freed.
    spec fn outstanding(&self) -> Multiset<ChunkDescriptor>;

    /// The implementation's own account of one allocation: which result it
    /// gives in which state, and what state it leaves.
    spec fn alloc_post(&self, layout: MemoryLayout, after: Self, result: ChunkAllocResult) -> bool;

    /// The implementation's own account of taking a chunk back.
    spec fn free_post(&self, chunk: ChunkDescriptor, after: Self) -> bool;

    /// The implementation's own account of one defragmentation.
    spec fn defragment_post(&self, after: Self, largest: usize) -> bool;

    /// The layout that this backend uses for `layout`, or why it has none.
    spec fn layout_for_spec(&self, layout: MemoryLayout) -> ZResult<MemoryLayout>;

    /// A backend with no chunk outstanding has all its bytes free.
    proof fn lemma_idle(&self)
        requires
            self.wf(),
            self.outstanding().len() == 0,
        ensures
            self.free_bytes() == self.capacity(),
    ;

    /// The free bytes are what is left of the bytes under management when
    /// the outstanding chunks are taken away: two states of a backend with
    /// the same capacity and the same chunks outstanding have the same
    /// number of bytes free.
    proof fn lemma_free_by_outstanding(&self, other: Self)
        requires
            self.wf(),
            other.wf(),
            self.capacity() == other.capacity(),
            self.outstanding() == other.outstanding(),
        ensures
            self.free_bytes() == other.free_bytes(),
    ;

    /// Hands out a chunk of at least `layout.size()` bytes. `OutOfMemory`
    /// is only returned where fewer bytes are free than asked for, and
    /// `NeedDefragment` only where enough are free. A failed allocation
    /// changes neither the free bytes nor the outstanding chunks.
    fn allocate(&mut self, layout: &MemoryLayout) -> (result: ChunkAllocResult)
        requires
            old(self).wf(),
        ensures
            final(self).wf(),
            final(self).capacity() == old(self).capacity(),
            old(self).alloc_post(*layout, *final(self), result),
            result is Ok ==> {
                let descriptor = result->Ok_0.descriptor;
                &&& descriptor.len >= layout.size_spec()
                &&& final(self).outstanding() == old(self).outstanding().insert(descriptor)
                &&& final(self).free_bytes() + descriptor.len == old(self).free_bytes()
            },
            result is Err ==> final(self).outstanding() == old(self).outstanding() && final(self).free_bytes() == old(self).free_bytes(),
            result == Err::<crate::chunk::AllocatedChunk, ZAllocError>(ZAllocError::OutOfMemory)
                ==> old(self).free_bytes() < layout.size_spec(),
            result == Err::<crate::chunk::AllocatedChunk, ZAllocError>(
                ZAllocError::NeedDefragment,
            ) ==> old(self).free_bytes() >= layout.size_spec(),
    ;

    /// Takes back a chunk that this backend handed out. A chunk that is not
    /// outstanding, because it was taken back before or never handed out,
    /// changes nothing.
    fn free(&mut self, chunk: &ChunkDescriptor)
        requires
            old(self).wf(),
        ensures
            final(self).wf(),
            final(self).capacity() == old(self).capacity(),
            old(self).free_post(*chunk, *final(self)),
            final(self).outstanding() == old(self).outstanding().remove(*chunk),
            final(self).free_bytes() == old(self).free_bytes() + (if old(self).outstanding().contains(*chunk) {
                chunk.len as nat
            } else {
                0nat
            }),
    ;

    /// Joins free runs that touch and returns the size of the largest free
    /// run there is afterwards.
    fn defragment(&mut self) -> (largest: usize)
        requires
            old(self).wf(),
        ensures
            final(self).wf(),
            final(self).capacity() == old(self).capacity(),
            final(self).outstanding() == old(self).outstanding(),
            final(self).free_bytes() == old(self).free_bytes(),
            old(self).defragment_post(*final(self), largest),
            largest <= final(self).free_bytes(),
    ;

    /// The number of bytes that are free.
    fn available(&self) -> (bytes: usize)
        requires
            self.wf(),
        ensures
            bytes == self.free_bytes(),
    ;

    /// The layout that this backend will use for `layout`: at least as
    /// large, and a multiple of its own alignment.
    fn layout_for(&self, layout: MemoryLayout) -> (result: ZResult<MemoryLayout>)
        requires
            self.wf(),
            layout.wf(),
        ensures
            result == self.layout_for_spec(layout),
            result is Ok ==> result->Ok_0.wf() && result->Ok_0.size_spec() >= layout.size_spec(),
    ;
}

} // verus!
