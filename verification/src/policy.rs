//! Allocation policies: what a provider tries, and in which order, when the
//! backend has no chunk to give.

use vstd::prelude::*;
use std::marker::PhantomData;
use crate::backend::SharedMemoryProviderBackend;
use crate::chunk::AllocatedChunk;
use crate::provider::{BusyChunk, ProviderModel, SharedMemoryProvider};
use crate::resources::{ResourcesModel, SharedResources};
use crate::types::{ChunkAllocResult, MemoryLayout, ZAllocError};

verus! {

/// The default time that `BlockOn` waits between two attempts, in
/// milliseconds.
pub const BACKOFF_MS: u64 = 1;

/// Whether an allocation failed for want of memory: the failures that
/// eviction and waiting can cure.
pub open spec fn is_memory_error(result: ChunkAllocResult) -> bool {
    result == Err::<AllocatedChunk, ZAllocError>(ZAllocError::OutOfMemory) || result == Err::<
        AllocatedChunk,
        ZAllocError,
    >(ZAllocError::NeedDefragment)
}

/// Tells whether an allocation failed for want of memory.
pub fn check_memory_error(result: &ChunkAllocResult) -> (memory: bool)
    ensures
        memory == is_memory_error(*result),
{
    match result {
        Err(ZAllocError::OutOfMemory) => true,
        Err(ZAllocError::NeedDefragment) => true,
        _ => false,
    }
}

/// Picks the chunk to take away from its buffer when memory is short.
pub trait ForceDeallocPolicy {
    /// The position of the victim among the chunks in use, oldest first;
    /// `None` where there is nothing to evict.
    spec fn victim(busy: Seq<BusyChunk>) -> Option<int>;

    /// Evicts the victim. Returns whether there was one; where there was
    /// none, nothing has changed.
    fn dealloc<const ID: u32, Backend: SharedMemoryProviderBackend>(
        provider: &mut SharedMemoryProvider<ID, Backend>,
        resources: &mut SharedResources,
    ) -> (done: bool)
        requires
            old(provider).wf(),
            old(resources).wf(),
        ensures
            final(provider).wf(),
            final(resources).wf(),
            done == (Self::victim(old(provider)@.busy) is Some),
            !done ==> *final(provider) == *old(provider) && *final(resources) == *old(resources),
            done ==> old(provider)@.evicted(
                old(resources)@,
                final(provider)@,
                final(resources)@,
                Self::victim(old(provider)@.busy)->Some_0,
            ),
    ;
}

/// Evicts the second oldest chunk, or the oldest where it is the only one:
/// the oldest is often the most used, the youngest the most recently
/// asked for.
pub struct DeallocOptimal;

impl ForceDeallocPolicy for DeallocOptimal {
    open spec fn victim(busy: Seq<BusyChunk>) -> Option<int> {
        if busy.len() >= 2 {
            Some(1)
        } else if busy.len() == 1 {
            Some(0)
        } else {
            None
        }
    }

    fn dealloc<const ID: u32, Backend: SharedMemoryProviderBackend>(
        provider: &mut SharedMemoryProvider<ID, Backend>,
        resources: &mut SharedResources,
    ) -> (done: bool) {
        if provider.busy_count() >= 2 {
            provider.evict(resources, 1)
        } else {
            provider.evict(resources, 0)
        }
    }
}

/// Evicts the youngest chunk.
pub struct DeallocYoungest;

impl ForceDeallocPolicy for DeallocYoungest {
    open spec fn victim(busy: Seq<BusyChunk>) -> Option<int> {
        if busy.len() >= 1 {
            Some(busy.len() - 1)
        } else {
            None
        }
    }

    fn dealloc<const ID: u32, Backend: SharedMemoryProviderBackend>(
        provider: &mut SharedMemoryProvider<ID, Backend>,
        resources: &mut SharedResources,
    ) -> (done: bool) {
        let count = provider.busy_count();
        if count >= 1 {
            provider.evict(resources, count - 1)
        } else {
            false
        }
    }
}

/// Evicts the oldest chunk.
pub struct DeallocEldest;

impl ForceDeallocPolicy for DeallocEldest {
    open spec fn victim(busy: Seq<BusyChunk>) -> Option<int> {
        if busy.len() >= 1 {
            Some(0)
        } else {
            None
        }
    }

    fn dealloc<const ID: u32, Backend: SharedMemoryProviderBackend>(
        provider: &mut SharedMemoryProvider<ID, Backend>,
        resources: &mut SharedResources,
    ) -> (done: bool) {
        provider.evict(resources, 0)
    }
}

/// A way to get a chunk from the backend of a provider.
pub trait AllocPolicy<Backend: SharedMemoryProviderBackend> {
    /// The policy's own account of one allocation: how the provider and the
    /// shared state are left, and what is returned.
    spec fn alloc_post(
        layout: MemoryLayout,
        before: ProviderModel<Backend>,
        before_resources: ResourcesModel,
        after: ProviderModel<Backend>,
        after_resources: ResourcesModel,
        result: ChunkAllocResult,
    ) -> bool;

    /// Gets a chunk of at least `layout.size()` bytes. Whatever the policy
    /// does on the way, no chunk is lost: a chunk that is returned is the
    /// only one that the backend handed out and that is in no buffer yet,
    /// and after a failure there is none.
    fn allocate<const ID: u32>(
        layout: &MemoryLayout,
        provider: &mut SharedMemoryProvider<ID, Backend>,
        resources: &mut SharedResources,
    ) -> (result: ChunkAllocResult)
        requires
            old(provider).wf(),
            old(resources).wf(),
        ensures
            final(provider).wf(),
            final(resources).wf(),
            Self::alloc_post(
                *layout,
                old(provider)@,
                old(resources)@,
                final(provider)@,
                final(resources)@,
                result,
            ),
            final(provider)@.backend.capacity() == old(provider)@.backend.capacity(),
            result is Ok ==> result->Ok_0.descriptor.len >= layout.size_spec() && final(provider)@.unwrapped() == old(provider)@.unwrapped().insert(result->Ok_0.descriptor),
            result is Err ==> final(provider)@.unwrapped() == old(provider)@.unwrapped(),
    ;
}

/// One call to the backend.
pub struct JustAlloc;

impl<Backend: SharedMemoryProviderBackend> AllocPolicy<Backend> for JustAlloc {
    open spec fn alloc_post(
        layout: MemoryLayout,
        before: ProviderModel<Backend>,
        before_resources: ResourcesModel,
        after: ProviderModel<Backend>,
        after_resources: ResourcesModel,
        result: ChunkAllocResult,
    ) -> bool {
        &&& before.allocated_once(layout, after, result)
        &&& after_resources == before_resources
    }

    fn allocate<const ID: u32>(
        layout: &MemoryLayout,
        provider: &mut SharedMemoryProvider<ID, Backend>,
        resources: &mut SharedResources,
    ) -> (result: ChunkAllocResult) {
        provider.allocate_chunk(layout)
    }
}

/// Whether a step that made a run of `reclaimed` bytes available makes a
/// second attempt at `size` bytes worth while.
pub open spec fn worth_retrying(reclaimed: usize, size: usize) -> bool {
    reclaimed >= size
}

/// Tries `InnerPolicy`; when that is out of memory, collects garbage and,
/// if a chunk that is large enough was collected, tries `AltPolicy`.
pub struct GarbageCollect<InnerPolicy = JustAlloc, AltPolicy = JustAlloc> {
    _phantom: PhantomData<InnerPolicy>,
    _phantom2: PhantomData<AltPolicy>,
}

/// What `GarbageCollect` does after the first attempt returned `first`.
pub open spec fn after_first_collecting<Backend: SharedMemoryProviderBackend, AltPolicy: AllocPolicy<Backend>>(
    layout: MemoryLayout,
    first: ChunkAllocResult,
    mid: ProviderModel<Backend>,
    mid_resources: ResourcesModel,
    after: ProviderModel<Backend>,
    after_resources: ResourcesModel,
    result: ChunkAllocResult,
) -> bool {
    if first == Err::<AllocatedChunk, ZAllocError>(ZAllocError::OutOfMemory) {
        exists|swept: ProviderModel<Backend>, swept_resources: ResourcesModel, reclaimed: usize|
            {
                &&& #[trigger] mid.collected(mid_resources, swept, swept_resources, reclaimed)
                &&& if worth_retrying(reclaimed, layout.size_spec()) {
                    AltPolicy::alloc_post(
                        layout,
                        swept,
                        swept_resources,
                        after,
                        after_resources,
                        result,
                    )
                } else {
                    after == swept && after_resources == swept_resources && result == first
                }
            }
    } else {
        after == mid && after_resources == mid_resources && result == first
    }
}

impl<
    Backend: SharedMemoryProviderBackend,
    InnerPolicy: AllocPolicy<Backend>,
    AltPolicy: AllocPolicy<Backend>,
> AllocPolicy<Backend> for GarbageCollect<InnerPolicy, AltPolicy> {
    open spec fn alloc_post(
        layout: MemoryLayout,
        before: ProviderModel<Backend>,
        before_resources: ResourcesModel,
        after: ProviderModel<Backend>,
        after_resources: ResourcesModel,
        result: ChunkAllocResult,
    ) -> bool {
        exists|mid: ProviderModel<Backend>, mid_resources: ResourcesModel, first: ChunkAllocResult|
            {
                &&& #[trigger] InnerPolicy::alloc_post(
                    layout,
                    before,
                    before_resources,
                    mid,
                    mid_resources,
                    first,
                )
                &&& after_first_collecting::<Backend, AltPolicy>(
                    layout,
                    first,
                    mid,
                    mid_resources,
                    after,
                    after_resources,
                    result,
                )
            }
    }

    fn allocate<const ID: u32>(
        layout: &MemoryLayout,
        provider: &mut SharedMemoryProvider<ID, Backend>,
        resources: &mut SharedResources,
    ) -> (result: ChunkAllocResult) {
        let result = InnerPolicy::allocate(layout, provider, resources);
        let ghost mid = provider@;
        let ghost mid_resources = resources@;
        proof {
            assert(InnerPolicy::alloc_post(
                *layout,
                old(provider)@,
                old(resources)@,
                mid,
                mid_resources,
                result,
            ));
        }
        if let Err(ZAllocError::OutOfMemory) = result {
            let reclaimed = provider.garbage_collect(resources);
            let ghost swept = provider@;
            let ghost swept_resources = resources@;
            proof {
                assert(mid.collected(mid_resources, swept, swept_resources, reclaimed));
            }
            if reclaimed >= layout.size() {
                return AltPolicy::allocate(layout, provider, resources);
            }
        }
        result
    }
}

/// Tries `InnerPolicy`; when that calls for defragmentation, defragments
/// and, if a run that is large enough came of it, tries `AltPolicy`.
pub struct Defragment<InnerPolicy = JustAlloc, AltPolicy = JustAlloc> {
    _phantom: PhantomData<InnerPolicy>,
    _phantom2: PhantomData<AltPolicy>,
}

/// What `Defragment` does after the first attempt returned `first`.
pub open spec fn after_first_defragmenting<Backend: SharedMemoryProviderBackend, AltPolicy: AllocPolicy<Backend>>(
    layout: MemoryLayout,
    first: ChunkAllocResult,
    mid: ProviderModel<Backend>,
    mid_resources: ResourcesModel,
    after: ProviderModel<Backend>,
    after_resources: ResourcesModel,
    result: ChunkAllocResult,
) -> bool {
    if first == Err::<AllocatedChunk, ZAllocError>(ZAllocError::NeedDefragment) {
        exists|joined: ProviderModel<Backend>, largest: usize|
            {
                &&& #[trigger] mid.defragmented(joined, largest)
                &&& if worth_retrying(largest, layout.size_spec()) {
                    AltPolicy::alloc_post(
                        layout,
                        joined,
                        mid_resources,
                        after,
                        after_resources,
                        result,
                    )
                } else {
                    after == joined && after_resources == mid_resources && result == first
                }
            }
    } else {
        after == mid && after_resources == mid_resources && result == first
    }
}

impl<
    Backend: SharedMemoryProviderBackend,
    InnerPolicy: AllocPolicy<Backend>,
    AltPolicy: AllocPolicy<Backend>,
> AllocPolicy<Backend> for Defragment<InnerPolicy, AltPolicy> {
    open spec fn alloc_post(
        layout: MemoryLayout,
        before: ProviderModel<Backend>,
        before_resources: ResourcesModel,
        after: ProviderModel<Backend>,
        after_resources: ResourcesModel,
        result: ChunkAllocResult,
    ) -> bool {
        exists|mid: ProviderModel<Backend>, mid_resources: ResourcesModel, first: ChunkAllocResult|
            {
                &&& #[trigger] InnerPolicy::alloc_post(
                    layout,
                    before,
                    before_resources,
                    mid,
                    mid_resources,
                    first,
                )
                &&& after_first_defragmenting::<Backend, AltPolicy>(
                    layout,
                    first,
                    mid,
                    mid_resources,
                    after,
                    after_resources,
                    result,
                )
            }
    }

    fn allocate<const ID: u32>(
        layout: &MemoryLayout,
        provider: &mut SharedMemoryProvider<ID, Backend>,
        resources: &mut SharedResources,
    ) -> (result: ChunkAllocResult) {
        let result = InnerPolicy::allocate(layout, provider, resources);
        let ghost mid = provider@;
        let ghost mid_resources = resources@;
        proof {
            assert(InnerPolicy::alloc_post(
                *layout,
                old(provider)@,
                old(resources)@,
                mid,
                mid_resources,
                result,
            ));
        }
        if let Err(ZAllocError::NeedDefragment) = result {
            let largest = provider.defragment();
            let ghost joined = provider@;
            proof {
                assert(mid.defragmented(joined, largest));
            }
            if largest >= layout.size() {
                return AltPolicy::allocate(layout, provider, resources);
            }
        }
        result
    }
}

/// Tries `InnerPolicy`; while memory is short, evicts a chunk that
/// `DeallocatePolicy` picks and tries `AltPolicy`, up to `N` times.
pub struct Deallocate<
    const N: usize,
    InnerPolicy = JustAlloc,
    AltPolicy = InnerPolicy,
    DeallocatePolicy = DeallocOptimal,
> {
    _phantom: PhantomData<InnerPolicy>,
    _phantom2: PhantomData<AltPolicy>,
    _phantom3: PhantomData<DeallocatePolicy>,
}

/// What `Deallocate` does with `rounds` evictions left, after the last
/// attempt returned `last`: it stops where `last` is no want of memory, no
/// round is left or nothing is there to evict; else it evicts, tries again
/// and goes on with one round less.
pub open spec fn after_rounds<
    Backend: SharedMemoryProviderBackend,
    AltPolicy: AllocPolicy<Backend>,
    DeallocatePolicy: ForceDeallocPolicy,
>(
    rounds: nat,
    layout: MemoryLayout,
    last: ChunkAllocResult,
    before: ProviderModel<Backend>,
    before_resources: ResourcesModel,
    after: ProviderModel<Backend>,
    after_resources: ResourcesModel,
    result: ChunkAllocResult,
) -> bool
    decreases rounds,
{
    if rounds == 0 || !is_memory_error(last) || DeallocatePolicy::victim(before.busy) is None {
        after == before && after_resources == before_resources && result == last
    } else {
        exists|
            evicted: ProviderModel<Backend>,
            evicted_resources: ResourcesModel,
            retried: ProviderModel<Backend>,
            retried_resources: ResourcesModel,
            next: ChunkAllocResult,
        |
            {
                &&& before.evicted(
                    before_resources,
                    evicted,
                    evicted_resources,
                    DeallocatePolicy::victim(before.busy)->Some_0,
                )
                &&& #[trigger] AltPolicy::alloc_post(
                    layout,
                    evicted,
                    evicted_resources,
                    retried,
                    retried_resources,
                    next,
                )
                &&& after_rounds::<Backend, AltPolicy, DeallocatePolicy>(
                    (rounds - 1) as nat,
                    layout,
                    next,
                    retried,
                    retried_resources,
                    after,
                    after_resources,
                    result,
                )
            }
    }
}

/// The rounds of `Deallocate` that follow an attempt.
pub fn evict_and_retry<
    const ID: u32,
    Backend: SharedMemoryProviderBackend,
    AltPolicy: AllocPolicy<Backend>,
    DeallocatePolicy: ForceDeallocPolicy,
>(
    rounds: usize,
    layout: &MemoryLayout,
    last: ChunkAllocResult,
    provider: &mut SharedMemoryProvider<ID, Backend>,
    resources: &mut SharedResources,
) -> (result: ChunkAllocResult)
    requires
        old(provider).wf(),
        old(resources).wf(),
        last is Ok ==> last->Ok_0.descriptor.len >= layout.size_spec(),
    ensures
        final(provider).wf(),
        final(resources).wf(),
        after_rounds::<Backend, AltPolicy, DeallocatePolicy>(
            rounds as nat,
            *layout,
            last,
            old(provider)@,
            old(resources)@,
            final(provider)@,
            final(resources)@,
            result,
        ),
        final(provider)@.backend.capacity() == old(provider)@.backend.capacity(),
        result is Ok ==> result->Ok_0.descriptor.len >= layout.size_spec(),
        last is Ok ==> result == last && final(provider)@ == old(provider)@,
        last is Err && result is Ok ==> final(provider)@.unwrapped() == old(provider)@.unwrapped().insert(result->Ok_0.descriptor),
        last is Err && result is Err ==> final(provider)@.unwrapped() == old(provider)@.unwrapped(),
    decreases rounds,
{
    if rounds == 0 || !check_memory_error(&last) {
        return last;
    }
    if !DeallocatePolicy::dealloc(provider, resources) {
        return last;
    }
    let ghost evicted = provider@;
    let ghost evicted_resources = resources@;
    let next = AltPolicy::allocate(layout, provider, resources);
    let ghost retried = provider@;
    let ghost retried_resources = resources@;
    proof {
        assert(AltPolicy::alloc_post(
            *layout,
            evicted,
            evicted_resources,
            retried,
            retried_resources,
            next,
        ));
    }
    evict_and_retry::<ID, Backend, AltPolicy, DeallocatePolicy>(
        rounds - 1,
        layout,
        next,
        provider,
        resources,
    )
}

impl<
    const N: usize,
    Backend: SharedMemoryProviderBackend,
    InnerPolicy: AllocPolicy<Backend>,
    AltPolicy: AllocPolicy<Backend>,
    DeallocatePolicy: ForceDeallocPolicy,
> AllocPolicy<Backend> for Deallocate<N, InnerPolicy, AltPolicy, DeallocatePolicy> {
    open spec fn alloc_post(
        layout: MemoryLayout,
        before: ProviderModel<Backend>,
        before_resources: ResourcesModel,
        after: ProviderModel<Backend>,
        after_resources: ResourcesModel,
        result: ChunkAllocResult,
    ) -> bool {
        exists|mid: ProviderModel<Backend>, mid_resources: ResourcesModel, first: ChunkAllocResult|
            {
                &&& #[trigger] InnerPolicy::alloc_post(
                    layout,
                    before,
                    before_resources,
                    mid,
                    mid_resources,
                    first,
                )
                &&& after_rounds::<Backend, AltPolicy, DeallocatePolicy>(
                    N as nat,
                    layout,
                    first,
                    mid,
                    mid_resources,
                    after,
                    after_resources,
                    result,
                )
            }
    }

    fn allocate<const ID: u32>(
        layout: &MemoryLayout,
        provider: &mut SharedMemoryProvider<ID, Backend>,
        resources: &mut SharedResources,
    ) -> (result: ChunkAllocResult) {
        let first = InnerPolicy::allocate(layout, provider, resources);
        let ghost mid = provider@;
        let ghost mid_resources = resources@;
        proof {
            assert(InnerPolicy::alloc_post(
                *layout,
                old(provider)@,
                old(resources)@,
                mid,
                mid_resources,
                first,
            ));
        }
        evict_and_retry::<ID, Backend, AltPolicy, DeallocatePolicy>(
            N,
            layout,
            first,
            provider,
            resources,
        )
    }
}

/// Tries `InnerPolicy` again and again while memory is short, waiting
/// between the attempts. The waiting is the caller's: `attempt` makes one
/// attempt and says whether to wait and call again.
pub struct BlockOn<InnerPolicy = JustAlloc> {
    _phantom: PhantomData<InnerPolicy>,
}

/// What one attempt of `BlockOn` found.
pub enum BlockOnStep {
    /// The allocation ended, with this result.
    Done(ChunkAllocResult),
    /// Memory is short: wait for `BACKOFF_MS` and attempt again.
    Wait,
}

/// What `BlockOn` makes of the result of an attempt.
pub open spec fn block_on_step(first: ChunkAllocResult) -> BlockOnStep {
    if is_memory_error(first) {
        BlockOnStep::Wait
    } else {
        BlockOnStep::Done(first)
    }
}

impl<InnerPolicy> BlockOn<InnerPolicy> {
    /// Decides what follows an attempt that returned `first`.
    pub fn decide(first: ChunkAllocResult) -> (step: BlockOnStep)
        ensures
            step == block_on_step(first),
    {
        if check_memory_error(&first) {
            BlockOnStep::Wait
        } else {
            BlockOnStep::Done(first)
        }
    }

    /// One attempt with `InnerPolicy`.
    pub fn attempt<const ID: u32, Backend: SharedMemoryProviderBackend>(
        layout: &MemoryLayout,
        provider: &mut SharedMemoryProvider<ID, Backend>,
        resources: &mut SharedResources,
    ) -> (step: BlockOnStep) where InnerPolicy: AllocPolicy<Backend>
        requires
            old(provider).wf(),
            old(resources).wf(),
        ensures
            final(provider).wf(),
            final(resources).wf(),
            exists|first: ChunkAllocResult|
                {
                    &&& #[trigger] InnerPolicy::alloc_post(
                        *layout,
                        old(provider)@,
                        old(resources)@,
                        final(provider)@,
                        final(resources)@,
                        first,
                    )
                    &&& step == block_on_step(first)
                },
            final(provider)@.backend.capacity() == old(provider)@.backend.capacity(),
            step is Done && step->Done_0 is Ok ==> step->Done_0->Ok_0.descriptor.len
                >= layout.size_spec() && final(provider)@.unwrapped() == old(provider)@.unwrapped().insert(step->Done_0->Ok_0.descriptor),
            !(step is Done && step->Done_0 is Ok) ==> final(provider)@.unwrapped() == old(provider)@.unwrapped(),
    {
        let first = InnerPolicy::allocate(layout, provider, resources);
        proof {
            assert(InnerPolicy::alloc_post(
                *layout,
                old(provider)@,
                old(resources)@,
                provider@,
                resources@,
                first,
            ));
        }
        Self::decide(first)
    }
}

} // verus!
