//! The provider: it owns a backend and the list of the chunks that are in
//! use, wraps chunks into buffers, and collects the chunks whose buffers are
//! gone.

use vstd::prelude::*;
use vstd::multiset::Multiset;
use std::collections::VecDeque;
use crate::backend::{freed_all, SharedMemoryProviderBackend};
use crate::buffer::{BufAllocResult, SharedMemoryBuf, SharedMemoryBufInfo};
use crate::policy::AllocPolicy;
use crate::chunk::{lemma_total_len_push, total_len, AllocatedChunk, ChunkDescriptor};
use crate::common::{SegmentID, ZError, ZResult};
use crate::types::{AllocAlignment, ChunkAllocResult, LimitedAlignment, MemoryLayout, ZAllocError};
use crate::header::{
    AllocatedHeaderDescriptor, Header, HeaderDescriptor, HeaderStorage, OwnedHeaderDescriptor,
};
use crate::resources::{ResourcesModel, SharedResources};
use crate::seq_util::{lemma_filter_contains_iff, lemma_filter_take_ends, lemma_filter_take_step};
use crate::watchdog::confirmator::ConfirmedDescriptor;
use crate::watchdog::descriptor::{highest_bit, pack, Descriptor, OwnedDescriptor};
use crate::watchdog::storage::AllocatedWatchdog;
use crate::watchdog::validator::Watched;

verus! {

/// A chunk in use: the chunk, and the header and the watchdog bit of the
/// buffer that it was wrapped into.
#[derive(Debug)]
pub struct BusyChunk {
    pub descriptor: ChunkDescriptor,
    pub header: AllocatedHeaderDescriptor,
    pub watchdog: AllocatedWatchdog,
}

impl BusyChunk {
    pub fn new(
        descriptor: ChunkDescriptor,
        header: AllocatedHeaderDescriptor,
        watchdog: AllocatedWatchdog,
    ) -> (chunk: Self)
        ensures
            chunk.descriptor == descriptor,
            chunk.header == header,
            chunk.watchdog == watchdog,
    {
        Self { descriptor, header, watchdog }
    }
}

/// The descriptors of the chunks in `busy`, in the same order.
pub open spec fn chunk_descriptors(busy: Seq<BusyChunk>) -> Seq<ChunkDescriptor> {
    busy.map_values(|b: BusyChunk| b.descriptor)
}

/// Whether the garbage collector takes a chunk: nobody refers to its buffer
/// any more, or the validator flagged its header. A chunk whose header names
/// no record is taken too.
pub open spec fn is_free_chunk(records: Seq<Header>, segment: SegmentID, chunk: BusyChunk) -> bool {
    let header = chunk.header.descriptor;
    if header.segment == segment && header.index < records.len() {
        records[header.index as int].refcount == 0
            || records[header.index as int].watchdog_invalidated
    } else {
        true
    }
}

/// The test for the chunks that the garbage collector takes.
pub open spec fn is_collectable(resources: ResourcesModel) -> spec_fn(BusyChunk) -> bool {
    |b: BusyChunk| is_free_chunk(resources.headers, resources.header_segment, b)
}

/// The test for the chunks that the garbage collector leaves.
pub open spec fn is_live(resources: ResourcesModel) -> spec_fn(BusyChunk) -> bool {
    |b: BusyChunk| !is_free_chunk(resources.headers, resources.header_segment, b)
}

/// The shared state after the headers and watchdog bits of `chunks` were
/// given back, in order.
pub open spec fn released_all(resources: ResourcesModel, chunks: Seq<BusyChunk>) -> ResourcesModel
    decreases chunks.len(),
{
    if chunks.len() == 0 {
        resources
    } else {
        released_all(resources, chunks.drop_last()).released(
            chunks.last().header.descriptor,
            chunks.last().watchdog.descriptor,
        )
    }
}

/// The length of the longest of `chunks`; 0 where there is none.
pub open spec fn largest_len(chunks: Seq<BusyChunk>) -> nat
    decreases chunks.len(),
{
    if chunks.len() == 0 {
        0
    } else {
        let rest = largest_len(chunks.drop_last());
        if chunks.last().descriptor.len > rest {
            chunks.last().descriptor.len as nat
        } else {
            rest
        }
    }
}

/// The generation that a new buffer records: that of its header.
pub open spec fn current_generation(resources: ResourcesModel, header: HeaderDescriptor) -> u32 {
    if header.id == resources.header_segment && header.index < resources.headers.len() {
        resources.headers[header.index as int].generation
    } else {
        0
    }
}

/// Decides whether the garbage collector takes `chunk`.
pub fn check_free_chunk(headers: &HeaderStorage, chunk: &BusyChunk) -> (free: bool)
    requires
        headers.wf(),
    ensures
        free == is_free_chunk(headers.records(), headers.id_spec(), *chunk),
{
    match headers.header(&chunk.header.descriptor) {
        None => true,
        Some(header) => {
            if header.refcount != 0 {
                header.watchdog_invalidated
            } else {
                true
            }
        },
    }
}

/// What a provider holds: its backend, and the chunks in use, oldest first.
pub struct ProviderModel<Backend> {
    pub backend: Backend,
    pub busy: Seq<BusyChunk>,
}

impl<Backend: SharedMemoryProviderBackend> ProviderModel<Backend> {
    /// The chunks in use, as the backend counts them.
    pub open spec fn held(self) -> Multiset<ChunkDescriptor> {
        chunk_descriptors(self.busy).to_multiset()
    }

    /// The chunks that the backend handed out and that are in no buffer.
    pub open spec fn unwrapped(self) -> Multiset<ChunkDescriptor> {
        self.backend.outstanding().sub(self.held())
    }

    /// The backend is in order, and every chunk in use is one that the
    /// backend handed out and did not get back.
    pub open spec fn wf(self) -> bool {
        &&& self.backend.wf()
        &&& self.held().subset_of(self.backend.outstanding())
    }

    /// What one allocation of the backend leaves: the chunks in use are as
    /// they were; a chunk that is returned is outstanding and its bytes are
    /// free no longer; a failure leaves the free bytes and the outstanding
    /// chunks, is `OutOfMemory` only where fewer bytes are free than asked
    /// for, and `NeedDefragment` only where enough are free.
    pub open spec fn allocated_once(
        self,
        layout: MemoryLayout,
        after: Self,
        result: ChunkAllocResult,
    ) -> bool {
        &&& after.busy == self.busy
        &&& self.backend.alloc_post(layout, after.backend, result)
        &&& after.backend.capacity() == self.backend.capacity()
        &&& result is Ok ==> {
            let descriptor = result->Ok_0.descriptor;
            &&& descriptor.len >= layout.size_spec()
            &&& after.backend.outstanding() == self.backend.outstanding().insert(descriptor)
            &&& after.backend.free_bytes() + descriptor.len == self.backend.free_bytes()
        }
        &&& result is Err ==> after.backend.outstanding() == self.backend.outstanding()
            && after.backend.free_bytes() == self.backend.free_bytes()
        &&& result == Err::<AllocatedChunk, ZAllocError>(ZAllocError::OutOfMemory)
            ==> self.backend.free_bytes() < layout.size_spec()
        &&& result == Err::<AllocatedChunk, ZAllocError>(ZAllocError::NeedDefragment)
            ==> self.backend.free_bytes() >= layout.size_spec()
    }

    /// Whether `after` still has every chunk of this state under account:
    /// the backend manages as many bytes as before, and has handed out no
    /// chunk more, and none less, that is in no buffer.
    pub open spec fn kept_by(self, after: Self) -> bool {
        &&& after.wf()
        &&& after.backend.capacity() == self.backend.capacity()
        &&& after.unwrapped() == self.unwrapped()
    }

    /// What a defragmentation leaves: the backend joined its free runs, and
    /// the chunks in use are as they were.
    pub open spec fn defragmented(self, after: Self, largest: usize) -> bool {
        &&& after.busy == self.busy
        &&& self.backend.defragment_post(after.backend, largest)
        &&& after.backend.capacity() == self.backend.capacity()
        &&& after.backend.outstanding() == self.backend.outstanding()
        &&& after.backend.free_bytes() == self.backend.free_bytes()
        &&& after.unwrapped() == self.unwrapped()
        &&& largest <= after.backend.free_bytes()
    }

    /// What an eviction leaves: the chunk at `index` is out of the chunks in
    /// use and back in the backend, and its header and watchdog bit are
    /// given back.
    pub open spec fn evicted(
        self,
        resources: ResourcesModel,
        after: Self,
        after_resources: ResourcesModel,
        index: int,
    ) -> bool {
        let victim = self.busy[index];
        &&& 0 <= index < self.busy.len()
        &&& after.busy == self.busy.remove(index)
        &&& after_resources == resources.released(
            victim.header.descriptor,
            victim.watchdog.descriptor,
        )
        &&& self.backend.free_post(victim.descriptor, after.backend)
        &&& after.backend.capacity() == self.backend.capacity()
        &&& after.backend.outstanding() == self.backend.outstanding().remove(victim.descriptor)
        &&& after.backend.free_bytes() == self.backend.free_bytes() + victim.descriptor.len
        &&& after.unwrapped() == self.unwrapped()
    }

    /// What a garbage collection leaves: the chunks that it takes are out
    /// of the chunks in use and back in the backend, their headers and
    /// watchdog bits are given back, and `largest` is the length of the
    /// longest of them.
    pub open spec fn collected(
        self,
        resources: ResourcesModel,
        after: Self,
        after_resources: ResourcesModel,
        largest: usize,
    ) -> bool {
        let taken = self.busy.filter(is_collectable(resources));
        &&& after.busy == self.busy.filter(is_live(resources))
        &&& after_resources == released_all(resources, taken)
        &&& freed_all(self.backend, chunk_descriptors(taken), after.backend)
        &&& after.backend.capacity() == self.backend.capacity()
        &&& after.backend.outstanding().add(chunk_descriptors(taken).to_multiset())
            == self.backend.outstanding()
        &&& after.backend.free_bytes() == self.backend.free_bytes() + total_len(
            chunk_descriptors(taken),
        )
        &&& after.unwrapped() == self.unwrapped()
        &&& largest == largest_len(taken)
    }
}

/// A provider of shared-memory buffers over the backend `Backend`; `ID` is
/// the protocol id that its buffers carry.
pub struct SharedMemoryProvider<const ID: u32, Backend: SharedMemoryProviderBackend> {
    backend: Backend,
    busy_list: VecDeque<BusyChunk>,
}

impl<const ID: u32, Backend: SharedMemoryProviderBackend> View for SharedMemoryProvider<
    ID,
    Backend,
> {
    type V = ProviderModel<Backend>;

    closed spec fn view(&self) -> ProviderModel<Backend> {
        ProviderModel { backend: self.backend, busy: self.busy_list@ }
    }
}

impl<const ID: u32, Backend: SharedMemoryProviderBackend> SharedMemoryProvider<ID, Backend> {
    /// The invariant of the provider: that of what it holds.
    pub open spec fn wf(&self) -> bool {
        self@.wf()
    }

    /// Starts a layout for buffers of this provider.
    pub fn alloc_layout(&self) -> (builder: crate::builder::AllocLayoutBuilder<'_, ID, Backend>)
        ensures
            builder.provider == self,
    {
        crate::builder::AllocLayoutBuilder { provider: self }
    }

    /// A provider with no chunk in use.
    pub fn new(backend: Backend) -> (provider: Self)
        requires
            backend.wf(),
        ensures
            provider.wf(),
            provider@.backend == backend,
            provider@.busy.len() == 0,
            provider@.unwrapped() == backend.outstanding(),
    {
        let provider = Self { backend, busy_list: VecDeque::new() };
        proof {
            broadcast use vstd::multiset::group_multiset_axioms;

            chunk_descriptors(provider@.busy).to_multiset_ensures();
            assert(provider@.held() =~= Multiset::<ChunkDescriptor>::empty());
            assert(provider@.unwrapped() =~= provider@.backend.outstanding());
        }
        provider
    }

    /// Joins the free runs of the backend.
    pub fn defragment(&mut self) -> (largest: usize)
        requires
            old(self).wf(),
        ensures
            final(self).wf(),
            old(self)@.defragmented(final(self)@, largest),
            old(self)@.kept_by(final(self)@),
    {
        self.backend.defragment()
    }

    /// The number of bytes that are free in the backend.
    pub fn available(&self) -> (bytes: usize)
        requires
            self.wf(),
        ensures
            bytes == self@.backend.free_bytes(),
    {
        self.backend.available()
    }

    /// One allocation of the backend, as the policies make it. The chunk is
    /// in no buffer yet.
    pub fn allocate_chunk(&mut self, layout: &MemoryLayout) -> (result: ChunkAllocResult)
        requires
            old(self).wf(),
        ensures
            final(self).wf(),
            old(self)@.allocated_once(*layout, final(self)@, result),
            final(self)@.backend.capacity() == old(self)@.backend.capacity(),
            result is Ok ==> result->Ok_0.descriptor.len >= layout.size_spec()
                && final(self)@.unwrapped() == old(self)@.unwrapped().insert(
                result->Ok_0.descriptor,
            ),
            result is Err ==> final(self)@.unwrapped() == old(self)@.unwrapped(),
    {
        let result = self.backend.allocate(layout);
        proof {
            broadcast use vstd::multiset::group_multiset_axioms;

            let held = old(self)@.held();
            let out = old(self)@.backend.outstanding();
            if result is Ok {
                let d = result->Ok_0.descriptor;
                assert(out.insert(d).sub(held) =~= out.sub(held).insert(d));
            }
        }
        result
    }

    /// The layout that the backend uses for `layout`.
    pub fn layout_for(&self, layout: MemoryLayout) -> (result: ZResult<MemoryLayout>)
        requires
            self.wf(),
            layout.wf(),
        ensures
            result == self@.backend.layout_for_spec(layout),
            result is Ok ==> result->Ok_0.wf() && result->Ok_0.size_spec() >= layout.size_spec(),
    {
        self.backend.layout_for(layout)
    }

    /// The largest alignment that the backend honors.
    pub fn max_align(&self) -> (alignment: AllocAlignment)
        ensures
            alignment == self@.backend.max_align_spec(),
    {
        self.backend.max_align()
    }

    /// The number of chunks in use.
    pub fn busy_count(&self) -> (count: usize)
        ensures
            count == self@.busy.len(),
    {
        self.busy_list.len()
    }

    /// What `wrap` leaves of the shared state: the watchdog bit of the new
    /// buffer is under validation.
    pub open spec fn watching(resources: ResourcesModel, chunk: BusyChunk) -> ResourcesModel {
        ResourcesModel {
            watched: resources.watched.push(
                Watched {
                    watchdog: chunk.watchdog.descriptor,
                    header: chunk.header.descriptor,
                    reported: false,
                },
            ),
            ..resources
        }
    }

    /// The buffer that `wrap` makes.
    pub open spec fn wrapped(
        resources: ResourcesModel,
        chunk: AllocatedChunk,
        len: usize,
        busy: BusyChunk,
        registration: ConfirmedDescriptor,
    ) -> SharedMemoryBuf {
        let header = HeaderDescriptor {
            id: busy.header.descriptor.segment,
            index: busy.header.descriptor.index,
        };
        SharedMemoryBuf {
            header: busy.header.descriptor,
            buf: chunk.data,
            info: SharedMemoryBufInfo {
                watchdog_descriptor: Descriptor {
                    id: busy.watchdog.descriptor.segment,
                    index_and_bitpos: pack(
                        busy.watchdog.descriptor.index,
                        highest_bit(busy.watchdog.descriptor.mask) as u32,
                    ),
                },
                header_descriptor: header,
                generation: current_generation(resources, header),
                data_descriptor: chunk.descriptor,
                shm_protocol: ID,
                data_len: len as u64,
            },
            watchdog: registration,
        }
    }

    /// Wraps a chunk of the backend into a buffer of `len` bytes: the
    /// watchdog bit goes under validation, and the chunk joins the chunks in
    /// use as the youngest.
    pub fn wrap(
        &mut self,
        resources: &mut SharedResources,
        chunk: AllocatedChunk,
        len: usize,
        allocated_header: AllocatedHeaderDescriptor,
        allocated_watchdog: AllocatedWatchdog,
        confirmed_watchdog: ConfirmedDescriptor,
    ) -> (buffer: SharedMemoryBuf)
        requires
            old(self).wf(),
            old(resources).wf(),
            old(self)@.unwrapped().contains(chunk.descriptor),
        ensures
            final(self).wf(),
            final(resources).wf(),
            final(self)@.backend == old(self)@.backend,
            final(self)@.busy == old(self)@.busy.push(
                BusyChunk {
                    descriptor: chunk.descriptor,
                    header: allocated_header,
                    watchdog: allocated_watchdog,
                },
            ),
            final(self)@.unwrapped() == old(self)@.unwrapped().remove(chunk.descriptor),
            final(resources)@ == Self::watching(
                old(resources)@,
                BusyChunk {
                    descriptor: chunk.descriptor,
                    header: allocated_header,
                    watchdog: allocated_watchdog,
                },
            ),
            buffer == Self::wrapped(
                old(resources)@,
                chunk,
                len,
                BusyChunk {
                    descriptor: chunk.descriptor,
                    header: allocated_header,
                    watchdog: allocated_watchdog,
                },
                confirmed_watchdog,
            ),
    {
        let header = allocated_header.descriptor;
        let descriptor = Descriptor::from(&allocated_watchdog.descriptor);
        resources.validator.add(allocated_watchdog.descriptor, header);
        let header_descriptor = HeaderDescriptor::from(&header);
        let generation = match resources.headers.header(&header) {
            Some(record) => record.generation,
            None => 0,
        };
        let info = SharedMemoryBufInfo::new(
            chunk.descriptor,
            ID,
            len as u64,
            descriptor,
            header_descriptor,
            generation,
        );
        let buffer = SharedMemoryBuf {
            header,
            buf: chunk.data,
            info,
            watchdog: confirmed_watchdog,
        };
        let busy = BusyChunk::new(chunk.descriptor, allocated_header, allocated_watchdog);
        proof {
            lemma_held_push(self.busy_list@, busy);
            broadcast use vstd::multiset::group_multiset_axioms;

            let held = old(self)@.held();
            let out = old(self)@.backend.outstanding();
            assert(held.insert(chunk.descriptor).subset_of(out));
            assert(out.sub(held.insert(chunk.descriptor)) =~= out.sub(held).remove(
                chunk.descriptor,
            ));
        }
        self.busy_list.push_back(busy);
        buffer
    }

    /// Wraps a chunk that the backend handed out by itself into a buffer of
    /// `len` bytes. Fails with `Exhausted`, changing nothing, exactly when no
    /// header or no watchdog bit is free.
    pub fn map(&mut self, resources: &mut SharedResources, chunk: AllocatedChunk, len: usize) -> (result:
        ZResult<SharedMemoryBuf>)
        requires
            old(self).wf(),
            old(resources).wf(),
            old(self)@.unwrapped().contains(chunk.descriptor),
        ensures
            final(self).wf(),
            final(resources).wf(),
            final(self)@.backend == old(self)@.backend,
            result is Ok <==> old(resources)@.can_allocate(),
            result is Err ==> result->Err_0 == ZError::Exhausted && final(self)@.busy == old(self)@.busy && final(resources)@ == old(resources)@,
            result is Ok ==> {
                let busy = BusyChunk {
                    descriptor: chunk.descriptor,
                    header: AllocatedHeaderDescriptor {
                        descriptor: old(resources)@.next_header(),
                    },
                    watchdog: AllocatedWatchdog { descriptor: old(resources)@.next_watchdog() },
                };
                &&& final(self)@.busy == old(self)@.busy.push(busy)
                &&& final(self)@.unwrapped() == old(self)@.unwrapped().remove(chunk.descriptor)
                &&& final(resources)@ == Self::watching(old(resources)@.with_allocation(), busy)
                &&& result->Ok_0 == Self::wrapped(
                    old(resources)@.with_allocation(),
                    chunk,
                    len,
                    busy,
                    ConfirmedDescriptor { owned: old(resources)@.next_watchdog() },
                )
            },
    {
        let (allocated_header, allocated_watchdog, confirmed_watchdog) =
            match Self::alloc_resources(resources) {
            Ok(allocated) => allocated,
            Err(e) => {
                return Err(e);
            },
        };
        Ok(
            self.wrap(
                resources,
                chunk,
                len,
                allocated_header,
                allocated_watchdog,
                confirmed_watchdog,
            ),
        )
    }

    /// Allocates the header and the watchdog bit of a new buffer and
    /// registers the bit with the confirmator. Fails with `Exhausted`,
    /// changing nothing, exactly when no header or no bit is free.
    pub fn alloc_resources(resources: &mut SharedResources) -> (result: ZResult<
        (AllocatedHeaderDescriptor, AllocatedWatchdog, ConfirmedDescriptor),
    >)
        requires
            old(resources).wf(),
        ensures
            final(resources).wf(),
            result is Ok <==> old(resources)@.can_allocate(),
            result is Err ==> result->Err_0 == ZError::Exhausted && final(resources)@ == old(resources)@,
            result is Ok ==> {
                let (header, watchdog, registration) = result->Ok_0;
                &&& header.descriptor == old(resources)@.next_header()
                &&& watchdog.descriptor == old(resources)@.next_watchdog()
                &&& registration.owned == old(resources)@.next_watchdog()
                &&& final(resources)@ == old(resources)@.with_allocation()
            },
    {
        resources.allocate()
    }

    /// What becomes of a new buffer once the policy has answered with
    /// `chunk`: a chunk is wrapped into the buffer, with the header, the
    /// watchdog bit and the registration that were allocated for it; after a
    /// failure the registration ends, the header and the bit are given back,
    /// and the failure is returned.
    pub open spec fn finished(
        mid: ProviderModel<Backend>,
        mid_resources: ResourcesModel,
        size: usize,
        chunk: ChunkAllocResult,
        header: OwnedHeaderDescriptor,
        watchdog: OwnedDescriptor,
        registration: ConfirmedDescriptor,
        after: ProviderModel<Backend>,
        after_resources: ResourcesModel,
        result: BufAllocResult,
    ) -> bool {
        match chunk {
            Ok(allocated) => {
                let busy = BusyChunk {
                    descriptor: allocated.descriptor,
                    header: AllocatedHeaderDescriptor { descriptor: header },
                    watchdog: AllocatedWatchdog { descriptor: watchdog },
                };
                &&& after == ProviderModel { busy: mid.busy.push(busy), ..mid }
                &&& after_resources == Self::watching(mid_resources, busy)
                &&& result == Ok::<SharedMemoryBuf, ZAllocError>(
                    Self::wrapped(mid_resources, allocated, size, busy, registration),
                )
            },
            Err(e) => {
                &&& after == mid
                &&& after_resources == mid_resources.unconfirmed(registration.owned).released(
                    header,
                    watchdog,
                )
                &&& result == Err::<SharedMemoryBuf, ZAllocError>(e)
            },
        }
    }

    /// Ends an allocation whose policy has answered with `chunk`: wraps the
    /// chunk into the buffer, or gives back what was allocated for the
    /// buffer and returns the failure. Either way no chunk, no header and no
    /// watchdog bit is lost.
    pub fn finish_alloc(
        &mut self,
        resources: &mut SharedResources,
        size: usize,
        chunk: ChunkAllocResult,
        allocated_header: AllocatedHeaderDescriptor,
        allocated_watchdog: AllocatedWatchdog,
        confirmed_watchdog: ConfirmedDescriptor,
    ) -> (result: BufAllocResult)
        requires
            old(self).wf(),
            old(resources).wf(),
            chunk is Ok ==> old(self)@.unwrapped().contains(chunk->Ok_0.descriptor),
        ensures
            final(self).wf(),
            final(resources).wf(),
            Self::finished(
                old(self)@,
                old(resources)@,
                size,
                chunk,
                allocated_header.descriptor,
                allocated_watchdog.descriptor,
                confirmed_watchdog,
                final(self)@,
                final(resources)@,
                result,
            ),
            final(self)@.backend == old(self)@.backend,
            result is Ok <==> chunk is Ok,
            final(self)@.unwrapped() == (if chunk is Ok {
                old(self)@.unwrapped().remove(chunk->Ok_0.descriptor)
            } else {
                old(self)@.unwrapped()
            }),
    {
        match chunk {
            Ok(allocated) => {
                let buffer = self.wrap(
                    resources,
                    allocated,
                    size,
                    allocated_header,
                    allocated_watchdog,
                    confirmed_watchdog,
                );
                Ok(buffer)
            },
            Err(e) => {
                resources.unconfirm(confirmed_watchdog);
                resources.release(allocated_header, allocated_watchdog);
                Err(e)
            },
        }
    }

    /// What an allocation with `Policy` leaves and returns. Where no header
    /// or no watchdog bit is free, it fails with `Exhausted` and changes
    /// nothing. Else the policy runs, with the header and the bit of the new
    /// buffer allocated; its chunk is wrapped into the buffer, or its
    /// failure is returned and the header and the bit are given back.
    pub open spec fn alloc_inner_post<Policy: AllocPolicy<Backend>>(
        before: ProviderModel<Backend>,
        before_resources: ResourcesModel,
        size: usize,
        layout: MemoryLayout,
        after: ProviderModel<Backend>,
        after_resources: ResourcesModel,
        result: BufAllocResult,
    ) -> bool {
        if !before_resources.can_allocate() {
            &&& after == before
            &&& after_resources == before_resources
            &&& result == Err::<SharedMemoryBuf, ZAllocError>(
                ZAllocError::Other(ZError::Exhausted),
            )
        } else {
            exists|mid: ProviderModel<Backend>, mid_resources: ResourcesModel, chunk: ChunkAllocResult|
                {
                    &&& #[trigger] Policy::alloc_post(
                        layout,
                        before,
                        before_resources.with_allocation(),
                        mid,
                        mid_resources,
                        chunk,
                    )
                    &&& Self::finished(
                        mid,
                        mid_resources,
                        size,
                        chunk,
                        before_resources.next_header(),
                        before_resources.next_watchdog(),
                        ConfirmedDescriptor { owned: before_resources.next_watchdog() },
                        after,
                        after_resources,
                        result,
                    )
                }
        }
    }

    /// Allocates a buffer of `size` bytes in a chunk of the layout `layout`,
    /// which `Policy` gets from the backend. No chunk is lost: after a
    /// success the new chunk is in use, and after a failure the backend has
    /// handed out nothing that is in no buffer.
    pub fn alloc_inner<Policy: AllocPolicy<Backend>>(
        &mut self,
        resources: &mut SharedResources,
        size: usize,
        layout: &MemoryLayout,
    ) -> (result: BufAllocResult)
        requires
            old(self).wf(),
            old(resources).wf(),
        ensures
            final(self).wf(),
            final(resources).wf(),
            Self::alloc_inner_post::<Policy>(
                old(self)@,
                old(resources)@,
                size,
                *layout,
                final(self)@,
                final(resources)@,
                result,
            ),
            old(self)@.kept_by(final(self)@),
            !old(resources)@.can_allocate() ==> result is Err,
    {
        let (allocated_header, allocated_watchdog, confirmed_watchdog) =
            match Self::alloc_resources(resources) {
            Ok(allocated) => allocated,
            Err(e) => {
                return Err(ZAllocError::Other(e));
            },
        };
        let ghost with_allocation = resources@;
        let chunk = Policy::allocate(layout, self, resources);
        let ghost mid = self@;
        let ghost mid_resources = resources@;
        proof {
            assert(Policy::alloc_post(
                *layout,
                old(self)@,
                with_allocation,
                mid,
                mid_resources,
                chunk,
            ));
            broadcast use vstd::multiset::group_multiset_axioms;

            if chunk is Ok {
                assert(old(self)@.unwrapped().insert(chunk->Ok_0.descriptor).remove(
                    chunk->Ok_0.descriptor,
                ) =~= old(self)@.unwrapped());
            }
        }
        self.finish_alloc(
            resources,
            size,
            chunk,
            allocated_header,
            allocated_watchdog,
            confirmed_watchdog,
        )
    }

    /// Takes the chunk at `index` of the chunks in use away from its buffer
    /// and gives it back to the backend. Nothing happens where there is no
    /// such chunk.
    pub fn evict(&mut self, resources: &mut SharedResources, index: usize) -> (done: bool)
        requires
            old(self).wf(),
            old(resources).wf(),
        ensures
            final(self).wf(),
            final(resources).wf(),
            done == (index < old(self)@.busy.len()),
            !done ==> *final(self) == *old(self) && *final(resources) == *old(resources),
            done ==> old(self)@.evicted(old(resources)@, final(self)@, final(resources)@, index as int),
            old(self)@.kept_by(final(self)@),
    {
        if index >= self.busy_list.len() {
            return false;
        }
        match self.busy_list.remove(index) {
            None => false,
            Some(victim) => {
                proof {
                    lemma_held_remove(old(self)@.busy, index as int);
                    broadcast use vstd::multiset::group_multiset_axioms;

                }
                self.backend.free(&victim.descriptor);
                resources.release(victim.header, victim.watchdog);
                proof {
                    broadcast use vstd::multiset::group_multiset_axioms;

                    let held = old(self)@.held();
                    let out = old(self)@.backend.outstanding();
                    let d = victim.descriptor;
                    assert(held.remove(d).subset_of(out.remove(d)));
                    assert(out.remove(d).sub(held.remove(d)) =~= out.sub(held));
                }
                true
            },
        }
    }

    /// Collects the chunks whose buffers nobody refers to any more or whose
    /// header the validator flagged, and returns the length of the longest
    /// chunk collected.
    pub fn garbage_collect(&mut self, resources: &mut SharedResources) -> (largest: usize)
        requires
            old(self).wf(),
            old(resources).wf(),
        ensures
            final(self).wf(),
            final(resources).wf(),
            old(self)@.collected(old(resources)@, final(self)@, final(resources)@, largest),
            old(self)@.kept_by(final(self)@),
    {
        let ghost before = self.busy_list@;
        let ghost start = resources@;
        let ghost out = self.backend.outstanding();
        let ghost free = self.backend.free_bytes();
        let ghost capacity = self.backend.capacity();
        let mut kept: VecDeque<BusyChunk> = VecDeque::new();
        let mut largest: usize = 0;
        let count = self.busy_list.len();
        let mut i: usize = 0;
        proof {
            lemma_filter_take_ends(before, is_live(start));
            lemma_filter_take_ends(before, is_collectable(start));
            assert(before.skip(0) =~= before);
            broadcast use vstd::multiset::group_multiset_axioms;

            chunk_descriptors(kept@).to_multiset_ensures();
            chunk_descriptors(Seq::<BusyChunk>::empty()).to_multiset_ensures();
            assert(chunk_descriptors(kept@).to_multiset() =~= Multiset::<ChunkDescriptor>::empty());
            assert(self.backend.outstanding().add(Multiset::<ChunkDescriptor>::empty()) =~= out);
        }
        while i < count
            invariant
                i <= count == before.len(),
                self.busy_list@ == before.skip(i as int),
                kept@ == before.take(i as int).filter(is_live(start)),
                resources.wf(),
                resources@ == released_all(
                    start,
                    before.take(i as int).filter(is_collectable(start)),
                ),
                resources@.headers == start.headers,
                resources@.header_segment == start.header_segment,
                self.backend.wf(),
                self.backend.capacity() == capacity,
                freed_all(
                    old(self)@.backend,
                    chunk_descriptors(before.take(i as int).filter(is_collectable(start))),
                    self.backend,
                ),
                self.backend.outstanding().add(
                    chunk_descriptors(
                        before.take(i as int).filter(is_collectable(start)),
                    ).to_multiset(),
                ) == out,
                self.backend.free_bytes() == free + total_len(
                    chunk_descriptors(before.take(i as int).filter(is_collectable(start))),
                ),
                chunk_descriptors(kept@).to_multiset().add(
                    chunk_descriptors(self.busy_list@).to_multiset(),
                ).subset_of(self.backend.outstanding()),
                self.backend.outstanding().sub(
                    chunk_descriptors(kept@).to_multiset().add(
                        chunk_descriptors(self.busy_list@).to_multiset(),
                    ),
                ) == out.sub(chunk_descriptors(before).to_multiset()),
                largest == largest_len(before.take(i as int).filter(is_collectable(start))),
            decreases count - i,
        {
            let ghost rest = self.busy_list@;
            let ghost taken = before.take(i as int).filter(is_collectable(start));
            let ghost kept_before = kept@;
            let ghost out_now = self.backend.outstanding();
            let ghost backend_now = self.backend;
            proof {
                lemma_filter_take_step(before, is_live(start), i as int);
                lemma_filter_take_step(before, is_collectable(start), i as int);
                lemma_held_pop_front(rest);
                assert(rest.drop_first() =~= before.skip(i + 1));
                assert(rest[0] == before[i as int]);
            }
            let chunk = self.busy_list.pop_front().unwrap();
            if check_free_chunk(&resources.headers, &chunk) {
                proof {
                    broadcast use vstd::multiset::group_multiset_axioms;

                    assert(out_now.contains(chunk.descriptor));
                }
                self.backend.free(&chunk.descriptor);
                if chunk.descriptor.len as usize > largest {
                    largest = chunk.descriptor.len as usize;
                }
                resources.release(chunk.header, chunk.watchdog);
                proof {
                    broadcast use vstd::multiset::group_multiset_axioms;

                    let grown = taken.push(chunk);
                    assert(grown.drop_last() =~= taken);
                    assert(chunk_descriptors(grown).drop_last() =~= chunk_descriptors(taken));
                    assert(chunk_descriptors(grown).last() == chunk.descriptor);
                    assert(backend_now.free_post(chunk.descriptor, self.backend));
                    lemma_held_push(taken, chunk);
                    assert(chunk_descriptors(grown) =~= chunk_descriptors(taken).push(
                        chunk.descriptor,
                    ));
                    lemma_total_len_push(chunk_descriptors(taken), chunk.descriptor);
                    let d = chunk.descriptor;
                    let k = chunk_descriptors(kept_before).to_multiset();
                    let r = chunk_descriptors(before.skip(i + 1)).to_multiset();
                    let t = chunk_descriptors(taken).to_multiset();
                    assert(out_now.remove(d).add(t.insert(d)) =~= out_now.add(t));
                    assert(k.add(r).subset_of(out_now.remove(d)));
                    assert(out_now.remove(d).sub(k.add(r)) =~= out_now.sub(k.add(r.insert(d))));
                }
            } else {
                proof {
                    lemma_held_push(kept_before, chunk);
                    broadcast use vstd::multiset::group_multiset_axioms;

                    let d = chunk.descriptor;
                    let k = chunk_descriptors(kept_before).to_multiset();
                    let r = chunk_descriptors(before.skip(i + 1)).to_multiset();
                    assert(k.insert(d).add(r) =~= k.add(r.insert(d)));
                }
                kept.push_back(chunk);
            }
            i = i + 1;
        }
        proof {
            assert(before.take(count as int) =~= before);
            broadcast use vstd::multiset::group_multiset_axioms;

            chunk_descriptors(self.busy_list@).to_multiset_ensures();
            assert(chunk_descriptors(self.busy_list@).to_multiset() =~= Multiset::<
                ChunkDescriptor,
            >::empty());
            assert(chunk_descriptors(kept@).to_multiset().add(
                Multiset::<ChunkDescriptor>::empty(),
            ) =~= chunk_descriptors(kept@).to_multiset());
        }
        self.busy_list = kept;
        largest
    }
}

/// Nothing leaks: when no chunk is in use and the backend has handed out
/// none that is in no buffer, every byte of the backend is free again.
pub proof fn lemma_no_leak<Backend: SharedMemoryProviderBackend>(provider: ProviderModel<Backend>)
    requires
        provider.wf(),
        provider.busy.len() == 0,
        provider.unwrapped().len() == 0,
    ensures
        provider.backend.free_bytes() == provider.backend.capacity(),
{
    broadcast use vstd::multiset::group_multiset_axioms;

    chunk_descriptors(provider.busy).to_multiset_ensures();
    assert(provider.held() =~= Multiset::<ChunkDescriptor>::empty());
    assert(provider.backend.outstanding() =~= provider.unwrapped());
    provider.backend.lemma_idle();
}

/// Nothing leaks over any sequence of operations. Let `states` be the
/// states of a provider in the course of any sequence of allocations with
/// any policy, garbage collections, evictions and defragmentations; each of
/// them keeps every chunk under account, and clones and drops of buffers
/// leave the provider as it is. Where no chunk is in use at the beginning
/// and none at the end, as many bytes are free at the end as were at the
/// beginning.
pub proof fn lemma_no_leak_over<Backend: SharedMemoryProviderBackend>(
    states: Seq<ProviderModel<Backend>>,
)
    requires
        states.len() > 0,
        states[0].wf(),
        states[0].busy.len() == 0,
        forall|i: int| 0 <= i < states.len() - 1 ==> (#[trigger] states[i]).kept_by(states[i + 1]),
        states.last().busy.len() == 0,
    ensures
        states.last().backend.free_bytes() == states[0].backend.free_bytes(),
{
    broadcast use vstd::multiset::group_multiset_axioms;

    let first = states[0];
    let last = states.last();
    lemma_kept_over(states, states.len() - 1);
    chunk_descriptors(first.busy).to_multiset_ensures();
    chunk_descriptors(last.busy).to_multiset_ensures();
    assert(first.held() =~= Multiset::<ChunkDescriptor>::empty());
    assert(last.held() =~= Multiset::<ChunkDescriptor>::empty());
    assert(first.backend.outstanding() =~= first.unwrapped());
    assert(last.backend.outstanding() =~= last.unwrapped());
    last.backend.lemma_free_by_outstanding(first.backend);
}

/// What every step keeps is kept over any number of steps.
pub proof fn lemma_kept_over<Backend: SharedMemoryProviderBackend>(
    states: Seq<ProviderModel<Backend>>,
    n: int,
)
    requires
        0 <= n < states.len(),
        states[0].wf(),
        forall|i: int| 0 <= i < states.len() - 1 ==> (#[trigger] states[i]).kept_by(states[i + 1]),
    ensures
        states[0].kept_by(states[n]),
    decreases n,
{
    if n == 0 {
        assert(states[0].unwrapped() =~= states[0].unwrapped());
    }
    if n > 0 {
        lemma_kept_over(states, n - 1);
        assert(states[n - 1].kept_by(states[n]));
    }
}

/// The garbage collector is sound: of the chunks in use, it takes exactly
/// those whose buffer nobody refers to or whose header the validator
/// flagged, and it leaves exactly the others.
pub proof fn lemma_collected_exactly<Backend: SharedMemoryProviderBackend>(
    before: ProviderModel<Backend>,
    resources: ResourcesModel,
    after: ProviderModel<Backend>,
    after_resources: ResourcesModel,
    largest: usize,
    chunk: BusyChunk,
)
    requires
        before.collected(resources, after, after_resources, largest),
    ensures
        after.busy.contains(chunk) <==> before.busy.contains(chunk) && !is_free_chunk(
            resources.headers,
            resources.header_segment,
            chunk,
        ),
        before.busy.filter(is_collectable(resources)).contains(chunk) <==> before.busy.contains(
            chunk,
        ) && is_free_chunk(resources.headers, resources.header_segment, chunk),
{
    lemma_filter_contains_iff(before.busy, is_live(resources), chunk);
    lemma_filter_contains_iff(before.busy, is_collectable(resources), chunk);
}

/// The chunks in use after a chunk joined them.
pub proof fn lemma_held_push(busy: Seq<BusyChunk>, chunk: BusyChunk)
    ensures
        chunk_descriptors(busy.push(chunk)).to_multiset() == chunk_descriptors(
            busy,
        ).to_multiset().insert(chunk.descriptor),
{
    assert(chunk_descriptors(busy.push(chunk)) =~= chunk_descriptors(busy).push(chunk.descriptor));
    chunk_descriptors(busy).to_multiset_ensures();
}

/// The chunks in use after the chunk at `index` left them.
pub proof fn lemma_held_remove(busy: Seq<BusyChunk>, index: int)
    requires
        0 <= index < busy.len(),
    ensures
        chunk_descriptors(busy.remove(index)).to_multiset() == chunk_descriptors(
            busy,
        ).to_multiset().remove(busy[index].descriptor),
        chunk_descriptors(busy).to_multiset().contains(busy[index].descriptor),
{
    let descriptors = chunk_descriptors(busy);
    assert(chunk_descriptors(busy.remove(index)) =~= descriptors.remove(index));
    descriptors.to_multiset_ensures();
    assert(descriptors[index] == busy[index].descriptor);
    assert(descriptors.contains(busy[index].descriptor));
}

/// The chunks in use, seen from the oldest.
pub proof fn lemma_held_pop_front(busy: Seq<BusyChunk>)
    requires
        busy.len() > 0,
    ensures
        chunk_descriptors(busy).to_multiset() == chunk_descriptors(
            busy.drop_first(),
        ).to_multiset().insert(busy[0].descriptor),
{
    broadcast use vstd::multiset::group_multiset_axioms;

    lemma_held_remove(busy, 0);
    assert(busy.remove(0) =~= busy.drop_first());
    assert(chunk_descriptors(busy).to_multiset() =~= chunk_descriptors(
        busy.drop_first(),
    ).to_multiset().insert(busy[0].descriptor));
}

} // verus!
