//! The allocator of the reference backend.

use vstd::prelude::*;
use vstd::multiset::Multiset;
use vstd::string::StringExecFns;
use crate::backend::SharedMemoryProviderBackend;
use crate::chunk::{
    lemma_total_len_bounds, lemma_total_len_by_multiset, lemma_total_len_push,
    lemma_total_len_remove, total_len, AllocatedChunk,
    ChunkDescriptor,
};
use crate::common::{ProtocolID, SegmentID, ZError, ZResult};
use crate::posix::free_list::{
    chunk_meets_run, chunks_meet, covers, first_largest, insert_position, largest_index,
    lemma_first_largest, lemma_total_size_bounds,
    lemma_total_size_insert, lemma_total_size_push, lemma_total_size_remove,
    lemma_total_size_update, max_size, runs_apart, runs_wf, sizes, total_size, Chunk,
};
use crate::segment::Segment;
use crate::types::{
    lemma_multiples_add, lemma_multiples_sub, lemma_round_up, round_up, AllocAlignment,
    ChunkAllocResult, LimitedAlignment, MemoryLayout, ZAllocError,
};

verus! {

/// The protocol id of buffers that this backend allocates.
pub const POSIX_PROTOCOL_ID: ProtocolID = 0;

/// The position at which a run that starts at `offset` is put into `runs`:
/// behind every run that starts at or before it.
pub open spec fn slot_for(runs: Seq<Chunk>, offset: u32) -> int
    decreases runs.len(),
{
    if runs.len() == 0 {
        0
    } else if runs[0].offset > offset {
        0
    } else {
        1 + slot_for(runs.drop_first(), offset)
    }
}

/// `slot_for` is the position behind the runs that start at or before
/// `offset` and before the first that starts behind it.
pub proof fn lemma_slot_for_is(runs: Seq<Chunk>, offset: u32, p: int)
    requires
        0 <= p <= runs.len(),
        forall|j: int| 0 <= j < p ==> (#[trigger] runs[j]).offset <= offset,
        p < runs.len() ==> runs[p].offset > offset,
    ensures
        slot_for(runs, offset) == p,
    decreases runs.len(),
{
    if runs.len() > 0 && p > 0 {
        assert(runs[0].offset <= offset);
        let rest = runs.drop_first();
        assert forall|j: int| 0 <= j < p - 1 implies (#[trigger] rest[j]).offset <= offset by {
            assert(rest[j] == runs[j + 1]);
        }
        lemma_slot_for_is(rest, offset, p - 1);
    }
}

/// What the backend holds: the segment, the free runs in the order of their
/// offsets, and the chunks that are handed out.
pub struct PosixModel {
    pub segment: SegmentID,
    /// The address of the segment's first byte in this process.
    pub base: usize,
    pub capacity: nat,
    pub alignment: AllocAlignment,
    pub runs: Seq<Chunk>,
    pub handed_out: Multiset<ChunkDescriptor>,
}

impl PosixModel {
    /// The number of bytes that an allocation of `size` bytes takes: the
    /// size rounded up to the alignment of the backend, so that every chunk
    /// begins at a multiple of the alignment.
    pub open spec fn granted(self, size: usize) -> nat {
        round_up(size as nat, self.alignment.value())
    }

    /// Whether some free run holds an allocation of `size` bytes.
    pub open spec fn can_take(self, size: usize) -> bool {
        self.runs.len() > 0 && max_size(self.runs) >= self.granted(size)
    }

    /// The chunk that an allocation of `size` bytes hands out: the front of
    /// the largest free run.
    pub open spec fn taken(self, size: usize) -> AllocatedChunk {
        let run = self.runs[first_largest(self.runs)];
        AllocatedChunk {
            descriptor: ChunkDescriptor {
                segment: self.segment,
                chunk: run.offset,
                len: self.granted(size) as u32,
            },
            data: self.base.wrapping_add(run.offset as usize),
        }
    }

    /// The result of an allocation of `size` bytes: out of memory where
    /// fewer bytes are free, a call for defragmentation where enough are
    /// free but no run is large enough, else a chunk of `size` bytes rounded
    /// up to the alignment.
    pub open spec fn alloc_result(self, size: usize) -> ChunkAllocResult {
        if total_size(self.runs) < size {
            Err(ZAllocError::OutOfMemory)
        } else if !self.can_take(size) {
            Err(ZAllocError::NeedDefragment)
        } else {
            Ok(self.taken(size))
        }
    }

    /// The backend after an allocation of `size` bytes: a failed one changes
    /// nothing; a successful one cuts the chunk off the front of the largest
    /// free run.
    pub open spec fn allocated(self, size: usize) -> PosixModel {
        if total_size(self.runs) >= size && self.can_take(size) {
            let k = first_largest(self.runs);
            let run = self.runs[k];
            let granted = self.granted(size);
            PosixModel {
                runs: if run.size == granted {
                    self.runs.remove(k)
                } else {
                    self.runs.update(
                        k,
                        Chunk {
                            offset: (run.offset + granted) as u32,
                            size: (run.size - granted) as u32,
                        },
                    )
                },
                handed_out: self.handed_out.insert(self.taken(size).descriptor),
                ..self
            }
        } else {
            self
        }
    }

    /// Whether this is `before` after a defragmentation: the same bytes are
    /// free, in runs of which no two touch, and nothing else has changed.
    pub open spec fn defragmented_from(self, before: PosixModel) -> bool {
        &&& self == PosixModel { runs: self.runs, ..before }
        &&& runs_wf(self.runs, self.capacity)
        &&& runs_apart(self.runs)
        &&& total_size(self.runs) == total_size(before.runs)
        &&& forall|offset: int| covers(self.runs, offset) == covers(before.runs, offset)
    }

    /// The backend after it got `chunk` back: its bytes are a free run
    /// again. A chunk that is not handed out changes nothing.
    pub open spec fn freed(self, chunk: ChunkDescriptor) -> PosixModel {
        if !self.handed_out.contains(chunk) {
            self
        } else {
            PosixModel {
                runs: if chunk.len == 0 {
                    self.runs
                } else {
                    self.runs.insert(
                        slot_for(self.runs, chunk.chunk),
                        Chunk { offset: chunk.chunk, size: chunk.len },
                    )
                },
                handed_out: self.handed_out.remove(chunk),
                ..self
            }
        }
    }
}

/// Every free run begins at a multiple of the alignment and is a multiple of
/// it long.
pub open spec fn runs_aligned(runs: Seq<Chunk>, alignment: nat) -> bool {
    forall|i: int|
        0 <= i < runs.len() ==> (#[trigger] runs[i]).offset as nat % alignment == 0
            && runs[i].size as nat % alignment == 0
}

/// Every chunk begins at a multiple of the alignment and is a multiple of it
/// long.
pub open spec fn chunks_aligned(chunks: Seq<ChunkDescriptor>, alignment: nat) -> bool {
    forall|i: int|
        0 <= i < chunks.len() ==> (#[trigger] chunks[i]).chunk as nat % alignment == 0
            && chunks[i].len as nat % alignment == 0
}

/// The chunks that are handed out lie inside the segment, and none of them
/// shares a byte with a free run or with another one.
pub open spec fn handed_out_wf(
    handed_out: Seq<ChunkDescriptor>,
    runs: Seq<Chunk>,
    segment: SegmentID,
    capacity: nat,
) -> bool {
    &&& forall|i: int|
        0 <= i < handed_out.len() ==> (#[trigger] handed_out[i]).segment == segment
            && handed_out[i].chunk + handed_out[i].len <= capacity
    &&& forall|i: int, k: int|
        0 <= i < handed_out.len() && 0 <= k < runs.len() ==> !chunk_meets_run(
            #[trigger] handed_out[i],
            #[trigger] runs[k],
        )
    &&& forall|i: int, j: int|
        0 <= i < handed_out.len() && 0 <= j < handed_out.len() && i != j ==> !chunks_meet(
            #[trigger] handed_out[i],
            #[trigger] handed_out[j],
        )
}

/// A free-list allocator over one segment of shared memory.
pub struct PosixSharedMemoryProviderBackend {
    segment: Segment,
    base: usize,
    capacity: u32,
    available: usize,
    free_list: Vec<Chunk>,
    alignment: AllocAlignment,
    handed_out: Vec<ChunkDescriptor>,
}

impl View for PosixSharedMemoryProviderBackend {
    type V = PosixModel;

    closed spec fn view(&self) -> PosixModel {
        PosixModel {
            segment: self.segment.id_spec(),
            base: self.base,
            capacity: self.capacity as nat,
            alignment: self.alignment,
            runs: self.free_list@,
            handed_out: self.handed_out@.to_multiset(),
        }
    }
}

impl PosixSharedMemoryProviderBackend {
    /// The invariant of the backend: the free runs are in order and apart
    /// from the chunks that are handed out, every byte of the segment is in
    /// a free run or in a chunk that is handed out, and runs and chunks begin
    /// at multiples of the alignment.
    pub closed spec fn inv(&self) -> bool {
        &&& runs_wf(self.free_list@, self.capacity as nat)
        &&& self.available == total_size(self.free_list@)
        &&& self.available + total_len(self.handed_out@) == self.capacity
        &&& handed_out_wf(
            self.handed_out@,
            self.free_list@,
            self.segment.id_spec(),
            self.capacity as nat,
        )
        &&& self.segment.len_spec() == self.capacity
        &&& self.base == self.segment.address_spec()
        &&& self.alignment.fits()
        &&& self.capacity as nat % self.alignment.value() == 0
        &&& runs_aligned(self.free_list@, self.alignment.value())
        &&& chunks_aligned(self.handed_out@, self.alignment.value())
    }

    /// What the invariant says of the free runs and of the chunks that are
    /// handed out.
    pub proof fn lemma_inv(&self)
        requires
            self.inv(),
        ensures
            self@.capacity <= u32::MAX,
            runs_wf(self@.runs, self@.capacity),
            total_size(self@.runs) <= self@.capacity,
            forall|c: ChunkDescriptor| #[trigger]
                self@.handed_out.contains(c) ==> c.segment == self@.segment && c.chunk + c.len
                    <= self@.capacity,
            forall|c: ChunkDescriptor, k: int| #[trigger]
                self@.handed_out.contains(c) && 0 <= k < self@.runs.len() ==> !chunk_meets_run(
                    c,
                    #[trigger] self@.runs[k],
                ),
            forall|a: ChunkDescriptor, b: ChunkDescriptor| #[trigger]
                self@.handed_out.contains(a) && #[trigger] self@.handed_out.contains(b) && a != b
                    ==> !chunks_meet(a, b),
            forall|c: ChunkDescriptor|
                self@.handed_out.contains(c) && c.len > 0 ==> #[trigger] self@.handed_out.count(c)
                    == 1,
            self@.alignment.fits(),
            self@.capacity % self@.alignment.value() == 0,
            runs_aligned(self@.runs, self@.alignment.value()),
            forall|c: ChunkDescriptor| #[trigger]
                self@.handed_out.contains(c) ==> c.chunk as nat % self@.alignment.value() == 0
                    && c.len as nat % self@.alignment.value() == 0,
    {
        let seq = self.handed_out@;
        seq.to_multiset_ensures();
        assert forall|c: ChunkDescriptor| seq.to_multiset().contains(c) && c.len > 0 implies (
        #[trigger] seq.to_multiset().count(c)) == 1 by {
            let i = choose|i: int| 0 <= i < seq.len() && seq[i] == c;
            lemma_count_one(seq, i);
        }
    }

    /// Starts a backend.
    pub fn builder() -> (builder: PosixSharedMemoryProviderBackendBuilder) {
        PosixSharedMemoryProviderBackendBuilder {  }
    }

    /// The id of the segment that the chunks lie in.
    pub fn segment_id(&self) -> (id: SegmentID)
        ensures
            id == self@.segment,
    {
        self.segment.id()
    }

    fn new(layout: &MemoryLayout) -> (result: ZResult<Self>)
        requires
            layout.size_spec() <= u32::MAX,
            layout.wf(),
            layout.alignment_spec().fits(),
        ensures
            result is Ok ==> {
                let backend = result->Ok_0;
                &&& backend.inv()
                &&& backend@.capacity == layout.size_spec()
                &&& layout.size_spec() > 0
                &&& backend@.alignment == layout.alignment_spec()
                &&& backend@.runs == seq![Chunk { offset: 0, size: layout.size_spec() as u32 }]
                &&& backend@.handed_out == Multiset::<ChunkDescriptor>::empty()
            },
            result is Err ==> result->Err_0 is OutOfIds || result->Err_0 is Other,
    {
        let size = layout.size();
        let segment = match Segment::create(size, "posix_shm_provider_segment") {
            Ok(segment) => segment,
            Err(e) => {
                return Err(e);
            },
        };
        let base = segment.as_ptr();
        let mut free_list: Vec<Chunk> = Vec::new();
        free_list.push(Chunk { offset: 0, size: size as u32 });
        let backend = PosixSharedMemoryProviderBackend {
            segment,
            base,
            capacity: size as u32,
            available: size,
            free_list,
            alignment: layout.alignment(),
            handed_out: Vec::new(),
        };
        proof {
            let alignment = layout.alignment_spec().value();
            vstd::arithmetic::power2::lemma_pow2_pos(layout.alignment_spec().exponent() as nat);
            let run = Chunk { offset: 0, size: size as u32 };
            let runs = backend.free_list@;
            let out = backend.handed_out@;
            assert(runs =~= seq![run]);
            assert(runs.len() == 1 && runs[0] == run);
            assert(out.len() == 0);
            assert(Seq::<Chunk>::empty().push(run) =~= runs);
            lemma_total_size_push(Seq::<Chunk>::empty(), run);
            assert(sizes(Seq::<Chunk>::empty()) =~= Seq::<nat>::empty());
            assert(total_size(Seq::<Chunk>::empty()) == 0);
            assert(total_size(runs) == size);
            assert(crate::chunk::lens(out) =~= Seq::<nat>::empty());
            assert(total_len(out) == 0);
            assert(runs_wf(runs, size as nat));
            assert(handed_out_wf(out, runs, backend.segment.id_spec(), size as nat));
            assert(0nat % alignment == 0) by (nonlinear_arith)
                requires
                    alignment > 0,
            ;
            assert(runs_aligned(runs, alignment));
            assert(chunks_aligned(out, alignment));
            assert(out.to_multiset() =~= Multiset::<ChunkDescriptor>::empty()) by {
                out.to_multiset_ensures();
                vstd::multiset::lemma_multiset_empty_len(out.to_multiset());
            }
            assert(backend.inv());
        }
        Ok(backend)
    }
}

/// The first position of `chunk` among `chunks`, if it is there.
fn find_chunk(chunks: &Vec<ChunkDescriptor>, chunk: &ChunkDescriptor) -> (found: Option<usize>)
    ensures
        found is Some ==> found->Some_0 < chunks@.len() && chunks@[found->Some_0 as int] == *chunk,
        found is None ==> !chunks@.contains(*chunk),
{
    let mut i: usize = 0;
    while i < chunks.len()
        invariant
            i <= chunks@.len(),
            forall|j: int| 0 <= j < i ==> chunks@[j] != *chunk,
        decreases chunks@.len() - i,
    {
        if chunks[i] == *chunk {
            return Some(i);
        }
        i = i + 1;
    }
    None
}

/// A chunk that is not empty occurs once among the chunks that are handed
/// out without sharing bytes.
proof fn lemma_count_one(seq: Seq<ChunkDescriptor>, i: int)
    requires
        0 <= i < seq.len(),
        seq[i].len > 0,
        forall|a: int, b: int|
            0 <= a < seq.len() && 0 <= b < seq.len() && a != b ==> !chunks_meet(
                #[trigger] seq[a],
                #[trigger] seq[b],
            ),
    ensures
        seq.to_multiset().count(seq[i]) == 1,
{
    let c = seq[i];
    let rest = seq.remove(i);
    seq.to_multiset_ensures();
    rest.to_multiset_ensures();
    assert(rest.to_multiset() =~= seq.to_multiset().remove(c));
    if rest.contains(c) {
        let j = choose|j: int| 0 <= j < rest.len() && rest[j] == c;
        let k = if j < i {
            j
        } else {
            j + 1
        };
        assert(seq[k] == c);
        assert(chunks_meet(seq[i], seq[k]));
    }
    assert(rest.to_multiset().count(c) == 0);
}

/// Makes a backend: first the size of its segment, then the segment
/// itself.
pub struct PosixSharedMemoryProviderBackendBuilder {}

impl PosixSharedMemoryProviderBackendBuilder {
    /// A backend of `size` bytes with the default alignment. The size has to
    /// fit the 32 bits of a chunk's offset.
    pub fn with_size(self, size: usize) -> (result: ZResult<
        LayoutedPosixSharedMemoryProviderBackendBuilder,
    >)
        ensures
            result is Ok <==> size <= u32::MAX,
            result is Ok ==> result->Ok_0.layout.size_spec() == size
                && result->Ok_0.layout.alignment_spec().exponent() == 0,
            result is Err ==> result->Err_0 == ZError::BadLayout,
    {
        if size > u32::MAX as usize {
            return Err(ZError::BadLayout);
        }
        proof {
            vstd::arithmetic::power2::lemma2_to64();
        }
        match MemoryLayout::new(size, AllocAlignment::default()) {
            Ok(layout) => Ok(LayoutedPosixSharedMemoryProviderBackendBuilder { layout }),
            Err(e) => Err(e),
        }
    }

    /// A backend with the size and the alignment of `layout`.
    pub fn with_layout(self, layout: &MemoryLayout) -> (result: ZResult<
        LayoutedPosixSharedMemoryProviderBackendBuilder,
    >)
        ensures
            result is Ok <==> layout.size_spec() <= u32::MAX,
            result is Ok ==> result->Ok_0.layout == *layout,
            result is Err ==> result->Err_0 == ZError::BadLayout,
    {
        if layout.size() > u32::MAX as usize {
            return Err(ZError::BadLayout);
        }
        Ok(LayoutedPosixSharedMemoryProviderBackendBuilder { layout: *layout })
    }
}

pub struct LayoutedPosixSharedMemoryProviderBackendBuilder {
    pub layout: MemoryLayout,
}

impl LayoutedPosixSharedMemoryProviderBackendBuilder {
    /// Creates the segment. The new backend has one free run, the whole
    /// segment, and nothing handed out. A layout that the backend cannot
    /// work with is refused with `BadLayout` before any segment is made: a
    /// size beyond the 32 bits of a chunk's offset, an alignment that is no
    /// `usize`, or a size that is no multiple of the alignment. Any other
    /// failure is that of the creation of the segment.
    pub fn res(self) -> (result: ZResult<PosixSharedMemoryProviderBackend>)
        ensures
            result is Ok ==> {
                let backend = result->Ok_0;
                &&& backend.inv()
                &&& self.layout.size_spec() > 0
                &&& backend@.capacity == self.layout.size_spec()
                &&& backend@.alignment == self.layout.alignment_spec()
                &&& backend@.runs == seq![Chunk { offset: 0, size: self.layout.size_spec() as u32 }]
                &&& backend@.handed_out == Multiset::<ChunkDescriptor>::empty()
            },
            result is Err ==> result->Err_0 is OutOfIds || result->Err_0 is Other
                || result->Err_0 is BadLayout,
            (result is Err && result->Err_0 is BadLayout) <==> (self.layout.size_spec() > u32::MAX
                || !self.layout.alignment_spec().fits() || self.layout.size_spec() as nat
                % self.layout.alignment_spec().value() != 0),
    {
        if self.layout.size() > u32::MAX as usize {
            return Err(ZError::BadLayout);
        }
        let alignment = self.layout.alignment();
        if !alignment.is_representable() {
            return Err(ZError::BadLayout);
        }
        if self.layout.size() % alignment.get_alignment_value() != 0 {
            return Err(ZError::BadLayout);
        }
        PosixSharedMemoryProviderBackend::new(&self.layout)
    }
}

impl LimitedAlignment for PosixSharedMemoryProviderBackend {
    open spec fn max_align_spec(&self) -> AllocAlignment {
        self@.alignment
    }

    fn max_align(&self) -> (alignment: AllocAlignment) {
        self.alignment
    }
}

impl SharedMemoryProviderBackend for PosixSharedMemoryProviderBackend {
    open spec fn wf(&self) -> bool {
        self.inv()
    }

    open spec fn capacity(&self) -> nat {
        self@.capacity
    }

    open spec fn free_bytes(&self) -> nat {
        total_size(self@.runs)
    }

    open spec fn outstanding(&self) -> Multiset<ChunkDescriptor> {
        self@.handed_out
    }

    open spec fn alloc_post(&self, layout: MemoryLayout, after: Self, result: ChunkAllocResult) -> bool {
        &&& result == self@.alloc_result(layout.size_spec())
        &&& after@ == self@.allocated(layout.size_spec())
    }

    open spec fn free_post(&self, chunk: ChunkDescriptor, after: Self) -> bool {
        after@ == self@.freed(chunk)
    }

    open spec fn defragment_post(&self, after: Self, largest: usize) -> bool {
        after@.defragmented_from(self@) && largest == max_size(after@.runs)
    }

    open spec fn layout_for_spec(&self, layout: MemoryLayout) -> ZResult<MemoryLayout> {
        layout.extended(self@.alignment)
    }

    proof fn lemma_free_by_outstanding(&self, other: Self) {
        lemma_total_len_by_multiset(self.handed_out@, other.handed_out@);
    }

    proof fn lemma_idle(&self) {
        self.handed_out@.to_multiset_ensures();
    }

    /// Cuts a chunk off the front of the largest free run; of the first,
    /// where several are largest. The chunk is as long as the size that is
    /// asked for, rounded up to the alignment of the backend.
    fn allocate(&mut self, layout: &MemoryLayout) -> (result: ChunkAllocResult) {
        let size = layout.size();
        if self.available < size {
            return Err(ZAllocError::OutOfMemory);
        }
        proof {
            vstd::arithmetic::power2::lemma_pow2_pos(self.alignment.exponent() as nat);
            lemma_round_up(size as nat, self.alignment.value(), self.capacity as nat);
        }
        let granted = self.alignment.align_size(size);
        if self.free_list.len() == 0 {
            return Err(ZAllocError::NeedDefragment);
        }
        let k = largest_index(&self.free_list);
        let run = self.free_list[k];
        proof {
            lemma_first_largest(self.free_list@);
            lemma_total_size_bounds(self.free_list@, k as int);
        }
        if (run.size as usize) < granted {
            return Err(ZAllocError::NeedDefragment);
        }
        let len = granted as u32;
        proof {
            let a = self.alignment.value() as int;
            lemma_multiples_add(run.offset as int, len as int, a);
            lemma_multiples_sub(run.size as int, len as int, a);
        }
        let descriptor = ChunkDescriptor::new(self.segment.id(), run.offset, len);
        let ghost old_runs = self.free_list@;
        let ghost old_out = self.handed_out@;
        if run.size == len {
            self.free_list.remove(k);
            proof {
                lemma_total_size_remove(old_runs, k as int);
            }
        } else {
            let rest = Chunk { offset: run.offset + len, size: run.size - len };
            self.free_list.set(k, rest);
            proof {
                lemma_total_size_update(old_runs, k as int, rest);
            }
        }
        self.available = self.available - granted;
        self.handed_out.push(descriptor);
        proof {
            lemma_total_len_push(old_out, descriptor);
            let runs = self.free_list@;
            let out = self.handed_out@;
            assert(out.to_multiset() =~= old_out.to_multiset().insert(descriptor)) by {
                old_out.to_multiset_ensures();
            }
            assert forall|i: int| 0 <= i < runs.len() implies (#[trigger] runs[i]).size > 0
                && runs[i].end() <= self.capacity && !chunk_meets_run(descriptor, runs[i])
                && exists|m: int|
                0 <= m < old_runs.len() && old_runs[m].offset <= runs[i].offset && runs[i].end()
                    <= old_runs[m].end() by {
                if run.size == len {
                    if i < k {
                        assert(runs[i] == old_runs[i]);
                        assert(old_runs[i].end() <= old_runs[k as int].offset);
                    } else {
                        assert(runs[i] == old_runs[i + 1]);
                        assert(old_runs[k as int].end() <= old_runs[i + 1].offset);
                    }
                } else {
                    if i < k {
                        assert(runs[i] == old_runs[i]);
                        assert(old_runs[i].end() <= old_runs[k as int].offset);
                    } else if i > k {
                        assert(runs[i] == old_runs[i]);
                        assert(old_runs[k as int].end() <= old_runs[i].offset);
                    } else {
                        assert(old_runs[k as int].offset <= runs[i].offset);
                    }
                }
            }
            assert forall|i: int, j: int| 0 <= i < j < runs.len() implies (#[trigger] runs[i]).end()
                <= (#[trigger] runs[j]).offset by {
                if run.size == len {
                    let a = if i < k {
                        i
                    } else {
                        i + 1
                    };
                    let b = if j < k {
                        j
                    } else {
                        j + 1
                    };
                    assert(runs[i] == old_runs[a] && runs[j] == old_runs[b]);
                    assert(old_runs[a].end() <= old_runs[b].offset);
                } else {
                    assert(old_runs[i].end() <= old_runs[j].offset);
                }
            }
            assert forall|i: int, m: int| 0 <= i < out.len() && 0 <= m < runs.len() implies 
                !chunk_meets_run(#[trigger] out[i], #[trigger] runs[m]) by {
                if i < old_out.len() {
                    let w = choose|w: int|
                        0 <= w < old_runs.len() && old_runs[w].offset <= runs[m].offset
                            && runs[m].end() <= old_runs[w].end();
                    assert(!chunk_meets_run(old_out[i], old_runs[w]));
                }
            }
            assert forall|i: int, j: int|
                0 <= i < out.len() && 0 <= j < out.len() && i != j implies !chunks_meet(
                #[trigger] out[i],
                #[trigger] out[j],
            ) by {
                if i < old_out.len() && j < old_out.len() {
                    assert(!chunks_meet(old_out[i], old_out[j]));
                } else if i < old_out.len() {
                    assert(!chunk_meets_run(old_out[i], old_runs[k as int]));
                } else {
                    assert(!chunk_meets_run(old_out[j], old_runs[k as int]));
                }
            }
        }
        Ok(AllocatedChunk::new(descriptor, self.base.wrapping_add(run.offset as usize)))
    }

    /// Makes the bytes of the chunk a free run again. The run is not joined
    /// with the runs that it touches: that is what `defragment` does. A chunk
    /// that is not handed out, or not any more, changes nothing.
    fn free(&mut self, chunk: &ChunkDescriptor) {
        let ghost old_runs = self.free_list@;
        let ghost old_out = self.handed_out@;
        proof {
            old_out.to_multiset_ensures();
        }
        let index = match find_chunk(&self.handed_out, chunk) {
            Some(index) => index,
            None => {
                proof {
                    broadcast use vstd::multiset::group_multiset_axioms;

                    assert(old_out.to_multiset().remove(*chunk) =~= old_out.to_multiset());
                }
                return ;
            },
        };
        let ghost at = index as int;
        proof {
            assert(old_out.contains(*chunk));
            lemma_total_len_remove(old_out, at);
            lemma_total_len_bounds(old_out, at);
            assert(old_out.remove(at).to_multiset() =~= old_out.to_multiset().remove(*chunk));
        }
        if chunk.len > 0 {
            let p = insert_position(&self.free_list, chunk.chunk);
            let run = Chunk { offset: chunk.chunk, size: chunk.len };
            proof {
                lemma_slot_for_is(old_runs, chunk.chunk, p as int);
                lemma_total_size_insert(old_runs, p as int, run);
            }
            self.free_list.insert(p, run);
            proof {
                let runs = self.free_list@;
                assert forall|j: int| 0 <= j < old_runs.len() implies (if j < p {
                    (#[trigger] old_runs[j]).end() <= run.offset
                } else {
                    run.end() <= old_runs[j].offset
                }) by {
                    assert(!chunk_meets_run(old_out[at], old_runs[j]));
                    if j >= p {
                        if j > p {
                            assert(old_runs[p as int].end() <= old_runs[j].offset);
                        }
                        assert(old_runs[p as int].size > 0);
                    }
                }
                assert forall|i: int, j: int| 0 <= i < j < runs.len() implies (
                #[trigger] runs[i]).end() <= (#[trigger] runs[j]).offset by {
                    let a = if i < p {
                        i
                    } else {
                        i - 1
                    };
                    let b = if j < p {
                        j
                    } else {
                        j - 1
                    };
                    if i == p {
                        assert(runs[j] == old_runs[b]);
                    } else if j == p {
                        assert(runs[i] == old_runs[a]);
                    } else {
                        assert(runs[i] == old_runs[a] && runs[j] == old_runs[b]);
                        assert(old_runs[a].end() <= old_runs[b].offset);
                    }
                }
                assert forall|i: int| 0 <= i < runs.len() implies (#[trigger] runs[i]).size > 0
                    && runs[i].end() <= self.capacity by {
                    if i < p {
                        assert(runs[i] == old_runs[i]);
                    } else if i > p {
                        assert(runs[i] == old_runs[i - 1]);
                    }
                }
            }
        }
        self.available = self.available + chunk.len as usize;
        self.handed_out.remove(index);
        proof {
            let runs = self.free_list@;
            let out = self.handed_out@;
            assert forall|i: int| 0 <= i < out.len() implies (#[trigger] out[i]).segment
                == self.segment.id_spec() && out[i].chunk + out[i].len <= self.capacity by {
                let a = if i < at {
                    i
                } else {
                    i + 1
                };
                assert(out[i] == old_out[a]);
            }
            assert forall|i: int, m: int| 0 <= i < out.len() && 0 <= m < runs.len() implies 
                !chunk_meets_run(#[trigger] out[i], #[trigger] runs[m]) by {
                let a = if i < at {
                    i
                } else {
                    i + 1
                };
                assert(out[i] == old_out[a]);
                if chunk.len > 0 {
                    let p = slot_for(old_runs, chunk.chunk);
                    if m < p {
                        assert(runs[m] == old_runs[m]);
                        assert(!chunk_meets_run(old_out[a], old_runs[m]));
                    } else if m > p {
                        assert(runs[m] == old_runs[m - 1]);
                        assert(!chunk_meets_run(old_out[a], old_runs[m - 1]));
                    } else {
                        assert(!chunks_meet(old_out[a], old_out[at]));
                    }
                } else {
                    assert(!chunk_meets_run(old_out[a], old_runs[m]));
                }
            }
            assert forall|i: int, j: int|
                0 <= i < out.len() && 0 <= j < out.len() && i != j implies !chunks_meet(
                #[trigger] out[i],
                #[trigger] out[j],
            ) by {
                let a = if i < at {
                    i
                } else {
                    i + 1
                };
                let b = if j < at {
                    j
                } else {
                    j + 1
                };
                assert(out[i] == old_out[a] && out[j] == old_out[b]);
                assert(!chunks_meet(old_out[a], old_out[b]));
            }
        }
    }

    /// Joins the free runs that touch, and returns the size of the largest
    /// free run there is afterwards.
    fn defragment(&mut self) -> (largest: usize) {
        let ghost old_runs = self.free_list@;
        let ghost out = self.handed_out@;
        let ghost capacity = self.capacity as nat;
        let ghost segment = self.segment.id_spec();
        let ghost alignment = self.alignment.value();
        proof {
            vstd::arithmetic::power2::lemma_pow2_pos(self.alignment.exponent() as nat);
        }
        let mut merged: Vec<Chunk> = Vec::new();
        let mut i: usize = 0;
        while i < self.free_list.len()
            invariant
                alignment > 0,
                runs_aligned(old_runs, alignment),
                runs_aligned(merged@, alignment),
                i <= old_runs.len(),
                self.free_list@ == old_runs,
                runs_wf(old_runs, capacity),
                capacity <= u32::MAX,
                runs_wf(merged@, capacity),
                runs_apart(merged@),
                total_size(merged@) == total_size(old_runs.take(i as int)),
                i > 0 ==> merged@.len() > 0 && merged@.last().end() == old_runs[i - 1].end(),
                i == 0 ==> merged@.len() == 0,
                forall|offset: int|
                    covers(merged@, offset) == covers(old_runs.take(i as int), offset),
                forall|h: int, m: int|
                    0 <= h < out.len() && 0 <= m < old_runs.len() ==> !chunk_meets_run(
                        #[trigger] out[h],
                        #[trigger] old_runs[m],
                    ),
                forall|h: int, m: int|
                    0 <= h < out.len() && 0 <= m < merged@.len() ==> !chunk_meets_run(
                        #[trigger] out[h],
                        #[trigger] merged@[m],
                    ),
            decreases old_runs.len() - i,
        {
            let run = self.free_list[i];
            let ghost before = merged@;
            let ghost prefix = old_runs.take(i as int);
            let ghost next = old_runs.take(i + 1);
            proof {
                assert(next =~= prefix.push(run));
                lemma_total_size_push(prefix, run);
                if i > 0 {
                    assert(old_runs[i - 1].end() <= old_runs[i as int].offset);
                }
            }
            let n = merged.len();
            if n > 0 && merged[n - 1].offset + merged[n - 1].size == run.offset {
                let last = merged[n - 1];
                let grown = Chunk { offset: last.offset, size: last.size + run.size };
                merged.set(n - 1, grown);
                proof {
                    lemma_total_size_update(before, n - 1, grown);
                    lemma_multiples_add(last.size as int, run.size as int, alignment as int);
                    let after = merged@;
                    assert forall|a: int| 0 <= a < after.len() implies (
                    #[trigger] after[a]).offset as nat % alignment == 0 && after[a].size as nat
                        % alignment == 0 by {
                        if a < n - 1 {
                            assert(after[a] == before[a]);
                        }
                    }
                    assert forall|a: int, b: int| 0 <= a < b < after.len() implies (
                    #[trigger] after[a]).end() < (#[trigger] after[b]).offset && after[a].end()
                        <= after[b].offset by {
                        assert(before[a].end() < before[b].offset);
                    }
                    assert forall|offset: int| covers(after, offset) == covers(next, offset) by {
                        if covers(after, offset) {
                            let w = choose|w: int| 0 <= w < after.len() && after[w].has(offset);
                            if w < n - 1 {
                                assert(before[w].has(offset));
                                assert(covers(before, offset));
                                let v = choose|v: int|
                                    0 <= v < prefix.len() && prefix[v].has(offset);
                                assert(next[v].has(offset));
                            } else if before[n - 1].has(offset) {
                                assert(covers(before, offset));
                                let v = choose|v: int|
                                    0 <= v < prefix.len() && prefix[v].has(offset);
                                assert(next[v].has(offset));
                            } else {
                                assert(next[i as int].has(offset));
                            }
                        }
                        if covers(next, offset) {
                            let v = choose|v: int| 0 <= v < next.len() && next[v].has(offset);
                            if v < i {
                                assert(prefix[v].has(offset));
                                assert(covers(before, offset));
                                let w = choose|w: int|
                                    0 <= w < before.len() && before[w].has(offset);
                                if w < n - 1 {
                                    assert(after[w].has(offset));
                                } else {
                                    assert(after[n - 1].has(offset));
                                }
                            } else {
                                assert(after[n - 1].has(offset));
                            }
                        }
                    }
                    assert forall|h: int, m: int|
                        0 <= h < out.len() && 0 <= m < after.len() implies !chunk_meets_run(
                        #[trigger] out[h],
                        #[trigger] after[m],
                    ) by {
                        if m < n - 1 {
                            assert(!chunk_meets_run(out[h], before[m]));
                        } else {
                            assert(!chunk_meets_run(out[h], before[n - 1]));
                            assert(!chunk_meets_run(out[h], old_runs[i as int]));
                        }
                    }
                }
            } else {
                merged.push(run);
                proof {
                    lemma_total_size_push(before, run);
                    let after = merged@;
                    assert forall|a: int| 0 <= a < after.len() implies (
                    #[trigger] after[a]).offset as nat % alignment == 0 && after[a].size as nat
                        % alignment == 0 by {
                        if a < n {
                            assert(after[a] == before[a]);
                        }
                    }
                    assert forall|a: int, b: int| 0 <= a < b < after.len() implies (
                    #[trigger] after[a]).end() < (#[trigger] after[b]).offset && after[a].end()
                        <= after[b].offset by {
                        if b < n {
                            assert(before[a].end() < before[b].offset);
                        } else if a < n - 1 {
                            assert(before[a].end() < before[n - 1].offset);
                            assert(before[n - 1].size > 0);
                        }
                    }
                    assert forall|offset: int| covers(after, offset) == covers(next, offset) by {
                        if covers(after, offset) {
                            let w = choose|w: int| 0 <= w < after.len() && after[w].has(offset);
                            if w < n {
                                assert(before[w].has(offset));
                                assert(covers(before, offset));
                                let v = choose|v: int|
                                    0 <= v < prefix.len() && prefix[v].has(offset);
                                assert(next[v].has(offset));
                            } else {
                                assert(next[i as int].has(offset));
                            }
                        }
                        if covers(next, offset) {
                            let v = choose|v: int| 0 <= v < next.len() && next[v].has(offset);
                            if v < i {
                                assert(prefix[v].has(offset));
                                assert(covers(before, offset));
                                let w = choose|w: int|
                                    0 <= w < before.len() && before[w].has(offset);
                                assert(after[w].has(offset));
                            } else {
                                assert(after[n as int].has(offset));
                            }
                        }
                    }
                    assert forall|h: int, m: int|
                        0 <= h < out.len() && 0 <= m < after.len() implies !chunk_meets_run(
                        #[trigger] out[h],
                        #[trigger] after[m],
                    ) by {
                        if m < n {
                            assert(!chunk_meets_run(out[h], before[m]));
                        } else {
                            assert(!chunk_meets_run(out[h], old_runs[i as int]));
                        }
                    }
                }
            }
            i = i + 1;
        }
        proof {
            assert(old_runs.take(i as int) =~= old_runs);
        }
        self.free_list = merged;
        if self.free_list.len() == 0 {
            0
        } else {
            let k = largest_index(&self.free_list);
            proof {
                lemma_total_size_bounds(self.free_list@, k as int);
            }
            self.free_list[k].size as usize
        }
    }

    /// The number of free bytes, whether they are in one run or in many.
    fn available(&self) -> (bytes: usize) {
        self.available
    }

    /// The layout enlarged to this backend's alignment.
    fn layout_for(&self, layout: MemoryLayout) -> (result: ZResult<MemoryLayout>)
        ensures
            result is Ok <==> layout.alignment_spec().exponent() <= self@.alignment.exponent()
                && self@.alignment.fits() && crate::types::round_up(
                layout.size_spec() as nat,
                self@.alignment.value(),
            ) <= usize::MAX,
            result is Ok ==> result->Ok_0.size_spec() == crate::types::round_up(
                layout.size_spec() as nat,
                self@.alignment.value(),
            ) && result->Ok_0.alignment_spec() == self@.alignment,
            result is Err ==> result->Err_0 == (if layout.alignment_spec().exponent()
                > self@.alignment.exponent() {
                ZError::BadAlignment
            } else {
                ZError::BadLayout
            }),
    {
        proof {
            vstd::arithmetic::power2::lemma_pow2_pos(self@.alignment.exponent() as nat);
        }
        let result = layout.extend(self.alignment);
        proof {
            if result is Ok {
                let a = self@.alignment.value();
                let s = layout.size_spec() as nat;
                assert(crate::types::round_up(s, a) >= s);
            }
        }
        result
    }
}

} // verus!
