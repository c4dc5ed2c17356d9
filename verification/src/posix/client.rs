//! The client of the reference backend: it attaches to the segments that a
//! backend of another process created.

use vstd::prelude::*;
use crate::common::{ChunkID, SegmentID, ZError, ZResult};
use crate::segment::Segment;

verus! {

/// A segment that a client attached to.
pub trait SharedMemorySegment {
    /// The implementation's own account of mapping a chunk: which results
    /// it can give for which chunk.
    spec fn map_post(&self, chunk: ChunkID, result: ZResult<usize>) -> bool;

    /// The address of the chunk `chunk` in this process.
    fn map(&self, chunk: ChunkID) -> (result: ZResult<usize>)
        ensures
            self.map_post(chunk, result),
    ;
}

/// A way to attach to the segments of one protocol.
pub trait SharedMemoryClient {
    type Attached: SharedMemorySegment;

    /// The implementation's own account of attaching: which results it can
    /// give for which segment.
    spec fn attach_post(&self, segment: SegmentID, result: ZResult<Self::Attached>) -> bool;

    /// Attaches to the segment `segment`.
    fn attach(&self, segment: SegmentID) -> (result: ZResult<Self::Attached>)
        ensures
            self.attach_post(segment, result),
    ;
}

/// A segment of the reference backend, attached.
pub struct PosixSharedMemorySegment {
    segment: Segment,
}

impl PosixSharedMemorySegment {
    pub closed spec fn id_spec(&self) -> SegmentID {
        self.segment.id_spec()
    }

    pub closed spec fn len_spec(&self) -> usize {
        self.segment.len_spec()
    }

    /// The address at which the segment is attached.
    pub closed spec fn base_spec(&self) -> usize {
        self.segment.address_spec()
    }

    /// Attaches to the data segment `id`.
    pub fn open(id: SegmentID) -> (result: ZResult<Self>)
        ensures
            result is Ok ==> result->Ok_0.id_spec() == id,
            result is Err ==> result->Err_0 is SegmentNotFound || result->Err_0 is Other,
    {
        match Segment::open(id, "posix_shm_provider_segment") {
            Ok(segment) => Ok(PosixSharedMemorySegment { segment }),
            Err(e) => Err(e),
        }
    }

    pub fn id(&self) -> (id: SegmentID)
        ensures
            id == self.id_spec(),
    {
        self.segment.id()
    }
}

impl SharedMemorySegment for PosixSharedMemorySegment {
    open spec fn map_post(&self, chunk: ChunkID, result: ZResult<usize>) -> bool {
        result == (if chunk < self.len_spec() {
            Ok::<usize, ZError>(self.base_spec().wrapping_add(chunk as usize))
        } else {
            Err(ZError::SegmentNotFound)
        })
    }

    /// A chunk of this backend is named by its offset in the segment: its
    /// address is the address of the segment plus the offset. An offset
    /// behind the segment names no chunk.
    fn map(&self, chunk: ChunkID) -> (result: ZResult<usize>) {
        if (chunk as usize) < self.segment.len() {
            Ok(self.segment.as_ptr().wrapping_add(chunk as usize))
        } else {
            Err(ZError::SegmentNotFound)
        }
    }
}

/// The client of the reference backend.
pub struct PosixSharedMemoryClient {}

impl SharedMemoryClient for PosixSharedMemoryClient {
    type Attached = PosixSharedMemorySegment;

    open spec fn attach_post(
        &self,
        segment: SegmentID,
        result: ZResult<PosixSharedMemorySegment>,
    ) -> bool {
        &&& result is Ok ==> result->Ok_0.id_spec() == segment
        &&& result is Err ==> result->Err_0 is SegmentNotFound || result->Err_0 is Other
    }

    /// Attaches to the data segment `segment` of a backend of this
    /// protocol.
    fn attach(&self, segment: SegmentID) -> (result: ZResult<PosixSharedMemorySegment>) {
        PosixSharedMemorySegment::open(segment)
    }
}

} // verus!
