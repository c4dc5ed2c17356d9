//! Identifiers and the error type shared by every component.

use vstd::prelude::*;

verus! {

/// Identifies the protocol (and so the backend) that produced a buffer.
pub type ProtocolID = u32;

/// Numeric tag of a shared-memory segment.
pub type SegmentID = u32;

/// Identifies a chunk inside its segment.
pub type ChunkID = u32;

/// What can go wrong outside the allocation fast path.
#[derive(Debug, PartialEq, Eq)]
pub enum ZError {
    /// The requested alignment is larger than the backend can honor.
    BadAlignment,
    /// The size is not a multiple of the alignment.
    BadLayout,
    /// The header or watchdog slot pool is full.
    Exhausted,
    /// The segment named by a descriptor does not exist.
    SegmentNotFound,
    /// The generation of a descriptor no longer matches the header's.
    StaleDescriptor,
    /// No unused segment id was found within the allowed number of tries.
    OutOfIds,
    /// An operating-system or encoding failure, with its description.
    Other(String),
}

pub type ZResult<T> = Result<T, ZError>;

} // verus!
