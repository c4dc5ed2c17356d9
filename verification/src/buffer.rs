//! Buffers: what an allocation returns to the producer, and what travels on
//! the wire so that another process can attach.

use vstd::prelude::*;
use crate::chunk::ChunkDescriptor;
use crate::common::ProtocolID;
use crate::header::{Header, HeaderDescriptor, HeaderStorage, OwnedHeaderDescriptor};
use crate::resources::{ResourcesModel, SharedResources};
use crate::watchdog::confirmator::ConfirmedDescriptor;
use crate::watchdog::descriptor::Descriptor;

verus! {

/// Everything another process needs to attach to a buffer.
#[derive(Clone, Copy, Debug, PartialEq, Eq, Structural)]
pub struct SharedMemoryBufInfo {
    /// The watchdog bit of the buffer.
    pub watchdog_descriptor: Descriptor,
    /// The header of the buffer.
    pub header_descriptor: HeaderDescriptor,
    /// The generation of the header when the buffer was made.
    pub generation: u32,
    /// The chunk that holds the data.
    pub data_descriptor: ChunkDescriptor,
    /// The protocol of the backend that allocated the chunk.
    pub shm_protocol: ProtocolID,
    /// The number of bytes of data; the chunk may be longer.
    pub data_len: u64,
}

impl SharedMemoryBufInfo {
    pub fn new(
        data_descriptor: ChunkDescriptor,
        shm_protocol: ProtocolID,
        data_len: u64,
        watchdog_descriptor: Descriptor,
        header_descriptor: HeaderDescriptor,
        generation: u32,
    ) -> (info: Self)
        ensures
            info == (SharedMemoryBufInfo {
                watchdog_descriptor,
                header_descriptor,
                generation,
                data_descriptor,
                shm_protocol,
                data_len,
            }),
    {
        SharedMemoryBufInfo {
            watchdog_descriptor,
            header_descriptor,
            generation,
            data_descriptor,
            shm_protocol,
            data_len,
        }
    }
}

/// A buffer in shared memory, as its owner holds it.
#[derive(Clone, Copy, Debug, PartialEq, Eq, Structural)]
pub struct SharedMemoryBuf {
    /// The header that counts the references to the buffer.
    pub header: OwnedHeaderDescriptor,
    /// The address of the data in this process.
    pub buf: usize,
    pub info: SharedMemoryBufInfo,
    /// The registration that keeps the watchdog bit alive.
    pub watchdog: ConfirmedDescriptor,
}

pub type BufAllocResult = Result<SharedMemoryBuf, crate::types::ZAllocError>;

/// Whether the header of a buffer still belongs to it and was not flagged by
/// the validator.
pub open spec fn buffer_is_valid(header: Option<Header>, generation: u32) -> bool {
    header is Some && header->Some_0.generation == generation
        && !header->Some_0.watchdog_invalidated
}

/// Whether the header of `buffer` is still the buffer's own: it names a
/// record that has the generation that the buffer was made with.
pub open spec fn owns_header(resources: ResourcesModel, buffer: SharedMemoryBuf) -> bool {
    &&& buffer.header.segment == resources.header_segment
    &&& buffer.header.index < resources.headers.len()
    &&& resources.headers[buffer.header.index as int].generation == buffer.info.generation
}

/// The shared state after one more reference to `buffer` was made.
pub open spec fn retained(resources: ResourcesModel, buffer: SharedMemoryBuf) -> ResourcesModel {
    if owns_header(resources, buffer) {
        let before = resources.headers[buffer.header.index as int];
        ResourcesModel {
            headers: resources.headers.update(
                buffer.header.index as int,
                Header {
                    refcount: if before.refcount == u32::MAX {
                        u32::MAX
                    } else {
                        (before.refcount + 1) as u32
                    },
                    ..before
                },
            ),
            ..resources
        }
    } else {
        resources
    }
}

/// The number of references that are left when one to `buffer` is
/// dropped.
pub open spec fn references_left(resources: ResourcesModel, buffer: SharedMemoryBuf) -> u32
    recommends
        owns_header(resources, buffer),
{
    let before = resources.headers[buffer.header.index as int];
    if before.refcount == 0 {
        0
    } else {
        (before.refcount - 1) as u32
    }
}

/// The shared state after one reference to `buffer` was dropped: the header
/// counts one less, and with the last reference the confirmation of the
/// watchdog bit ends. A buffer whose header is no longer its own changes
/// nothing.
pub open spec fn dropped(resources: ResourcesModel, buffer: SharedMemoryBuf) -> ResourcesModel {
    if owns_header(resources, buffer) {
        let before = resources.headers[buffer.header.index as int];
        let left = references_left(resources, buffer);
        let counted = ResourcesModel {
            headers: resources.headers.update(
                buffer.header.index as int,
                Header { refcount: left, ..before },
            ),
            ..resources
        };
        if left == 0 {
            counted.unconfirmed(buffer.watchdog.owned)
        } else {
            counted
        }
    } else {
        resources
    }
}

impl SharedMemoryBuf {
    /// Makes one more reference to the buffer, as a clone does. Returns
    /// whether the header is still the buffer's own; where it is not,
    /// nothing is counted.
    pub fn retain(&self, resources: &mut SharedResources) -> (done: bool)
        requires
            old(resources).wf(),
        ensures
            final(resources).wf(),
            done == owns_header(old(resources)@, *self),
            final(resources)@ == retained(old(resources)@, *self),
    {
        match resources.headers.header(&self.header) {
            None => false,
            Some(header) => {
                if header.generation == self.info.generation {
                    resources.headers.retain(&self.header)
                } else {
                    false
                }
            },
        }
    }

    /// Drops one reference to the buffer. With the last one the watchdog
    /// bit is confirmed no longer, and the garbage collector takes the
    /// chunk.
    pub fn release(self, resources: &mut SharedResources)
        requires
            old(resources).wf(),
        ensures
            final(resources).wf(),
            final(resources)@ == dropped(old(resources)@, self),
    {
        match resources.headers.header(&self.header) {
            None => {},
            Some(header) => {
                if header.generation == self.info.generation {
                    let left = resources.headers.release(&self.header);
                    if left == Some(0) {
                        resources.unconfirm(self.watchdog);
                    }
                }
            },
        }
    }

    /// Whether the buffer may still be used: its header has the generation
    /// that the buffer was made with, and the validator did not flag it.
    pub fn is_valid(&self, headers: &HeaderStorage) -> (valid: bool)
        requires
            headers.wf(),
        ensures
            valid == buffer_is_valid(
                if headers.resolves(self.header) {
                    Some(headers.records()[self.header.index as int])
                } else {
                    None
                },
                self.info.generation,
            ),
    {
        match headers.header(&self.header) {
            None => false,
            Some(header) => header.generation == self.info.generation
                && !header.watchdog_invalidated,
        }
    }

    /// The number of references to the buffer, over all its clones.
    pub fn ref_count(&self, headers: &HeaderStorage) -> (count: Option<u32>)
        requires
            headers.wf(),
        ensures
            count is Some <==> headers.resolves(self.header),
            count is Some ==> count->Some_0 == headers.records()[self.header.index as int].refcount,
    {
        match headers.header(&self.header) {
            None => None,
            Some(header) => Some(header.refcount),
        }
    }
}

} // verus!
