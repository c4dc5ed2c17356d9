//! Buffer headers: one record per live buffer, holding its reference count,
//! its generation and the flag that the watchdog validator raises.

use vstd::prelude::*;
use crate::common::{SegmentID, ZError, ZResult};
use crate::pool::SlotPool;

verus! {

/// Names a header on the wire: the header segment and the index of the
/// record in it.
#[derive(Clone, Copy, Debug, PartialEq, Eq, Hash, Structural)]
pub struct HeaderDescriptor {
    pub id: SegmentID,
    pub index: u32,
}

/// The owner's handle on a header record.
#[derive(Clone, Copy, Debug, PartialEq, Eq, Structural)]
pub struct OwnedHeaderDescriptor {
    pub segment: SegmentID,
    pub index: u32,
}

impl HeaderDescriptor {
    /// The wire descriptor of the record behind an owner's handle.
    pub fn from(item: &OwnedHeaderDescriptor) -> (descriptor: Self)
        ensures
            descriptor.id == item.segment,
            descriptor.index == item.index,
    {
        HeaderDescriptor { id: item.segment, index: item.index }
    }
}

/// A header that was allocated and has to be given back to its storage.
#[derive(Debug)]
pub struct AllocatedHeaderDescriptor {
    pub descriptor: OwnedHeaderDescriptor,
}

/// The record itself.
#[derive(Clone, Copy, Debug, PartialEq, Eq, Structural)]
pub struct Header {
    /// The number of live references, over all processes.
    pub refcount: u32,
    /// Advanced each time the record is allocated anew.
    pub generation: u32,
    /// Raised by the validator when a confirmation was missed.
    pub watchdog_invalidated: bool,
}

/// The generation that follows `generation`.
pub open spec fn next_generation(generation: u32) -> u32 {
    if generation == u32::MAX {
        0
    } else {
        (generation + 1) as u32
    }
}

/// What `allocate_header` leaves in a record.
pub open spec fn fresh_header(previous: Header) -> Header {
    Header {
        refcount: 1,
        generation: next_generation(previous.generation),
        watchdog_invalidated: false,
    }
}

/// All header records of a process and the pool of the unused ones.
pub struct HeaderStorage {
    id: SegmentID,
    headers: Vec<Header>,
    pool: SlotPool,
}

impl HeaderStorage {
    /// The id of the header segment.
    pub closed spec fn id_spec(&self) -> SegmentID {
        self.id
    }

    /// The records, by index.
    pub closed spec fn records(&self) -> Seq<Header> {
        self.headers@
    }

    /// The indices of the unused records; the last is allocated next.
    pub closed spec fn free_stack(&self) -> Seq<u32> {
        self.pool.free_stack()
    }

    /// The invariant of the storage: every record is either in use or on
    /// the free stack, once.
    pub closed spec fn wf(&self) -> bool {
        &&& self.pool.wf()
        &&& self.pool.capacity() == self.headers@.len()
    }

    /// The unused records exist, and none is listed twice.
    pub proof fn lemma_free_stack(&self)
        requires
            self.wf(),
        ensures
            self.records().len() <= u32::MAX,
            self.free_stack().no_duplicates(),
            forall|i: int|
                0 <= i < self.free_stack().len() ==> (#[trigger] self.free_stack()[i])
                    < self.records().len(),
    {
        self.pool.lemma_free_stack_bounds();
    }

    /// Whether `descriptor` names a record of this storage.
    pub open spec fn resolves(&self, descriptor: OwnedHeaderDescriptor) -> bool {
        descriptor.segment == self.id_spec() && descriptor.index < self.records().len()
    }

    /// Whether `descriptor` names a record that is in use.
    pub open spec fn is_allocated(&self, descriptor: OwnedHeaderDescriptor) -> bool {
        self.resolves(descriptor) && !self.free_stack().contains(descriptor.index)
    }

    /// A storage of `count` unused records with generation 0.
    pub fn new(id: SegmentID, count: u32) -> (storage: Self)
        ensures
            storage.wf(),
            storage.id_spec() == id,
            storage.records().len() == count,
            storage.free_stack().len() == count,
            forall|i: int|
                0 <= i < count ==> storage.records()[i] == (Header {
                    refcount: 0,
                    generation: 0,
                    watchdog_invalidated: false,
                }),
            forall|i: int| 0 <= i < count ==> storage.free_stack()[i] == count - 1 - i,
    {
        let mut headers: Vec<Header> = Vec::new();
        let mut i: u32 = 0;
        while i < count
            invariant
                i <= count,
                headers@.len() == i,
                forall|k: int|
                    0 <= k < i ==> headers@[k] == (Header {
                        refcount: 0,
                        generation: 0,
                        watchdog_invalidated: false,
                    }),
            decreases count - i,
        {
            headers.push(Header { refcount: 0, generation: 0, watchdog_invalidated: false });
            i = i + 1;
        }
        HeaderStorage { id, headers, pool: SlotPool::new(count) }
    }

    /// Whether a record is unused.
    pub fn has_free(&self) -> (free: bool)
        ensures
            free == (self.free_stack().len() > 0),
    {
        self.pool.free_count() > 0
    }

    /// Takes an unused record and makes it the header of a new buffer: one
    /// reference, the next generation, not invalidated. Fails with
    /// `Exhausted`, changing nothing, exactly when no record is unused.
    pub fn allocate_header(&mut self) -> (result: ZResult<AllocatedHeaderDescriptor>)
        requires
            old(self).wf(),
        ensures
            final(self).wf(),
            final(self).id_spec() == old(self).id_spec(),
            final(self).records().len() == old(self).records().len(),
            result is Err <==> old(self).free_stack().len() == 0,
            result is Err ==> result->Err_0 == ZError::Exhausted && final(self).records() == old(
                self,
            ).records() && final(self).free_stack() == old(self).free_stack(),
            result is Ok ==> ({
                let index = old(self).free_stack().last();
                &&& result->Ok_0.descriptor == (OwnedHeaderDescriptor {
                    segment: old(self).id_spec(),
                    index,
                })
                &&& index < old(self).records().len()
                &&& final(self).free_stack() == old(self).free_stack().drop_last()
                &&& final(self).records() == old(self).records().update(
                    index as int,
                    fresh_header(old(self).records()[index as int]),
                )
                &&& final(self).is_allocated(result->Ok_0.descriptor)
            }),
    {
        proof {
            self.pool.lemma_free_stack_bounds();
        }
        match self.pool.take() {
            None => Err(ZError::Exhausted),
            Some(index) => {
                let previous = self.headers[index as usize];
                let generation = previous.generation.wrapping_add(1);
                self.headers.set(
                    index as usize,
                    Header { refcount: 1, generation, watchdog_invalidated: false },
                );
                proof {
                    let before = old(self).free_stack();
                    let after = self.free_stack();
                    assert(after =~= before.drop_last());
                    if after.contains(index) {
                        let j = choose|j: int| 0 <= j < after.len() && after[j] == index;
                        assert(before[j] == index);
                        assert(before[before.len() - 1] == index);
                    }
                }
                Ok(
                    AllocatedHeaderDescriptor {
                        descriptor: OwnedHeaderDescriptor { segment: self.id, index },
                    },
                )
            },
        }
    }

    /// Gives a record back. Its contents stay as they were last written, so
    /// that a holder of an old descriptor still sees a generation that is
    /// not its own. A handle that names no record in use changes nothing.
    pub fn reclaim_header(&mut self, header: AllocatedHeaderDescriptor) -> (done: bool)
        requires
            old(self).wf(),
        ensures
            final(self).wf(),
            final(self).id_spec() == old(self).id_spec(),
            final(self).records() == old(self).records(),
            done == old(self).is_allocated(header.descriptor),
            done ==> final(self).free_stack() == old(self).free_stack().push(
                header.descriptor.index,
            ),
            !done ==> final(self).free_stack() == old(self).free_stack(),
    {
        if header.descriptor.segment == self.id {
            self.pool.give_back(header.descriptor.index)
        } else {
            false
        }
    }

    /// The record that `descriptor` names, if it names one.
    pub fn header(&self, descriptor: &OwnedHeaderDescriptor) -> (header: Option<Header>)
        requires
            self.wf(),
        ensures
            header is Some <==> self.resolves(*descriptor),
            header is Some ==> header->Some_0 == self.records()[descriptor.index as int],
    {
        if descriptor.segment == self.id && (descriptor.index as usize) < self.headers.len() {
            Some(self.headers[descriptor.index as usize])
        } else {
            None
        }
    }

    /// Counts one more reference to the buffer, up to `u32::MAX`.
    pub fn retain(&mut self, descriptor: &OwnedHeaderDescriptor) -> (done: bool)
        requires
            old(self).wf(),
        ensures
            final(self).wf(),
            final(self).id_spec() == old(self).id_spec(),
            final(self).free_stack() == old(self).free_stack(),
            done == old(self).resolves(*descriptor),
            !done ==> final(self).records() == old(self).records(),
            done ==> ({
                let before = old(self).records()[descriptor.index as int];
                final(self).records() == old(self).records().update(
                    descriptor.index as int,
                    Header {
                        refcount: if before.refcount == u32::MAX {
                            u32::MAX
                        } else {
                            (before.refcount + 1) as u32
                        },
                        ..before
                    },
                )
            }),
    {
        match self.header(descriptor) {
            None => false,
            Some(before) => {
                let refcount = before.refcount.saturating_add(1);
                self.headers.set(
                    descriptor.index as usize,
                    Header {
                        refcount,
                        generation: before.generation,
                        watchdog_invalidated: before.watchdog_invalidated,
                    },
                );
                true
            },
        }
    }

    /// Counts one reference less, down to zero, and returns the count that
    /// is left.
    pub fn release(&mut self, descriptor: &OwnedHeaderDescriptor) -> (left: Option<u32>)
        requires
            old(self).wf(),
        ensures
            final(self).wf(),
            final(self).id_spec() == old(self).id_spec(),
            final(self).free_stack() == old(self).free_stack(),
            left is Some <==> old(self).resolves(*descriptor),
            left is None ==> final(self).records() == old(self).records(),
            left is Some ==> ({
                let before = old(self).records()[descriptor.index as int];
                &&& left->Some_0 == (if before.refcount == 0 {
                    0
                } else {
                    (before.refcount - 1) as u32
                })
                &&& final(self).records() == old(self).records().update(
                    descriptor.index as int,
                    Header { refcount: left->Some_0, ..before },
                )
            }),
    {
        match self.header(descriptor) {
            None => None,
            Some(before) => {
                let refcount = before.refcount.saturating_sub(1);
                self.headers.set(
                    descriptor.index as usize,
                    Header {
                        refcount,
                        generation: before.generation,
                        watchdog_invalidated: before.watchdog_invalidated,
                    },
                );
                Some(refcount)
            },
        }
    }

    /// Raises the flag that makes the buffer collectable whatever its
    /// reference count.
    pub fn invalidate(&mut self, descriptor: &OwnedHeaderDescriptor) -> (done: bool)
        requires
            old(self).wf(),
        ensures
            final(self).wf(),
            final(self).id_spec() == old(self).id_spec(),
            final(self).free_stack() == old(self).free_stack(),
            final(self).records() == invalidated(old(self).records(), old(self).id_spec(), *descriptor),
            done == old(self).resolves(*descriptor),
    {
        match self.header(descriptor) {
            None => {
                false
            },
            Some(before) => {
                self.headers.set(
                    descriptor.index as usize,
                    Header {
                        refcount: before.refcount,
                        generation: before.generation,
                        watchdog_invalidated: true,
                    },
                );
                true
            },
        }
    }

    /// Decides whether a remote holder of `descriptor`, who saw
    /// `generation`, may attach: the record must exist, and its generation
    /// must still be the one that the holder saw.
    pub fn check_generation(&self, descriptor: &HeaderDescriptor, generation: u32) -> (result:
        ZResult<()>)
        requires
            self.wf(),
        ensures
            result == (if descriptor.id != self.id_spec() || descriptor.index
                >= self.records().len() {
                Err::<(), ZError>(ZError::SegmentNotFound)
            } else if self.records()[descriptor.index as int].generation != generation {
                Err(ZError::StaleDescriptor)
            } else {
                Ok(())
            }),
    {
        let owned = OwnedHeaderDescriptor { segment: descriptor.id, index: descriptor.index };
        match self.header(&owned) {
            None => Err(ZError::SegmentNotFound),
            Some(header) => {
                if header.generation != generation {
                    Err(ZError::StaleDescriptor)
                } else {
                    Ok(())
                }
            },
        }
    }
}

/// The records of the storage `id` after the validator's callback ran for
/// `descriptor`: the flag of its record is raised; a handle that names no
/// record changes nothing.
pub open spec fn invalidated(
    records: Seq<Header>,
    id: SegmentID,
    descriptor: OwnedHeaderDescriptor,
) -> Seq<Header> {
    if descriptor.segment == id && descriptor.index < records.len() {
        records.update(
            descriptor.index as int,
            Header { watchdog_invalidated: true, ..records[descriptor.index as int] },
        )
    } else {
        records
    }
}

} // verus!
