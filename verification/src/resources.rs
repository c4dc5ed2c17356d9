//! The state that all providers of a process share: the header records, the
//! watchdog bitmap, and the sets of bits under confirmation and under
//! validation.

use vstd::prelude::*;
use crate::common::{SegmentID, ZError, ZResult};
use crate::header::{
    fresh_header, AllocatedHeaderDescriptor, Header, HeaderStorage, OwnedHeaderDescriptor,
};
use crate::watchdog::confirmator::{
    confirmed_all, without_descriptor, ConfirmedDescriptor, Confirmator,
};
use crate::watchdog::descriptor::OwnedDescriptor;
use crate::watchdog::storage::{
    allocated, confirmed, freed, has_free, next_descriptor, AllocatedWatchdog, SegmentModel, Storage,
};
use crate::watchdog::validator::{
    after_entries, round_start, without_watchdog, Validator, Watched,
};

verus! {

/// What the shared state holds.
pub struct ResourcesModel {
    /// The id of the header segment.
    pub header_segment: SegmentID,
    /// The header records, by index.
    pub headers: Seq<Header>,
    /// The indices of the unused header records.
    pub free_headers: Seq<u32>,
    /// The watchdog bitmap.
    pub bits: Seq<SegmentModel>,
    /// The bits that the confirmator sets.
    pub confirmed: Seq<OwnedDescriptor>,
    /// The bits that the validator clears.
    pub watched: Seq<Watched>,
}

impl ResourcesModel {
    /// The unused header records exist.
    pub open spec fn wf(self) -> bool {
        forall|i: int|
            0 <= i < self.free_headers.len() ==> (#[trigger] self.free_headers[i])
                < self.headers.len()
    }

    /// Whether a header and a watchdog bit are there to be allocated.
    pub open spec fn can_allocate(self) -> bool {
        self.free_headers.len() > 0 && has_free(self.bits)
    }

    /// The header that the next allocation takes.
    pub open spec fn next_header(self) -> OwnedHeaderDescriptor
        recommends
            self.free_headers.len() > 0,
    {
        OwnedHeaderDescriptor { segment: self.header_segment, index: self.free_headers.last() }
    }

    /// The watchdog bit that the next allocation takes.
    pub open spec fn next_watchdog(self) -> OwnedDescriptor
        recommends
            has_free(self.bits),
    {
        next_descriptor(self.bits)
    }

    /// The state after a header and a watchdog bit were allocated for a new
    /// buffer and the bit was registered with the confirmator.
    pub open spec fn with_allocation(self) -> ResourcesModel
        recommends
            self.can_allocate(),
    {
        let index = self.free_headers.last();
        ResourcesModel {
            headers: self.headers.update(index as int, fresh_header(self.headers[index as int])),
            free_headers: self.free_headers.drop_last(),
            bits: confirmed(allocated(self.bits), self.next_watchdog()),
            confirmed: self.confirmed.push(self.next_watchdog()),
            ..self
        }
    }

    /// The state with the bits `watched` under validation.
    pub open spec fn watching(self, watched: Seq<Watched>) -> ResourcesModel {
        ResourcesModel { watched, ..self }
    }

    /// Whether `header` names a record that is in use.
    pub open spec fn header_in_use(self, header: OwnedHeaderDescriptor) -> bool {
        header.segment == self.header_segment && header.index < self.headers.len()
            && !self.free_headers.contains(header.index)
    }

    /// The state after the header and the watchdog bit of a buffer were
    /// given back: the bit is validated no longer and free again, and the
    /// record is unused.
    pub open spec fn released(
        self,
        header: OwnedHeaderDescriptor,
        watchdog: OwnedDescriptor,
    ) -> ResourcesModel {
        ResourcesModel {
            watched: without_watchdog(self.watched, watchdog),
            bits: freed(self.bits, watchdog),
            free_headers: if self.header_in_use(header) {
                self.free_headers.push(header.index)
            } else {
                self.free_headers
            },
            ..self
        }
    }

    /// The state after the registration of a bit with the confirmator
    /// ended.
    pub open spec fn unconfirmed(self, watchdog: OwnedDescriptor) -> ResourcesModel {
        ResourcesModel {
            confirmed: without_descriptor(self.confirmed, watchdog),
            ..self
        }
    }

    /// The state after one round of the confirmator.
    pub open spec fn after_confirmation(self) -> ResourcesModel {
        ResourcesModel {
            bits: confirmed_all(self.bits, self.confirmed, self.confirmed.len()),
            ..self
        }
    }

    /// The state after one round of the validator.
    pub open spec fn after_validation(self) -> ResourcesModel {
        let end = after_entries(
            round_start(self.bits, self.headers),
            self.header_segment,
            self.watched,
            self.watched.len(),
        );
        ResourcesModel { bits: end.bits, headers: end.headers, watched: end.kept, ..self }
    }
}

/// The shared state itself.
pub struct SharedResources {
    pub headers: HeaderStorage,
    pub watchdogs: Storage,
    pub confirmator: Confirmator,
    pub validator: Validator,
}

impl View for SharedResources {
    type V = ResourcesModel;

    open spec fn view(&self) -> ResourcesModel {
        ResourcesModel {
            header_segment: self.headers.id_spec(),
            headers: self.headers.records(),
            free_headers: self.headers.free_stack(),
            bits: self.watchdogs@,
            confirmed: self.confirmator@,
            watched: self.validator@,
        }
    }
}

impl SharedResources {
    /// The invariant of the shared state: those of the header records and
    /// of the bitmap.
    pub open spec fn wf(&self) -> bool {
        self.headers.wf() && self.watchdogs.wf()
    }

    /// The model of shared state that is in order is in order.
    pub proof fn lemma_model_wf(&self)
        requires
            self.wf(),
        ensures
            self@.wf(),
    {
        self.headers.lemma_free_stack();
    }

    /// Shared state with `header_count` unused header records in the header
    /// segment `header_segment`, and no watchdog segment yet.
    pub fn new(header_segment: SegmentID, header_count: u32) -> (resources: Self)
        ensures
            resources.wf(),
            resources@.header_segment == header_segment,
            resources@.headers.len() == header_count,
            resources@.free_headers.len() == header_count,
            resources@.bits.len() == 0,
            resources@.confirmed.len() == 0,
            resources@.watched.len() == 0,
    {
        SharedResources {
            headers: HeaderStorage::new(header_segment, header_count),
            watchdogs: Storage::new(),
            confirmator: Confirmator::new(),
            validator: Validator::new(),
        }
    }

    /// Allocates the header and the watchdog bit of a new buffer and
    /// registers the bit with the confirmator. Fails with `Exhausted`,
    /// changing nothing, exactly when no header or no bit is free.
    pub fn allocate(&mut self) -> (result: ZResult<
        (AllocatedHeaderDescriptor, AllocatedWatchdog, ConfirmedDescriptor),
    >)
        requires
            old(self).wf(),
        ensures
            final(self).wf(),
            result is Ok <==> old(self)@.can_allocate(),
            result is Err ==> result->Err_0 == ZError::Exhausted && final(self)@ == old(self)@,
            result is Ok ==> {
                let (header, watchdog, registration) = result->Ok_0;
                &&& header.descriptor == old(self)@.next_header()
                &&& watchdog.descriptor == old(self)@.next_watchdog()
                &&& registration.owned == old(self)@.next_watchdog()
                &&& final(self)@ == old(self)@.with_allocation()
            },
    {
        if !self.headers.has_free() || !self.watchdogs.has_free() {
            return Err(ZError::Exhausted);
        }
        let header = match self.headers.allocate_header() {
            Ok(header) => header,
            Err(e) => {
                return Err(e);
            },
        };
        let watchdog = match self.watchdogs.allocate_watchdog() {
            Ok(watchdog) => watchdog,
            Err(e) => {
                return Err(e);
            },
        };
        let registration = self.confirmator.add_owned(&mut self.watchdogs, &watchdog.descriptor);
        Ok((header, watchdog, registration))
    }

    /// Gives back the header and the watchdog bit of a buffer.
    pub fn release(&mut self, header: AllocatedHeaderDescriptor, watchdog: AllocatedWatchdog)
        requires
            old(self).wf(),
        ensures
            final(self).wf(),
            final(self)@ == old(self)@.released(header.descriptor, watchdog.descriptor),
    {
        self.validator.remove(&watchdog.descriptor);
        self.watchdogs.free_watchdog(watchdog);
        self.headers.reclaim_header(header);
    }

    /// Ends the registration of a bit with the confirmator.
    pub fn unconfirm(&mut self, registration: ConfirmedDescriptor)
        requires
            old(self).wf(),
        ensures
            final(self).wf(),
            final(self)@ == old(self)@.unconfirmed(registration.owned),
    {
        self.confirmator.remove(registration);
    }

    /// One round of the confirmator: every registered bit is set.
    pub fn confirm_round(&mut self)
        requires
            old(self).wf(),
        ensures
            final(self).wf(),
            final(self)@ == old(self)@.after_confirmation(),
    {
        self.confirmator.confirm_all(&mut self.watchdogs);
    }

    /// One round of the validator: every watched bit is cleared, and the
    /// header of each bit that was found clear is flagged.
    pub fn validate_round(&mut self)
        requires
            old(self).wf(),
        ensures
            final(self).wf(),
            final(self)@ == old(self)@.after_validation(),
    {
        self.validator.validate_all(&mut self.watchdogs, &mut self.headers);
    }
}

} // verus!
