//! The owner's side of the liveness protocol: the set of watchdog bits that
//! this process keeps alive.

use vstd::prelude::*;
use crate::seq_util::{lemma_filter_take_ends, lemma_filter_take_step};
use crate::watchdog::descriptor::OwnedDescriptor;
use crate::watchdog::storage::{confirmed, SegmentModel, Storage};

verus! {

/// The default time between two rounds of confirmation, in milliseconds.
pub const CONFIRM_PERIOD_MS: u64 = 100;

/// The registration of a watchdog bit with the confirmator. The bit is kept
/// alive until the registration is handed back.
#[derive(Clone, Copy, Debug, PartialEq, Eq, Structural)]
pub struct ConfirmedDescriptor {
    pub owned: OwnedDescriptor,
}

/// The bitmap after the first `n` of `descriptors` were confirmed, in
/// order.
pub open spec fn confirmed_all(
    bits: Seq<SegmentModel>,
    descriptors: Seq<OwnedDescriptor>,
    n: nat,
) -> Seq<SegmentModel>
    decreases n,
{
    if n == 0 {
        bits
    } else {
        confirmed(confirmed_all(bits, descriptors, (n - 1) as nat), descriptors[n - 1])
    }
}

/// The registrations without those of the bit `descriptor`.
pub open spec fn without_descriptor(
    registered: Seq<OwnedDescriptor>,
    descriptor: OwnedDescriptor,
) -> Seq<OwnedDescriptor> {
    registered.filter(is_other_than(descriptor))
}

/// The test for a registration of another bit than `descriptor`.
pub open spec fn is_other_than(descriptor: OwnedDescriptor) -> spec_fn(OwnedDescriptor) -> bool {
    |d: OwnedDescriptor| d != descriptor
}

/// The watchdog bits that this process confirms.
pub struct Confirmator {
    confirmed: Vec<OwnedDescriptor>,
}

impl View for Confirmator {
    type V = Seq<OwnedDescriptor>;

    closed spec fn view(&self) -> Seq<OwnedDescriptor> {
        self.confirmed@
    }
}

impl Confirmator {
    pub fn new() -> (confirmator: Self)
        ensures
            confirmator@.len() == 0,
    {
        Confirmator { confirmed: Vec::new() }
    }

    /// Registers a bit and confirms it at once.
    pub fn add_owned(&mut self, storage: &mut Storage, descriptor: &OwnedDescriptor) -> (handle:
        ConfirmedDescriptor)
        requires
            old(storage).wf(),
        ensures
            final(storage).wf(),
            handle.owned == *descriptor,
            final(self)@ == old(self)@.push(*descriptor),
            final(storage)@ == confirmed(old(storage)@, *descriptor),
    {
        self.confirmed.push(*descriptor);
        storage.confirm(descriptor);
        ConfirmedDescriptor { owned: *descriptor }
    }

    /// Ends a registration: the bit is confirmed no longer.
    pub fn remove(&mut self, handle: ConfirmedDescriptor)
        ensures
            final(self)@ == without_descriptor(old(self)@, handle.owned),
    {
        let ghost keep = is_other_than(handle.owned);
        let ghost before = self.confirmed@;
        let mut kept: Vec<OwnedDescriptor> = Vec::new();
        let mut i: usize = 0;
        proof {
            lemma_filter_take_ends(before, keep);
        }
        while i < self.confirmed.len()
            invariant
                i <= self.confirmed@.len(),
                self.confirmed@ == before,
                kept@ == before.take(i as int).filter(keep),
                keep == is_other_than(handle.owned),
            decreases self.confirmed@.len() - i,
        {
            proof {
                lemma_filter_take_step(before, keep, i as int);
            }
            let d = self.confirmed[i];
            if d != handle.owned {
                kept.push(d);
            }
            i = i + 1;
        }
        proof {
            lemma_filter_take_ends(before, keep);
        }
        self.confirmed = kept;
    }

    /// One round of confirmation: every registered bit is set.
    pub fn confirm_all(&self, storage: &mut Storage)
        requires
            old(storage).wf(),
        ensures
            final(storage).wf(),
            final(storage)@ == confirmed_all(old(storage)@, self@, self@.len()),
    {
        let mut i: usize = 0;
        while i < self.confirmed.len()
            invariant
                i <= self.confirmed@.len(),
                storage.wf(),
                storage@ == confirmed_all(old(storage)@, self@, i as nat),
            decreases self.confirmed@.len() - i,
        {
            storage.confirm(&self.confirmed[i]);
            i = i + 1;
        }
    }
}

} // verus!
