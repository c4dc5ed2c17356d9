//! The validator's side of the liveness protocol: it clears the watchdog
//! bits it was told about and raises the flag of the header whose bit it
//! found already clear.

use vstd::prelude::*;
use crate::common::SegmentID;
use crate::header::{invalidated, Header, HeaderStorage, OwnedHeaderDescriptor};
use crate::seq_util::{lemma_filter_take_ends, lemma_filter_take_step};
use crate::watchdog::descriptor::OwnedDescriptor;
use crate::watchdog::storage::{observed, validated, SegmentModel, Storage};

verus! {

/// The default time between two rounds of validation, in milliseconds:
/// twice the confirmation period.
pub const VALIDATE_PERIOD_MS: u64 = 200;

/// A watchdog bit under validation, and the header to flag when its owner
/// stops confirming.
#[derive(Clone, Copy, Debug, PartialEq, Eq, Structural)]
pub struct Watched {
    pub watchdog: OwnedDescriptor,
    pub header: OwnedHeaderDescriptor,
    /// The header was flagged in an earlier round.
    pub reported: bool,
}

/// The bitmap, the header records and the set of watched bits, in the
/// course of one round.
pub struct RoundState {
    pub bits: Seq<SegmentModel>,
    pub headers: Seq<Header>,
    pub kept: Seq<Watched>,
}

/// What one round does with one watched bit. One that was reported in an
/// earlier round leaves the set. Any other is cleared; where it was clear
/// already, its header is flagged and the bit is marked as reported.
pub open spec fn after_entry(state: RoundState, header_segment: SegmentID, entry: Watched) -> RoundState {
    if entry.reported {
        state
    } else if observed(state.bits, entry.watchdog) == 0 {
        RoundState {
            bits: validated(state.bits, entry.watchdog),
            headers: invalidated(state.headers, header_segment, entry.header),
            kept: state.kept.push(Watched { reported: true, ..entry }),
        }
    } else {
        RoundState {
            bits: validated(state.bits, entry.watchdog),
            headers: state.headers,
            kept: state.kept.push(entry),
        }
    }
}

/// The state after the first `n` of `entries` had their turn, in order.
pub open spec fn after_entries(
    start: RoundState,
    header_segment: SegmentID,
    entries: Seq<Watched>,
    n: nat,
) -> RoundState
    decreases n,
{
    if n == 0 {
        start
    } else {
        after_entry(
            after_entries(start, header_segment, entries, (n - 1) as nat),
            header_segment,
            entries[n - 1],
        )
    }
}

/// The state in which a round starts.
pub open spec fn round_start(bits: Seq<SegmentModel>, headers: Seq<Header>) -> RoundState {
    RoundState { bits, headers, kept: Seq::empty() }
}

/// The watched bits without the entries of the bit `watchdog`.
pub open spec fn without_watchdog(watched: Seq<Watched>, watchdog: OwnedDescriptor) -> Seq<Watched> {
    watched.filter(watches_other_than(watchdog))
}

/// The test for an entry of another bit than `watchdog`.
pub open spec fn watches_other_than(watchdog: OwnedDescriptor) -> spec_fn(Watched) -> bool {
    |w: Watched| w.watchdog != watchdog
}

/// The watchdog bits that this process validates.
pub struct Validator {
    watched: Vec<Watched>,
}

impl View for Validator {
    type V = Seq<Watched>;

    closed spec fn view(&self) -> Seq<Watched> {
        self.watched@
    }
}

impl Validator {
    pub fn new() -> (validator: Self)
        ensures
            validator@.len() == 0,
    {
        Validator { watched: Vec::new() }
    }

    /// Puts a bit under validation; `header` is flagged when the bit is
    /// found clear.
    pub fn add(&mut self, watchdog: OwnedDescriptor, header: OwnedHeaderDescriptor)
        ensures
            final(self)@ == old(self)@.push(Watched { watchdog, header, reported: false }),
    {
        self.watched.push(Watched { watchdog, header, reported: false });
    }

    /// Takes a bit out of validation.
    pub fn remove(&mut self, watchdog: &OwnedDescriptor)
        ensures
            final(self)@ == without_watchdog(old(self)@, *watchdog),
    {
        let ghost keep = watches_other_than(*watchdog);
        let ghost before = self.watched@;
        let mut kept: Vec<Watched> = Vec::new();
        let mut i: usize = 0;
        proof {
            lemma_filter_take_ends(before, keep);
        }
        while i < self.watched.len()
            invariant
                i <= self.watched@.len(),
                self.watched@ == before,
                kept@ == before.take(i as int).filter(keep),
                keep == watches_other_than(*watchdog),
            decreases self.watched@.len() - i,
        {
            proof {
                lemma_filter_take_step(before, keep, i as int);
            }
            let w = self.watched[i];
            if w.watchdog != *watchdog {
                kept.push(w);
            }
            i = i + 1;
        }
        proof {
            lemma_filter_take_ends(before, keep);
        }
        self.watched = kept;
    }

    /// One round of validation over all watched bits, in the order in which
    /// they were added.
    pub fn validate_all(&mut self, storage: &mut Storage, headers: &mut HeaderStorage)
        requires
            old(storage).wf(),
            old(headers).wf(),
        ensures
            final(storage).wf(),
            final(headers).wf(),
            final(headers).id_spec() == old(headers).id_spec(),
            final(headers).free_stack() == old(headers).free_stack(),
            ({
                let end = after_entries(
                    round_start(old(storage)@, old(headers).records()),
                    old(headers).id_spec(),
                    old(self)@,
                    old(self)@.len(),
                );
                &&& final(storage)@ == end.bits
                &&& final(headers).records() == end.headers
                &&& final(self)@ == end.kept
            }),
    {
        let ghost start = round_start(storage@, headers.records());
        let ghost id = headers.id_spec();
        let mut kept: Vec<Watched> = Vec::new();
        let mut i: usize = 0;
        while i < self.watched.len()
            invariant
                i <= self.watched@.len(),
                self.watched@ == old(self)@,
                storage.wf(),
                headers.wf(),
                headers.id_spec() == id,
                headers.free_stack() == old(headers).free_stack(),
                after_entries(start, id, old(self)@, i as nat) == (RoundState {
                    bits: storage@,
                    headers: headers.records(),
                    kept: kept@,
                }),
            decreases self.watched@.len() - i,
        {
            let entry = self.watched[i];
            if !entry.reported {
                let prior = storage.validate(&entry.watchdog);
                if prior == 0 {
                    headers.invalidate(&entry.header);
                    kept.push(
                        Watched { watchdog: entry.watchdog, header: entry.header, reported: true },
                    );
                } else {
                    kept.push(entry);
                }
            }
            i = i + 1;
        }
        self.watched = kept;
    }
}

} // verus!
