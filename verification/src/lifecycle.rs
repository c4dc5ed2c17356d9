//! What holds of the shared state over every step that changes it.

use vstd::prelude::*;
use crate::buffer::{dropped, retained, SharedMemoryBuf};
use crate::common::SegmentID;
use crate::header::{next_generation, Header, OwnedHeaderDescriptor};
use crate::resources::ResourcesModel;
use crate::watchdog::descriptor::OwnedDescriptor;
use crate::watchdog::confirmator::confirmed_all;
use crate::watchdog::storage::{
    bits_apart, has_bit, lemma_bits_stay, lemma_confirmation_keeps_set,
    lemma_confirmed_is_observed, lemma_validated_is_clear, lemma_validation_keeps_apart,
    lemma_validation_keeps_clear, observed, SegmentModel,
};
use crate::watchdog::validator::{after_entries, round_start, RoundState, Watched};

verus! {

/// Whether `after` is the shared state one step after `before`: the header
/// and the watchdog bit of a new buffer are allocated or given back, a bit
/// is put under validation or its confirmation ends, a reference to a
/// buffer is made or dropped, or the confirmator or the validator makes a
/// round.
pub open spec fn steps_to(before: ResourcesModel, after: ResourcesModel) -> bool {
    ||| before.can_allocate() && after == before.with_allocation()
    ||| exists|header: OwnedHeaderDescriptor, watchdog: OwnedDescriptor|
        after == #[trigger] before.released(header, watchdog)
    ||| exists|watchdog: OwnedDescriptor| after == #[trigger] before.unconfirmed(watchdog)
    ||| exists|watched: Seq<Watched>| after == #[trigger] before.watching(watched)
    ||| exists|buffer: SharedMemoryBuf| after == #[trigger] retained(before, buffer)
    ||| exists|buffer: SharedMemoryBuf| after == #[trigger] dropped(before, buffer)
    ||| after == before.after_confirmation()
    ||| after == before.after_validation()
}

/// The validator writes the flag of a header and nothing else: a round of
/// validation changes no reference count and no generation.
pub proof fn lemma_validation_keeps_counts(
    start: RoundState,
    header_segment: SegmentID,
    entries: Seq<Watched>,
    n: nat,
)
    ensures
        after_entries(start, header_segment, entries, n).headers.len() == start.headers.len(),
        forall|i: int|
            0 <= i < start.headers.len() ==> (#[trigger] after_entries(
                start,
                header_segment,
                entries,
                n,
            ).headers[i]).generation == start.headers[i].generation && after_entries(
                start,
                header_segment,
                entries,
                n,
            ).headers[i].refcount == start.headers[i].refcount,
    decreases n,
{
    if n > 0 {
        lemma_validation_keeps_counts(start, header_segment, entries, (n - 1) as nat);
    }
}

/// The generation of a header record never goes back, and each allocation
/// of the record advances it: over the life of a record, the generations of
/// its buffers are strictly increasing. (A record whose counter is used up
/// starts again from 0.)
pub proof fn lemma_generation_monotonic(before: ResourcesModel, after: ResourcesModel, index: int)
    requires
        before.wf(),
        steps_to(before, after),
        0 <= index < before.headers.len(),
        before.headers[index].generation < u32::MAX,
    ensures
        after.headers.len() == before.headers.len(),
        after.headers[index].generation >= before.headers[index].generation,
        before.can_allocate() && after == before.with_allocation() && index
            == before.free_headers.last() ==> after.headers[index].generation
            > before.headers[index].generation,
        after.headers[index].generation != before.headers[index].generation ==> before.can_allocate()
            && after == before.with_allocation() && index == before.free_headers.last()
            && after.headers[index].generation == next_generation(before.headers[index].generation),
{
    lemma_validation_keeps_counts(
        round_start(before.bits, before.headers),
        before.header_segment,
        before.watched,
        before.watched.len(),
    );
}

/// Whether `header` names the record `index` of the header segment
/// `header_segment`, and that record is flagged.
pub open spec fn is_flagged(
    headers: Seq<Header>,
    header_segment: SegmentID,
    header: OwnedHeaderDescriptor,
) -> bool {
    header.segment == header_segment && header.index < headers.len()
        && headers[header.index as int].watchdog_invalidated
}

/// Whether `header` names a record of the header segment.
pub open spec fn names_record(
    headers: Seq<Header>,
    header_segment: SegmentID,
    header: OwnedHeaderDescriptor,
) -> bool {
    header.segment == header_segment && header.index < headers.len()
}

/// In the course of a round the validator lowers no flag.
pub proof fn lemma_round_keeps_flags(
    start: RoundState,
    header_segment: SegmentID,
    entries: Seq<Watched>,
    m: nat,
    n: nat,
    header: OwnedHeaderDescriptor,
)
    requires
        m <= n,
        is_flagged(after_entries(start, header_segment, entries, m).headers, header_segment, header),
    ensures
        is_flagged(after_entries(start, header_segment, entries, n).headers, header_segment, header),
    decreases n,
{
    if m < n {
        lemma_round_keeps_flags(start, header_segment, entries, m, (n - 1) as nat, header);
    }
}

/// In the course of a round the validator sets no bit.
pub proof fn lemma_round_keeps_clear(
    start: RoundState,
    header_segment: SegmentID,
    entries: Seq<Watched>,
    n: nat,
    watchdog: OwnedDescriptor,
)
    requires
        observed(start.bits, watchdog) == 0,
    ensures
        observed(after_entries(start, header_segment, entries, n).bits, watchdog) == 0,
    decreases n,
{
    if n > 0 {
        lemma_round_keeps_clear(start, header_segment, entries, (n - 1) as nat, watchdog);
        let before = after_entries(start, header_segment, entries, (n - 1) as nat);
        lemma_validation_keeps_clear(before.bits, entries[n - 1].watchdog, watchdog);
    }
}

/// When the validator has dealt with an entry that was not reported before,
/// the bit of the entry is clear.
pub proof fn lemma_round_clears(
    start: RoundState,
    header_segment: SegmentID,
    entries: Seq<Watched>,
    n: nat,
    k: int,
)
    requires
        0 <= k < n <= entries.len(),
        !entries[k].reported,
    ensures
        observed(after_entries(start, header_segment, entries, n).bits, entries[k].watchdog) == 0,
    decreases n,
{
    let before = after_entries(start, header_segment, entries, (n - 1) as nat);
    if k < n - 1 {
        lemma_round_clears(start, header_segment, entries, (n - 1) as nat, k);
        lemma_validation_keeps_clear(before.bits, entries[n - 1].watchdog, entries[k].watchdog);
    } else {
        lemma_validated_is_clear(before.bits, entries[k].watchdog);
    }
}

/// When the validator has dealt with an entry that was not reported before,
/// the entry is still watched, and where it is now reported, its header is
/// flagged.
pub proof fn lemma_round_keeps_entry(
    start: RoundState,
    header_segment: SegmentID,
    entries: Seq<Watched>,
    n: nat,
    k: int,
) -> (p: int)
    requires
        0 <= k < n <= entries.len(),
        !entries[k].reported,
    ensures
        0 <= p < after_entries(start, header_segment, entries, n).kept.len(),
        after_entries(start, header_segment, entries, n).kept[p].watchdog == entries[k].watchdog,
        after_entries(start, header_segment, entries, n).kept[p].header == entries[k].header,
        after_entries(start, header_segment, entries, n).kept[p].reported && names_record(
            start.headers,
            header_segment,
            entries[k].header,
        ) ==> is_flagged(
            after_entries(start, header_segment, entries, n).headers,
            header_segment,
            entries[k].header,
        ),
    decreases n,
{
    let before = after_entries(start, header_segment, entries, (n - 1) as nat);
    lemma_validation_keeps_counts(start, header_segment, entries, (n - 1) as nat);
    if k < n - 1 {
        let p = lemma_round_keeps_entry(start, header_segment, entries, (n - 1) as nat, k);
        if before.kept[p].reported && names_record(start.headers, header_segment, entries[k].header) {
            lemma_round_keeps_flags(
                start,
                header_segment,
                entries,
                (n - 1) as nat,
                n,
                entries[k].header,
            );
        }
        p
    } else {
        before.kept.len() as int
    }
}

/// An owner that stops confirming is found out: after two rounds of
/// validation with no confirmation in between, the header of every bit that
/// was under validation is flagged, and so its chunk can be collected. The
/// reference count and the generation of the header are as they were.
pub proof fn lemma_abandoned_is_flagged(state: ResourcesModel, k: int)
    requires
        0 <= k < state.watched.len(),
        !state.watched[k].reported,
        names_record(state.headers, state.header_segment, state.watched[k].header),
    ensures
        is_flagged(
            state.after_validation().after_validation().headers,
            state.header_segment,
            state.watched[k].header,
        ),
        state.after_validation().after_validation().headers[state.watched[k].header.index as int].refcount
            == state.headers[state.watched[k].header.index as int].refcount,
        state.after_validation().after_validation().headers[state.watched[k].header.index as int].generation
            == state.headers[state.watched[k].header.index as int].generation,
{
    let id = state.header_segment;
    let entry = state.watched[k];
    lemma_validation_keeps_counts(
        round_start(state.bits, state.headers),
        id,
        state.watched,
        state.watched.len(),
    );
    lemma_validation_keeps_counts(
        round_start(state.after_validation().bits, state.after_validation().headers),
        id,
        state.after_validation().watched,
        state.after_validation().watched.len(),
    );
    let start = round_start(state.bits, state.headers);
    let n = state.watched.len();
    let first = after_entries(start, id, state.watched, n);
    let p = lemma_round_keeps_entry(start, id, state.watched, n, k);
    lemma_round_clears(start, id, state.watched, n, k);
    lemma_validation_keeps_counts(start, id, state.watched, n);

    let mid = state.after_validation();
    let start2 = round_start(mid.bits, mid.headers);
    let n2 = mid.watched.len();
    assert(mid.watched == first.kept);
    if first.kept[p].reported {
        lemma_round_keeps_flags(start2, id, mid.watched, 0, n2, entry.header);
    } else {
        lemma_round_keeps_clear(start2, id, mid.watched, p as nat, entry.watchdog);
        lemma_validation_keeps_counts(start2, id, mid.watched, p as nat);
        let turn = after_entries(start2, id, mid.watched, (p + 1) as nat);
        assert(is_flagged(turn.headers, id, entry.header));
        lemma_round_keeps_flags(start2, id, mid.watched, (p + 1) as nat, n2, entry.header);
    }
}

/// Whether the owner of the watched bit at position `k` is alive: it has a
/// bit, it is registered with the confirmator, and no bit that is validated
/// before its own shares a bit with it.
pub open spec fn is_alive(state: ResourcesModel, k: int) -> bool {
    let watchdog = state.watched[k].watchdog;
    &&& watchdog.mask != 0
    &&& has_bit(state.bits, watchdog)
    &&& state.confirmed.contains(watchdog)
    &&& forall|j: int|
        0 <= j < k && !(#[trigger] state.watched[j]).reported ==> bits_apart(
            state.watched[j].watchdog,
            watchdog,
        )
}

/// A round of confirmation leaves the words where they are.
pub proof fn lemma_confirmation_keeps_bits(
    bits: Seq<SegmentModel>,
    registered: Seq<OwnedDescriptor>,
    n: nat,
    watchdog: OwnedDescriptor,
)
    ensures
        has_bit(confirmed_all(bits, registered, n), watchdog) == has_bit(bits, watchdog),
    decreases n,
{
    if n > 0 {
        lemma_confirmation_keeps_bits(bits, registered, (n - 1) as nat, watchdog);
        lemma_bits_stay(
            confirmed_all(bits, registered, (n - 1) as nat),
            registered[n - 1],
            watchdog,
        );
    }
}

/// After a round of confirmation, every registered bit is set.
pub proof fn lemma_confirmation_sets(
    bits: Seq<SegmentModel>,
    registered: Seq<OwnedDescriptor>,
    n: nat,
    i: int,
)
    requires
        0 <= i < n <= registered.len(),
        has_bit(bits, registered[i]),
    ensures
        observed(confirmed_all(bits, registered, n), registered[i]) == registered[i].mask,
    decreases n,
{
    let before = confirmed_all(bits, registered, (n - 1) as nat);
    if i < n - 1 {
        lemma_confirmation_sets(bits, registered, (n - 1) as nat, i);
        lemma_confirmation_keeps_set(before, registered[n - 1], registered[i]);
    } else {
        lemma_confirmation_keeps_bits(bits, registered, (n - 1) as nat, registered[i]);
        lemma_confirmed_is_observed(before, registered[i]);
    }
}

/// In the course of a round, a bit is as it was when the round began until
/// the validator deals with a bit that shares a bit with it.
pub proof fn lemma_round_keeps_apart(
    start: RoundState,
    header_segment: SegmentID,
    entries: Seq<Watched>,
    n: nat,
    watchdog: OwnedDescriptor,
)
    requires
        n <= entries.len(),
        forall|j: int|
            0 <= j < n && !(#[trigger] entries[j]).reported ==> bits_apart(
                entries[j].watchdog,
                watchdog,
            ),
    ensures
        observed(after_entries(start, header_segment, entries, n).bits, watchdog) == observed(
            start.bits,
            watchdog,
        ),
    decreases n,
{
    if n > 0 {
        lemma_round_keeps_apart(start, header_segment, entries, (n - 1) as nat, watchdog);
        let before = after_entries(start, header_segment, entries, (n - 1) as nat);
        if !entries[n - 1].reported {
            lemma_validation_keeps_apart(before.bits, entries[n - 1].watchdog, watchdog);
        }
    }
}

/// In the course of a round, the validator flags no header whose owners
/// all had their bits set when the round began.
pub proof fn lemma_round_spares(
    start: RoundState,
    header_segment: SegmentID,
    entries: Seq<Watched>,
    n: nat,
    header: OwnedHeaderDescriptor,
)
    requires
        n <= entries.len(),
        names_record(start.headers, header_segment, header),
        !start.headers[header.index as int].watchdog_invalidated,
        forall|k: int|
            0 <= k < n && !(#[trigger] entries[k]).reported && entries[k].header == header ==> {
                &&& observed(start.bits, entries[k].watchdog) != 0
                &&& forall|j: int|
                    0 <= j < k && !(#[trigger] entries[j]).reported ==> bits_apart(
                        entries[j].watchdog,
                        entries[k].watchdog,
                    )
            },
    ensures
        after_entries(start, header_segment, entries, n).headers.len() == start.headers.len(),
        !after_entries(
            start,
            header_segment,
            entries,
            n,
        ).headers[header.index as int].watchdog_invalidated,
    decreases n,
{
    lemma_validation_keeps_counts(start, header_segment, entries, n);
    if n > 0 {
        lemma_round_spares(start, header_segment, entries, (n - 1) as nat, header);
        lemma_validation_keeps_counts(start, header_segment, entries, (n - 1) as nat);
        let entry = entries[n - 1];
        if !entry.reported && entry.header == header {
            lemma_round_keeps_apart(
                start,
                header_segment,
                entries,
                (n - 1) as nat,
                entry.watchdog,
            );
        }
    }
}

/// An owner that is alive is not found out: when every owner of a header
/// confirms between two rounds of validation, the validator does not flag
/// the header, and leaves its reference count and its generation.
pub proof fn lemma_alive_is_not_flagged(state: ResourcesModel, header: OwnedHeaderDescriptor)
    requires
        names_record(state.headers, state.header_segment, header),
        !state.headers[header.index as int].watchdog_invalidated,
        forall|k: int|
            0 <= k < state.watched.len() && !(#[trigger] state.watched[k]).reported
                && state.watched[k].header == header ==> is_alive(state, k),
    ensures
        state.after_confirmation().after_validation().headers.len() == state.headers.len(),
        !state.after_confirmation().after_validation().headers[header.index as int].watchdog_invalidated,
        state.after_confirmation().after_validation().headers[header.index as int].refcount
            == state.headers[header.index as int].refcount,
        state.after_confirmation().after_validation().headers[header.index as int].generation
            == state.headers[header.index as int].generation,
{
    let confirmed = state.after_confirmation();
    lemma_validation_keeps_counts(
        round_start(confirmed.bits, confirmed.headers),
        state.header_segment,
        state.watched,
        state.watched.len(),
    );
    let start = round_start(confirmed.bits, confirmed.headers);
    assert forall|k: int|
        0 <= k < state.watched.len() && !(#[trigger] state.watched[k]).reported
            && state.watched[k].header == header implies observed(
        start.bits,
        state.watched[k].watchdog,
    ) != 0 by {
        assert(is_alive(state, k));
        let watchdog = state.watched[k].watchdog;
        let i = choose|i: int| 0 <= i < state.confirmed.len() && state.confirmed[i] == watchdog;
        lemma_confirmation_sets(state.bits, state.confirmed, state.confirmed.len(), i);
    }
    assert forall|k: int|
        0 <= k < state.watched.len() && !(#[trigger] state.watched[k]).reported
            && state.watched[k].header == header implies (forall|j: int|
        0 <= j < k && !(#[trigger] state.watched[j]).reported ==> bits_apart(
            state.watched[j].watchdog,
            state.watched[k].watchdog,
        )) by {
        assert(is_alive(state, k));
    }
    lemma_round_spares(start, state.header_segment, state.watched, state.watched.len(), header);
}

/// A buffer whose owner never confirms again is found out: once its
/// watchdog bit was put under validation with its header, two rounds of
/// validation with no confirmation in between flag the header, whatever
/// else is under validation, and leave its reference count and its
/// generation.
pub proof fn lemma_wrapped_is_found_out(
    state: ResourcesModel,
    watchdog: OwnedDescriptor,
    header: OwnedHeaderDescriptor,
)
    requires
        names_record(state.headers, state.header_segment, header),
    ensures
        ({
            let wrapped = state.watching(
                state.watched.push(Watched { watchdog, header, reported: false }),
            );
            let end = wrapped.after_validation().after_validation();
            &&& is_flagged(end.headers, state.header_segment, header)
            &&& end.headers[header.index as int].refcount
                == state.headers[header.index as int].refcount
            &&& end.headers[header.index as int].generation
                == state.headers[header.index as int].generation
        }),
{
    let wrapped = state.watching(state.watched.push(Watched { watchdog, header, reported: false }));
    lemma_abandoned_is_flagged(wrapped, state.watched.len() as int);
}

} // verus!
