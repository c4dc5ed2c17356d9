//! The bitmap segments that hold the watchdog bits, and the pool of the bits
//! that nobody owns.

use vstd::prelude::*;
use crate::common::{SegmentID, ZError, ZResult};
use crate::pool::SlotPool;
use crate::watchdog::descriptor::{
    bit_mask, bit_position, highest_bit, lemma_highest_bit_of_mask, lemma_pack_is_slot,
    lemma_unpack_roundtrip, pack, unpack_bitpos, unpack_index, OwnedDescriptor, MAX_WORD_INDEX,
};

verus! {

/// What one bitmap segment holds: its 64-bit words, and the stack of the
/// slots that are free. Slot `index * 64 + bitpos` is the bit `bitpos` of
/// word `index`.
pub struct SegmentModel {
    pub id: SegmentID,
    pub words: Seq<u64>,
    pub free: Seq<u32>,
}

/// The slot that a handle names.
pub open spec fn slot_of(descriptor: OwnedDescriptor) -> u32 {
    pack(descriptor.index, highest_bit(descriptor.mask) as u32)
}

/// The handle of a slot of segment `id`.
pub open spec fn descriptor_of(id: SegmentID, slot: u32) -> OwnedDescriptor {
    OwnedDescriptor {
        segment: id,
        index: unpack_index(slot),
        mask: bit_mask(unpack_bitpos(slot)),
    }
}

impl SegmentModel {
    /// Whether `descriptor` names a word of this segment.
    pub open spec fn holds(self, descriptor: OwnedDescriptor) -> bool {
        descriptor.segment == self.id && descriptor.index < self.words.len()
    }

    /// Whether `descriptor` names a bit of this segment that has an owner.
    pub open spec fn owns(self, descriptor: OwnedDescriptor) -> bool {
        self.holds(descriptor) && !self.free.contains(slot_of(descriptor))
    }

    /// The owner asserts that it is alive: the bit is set.
    pub open spec fn confirmed(self, descriptor: OwnedDescriptor) -> SegmentModel {
        if self.holds(descriptor) {
            SegmentModel {
                words: self.words.update(
                    descriptor.index as int,
                    self.words[descriptor.index as int] | descriptor.mask,
                ),
                ..self
            }
        } else {
            self
        }
    }

    /// What the validator finds in the bit: the bit itself, or 0 where the
    /// handle names no word.
    pub open spec fn observed(self, descriptor: OwnedDescriptor) -> u64 {
        if self.holds(descriptor) {
            self.words[descriptor.index as int] & descriptor.mask
        } else {
            0
        }
    }

    /// The validator clears the bit.
    pub open spec fn validated(self, descriptor: OwnedDescriptor) -> SegmentModel {
        if self.holds(descriptor) {
            SegmentModel {
                words: self.words.update(
                    descriptor.index as int,
                    self.words[descriptor.index as int] & !descriptor.mask,
                ),
                ..self
            }
        } else {
            self
        }
    }

    /// The handle that the next allocation returns.
    pub open spec fn next_descriptor(self) -> OwnedDescriptor
        recommends
            self.free.len() > 0,
    {
        descriptor_of(self.id, self.free.last())
    }

    /// The top of the free stack gets an owner, and its bit is cleared.
    pub open spec fn allocated(self) -> SegmentModel
        recommends
            self.free.len() > 0,
    {
        SegmentModel { free: self.free.drop_last(), ..self }.validated(self.next_descriptor())
    }

    /// An owned bit goes back on the free stack; any other handle changes
    /// nothing.
    pub open spec fn freed(self, descriptor: OwnedDescriptor) -> SegmentModel {
        if self.owns(descriptor) {
            SegmentModel { free: self.free.push(slot_of(descriptor)), ..self }
        } else {
            self
        }
    }
}

/// One bitmap segment.
pub struct WatchdogSegment {
    id: SegmentID,
    words: Vec<u64>,
    pool: SlotPool,
}

impl View for WatchdogSegment {
    type V = SegmentModel;

    closed spec fn view(&self) -> SegmentModel {
        SegmentModel { id: self.id, words: self.words@, free: self.pool.free_stack() }
    }
}

impl WatchdogSegment {
    pub closed spec fn wf(&self) -> bool {
        &&& self.pool.wf()
        &&& self.words@.len() <= MAX_WORD_INDEX + 1
        &&& self.pool.capacity() == self.words@.len() * 64
    }

    /// A segment of `word_count` words, all bits clear and free.
    pub fn new(id: SegmentID, word_count: u32) -> (segment: Self)
        requires
            word_count <= MAX_WORD_INDEX,
        ensures
            segment.wf(),
            segment@.id == id,
            segment@.words.len() == word_count,
            forall|i: int| 0 <= i < word_count ==> segment@.words[i] == 0,
            segment@.free.len() == word_count * 64,
            forall|i: int|
                0 <= i < word_count * 64 ==> segment@.free[i] == word_count * 64 - 1 - i,
    {
        let mut words: Vec<u64> = Vec::new();
        let mut i: u32 = 0;
        while i < word_count
            invariant
                i <= word_count,
                words@.len() == i,
                forall|k: int| 0 <= k < i ==> words@[k] == 0,
            decreases word_count - i,
        {
            words.push(0);
            i = i + 1;
        }
        WatchdogSegment { id, words, pool: SlotPool::new(word_count * 64) }
    }

    pub fn id(&self) -> (id: SegmentID)
        ensures
            id == self@.id,
    {
        self.id
    }

    /// The word at `index`, if there is one.
    pub fn word(&self, index: u32) -> (word: Option<u64>)
        ensures
            word == (if index < self@.words.len() {
                Some(self@.words[index as int])
            } else {
                None
            }),
    {
        if (index as usize) < self.words.len() {
            Some(self.words[index as usize])
        } else {
            None
        }
    }

    /// Whether some bit of the segment is free.
    pub fn has_free(&self) -> (free: bool)
        ensures
            free == (self@.free.len() > 0),
    {
        self.pool.free_count() > 0
    }

    /// Sets the bit that `descriptor` names.
    pub fn confirm(&mut self, descriptor: &OwnedDescriptor)
        requires
            old(self).wf(),
        ensures
            final(self).wf(),
            final(self)@ == old(self)@.confirmed(*descriptor),
    {
        if descriptor.segment == self.id && (descriptor.index as usize) < self.words.len() {
            let word = self.words[descriptor.index as usize];
            self.words.set(descriptor.index as usize, word | descriptor.mask);
        }
    }

    /// Clears the bit that `descriptor` names and returns what it held.
    pub fn validate(&mut self, descriptor: &OwnedDescriptor) -> (prior: u64)
        requires
            old(self).wf(),
        ensures
            final(self).wf(),
            final(self)@ == old(self)@.validated(*descriptor),
            prior == old(self)@.observed(*descriptor),
    {
        if descriptor.segment == self.id && (descriptor.index as usize) < self.words.len() {
            let word = self.words[descriptor.index as usize];
            self.words.set(descriptor.index as usize, word & !descriptor.mask);
            word & descriptor.mask
        } else {
            0
        }
    }

    /// Gives the free bit on top of the stack an owner.
    pub fn allocate(&mut self) -> (descriptor: Option<OwnedDescriptor>)
        requires
            old(self).wf(),
        ensures
            final(self).wf(),
            descriptor is Some <==> old(self)@.free.len() > 0,
            descriptor is None ==> final(self)@ == old(self)@,
            descriptor is Some ==> descriptor->Some_0 == old(self)@.next_descriptor() && final(self)@ == old(self)@.allocated() && final(self)@.owns(descriptor->Some_0),
    {
        match self.pool.take() {
            None => None,
            Some(slot) => {
                proof {
                    lemma_unpack_roundtrip(slot);
                    let index = unpack_index(slot);
                    let bitpos = unpack_bitpos(slot);
                    lemma_pack_is_slot(index, bitpos);
                    lemma_highest_bit_of_mask(bitpos);
                    assert(index < self.words@.len());
                    let before = old(self).pool.free_stack();
                    assert(before[before.len() - 1] == slot);
                    if before.drop_last().contains(slot) {
                        let j = choose|j: int|
                            0 <= j < before.drop_last().len() && before.drop_last()[j] == slot;
                        assert(before[j] == slot);
                        old(self).pool.lemma_free_stack_bounds();
                    }
                }
                let index = slot >> 6;
                let bitpos = slot & 0x3f;
                let descriptor = OwnedDescriptor { segment: self.id, index, mask: 1u64 << bitpos };
                let word = self.words[index as usize];
                self.words.set(index as usize, word & !descriptor.mask);
                Some(descriptor)
            },
        }
    }

    /// Takes the owner from the bit that `descriptor` names.
    pub fn free(&mut self, descriptor: &OwnedDescriptor) -> (done: bool)
        requires
            old(self).wf(),
        ensures
            final(self).wf(),
            final(self)@ == old(self)@.freed(*descriptor),
            done == old(self)@.owns(*descriptor),
    {
        if descriptor.segment == self.id && (descriptor.index as usize) < self.words.len() {
            let bitpos = bit_position(descriptor.mask);
            proof {
                lemma_pack_is_slot(descriptor.index, bitpos);
            }
            let slot = (descriptor.index << 6) | bitpos;
            self.pool.give_back(slot)
        } else {
            false
        }
    }
}

/// The position of the first segment called `id`, or the number of segments
/// where none is.
pub open spec fn position(segments: Seq<SegmentModel>, id: SegmentID) -> int
    decreases segments.len(),
{
    if segments.len() == 0 {
        0
    } else if segments[0].id == id {
        0
    } else {
        1 + position(segments.drop_first(), id)
    }
}

/// The position of the first segment with a free bit, or the number of
/// segments where all are full.
pub open spec fn first_with_free(segments: Seq<SegmentModel>) -> int
    decreases segments.len(),
{
    if segments.len() == 0 {
        0
    } else if segments[0].free.len() > 0 {
        0
    } else {
        1 + first_with_free(segments.drop_first())
    }
}

/// `position` is the position of a segment called `id` that no earlier
/// segment shares its id with, or the number of segments.
pub proof fn lemma_position(segments: Seq<SegmentModel>, id: SegmentID)
    ensures
        0 <= position(segments, id) <= segments.len(),
        position(segments, id) < segments.len() ==> segments[position(segments, id)].id == id,
        forall|j: int| 0 <= j < position(segments, id) ==> (#[trigger] segments[j]).id != id,
    decreases segments.len(),
{
    if segments.len() > 0 && segments[0].id != id {
        let rest = segments.drop_first();
        lemma_position(rest, id);
        assert forall|j: int| 0 <= j < position(segments, id) implies (
        #[trigger] segments[j]).id != id by {
            if j > 0 {
                assert(rest[j - 1] == segments[j]);
            }
        }
    }
}

/// The position that has these properties is `position`.
pub proof fn lemma_position_is(segments: Seq<SegmentModel>, id: SegmentID, k: int)
    requires
        0 <= k <= segments.len(),
        k < segments.len() ==> segments[k].id == id,
        forall|j: int| 0 <= j < k ==> (#[trigger] segments[j]).id != id,
    ensures
        position(segments, id) == k,
{
    lemma_position(segments, id);
    let p = position(segments, id);
    if p < k {
        assert(segments[p].id != id);
    }
}

/// `first_with_free` is the position of a segment with a free bit before
/// which all segments are full, or the number of segments.
pub proof fn lemma_first_with_free(segments: Seq<SegmentModel>)
    ensures
        0 <= first_with_free(segments) <= segments.len(),
        first_with_free(segments) < segments.len() ==> segments[first_with_free(
            segments,
        )].free.len() > 0,
        forall|j: int|
            0 <= j < first_with_free(segments) ==> (#[trigger] segments[j]).free.len() == 0,
    decreases segments.len(),
{
    if segments.len() > 0 && segments[0].free.len() == 0 {
        let rest = segments.drop_first();
        lemma_first_with_free(rest);
        assert forall|j: int| 0 <= j < first_with_free(segments) implies (
        #[trigger] segments[j]).free.len() == 0 by {
            if j > 0 {
                assert(rest[j - 1] == segments[j]);
            }
        }
    }
}

/// The position that has these properties is `first_with_free`.
pub proof fn lemma_first_with_free_is(segments: Seq<SegmentModel>, k: int)
    requires
        0 <= k <= segments.len(),
        k < segments.len() ==> segments[k].free.len() > 0,
        forall|j: int| 0 <= j < k ==> (#[trigger] segments[j]).free.len() == 0,
    ensures
        first_with_free(segments) == k,
{
    lemma_first_with_free(segments);
    let p = first_with_free(segments);
    if p < k {
        assert(segments[p].free.len() == 0);
    }
}

/// The bitmap after the owner of `descriptor` confirmed.
pub open spec fn confirmed(segments: Seq<SegmentModel>, descriptor: OwnedDescriptor) -> Seq<
    SegmentModel,
> {
    let k = position(segments, descriptor.segment);
    if k < segments.len() {
        segments.update(k, segments[k].confirmed(descriptor))
    } else {
        segments
    }
}

/// What the validator finds in the bit of `descriptor`.
pub open spec fn observed(segments: Seq<SegmentModel>, descriptor: OwnedDescriptor) -> u64 {
    let k = position(segments, descriptor.segment);
    if k < segments.len() {
        segments[k].observed(descriptor)
    } else {
        0
    }
}

/// The bitmap after the validator cleared the bit of `descriptor`.
pub open spec fn validated(segments: Seq<SegmentModel>, descriptor: OwnedDescriptor) -> Seq<
    SegmentModel,
> {
    let k = position(segments, descriptor.segment);
    if k < segments.len() {
        segments.update(k, segments[k].validated(descriptor))
    } else {
        segments
    }
}

/// The bitmap after the bit of `descriptor` lost its owner.
pub open spec fn freed(segments: Seq<SegmentModel>, descriptor: OwnedDescriptor) -> Seq<
    SegmentModel,
> {
    let k = position(segments, descriptor.segment);
    if k < segments.len() {
        segments.update(k, segments[k].freed(descriptor))
    } else {
        segments
    }
}

/// The word `index` of the segment called `id`, if there is one.
pub open spec fn word_of(segments: Seq<SegmentModel>, id: SegmentID, index: u32) -> Option<u64> {
    let k = position(segments, id);
    if k < segments.len() && index < segments[k].words.len() {
        Some(segments[k].words[index as int])
    } else {
        None
    }
}

/// Whether some segment has a free bit.
pub open spec fn has_free(segments: Seq<SegmentModel>) -> bool {
    first_with_free(segments) < segments.len()
}

/// The handle that the next allocation returns.
pub open spec fn next_descriptor(segments: Seq<SegmentModel>) -> OwnedDescriptor
    recommends
        has_free(segments),
{
    segments[first_with_free(segments)].next_descriptor()
}

/// The bitmap after an allocation.
pub open spec fn allocated(segments: Seq<SegmentModel>) -> Seq<SegmentModel>
    recommends
        has_free(segments),
{
    let k = first_with_free(segments);
    segments.update(k, segments[k].allocated())
}

/// Changing a segment without changing its id leaves every segment where it
/// was.
pub proof fn lemma_position_after_update(
    segments: Seq<SegmentModel>,
    k: int,
    segment: SegmentModel,
    id: SegmentID,
)
    requires
        0 <= k < segments.len(),
        segment.id == segments[k].id,
    ensures
        position(segments.update(k, segment), id) == position(segments, id),
{
    lemma_position(segments, id);
    let p = position(segments, id);
    let changed = segments.update(k, segment);
    assert forall|j: int| 0 <= j < p implies (#[trigger] changed[j]).id != id by {
        assert(segments[j].id != id);
    }
    lemma_position_is(changed, id, p);
}

/// A bit that its owner confirmed is found set by the validator.
pub proof fn lemma_confirmed_is_observed(segments: Seq<SegmentModel>, descriptor: OwnedDescriptor)
    requires
        position(segments, descriptor.segment) < segments.len(),
        segments[position(segments, descriptor.segment)].holds(descriptor),
    ensures
        observed(confirmed(segments, descriptor), descriptor) == descriptor.mask,
{
    lemma_position(segments, descriptor.segment);
    let k = position(segments, descriptor.segment);
    lemma_position_after_update(
        segments,
        k,
        segments[k].confirmed(descriptor),
        descriptor.segment,
    );
    let word = segments[k].words[descriptor.index as int];
    let mask = descriptor.mask;
    assert((word | mask) & mask == mask) by (bit_vector);
}

/// A bit that the validator cleared is found clear until somebody confirms
/// it.
pub proof fn lemma_validated_is_clear(segments: Seq<SegmentModel>, descriptor: OwnedDescriptor)
    ensures
        observed(validated(segments, descriptor), descriptor) == 0,
{
    lemma_position(segments, descriptor.segment);
    let k = position(segments, descriptor.segment);
    if k < segments.len() {
        lemma_position_after_update(
            segments,
            k,
            segments[k].validated(descriptor),
            descriptor.segment,
        );
        if segments[k].holds(descriptor) {
            let word = segments[k].words[descriptor.index as int];
            let mask = descriptor.mask;
            assert((word & !mask) & mask == 0) by (bit_vector);
        }
    }
}

/// Validation sets no bit: a bit that is clear stays clear when the
/// validator clears another.
pub proof fn lemma_validation_keeps_clear(
    segments: Seq<SegmentModel>,
    other: OwnedDescriptor,
    descriptor: OwnedDescriptor,
)
    requires
        observed(segments, descriptor) == 0,
    ensures
        observed(validated(segments, other), descriptor) == 0,
{
    lemma_position(segments, other.segment);
    lemma_position(segments, descriptor.segment);
    let k = position(segments, other.segment);
    if k < segments.len() {
        lemma_position_after_update(
            segments,
            k,
            segments[k].validated(other),
            descriptor.segment,
        );
        if position(segments, descriptor.segment) == k && segments[k].holds(other)
            && segments[k].holds(descriptor) && other.index == descriptor.index {
            let word = segments[k].words[descriptor.index as int];
            let a = other.mask;
            let b = descriptor.mask;
            assert((word & !a) & b == 0) by (bit_vector)
                requires
                    word & b == 0,
            ;
        }
    }
}

/// Whether `descriptor` names a bit of some segment.
pub open spec fn has_bit(segments: Seq<SegmentModel>, descriptor: OwnedDescriptor) -> bool {
    position(segments, descriptor.segment) < segments.len() && segments[position(
        segments,
        descriptor.segment,
    )].holds(descriptor)
}

/// Whether two handles have no bit in common.
pub open spec fn bits_apart(a: OwnedDescriptor, b: OwnedDescriptor) -> bool {
    a.segment != b.segment || a.index != b.index || a.mask & b.mask == 0
}

/// Confirmation and validation change bits only: the words stay where they
/// are.
pub proof fn lemma_bits_stay(
    segments: Seq<SegmentModel>,
    other: OwnedDescriptor,
    descriptor: OwnedDescriptor,
)
    ensures
        has_bit(confirmed(segments, other), descriptor) == has_bit(segments, descriptor),
        has_bit(validated(segments, other), descriptor) == has_bit(segments, descriptor),
{
    lemma_position(segments, other.segment);
    lemma_position(segments, descriptor.segment);
    let k = position(segments, other.segment);
    if k < segments.len() {
        lemma_position_after_update(
            segments,
            k,
            segments[k].confirmed(other),
            descriptor.segment,
        );
        lemma_position_after_update(
            segments,
            k,
            segments[k].validated(other),
            descriptor.segment,
        );
    }
}

/// Confirmation clears no bit: a bit that is set stays set when another
/// owner confirms.
pub proof fn lemma_confirmation_keeps_set(
    segments: Seq<SegmentModel>,
    other: OwnedDescriptor,
    descriptor: OwnedDescriptor,
)
    requires
        observed(segments, descriptor) == descriptor.mask,
    ensures
        observed(confirmed(segments, other), descriptor) == descriptor.mask,
{
    lemma_position(segments, other.segment);
    lemma_position(segments, descriptor.segment);
    let k = position(segments, other.segment);
    if k < segments.len() {
        lemma_position_after_update(
            segments,
            k,
            segments[k].confirmed(other),
            descriptor.segment,
        );
        if position(segments, descriptor.segment) == k && segments[k].holds(other)
            && segments[k].holds(descriptor) && other.index == descriptor.index {
            let word = segments[k].words[descriptor.index as int];
            let a = other.mask;
            let b = descriptor.mask;
            assert((word | a) & b == b) by (bit_vector)
                requires
                    word & b == b,
            ;
        }
    }
}

/// Validation of a bit leaves the bits of other handles as they are.
pub proof fn lemma_validation_keeps_apart(
    segments: Seq<SegmentModel>,
    other: OwnedDescriptor,
    descriptor: OwnedDescriptor,
)
    requires
        bits_apart(other, descriptor),
    ensures
        observed(validated(segments, other), descriptor) == observed(segments, descriptor),
{
    lemma_position(segments, other.segment);
    lemma_position(segments, descriptor.segment);
    let k = position(segments, other.segment);
    if k < segments.len() {
        lemma_position_after_update(
            segments,
            k,
            segments[k].validated(other),
            descriptor.segment,
        );
        if position(segments, descriptor.segment) == k && segments[k].holds(other)
            && segments[k].holds(descriptor) && other.index == descriptor.index {
            let word = segments[k].words[descriptor.index as int];
            let a = other.mask;
            let b = descriptor.mask;
            assert((word & !a) & b == word & b) by (bit_vector)
                requires
                    a & b == 0,
            ;
        }
    }
}

/// A watchdog bit that was allocated and has to be given back.
#[derive(Debug)]
pub struct AllocatedWatchdog {
    pub descriptor: OwnedDescriptor,
}

/// All bitmap segments of a process.
pub struct Storage {
    segments: Vec<WatchdogSegment>,
}

impl View for Storage {
    type V = Seq<SegmentModel>;

    closed spec fn view(&self) -> Seq<SegmentModel> {
        Seq::new(self.segments@.len(), |i: int| self.segments@[i]@)
    }
}

impl Storage {
    pub closed spec fn wf(&self) -> bool {
        forall|i: int| 0 <= i < self.segments@.len() ==> (#[trigger] self.segments@[i]).wf()
    }

    /// A storage without segments: it has no bit to allocate until a segment
    /// is added.
    pub fn new() -> (storage: Self)
        ensures
            storage.wf(),
            storage@.len() == 0,
    {
        Storage { segments: Vec::new() }
    }

    /// Adds a segment of `word_count` words under `id`, all bits clear and
    /// free. Refused where a segment of that id is there already or
    /// `word_count` is above `MAX_WORD_INDEX`.
    pub fn add_segment(&mut self, id: SegmentID, word_count: u32) -> (done: bool)
        requires
            old(self).wf(),
        ensures
            final(self).wf(),
            done == (word_count <= MAX_WORD_INDEX && position(old(self)@, id) == old(self)@.len()),
            !done ==> final(self)@ == old(self)@,
            done ==> final(self)@.len() == old(self)@.len() + 1 && final(self)@.drop_last() == old(self)@ && ({
                let added = final(self)@.last();
                &&& added.id == id
                &&& added.words.len() == word_count
                &&& (forall|i: int| 0 <= i < word_count ==> added.words[i] == 0)
                &&& added.free.len() == word_count * 64
                &&& (forall|i: int|
                    0 <= i < word_count * 64 ==> added.free[i] == word_count * 64 - 1 - i)
            }),
    {
        if word_count > MAX_WORD_INDEX {
            return false;
        }
        proof {
            lemma_position(self@, id);
        }
        if self.find(id).is_some() {
            return false;
        }
        let segment = WatchdogSegment::new(id, word_count);
        self.segments.push(segment);
        proof {
            assert(final(self)@.drop_last() =~= old(self)@);
        }
        true
    }

    fn find(&self, id: SegmentID) -> (found: Option<usize>)
        ensures
            found is Some <==> position(self@, id) < self@.len(),
            found is Some ==> found->Some_0 == position(self@, id),
    {
        let mut i: usize = 0;
        while i < self.segments.len()
            invariant
                i <= self.segments@.len(),
                forall|j: int| 0 <= j < i ==> (#[trigger] self@[j]).id != id,
            decreases self.segments@.len() - i,
        {
            if self.segments[i].id() == id {
                proof {
                    lemma_position_is(self@, id, i as int);
                }
                return Some(i);
            }
            i = i + 1;
        }
        proof {
            lemma_position_is(self@, id, i as int);
        }
        None
    }

    /// The word `index` of the segment called `id`, as it is now: the bits
    /// of the owners that confirmed since the validator last cleared them.
    pub fn word(&self, id: SegmentID, index: u32) -> (word: Option<u64>)
        ensures
            word == word_of(self@, id, index),
    {
        match self.find(id) {
            None => None,
            Some(k) => self.segments[k].word(index),
        }
    }

    /// Whether some bit is free.
    pub fn has_free(&self) -> (free: bool)
        ensures
            free == has_free(self@),
    {
        let mut i: usize = 0;
        while i < self.segments.len()
            invariant
                i <= self.segments@.len(),
                forall|j: int| 0 <= j < i ==> (#[trigger] self@[j]).free.len() == 0,
            decreases self.segments@.len() - i,
        {
            if self.segments[i].has_free() {
                proof {
                    lemma_first_with_free_is(self@, i as int);
                }
                return true;
            }
            i = i + 1;
        }
        proof {
            lemma_first_with_free_is(self@, i as int);
        }
        false
    }

    /// Gives a free bit an owner: the one on top of the free stack of the
    /// first segment that has a free bit. The bit is cleared. Fails with
    /// `Exhausted`, changing nothing, exactly when no bit is free.
    pub fn allocate_watchdog(&mut self) -> (result: ZResult<AllocatedWatchdog>)
        requires
            old(self).wf(),
        ensures
            final(self).wf(),
            result is Ok <==> has_free(old(self)@),
            result is Err ==> result->Err_0 == ZError::Exhausted && final(self)@ == old(self)@,
            result is Ok ==> result->Ok_0.descriptor == next_descriptor(old(self)@) && final(self)@
                == allocated(old(self)@),
    {
        let mut i: usize = 0;
        while i < self.segments.len()
            invariant
                i <= self.segments@.len(),
                self.wf(),
                self@ == old(self)@,
                forall|j: int| 0 <= j < i ==> (#[trigger] self@[j]).free.len() == 0,
            decreases self.segments@.len() - i,
        {
            if self.segments[i].has_free() {
                proof {
                    lemma_first_with_free_is(self@, i as int);
                }
                let mut segment = self.segments.remove(i);
                let taken = segment.allocate();
                self.segments.insert(i, segment);
                proof {
                    assert(final(self)@ =~= allocated(old(self)@));
                }
                return Ok(AllocatedWatchdog { descriptor: taken.unwrap() });
            }
            i = i + 1;
        }
        proof {
            lemma_first_with_free_is(self@, i as int);
        }
        Err(ZError::Exhausted)
    }

    /// Takes the owner from a bit. A handle that names no owned bit changes
    /// nothing.
    pub fn free_watchdog(&mut self, watchdog: AllocatedWatchdog) -> (done: bool)
        requires
            old(self).wf(),
        ensures
            final(self).wf(),
            final(self)@ == freed(old(self)@, watchdog.descriptor),
            done == (position(old(self)@, watchdog.descriptor.segment) < old(self)@.len() && old(self)@[position(old(self)@, watchdog.descriptor.segment)].owns(watchdog.descriptor)),
    {
        match self.find(watchdog.descriptor.segment) {
            None => false,
            Some(k) => {
                let mut segment = self.segments.remove(k);
                let done = segment.free(&watchdog.descriptor);
                self.segments.insert(k, segment);
                proof {
                    assert(final(self)@ =~= freed(old(self)@, watchdog.descriptor));
                }
                done
            },
        }
    }

    /// The owner of `descriptor` asserts that it is alive.
    pub fn confirm(&mut self, descriptor: &OwnedDescriptor)
        requires
            old(self).wf(),
        ensures
            final(self).wf(),
            final(self)@ == confirmed(old(self)@, *descriptor),
    {
        match self.find(descriptor.segment) {
            None => {},
            Some(k) => {
                let mut segment = self.segments.remove(k);
                segment.confirm(descriptor);
                self.segments.insert(k, segment);
                proof {
                    assert(final(self)@ =~= confirmed(old(self)@, *descriptor));
                }
            },
        }
    }

    /// The validator clears the bit of `descriptor` and learns what it held:
    /// 0 means that nobody confirmed since the bit was last cleared.
    pub fn validate(&mut self, descriptor: &OwnedDescriptor) -> (prior: u64)
        requires
            old(self).wf(),
        ensures
            final(self).wf(),
            final(self)@ == validated(old(self)@, *descriptor),
            prior == observed(old(self)@, *descriptor),
    {
        match self.find(descriptor.segment) {
            None => 0,
            Some(k) => {
                let mut segment = self.segments.remove(k);
                let prior = segment.validate(descriptor);
                self.segments.insert(k, segment);
                proof {
                    assert(final(self)@ =~= validated(old(self)@, *descriptor));
                }
                prior
            },
        }
    }
}

impl OwnedDescriptor {
    /// The owner asserts that it is alive: the bit is set.
    pub fn confirm(&self, storage: &mut Storage)
        requires
            old(storage).wf(),
        ensures
            final(storage).wf(),
            final(storage)@ == confirmed(old(storage)@, *self),
    {
        storage.confirm(self)
    }

    /// The validator clears the bit and learns what it held: 0 means that
    /// nobody confirmed since the bit was last cleared.
    pub fn validate(&self, storage: &mut Storage) -> (prior: u64)
        requires
            old(storage).wf(),
        ensures
            final(storage).wf(),
            final(storage)@ == validated(old(storage)@, *self),
            prior == observed(old(storage)@, *self),
    {
        storage.validate(self)
    }
}

} // verus!
