//! Descriptors of watchdog bits, and how a word index and a bit position
//! share one 32-bit field on the wire.

use vstd::prelude::*;
use crate::common::SegmentID;

verus! {

/// The number of word indices that fit the wire format: 26 bits.
pub const MAX_WORD_INDEX: u32 = 0x3ff_ffff;

/// A word index and a bit position in one field: the position in the low 6
/// bits, the index above them.
pub open spec fn pack(index: u32, bitpos: u32) -> u32 {
    (index << 6) | bitpos
}

/// The word index of a packed field.
pub open spec fn unpack_index(packed: u32) -> u32 {
    packed >> 6
}

/// The bit position of a packed field.
pub open spec fn unpack_bitpos(packed: u32) -> u32 {
    packed & 0x3f
}

/// Packing loses nothing: an index of at most 26 bits and a position below
/// 64 come back as they went in.
pub proof fn lemma_pack_roundtrip(index: u32, bitpos: u32)
    requires
        index <= MAX_WORD_INDEX,
        bitpos < 64,
    ensures
        unpack_index(pack(index, bitpos)) == index,
        unpack_bitpos(pack(index, bitpos)) == bitpos,
{
    assert(((index << 6) | bitpos) >> 6 == index) by (bit_vector)
        requires
            index <= 0x3ff_ffff,
            bitpos < 64,
    ;
    assert(((index << 6) | bitpos) & 0x3f == bitpos) by (bit_vector)
        requires
            index <= 0x3ff_ffff,
            bitpos < 64,
    ;
}

/// Every field is the packing of its two parts.
pub proof fn lemma_unpack_roundtrip(packed: u32)
    ensures
        pack(unpack_index(packed), unpack_bitpos(packed)) == packed,
        unpack_index(packed) <= MAX_WORD_INDEX,
        unpack_bitpos(packed) < 64,
{
    assert(((packed >> 6) << 6) | (packed & 0x3f) == packed) by (bit_vector);
    assert(packed >> 6 <= 0x3ff_ffff) by (bit_vector);
    assert(packed & 0x3f < 64) by (bit_vector);
}

/// Packing is the slot number `index * 64 + bitpos`.
pub proof fn lemma_pack_is_slot(index: u32, bitpos: u32)
    requires
        index <= MAX_WORD_INDEX,
        bitpos < 64,
    ensures
        pack(index, bitpos) == index * 64 + bitpos,
        unpack_index(pack(index, bitpos)) == index,
        unpack_bitpos(pack(index, bitpos)) == bitpos,
{
    assert((index << 6) | bitpos == index * 64 + bitpos) by (bit_vector)
        requires
            index <= 0x3ff_ffff,
            bitpos < 64,
    ;
    lemma_pack_roundtrip(index, bitpos);
}

/// The position of the highest bit that is set in `mask`; 0 where none is.
pub open spec fn highest_bit(mask: u64) -> nat
    decreases mask,
{
    if mask <= 1 {
        0
    } else {
        1 + highest_bit(mask / 2)
    }
}

/// The mask with only the bit at `bitpos` set.
pub open spec fn bit_mask(bitpos: u32) -> u64
    recommends
        bitpos < 64,
{
    1u64 << bitpos
}

/// A mask below two to the power of `bits` has its highest bit below
/// `bits`; no mask has a bit at 64 or above.
pub proof fn lemma_highest_bit_below(mask: u64, bits: nat)
    requires
        1 <= bits <= 64,
        bits < 64 ==> mask < vstd::arithmetic::power2::pow2(bits),
    ensures
        highest_bit(mask) < bits,
    decreases bits,
{
    vstd::arithmetic::power2::lemma2_to64();
    if mask > 1 {
        if bits == 1 {
            assert(false);
        } else {
            if bits < 64 {
                vstd::arithmetic::power2::lemma_pow2_unfold(bits);
            } else {
                vstd::arithmetic::power2::lemma2_to64_rest();
            }
            lemma_highest_bit_below(mask / 2, (bits - 1) as nat);
        }
    }
}

/// The highest bit of a mask with a single bit is that bit.
pub proof fn lemma_highest_bit_of_mask(bitpos: u32)
    requires
        bitpos < 64,
    ensures
        highest_bit(bit_mask(bitpos)) == bitpos,
    decreases bitpos,
{
    if bitpos == 0 {
        assert(1u64 << 0u32 == 1) by (bit_vector);
    } else {
        let prev = (bitpos - 1) as u32;
        assert((1u64 << bitpos) / 2 == 1u64 << prev && (1u64 << bitpos) > 1) by (bit_vector)
            requires
                0 < bitpos < 64,
                prev == bitpos - 1,
        ;
        lemma_highest_bit_of_mask(prev);
    }
}

/// Names a watchdog bit on the wire.
#[derive(Clone, Copy, Debug, PartialEq, Eq, PartialOrd, Ord, Hash, Structural)]
pub struct Descriptor {
    pub id: SegmentID,
    pub index_and_bitpos: u32,
}

/// The owner's handle on a watchdog bit: the segment, the index of the
/// 64-bit word in it, and the mask that selects the bit.
#[derive(Clone, Copy, Debug, PartialEq, Eq, PartialOrd, Ord, Structural)]
pub struct OwnedDescriptor {
    pub segment: SegmentID,
    pub index: u32,
    pub mask: u64,
}

/// The position of the highest set bit of `mask`.
pub fn bit_position(mask: u64) -> (bitpos: u32)
    ensures
        bitpos == highest_bit(mask),
        bitpos < 64,
{
    proof {
        lemma_highest_bit_below(mask, 64);
    }
    let mut v = mask;
    let mut bitpos: u32 = 0;
    while v > 1
        invariant
            bitpos + highest_bit(v) == highest_bit(mask),
            highest_bit(mask) < 64,
        decreases v,
    {
        assert(v >> 1 == v / 2) by (bit_vector);
        bitpos = bitpos + 1;
        v = v >> 1;
    }
    bitpos
}

impl Descriptor {
    /// The wire descriptor of an owner's handle.
    pub fn from(item: &OwnedDescriptor) -> (descriptor: Self)
        ensures
            descriptor.id == item.segment,
            descriptor.index_and_bitpos == pack(item.index, highest_bit(item.mask) as u32),
    {
        let bitpos = bit_position(item.mask);
        Descriptor { id: item.segment, index_and_bitpos: (item.index << 6) | bitpos }
    }

    /// The index of the word that holds the bit.
    pub fn index(&self) -> (index: u32)
        ensures
            index == unpack_index(self.index_and_bitpos),
            index <= MAX_WORD_INDEX,
    {
        proof {
            lemma_unpack_roundtrip(self.index_and_bitpos);
        }
        self.index_and_bitpos >> 6
    }

    /// The position of the bit in its word.
    pub fn bitpos(&self) -> (bitpos: u32)
        ensures
            bitpos == unpack_bitpos(self.index_and_bitpos),
            bitpos < 64,
    {
        proof {
            lemma_unpack_roundtrip(self.index_and_bitpos);
        }
        self.index_and_bitpos & 0x3f
    }

    /// The handle that a process attached to the segment uses for the bit.
    pub fn to_owned(&self) -> (owned: OwnedDescriptor)
        ensures
            owned.segment == self.id,
            owned.index == unpack_index(self.index_and_bitpos),
            owned.mask == bit_mask(unpack_bitpos(self.index_and_bitpos)),
    {
        let bitpos = self.bitpos();
        OwnedDescriptor { segment: self.id, index: self.index(), mask: 1u64 << bitpos }
    }
}

impl OwnedDescriptor {
    pub fn new(segment: SegmentID, index: u32, mask: u64) -> (descriptor: Self)
        ensures
            descriptor.segment == segment,
            descriptor.index == index,
            descriptor.mask == mask,
    {
        Self { segment, index, mask }
    }
}

/// A handle and its wire descriptor name the same bit: a handle with a
/// single-bit mask and an index of at most 26 bits comes back from its
/// descriptor unchanged.
pub proof fn lemma_descriptor_roundtrip(segment: SegmentID, index: u32, bitpos: u32)
    requires
        index <= MAX_WORD_INDEX,
        bitpos < 64,
    ensures
        ({
            let packed = pack(index, highest_bit(bit_mask(bitpos)) as u32);
            &&& unpack_index(packed) == index
            &&& bit_mask(unpack_bitpos(packed)) == bit_mask(bitpos)
        }),
{
    lemma_highest_bit_of_mask(bitpos);
    lemma_pack_roundtrip(index, bitpos);
}

} // verus!
