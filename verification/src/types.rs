//! Alignments, memory layouts and the results of an allocation.

use vstd::prelude::*;
use vstd::arithmetic::power2::{pow2, lemma_pow2_pos, lemma_pow2_strictly_increases};
use vstd::bits::{lemma_usize_pow2_no_overflow, lemma_usize_shl_is_mul};
use vstd::layout::unsigned_int_max_values;
use crate::common::{ZError, ZResult};
use crate::chunk::AllocatedChunk;
use crate::text::{decimal, push_decimal};
use vstd::string::StringExecFns;

verus! {

/// Why a chunk or a buffer could not be allocated.
#[derive(Debug, PartialEq, Eq)]
pub enum ZAllocError {
    /// Enough bytes are free, but no contiguous run is large enough.
    NeedDefragment,
    /// Fewer bytes are free than were asked for.
    OutOfMemory,
    /// Any other failure.
    Other(ZError),
}

impl vstd::std_specs::convert::FromSpecImpl<ZError> for ZAllocError {
    open spec fn obeys_from_spec() -> bool {
        true
    }

    open spec fn from_spec(value: ZError) -> Self {
        ZAllocError::Other(value)
    }
}

impl From<ZError> for ZAllocError {
    fn from(value: ZError) -> (error: Self) {
        ZAllocError::Other(value)
    }
}

pub type ChunkAllocResult = Result<AllocatedChunk, ZAllocError>;

/// The number of bytes that an alignment exponent stands for: two to the
/// power of the exponent.
pub open spec fn alignment_value(pow: u32) -> nat {
    pow2(pow as nat)
}

/// `size` rounded up to the next multiple of `alignment`.
pub open spec fn round_up(size: nat, alignment: nat) -> nat
    recommends
        alignment > 0,
{
    if size % alignment == 0 {
        size
    } else {
        (size + (alignment - size % alignment)) as nat
    }
}

/// A size rounded up is a multiple of the alignment, not below the size,
/// and not above any multiple of the alignment that the size is not
/// above.
pub proof fn lemma_round_up(size: nat, alignment: nat, bound: nat)
    requires
        alignment > 0,
        size <= bound,
        bound % alignment == 0,
    ensures
        round_up(size, alignment) % alignment == 0,
        size <= round_up(size, alignment) <= bound,
{
    let rounded = round_up(size, alignment);
    let r = size % alignment;
    if r != 0 {
        assert(rounded % alignment == 0 && rounded <= bound) by (nonlinear_arith)
            requires
                alignment > 0,
                r == size % alignment,
                r != 0,
                rounded == size + (alignment - r),
                size <= bound,
                bound % alignment == 0,
        {
            let q = size / alignment;
            let k = bound / alignment;
            assert(size == q * alignment + r);
            assert(bound == k * alignment);
            assert(rounded == (q + 1) * alignment);
            assert(k > q) by {
                if k <= q {
                    assert(k * alignment <= q * alignment);
                }
            }
            assert((q + 1) * alignment <= k * alignment);
            assert(((q + 1) * alignment) % alignment == 0);
        }
    }
}

/// The sum of two multiples is a multiple.
pub proof fn lemma_multiples_add(a: int, b: int, alignment: int)
    requires
        alignment > 0,
        a % alignment == 0,
        b % alignment == 0,
    ensures
        (a + b) % alignment == 0,
{
    let x = a / alignment;
    let y = b / alignment;
    vstd::arithmetic::div_mod::lemma_fundamental_div_mod(a, alignment);
    vstd::arithmetic::div_mod::lemma_fundamental_div_mod(b, alignment);
    assert(a + b == (x + y) * alignment) by (nonlinear_arith)
        requires
            a == alignment * x,
            b == alignment * y,
    ;
    vstd::arithmetic::div_mod::lemma_mod_multiples_basic(x + y, alignment);
}

/// The difference of two multiples is a multiple.
pub proof fn lemma_multiples_sub(a: int, b: int, alignment: int)
    requires
        alignment > 0,
        a % alignment == 0,
        b % alignment == 0,
    ensures
        (a - b) % alignment == 0,
{
    let x = a / alignment;
    let y = b / alignment;
    vstd::arithmetic::div_mod::lemma_fundamental_div_mod(a, alignment);
    vstd::arithmetic::div_mod::lemma_fundamental_div_mod(b, alignment);
    assert(a - b == (x - y) * alignment) by (nonlinear_arith)
        requires
            a == alignment * x,
            b == alignment * y,
    ;
    vstd::arithmetic::div_mod::lemma_mod_multiples_basic(x - y, alignment);
}

/// An exponent that does not fit the machine word stands for an alignment
/// that is larger than every `usize`.
pub proof fn lemma_large_exponent_exceeds_usize(pow: u32)
    requires
        pow >= usize::BITS,
    ensures
        alignment_value(pow) > usize::MAX,
{
    unsigned_int_max_values();
    if pow > usize::BITS {
        lemma_pow2_strictly_increases(usize::BITS as nat, pow as nat);
    }
}

/// An alignment as text: `[8]` for 8 bytes.
pub open spec fn alignment_text(alignment: AllocAlignment) -> Seq<char> {
    seq!['['] + decimal(alignment.value()) + seq![']']
}

/// A layout as text: `[size=96,alignment=[8]]` for 96 bytes aligned to 8.
pub open spec fn layout_text(layout: MemoryLayout) -> Seq<char> {
    seq!['[', 's', 'i', 'z', 'e', '='] + decimal(layout.size_spec() as nat) + seq![
        ',',
        'a',
        'l',
        'i',
        'g',
        'n',
        'm',
        'e',
        'n',
        't',
        '=',
    ] + alignment_text(layout.alignment_spec()) + seq![']']
}

/// An alignment, stored as a power of two: exponent 0 is 1 byte, 1 is 2
/// bytes, 2 is 4 bytes and so on.
#[derive(Clone, Copy, Debug, PartialEq, Eq, PartialOrd, Ord, Structural)]
pub struct AllocAlignment {
    pow: u32,
}

impl Default for AllocAlignment {
    /// The default alignment is one byte (exponent 0): every size is a
    /// multiple of it.
    fn default() -> (alignment: Self)
        ensures
            alignment == Self::new_spec(0),
            alignment.exponent() == 0,
            alignment.fits(),
    {
        Self { pow: 0 }
    }
}

impl AllocAlignment {
    /// The exponent this alignment was made with.
    pub closed spec fn exponent(self) -> u32 {
        self.pow
    }

    /// The alignment in bytes.
    pub open spec fn value(self) -> nat {
        alignment_value(self.exponent())
    }

    /// The alignment in bytes is a `usize`.
    pub open spec fn fits(self) -> bool {
        self.exponent() < usize::BITS
    }

    /// The alignment with the exponent `pow`.
    pub closed spec fn new_spec(pow: u32) -> Self {
        Self { pow }
    }

    pub fn new(pow: u32) -> (alignment: Self)
        ensures
            alignment == Self::new_spec(pow),
            alignment.exponent() == pow,
    {
        Self { pow }
    }

    /// The exponent, for code that orders alignments.
    pub fn get_exponent(&self) -> (pow: u32)
        ensures
            pow == self.exponent(),
    {
        self.pow
    }

    /// Whether the alignment in bytes is a `usize`.
    pub fn is_representable(&self) -> (fits: bool)
        ensures
            fits == self.fits(),
    {
        self.pow < usize::BITS
    }

    pub fn get_alignment_value(&self) -> (value: usize)
        requires
            self.fits(),
        ensures
            value == self.value(),
            value > 0,
    {
        proof {
            lemma_usize_pow2_no_overflow(self.pow as nat);
            lemma_usize_shl_is_mul(1usize, self.pow as usize);
        }
        1usize << (self.pow as usize)
    }

    /// The alignment as text: its value in bytes, in square brackets.
    pub fn to_text(&self) -> (text: String)
        requires
            self.fits(),
        ensures
            text@ == alignment_text(*self),
    {
        proof {
            reveal_strlit("[");
            reveal_strlit("]");
        }
        let mut text = String::from_str("[");
        push_decimal(&mut text, self.get_alignment_value() as u64);
        text.append("]");
        assert(text@ =~= alignment_text(*self));
        text
    }

    pub fn align_size(&self, size: usize) -> (aligned: usize)
        requires
            self.fits(),
            round_up(size as nat, self.value()) <= usize::MAX,
        ensures
            aligned == round_up(size as nat, self.value()),
            aligned >= size,
            aligned as nat % self.value() == 0,
    {
        let alignment = self.get_alignment_value();
        let remainder = size % alignment;
        if remainder == 0 {
            size
        } else {
            let aligned = size + (alignment - remainder);
            assert(aligned % alignment == 0) by (nonlinear_arith)
                requires
                    alignment > 0,
                    remainder == size % alignment,
                    aligned == size + (alignment - remainder),
            ;
            aligned
        }
    }
}

/// A size together with the alignment it is a multiple of.
#[derive(Clone, Copy, Debug, PartialEq, Eq, Structural)]
pub struct MemoryLayout {
    size: usize,
    alignment: AllocAlignment,
}

impl MemoryLayout {
    pub closed spec fn size_spec(self) -> usize {
        self.size
    }

    pub closed spec fn alignment_spec(self) -> AllocAlignment {
        self.alignment
    }

    /// The invariant of every layout: the size is a multiple of the
    /// alignment.
    pub open spec fn wf(self) -> bool {
        self.size_spec() as nat % self.alignment_spec().value() == 0
    }

    /// Accepts a size and an alignment exactly when the size is a multiple of
    /// the alignment.
    pub fn new(size: usize, alignment: AllocAlignment) -> (result: ZResult<Self>)
        ensures
            result is Ok <==> size as nat % alignment.value() == 0,
            result is Ok ==> result->Ok_0.size_spec() == size && result->Ok_0.alignment_spec()
                == alignment && result->Ok_0.wf(),
            result is Err ==> result->Err_0 == ZError::BadLayout,
    {
        proof {
            lemma_pow2_pos(alignment.pow as nat);
        }
        if !alignment.is_representable() {
            proof {
                lemma_large_exponent_exceeds_usize(alignment.pow);
                vstd::arithmetic::div_mod::lemma_small_mod(size as nat, alignment.value());
            }
            if size == 0 {
                Ok(Self { size, alignment })
            } else {
                Err(ZError::BadLayout)
            }
        } else if size % alignment.get_alignment_value() == 0 {
            Ok(Self { size, alignment })
        } else {
            Err(ZError::BadLayout)
        }
    }

    /// What `extend` returns.
    pub open spec fn extended(self, new_alignment: AllocAlignment) -> ZResult<MemoryLayout> {
        if self.alignment_spec().exponent() > new_alignment.exponent() {
            Err(ZError::BadAlignment)
        } else if !new_alignment.fits() || round_up(self.size_spec() as nat, new_alignment.value())
            > usize::MAX {
            Err(ZError::BadLayout)
        } else {
            Ok(Self::of(round_up(self.size_spec() as nat, new_alignment.value()) as usize, new_alignment))
        }
    }

    /// The layout of `size` bytes aligned to `alignment`.
    pub closed spec fn of(size: usize, alignment: AllocAlignment) -> MemoryLayout {
        MemoryLayout { size, alignment }
    }

    /// `of` holds what it was given.
    pub proof fn lemma_of(size: usize, alignment: AllocAlignment)
        ensures
            Self::of(size, alignment).size_spec() == size,
            Self::of(size, alignment).alignment_spec() == alignment,
    {
    }

    /// Two layouts of the same size and alignment are the same layout.
    pub proof fn lemma_same(self, other: MemoryLayout)
        requires
            self.size_spec() == other.size_spec(),
            self.alignment_spec() == other.alignment_spec(),
        ensures
            self == other,
    {
    }

    /// The layout for an entity that aligns to `new_alignment`: the size
    /// rounded up to it. Refused with `BadAlignment` where the new alignment
    /// is below the layout's own, else with `BadLayout` where the rounded
    /// size is no `usize`.
    pub fn extend(&self, new_alignment: AllocAlignment) -> (result: ZResult<MemoryLayout>)
        ensures
            result == self.extended(new_alignment),
            result is Ok <==> self.alignment_spec().exponent() <= new_alignment.exponent()
                && new_alignment.fits() && round_up(self.size_spec() as nat, new_alignment.value())
                <= usize::MAX,
            result is Ok ==> result->Ok_0.size_spec() == round_up(
                self.size_spec() as nat,
                new_alignment.value(),
            ) && result->Ok_0.alignment_spec() == new_alignment && result->Ok_0.wf(),
            result is Err ==> result->Err_0 == (if self.alignment_spec().exponent()
                > new_alignment.exponent() {
                ZError::BadAlignment
            } else {
                ZError::BadLayout
            }),
    {
        if self.alignment.pow > new_alignment.pow {
            return Err(ZError::BadAlignment);
        }
        if !new_alignment.is_representable() {
            return Err(ZError::BadLayout);
        }
        let alignment = new_alignment.get_alignment_value();
        let remainder = self.size % alignment;
        if remainder == 0 {
            Ok(Self { size: self.size, alignment: new_alignment })
        } else if self.size > usize::MAX - (alignment - remainder) {
            Err(ZError::BadLayout)
        } else {
            let size = new_alignment.align_size(self.size);
            Ok(Self { size, alignment: new_alignment })
        }
    }

    /// The layout as text.
    pub fn to_text(&self) -> (text: String)
        requires
            self.alignment_spec().fits(),
        ensures
            text@ == layout_text(*self),
    {
        proof {
            reveal_strlit("[size=");
            reveal_strlit(",alignment=");
            reveal_strlit("]");
        }
        let mut text = String::from_str("[size=");
        push_decimal(&mut text, self.size as u64);
        text.append(",alignment=");
        let alignment = self.alignment.to_text();
        text.append(alignment.as_str());
        text.append("]");
        assert(text@ =~= layout_text(*self));
        text
    }

    pub fn size(&self) -> (size: usize)
        ensures
            size == self.size_spec(),
    {
        self.size
    }

    pub fn alignment(&self) -> (alignment: AllocAlignment)
        ensures
            alignment == self.alignment_spec(),
    {
        self.alignment
    }
}

/// Something that can honor alignments up to a maximum.
pub trait LimitedAlignment {
    spec fn max_align_spec(&self) -> AllocAlignment;

    fn max_align(&self) -> (alignment: AllocAlignment)
        ensures
            alignment == self.max_align_spec(),
    ;
}

/// A layout that was checked against the largest alignment of the entity
/// that will allocate it.
#[derive(Clone, Copy, Debug, PartialEq, Eq, Structural)]
pub struct AllocLayout {
    pub layout: MemoryLayout,
}

impl AllocLayout {
    /// Makes a layout for `aligning`: refused with `BadAlignment` when the
    /// alignment is above what `aligning` can honor, else with `BadLayout`
    /// when the size is not a multiple of the alignment.
    pub fn new<A: LimitedAlignment>(size: usize, alignment: AllocAlignment, aligning: &A) -> (result:
        ZResult<Self>)
        ensures
            result is Ok <==> alignment.exponent() <= aligning.max_align_spec().exponent() && size as nat
                % alignment.value() == 0,
            result is Ok ==> result->Ok_0.layout.size_spec() == size
                && result->Ok_0.layout.alignment_spec() == alignment && result->Ok_0.layout.wf(),
            result is Err ==> result->Err_0 == (if alignment.exponent()
                > aligning.max_align_spec().exponent() {
                ZError::BadAlignment
            } else {
                ZError::BadLayout
            }),
    {
        if aligning.max_align().get_exponent() >= alignment.get_exponent() {
            match MemoryLayout::new(size, alignment) {
                Ok(layout) => Ok(Self { layout }),
                Err(e) => Err(e),
            }
        } else {
            Err(ZError::BadAlignment)
        }
    }
}

impl core::ops::Deref for AllocLayout {
    type Target = MemoryLayout;

    fn deref(&self) -> (layout: &MemoryLayout)
        ensures
            *layout == self.layout,
    {
        &self.layout
    }
}

} // verus!
