//! Integers of variable length.

use vstd::prelude::*;

verus! {

/// The largest number of bytes that an integer takes.
pub const VLE_LEN: usize = 9;

/// Reading failed: the input ended early or holds a number that does not
/// fit.
#[derive(Clone, Copy, Debug, PartialEq, Eq, Structural)]
pub struct DidntRead;

/// The bytes of `x`, of which `written` groups went out before: the lowest
/// seven bits with the continuation bit while more follow, and all that is
/// left in the last byte.
pub open spec fn vle(x: u64, written: nat) -> Seq<u8>
    decreases 8 - written,
{
    if written >= 8 || x <= 0x7f {
        seq![x as u8]
    } else {
        seq![(x & 0x7f | 0x80) as u8] + vle(x >> 7, written + 1)
    }
}

/// The integer at the front of `bytes` and the number of bytes it takes,
/// where `read` groups were read before; `None` where the bytes end too
/// early.
pub open spec fn unvle(bytes: Seq<u8>, read: nat) -> Option<(u64, nat)>
    decreases 8 - read,
{
    if bytes.len() == 0 {
        None
    } else if read >= 8 || bytes[0] & 0x80 == 0 {
        Some((bytes[0] as u64, 1))
    } else {
        match unvle(bytes.skip(1), read + 1) {
            None => None,
            Some((rest, taken)) => Some((((bytes[0] & 0x7f) as u64) | (rest << 7), taken + 1)),
        }
    }
}

/// The encoding of a 64-bit integer.
#[verifier::opaque]
pub open spec fn encoded_u64(x: u64) -> Seq<u8> {
    vle(x, 0)
}

/// The 64-bit integer at the front of `bytes`, and its length.
#[verifier::opaque]
pub open spec fn decoded_u64(bytes: Seq<u8>) -> Option<(u64, nat)> {
    unvle(bytes, 0)
}

/// The encoding of a 32-bit integer: that of the same number in 64 bits.
#[verifier::opaque]
pub open spec fn encoded_u32(x: u32) -> Seq<u8> {
    vle(x as u64, 0)
}

/// The 32-bit integer at the front of `bytes`, and its length; `None` also
/// where the number does not fit 32 bits.
#[verifier::opaque]
pub open spec fn decoded_u32(bytes: Seq<u8>) -> Option<(u32, nat)> {
    match unvle(bytes, 0) {
        Some((x, taken)) => if x <= u32::MAX {
            Some((x as u32, taken))
        } else {
            None
        },
        None => None,
    }
}

/// An encoding has between one and nine bytes.
pub proof fn lemma_vle_len(x: u64, written: nat)
    requires
        written <= 8,
    ensures
        1 <= vle(x, written).len() <= 9 - written,
    decreases 8 - written,
{
    if !(written >= 8 || x <= 0x7f) {
        lemma_vle_len(x >> 7, written + 1);
    }
}

/// Whether `x` is what can be left of a 64-bit integer after `written`
/// groups of seven bits went out.
pub open spec fn remains(x: u64, written: nat) -> bool {
    written <= 8 && x <= (u64::MAX >> ((7 * written) as u64))
}

/// Before any group went out, every 64-bit integer can be what is left.
pub proof fn lemma_remains_all(x: u64)
    ensures
        remains(x, 0),
{
    assert(u64::MAX >> 0u64 == u64::MAX) by (bit_vector);
}

/// When a group of seven bits goes out, what is left is seven bits shorter,
/// and the byte that goes out fits a byte.
pub proof fn lemma_remains_next(x: u64, written: nat)
    requires
        remains(x, written),
        written < 8,
    ensures
        remains(x >> 7, written + 1),
        x & 0x7f | 0x80 <= 0xff,
        written == 7 ==> x >> 7 <= 0xff,
{
    let s = (7 * written) as u64;
    let t = (7 * (written + 1)) as u64;
    assert((x >> 7) <= (u64::MAX >> t) && (x & 0x7f | 0x80) <= 0xff) by (bit_vector)
        requires
            x <= (u64::MAX >> s),
            s <= 49,
            t == s + 7,
    ;
    if written == 7 {
        assert(u64::MAX >> 56u64 == 0xff) by (bit_vector);
    }
}

/// After eight groups, eight bits are left.
pub proof fn lemma_remains_last(x: u64)
    requires
        remains(x, 8),
    ensures
        x <= 0xff,
{
    assert(u64::MAX >> 56u64 == 0xff) by (bit_vector);
}

/// What was written is read back, whatever follows it.
pub proof fn lemma_vle_roundtrip(x: u64, written: nat, rest: Seq<u8>)
    requires
        remains(x, written),
    ensures
        unvle(vle(x, written) + rest, written) == Some((x, vle(x, written).len())),
    decreases 8 - written,
{
    let bytes = vle(x, written) + rest;
    if written >= 8 {
        lemma_remains_last(x);
        assert(bytes[0] == x as u8);
    } else if x <= 0x7f {
        assert(bytes[0] == x as u8);
        assert((x as u8) & 0x80 == 0) by (bit_vector)
            requires
                x <= 0x7f,
        ;
    } else {
        lemma_remains_next(x, written);
        let low = x & 0x7f | 0x80;
        let head = low as u8;
        let tail = x >> 7;
        assert(bytes[0] == head);
        assert(head & 0x80 != 0 && ((head & 0x7f) as u64) | (tail << 7) == x) by (bit_vector)
            requires
                low == x & 0x7f | 0x80,
                head == low as u8,
                tail == x >> 7,
        ;
        lemma_vle_roundtrip(tail, written + 1, rest);
        assert(bytes.skip(1) =~= vle(tail, written + 1) + rest);
    }
}

/// Appends the encoding of `x` to `writer`.
pub fn write_u64(writer: &mut Vec<u8>, x: u64)
    ensures
        final(writer)@ == old(writer)@ + encoded_u64(x),
{
    reveal(encoded_u64);
    let mut rest = x;
    let mut written: usize = 0;
    proof {
        lemma_remains_all(x);
    }
    while written < 8 && rest > 0x7f
        invariant
            written <= 8,
            remains(rest, written as nat),
            writer@ + vle(rest, written as nat) == old(writer)@ + vle(x, 0),
        decreases 8 - written,
    {
        let ghost before = writer@;
        proof {
            lemma_remains_next(rest, written as nat);
        }
        let low = rest & 0x7f | 0x80;
        writer.push(low as u8);
        proof {
            assert(writer@ + vle(rest >> 7, (written + 1) as nat) =~= before + vle(
                rest,
                written as nat,
            ));
        }
        rest = rest >> 7;
        written = written + 1;
    }
    let ghost before = writer@;
    proof {
        if written == 8 {
            lemma_remains_last(rest);
        }
    }
    writer.push(rest as u8);
    proof {
        assert(writer@ =~= before + vle(rest, written as nat));
    }
}

/// Appends the encoding of `x` to `writer`.
pub fn write_u32(writer: &mut Vec<u8>, x: u32)
    ensures
        final(writer)@ == old(writer)@ + encoded_u32(x),
{
    reveal(encoded_u64);
    reveal(encoded_u32);
    write_u64(writer, x as u64)
}

fn read_groups(bytes: &[u8], pos: usize, read: usize) -> (result: Option<(u64, usize)>)
    requires
        pos <= bytes@.len(),
        read <= 8,
    ensures
        match unvle(bytes@.skip(pos as int), read as nat) {
            Some((x, taken)) => result is Some && result->Some_0.0 == x && result->Some_0.1 == pos
                + taken && pos + taken <= bytes@.len() && 1 <= taken <= 9 - read,
            None => result is None,
        },
    decreases 8 - read,
{
    if pos >= bytes.len() {
        return None;
    }
    let byte = bytes[pos];
    proof {
        assert(bytes@.skip(pos as int)[0] == byte);
        assert(bytes@.skip(pos as int).skip(1) =~= bytes@.skip(pos + 1));
    }
    if read >= 8 || byte & 0x80 == 0 {
        Some((byte as u64, pos + 1))
    } else {
        match read_groups(bytes, pos + 1, read + 1) {
            None => None,
            Some((rest, end)) => Some((((byte & 0x7f) as u64) | (rest << 7), end)),
        }
    }
}

/// Reads the 64-bit integer that starts at `pos`. Returns it with the
/// position behind it, or `None` where the bytes end too early.
pub fn read_u64_at(bytes: &[u8], pos: usize) -> (result: Option<(u64, usize)>)
    requires
        pos <= bytes@.len(),
    ensures
        match decoded_u64(bytes@.skip(pos as int)) {
            Some((x, taken)) => result is Some && result->Some_0.0 == x && result->Some_0.1 == pos
                + taken && pos + taken <= bytes@.len(),
            None => result is None,
        },
{
    reveal(decoded_u64);
    read_groups(bytes, pos, 0)
}

/// Reads the 32-bit integer that starts at `pos`. Returns it with the
/// position behind it, or `None` where the bytes end too early or the
/// number does not fit 32 bits.
pub fn read_u32_at(bytes: &[u8], pos: usize) -> (result: Option<(u32, usize)>)
    requires
        pos <= bytes@.len(),
    ensures
        match decoded_u32(bytes@.skip(pos as int)) {
            Some((x, taken)) => result is Some && result->Some_0.0 == x && result->Some_0.1 == pos
                + taken && pos + taken <= bytes@.len(),
            None => result is None,
        },
{
    reveal(decoded_u32);
    match read_groups(bytes, pos, 0) {
        None => None,
        Some((x, end)) => {
            if x <= u32::MAX as u64 {
                Some((x as u32, end))
            } else {
                None
            }
        },
    }
}

/// Every 64-bit integer is read back as it was written.
pub proof fn lemma_u64_roundtrip(x: u64, rest: Seq<u8>)
    ensures
        decoded_u64(encoded_u64(x) + rest) == Some((x, encoded_u64(x).len())),
{
    reveal(encoded_u64);
    reveal(decoded_u64);
    lemma_remains_all(x);
    lemma_vle_roundtrip(x, 0, rest);
}

/// Every 32-bit integer is read back as it was written.
pub proof fn lemma_u32_roundtrip(x: u32, rest: Seq<u8>)
    ensures
        decoded_u32(encoded_u32(x) + rest) == Some((x, encoded_u32(x).len())),
{
    reveal(encoded_u32);
    reveal(decoded_u32);
    lemma_remains_all(x as u64);
    lemma_vle_roundtrip(x as u64, 0, rest);
}

/// An encoded integer takes between one and nine bytes.
pub proof fn lemma_encoded_len(x: u64)
    ensures
        1 <= encoded_u64(x).len() <= VLE_LEN,
{
    reveal(encoded_u64);
    lemma_vle_len(x, 0);
}

} // verus!
