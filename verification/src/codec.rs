//! Byte codec: 64-bit IEEE-754 bit patterns in little-endian 8-byte slots.
//!
//! A value is carried as the `u64` bit pattern of a double. The codec reads
//! and writes such patterns at byte offsets of a flat buffer and classifies
//! them by sign without ever converting them to a machine float.

use vstd::prelude::*;
use vstd::bytes::*;
use vstd::slice::*;

verus! {

/// Width in bytes of one value slot.
pub const SLOT_BYTES: usize = 8;

/// Bit pattern of the quiet NaN that stands for a missing or undefined value.
pub const NAN_BITS: u64 = 0x7FF8_0000_0000_0000;

/// Bit pattern of positive infinity, the largest pattern that compares above zero.
pub const POS_INF_BITS: u64 = 0x7FF0_0000_0000_0000;

/// The bit pattern stored in the slot that starts at byte `off` of `buf`.
pub open spec fn slot_at(buf: Seq<u8>, off: int) -> u64 {
    spec_u64_from_le_bytes(buf.subrange(off, off + 8))
}

/// `buf` with the slot that starts at byte `off` replaced by `bits`.
pub open spec fn with_slot(buf: Seq<u8>, off: int, bits: u64) -> Seq<u8> {
    buf.subrange(0, off) + spec_u64_to_le_bytes(bits) + buf.subrange(off + 8, buf.len() as int)
}

/// Whether the double with this bit pattern is strictly greater than zero:
/// sign bit clear, not zero, and not a NaN. Positive infinity counts.
pub open spec fn spec_is_positive(bits: u64) -> bool {
    0 < bits && bits <= POS_INF_BITS
}

/// Whether the double with this bit pattern is a NaN: exponent all ones and a
/// non-zero mantissa, whatever the sign.
pub open spec fn spec_is_nan(bits: u64) -> bool {
    (bits & 0x7FFF_FFFF_FFFF_FFFF) > POS_INF_BITS
}

/// Two buffers that agree on the eight bytes of a slot hold the same value there.
pub proof fn lemma_slot_at_agrees(a: Seq<u8>, b: Seq<u8>, off: int)
    requires
        0 <= off,
        off + 8 <= a.len(),
        off + 8 <= b.len(),
        forall|k: int| off <= k < off + 8 ==> a[k] == b[k],
    ensures
        slot_at(a, off) == slot_at(b, off),
{
    assert(a.subrange(off, off + 8) =~= b.subrange(off, off + 8));
}

/// Two buffers that hold the same value in a slot agree on its eight bytes.
pub proof fn lemma_slot_bytes_agree(a: Seq<u8>, b: Seq<u8>, off: int)
    requires
        0 <= off,
        off + 8 <= a.len(),
        off + 8 <= b.len(),
        slot_at(a, off) == slot_at(b, off),
    ensures
        forall|k: int| off <= k < off + 8 ==> a[k] == b[k],
{
    lemma_auto_spec_u64_to_from_le_bytes();
    let sa = a.subrange(off, off + 8);
    let sb = b.subrange(off, off + 8);
    assert(spec_u64_to_le_bytes(spec_u64_from_le_bytes(sa)) == sa);
    assert(spec_u64_to_le_bytes(spec_u64_from_le_bytes(sb)) == sb);
    assert forall|k: int| off <= k < off + 8 implies a[k] == b[k] by {
        assert(a[k] == sa[k - off]);
        assert(b[k] == sb[k - off]);
    }
}

/// Writing a slot makes it read back as written, keeps the length, and leaves
/// every byte outside the slot as it was.
pub proof fn lemma_with_slot(buf: Seq<u8>, off: int, bits: u64)
    requires
        0 <= off,
        off + 8 <= buf.len(),
    ensures
        with_slot(buf, off, bits).len() == buf.len(),
        slot_at(with_slot(buf, off, bits), off) == bits,
        forall|k: int|
            0 <= k < buf.len() && !(off <= k < off + 8) ==> with_slot(buf, off, bits)[k] == buf[k],
{
    lemma_auto_spec_u64_to_from_le_bytes();
    let w = with_slot(buf, off, bits);
    assert(w.subrange(off, off + 8) =~= spec_u64_to_le_bytes(bits));
}

/// Reads the bit pattern of the slot at byte offset `off`.
pub fn decode(buf: &[u8], off: usize) -> (bits: u64)
    requires
        off + 8 <= buf@.len(),
    ensures
        bits == slot_at(buf@, off as int),
{
    let len: usize = buf.len();
    assert(off + 8 <= len);
    let s = slice_subrange(buf, off, off + 8);
    u64_from_le_bytes(s)
}

/// Writes `bits` into the slot at byte offset `off`, touching no other byte.
pub fn encode(buf: &mut [u8], off: usize, bits: u64)
    requires
        off + 8 <= old(buf)@.len(),
    ensures
        final(buf)@ == with_slot(old(buf)@, off as int, bits),
        final(buf)@.len() == old(buf)@.len(),
        slot_at(final(buf)@, off as int) == bits,
        forall|k: int|
            0 <= k < old(buf)@.len() && !(off <= k < off + 8) ==> final(buf)@[k] == old(buf)@[k],
{
    let ghost before = buf@;
    let len: usize = buf.len();
    assert(off + 8 <= len);
    let le = u64_to_le_bytes(bits);
    let mut k: usize = 0;
    while k < 8
        invariant
            k <= 8,
            le@.len() == 8,
            before.len() == len,
            off + 8 <= before.len(),
            buf@.len() == before.len(),
            buf@ == before.subrange(0, off as int) + le@.subrange(0, k as int) + before.subrange(
                off + k,
                before.len() as int,
            ),
        decreases 8 - k,
    {
        buf[off + k] = le[k];
        k += 1;
        assert(buf@ =~= before.subrange(0, off as int) + le@.subrange(0, k as int)
            + before.subrange(off + k, before.len() as int));
    }
    proof {
        assert(le@.subrange(0, 8) =~= le@);
        lemma_with_slot(before, off as int, bits);
    }
}

/// Whether the double with this bit pattern is strictly greater than zero.
pub fn is_positive(bits: u64) -> (r: bool)
    ensures
        r == spec_is_positive(bits),
{
    0 < bits && bits <= POS_INF_BITS
}

/// Whether the double with this bit pattern is a NaN.
pub fn is_nan(bits: u64) -> (r: bool)
    ensures
        r == spec_is_nan(bits),
{
    (bits & 0x7FFF_FFFF_FFFF_FFFF) > POS_INF_BITS
}

} // verus!
