//! Little-endian integers on the wire.
//!
//! `le_value` and `le_bytes` are the mathematical model; the byte shuffling
//! itself is done by the `byteorder` crate.

use byteorder::{ByteOrder, LittleEndian};
use vstd::prelude::*;

verus! {

/// The number that `bytes` spell, least significant byte first.
pub open spec fn le_value(bytes: Seq<u8>) -> nat
    decreases bytes.len(),
{
    if bytes.len() == 0 {
        0
    } else {
        bytes[0] as nat + 256 * le_value(bytes.drop_first())
    }
}

/// The `width` low bytes of `value`, least significant byte first.
pub open spec fn le_bytes(value: nat, width: nat) -> Seq<u8>
    decreases width,
{
    if width == 0 {
        Seq::empty()
    } else {
        seq![(value % 256) as u8] + le_bytes(value / 256, (width - 1) as nat)
    }
}

/// How many numbers `width` bytes can spell: 256 to the power `width`.
pub open spec fn span(width: nat) -> nat
    decreases width,
{
    if width == 0 {
        1
    } else {
        256 * span((width - 1) as nat)
    }
}

/// `le_bytes` yields exactly `width` bytes.
pub proof fn lemma_le_bytes_len(value: nat, width: nat)
    ensures
        le_bytes(value, width).len() == width,
    decreases width,
{
    if width > 0 {
        lemma_le_bytes_len(value / 256, (width - 1) as nat);
    }
}

/// The number that a byte string spells is below the span of its length.
pub proof fn lemma_le_value_bound(bytes: Seq<u8>)
    ensures
        le_value(bytes) < span(bytes.len()),
    decreases bytes.len(),
{
    if bytes.len() > 0 {
        lemma_le_value_bound(bytes.drop_first());
    }
}

/// Reading back the bytes of a number that fits gives the number.
pub proof fn lemma_le_value_of_bytes(value: nat, width: nat)
    requires
        value < span(width),
    ensures
        le_value(le_bytes(value, width)) == value,
    decreases width,
{
    if width > 0 {
        let rest = le_bytes(value / 256, (width - 1) as nat);
        let all = le_bytes(value, width);
        assert(all.drop_first() =~= rest);
        assert(value / 256 < span((width - 1) as nat)) by (nonlinear_arith)
            requires
                value < 256 * span((width - 1) as nat),
        ;
        lemma_le_value_of_bytes(value / 256, (width - 1) as nat);
    }
}

/// Writing out the number that a byte string spells gives the byte string.
pub proof fn lemma_le_bytes_of_value(bytes: Seq<u8>)
    ensures
        le_bytes(le_value(bytes), bytes.len()) == bytes,
    decreases bytes.len(),
{
    if bytes.len() > 0 {
        let tail = bytes.drop_first();
        lemma_le_bytes_of_value(tail);
        let v = le_value(bytes);
        let t = le_value(tail);
        assert(v % 256 == bytes[0] as nat && v / 256 == t) by (nonlinear_arith)
            requires
                v == bytes[0] as nat + 256 * t,
                bytes[0] < 256,
        ;
    }
}

/// The spans of the four integer widths.
pub proof fn lemma_spans()
    ensures
        span(1) == 0x100,
        span(2) == 0x1_0000,
        span(4) == 0x1_0000_0000,
        span(8) == 0x1_0000_0000_0000_0000,
{
    reveal_with_fuel(span, 9);
}

/// `byteorder::LittleEndian::read_u16`: the number that the first two bytes of
/// the slice spell, least significant first. The crate panics on a shorter slice.
#[verifier::external_body]
pub(crate) fn u16_from_le(bytes: &[u8]) -> (r: u16)
    requires
        bytes@.len() >= 2,
    ensures
        r as nat == le_value(bytes@.subrange(0, 2)),
{
    LittleEndian::read_u16(bytes)
}

/// `byteorder::LittleEndian::read_u32`: the number that the first four bytes of
/// the slice spell, least significant first. The crate panics on a shorter slice.
#[verifier::external_body]
pub(crate) fn u32_from_le(bytes: &[u8]) -> (r: u32)
    requires
        bytes@.len() >= 4,
    ensures
        r as nat == le_value(bytes@.subrange(0, 4)),
{
    LittleEndian::read_u32(bytes)
}

/// `byteorder::LittleEndian::read_u64`: the number that the first eight bytes of
/// the slice spell, least significant first. The crate panics on a shorter slice.
#[verifier::external_body]
pub(crate) fn u64_from_le(bytes: &[u8]) -> (r: u64)
    requires
        bytes@.len() >= 8,
    ensures
        r as nat == le_value(bytes@.subrange(0, 8)),
{
    LittleEndian::read_u64(bytes)
}

/// `byteorder::LittleEndian::write_u16` into a buffer of two bytes: the two
/// bytes of the number, least significant first.
#[verifier::external_body]
pub(crate) fn u16_to_le(value: u16) -> (r: [u8; 2])
    ensures
        r@ == le_bytes(value as nat, 2),
{
    let mut buf = [0u8; 2];
    LittleEndian::write_u16(&mut buf, value);
    buf
}

/// `byteorder::LittleEndian::write_u32` into a buffer of four bytes: the four
/// bytes of the number, least significant first.
#[verifier::external_body]
pub(crate) fn u32_to_le(value: u32) -> (r: [u8; 4])
    ensures
        r@ == le_bytes(value as nat, 4),
{
    let mut buf = [0u8; 4];
    LittleEndian::write_u32(&mut buf, value);
    buf
}

/// `byteorder::LittleEndian::write_u64` into a buffer of eight bytes: the eight
/// bytes of the number, least significant first.
#[verifier::external_body]
pub(crate) fn u64_to_le(value: u64) -> (r: [u8; 8])
    ensures
        r@ == le_bytes(value as nat, 8),
{
    let mut buf = [0u8; 8];
    LittleEndian::write_u64(&mut buf, value);
    buf
}

} // verus!
