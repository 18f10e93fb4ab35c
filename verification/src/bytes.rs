//! Little-endian integer fields of the on-disk formats.
//!
//! Every multi-byte quantity in the model container and in session snapshots
//! is a little-endian 32-bit or 64-bit field.  The spec-level meaning of such
//! a field is given arithmetically, and the readers and writers are proved
//! against it, so that the codec round-trip lemmas need no bit reasoning.

use vstd::arithmetic::div_mod::lemma_fundamental_div_mod;
use vstd::prelude::*;

verus! {

/// Value of a 4-byte little-endian field.
pub open spec fn le32(s: Seq<u8>) -> int
    recommends
        s.len() == 4,
{
    s[0] + 0x100 * s[1] + 0x1_0000 * s[2] + 0x100_0000 * s[3]
}

/// Value of an 8-byte little-endian field.
pub open spec fn le64(s: Seq<u8>) -> int
    recommends
        s.len() == 8,
{
    le32(s.subrange(0, 4)) + 0x1_0000_0000 * le32(s.subrange(4, 8))
}

/// The 4 little-endian bytes of a 32-bit value.
pub open spec fn u32_le_bytes(x: u32) -> Seq<u8> {
    seq![
        (x % 0x100) as u8,
        ((x / 0x100) % 0x100) as u8,
        ((x / 0x1_0000) % 0x100) as u8,
        ((x / 0x100_0000) % 0x100) as u8,
    ]
}

/// The 8 little-endian bytes of a 64-bit value.
pub open spec fn u64_le_bytes(x: u64) -> Seq<u8> {
    u32_le_bytes((x % 0x1_0000_0000) as u32) + u32_le_bytes((x / 0x1_0000_0000) as u32)
}

/// The signed reading of an unsigned 32-bit pattern (two's complement).
pub open spec fn as_signed32(x: u32) -> int {
    if x < 0x8000_0000 {
        x as int
    } else {
        x - 0x1_0000_0000
    }
}

/// The unsigned 32-bit pattern of a signed value (two's complement).
pub open spec fn as_unsigned32(x: i32) -> int {
    if x >= 0 {
        x as int
    } else {
        x + 0x1_0000_0000
    }
}

/// The unsigned 32-bit pattern of a signed value.
pub fn to_unsigned32(x: i32) -> (r: u32)
    ensures
        r == as_unsigned32(x),
{
    if x >= 0 {
        x as u32
    } else {
        0xffff_ffffu32 - ((-(x + 1)) as u32)
    }
}

/// The two 32-bit conversions invert each other.
pub proof fn lemma_signed32_round_trip(x: i32, p: u32)
    ensures
        as_signed32(as_unsigned32(x) as u32) == x,
        as_unsigned32(as_signed32(p) as i32) == p,
{
}

/// The signed reading of an unsigned 32-bit pattern, as an `i32`.
pub fn to_signed32(x: u32) -> (r: i32)
    ensures
        r as int == as_signed32(x),
{
    if x < 0x8000_0000 {
        x as i32
    } else {
        -((0xffff_ffffu32 - x) as i32) - 1
    }
}

/// A little-endian field holds the value it was written from.
pub proof fn lemma_le32_round_trip(x: u32)
    ensures
        u32_le_bytes(x).len() == 4,
        le32(u32_le_bytes(x)) == x,
{
    lemma_fundamental_div_mod(x as int, 0x100);
    lemma_fundamental_div_mod(x as int / 0x100, 0x100);
    lemma_fundamental_div_mod(x as int / 0x100 / 0x1_00, 0x100);
    assert(x as int / 0x100 / 0x100 == x as int / 0x1_0000) by (nonlinear_arith);
    assert(x as int / 0x1_0000 / 0x100 == x as int / 0x100_0000) by (nonlinear_arith);
    assert(x as int / 0x100_0000 < 0x100) by (nonlinear_arith)
        requires
            x <= u32::MAX,
    ;
}

/// An 8-byte little-endian field holds the value it was written from.
pub proof fn lemma_le64_round_trip(x: u64)
    ensures
        u64_le_bytes(x).len() == 8,
        le64(u64_le_bytes(x)) == x,
{
    let lo = (x % 0x1_0000_0000) as u32;
    let hi = (x / 0x1_0000_0000) as u32;
    lemma_le32_round_trip(lo);
    lemma_le32_round_trip(hi);
    lemma_fundamental_div_mod(x as int, 0x1_0000_0000);
    assert(u64_le_bytes(x).subrange(0, 4) =~= u32_le_bytes(lo));
    assert(u64_le_bytes(x).subrange(4, 8) =~= u32_le_bytes(hi));
}

/// Reads the 4-byte little-endian field at `pos`.
pub fn read_u32(data: &Vec<u8>, pos: usize) -> (r: u32)
    requires
        pos + 4 <= data.len(),
    ensures
        r == le32(data@.subrange(pos as int, pos + 4)),
{
    let b0 = data[pos] as u32;
    let b1 = data[pos + 1] as u32;
    let b2 = data[pos + 2] as u32;
    let b3 = data[pos + 3] as u32;
    b0 + 0x100 * b1 + 0x1_0000 * b2 + 0x100_0000 * b3
}

/// Reads the 8-byte little-endian field at `pos`.
pub fn read_u64(data: &Vec<u8>, pos: usize) -> (r: u64)
    requires
        pos + 8 <= data.len(),
    ensures
        r == le64(data@.subrange(pos as int, pos + 8)),
{
    let lo = read_u32(data, pos) as u64;
    let hi = read_u32(data, pos + 4) as u64;
    proof {
        assert(data@.subrange(pos as int, pos + 8).subrange(0, 4) =~= data@.subrange(
            pos as int,
            pos + 4,
        ));
        assert(data@.subrange(pos as int, pos + 8).subrange(4, 8) =~= data@.subrange(
            pos + 4,
            pos + 8,
        ));
    }
    lo + 0x1_0000_0000 * hi
}

/// Appends the 4 little-endian bytes of `x`.
pub fn write_u32(out: &mut Vec<u8>, x: u32)
    ensures
        final(out)@ == old(out)@ + u32_le_bytes(x),
        le32(u32_le_bytes(x)) == x,
{
    proof {
        lemma_le32_round_trip(x);
    }
    out.push((x % 0x100) as u8);
    out.push(((x / 0x100) % 0x100) as u8);
    out.push(((x / 0x1_0000) % 0x100) as u8);
    out.push(((x / 0x100_0000) % 0x100) as u8);
    proof {
        assert(final(out)@ =~= old(out)@ + u32_le_bytes(x));
    }
}

/// Appends the 8 little-endian bytes of `x`.
pub fn write_u64(out: &mut Vec<u8>, x: u64)
    ensures
        final(out)@ == old(out)@ + u64_le_bytes(x),
        le64(u64_le_bytes(x)) == x,
{
    let lo = (x % 0x1_0000_0000) as u32;
    let hi = (x / 0x1_0000_0000) as u32;
    write_u32(out, lo);
    write_u32(out, hi);
    proof {
        lemma_le32_round_trip(lo);
        lemma_le32_round_trip(hi);
        lemma_fundamental_div_mod(x as int, 0x1_0000_0000);
        assert(final(out)@ =~= old(out)@ + u64_le_bytes(x));
        assert(u64_le_bytes(x).subrange(0, 4) =~= u32_le_bytes(lo));
        assert(u64_le_bytes(x).subrange(4, 8) =~= u32_le_bytes(hi));
    }
}

} // verus!
