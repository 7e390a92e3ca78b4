//! Little-endian integers inside byte buffers.
use vstd::arithmetic::div_mod::{lemma_div_denominator, lemma_fundamental_div_mod_converse};
use vstd::prelude::*;

verus! {

/// The value of two bytes read as a little-endian unsigned integer.
pub open spec fn le16(s: Seq<u8>) -> int {
    s[0] + 256 * s[1]
}

/// The value of four bytes read as a little-endian unsigned integer.
pub open spec fn le32(s: Seq<u8>) -> int {
    s[0] + 256 * s[1] + 65536 * s[2] + 16777216 * s[3]
}

/// The two little-endian bytes of `x`, for `0 <= x < 2^16`.
pub open spec fn le16_bytes(x: int) -> Seq<u8> {
    seq![(x % 256) as u8, (x / 256 % 256) as u8]
}

/// The four little-endian bytes of `x`, for `0 <= x < 2^32`.
pub open spec fn le32_bytes(x: int) -> Seq<u8> {
    seq![(x % 256) as u8, (x / 256 % 256) as u8, (x / 65536 % 256) as u8, (x / 16777216 % 256) as u8]
}

/// The signed value of a 16-bit two's complement pattern.
pub open spec fn signed16(u: int) -> int {
    if u >= 32768 { u - 65536 } else { u }
}

/// The signed value of a 32-bit two's complement pattern.
pub open spec fn signed32(u: int) -> int {
    if u >= 2147483648 { u - 4294967296 } else { u }
}

/// The 16-bit two's complement pattern of `x`.
pub open spec fn unsigned16(x: int) -> int {
    if x < 0 { x + 65536 } else { x }
}

/// The 32-bit two's complement pattern of `x`.
pub open spec fn unsigned32(x: int) -> int {
    if x < 0 { x + 4294967296 } else { x }
}

pub proof fn lemma_le16_round_trip(x: int)
    requires
        0 <= x < 65536,
    ensures
        le16_bytes(x).len() == 2,
        le16(le16_bytes(x)) == x,
{
}

pub proof fn lemma_le32_round_trip(x: int)
    requires
        0 <= x < 4294967296,
    ensures
        le32_bytes(x).len() == 4,
        le32(le32_bytes(x)) == x,
{
}

pub proof fn lemma_le16_bytes_of(s: Seq<u8>)
    requires
        s.len() == 2,
    ensures
        0 <= le16(s) < 65536,
        le16_bytes(le16(s)) == s,
{
    assert(le16_bytes(le16(s)) =~= s);
}

pub proof fn lemma_le32_bytes_of(s: Seq<u8>)
    requires
        s.len() == 4,
    ensures
        0 <= le32(s) < 4294967296,
        le32_bytes(le32(s)) == s,
{
    let x = le32(s);
    let q1 = s[1] + 256 * s[2] + 65536 * s[3];
    let q2 = s[2] + 256 * s[3];
    lemma_fundamental_div_mod_converse(x, 256, q1, s[0] as int);
    lemma_fundamental_div_mod_converse(q1, 256, q2, s[1] as int);
    lemma_fundamental_div_mod_converse(q2, 256, s[3] as int, s[2] as int);
    lemma_fundamental_div_mod_converse(s[3] as int, 256, 0, s[3] as int);
    lemma_div_denominator(x, 256, 256);
    lemma_div_denominator(x, 65536, 256);
    assert(le32_bytes(le32(s)) =~= s);
}

/// Reads the little-endian `u16` at `at`.
pub fn read_u16_le(b: &[u8], at: usize) -> (r: u16)
    requires
        at + 2 <= b@.len(),
    ensures
        r == le16(b@.subrange(at as int, at + 2)),
{
    b[at] as u16 + (b[at + 1] as u16) * 256
}

/// Reads the little-endian `u32` at `at`.
pub fn read_u32_le(b: &[u8], at: usize) -> (r: u32)
    requires
        at + 4 <= b@.len(),
    ensures
        r == le32(b@.subrange(at as int, at + 4)),
{
    b[at] as u32 + (b[at + 1] as u32) * 256 + (b[at + 2] as u32) * 65536 + (b[at + 3] as u32)
        * 16777216
}

/// Appends the two little-endian bytes of `x`.
pub fn push_u16_le(out: &mut Vec<u8>, x: u16)
    ensures
        final(out)@ == old(out)@ + le16_bytes(x as int),
{
    out.push((x % 256) as u8);
    out.push((x / 256) as u8);
    assert(final(out)@ =~= old(out)@ + le16_bytes(x as int));
}

/// Appends the four little-endian bytes of `x`.
pub fn push_u32_le(out: &mut Vec<u8>, x: u32)
    ensures
        final(out)@ == old(out)@ + le32_bytes(x as int),
{
    out.push((x % 256) as u8);
    out.push((x / 256 % 256) as u8);
    out.push((x / 65536 % 256) as u8);
    out.push((x / 16777216) as u8);
    assert(final(out)@ =~= old(out)@ + le32_bytes(x as int));
}

/// Appends every byte of `b`.
pub fn push_all(out: &mut Vec<u8>, b: &[u8])
    ensures
        final(out)@ == old(out)@ + b@,
{
    let mut i: usize = 0;
    while i < b.len()
        invariant
            i <= b@.len(),
            out@ == old(out)@ + b@.subrange(0, i as int),
        decreases b@.len() - i,
    {
        out.push(b[i]);
        i = i + 1;
        assert(out@ =~= old(out)@ + b@.subrange(0, i as int));
    }
    assert(b@.subrange(0, b@.len() as int) =~= b@);
}

/// The signed value of a 16-bit pattern.
pub fn i16_from_bits(u: u16) -> (r: i16)
    ensures
        r == signed16(u as int),
{
    if u >= 32768 {
        ((u - 32768) as i16) - 32767 - 1
    } else {
        u as i16
    }
}

/// The 16-bit pattern of a signed value.
pub fn i16_to_bits(x: i16) -> (r: u16)
    ensures
        r == unsigned16(x as int),
{
    if x < 0 {
        ((x + 32767 + 1) as u16) + 32768
    } else {
        x as u16
    }
}

/// The signed value of a 32-bit pattern.
pub fn i32_from_bits(u: u32) -> (r: i32)
    ensures
        r == signed32(u as int),
{
    if u >= 2147483648 {
        ((u - 2147483648) as i32) - 2147483647 - 1
    } else {
        u as i32
    }
}

/// The 32-bit pattern of a signed value.
pub fn i32_to_bits(x: i32) -> (r: u32)
    ensures
        r == unsigned32(x as int),
{
    if x < 0 {
        ((x + 2147483647 + 1) as u32) + 2147483648
    } else {
        x as u32
    }
}

} // verus!
