//! Little-endian integers in byte strings.

use vstd::prelude::*;

verus! {

/// The 16-bit value stored as `lo` followed by `hi`.
pub open spec fn le_u16(lo: u8, hi: u8) -> u16 {
    (lo as u16) | ((hi as u16) << 8)
}

/// The 32-bit value stored as `b0`, `b1`, `b2`, `b3`, least significant first.
pub open spec fn le_u32(b0: u8, b1: u8, b2: u8, b3: u8) -> u32 {
    (b0 as u32) | ((b1 as u32) << 8) | ((b2 as u32) << 16) | ((b3 as u32) << 24)
}

/// The little-endian `u16` that starts at offset `at` of `s`.
pub open spec fn u16_at(s: Seq<u8>, at: int) -> u16
    recommends
        0 <= at,
        at + 2 <= s.len(),
{
    le_u16(s[at], s[at + 1])
}

/// The little-endian `u32` that starts at offset `at` of `s`.
pub open spec fn u32_at(s: Seq<u8>, at: int) -> u32
    recommends
        0 <= at,
        at + 4 <= s.len(),
{
    le_u32(s[at], s[at + 1], s[at + 2], s[at + 3])
}

/// The little-endian `u64` that starts at offset `at` of `s`.
pub open spec fn u64_at(s: Seq<u8>, at: int) -> u64
    recommends
        0 <= at,
        at + 8 <= s.len(),
{
    (u32_at(s, at) as u64) | ((u32_at(s, at + 4) as u64) << 32)
}

/// The two bytes that store `v`, least significant first.
pub open spec fn u16_bytes(v: u16) -> Seq<u8> {
    seq![(v & 0xff) as u8, (v >> 8) as u8]
}

/// The four bytes that store `v`, least significant first.
pub open spec fn u32_bytes(v: u32) -> Seq<u8> {
    seq![
        (v & 0xff) as u8,
        ((v >> 8) & 0xff) as u8,
        ((v >> 16) & 0xff) as u8,
        (v >> 24) as u8,
    ]
}

/// Reading back what `u16_bytes` wrote gives the value written.
pub proof fn lemma_u16_round_trip(v: u16)
    ensures
        u16_bytes(v).len() == 2,
        u16_at(u16_bytes(v), 0) == v,
{
    let lo: u8 = (v & 0xff) as u8;
    let hi: u8 = (v >> 8) as u8;
    assert(((v & 0xff) as u8 as u16) | (((v >> 8) as u8 as u16) << 8) == v) by (bit_vector);
}

/// Reading back what `u32_bytes` wrote gives the value written.
pub proof fn lemma_u32_round_trip(v: u32)
    ensures
        u32_bytes(v).len() == 4,
        u32_at(u32_bytes(v), 0) == v,
{
    assert(((v & 0xff) as u8 as u32) | ((((v >> 8) & 0xff) as u8 as u32) << 8) | ((((v >> 16)
        & 0xff) as u8 as u32) << 16) | (((v >> 24) as u8 as u32) << 24) == v) by (bit_vector);
}

/// Writing the value read from four bytes gives those four bytes.
pub proof fn lemma_u32_bytes_of_read(b0: u8, b1: u8, b2: u8, b3: u8)
    ensures
        u32_bytes(le_u32(b0, b1, b2, b3)) == seq![b0, b1, b2, b3],
{
    let v: u32 = le_u32(b0, b1, b2, b3);
    assert((v & 0xff) as u8 == b0 && ((v >> 8) & 0xff) as u8 == b1 && ((v >> 16) & 0xff) as u8
        == b2 && (v >> 24) as u8 == b3) by (bit_vector)
        requires
            v == (b0 as u32) | ((b1 as u32) << 8) | ((b2 as u32) << 16) | ((b3 as u32) << 24),
    ;
    assert(u32_bytes(v) =~= seq![b0, b1, b2, b3]);
}

/// Writing the value read from two bytes gives those two bytes.
pub proof fn lemma_u16_bytes_of_read(lo: u8, hi: u8)
    ensures
        u16_bytes(le_u16(lo, hi)) == seq![lo, hi],
{
    let v: u16 = le_u16(lo, hi);
    assert((v & 0xff) as u8 == lo && (v >> 8) as u8 == hi) by (bit_vector)
        requires
            v == (lo as u16) | ((hi as u16) << 8),
    ;
    assert(u16_bytes(v) =~= seq![lo, hi]);
}

/// Reads the little-endian `u16` at offset `at`.
pub fn read_u16(s: &[u8], at: usize) -> (v: u16)
    requires
        at + 2 <= s.len(),
    ensures
        v == u16_at(s@, at as int),
{
    (s[at] as u16) | ((s[at + 1] as u16) << 8)
}

/// Reads the little-endian `u32` at offset `at`.
pub fn read_u32(s: &[u8], at: usize) -> (v: u32)
    requires
        at + 4 <= s.len(),
    ensures
        v == u32_at(s@, at as int),
{
    (s[at] as u32) | ((s[at + 1] as u32) << 8) | ((s[at + 2] as u32) << 16) | ((s[at + 3] as u32)
        << 24)
}

/// Reads the little-endian `u64` at offset `at`.
pub fn read_u64(s: &[u8], at: usize) -> (v: u64)
    requires
        at + 8 <= s.len(),
    ensures
        v == u64_at(s@, at as int),
{
    let lo: u32 = read_u32(s, at);
    let hi: u32 = read_u32(s, at + 4);
    (lo as u64) | ((hi as u64) << 32)
}

/// Appends the two bytes of `v`, least significant first.
pub fn push_u16(buf: &mut Vec<u8>, v: u16)
    ensures
        final(buf)@ == old(buf)@ + u16_bytes(v),
{
    buf.push((v & 0xff) as u8);
    buf.push((v >> 8) as u8);
    assert(buf@ =~= old(buf)@ + u16_bytes(v));
}

/// Appends the four bytes of `v`, least significant first.
pub fn push_u32(buf: &mut Vec<u8>, v: u32)
    ensures
        final(buf)@ == old(buf)@ + u32_bytes(v),
{
    buf.push((v & 0xff) as u8);
    buf.push(((v >> 8) & 0xff) as u8);
    buf.push(((v >> 16) & 0xff) as u8);
    buf.push((v >> 24) as u8);
    assert(buf@ =~= old(buf)@ + u32_bytes(v));
}

} // verus!
