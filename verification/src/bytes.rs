//! Numbers as bytes in network order.

use vstd::prelude::*;

verus! {

/// A flag as a number.
pub open spec fn bit(flag: bool) -> int {
    if flag {
        1
    } else {
        0
    }
}

/// The big-endian bytes of a 16-bit number.
pub open spec fn be16(x: u16) -> Seq<u8> {
    seq![(x / 256) as u8, (x % 256) as u8]
}

/// The big-endian bytes of a 32-bit number.
pub open spec fn be32(x: u32) -> Seq<u8> {
    seq![
        (x / 0x100_0000) as u8,
        (x / 0x1_0000 % 256) as u8,
        (x / 0x100 % 256) as u8,
        (x % 256) as u8,
    ]
}

/// The 16-bit number with the big-endian bytes `hi`, `lo`.
pub open spec fn from_be16(hi: u8, lo: u8) -> u16 {
    (hi as int * 256 + lo as int) as u16
}

/// The 32-bit number with the big-endian bytes `b0` to `b3`.
pub open spec fn from_be32(b0: u8, b1: u8, b2: u8, b3: u8) -> u32 {
    (b0 as int * 0x100_0000 + b1 as int * 0x1_0000 + b2 as int * 0x100 + b3 as int) as u32
}

pub fn u16_to_be(x: u16) -> (bytes: [u8; 2])
    ensures
        bytes@ == be16(x),
{
    assert((x >> 8) as u8 == x / 256 && (x & 0xff) as u8 == x % 256) by (bit_vector);
    let bytes: [u8; 2] = [(x >> 8) as u8, (x & 0xff) as u8];
    assert(bytes@ =~= be16(x));
    bytes
}

pub fn u32_to_be(x: u32) -> (bytes: [u8; 4])
    ensures
        bytes@ == be32(x),
{
    assert((x >> 24) as u8 == x / 0x100_0000 && ((x >> 16) & 0xff) as u8 == x / 0x1_0000 % 256 && ((x
        >> 8) & 0xff) as u8 == x / 0x100 % 256 && (x & 0xff) as u8 == x % 256) by (bit_vector);
    let bytes: [u8; 4] = [
        (x >> 24) as u8,
        ((x >> 16) & 0xff) as u8,
        ((x >> 8) & 0xff) as u8,
        (x & 0xff) as u8,
    ];
    assert(bytes@ =~= be32(x));
    bytes
}

pub fn u16_from_be(hi: u8, lo: u8) -> (x: u16)
    ensures
        x == from_be16(hi, lo),
{
    assert(((hi as u16) << 8) | (lo as u16) == hi as u16 * 256 + lo as u16) by (bit_vector);
    ((hi as u16) << 8) | (lo as u16)
}

pub fn u32_from_be(b0: u8, b1: u8, b2: u8, b3: u8) -> (x: u32)
    ensures
        x == from_be32(b0, b1, b2, b3),
{
    assert(((b0 as u32) << 24) | ((b1 as u32) << 16) | ((b2 as u32) << 8) | (b3 as u32) == b0 as u32
        * 0x100_0000 + b1 as u32 * 0x1_0000 + b2 as u32 * 0x100 + b3 as u32) by (bit_vector);
    ((b0 as u32) << 24) | ((b1 as u32) << 16) | ((b2 as u32) << 8) | (b3 as u32)
}

/// Reading the big-endian bytes of a number gives the number back.
pub proof fn lemma_be_round_trip(x: u16, y: u32)
    ensures
        from_be16(be16(x)[0], be16(x)[1]) == x,
        from_be32(be32(y)[0], be32(y)[1], be32(y)[2], be32(y)[3]) == y,
{
}

/// Writing the number read from two bytes gives the bytes back.
pub proof fn lemma_be16_of_bytes(hi: u8, lo: u8)
    ensures
        be16(from_be16(hi, lo)) == seq![hi, lo],
{
    assert(be16(from_be16(hi, lo)) =~= seq![hi, lo]);
}

/// Writing the number read from four bytes gives the bytes back.
pub proof fn lemma_be32_of_bytes(b0: u8, b1: u8, b2: u8, b3: u8)
    ensures
        be32(from_be32(b0, b1, b2, b3)) == seq![b0, b1, b2, b3],
{
    let x = from_be32(b0, b1, b2, b3);
    assert(x == b0 * 0x100_0000 + b1 * 0x1_0000 + b2 * 0x100 + b3);
    assert(x / 0x100_0000 == b0);
    assert(x / 0x1_0000 == b0 * 0x100 + b1);
    assert(x / 0x100 == b0 * 0x1_0000 + b1 * 0x100 + b2);
    assert(be32(x) =~= seq![b0, b1, b2, b3]);
}

} // verus!
