//! Octet-level helpers shared by the DHCP and TFTP codecs.
use vstd::prelude::*;

verus! {

/// The two octets of `x`, most significant first.
pub open spec fn be16(x: u16) -> Seq<u8> {
    seq![(x >> 8u16) as u8, (x & 0xffu16) as u8]
}

/// The four octets of `x`, most significant first.
pub open spec fn be32(x: u32) -> Seq<u8> {
    seq![(x >> 24u32) as u8, ((x >> 16u32) & 0xffu32) as u8, ((x >> 8u32) & 0xffu32) as u8, (x & 0xffu32) as u8]
}

/// The value of four octets read most significant first.
pub open spec fn u32_of(b0: u8, b1: u8, b2: u8, b3: u8) -> u32 {
    ((b0 as u32) << 24u32) | ((b1 as u32) << 16u32) | ((b2 as u32) << 8u32) | (b3 as u32)
}

/// `x` with its four octets in reverse order.
pub open spec fn reverse32(x: u32) -> u32 {
    u32_of((x & 0xffu32) as u8, ((x >> 8u32) & 0xffu32) as u8, ((x >> 16u32) & 0xffu32) as u8, (x >> 24u32) as u8)
}

/// `x` with its two octets in reverse order.
pub open spec fn reverse16(x: u16) -> u16 {
    (((x & 0xffu16) << 8u16) | (x >> 8u16)) as u16
}

pub proof fn lemma_be32_of_u32(b0: u8, b1: u8, b2: u8, b3: u8)
    ensures
        be32(u32_of(b0, b1, b2, b3)) == seq![b0, b1, b2, b3],
{
    let x = u32_of(b0, b1, b2, b3);
    assert((x >> 24u32) as u8 == b0 && ((x >> 16u32) & 0xffu32) as u8 == b1
        && ((x >> 8u32) & 0xffu32) as u8 == b2 && (x & 0xffu32) as u8 == b3) by (bit_vector)
        requires x == ((b0 as u32) << 24u32) | ((b1 as u32) << 16u32) | ((b2 as u32) << 8u32) | (b3 as u32);
    assert(be32(x) =~= seq![b0, b1, b2, b3]);
}

pub proof fn lemma_be32_injective(x: u32, y: u32)
    requires
        be32(x) == be32(y),
    ensures
        x == y,
{
    assert(be32(x)[0] == be32(y)[0] && be32(x)[1] == be32(y)[1] && be32(x)[2] == be32(y)[2]
        && be32(x)[3] == be32(y)[3]);
    assert(x == y) by (bit_vector)
        requires
            (x >> 24u32) as u8 == (y >> 24u32) as u8,
            ((x >> 16u32) & 0xffu32) as u8 == ((y >> 16u32) & 0xffu32) as u8,
            ((x >> 8u32) & 0xffu32) as u8 == ((y >> 8u32) & 0xffu32) as u8,
            (x & 0xffu32) as u8 == (y & 0xffu32) as u8;
}

pub proof fn lemma_be16_injective(x: u16, y: u16)
    requires
        be16(x) == be16(y),
    ensures
        x == y,
{
    assert(be16(x)[0] == be16(y)[0] && be16(x)[1] == be16(y)[1]);
    assert(x == y) by (bit_vector)
        requires
            (x >> 8u16) as u8 == (y >> 8u16) as u8,
            (x & 0xffu16) as u8 == (y & 0xffu16) as u8;
}

pub proof fn lemma_reverse32_involutive(x: u32)
    ensures
        reverse32(reverse32(x)) == x,
{
    assert(reverse32(reverse32(x)) == x) by (bit_vector);
}

pub proof fn lemma_reverse16_involutive(x: u16)
    ensures
        reverse16(reverse16(x)) == x,
{
    assert(reverse16(reverse16(x)) == x) by (bit_vector);
}

/// The octets of `x`, most significant first.
pub fn be16_octets(x: u16) -> (r: [u8; 2])
    ensures
        r@ == be16(x),
{
    let r = [(x >> 8u16) as u8, (x & 0xffu16) as u8];
    assert(r@ =~= be16(x));
    r
}

/// The octets of `x`, most significant first.
pub fn be32_octets(x: u32) -> (r: [u8; 4])
    ensures
        r@ == be32(x),
{
    let r = [(x >> 24u32) as u8, ((x >> 16u32) & 0xffu32) as u8, ((x >> 8u32) & 0xffu32) as u8, (x & 0xffu32) as u8];
    assert(r@ =~= be32(x));
    r
}

/// Reads two octets, most significant first.
pub fn read_be16(b0: u8, b1: u8) -> (r: u16)
    ensures
        be16(r) == seq![b0, b1],
{
    let r: u16 = ((b0 as u16) << 8u16) | (b1 as u16);
    assert((r >> 8u16) as u8 == b0 && (r & 0xffu16) as u8 == b1) by (bit_vector)
        requires r == ((b0 as u16) << 8u16) | (b1 as u16);
    assert(be16(r) =~= seq![b0, b1]);
    r
}

/// Reads four octets, most significant first.
pub fn read_be32(b0: u8, b1: u8, b2: u8, b3: u8) -> (r: u32)
    ensures
        r == u32_of(b0, b1, b2, b3),
        be32(r) == seq![b0, b1, b2, b3],
{
    proof { lemma_be32_of_u32(b0, b1, b2, b3); }
    ((b0 as u32) << 24u32) | ((b1 as u32) << 16u32) | ((b2 as u32) << 8u32) | (b3 as u32)
}

/// Reverses the four octets of `x`.
pub fn swap32(x: u32) -> (r: u32)
    ensures
        r == reverse32(x),
{
    read_be32((x & 0xffu32) as u8, ((x >> 8u32) & 0xffu32) as u8, ((x >> 16u32) & 0xffu32) as u8, (x >> 24u32) as u8)
}

/// Reverses the two octets of `x`.
pub fn swap16(x: u16) -> (r: u16)
    ensures
        r == reverse16(x),
{
    ((x & 0xffu16) << 8u16) | (x >> 8u16)
}

/// A vector holding the octets of `b`.
pub fn to_vec(b: &[u8]) -> (r: Vec<u8>)
    ensures
        r@ == b@,
{
    let mut r: Vec<u8> = Vec::new();
    r.extend_from_slice(b);
    r
}

} // verus!
