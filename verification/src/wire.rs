//! Integers in network byte order, as the `zerocopy` crate lays them out.
use vstd::prelude::*;
use zerocopy::byteorder::network_endian::{I32, U16};

verus! {

/// The two bytes of `x`, most significant first.
pub open spec fn be16(x: u16) -> Seq<u8> {
    seq![(x / 256) as u8, (x % 256) as u8]
}

/// The integer whose bytes, most significant first, are `hi` and `lo`.
pub open spec fn be16_value(hi: u8, lo: u8) -> u16 {
    (hi as int * 256 + lo as int) as u16
}

/// The four bytes of `x`, most significant first.
pub open spec fn be32(x: u32) -> Seq<u8> {
    seq![
        (x / 0x100_0000) as u8,
        ((x / 0x1_0000) % 256) as u8,
        ((x / 256) % 256) as u8,
        (x % 256) as u8,
    ]
}

/// Calls `zerocopy`'s `network_endian::U16::new` and takes the value's two
/// bytes. Claimed: they are the bytes of `n` in big-endian order, which is
/// what the crate documents for network byte order.
#[verifier::external_body]
pub(crate) fn u16_to_network_bytes(n: u16) -> (r: [u8; 2])
    ensures
        r@ == be16(n),
{
    U16::new(n).into()
}

/// Calls `zerocopy`'s `network_endian::U16::get` on the value made of two
/// bytes. Claimed: the result is the integer those bytes spell in big-endian
/// order.
#[verifier::external_body]
pub(crate) fn u16_from_network_bytes(bytes: [u8; 2]) -> (r: u16)
    ensures
        r == be16_value(bytes[0], bytes[1]),
{
    U16::from_bytes(bytes).get()
}

/// Calls `zerocopy`'s `network_endian::I32::new` and takes the value's four
/// bytes. Claimed: they are the two's-complement bytes of `n` in big-endian
/// order.
#[verifier::external_body]
pub(crate) fn i32_to_network_bytes(n: i32) -> (r: [u8; 4])
    ensures
        r@ == be32(n as u32),
{
    I32::new(n).into()
}

/// Reading back the two bytes of an integer gives the integer.
pub proof fn be16_roundtrip(x: u16)
    ensures
        be16_value(be16(x)[0], be16(x)[1]) == x,
{
}

/// Writing the integer that two bytes spell gives those bytes.
pub proof fn be16_value_roundtrip(hi: u8, lo: u8)
    ensures
        be16(be16_value(hi, lo)) == seq![hi, lo],
{
    assert(be16(be16_value(hi, lo)) =~= seq![hi, lo]);
}

} // verus!
