//! The byte order of the machine, as the packet headers of the stream use it.
use vstd::endian::{endianness, Endian};
use vstd::prelude::*;

verus! {

/// The two bytes of `x`, least significant first.
pub open spec fn le_bytes_u16(x: u16) -> Seq<u8> {
    seq![(x % 256) as u8, (x / 256) as u8]
}

/// The four bytes of `x`, least significant first.
pub open spec fn le_bytes_u32(x: u32) -> Seq<u8> {
    seq![
        (x % 256) as u8,
        ((x / 256) % 256) as u8,
        ((x / 65536) % 256) as u8,
        (x / 16777216) as u8,
    ]
}

/// The value of two bytes, least significant first.
pub open spec fn le_value_u16(b: Seq<u8>) -> u16 {
    (b[0] + 256 * b[1]) as u16
}

/// The value of four bytes, least significant first.
pub open spec fn le_value_u32(b: Seq<u8>) -> u32 {
    (b[0] + 256 * b[1] + 65536 * b[2] + 16777216 * b[3]) as u32
}

/// `u16::to_ne_bytes`: the bytes of `x` in the byte order of the machine.
pub open spec fn ne_bytes_u16(x: u16) -> Seq<u8> {
    match endianness() {
        Endian::Little => le_bytes_u16(x),
        Endian::Big => le_bytes_u16(x).reverse(),
    }
}

/// `u32::to_ne_bytes`: the bytes of `x` in the byte order of the machine.
pub open spec fn ne_bytes_u32(x: u32) -> Seq<u8> {
    match endianness() {
        Endian::Little => le_bytes_u32(x),
        Endian::Big => le_bytes_u32(x).reverse(),
    }
}

/// `u16::from_ne_bytes`: the value of two bytes in the byte order of the machine.
pub open spec fn ne_value_u16(b: Seq<u8>) -> u16 {
    match endianness() {
        Endian::Little => le_value_u16(b),
        Endian::Big => le_value_u16(b.reverse()),
    }
}

/// `u32::from_ne_bytes`: the value of four bytes in the byte order of the machine.
pub open spec fn ne_value_u32(b: Seq<u8>) -> u32 {
    match endianness() {
        Endian::Little => le_value_u32(b),
        Endian::Big => le_value_u32(b.reverse()),
    }
}

/// Reading back the bytes that `u16::to_ne_bytes` wrote gives the value that was written.
pub proof fn lemma_ne_u16_roundtrip(x: u16)
    ensures
        ne_bytes_u16(x).len() == 2,
        ne_value_u16(ne_bytes_u16(x)) == x,
{
    let b = le_bytes_u16(x);
    assert(b.reverse().reverse() =~= b);
}

/// Reading back the bytes that `u32::to_ne_bytes` wrote gives the value that was written.
pub proof fn lemma_ne_u32_roundtrip(x: u32)
    ensures
        ne_bytes_u32(x).len() == 4,
        ne_value_u32(ne_bytes_u32(x)) == x,
{
    let b = le_bytes_u32(x);
    assert(b.reverse().reverse() =~= b);
}

/// `u16::to_ne_bytes`: the machine gives the two bytes of `x` in its own byte order,
/// least significant first on a little-endian machine, most significant first otherwise.
#[verifier::external_body]
pub(crate) fn u16_to_ne_bytes(x: u16) -> (bytes: [u8; 2])
    ensures
        bytes@ == ne_bytes_u16(x),
{
    x.to_ne_bytes()
}

/// `u16::from_ne_bytes`: the value of two bytes read in the machine's own byte order.
#[verifier::external_body]
pub(crate) fn u16_from_ne_bytes(bytes: [u8; 2]) -> (x: u16)
    ensures
        x == ne_value_u16(bytes@),
{
    u16::from_ne_bytes(bytes)
}

/// `u32::to_ne_bytes`: the machine gives the four bytes of `x` in its own byte order,
/// least significant first on a little-endian machine, most significant first otherwise.
#[verifier::external_body]
pub(crate) fn u32_to_ne_bytes(x: u32) -> (bytes: [u8; 4])
    ensures
        bytes@ == ne_bytes_u32(x),
{
    x.to_ne_bytes()
}

/// `u32::from_ne_bytes`: the value of four bytes read in the machine's own byte order.
#[verifier::external_body]
pub(crate) fn u32_from_ne_bytes(bytes: [u8; 4]) -> (x: u32)
    ensures
        x == ne_value_u32(bytes@),
{
    u32::from_ne_bytes(bytes)
}

} // verus!
