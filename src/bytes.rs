use vstd::prelude::*;
use byteorder::{BigEndian, ByteOrder};

verus! {

/// The unsigned big-endian integer held by `s`.
pub open spec fn be_uint(s: Seq<u8>) -> int
    decreases s.len(),
{
    if s.len() == 0 {
        0
    } else {
        be_uint(s.drop_last()) * 256 + s.last() as int
    }
}

/// The big-endian integer of `n` bytes of `d` from position `p`.
pub open spec fn be_at(d: Seq<u8>, p: int, n: int) -> int {
    be_uint(d.subrange(p, p + n))
}

/// Relies on byteorder's `BigEndian::read_u16`: the first two bytes, big-endian.
#[verifier::external_body]
pub(crate) fn read_be_u16(data: &[u8], pos: usize) -> (r: u16)
    requires
        pos + 2 <= data@.len(),
    ensures
        r as int == be_at(data@, pos as int, 2),
{
    BigEndian::read_u16(&data[pos..])
}

/// Relies on byteorder's `BigEndian::read_u32`: the first four bytes, big-endian.
#[verifier::external_body]
pub(crate) fn read_be_u32(data: &[u8], pos: usize) -> (r: u32)
    requires
        pos + 4 <= data@.len(),
    ensures
        r as int == be_at(data@, pos as int, 4),
{
    BigEndian::read_u32(&data[pos..])
}

/// Relies on byteorder's `BigEndian::read_u64`: the first eight bytes, big-endian.
#[verifier::external_body]
pub(crate) fn read_be_u64(data: &[u8], pos: usize) -> (r: u64)
    requires
        pos + 8 <= data@.len(),
    ensures
        r as int == be_at(data@, pos as int, 8),
{
    BigEndian::read_u64(&data[pos..])
}

/// Relies on byteorder's `BigEndian::read_i16`: the first two bytes as a
/// big-endian two's-complement integer.
#[verifier::external_body]
pub(crate) fn read_be_i16(data: &[u8], pos: usize) -> (r: i16)
    requires
        pos + 2 <= data@.len(),
    ensures
        r as int == if be_at(data@, pos as int, 2) >= 0x8000 {
            be_at(data@, pos as int, 2) - 0x10000
        } else {
            be_at(data@, pos as int, 2)
        },
{
    BigEndian::read_i16(&data[pos..])
}

} // verus!
