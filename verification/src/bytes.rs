//! Byte-level helpers: comparison and big-endian encodings.

use byteorder::{BigEndian, WriteBytesExt};
use vstd::prelude::*;

verus! {

/// A sequence of `n` zero bytes.
pub open spec fn zeros(n: nat) -> Seq<u8> {
    Seq::new(n, |i: int| 0u8)
}

/// The big-endian encoding of a 16-bit integer.
pub open spec fn be_bytes_u16(n: u16) -> Seq<u8> {
    seq![(n / 0x100) as u8, (n % 0x100) as u8]
}

/// The big-endian encoding of a 32-bit integer.
pub open spec fn be_bytes_u32(n: u32) -> Seq<u8> {
    seq![
        (n / 0x100_0000) as u8,
        ((n / 0x1_0000) % 0x100) as u8,
        ((n / 0x100) % 0x100) as u8,
        (n % 0x100) as u8,
    ]
}

/// The big-endian encoding of a 64-bit integer.
pub open spec fn be_bytes_u64(n: u64) -> Seq<u8> {
    seq![
        (n / 0x100_0000_0000_0000) as u8,
        ((n / 0x1_0000_0000_0000) % 0x100) as u8,
        ((n / 0x100_0000_0000) % 0x100) as u8,
        ((n / 0x1_0000_0000) % 0x100) as u8,
        ((n / 0x100_0000) % 0x100) as u8,
        ((n / 0x1_0000) % 0x100) as u8,
        ((n / 0x100) % 0x100) as u8,
        (n % 0x100) as u8,
    ]
}

/// Tells whether two byte slices hold the same bytes.
pub fn slices_equal(a: &[u8], b: &[u8]) -> (r: bool)
    ensures
        r == (a@ == b@),
{
    if a.len() != b.len() {
        return false;
    }
    let n: usize = a.len();
    let mut i: usize = 0;
    while i < n
        invariant
            n == a@.len(),
            n == b@.len(),
            i <= n,
            forall|j: int| 0 <= j < i ==> a@[j] == b@[j],
        decreases n - i,
    {
        if a[i] != b[i] {
            return false;
        }
        i += 1;
    }
    assert(a@ =~= b@);
    true
}

/// Appends one byte to `buf`.
///
/// Calls `byteorder::WriteBytesExt::write_u8` on the vector, which writes
/// the single byte with `write_all`; writing to a vector appends and never
/// fails.
#[verifier::external_body]
pub(crate) fn write_u8(buf: &mut Vec<u8>, n: u8)
    ensures
        final(buf)@ == old(buf)@.push(n),
{
    buf.write_u8(n).unwrap();
}

/// Appends the two bytes of `n`, most significant first, to `buf`.
///
/// Calls `byteorder::WriteBytesExt::write_u16` with `BigEndian`, which
/// encodes `n` into two bytes in big-endian order and writes them with
/// `write_all`; writing to a vector appends and never fails.
#[verifier::external_body]
pub(crate) fn write_u16_be(buf: &mut Vec<u8>, n: u16)
    ensures
        final(buf)@ == old(buf)@ + be_bytes_u16(n),
{
    buf.write_u16::<BigEndian>(n).unwrap();
}

/// Appends the four bytes of `n`, most significant first, to `buf`.
///
/// Calls `byteorder::WriteBytesExt::write_u32` with `BigEndian`, which
/// encodes `n` into four bytes in big-endian order and writes them with
/// `write_all`; writing to a vector appends and never fails.
#[verifier::external_body]
pub(crate) fn write_u32_be(buf: &mut Vec<u8>, n: u32)
    ensures
        final(buf)@ == old(buf)@ + be_bytes_u32(n),
{
    buf.write_u32::<BigEndian>(n).unwrap();
}

/// Appends the eight bytes of `n`, most significant first, to `buf`.
///
/// Calls `byteorder::WriteBytesExt::write_u64` with `BigEndian`, which
/// encodes `n` into eight bytes in big-endian order and writes them with
/// `write_all`; writing to a vector appends and never fails.
#[verifier::external_body]
pub(crate) fn write_u64_be(buf: &mut Vec<u8>, n: u64)
    ensures
        final(buf)@ == old(buf)@ + be_bytes_u64(n),
{
    buf.write_u64::<BigEndian>(n).unwrap();
}

} // verus!
