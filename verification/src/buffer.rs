//! The byte buffers of the `bytes` crate, as far as the codecs use them.
//!
//! Nothing in this file is proved: each function states what the `bytes`
//! crate does, and the codecs are verified against these statements. As with
//! `Vec`, running out of memory or address space is outside the contracts.

use bytes::{BufMut, Bytes, BytesMut};
use crate::endian::le_bytes;
use vstd::prelude::*;

verus! {

/// `bytes::Bytes`: an immutable, reference-counted run of bytes.
#[verifier::external_type_specification]
#[verifier::external_body]
pub struct ExBytes(bytes::Bytes);

/// `bytes::BytesMut`: a growable byte buffer that is written at its end.
#[verifier::external_type_specification]
#[verifier::external_body]
pub struct ExBytesMut(bytes::BytesMut);

/// The bytes that a `Bytes` holds, first to last.
pub uninterp spec fn bytes_view(b: Bytes) -> Seq<u8>;

/// The bytes written to a `BytesMut` so far, first to last.
pub uninterp spec fn bytes_mut_view(b: BytesMut) -> Seq<u8>;

/// `Bytes::new`: the empty buffer.
#[verifier::external_body]
pub(crate) fn bytes_empty() -> (b: Bytes)
    ensures
        bytes_view(b) == Seq::<u8>::empty(),
{
    Bytes::new()
}

/// `Bytes::from(Vec<u8>)`: a buffer that holds the vector's bytes.
#[verifier::external_body]
pub(crate) fn bytes_from_vec(v: Vec<u8>) -> (b: Bytes)
    ensures
        bytes_view(b) == v@,
{
    Bytes::from(v)
}

/// `Deref for Bytes`: the held bytes as a slice.
#[verifier::external_body]
pub(crate) fn bytes_as_slice(b: &Bytes) -> (s: &[u8])
    ensures
        s@ == bytes_view(*b),
{
    &**b
}

/// `Bytes::slice` on the range `begin..end`: a buffer that holds those bytes
/// of `b`. The crate panics on a range that is reversed or runs past the end.
#[verifier::external_body]
pub(crate) fn bytes_slice(b: &Bytes, begin: usize, end: usize) -> (r: Bytes)
    requires
        begin <= end <= bytes_view(*b).len(),
    ensures
        bytes_view(r) == bytes_view(*b).subrange(begin as int, end as int),
{
    b.slice(begin..end)
}

/// `BytesMut::with_capacity`: an empty buffer; the capacity is only a hint.
/// The crate panics on a capacity above `isize::MAX`.
#[verifier::external_body]
pub(crate) fn bytes_mut_with_capacity(capacity: usize) -> (b: BytesMut)
    requires
        capacity <= isize::MAX,
    ensures
        bytes_mut_view(b) == Seq::<u8>::empty(),
{
    BytesMut::with_capacity(capacity)
}

/// `BufMut::put_u8` on a `BytesMut`: appends one byte.
#[verifier::external_body]
pub(crate) fn put_u8(b: &mut BytesMut, n: u8)
    ensures
        bytes_mut_view(*final(b)) == bytes_mut_view(*old(b)).push(n),
{
    b.put_u8(n)
}

/// `BufMut::put_slice` on a `BytesMut`: appends the bytes of `src`.
#[verifier::external_body]
pub(crate) fn put_slice(b: &mut BytesMut, src: &[u8])
    ensures
        bytes_mut_view(*final(b)) == bytes_mut_view(*old(b)) + src@,
{
    b.put_slice(src)
}

/// `BufMut::put_u32_le` on a `BytesMut`: appends the four bytes of `n`, least
/// significant first.
#[verifier::external_body]
pub(crate) fn put_u32_le(b: &mut BytesMut, n: u32)
    ensures
        bytes_mut_view(*final(b)) == bytes_mut_view(*old(b)) + le_bytes(n as nat, 4),
{
    b.put_u32_le(n)
}

/// `BufMut::put_u128_le` on a `BytesMut`: appends the sixteen bytes of `n`,
/// least significant first.
#[verifier::external_body]
pub(crate) fn put_u128_le(b: &mut BytesMut, n: u128)
    ensures
        bytes_mut_view(*final(b)) == bytes_mut_view(*old(b)) + le_bytes(n as nat, 16),
{
    b.put_u128_le(n)
}

/// `BytesMut::freeze`: the written bytes as an immutable buffer.
#[verifier::external_body]
pub(crate) fn freeze(b: BytesMut) -> (r: Bytes)
    ensures
        bytes_view(r) == bytes_mut_view(b),
{
    b.freeze()
}

} // verus!
