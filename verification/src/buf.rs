//! Byte buffers of the `bytes` crate as the codecs and the parser use them.
//!
//! Nothing in this module is proved: each function states what the `bytes`
//! crate does, and the rest of the library is verified against these
//! statements.

use bytes::{Buf, BufMut, Bytes, BytesMut};
use vstd::prelude::*;

verus! {

/// The two bytes of `n`, most significant first.
pub open spec fn u16_be(n: u16) -> Seq<u8> {
    seq![(n / 0x100) as u8, (n % 0x100) as u8]
}

/// The four bytes of `n`, most significant first.
pub open spec fn u32_be(n: u32) -> Seq<u8> {
    seq![
        (n / 0x100_0000) as u8,
        (n / 0x1_0000 % 0x100) as u8,
        (n / 0x100 % 0x100) as u8,
        (n % 0x100) as u8,
    ]
}

/// The eight bytes of `n`, most significant first.
pub open spec fn u64_be(n: u64) -> Seq<u8> {
    seq![
        (n / 0x100_0000_0000_0000) as u8,
        (n / 0x1_0000_0000_0000 % 0x100) as u8,
        (n / 0x100_0000_0000 % 0x100) as u8,
        (n / 0x1_0000_0000 % 0x100) as u8,
        (n / 0x100_0000 % 0x100) as u8,
        (n / 0x1_0000 % 0x100) as u8,
        (n / 0x100 % 0x100) as u8,
        (n % 0x100) as u8,
    ]
}

/// `bytes::BufMut::remaining_mut` on a `Vec<u8>`: the number of bytes that
/// may still be appended, which is `isize::MAX` less the current length (a
/// vector never holds more than `isize::MAX` bytes).
#[verifier::external_body]
pub(crate) fn remaining_mut(w: &Vec<u8>) -> (n: usize)
    ensures
        n as int == isize::MAX as int - w@.len(),
{
    w.remaining_mut()
}

/// `bytes::BufMut::put_u8` on a `Vec<u8>`: appends the byte. For a vector
/// the crate appends without asking whether there is room, so that this and
/// the functions below panic only where the vector cannot grow.
#[verifier::external_body]
pub(crate) fn put_u8(w: &mut Vec<u8>, n: u8)
    requires
        old(w)@.len() + 1 <= isize::MAX,
    ensures
        final(w)@ == old(w)@.push(n),
{
    w.put_u8(n)
}

/// `bytes::BufMut::put_u16` on a `Vec<u8>`: appends `n` in big-endian order.
#[verifier::external_body]
pub(crate) fn put_u16(w: &mut Vec<u8>, n: u16)
    requires
        old(w)@.len() + 2 <= isize::MAX,
    ensures
        final(w)@ == old(w)@ + u16_be(n),
{
    w.put_u16(n)
}

/// `bytes::BufMut::put_u32` on a `Vec<u8>`: appends `n` in big-endian order.
#[verifier::external_body]
pub(crate) fn put_u32(w: &mut Vec<u8>, n: u32)
    requires
        old(w)@.len() + 4 <= isize::MAX,
    ensures
        final(w)@ == old(w)@ + u32_be(n),
{
    w.put_u32(n)
}

/// `bytes::BufMut::put_u64` on a `Vec<u8>`: appends `n` in big-endian order.
#[verifier::external_body]
pub(crate) fn put_u64(w: &mut Vec<u8>, n: u64)
    requires
        old(w)@.len() + 8 <= isize::MAX,
    ensures
        final(w)@ == old(w)@ + u64_be(n),
{
    w.put_u64(n)
}

/// `bytes::BufMut::put_slice` on a `Vec<u8>`: appends the bytes of `src`.
#[verifier::external_body]
pub(crate) fn put_slice(w: &mut Vec<u8>, src: &[u8])
    requires
        old(w)@.len() + src@.len() <= isize::MAX,
    ensures
        final(w)@ == old(w)@ + src@,
{
    w.put_slice(src)
}

/// `bytes::Bytes`: a shared, immutable run of bytes.
#[verifier::external_type_specification]
#[verifier::external_body]
pub struct ExBytes(Bytes);

/// `bytes::BytesMut`: a growable run of bytes that is read from its front.
#[verifier::external_type_specification]
#[verifier::external_body]
pub struct ExBytesMut(BytesMut);

/// The bytes that a `Bytes` holds.
pub uninterp spec fn payload_of(b: Bytes) -> Seq<u8>;

/// The bytes that a `BytesMut` holds, the next one to be read first.
pub uninterp spec fn buffered_in(b: BytesMut) -> Seq<u8>;

/// `bytes::Bytes::copy_from_slice`: a `Bytes` that holds a copy of `data`.
#[verifier::external_body]
pub(crate) fn bytes_copy(data: &[u8]) -> (out: Bytes)
    ensures
        payload_of(out) == data@,
{
    Bytes::copy_from_slice(data)
}

/// `bytes::BytesMut::new`: a buffer that holds nothing.
#[verifier::external_body]
pub(crate) fn buffer_new() -> (b: BytesMut)
    ensures
        buffered_in(b) == Seq::<u8>::empty(),
{
    BytesMut::new()
}

/// `bytes::Buf::remaining` on a `BytesMut`: the number of bytes it holds.
#[verifier::external_body]
pub(crate) fn buffer_remaining(b: &BytesMut) -> (n: usize)
    ensures
        n == buffered_in(*b).len(),
{
    b.remaining()
}

/// `AsRef<[u8]>` on a `BytesMut`: the bytes it holds, as a slice.
#[verifier::external_body]
pub(crate) fn buffer_as_ref(b: &BytesMut) -> (s: &[u8])
    ensures
        s@ == buffered_in(*b),
{
    b.as_ref()
}

/// `bytes::BufMut::put_slice` on a `BytesMut`: appends the bytes of `src`
/// behind those it holds, growing the buffer as needed. The crate panics
/// where the grown buffer would overflow, which the bound on the lengths
/// keeps out of the way.
#[verifier::external_body]
pub(crate) fn buffer_put(b: &mut BytesMut, src: &[u8])
    requires
        buffered_in(*old(b)).len() + src@.len() <= isize::MAX,
    ensures
        buffered_in(*final(b)) == buffered_in(*old(b)) + src@,
{
    b.put_slice(src)
}

/// `bytes::Buf::advance` on a `BytesMut`: drops the first `cnt` bytes.
#[verifier::external_body]
pub(crate) fn buffer_advance(b: &mut BytesMut, cnt: usize)
    requires
        cnt <= buffered_in(*old(b)).len(),
    ensures
        buffered_in(*final(b)) == buffered_in(*old(b)).skip(cnt as int),
{
    b.advance(cnt)
}

/// `bytes::Buf::copy_to_bytes` on a `BytesMut`: takes the first `len` bytes
/// off the buffer and hands them out.
#[verifier::external_body]
pub(crate) fn buffer_copy_to_bytes(b: &mut BytesMut, len: usize) -> (out: Bytes)
    requires
        len <= buffered_in(*old(b)).len(),
    ensures
        payload_of(out) == buffered_in(*old(b)).take(len as int),
        buffered_in(*final(b)) == buffered_in(*old(b)).skip(len as int),
{
    b.copy_to_bytes(len)
}

} // verus!
