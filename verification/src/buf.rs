//! The byte buffer that frames are written into and read out of: `bytes::BytesMut`.
//!
//! The buffer is an outside type; what it holds is named by [`buf_contents`], and each
//! method that the codec calls has a wrapper below that states how it changes that
//! content.

use bytes::{Buf, BufMut, BytesMut};
use vstd::prelude::*;

verus! {

#[verifier::external_type_specification]
#[verifier::external_body]
pub struct ExBytesMut(BytesMut);

/// The bytes that a `BytesMut` holds, front first.
pub uninterp spec fn buf_contents(b: BytesMut) -> Seq<u8>;

/// The most bytes a `BytesMut` can hold (its allocation is bounded by `isize::MAX`).
pub open spec fn buf_limit() -> int {
    isize::MAX as int
}

/// `BytesMut::new`: an empty buffer.
#[verifier::external_body]
pub(crate) fn buf_new() -> (b: BytesMut)
    ensures
        buf_contents(b) == Seq::<u8>::empty(),
{
    BytesMut::new()
}

/// `BytesMut::len`: the number of bytes held.
#[verifier::external_body]
pub(crate) fn buf_len(b: &BytesMut) -> (n: usize)
    ensures
        n == buf_contents(*b).len(),
{
    b.len()
}

/// `BytesMut::is_empty`: whether no byte is held.
#[verifier::external_body]
pub(crate) fn buf_is_empty(b: &BytesMut) -> (e: bool)
    ensures
        e == (buf_contents(*b).len() == 0),
{
    b.is_empty()
}

/// Indexing through `Deref<Target = [u8]>`: the byte at position `i` (panics past the end).
#[verifier::external_body]
pub(crate) fn buf_byte_at(b: &BytesMut, i: usize) -> (v: u8)
    requires
        i < buf_contents(*b).len(),
    ensures
        v == buf_contents(*b)[i as int],
{
    b[i]
}

/// `Buf::advance`: drops the first `cnt` bytes (panics when fewer are held).
#[verifier::external_body]
pub(crate) fn buf_advance(b: &mut BytesMut, cnt: usize)
    requires
        cnt <= buf_contents(*old(b)).len(),
    ensures
        buf_contents(*final(b)) == buf_contents(*old(b)).skip(cnt as int),
{
    b.advance(cnt)
}

/// `Buf::get_u8`: takes the first byte off the front (panics when empty).
#[verifier::external_body]
pub(crate) fn buf_get_u8(b: &mut BytesMut) -> (v: u8)
    requires
        buf_contents(*old(b)).len() >= 1,
    ensures
        v == buf_contents(*old(b))[0],
        buf_contents(*final(b)) == buf_contents(*old(b)).skip(1),
{
    b.get_u8()
}

/// `Buf::get_u16`: takes two bytes off the front, read big-endian (panics when fewer are held).
#[verifier::external_body]
pub(crate) fn buf_get_u16(b: &mut BytesMut) -> (v: u16)
    requires
        buf_contents(*old(b)).len() >= 2,
    ensures
        v == buf_contents(*old(b))[0] * 256 + buf_contents(*old(b))[1],
        buf_contents(*final(b)) == buf_contents(*old(b)).skip(2),
{
    b.get_u16()
}

/// `Buf::copy_to_slice`: fills `dst` with the first `dst.len()` bytes and drops them
/// from the buffer (panics when fewer are held).
#[verifier::external_body]
pub(crate) fn buf_copy_to_slice(b: &mut BytesMut, dst: &mut Vec<u8>)
    requires
        old(dst).len() <= buf_contents(*old(b)).len(),
    ensures
        final(dst)@ == buf_contents(*old(b)).take(old(dst).len() as int),
        buf_contents(*final(b)) == buf_contents(*old(b)).skip(old(dst).len() as int),
{
    b.copy_to_slice(dst.as_mut_slice())
}

/// `BytesMut::reserve`: makes room for `additional` more bytes; the content is unchanged
/// (panics when the capacity would overflow).
#[verifier::external_body]
pub(crate) fn buf_reserve(b: &mut BytesMut, additional: usize)
    requires
        buf_contents(*old(b)).len() + additional <= buf_limit(),
    ensures
        buf_contents(*final(b)) == buf_contents(*old(b)),
{
    b.reserve(additional)
}

/// `BufMut::put_u8`: appends one byte.
#[verifier::external_body]
pub(crate) fn buf_put_u8(b: &mut BytesMut, v: u8)
    requires
        buf_contents(*old(b)).len() + 1 <= buf_limit(),
    ensures
        buf_contents(*final(b)) == buf_contents(*old(b)).push(v),
{
    b.put_u8(v)
}

/// `BufMut::put_u16`: appends two bytes, big-endian.
#[verifier::external_body]
pub(crate) fn buf_put_u16(b: &mut BytesMut, v: u16)
    requires
        buf_contents(*old(b)).len() + 2 <= buf_limit(),
    ensures
        buf_contents(*final(b)) == buf_contents(*old(b)).push((v / 256) as u8).push((v % 256) as u8),
{
    b.put_u16(v)
}

/// `BytesMut::extend_from_slice`: appends the given bytes.
#[verifier::external_body]
pub(crate) fn buf_extend_from_slice(b: &mut BytesMut, src: &Vec<u8>)
    requires
        buf_contents(*old(b)).len() + src.len() <= buf_limit(),
    ensures
        buf_contents(*final(b)) == buf_contents(*old(b)) + src@,
{
    b.extend_from_slice(src.as_slice())
}

/// `<[u8]>::to_vec` through `Deref`: a copy of the bytes held.
#[verifier::external_body]
pub(crate) fn buf_to_vec(b: &BytesMut) -> (v: Vec<u8>)
    ensures
        v@ == buf_contents(*b),
{
    b.to_vec()
}

} // verus!
