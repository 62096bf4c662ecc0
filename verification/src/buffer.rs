//! The byte buffers of the `bytes` crate, as the codec sees them: what a
//! buffer holds is a sequence of bytes, and each operation is described by
//! what it does to that sequence.

use crate::wire::{be16, be32, be64, be_i64, i64_at, u16_at, u32_at, u64_at};
use bytes::{Buf, BufMut, Bytes, BytesMut};
use vstd::prelude::*;
use vstd::utf8::{encode_utf8, valid_utf8};

verus! {

#[verifier::external_type_specification]
#[verifier::external_body]
pub struct ExBytes(bytes::Bytes);

#[verifier::external_type_specification]
#[verifier::external_body]
pub struct ExBytesMut(bytes::BytesMut);

/// The bytes that a `Bytes` holds, from its read position to its end.
pub uninterp spec fn contents(b: Bytes) -> Seq<u8>;

/// The bytes written so far to a `BytesMut`.
pub uninterp spec fn written(b: BytesMut) -> Seq<u8>;

/// `Bytes::clone`: a second handle on the same bytes.
pub assume_specification[ <Bytes as Clone>::clone ](b: &Bytes) -> (r: Bytes)
    ensures
        contents(r) == contents(*b),
;

/// `BytesMut::with_capacity`: a buffer that holds no bytes yet; the capacity
/// is only a hint for the allocation.
#[verifier::external_body]
pub(crate) fn buf_with_capacity(capacity: usize) -> (buf: BytesMut)
    ensures
        written(buf) == Seq::<u8>::empty(),
{
    BytesMut::with_capacity(capacity)
}

/// `BufMut::put_u8` on a `BytesMut`: appends the byte, growing the buffer
/// where needed.
#[verifier::external_body]
pub(crate) fn put_u8(buf: &mut BytesMut, v: u8)
    ensures
        written(*final(buf)) == written(*old(buf)).push(v),
{
    buf.put_u8(v)
}

/// `BufMut::put_u16` on a `BytesMut`: appends the two bytes of `v` in
/// big-endian order.
#[verifier::external_body]
pub(crate) fn put_u16(buf: &mut BytesMut, v: u16)
    ensures
        written(*final(buf)) == written(*old(buf)) + be16(v),
{
    buf.put_u16(v)
}

/// `BufMut::put_u32` on a `BytesMut`: appends the four bytes of `v` in
/// big-endian order.
#[verifier::external_body]
pub(crate) fn put_u32(buf: &mut BytesMut, v: u32)
    ensures
        written(*final(buf)) == written(*old(buf)) + be32(v),
{
    buf.put_u32(v)
}

/// `BufMut::put_u64` on a `BytesMut`: appends the eight bytes of `v` in
/// big-endian order.
#[verifier::external_body]
pub(crate) fn put_u64(buf: &mut BytesMut, v: u64)
    ensures
        written(*final(buf)) == written(*old(buf)) + be64(v),
{
    buf.put_u64(v)
}

/// `BufMut::put_i64` on a `BytesMut`: appends the eight bytes of `v`, in
/// two's complement and big-endian order.
#[verifier::external_body]
pub(crate) fn put_i64(buf: &mut BytesMut, v: i64)
    ensures
        written(*final(buf)) == written(*old(buf)) + be_i64(v),
{
    buf.put_i64(v)
}

/// `BufMut::put_slice` on a `BytesMut`: appends the bytes of `src`.
#[verifier::external_body]
pub(crate) fn put_slice(buf: &mut BytesMut, src: &[u8])
    ensures
        written(*final(buf)) == written(*old(buf)) + src@,
{
    buf.put_slice(src)
}

/// `BytesMut::len`: the number of bytes written.
#[verifier::external_body]
pub(crate) fn buf_len(buf: &BytesMut) -> (n: usize)
    ensures
        n == written(*buf).len(),
{
    buf.len()
}

/// `BytesMut::split`: hands out everything written so far and leaves the
/// buffer empty.
#[verifier::external_body]
pub(crate) fn buf_split(buf: &mut BytesMut) -> (head: BytesMut)
    ensures
        written(head) == written(*old(buf)),
        written(*final(buf)) == Seq::<u8>::empty(),
{
    buf.split()
}

/// `BytesMut::freeze`: the same bytes, now immutable.
#[verifier::external_body]
pub(crate) fn freeze(buf: BytesMut) -> (b: Bytes)
    ensures
        contents(b) == written(buf),
{
    buf.freeze()
}

/// `Bytes::from(Vec<u8>)`: a buffer that holds the vector's bytes.
#[verifier::external_body]
pub(crate) fn bytes_from_vec(v: Vec<u8>) -> (b: Bytes)
    ensures
        contents(b) == v@,
{
    Bytes::from(v)
}

/// `Bytes::deref`: the bytes held, as a slice.
#[verifier::external_body]
pub(crate) fn as_slice(b: &Bytes) -> (s: &[u8])
    ensures
        s@ == contents(*b),
{
    b
}

/// `Bytes::len`: the number of bytes held.
#[verifier::external_body]
pub(crate) fn bytes_len(b: &Bytes) -> (n: usize)
    ensures
        n == contents(*b).len(),
{
    b.len()
}

/// `Buf::remaining` on a `Bytes`: the number of bytes not yet read.
#[verifier::external_body]
pub(crate) fn remaining(b: &Bytes) -> (n: usize)
    ensures
        n == contents(*b).len(),
{
    b.remaining()
}

/// `Buf::get_u8` on a `Bytes`: takes the first byte. It panics on an empty
/// buffer, which the precondition leaves out.
#[verifier::external_body]
pub(crate) fn get_u8(b: &mut Bytes) -> (v: u8)
    requires
        contents(*old(b)).len() >= 1,
    ensures
        v == contents(*old(b))[0],
        contents(*final(b)) == contents(*old(b)).skip(1),
{
    b.get_u8()
}

/// `Buf::get_u16` on a `Bytes`: takes two bytes as a big-endian number. It
/// panics on fewer than two bytes, which the precondition leaves out.
#[verifier::external_body]
pub(crate) fn get_u16(b: &mut Bytes) -> (v: u16)
    requires
        contents(*old(b)).len() >= 2,
    ensures
        v == u16_at(contents(*old(b)), 0),
        contents(*final(b)) == contents(*old(b)).skip(2),
{
    b.get_u16()
}

/// `Buf::get_u32` on a `Bytes`: takes four bytes as a big-endian number. It
/// panics on fewer than four bytes, which the precondition leaves out.
#[verifier::external_body]
pub(crate) fn get_u32(b: &mut Bytes) -> (v: u32)
    requires
        contents(*old(b)).len() >= 4,
    ensures
        v == u32_at(contents(*old(b)), 0),
        contents(*final(b)) == contents(*old(b)).skip(4),
{
    b.get_u32()
}

/// `Buf::get_u64` on a `Bytes`: takes eight bytes as a big-endian number. It
/// panics on fewer than eight bytes, which the precondition leaves out.
#[verifier::external_body]
pub(crate) fn get_u64(b: &mut Bytes) -> (v: u64)
    requires
        contents(*old(b)).len() >= 8,
    ensures
        v == u64_at(contents(*old(b)), 0),
        contents(*final(b)) == contents(*old(b)).skip(8),
{
    b.get_u64()
}

/// `Buf::get_i64` on a `Bytes`: takes eight bytes as a big-endian number in
/// two's complement. It panics on fewer than eight bytes, which the
/// precondition leaves out.
#[verifier::external_body]
pub(crate) fn get_i64(b: &mut Bytes) -> (v: i64)
    requires
        contents(*old(b)).len() >= 8,
    ensures
        v == i64_at(contents(*old(b)), 0),
        contents(*final(b)) == contents(*old(b)).skip(8),
{
    b.get_i64()
}

/// `Buf::copy_to_bytes` on a `Bytes`: splits off the first `len` bytes. It
/// panics where fewer are left, which the precondition leaves out.
#[verifier::external_body]
pub(crate) fn copy_to_bytes(b: &mut Bytes, len: usize) -> (head: Bytes)
    requires
        len <= contents(*old(b)).len(),
    ensures
        contents(head) == contents(*old(b)).take(len as int),
        contents(*final(b)) == contents(*old(b)).skip(len as int),
{
    b.copy_to_bytes(len)
}

/// `String::from_utf8`: the text of `v` where `v` is well-formed UTF-8, and
/// a failure exactly where it is not.
#[verifier::external_body]
pub(crate) fn string_from_utf8(v: Vec<u8>) -> (text: Option<String>)
    ensures
        text is Some <==> valid_utf8(v@),
        text matches Some(s) ==> encode_utf8(s@) == v@,
{
    String::from_utf8(v).ok()
}

} // verus!
