//! Byte buffers of the `bytes` crate and the big-endian layout of integers.
//!
//! `Bytes` and `BytesMut` are opaque to the verifier. Their contents are
//! named by [`bytes_seq`] and [`bytes_mut_seq`]; every function below that
//! touches a buffer is a thin call into `bytes` whose contract is taken on
//! trust from that crate's source. As in the specifications of `Vec`, a
//! buffer that grows is taken to get the memory it asks for.

use bytes::Buf;
use bytes::BufMut;
use bytes::Bytes;
use bytes::BytesMut;
use vstd::prelude::*;

verus! {

#[verifier::external_type_specification]
#[verifier::external_body]
pub struct ExBytes(Bytes);

#[verifier::external_type_specification]
#[verifier::external_body]
pub struct ExBytesMut(BytesMut);

/// The bytes that a `Bytes` handle gives access to, first to last.
pub uninterp spec fn bytes_seq(b: Bytes) -> Seq<u8>;

/// The bytes that a `BytesMut` currently holds, first to last.
pub uninterp spec fn bytes_mut_seq(b: BytesMut) -> Seq<u8>;

/// Big-endian layout of a 16-bit integer.
pub open spec fn be16(v: u16) -> Seq<u8> {
    seq![(v / 0x100) as u8, (v % 0x100) as u8]
}

/// Big-endian layout of a 32-bit integer.
pub open spec fn be32(v: u32) -> Seq<u8> {
    seq![
        (v / 0x100_0000) as u8,
        (v / 0x1_0000 % 0x100) as u8,
        (v / 0x100 % 0x100) as u8,
        (v % 0x100) as u8,
    ]
}

/// Big-endian layout of a 64-bit integer.
pub open spec fn be64(v: u64) -> Seq<u8> {
    be32((v / 0x1_0000_0000) as u32) + be32((v % 0x1_0000_0000) as u32)
}

/// The 16-bit integer whose big-endian layout is the first two bytes of `s`.
pub open spec fn from_be16(s: Seq<u8>) -> u16
    recommends
        s.len() >= 2,
{
    (s[0] * 0x100 + s[1]) as u16
}

/// The 32-bit integer whose big-endian layout is the first four bytes of `s`.
pub open spec fn from_be32(s: Seq<u8>) -> u32
    recommends
        s.len() >= 4,
{
    (s[0] * 0x100_0000 + s[1] * 0x1_0000 + s[2] * 0x100 + s[3]) as u32
}

/// The 64-bit integer whose big-endian layout is the first eight bytes of `s`.
pub open spec fn from_be64(s: Seq<u8>) -> u64
    recommends
        s.len() >= 8,
{
    (from_be32(s) * 0x1_0000_0000 + from_be32(s.skip(4))) as u64
}

/// Reading back a big-endian layout gives the integer that was laid out.
pub proof fn lemma_be16_roundtrip(v: u16)
    ensures
        be16(v).len() == 2,
        from_be16(be16(v)) == v,
{
}

/// Reading back a big-endian layout gives the integer that was laid out.
pub proof fn lemma_be32_roundtrip(v: u32)
    ensures
        be32(v).len() == 4,
        from_be32(be32(v)) == v,
{
}

/// Reading back a big-endian layout gives the integer that was laid out.
pub proof fn lemma_be64_roundtrip(v: u64)
    ensures
        be64(v).len() == 8,
        from_be64(be64(v)) == v,
{
    let hi = (v / 0x1_0000_0000) as u32;
    let lo = (v % 0x1_0000_0000) as u32;
    lemma_be32_roundtrip(hi);
    lemma_be32_roundtrip(lo);
    assert(be64(v).skip(4) =~= be32(lo));
    assert(from_be32(be64(v)) == from_be32(be32(hi)));
}

/// A big-endian layout is read back from wherever it stands in a sequence.
pub proof fn lemma_be32_within(s: Seq<u8>, at: int, v: u32)
    requires
        0 <= at,
        at + 4 <= s.len(),
        s.subrange(at, at + 4) == be32(v),
    ensures
        from_be32(s.skip(at)) == v,
{
    lemma_be32_roundtrip(v);
    let w = s.subrange(at, at + 4);
    assert(s.skip(at)[0] == w[0]);
    assert(s.skip(at)[1] == w[1]);
    assert(s.skip(at)[2] == w[2]);
    assert(s.skip(at)[3] == w[3]);
}

/// `BytesMut::with_capacity`: a fresh buffer that holds no bytes. The
/// capacity is kept within what one allocation may ask for.
#[verifier::external_body]
pub(crate) fn with_capacity(capacity: usize) -> (buf: BytesMut)
    requires
        capacity <= isize::MAX,
    ensures
        bytes_mut_seq(buf) == Seq::<u8>::empty(),
{
    BytesMut::with_capacity(capacity)
}

/// `BytesMut::new`: a fresh buffer that holds no bytes.
#[verifier::external_body]
pub(crate) fn new_buffer() -> (buf: BytesMut)
    ensures
        bytes_mut_seq(buf) == Seq::<u8>::empty(),
{
    BytesMut::new()
}

/// `BufMut::put_u8` on `BytesMut`: appends the byte.
#[verifier::external_body]
pub(crate) fn put_u8(buf: &mut BytesMut, n: u8)
    ensures
        bytes_mut_seq(*final(buf)) == bytes_mut_seq(*old(buf)).push(n),
{
    buf.put_u8(n)
}

/// `BufMut::put_u16` on `BytesMut`: appends the integer in big-endian order.
#[verifier::external_body]
pub(crate) fn put_u16(buf: &mut BytesMut, n: u16)
    ensures
        bytes_mut_seq(*final(buf)) == bytes_mut_seq(*old(buf)) + be16(n),
{
    buf.put_u16(n)
}

/// `BufMut::put_u32` on `BytesMut`: appends the integer in big-endian order.
#[verifier::external_body]
pub(crate) fn put_u32(buf: &mut BytesMut, n: u32)
    ensures
        bytes_mut_seq(*final(buf)) == bytes_mut_seq(*old(buf)) + be32(n),
{
    buf.put_u32(n)
}

/// `BufMut::put_u64` on `BytesMut`: appends the integer in big-endian order.
#[verifier::external_body]
pub(crate) fn put_u64(buf: &mut BytesMut, n: u64)
    ensures
        bytes_mut_seq(*final(buf)) == bytes_mut_seq(*old(buf)) + be64(n),
{
    buf.put_u64(n)
}

/// `BufMut::put_slice` on `BytesMut`: appends a copy of the slice.
#[verifier::external_body]
pub(crate) fn put_slice(buf: &mut BytesMut, src: &[u8])
    ensures
        bytes_mut_seq(*final(buf)) == bytes_mut_seq(*old(buf)) + src@,
{
    buf.put_slice(src)
}

/// `Buf::get_u8` on `BytesMut`: takes the first byte off the front. The
/// call panics on an empty buffer, which the precondition rules out.
#[verifier::external_body]
pub(crate) fn get_u8(buf: &mut BytesMut) -> (n: u8)
    requires
        bytes_mut_seq(*old(buf)).len() >= 1,
    ensures
        n == bytes_mut_seq(*old(buf))[0],
        bytes_mut_seq(*final(buf)) == bytes_mut_seq(*old(buf)).skip(1),
{
    buf.get_u8()
}

/// `Buf::get_u16` on `BytesMut`: takes a big-endian integer off the front.
/// The call panics on fewer than two bytes, which the precondition rules out.
#[verifier::external_body]
pub(crate) fn get_u16(buf: &mut BytesMut) -> (n: u16)
    requires
        bytes_mut_seq(*old(buf)).len() >= 2,
    ensures
        n == from_be16(bytes_mut_seq(*old(buf))),
        bytes_mut_seq(*final(buf)) == bytes_mut_seq(*old(buf)).skip(2),
{
    buf.get_u16()
}

/// `Buf::get_u32` on `BytesMut`: takes a big-endian integer off the front.
/// The call panics on fewer than four bytes, which the precondition rules out.
#[verifier::external_body]
pub(crate) fn get_u32(buf: &mut BytesMut) -> (n: u32)
    requires
        bytes_mut_seq(*old(buf)).len() >= 4,
    ensures
        n == from_be32(bytes_mut_seq(*old(buf))),
        bytes_mut_seq(*final(buf)) == bytes_mut_seq(*old(buf)).skip(4),
{
    buf.get_u32()
}

/// `Buf::get_u64` on `BytesMut`: takes a big-endian integer off the front.
/// The call panics on fewer than eight bytes, which the precondition rules out.
#[verifier::external_body]
pub(crate) fn get_u64(buf: &mut BytesMut) -> (n: u64)
    requires
        bytes_mut_seq(*old(buf)).len() >= 8,
    ensures
        n == from_be64(bytes_mut_seq(*old(buf))),
        bytes_mut_seq(*final(buf)) == bytes_mut_seq(*old(buf)).skip(8),
{
    buf.get_u64()
}

/// `BytesMut::freeze`: the same bytes behind an immutable handle.
#[verifier::external_body]
pub(crate) fn freeze(buf: BytesMut) -> (b: Bytes)
    ensures
        bytes_seq(b) == bytes_mut_seq(buf),
{
    buf.freeze()
}

/// `Deref` of `BytesMut`: the held bytes as a slice.
#[verifier::external_body]
pub(crate) fn mut_as_slice(buf: &BytesMut) -> (s: &[u8])
    ensures
        s@ == bytes_mut_seq(*buf),
{
    &buf[..]
}

/// `Deref` of `Bytes`: the bytes as a slice.
#[verifier::external_body]
pub(crate) fn as_slice(b: &Bytes) -> (s: &[u8])
    ensures
        s@ == bytes_seq(*b),
{
    &b[..]
}

/// `Bytes::slice` with an open end: a handle on the bytes from `begin` on.
/// The call panics when `begin` lies past the end, which the precondition
/// rules out.
#[verifier::external_body]
pub(crate) fn slice_from(b: &Bytes, begin: usize) -> (tail: Bytes)
    requires
        begin <= bytes_seq(*b).len(),
    ensures
        bytes_seq(tail) == bytes_seq(*b).skip(begin as int),
{
    b.slice(begin..)
}

} // verus!
