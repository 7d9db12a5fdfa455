//! Byte buffers of the `bytes` crate as the library sees them, and the
//! big-endian integer layouts that every wire format here is built from.
//!
//! A `BytesMut` is a growable byte buffer that is read from the front and
//! written at the back. Its contents are named by [`buf_contents`]; every
//! operation the library performs on a buffer goes through one of the
//! trusted wrappers below, whose contracts say what the operation does to
//! those contents, as the `bytes` crate's source shows it.

use bytes::{Buf, BufMut, Bytes, BytesMut};
use vstd::prelude::*;

verus! {

/// `bytes::BytesMut`, a growable and splittable byte buffer.
#[verifier::external_type_specification]
#[verifier::external_body]
pub struct ExBytesMut(BytesMut);

/// `bytes::Bytes`, an immutable byte buffer.
#[verifier::external_type_specification]
#[verifier::external_body]
pub struct ExBytes(Bytes);

/// The bytes a `BytesMut` holds, first byte first.
pub uninterp spec fn buf_contents(buf: BytesMut) -> Seq<u8>;

/// The bytes a `Bytes` holds, first byte first.
pub uninterp spec fn bytes_contents(b: Bytes) -> Seq<u8>;

/// What `String::from_utf8_lossy` makes of a byte sequence.
pub uninterp spec fn utf8_lossy(bytes: Seq<u8>) -> Seq<char>;

// ---------------------------------------------------------------------------
// Big-endian layouts
// ---------------------------------------------------------------------------

/// The two bytes of `v`, most significant first.
pub open spec fn be_u16(v: u16) -> Seq<u8> {
    seq![(v >> 8u16) as u8, v as u8]
}

/// The four bytes of `v`, most significant first.
pub open spec fn be_u32(v: u32) -> Seq<u8> {
    seq![(v >> 24u32) as u8, (v >> 16u32) as u8, (v >> 8u32) as u8, v as u8]
}

/// The eight bytes of `v`, most significant first.
pub open spec fn be_u64(v: u64) -> Seq<u8> {
    seq![
        (v >> 56u64) as u8,
        (v >> 48u64) as u8,
        (v >> 40u64) as u8,
        (v >> 32u64) as u8,
        (v >> 24u64) as u8,
        (v >> 16u64) as u8,
        (v >> 8u64) as u8,
        v as u8,
    ]
}

/// The two bytes of `v` in two's complement, most significant first.
pub open spec fn be_i16(v: i16) -> Seq<u8> {
    be_u16(v as u16)
}

/// The four bytes of `v` in two's complement, most significant first.
pub open spec fn be_i32(v: i32) -> Seq<u8> {
    be_u32(v as u32)
}

/// The eight bytes of `v` in two's complement, most significant first.
pub open spec fn be_i64(v: i64) -> Seq<u8> {
    be_u64(v as u64)
}

/// The unsigned 16-bit integer whose big-endian bytes start `s`.
pub open spec fn u16_from_be(s: Seq<u8>) -> u16 {
    ((s[0] as u16) << 8u16) | (s[1] as u16)
}

/// The unsigned 32-bit integer whose big-endian bytes start `s`.
pub open spec fn u32_from_be(s: Seq<u8>) -> u32 {
    ((s[0] as u32) << 24u32) | ((s[1] as u32) << 16u32) | ((s[2] as u32) << 8u32) | (s[3] as u32)
}

/// The unsigned 64-bit integer whose big-endian bytes start `s`.
pub open spec fn u64_from_be(s: Seq<u8>) -> u64 {
    ((s[0] as u64) << 56u64) | ((s[1] as u64) << 48u64) | ((s[2] as u64) << 40u64) | ((s[3] as u64)
        << 32u64) | ((s[4] as u64) << 24u64) | ((s[5] as u64) << 16u64) | ((s[6] as u64) << 8u64)
        | (s[7] as u64)
}

/// The signed 16-bit integer whose big-endian two's complement bytes start `s`.
pub open spec fn i16_from_be(s: Seq<u8>) -> i16 {
    u16_from_be(s) as i16
}

/// The signed 32-bit integer whose big-endian two's complement bytes start `s`.
pub open spec fn i32_from_be(s: Seq<u8>) -> i32 {
    u32_from_be(s) as i32
}

/// The signed 64-bit integer whose big-endian two's complement bytes start `s`.
pub open spec fn i64_from_be(s: Seq<u8>) -> i64 {
    u64_from_be(s) as i64
}

/// Reading back the big-endian bytes of a `u16` gives the `u16`.
pub proof fn lemma_u16_be_roundtrip(v: u16)
    ensures
        be_u16(v).len() == 2,
        u16_from_be(be_u16(v)) == v,
{
    assert(((((v >> 8u16) as u8) as u16) << 8u16) | ((v as u8) as u16) == v) by (bit_vector);
}

/// Reading back the big-endian bytes of a `u32` gives the `u32`.
pub proof fn lemma_u32_be_roundtrip(v: u32)
    ensures
        be_u32(v).len() == 4,
        u32_from_be(be_u32(v)) == v,
{
    assert(((((v >> 24u32) as u8) as u32) << 24u32) | ((((v >> 16u32) as u8) as u32) << 16u32)
        | ((((v >> 8u32) as u8) as u32) << 8u32) | ((v as u8) as u32) == v) by (bit_vector);
}

/// Reading back the big-endian bytes of a `u64` gives the `u64`.
pub proof fn lemma_u64_be_roundtrip(v: u64)
    ensures
        be_u64(v).len() == 8,
        u64_from_be(be_u64(v)) == v,
{
    assert(((((v >> 56u64) as u8) as u64) << 56u64) | ((((v >> 48u64) as u8) as u64) << 48u64)
        | ((((v >> 40u64) as u8) as u64) << 40u64) | ((((v >> 32u64) as u8) as u64) << 32u64)
        | ((((v >> 24u64) as u8) as u64) << 24u64) | ((((v >> 16u64) as u8) as u64) << 16u64)
        | ((((v >> 8u64) as u8) as u64) << 8u64) | ((v as u8) as u64) == v) by (bit_vector);
}

/// Reading back the big-endian bytes of an `i16` gives the `i16`.
pub proof fn lemma_i16_be_roundtrip(v: i16)
    ensures
        be_i16(v).len() == 2,
        i16_from_be(be_i16(v)) == v,
{
    lemma_u16_be_roundtrip(v as u16);
    assert((v as u16) as i16 == v) by (bit_vector);
}

/// Reading back the big-endian bytes of an `i32` gives the `i32`.
pub proof fn lemma_i32_be_roundtrip(v: i32)
    ensures
        be_i32(v).len() == 4,
        i32_from_be(be_i32(v)) == v,
{
    lemma_u32_be_roundtrip(v as u32);
    assert((v as u32) as i32 == v) by (bit_vector);
}

/// Reading back the big-endian bytes of an `i64` gives the `i64`.
pub proof fn lemma_i64_be_roundtrip(v: i64)
    ensures
        be_i64(v).len() == 8,
        i64_from_be(be_i64(v)) == v,
{
    lemma_u64_be_roundtrip(v as u64);
    assert((v as u64) as i64 == v) by (bit_vector);
}

/// A big-endian `u16` is read from the first two bytes alone.
pub proof fn lemma_u16_from_be_prefix(s: Seq<u8>)
    requires
        s.len() >= 2,
    ensures
        u16_from_be(s) == u16_from_be(s.take(2)),
{
}

/// A big-endian `u32` is read from the first four bytes alone.
pub proof fn lemma_u32_from_be_prefix(s: Seq<u8>)
    requires
        s.len() >= 4,
    ensures
        u32_from_be(s) == u32_from_be(s.take(4)),
{
}

/// A big-endian `u64` is read from the first eight bytes alone.
pub proof fn lemma_u64_from_be_prefix(s: Seq<u8>)
    requires
        s.len() >= 8,
    ensures
        u64_from_be(s) == u64_from_be(s.take(8)),
{
}

/// The four big-endian bytes of a `u32`, as `u32::to_be_bytes` lays them out.
pub fn u32_to_be(v: u32) -> (out: [u8; 4])
    ensures
        out@ == be_u32(v),
{
    let out = [(v >> 24u32) as u8, (v >> 16u32) as u8, (v >> 8u32) as u8, v as u8];
    assert(out@ =~= be_u32(v));
    out
}

/// The four big-endian two's complement bytes of an `i32`, as
/// `i32::to_be_bytes` lays them out.
pub fn i32_to_be(v: i32) -> (out: [u8; 4])
    ensures
        out@ == be_i32(v),
{
    u32_to_be(v as u32)
}

/// An empty buffer, to build a frame in.
pub fn new_buffer() -> (buf: BytesMut)
    ensures
        buf_contents(buf) == Seq::<u8>::empty(),
{
    buf_new()
}

/// The number of bytes `buf` holds.
pub fn buffer_len(buf: &BytesMut) -> (n: usize)
    ensures
        n == buf_contents(*buf).len(),
{
    buf_len(buf)
}

// ---------------------------------------------------------------------------
// Trusted wrappers around `bytes`
// ---------------------------------------------------------------------------

/// `BytesMut::new`: an empty buffer.
#[verifier::external_body]
pub(crate) fn buf_new() -> (buf: BytesMut)
    ensures
        buf_contents(buf) == Seq::<u8>::empty(),
{
    BytesMut::new()
}

/// `BytesMut::len`: the number of bytes the buffer holds.
#[verifier::external_body]
pub(crate) fn buf_len(buf: &BytesMut) -> (n: usize)
    ensures
        n == buf_contents(*buf).len(),
{
    buf.len()
}

/// `Buf::get_u8` on a `BytesMut`: removes the first byte and returns it.
/// It panics on an empty buffer, which `requires` leaves out.
#[verifier::external_body]
pub(crate) fn buf_get_u8(buf: &mut BytesMut) -> (v: u8)
    requires
        buf_contents(*old(buf)).len() >= 1,
    ensures
        v == buf_contents(*old(buf))[0],
        buf_contents(*final(buf)) == buf_contents(*old(buf)).skip(1),
{
    buf.get_u8()
}

/// `Buf::get_u16` on a `BytesMut`: removes the first two bytes and returns
/// them read as a big-endian `u16`. It panics on fewer than two bytes.
#[verifier::external_body]
pub(crate) fn buf_get_u16(buf: &mut BytesMut) -> (v: u16)
    requires
        buf_contents(*old(buf)).len() >= 2,
    ensures
        v == u16_from_be(buf_contents(*old(buf))),
        buf_contents(*final(buf)) == buf_contents(*old(buf)).skip(2),
{
    buf.get_u16()
}

/// `Buf::get_i16` on a `BytesMut`: removes the first two bytes and returns
/// them read as a big-endian `i16`. It panics on fewer than two bytes.
#[verifier::external_body]
pub(crate) fn buf_get_i16(buf: &mut BytesMut) -> (v: i16)
    requires
        buf_contents(*old(buf)).len() >= 2,
    ensures
        v == i16_from_be(buf_contents(*old(buf))),
        buf_contents(*final(buf)) == buf_contents(*old(buf)).skip(2),
{
    buf.get_i16()
}

/// `Buf::get_u32` on a `BytesMut`: removes the first four bytes and returns
/// them read as a big-endian `u32`. It panics on fewer than four bytes.
#[verifier::external_body]
pub(crate) fn buf_get_u32(buf: &mut BytesMut) -> (v: u32)
    requires
        buf_contents(*old(buf)).len() >= 4,
    ensures
        v == u32_from_be(buf_contents(*old(buf))),
        buf_contents(*final(buf)) == buf_contents(*old(buf)).skip(4),
{
    buf.get_u32()
}

/// `Buf::get_i32` on a `BytesMut`: removes the first four bytes and returns
/// them read as a big-endian `i32`. It panics on fewer than four bytes.
#[verifier::external_body]
pub(crate) fn buf_get_i32(buf: &mut BytesMut) -> (v: i32)
    requires
        buf_contents(*old(buf)).len() >= 4,
    ensures
        v == i32_from_be(buf_contents(*old(buf))),
        buf_contents(*final(buf)) == buf_contents(*old(buf)).skip(4),
{
    buf.get_i32()
}

/// `Buf::get_u64` on a `BytesMut`: removes the first eight bytes and returns
/// them read as a big-endian `u64`. It panics on fewer than eight bytes.
#[verifier::external_body]
pub(crate) fn buf_get_u64(buf: &mut BytesMut) -> (v: u64)
    requires
        buf_contents(*old(buf)).len() >= 8,
    ensures
        v == u64_from_be(buf_contents(*old(buf))),
        buf_contents(*final(buf)) == buf_contents(*old(buf)).skip(8),
{
    buf.get_u64()
}

/// `Buf::copy_to_bytes` on a `BytesMut`: splits off the first `len` bytes
/// and returns them. It panics when the buffer holds fewer than `len` bytes.
#[verifier::external_body]
pub(crate) fn buf_copy_to_bytes(buf: &mut BytesMut, len: usize) -> (out: Bytes)
    requires
        len <= buf_contents(*old(buf)).len(),
    ensures
        bytes_contents(out) == buf_contents(*old(buf)).take(len as int),
        buf_contents(*final(buf)) == buf_contents(*old(buf)).skip(len as int),
{
    buf.copy_to_bytes(len)
}

/// `BytesMut::split_to`: removes the first `at` bytes from the buffer and
/// returns them as a buffer of their own. It panics when the buffer holds
/// fewer than `at` bytes, which `requires` leaves out.
#[verifier::external_body]
pub(crate) fn buf_split_to(buf: &mut BytesMut, at: usize) -> (front: BytesMut)
    requires
        at <= buf_contents(*old(buf)).len(),
    ensures
        buf_contents(front) == buf_contents(*old(buf)).take(at as int),
        buf_contents(*final(buf)) == buf_contents(*old(buf)).skip(at as int),
{
    buf.split_to(at)
}

/// `Bytes` as a slice (its `Deref`): the same bytes.
#[verifier::external_body]
pub(crate) fn bytes_as_slice<'a>(b: &'a Bytes) -> (out: &'a [u8])
    ensures
        out@ == bytes_contents(*b),
{
    b.as_ref()
}

/// `BufMut::put_slice` on a `BytesMut`: appends the bytes of `src`. Growing
/// the buffer panics when its length would pass `isize::MAX`, which
/// `requires` leaves out.
#[verifier::external_body]
pub(crate) fn buf_put_slice(buf: &mut BytesMut, src: &[u8])
    requires
        buf_contents(*old(buf)).len() + src@.len() <= isize::MAX,
    ensures
        buf_contents(*final(buf)) == buf_contents(*old(buf)) + src@,
{
    buf.put_slice(src)
}

/// `BufMut::put_u16` on a `BytesMut`: appends the big-endian bytes of `v`.
#[verifier::external_body]
pub(crate) fn buf_put_u16(buf: &mut BytesMut, v: u16)
    requires
        buf_contents(*old(buf)).len() + 2 <= isize::MAX,
    ensures
        buf_contents(*final(buf)) == buf_contents(*old(buf)) + be_u16(v),
{
    buf.put_u16(v)
}

/// `BufMut::put_i16` on a `BytesMut`: appends the big-endian bytes of `v`.
#[verifier::external_body]
pub(crate) fn buf_put_i16(buf: &mut BytesMut, v: i16)
    requires
        buf_contents(*old(buf)).len() + 2 <= isize::MAX,
    ensures
        buf_contents(*final(buf)) == buf_contents(*old(buf)) + be_i16(v),
{
    buf.put_i16(v)
}

/// `BufMut::put_u32` on a `BytesMut`: appends the big-endian bytes of `v`.
#[verifier::external_body]
pub(crate) fn buf_put_u32(buf: &mut BytesMut, v: u32)
    requires
        buf_contents(*old(buf)).len() + 4 <= isize::MAX,
    ensures
        buf_contents(*final(buf)) == buf_contents(*old(buf)) + be_u32(v),
{
    buf.put_u32(v)
}

/// `BufMut::put_i32` on a `BytesMut`: appends the big-endian bytes of `v`.
#[verifier::external_body]
pub(crate) fn buf_put_i32(buf: &mut BytesMut, v: i32)
    requires
        buf_contents(*old(buf)).len() + 4 <= isize::MAX,
    ensures
        buf_contents(*final(buf)) == buf_contents(*old(buf)) + be_i32(v),
{
    buf.put_i32(v)
}

/// `BufMut::put_u64` on a `BytesMut`: appends the big-endian bytes of `v`.
#[verifier::external_body]
pub(crate) fn buf_put_u64(buf: &mut BytesMut, v: u64)
    requires
        buf_contents(*old(buf)).len() + 8 <= isize::MAX,
    ensures
        buf_contents(*final(buf)) == buf_contents(*old(buf)) + be_u64(v),
{
    buf.put_u64(v)
}

/// `BufMut::put_i64` on a `BytesMut`: appends the big-endian bytes of `v`.
#[verifier::external_body]
pub(crate) fn buf_put_i64(buf: &mut BytesMut, v: i64)
    requires
        buf_contents(*old(buf)).len() + 8 <= isize::MAX,
    ensures
        buf_contents(*final(buf)) == buf_contents(*old(buf)) + be_i64(v),
{
    buf.put_i64(v)
}

/// `BytesMut` as a slice (its `AsRef<[u8]>`): the bytes it holds.
#[verifier::external_body]
pub(crate) fn buf_as_slice<'a>(buf: &'a BytesMut) -> (out: &'a [u8])
    ensures
        out@ == buf_contents(*buf),
{
    buf.as_ref()
}

/// `String::from_utf8_lossy`, made an owned `String`: valid UTF-8 decodes as
/// is; what the result holds for invalid input (replacement characters) is
/// left to the name [`utf8_lossy`].
#[verifier::external_body]
pub(crate) fn string_from_utf8_lossy(bytes: &[u8]) -> (s: String)
    ensures
        s@ == utf8_lossy(bytes@),
        vstd::utf8::valid_utf8(bytes@) ==> s@ == vstd::utf8::decode_utf8(bytes@),
{
    String::from_utf8_lossy(bytes).into_owned()
}

} // verus!
