//! Byte buffers of the `bytes` crate, seen as sequences of octets, and numbers in
//! network byte order.
//!
//! The buffers themselves stay opaque. [`octets`] and [`frozen_octets`] name
//! what a buffer holds, and each function below carries one method of the
//! crate over to those sequences.
use byteorder::{ByteOrder, NetworkEndian};
use bytes::{Buf, Bytes, BytesMut};
use vstd::prelude::*;

verus! {

/// The growable buffer that sockets are read into.
#[verifier::external_type_specification]
#[verifier::external_body]
pub struct ExBytesMut(bytes::BytesMut);

/// The shareable, immutable buffer that holds a payload.
#[verifier::external_type_specification]
#[verifier::external_body]
pub struct ExBytes(bytes::Bytes);

/// The octets between the read position and the end of a `BytesMut`.
pub uninterp spec fn octets(buffer: BytesMut) -> Seq<u8>;

/// The octets of a `Bytes`.
pub uninterp spec fn frozen_octets(buffer: Bytes) -> Seq<u8>;

/// `BytesMut::new` makes a buffer without octets.
#[verifier::external_body]
pub(crate) fn empty_buffer() -> (buffer: BytesMut)
    ensures
        octets(buffer) == Seq::<u8>::empty(),
{
    BytesMut::new()
}

/// `BytesMut::len` counts the octets. A buffer is one allocation, and those
/// end at `isize::MAX` octets.
#[verifier::external_body]
pub(crate) fn buffer_len(buffer: &BytesMut) -> (len: usize)
    ensures
        len == octets(*buffer).len(),
        len <= isize::MAX,
{
    buffer.len()
}

/// `BytesMut` dereferences to the slice of its octets.
#[verifier::external_body]
pub(crate) fn buffer_slice(buffer: &BytesMut) -> (slice: &[u8])
    ensures
        slice@ == octets(*buffer),
{
    buffer
}

/// `BytesMut::split_to` hands out the first `at` octets and keeps the others.
/// It panics past the end.
#[verifier::external_body]
pub(crate) fn split_front(buffer: &mut BytesMut, at: usize) -> (front: BytesMut)
    requires
        at <= octets(*old(buffer)).len(),
    ensures
        octets(front) == octets(*old(buffer)).take(at as int),
        octets(*final(buffer)) == octets(*old(buffer)).skip(at as int),
{
    buffer.split_to(at)
}

/// `BytesMut::split` hands out every octet and leaves the buffer empty.
#[verifier::external_body]
pub(crate) fn split_all(buffer: &mut BytesMut) -> (front: BytesMut)
    ensures
        octets(front) == octets(*old(buffer)),
        octets(*final(buffer)) == Seq::<u8>::empty(),
{
    buffer.split()
}

/// `Buf::advance` on a `BytesMut` drops the first `count` octets. It panics
/// past the end.
#[verifier::external_body]
pub(crate) fn skip_front(buffer: &mut BytesMut, count: usize)
    requires
        count <= octets(*old(buffer)).len(),
    ensures
        octets(*final(buffer)) == octets(*old(buffer)).skip(count as int),
{
    buffer.advance(count)
}

/// `BytesMut::extend_from_slice` appends a copy of the slice. No buffer can
/// hold more than `isize::MAX` octets; running out of memory below that is not
/// modelled, as for `Vec`.
#[verifier::external_body]
pub(crate) fn append_slice(buffer: &mut BytesMut, slice: &[u8])
    requires
        octets(*old(buffer)).len() + slice@.len() <= isize::MAX,
    ensures
        octets(*final(buffer)) == octets(*old(buffer)) + slice@,
{
    buffer.extend_from_slice(slice)
}

/// `BytesMut::freeze` keeps the octets and gives up the right to change them.
#[verifier::external_body]
pub(crate) fn freeze(buffer: BytesMut) -> (frozen: Bytes)
    ensures
        frozen_octets(frozen) == octets(buffer),
{
    buffer.freeze()
}

/// `Bytes` dereferences to the slice of its octets. No slice of octets is longer
/// than `isize::MAX`.
#[verifier::external_body]
pub(crate) fn frozen_slice(buffer: &Bytes) -> (slice: &[u8])
    ensures
        slice@ == frozen_octets(*buffer),
        slice@.len() <= isize::MAX,
{
    buffer
}

/// `Bytes::copy_from_slice` makes a buffer with a copy of the slice.
#[verifier::external_body]
pub(crate) fn frozen_copy(slice: &[u8]) -> (frozen: Bytes)
    ensures
        frozen_octets(frozen) == slice@,
{
    Bytes::copy_from_slice(slice)
}

/// The number that the two octets at `at` encode, most significant first.
pub open spec fn be16(octets: Seq<u8>, at: int) -> int {
    octets[at] * 256 + octets[at + 1]
}

/// The number that the four octets at `at` encode, most significant first.
pub open spec fn be32(octets: Seq<u8>, at: int) -> int {
    be16(octets, at) * 65536 + be16(octets, at + 2)
}

/// `byteorder::NetworkEndian::read_u16` reads the first two octets of a slice,
/// most significant first. It panics on a shorter slice.
#[verifier::external_body]
pub(crate) fn read_u16(slice: &[u8]) -> (n: u16)
    requires
        slice@.len() >= 2,
    ensures
        n == be16(slice@, 0),
{
    NetworkEndian::read_u16(slice)
}

/// `byteorder::NetworkEndian::read_u32` reads the first four octets of a slice,
/// most significant first. It panics on a shorter slice.
#[verifier::external_body]
pub(crate) fn read_u32(slice: &[u8]) -> (n: u32)
    requires
        slice@.len() >= 4,
    ensures
        n == be32(slice@, 0),
{
    NetworkEndian::read_u32(slice)
}

} // verus!
