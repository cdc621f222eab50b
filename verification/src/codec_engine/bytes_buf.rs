//! The byte buffers of the `bytes` crate, as the codec uses them: what a
//! buffer holds is named, and each method is specified over that name.

use bytes::{Bytes, BytesMut};
use bytes::BufMut;
use vstd::prelude::*;

verus! {

/// A growable byte buffer of the `bytes` crate.
#[verifier::external_type_specification]
#[verifier::external_body]
pub struct ExBytesMut(BytesMut);

/// An immutable, shareable byte buffer of the `bytes` crate.
#[verifier::external_type_specification]
#[verifier::external_body]
pub struct ExBytes(Bytes);

/// The bytes that a `BytesMut` holds, first to last.
pub uninterp spec fn buffer_bytes(buf: BytesMut) -> Seq<u8>;

/// The bytes that a `Bytes` holds, first to last.
pub uninterp spec fn frozen_bytes(buf: Bytes) -> Seq<u8>;

/// `BytesMut::with_capacity` gives a buffer that holds no bytes. A capacity
/// beyond `isize::MAX` makes the allocation panic and is left out.
pub assume_specification[ BytesMut::with_capacity ](capacity: usize) -> (buf: BytesMut)
    requires
        capacity <= isize::MAX,
    ensures
        buffer_bytes(buf) == Seq::<u8>::empty(),
;

/// `BytesMut::is_empty` tells whether no byte is held.
pub assume_specification[ BytesMut::is_empty ](buf: &BytesMut) -> (b: bool)
    ensures
        b == (buffer_bytes(*buf).len() == 0),
;

/// `BytesMut::extend_from_slice` appends the slice to what is held. The
/// buffer grows as needed; as for `Vec` in vstd, running out of memory is
/// not modelled.
pub assume_specification[ BytesMut::extend_from_slice ](buf: &mut BytesMut, extend: &[u8])
    ensures
        buffer_bytes(*final(buf)) == buffer_bytes(*old(buf)) + extend@,
;

/// `BytesMut::split_to` hands out the first `at` bytes and keeps the rest.
/// It panics when `at` is beyond the length, which is left out.
pub assume_specification[ BytesMut::split_to ](buf: &mut BytesMut, at: usize) -> (head: BytesMut)
    requires
        at <= buffer_bytes(*old(buf)).len(),
    ensures
        buffer_bytes(head) == buffer_bytes(*old(buf)).subrange(0, at as int),
        buffer_bytes(*final(buf)) == buffer_bytes(*old(buf)).subrange(
            at as int,
            buffer_bytes(*old(buf)).len() as int,
        ),
;

/// `BytesMut::clear` drops every byte held.
pub assume_specification[ BytesMut::clear ](buf: &mut BytesMut)
    ensures
        buffer_bytes(*final(buf)) == Seq::<u8>::empty(),
;

/// `Clone` on a `BytesMut` gives a buffer of its own that holds the same bytes.
pub assume_specification[ <BytesMut as Clone>::clone ](buf: &BytesMut) -> (copy: BytesMut)
    ensures
        buffer_bytes(copy) == buffer_bytes(*buf),
;

/// `BytesMut::freeze` turns the buffer into a `Bytes` that holds the same bytes.
pub assume_specification[ BytesMut::freeze ](buf: BytesMut) -> (frozen: Bytes)
    ensures
        frozen_bytes(frozen) == buffer_bytes(buf),
;

/// `BufMut::put_u8` on a `BytesMut` appends one byte. The buffer grows as
/// needed; as for `Vec` in vstd, running out of memory is not modelled.
#[verifier::external_body]
pub(crate) fn put_byte(buf: &mut BytesMut, byte: u8)
    ensures
        buffer_bytes(*final(buf)) == buffer_bytes(*old(buf)).push(byte),
{
    buf.put_u8(byte);
}

/// `AsRef<[u8]>` on a `BytesMut`: the bytes held, as a slice.
#[verifier::external_body]
pub(crate) fn buffer_slice(buf: &BytesMut) -> (bytes: &[u8])
    ensures
        bytes@ == buffer_bytes(*buf),
{
    buf.as_ref()
}

} // verus!
