//! The shared byte buffers of the `bytes` crate: what they hold, and what the calls this library
//! makes do to them.

use bytes::{Buf, Bytes, BytesMut};
use vstd::prelude::*;

verus! {

/// An immutable, reference-counted byte string.
#[verifier::external_type_specification]
#[verifier::external_body]
pub struct ExBytes(Bytes);

/// A growable byte buffer that can be split without copying.
#[verifier::external_type_specification]
#[verifier::external_body]
pub struct ExBytesMut(BytesMut);

/// The bytes that a `Bytes` handle shows.
pub uninterp spec fn bytes_of(handle: Bytes) -> Seq<u8>;

/// The bytes that a `BytesMut` buffer holds.
pub uninterp spec fn buffered(buffer: BytesMut) -> Seq<u8>;

/// `Bytes::as_ref` borrows the whole byte string.
#[verifier::external_body]
pub(crate) fn bytes_slice(handle: &Bytes) -> (slice: &[u8])
    ensures
        slice@ == bytes_of(*handle),
{
    handle.as_ref()
}

/// `Bytes::clone` yields another handle to the same bytes.
pub assume_specification[ <Bytes as Clone>::clone ](handle: &Bytes) -> (copy: Bytes)
    ensures
        bytes_of(copy) == bytes_of(*handle),
;

/// `BytesMut::as_ref` borrows everything that is buffered.
#[verifier::external_body]
pub(crate) fn buffer_slice(buffer: &BytesMut) -> (slice: &[u8])
    ensures
        slice@ == buffered(*buffer),
{
    buffer.as_ref()
}

/// `Buf::advance` drops the first `count` bytes. It panics where fewer are buffered.
#[verifier::external_body]
pub(crate) fn advance(buffer: &mut BytesMut, count: usize)
    requires
        count <= buffered(*old(buffer)).len(),
    ensures
        buffered(*final(buffer)) == buffered(*old(buffer)).skip(count as int),
{
    buffer.advance(count);
}

/// `BytesMut::split_to` hands out the first `at` bytes and keeps the rest. It panics where fewer
/// are buffered.
pub assume_specification[ BytesMut::split_to ](buffer: &mut BytesMut, at: usize) -> (front: BytesMut)
    requires
        at <= buffered(*old(buffer)).len(),
    ensures
        buffered(front) == buffered(*old(buffer)).take(at as int),
        buffered(*final(buffer)) == buffered(*old(buffer)).skip(at as int),
;

/// `BytesMut::freeze` turns a buffer into an immutable handle to the same bytes.
pub assume_specification[ BytesMut::freeze ](buffer: BytesMut) -> (handle: Bytes)
    ensures
        bytes_of(handle) == buffered(buffer),
;

} // verus!
