//! The byte buffer that frames are read from and written to.

use tokio_util::bytes::{Buf, BytesMut};
use vstd::prelude::*;

verus! {

/// The growable byte buffer of the `bytes` crate; what it holds is given by `buffered`.
#[verifier::external_type_specification]
#[verifier::external_body]
pub struct ExBytesMut(BytesMut);

/// The bytes that a buffer holds, in order.
pub uninterp spec fn buffered(buffer: BytesMut) -> Seq<u8>;

/// `BytesMut::len` is the number of bytes in the buffer.
pub assume_specification[ BytesMut::len ](held: &BytesMut) -> (n: usize)
    ensures
        n == buffered(*held).len(),
;

/// `BytesMut` dereferences to the slice of the bytes that it holds.
pub assume_specification[ <BytesMut as core::ops::Deref>::deref ](held: &BytesMut) -> (bytes:
    &[u8])
    ensures
        bytes@ == buffered(*held),
;

/// `BytesMut::reserve` makes room and keeps the bytes that are there. It panics where the room
/// cannot be had because no allocation is that large. Of the storage itself nothing is said: how
/// much more than that is asked for, and that what `advance` has dropped may still take up room,
/// is between the buffer and the allocator.
pub assume_specification[ BytesMut::reserve ](held: &mut BytesMut, additional: usize)
    requires
        buffered(*old(held)).len() + additional <= isize::MAX,
    ensures
        buffered(*final(held)) == buffered(*old(held)),
;

/// `BytesMut::extend_from_slice` appends the bytes of a slice, growing the buffer where it must,
/// as `reserve` does.
pub assume_specification[ BytesMut::extend_from_slice ](held: &mut BytesMut, extend: &[u8])
    requires
        buffered(*old(held)).len() + extend@.len() <= isize::MAX,
    ensures
        buffered(*final(held)) == buffered(*old(held)) + extend@,
;

/// `Buf::advance`, as `BytesMut` has it, drops the first `count` bytes. It panics where there are
/// not that many.
#[verifier::external_body]
pub(crate) fn advance(buffer: &mut BytesMut, count: usize)
    requires
        count <= buffered(*old(buffer)).len(),
    ensures
        buffered(*final(buffer)) == buffered(*old(buffer)).skip(count as int),
{
    buffer.advance(count);
}

/// A copy of the bytes of `buffer` from `start` up to `end`.
pub(crate) fn copy_range(buffer: &BytesMut, start: usize, end: usize) -> (bytes: Vec<u8>)
    requires
        start <= end <= buffered(*buffer).len(),
    ensures
        bytes@ == buffered(*buffer).subrange(start as int, end as int),
{
    let all: &[u8] = &**buffer;
    vstd::slice::slice_to_vec(&all[start..end])
}

} // verus!
