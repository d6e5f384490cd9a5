//! What decoding the start of a byte stream can come to.

use crate::util::{AdbError, ErrorView};
use vstd::prelude::*;

verus! {

/// The longest payload that is sent or accepted, in bytes.
pub const MAX_MESSAGE_SIZE: usize = 8 * 1024 * 1024;

/// What the bytes at hand amount to.
pub enum Decoded<T> {
    /// They are too few for a frame.
    Incomplete,
    /// They start with a frame of `size` bytes that stands for `item`.
    Frame { item: T, size: nat },
    /// They are no frame; `size` of them are dropped.
    Invalid { error: ErrorView, size: nat },
}

impl<T> Decoded<T> {
    /// How many bytes are taken from the front of the stream.
    pub open spec fn size(self) -> nat {
        match self {
            Decoded::Incomplete => 0,
            Decoded::Frame { size, .. } => size,
            Decoded::Invalid { size, .. } => size,
        }
    }

    /// `result` reports this, and what was taken from `before` leaves `after`.
    pub open spec fn reported<R: View<V = T>>(
        self,
        result: Result<Option<R>, AdbError>,
        before: Seq<u8>,
        after: Seq<u8>,
    ) -> bool {
        &&& self.size() <= before.len()
        &&& after == before.skip(self.size() as int)
        &&& match self {
            Decoded::Incomplete => result matches Ok(None),
            Decoded::Frame { item, .. } => result matches Ok(Some(r)) && r@ == item,
            Decoded::Invalid { error, .. } => result matches Err(e) && e@ == error,
        }
    }
}

} // verus!
