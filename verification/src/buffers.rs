//! Where frames are read from and written to.
use crate::outside::byte_buffers;
use bytes::{Bytes, BytesMut, TryGetError};
use vstd::prelude::*;

verus! {

/// A buffer of bytes that is read from the front.
pub trait ByteSource {
    /// The bytes not yet read. The default is there for buffers whose code is
    /// not verified: an impl that keeps it meets none of the contracts below,
    /// and nothing that is proved of a `ByteSource` is proved of it.
    open spec fn rest(&self) -> Seq<u8> {
        Seq::empty()
    }

    /// Takes the next byte, if there is one.
    fn try_get_u8(&mut self) -> (result: Result<u8, TryGetError>)
        ensures
            byte_buffers::takes_byte(old(self).rest(), final(self).rest(), result),
    ;

    /// Fills `dst` with the next bytes, if there are enough of them.
    fn try_copy_to_slice(&mut self, dst: &mut [u8]) -> (result: Result<(), TryGetError>)
        ensures
            byte_buffers::fills_slice(
                old(self).rest(),
                final(self).rest(),
                old(dst)@,
                final(dst)@,
                result,
            ),
    ;
}

/// A buffer of bytes that is written at the end.
pub trait ByteSink {
    /// The bytes written so far.
    spec fn written(&self) -> Seq<u8>;

    /// How many more bytes can be written.
    spec fn room(&self) -> int;

    /// Appends `src`.
    fn put(&mut self, src: &[u8])
        requires
            src@.len() <= old(self).room(),
        ensures
            final(self).written() == old(self).written() + src@,
            final(self).room() == old(self).room() - src@.len(),
    ;
}

impl ByteSource for Bytes {
    open spec fn rest(&self) -> Seq<u8> {
        byte_buffers::bytes_contents(*self)
    }

    fn try_get_u8(&mut self) -> (result: Result<u8, TryGetError>) {
        byte_buffers::bytes_try_get_u8(self)
    }

    fn try_copy_to_slice(&mut self, dst: &mut [u8]) -> (result: Result<(), TryGetError>) {
        byte_buffers::bytes_try_copy_to_slice(self, dst)
    }
}

impl ByteSource for BytesMut {
    open spec fn rest(&self) -> Seq<u8> {
        byte_buffers::bytes_mut_contents(*self)
    }

    fn try_get_u8(&mut self) -> (result: Result<u8, TryGetError>) {
        byte_buffers::bytes_mut_try_get_u8(self)
    }

    fn try_copy_to_slice(&mut self, dst: &mut [u8]) -> (result: Result<(), TryGetError>) {
        byte_buffers::bytes_mut_try_copy_to_slice(self, dst)
    }
}

impl ByteSink for BytesMut {
    open spec fn written(&self) -> Seq<u8> {
        byte_buffers::bytes_mut_contents(*self)
    }

    open spec fn room(&self) -> int {
        byte_buffers::bytes_mut_max() - byte_buffers::bytes_mut_contents(*self).len()
    }

    fn put(&mut self, src: &[u8]) {
        byte_buffers::bytes_mut_put(self, src)
    }
}

} // verus!
