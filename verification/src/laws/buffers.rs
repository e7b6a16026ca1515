//! What reading from the byte buffers and writing to them do.
use crate::buffers::{ByteSink, ByteSource};
use crate::outside::byte_buffers;
use bytes::{Bytes, BytesMut, TryGetError};
use vstd::prelude::*;

verus! {

/// The next byte leaves the front of a buffer, exactly where there is one.
pub proof fn law_byte_is_taken<B: ByteSource>(buf: &mut B, result: Result<u8, TryGetError>)
    requires
        call_ensures(B::try_get_u8, (buf,), result),
    ensures
        match result {
            Ok(byte) => {
                &&& old(buf).rest().len() > 0
                &&& byte == old(buf).rest()[0]
                &&& final(buf).rest() == old(buf).rest().skip(1)
            },
            Err(error) => {
                &&& old(buf).rest().len() == 0
                &&& final(buf).rest().len() == 0
                &&& error.requested == 1
                &&& error.available == 0
            },
        },
{
}

/// The next bytes leave the front of a buffer for a slice, exactly where there
/// are enough of them to fill it.
pub proof fn law_slice_is_filled<B: ByteSource>(
    buf: &mut B,
    dst: &mut [u8],
    result: Result<(), TryGetError>,
)
    requires
        call_ensures(B::try_copy_to_slice, (buf, dst), result),
    ensures
        ({
            let wanted = old(dst)@.len() as int;
            match result {
                Ok(()) => {
                    &&& wanted <= old(buf).rest().len()
                    &&& final(dst)@ == old(buf).rest().take(wanted)
                    &&& final(buf).rest() == old(buf).rest().skip(wanted)
                },
                Err(error) => {
                    &&& wanted > old(buf).rest().len()
                    &&& final(dst)@ == old(dst)@
                    &&& final(buf).rest() == old(buf).rest()
                    &&& error.requested == wanted
                    &&& error.available == old(buf).rest().len()
                },
            }
        }),
{
}

/// What is put into a buffer is appended to it, and takes up as much room.
pub proof fn law_put_appends<B: ByteSink>(buf: &mut B, src: &[u8])
    requires
        call_ensures(B::put, (buf, src), ()),
    ensures
        final(buf).written() == old(buf).written() + src@,
        final(buf).room() == old(buf).room() - src@.len(),
{
}

/// Reading and writing a buffer of the `bytes` crate is about what it holds; it
/// has room for up to a quarter of `isize::MAX` bytes.
pub proof fn law_buffers_hold(bytes: Bytes, growing: BytesMut)
    ensures
        bytes.rest() == byte_buffers::bytes_contents(bytes),
        growing.rest() == byte_buffers::bytes_mut_contents(growing),
        growing.written() == byte_buffers::bytes_mut_contents(growing),
        growing.room() == isize::MAX / 4 - byte_buffers::bytes_mut_contents(growing).len(),
{
}

} // verus!
