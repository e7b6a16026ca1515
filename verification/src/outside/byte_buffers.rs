//! `bytes::Bytes` and `bytes::BytesMut`, the byte buffers of the `bytes` crate.
use bytes::{Buf, BufMut, Bytes, BytesMut, TryGetError};
use vstd::prelude::*;

verus! {

/// `bytes::Bytes`, known only by what it holds.
#[verifier::external_type_specification]
#[verifier::external_body]
pub struct ExBytes(bytes::Bytes);

/// `bytes::BytesMut`, known only by what it holds.
#[verifier::external_type_specification]
#[verifier::external_body]
pub struct ExBytesMut(bytes::BytesMut);

/// The bytes a `Bytes` still holds, the next one first.
pub uninterp spec fn bytes_contents(bytes: Bytes) -> Seq<u8>;

/// The bytes a `BytesMut` holds, the next one to be read first.
pub uninterp spec fn bytes_mut_contents(bytes: BytesMut) -> Seq<u8>;

/// How many bytes a `BytesMut` can be filled up to. It grows by an allocation of
/// up to four times the bytes it is to hold, depending on how much room it has
/// and where in that room its bytes lie, and panics where the allocation would
/// exceed `isize::MAX` bytes.
pub open spec fn bytes_mut_max() -> nat {
    (isize::MAX / 4) as nat
}

/// What `Buf::try_get_u8` does to a buffer that held `before` and then holds
/// `after`: it takes the first byte, or reports that none is left.
pub open spec fn takes_byte(
    before: Seq<u8>,
    after: Seq<u8>,
    result: Result<u8, TryGetError>,
) -> bool {
    match result {
        Ok(byte) => before.len() > 0 && byte == before[0] && after == before.skip(1),
        Err(error) => {
            &&& before.len() == 0
            &&& after == before
            &&& error.requested == 1
            &&& error.available == 0
        },
    }
}

/// What `Buf::try_copy_to_slice` does to a buffer that held `before` and then
/// holds `after`, and to a slice that held `dst_before` and then holds
/// `dst_after`: it fills the slice from the front of the buffer, or, where the
/// buffer is too short, changes neither and reports both lengths.
pub open spec fn fills_slice(
    before: Seq<u8>,
    after: Seq<u8>,
    dst_before: Seq<u8>,
    dst_after: Seq<u8>,
    result: Result<(), TryGetError>,
) -> bool {
    let wanted = dst_before.len() as int;
    match result {
        Ok(()) => {
            &&& wanted <= before.len()
            &&& dst_after == before.take(wanted)
            &&& after == before.skip(wanted)
        },
        Err(error) => {
            &&& wanted > before.len()
            &&& dst_after == dst_before
            &&& after == before
            &&& error.requested == wanted
            &&& error.available == before.len()
        },
    }
}

/// `Buf::try_get_u8` on a `Bytes`.
#[verifier::external_body]
pub(crate) fn bytes_try_get_u8(bytes: &mut Bytes) -> (result: Result<u8, TryGetError>)
    ensures
        takes_byte(bytes_contents(*old(bytes)), bytes_contents(*final(bytes)), result),
{
    bytes.try_get_u8()
}

/// `Buf::try_copy_to_slice` on a `Bytes`.
#[verifier::external_body]
pub(crate) fn bytes_try_copy_to_slice(bytes: &mut Bytes, dst: &mut [u8]) -> (result: Result<
    (),
    TryGetError,
>)
    ensures
        fills_slice(
            bytes_contents(*old(bytes)),
            bytes_contents(*final(bytes)),
            old(dst)@,
            final(dst)@,
            result,
        ),
{
    bytes.try_copy_to_slice(dst)
}

/// `Buf::try_get_u8` on a `BytesMut`.
#[verifier::external_body]
pub(crate) fn bytes_mut_try_get_u8(bytes: &mut BytesMut) -> (result: Result<u8, TryGetError>)
    ensures
        takes_byte(bytes_mut_contents(*old(bytes)), bytes_mut_contents(*final(bytes)), result),
{
    bytes.try_get_u8()
}

/// `Buf::try_copy_to_slice` on a `BytesMut`.
#[verifier::external_body]
pub(crate) fn bytes_mut_try_copy_to_slice(bytes: &mut BytesMut, dst: &mut [u8]) -> (result: Result<
    (),
    TryGetError,
>)
    ensures
        fills_slice(
            bytes_mut_contents(*old(bytes)),
            bytes_mut_contents(*final(bytes)),
            old(dst)@,
            final(dst)@,
            result,
        ),
{
    bytes.try_copy_to_slice(dst)
}

/// `BytesMut::as_ref`: all the bytes held.
#[verifier::external_body]
pub(crate) fn bytes_mut_as_slice(bytes: &BytesMut) -> (slice: &[u8])
    ensures
        slice@ == bytes_mut_contents(*bytes),
{
    bytes.as_ref()
}

/// `Buf::advance` on a `BytesMut`: drops the first `count` bytes. It panics
/// where fewer are left.
#[verifier::external_body]
pub(crate) fn bytes_mut_advance(bytes: &mut BytesMut, count: usize)
    requires
        count <= bytes_mut_contents(*old(bytes)).len(),
    ensures
        bytes_mut_contents(*final(bytes)) == bytes_mut_contents(*old(bytes)).skip(count as int),
{
    bytes.advance(count)
}

/// `BufMut::put` of a slice on a `BytesMut`: appends the bytes in order. It
/// may panic where the buffer would grow beyond [`bytes_mut_max`].
#[verifier::external_body]
pub(crate) fn bytes_mut_put(bytes: &mut BytesMut, src: &[u8])
    requires
        bytes_mut_contents(*old(bytes)).len() + src@.len() <= bytes_mut_max(),
    ensures
        bytes_mut_contents(*final(bytes)) == bytes_mut_contents(*old(bytes)) + src@,
{
    bytes.put(src)
}

/// `BytesMut::extend_from_slice`: appends the bytes in order. It may panic
/// where the buffer would grow beyond [`bytes_mut_max`].
#[verifier::external_body]
pub(crate) fn bytes_mut_extend_from_slice(bytes: &mut BytesMut, extend: &[u8])
    requires
        bytes_mut_contents(*old(bytes)).len() + extend@.len() <= bytes_mut_max(),
    ensures
        bytes_mut_contents(*final(bytes)) == bytes_mut_contents(*old(bytes)) + extend@,
{
    bytes.extend_from_slice(extend)
}

} // verus!
