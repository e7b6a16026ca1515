//! Frames in byte buffers: a length prefix and the archive it measures.
use crate::buffers::{ByteSink, ByteSource};
use crate::error::RkyvCodecError;
use crate::length_codec::LengthCodec;
use crate::outside::aligned_vec;
use rkyv::util::AlignedVec;
use vstd::prelude::*;

verus! {

/// The frame of an archive.
pub open spec fn frame<L: LengthCodec>(archived: Seq<u8>) -> Seq<u8> {
    L::encoding(archived.len() as usize) + archived
}

/// What a buffer that held `before` holds once the frame of an archive was
/// appended to it.
pub open spec fn appended<L: LengthCodec>(before: Seq<u8>, archived: Seq<u8>) -> Seq<u8> {
    before + frame::<L>(archived)
}

/// What reading one frame from a buffer that holds `bytes` gives: the archive
/// or an error, and what the buffer then holds.
pub open spec fn frame_reading<L: LengthCodec>(bytes: Seq<u8>) -> (
    Result<Seq<u8>, RkyvCodecError<L>>,
    Seq<u8>,
) {
    let (length, used) = L::reading(bytes);
    let body = bytes.skip(used as int);
    match length {
        Err(error) => (Err(RkyvCodecError::ReadLengthError(error)), body),
        Ok(length) => if length > body.len() {
            (
                Err(
                    RkyvCodecError::LengthTooLong {
                        requested: length,
                        available: body.len() as usize,
                    },
                ),
                body,
            )
        } else {
            (Ok(body.take(length as int)), body.skip(length as int))
        },
    }
}

/// Whether the length in front of `bytes`, if there is one, is one that a
/// packet buffer can have.
pub open spec fn length_in_bounds<L: LengthCodec>(bytes: Seq<u8>) -> bool {
    L::reading(bytes).0 matches Ok(length) ==> length <= aligned_vec::aligned_max()
}

/// What the packet buffer that held `before` holds after a frame was read from
/// `bytes`: the archive; where the frame is cut short, what fits the frame's
/// length; and where there is no length, what it held.
pub open spec fn buffer_after<L: LengthCodec>(bytes: Seq<u8>, before: Seq<u8>) -> Seq<u8> {
    match (frame_reading::<L>(bytes).0, L::reading(bytes).0) {
        (Ok(archived), _) => archived,
        (Err(_), Ok(length)) => aligned_vec::resized(before, length as nat, 0),
        (Err(_), Err(_)) => before,
    }
}

/// Writes the frame of an archive to the end of `bytes`.
pub fn archive_sink_bytes<L: LengthCodec>(
    bytes: &mut impl ByteSink,
    archived: &[u8],
) -> (result: Result<(), RkyvCodecError<L>>)
    requires
        frame::<L>(archived@).len() <= old(bytes).room(),
    ensures
        result is Ok,
        final(bytes).written() == appended::<L>(old(bytes).written(), archived@),
        final(bytes).room() == old(bytes).room() - frame::<L>(archived@).len(),
{
    let mut length_buf = L::Buffer::default();
    let length_buf = L::encode(archived.len(), &mut length_buf);
    bytes.put(length_buf);
    bytes.put(archived);
    assert(bytes.written() =~= appended::<L>(old(bytes).written(), archived@));
    Ok(())
}

/// Reads the length of a frame from the front of `bytes`.
fn read_length<L: LengthCodec>(bytes: &mut impl ByteSource) -> (result: Result<
    usize,
    RkyvCodecError<L>,
>)
    ensures
        match result {
            Ok(length) => L::reading(old(bytes).rest()).0 matches Ok(read) && length == read,
            Err(error) => {
                &&& L::reading(old(bytes).rest()).0 matches Err(fault)
                &&& error == RkyvCodecError::<L>::ReadLengthError(fault)
            },
        },
        final(bytes).rest() == old(bytes).rest().skip(L::reading(old(bytes).rest()).1 as int),
{
    match L::decode_bytes(bytes) {
        Ok(length) => Ok(length),
        Err(error) => Err(RkyvCodecError::ReadLengthError(error)),
    }
}

/// Reads an archive of `archive_len` bytes, whose length was read before, from
/// the front of `bytes` into the passed buffer.
fn read_archive<'b, L: LengthCodec>(
    bytes: &mut impl ByteSource,
    archive_len: usize,
    buffer: &'b mut AlignedVec,
) -> (result: Result<&'b [u8], RkyvCodecError<L>>)
    requires
        archive_len <= aligned_vec::aligned_max(),
    ensures
        ({
            let rest = old(bytes).rest();
            let held = aligned_vec::aligned_contents(*final(buffer));
            match result {
                Ok(archived) => {
                    &&& archive_len <= rest.len()
                    &&& archived@ == rest.take(archive_len as int)
                    &&& final(bytes).rest() == rest.skip(archive_len as int)
                    &&& held == archived@
                },
                Err(error) => {
                    &&& archive_len > rest.len()
                    &&& error matches RkyvCodecError::LengthTooLong { requested, available }
                    &&& requested == archive_len
                    &&& available == rest.len()
                    &&& final(bytes).rest() == rest
                    &&& held == aligned_vec::resized(
                        aligned_vec::aligned_contents(*old(buffer)),
                        archive_len as nat,
                        0,
                    )
                },
            }
        }),
{
    let held: usize = aligned_vec::aligned_len(buffer);
    aligned_vec::aligned_reserve_exact(buffer, archive_len.saturating_sub(held));
    aligned_vec::aligned_resize(buffer, archive_len, 0);
    match bytes.try_copy_to_slice(aligned_vec::aligned_as_mut_slice(buffer)) {
        Ok(()) => Ok(aligned_vec::aligned_as_slice(buffer)),
        Err(error) => Err(
            RkyvCodecError::LengthTooLong {
                requested: error.requested,
                available: error.available,
            },
        ),
    }
}

/// Reads a single archive from the front of `bytes` into the passed buffer.
///
/// The archive is not looked into: whoever accesses it unchecked relies on the
/// bytes being a frame that this library wrote with the same length codec.
pub fn archive_stream_bytes_unsafe<'b, L: LengthCodec>(
    bytes: &mut impl ByteSource,
    buffer: &'b mut AlignedVec,
) -> (result: Result<&'b [u8], RkyvCodecError<L>>)
    requires
        length_in_bounds::<L>(old(bytes).rest()),
        !(frame_reading::<L>(old(bytes).rest()).0 matches Err(
            RkyvCodecError::LengthTooLong { .. },
        )),
    ensures
        match result {
            Ok(archived) => frame_reading::<L>(old(bytes).rest()).0 matches Ok(read)
                && archived@ == read,
            Err(error) => frame_reading::<L>(old(bytes).rest()).0 matches Err(fault)
                && error == fault,
        },
        final(bytes).rest() == frame_reading::<L>(old(bytes).rest()).1,
        aligned_vec::aligned_contents(*final(buffer)) == buffer_after::<L>(
            old(bytes).rest(),
            aligned_vec::aligned_contents(*old(buffer)),
        ),
        L::reading(old(bytes).rest()).0 is Err ==> *final(buffer) == *old(buffer),
{
    archive_stream_bytes::<L>(bytes, buffer)
}

/// Reads a single archive from the front of `bytes` into the passed buffer, to
/// be checked when it is accessed.
pub fn archive_stream_bytes<'b, L: LengthCodec>(
    bytes: &mut impl ByteSource,
    buffer: &'b mut AlignedVec,
) -> (result: Result<&'b [u8], RkyvCodecError<L>>)
    requires
        length_in_bounds::<L>(old(bytes).rest()),
    ensures
        match result {
            Ok(archived) => frame_reading::<L>(old(bytes).rest()).0 matches Ok(read)
                && archived@ == read,
            Err(error) => frame_reading::<L>(old(bytes).rest()).0 matches Err(fault)
                && error == fault,
        },
        final(bytes).rest() == frame_reading::<L>(old(bytes).rest()).1,
        aligned_vec::aligned_contents(*final(buffer)) == buffer_after::<L>(
            old(bytes).rest(),
            aligned_vec::aligned_contents(*old(buffer)),
        ),
        L::reading(old(bytes).rest()).0 is Err ==> *final(buffer) == *old(buffer),
{
    match read_length::<L>(bytes) {
        Ok(archive_len) => read_archive::<L>(bytes, archive_len, buffer),
        Err(error) => Err(error),
    }
}

/// Reads a single archive from the front of `bytes` into the passed buffer, as
/// [`archive_stream_bytes`] does, or nothing where the frame's length is more
/// than a packet buffer can have: then only the length is taken off.
pub fn archive_stream_bytes_bounded<'b, L: LengthCodec>(
    bytes: &mut impl ByteSource,
    buffer: &'b mut AlignedVec,
) -> (result: Option<Result<&'b [u8], RkyvCodecError<L>>>)
    ensures
        result is Some <==> length_in_bounds::<L>(old(bytes).rest()),
        match result {
            Some(Ok(archived)) => frame_reading::<L>(old(bytes).rest()).0 matches Ok(read)
                && archived@ == read,
            Some(Err(error)) => frame_reading::<L>(old(bytes).rest()).0 matches Err(fault)
                && error == fault,
            None => true,
        },
        final(bytes).rest() == if result is Some {
            frame_reading::<L>(old(bytes).rest()).1
        } else {
            old(bytes).rest().skip(L::reading(old(bytes).rest()).1 as int)
        },
        result is Some ==> aligned_vec::aligned_contents(*final(buffer)) == buffer_after::<L>(
            old(bytes).rest(),
            aligned_vec::aligned_contents(*old(buffer)),
        ),
        result is None || L::reading(old(bytes).rest()).0 is Err ==> *final(buffer) == *old(
            buffer,
        ),
{
    let largest: usize = (isize::MAX - 15) as usize;
    match read_length::<L>(bytes) {
        Ok(archive_len) => if archive_len <= largest {
            Some(read_archive::<L>(bytes, archive_len, buffer))
        } else {
            None
        },
        Err(error) => Some(Err(error)),
    }
}

} // verus!
