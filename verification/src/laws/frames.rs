//! What writing a frame to a buffer and reading one from it do, byte by byte.
use crate::buffers::{ByteSink, ByteSource};
use crate::error::RkyvCodecError;
use crate::frame;
use crate::length_codec::LengthCodec;
use crate::outside::{aligned_vec, byte_buffers};
use bytes::BytesMut;
use rkyv::util::AlignedVec;
use vstd::prelude::*;

verus! {

/// Writing a frame always succeeds, and adds the encoded length and behind it the
/// archive, byte for byte.
pub proof fn law_sink_appends<L: LengthCodec, B: ByteSink>(
    bytes: &mut B,
    archived: &[u8],
    result: Result<(), RkyvCodecError<L>>,
)
    requires
        call_ensures(frame::archive_sink_bytes::<L>, (bytes, archived), result),
    ensures
        result is Ok,
        final(bytes).written() == old(bytes).written() + L::encoding(archived@.len() as usize)
            + archived@,
        final(bytes).room() == old(bytes).room() - L::encoding(archived@.len() as usize).len()
            - archived@.len(),
{
    assert(final(bytes).written() =~= old(bytes).written() + L::encoding(archived@.len() as usize)
        + archived@);
}

/// A frame can be written wherever the buffer then holds at most a quarter of
/// `isize::MAX` bytes.
pub proof fn law_sink_admits<L: LengthCodec>(bytes: &mut BytesMut, archived: &[u8])
    requires
        byte_buffers::bytes_mut_contents(*bytes).len() + L::encoding(archived@.len() as usize).len()
            + archived@.len() <= isize::MAX / 4,
    ensures
        call_requires(frame::archive_sink_bytes::<L>, (bytes, archived)),
{
}

/// Where the length that is read is `length`, and takes up `used` bytes, the
/// archive is the next `length` bytes, neither more nor fewer; where there are
/// not so many, the error says how many are wanted and how many there are, and
/// they stay; and where no length is read, the error is that of the length.
pub proof fn law_reads<'b, L: LengthCodec, B: ByteSource>(
    bytes: &mut B,
    buffer: &'b mut AlignedVec,
    result: Result<&'b [u8], RkyvCodecError<L>>,
)
    requires
        call_ensures(frame::archive_stream_bytes::<L>, (bytes, buffer), result),
    ensures
        ({
            let rest = old(bytes).rest();
            let used = L::reading(rest).1 as int;
            let held = aligned_vec::aligned_contents(*final(buffer));
            let before = aligned_vec::aligned_contents(*old(buffer));
            match L::reading(rest).0 {
                Err(fault) => {
                    &&& result matches Err(RkyvCodecError::ReadLengthError(error))
                    &&& error == fault
                    &&& final(bytes).rest() == rest.skip(used)
                    &&& *final(buffer) == *old(buffer)
                },
                Ok(length) => if used + length <= rest.len() {
                    &&& result matches Ok(archived)
                    &&& archived@ == rest.subrange(used, used + length)
                    &&& held == rest.subrange(used, used + length)
                    &&& final(bytes).rest() == rest.skip(used + length)
                } else {
                    &&& result matches Err(RkyvCodecError::LengthTooLong { requested, available })
                    &&& requested == length
                    &&& available == rest.len() - used
                    &&& final(bytes).rest() == rest.skip(used)
                    &&& held.len() == length
                    &&& forall|i: int|
                        0 <= i < length ==> #[trigger] held[i] == if i < before.len() {
                            before[i]
                        } else {
                            0
                        }
                },
            }
        }),
{
    lemma_reading_frame::<L>(old(bytes).rest());
}

/// What reading one frame gives, in terms of the length at its front.
proof fn lemma_reading_frame<L: LengthCodec>(rest: Seq<u8>)
    ensures
        ({
            let used = L::reading(rest).1 as int;
            &&& used <= rest.len()
            &&& rest.skip(used).len() == rest.len() - used
            &&& L::reading(rest).0 matches Ok(length) ==> used + length <= rest.len() ==> {
                &&& frame::frame_reading::<L>(rest).0 matches Ok(read)
                &&& read == rest.subrange(used, used + length)
                &&& frame::frame_reading::<L>(rest).1 == rest.skip(used + length)
            }
        }),
{
    L::decoding_within(rest);
    let used = L::reading(rest).1 as int;
    if let Ok(length) = L::reading(rest).0 {
        if used + length <= rest.len() {
            let body = rest.skip(used);
            assert(body.take(length as int) =~= rest.subrange(used, used + length));
            assert(body.skip(length as int) =~= rest.skip(used + length));
        }
    }
}

/// Unchecked reading gives the archive of a frame that is there as a whole, or the
/// error of its length.
pub proof fn law_unsafe_reads<'b, L: LengthCodec, B: ByteSource>(
    bytes: &mut B,
    buffer: &'b mut AlignedVec,
    result: Result<&'b [u8], RkyvCodecError<L>>,
)
    requires
        call_ensures(frame::archive_stream_bytes_unsafe::<L>, (bytes, buffer), result),
        L::reading(bytes.rest()).0 matches Ok(length) ==> L::reading(bytes.rest()).1 + length
            <= bytes.rest().len(),
    ensures
        ({
            let rest = old(bytes).rest();
            let used = L::reading(rest).1 as int;
            match L::reading(rest).0 {
                Err(fault) => {
                    &&& result matches Err(RkyvCodecError::ReadLengthError(error))
                    &&& error == fault
                    &&& final(bytes).rest() == rest.skip(used)
                    &&& *final(buffer) == *old(buffer)
                },
                Ok(length) => {
                    &&& result matches Ok(archived)
                    &&& archived@ == rest.subrange(used, used + length)
                    &&& aligned_vec::aligned_contents(*final(buffer)) == rest.subrange(
                        used,
                        used + length,
                    )
                    &&& final(bytes).rest() == rest.skip(used + length)
                },
            }
        }),
{
    lemma_reading_frame::<L>(old(bytes).rest());
}

/// Reading within bounds is reading, wherever a packet buffer can have the
/// length; and it is nothing, with only the length taken off, wherever it
/// cannot.
pub proof fn law_bounded_reads<'b, L: LengthCodec, B: ByteSource>(
    bytes: &mut B,
    buffer: &'b mut AlignedVec,
    result: Option<Result<&'b [u8], RkyvCodecError<L>>>,
)
    requires
        call_ensures(frame::archive_stream_bytes_bounded::<L>, (bytes, buffer), result),
    ensures
        ({
            let rest = old(bytes).rest();
            let used = L::reading(rest).1 as int;
            let held = aligned_vec::aligned_contents(*final(buffer));
            let before = aligned_vec::aligned_contents(*old(buffer));
            match L::reading(rest).0 {
                Err(fault) => {
                    &&& result matches Some(Err(RkyvCodecError::ReadLengthError(error)))
                    &&& error == fault
                    &&& final(bytes).rest() == rest.skip(used)
                    &&& *final(buffer) == *old(buffer)
                },
                Ok(length) => if length > isize::MAX - 15 {
                    &&& result is None
                    &&& final(bytes).rest() == rest.skip(used)
                    &&& *final(buffer) == *old(buffer)
                } else if used + length <= rest.len() {
                    &&& result matches Some(Ok(archived))
                    &&& archived@ == rest.subrange(used, used + length)
                    &&& held == rest.subrange(used, used + length)
                    &&& final(bytes).rest() == rest.skip(used + length)
                } else {
                    &&& result matches Some(
                        Err(RkyvCodecError::LengthTooLong { requested, available }),
                    )
                    &&& requested == length
                    &&& available == rest.len() - used
                    &&& final(bytes).rest() == rest.skip(used)
                    &&& held.len() == length
                    &&& forall|i: int|
                        0 <= i < length ==> #[trigger] held[i] == if i < before.len() {
                            before[i]
                        } else {
                            0
                        }
                },
            }
        }),
{
    lemma_reading_frame::<L>(old(bytes).rest());
}

/// A frame can be read wherever a packet buffer can have its length; unchecked,
/// where moreover the frame is not cut short; and within bounds, always.
pub proof fn law_reading_admits<L: LengthCodec, B: ByteSource>(
    bytes: &mut B,
    buffer: &mut AlignedVec,
)
    ensures
        ({
            let rest = old(bytes).rest();
            let used = L::reading(rest).1 as int;
            &&& call_requires(frame::archive_stream_bytes_bounded::<L>, (bytes, buffer))
            &&& (L::reading(rest).0 matches Ok(length) ==> length <= isize::MAX - 15)
                ==> call_requires(frame::archive_stream_bytes::<L>, (bytes, buffer))
            &&& (L::reading(rest).0 matches Ok(length) ==> length <= isize::MAX - 15 && used
                + length <= rest.len()) ==> call_requires(
                frame::archive_stream_bytes_unsafe::<L>,
                (bytes, buffer),
            )
        }),
{
    L::decoding_within(old(bytes).rest());
}

/// An archive of up to `isize::MAX - 15` bytes, in front of whatever follows it,
/// comes back from its frame, and leaves what follows.
pub proof fn law_frame_is_read_within_bounds<'b, L: LengthCodec, B: ByteSource>(
    archived: Seq<u8>,
    tail: Seq<u8>,
    bytes: &mut B,
    buffer: &'b mut AlignedVec,
    result: Option<Result<&'b [u8], RkyvCodecError<L>>>,
)
    requires
        archived.len() <= isize::MAX - 15,
        L::readable(archived.len() as usize),
        bytes.rest() == L::encoding(archived.len() as usize) + archived + tail,
        call_ensures(frame::archive_stream_bytes_bounded::<L>, (bytes, buffer), result),
    ensures
        result matches Some(Ok(read)) && read@ == archived,
        final(bytes).rest() == tail,
        aligned_vec::aligned_contents(*final(buffer)) == archived,
        frame::length_in_bounds::<L>(L::encoding(archived.len() as usize) + archived + tail),
{
    let length = archived.len() as usize;
    let encoded = L::encoding(length);
    let rest = old(bytes).rest();
    assert(rest =~= encoded + (archived + tail));
    L::encoding_reads(length, archived + tail);
    law_bounded_reads::<L, B>(bytes, buffer, result);
    let used = encoded.len() as int;
    assert(rest.subrange(used, used + length) =~= archived);
    assert(rest.skip(used + length) =~= tail);
}

/// What was written to a buffer is read from it: the archive, all of it, and the
/// buffer is then as empty as it was.
pub proof fn law_written_is_read<'b, L: LengthCodec>(
    archived: &[u8],
    writing: &mut BytesMut,
    written: Result<(), RkyvCodecError<L>>,
    reading: &mut BytesMut,
    buffer: &'b mut AlignedVec,
    read: Result<&'b [u8], RkyvCodecError<L>>,
)
    requires
        archived@.len() <= usize::MAX,
        L::readable(archived@.len() as usize),
        byte_buffers::bytes_mut_contents(*writing).len() == 0,
        call_ensures(frame::archive_sink_bytes::<L>, (writing, archived), written),
        *reading == *final(writing),
        call_ensures(frame::archive_stream_bytes::<L>, (reading, buffer), read),
    ensures
        read matches Ok(found) && found@ == archived@,
        byte_buffers::bytes_mut_contents(*final(reading)).len() == 0,
{
    let length = archived@.len() as usize;
    let rest = reading.rest();
    let encoded = L::encoding(length);
    law_sink_appends::<L, BytesMut>(writing, archived, written);
    assert(rest =~= encoded + archived@);
    L::encoding_reads(length, archived@);
    law_reads::<L, BytesMut>(reading, buffer, read);
    let used = encoded.len() as int;
    assert(rest.subrange(used, used + length) =~= archived@);
}

} // verus!
