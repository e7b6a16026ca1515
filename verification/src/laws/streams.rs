//! What is written to a stream for a frame and read from it.
use crate::error::RkyvCodecError;
use crate::length_codec::{LengthCodec, LengthReader, WithIOError};
use crate::outside::aligned_vec;
use crate::rkyv_codec;
use rkyv::util::AlignedVec;
use vstd::prelude::*;

verus! {

/// The bytes written to a stream for an archive are the encoded length and the
/// archive itself.
pub proof fn law_sink_writes<'a, L: LengthCodec>(
    archived: &'a [u8],
    length_buffer: &'a mut L::Buffer,
    writes: (&'a [u8], &'a [u8]),
)
    requires
        call_ensures(rkyv_codec::archive_sink::<L>, (archived, length_buffer), writes),
    ensures
        writes.0@ == L::encoding(archived@.len() as usize),
        writes.1@ == archived@,
{
}

/// The stream is given exactly as much room as the length says, and what it puts
/// there is what the buffer then holds; where there is no length, there is no
/// room, the buffer is empty, and the error is handed on.
pub proof fn law_stream_fills<'b, L: LengthCodec>(
    length: Result<usize, WithIOError<L::Error>>,
    buffer: &'b mut AlignedVec,
    result: Result<&'b mut [u8], RkyvCodecError<L>>,
)
    requires
        call_ensures(rkyv_codec::archive_stream::<L>, (length, buffer), result),
    ensures
        match (length, result) {
            (Ok(archive_len), Ok(space)) => {
                &&& space@.len() == archive_len
                &&& aligned_vec::aligned_contents(*final(buffer)) == final(space)@
                &&& forall|i: int| 0 <= i < archive_len ==> #[trigger] space@[i] == 0
            },
            (Err(WithIOError::IoError(cause)), Err(RkyvCodecError::IoError(error))) => {
                &&& error == cause
                &&& aligned_vec::aligned_contents(*final(buffer)).len() == 0
            },
            (
                Err(WithIOError::LengthDecodeError(cause)),
                Err(RkyvCodecError::ReadLengthError(error)),
            ) => {
                &&& error == cause
                &&& aligned_vec::aligned_contents(*final(buffer)).len() == 0
            },
            _ => false,
        },
{
}

/// Without a check to follow, the stream is given the same room.
pub proof fn law_unsafe_stream_fills<'b, L: LengthCodec>(
    length: Result<usize, WithIOError<L::Error>>,
    buffer: &'b mut AlignedVec,
    result: Result<&'b mut [u8], RkyvCodecError<L>>,
)
    requires
        call_ensures(rkyv_codec::archive_stream_unsafe::<L>, (length, buffer), result),
    ensures
        match (length, result) {
            (Ok(archive_len), Ok(space)) => {
                &&& space@.len() == archive_len
                &&& aligned_vec::aligned_contents(*final(buffer)) == final(space)@
                &&& forall|i: int| 0 <= i < archive_len ==> #[trigger] space@[i] == 0
            },
            (Err(WithIOError::IoError(cause)), Err(RkyvCodecError::IoError(error))) => {
                &&& error == cause
                &&& aligned_vec::aligned_contents(*final(buffer)).len() == 0
            },
            (
                Err(WithIOError::LengthDecodeError(cause)),
                Err(RkyvCodecError::ReadLengthError(error)),
            ) => {
                &&& error == cause
                &&& aligned_vec::aligned_contents(*final(buffer)).len() == 0
            },
            _ => false,
        },
{
}

/// Room is made for every length that a packet buffer can have, and every error
/// is handed on.
pub proof fn law_stream_admits<L: LengthCodec>(
    length: Result<usize, WithIOError<L::Error>>,
    buffer: &mut AlignedVec,
)
    requires
        length matches Ok(archive_len) ==> archive_len <= isize::MAX - 15,
    ensures
        call_requires(rkyv_codec::archive_stream::<L>, (length, buffer)),
        call_requires(rkyv_codec::archive_stream_unsafe::<L>, (length, buffer)),
{
}

/// A reader that was fed bytes in two portions gives the length that decoding
/// both together gives, or its error.
pub proof fn law_reader_decodes<L: LengthCodec>(
    fresh: LengthReader<L>,
    first: &mut LengthReader<L>,
    front: &[u8],
    second: &mut LengthReader<L>,
    back: &[u8],
    finished: Result<usize, WithIOError<L::Error>>,
    buffer: &[u8],
    decoded: Result<(usize, &[u8]), L::Error>,
)
    requires
        call_ensures(LengthReader::<L>::new, (), fresh),
        *first == fresh,
        call_ensures(LengthReader::<L>::feed, (first, front), ()),
        *second == *final(first),
        call_ensures(LengthReader::<L>::feed, (second, back), ()),
        call_ensures(LengthReader::<L>::finish, (final(second),), finished),
        buffer@ == front@ + back@,
        call_ensures(L::decode, (buffer,), decoded),
    ensures
        match (decoded, finished) {
            (Ok((length, _)), Ok(read)) => read == length,
            (Err(cause), Err(WithIOError::LengthDecodeError(error))) => error == cause,
            _ => false,
        },
{
    assert(final(second).fed() =~= buffer@);
}

/// A reader asks for what the length codec asks for after the bytes it was fed.
pub proof fn law_reader_wants<L: LengthCodec>(
    fresh: LengthReader<L>,
    reader: &mut LengthReader<L>,
    bytes: &[u8],
    wanted: usize,
    count: usize,
)
    requires
        call_ensures(LengthReader::<L>::new, (), fresh),
        *reader == fresh,
        call_ensures(LengthReader::<L>::feed, (reader, bytes), ()),
        call_ensures(LengthReader::<L>::wanted, (final(reader),), wanted),
        call_ensures(L::wanted, (bytes,), count),
    ensures
        wanted == count,
{
    assert(final(reader).fed() =~= bytes@);
}

/// An archive of any length can be written, and a reader can be fed and asked at
/// any time.
pub proof fn law_streams_admit<L: LengthCodec>(
    archived: &[u8],
    length_buffer: &mut L::Buffer,
    reader: &mut LengthReader<L>,
)
    ensures
        call_requires(rkyv_codec::archive_sink::<L>, (archived, length_buffer)),
        call_requires(LengthReader::<L>::new, ()),
        call_requires(LengthReader::<L>::feed, (reader, archived)),
        call_requires(LengthReader::<L>::wanted, (old(reader),)),
        call_requires(LengthReader::<L>::finish, (old(reader),)),
{
}

} // verus!
