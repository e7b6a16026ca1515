//! What encoding packets into a buffer and decoding them from it do, call by
//! call.
use crate::error::RkyvCodecError;
use crate::frame;
use crate::framed_codec;
use crate::framed_codec::RkyvCodec;
use crate::length_codec::LengthCodec;
use crate::outside::byte_buffers;
use bytes::BytesMut;
use rkyv::rancor;
use vstd::prelude::*;

verus! {

/// Encoding adds the encoded length and behind it the archive, byte for byte; or,
/// where the packet could not be serialized, adds nothing and hands the error
/// on.
pub proof fn law_encodes<Packet, L: LengthCodec>(
    codec: &mut RkyvCodec<Packet, L>,
    serialized: Result<&[u8], rancor::Error>,
    buf: &mut BytesMut,
    result: Result<(), RkyvCodecError<L>>,
)
    requires
        call_ensures(RkyvCodec::<Packet, L>::encode, (codec, serialized, buf), result),
    ensures
        *final(codec) == *old(codec),
        match (serialized, result) {
            (Ok(archived), Ok(())) => byte_buffers::bytes_mut_contents(*final(buf))
                == byte_buffers::bytes_mut_contents(*old(buf)) + L::encoding(
                archived@.len() as usize,
            ) + archived@,
            (Err(cause), Err(RkyvCodecError::CheckArchiveError(error))) => {
                &&& error == cause
                &&& byte_buffers::bytes_mut_contents(*final(buf))
                    == byte_buffers::bytes_mut_contents(*old(buf))
            },
            _ => false,
        },
{
    if let Ok(archived) = serialized {
        let before = byte_buffers::bytes_mut_contents(*old(buf));
        let encoded = L::encoding(archived@.len() as usize);
        assert(before + encoded + archived@ =~= before + (encoded + archived@));
    }
}

/// There is room exactly as long as the buffer holds at most a quarter of
/// `isize::MAX` bytes with the frame in it; then the frame can be encoded.
pub proof fn law_room<Packet, L: LengthCodec>(
    buf: &mut BytesMut,
    archived: &[u8],
    fits: bool,
    codec: &mut RkyvCodec<Packet, L>,
    fault: rancor::Error,
)
    requires
        call_ensures(RkyvCodec::<Packet, L>::has_room, (old(buf), archived), fits),
    ensures
        fits <==> byte_buffers::bytes_mut_contents(*old(buf)).len() + L::encoding(
            archived@.len() as usize,
        ).len() + archived@.len() <= isize::MAX / 4,
        fits ==> call_requires(RkyvCodec::<Packet, L>::encode, (codec, Ok(archived), buf)),
        call_requires(RkyvCodec::<Packet, L>::encode, (codec, Err(fault), buf)),
{
}

/// A buffer can be decoded from exactly where, behind the length that it begins
/// with, there are as many bytes as the length says, and no more than a packet
/// buffer can hold; and wherever it begins with no length.
pub proof fn law_holds_frame<Packet, L: LengthCodec>(buf: &BytesMut, complete: bool)
    requires
        call_ensures(RkyvCodec::<Packet, L>::holds_frame, (buf,), complete),
    ensures
        ({
            let bytes = byte_buffers::bytes_mut_contents(*buf);
            complete <==> match L::decoding(bytes) {
                Ok((length, used)) => used + length <= bytes.len() && length <= isize::MAX - 15,
                Err(_) => true,
            }
        }),
{
}

/// What can be decoded from is what `holds_frame` says can be.
pub proof fn law_decoding_admits<
    Packet,
    L: LengthCodec,
    F: FnOnce(&[u8]) -> Result<Packet, rancor::Error>,
>(codec: &mut RkyvCodec<Packet, L>, buf: &mut BytesMut, complete: bool, deserialize: F)
    requires
        call_ensures(RkyvCodec::<Packet, L>::holds_frame, (old(buf),), complete),
        complete,
        forall|archived: &[u8]| #[trigger] call_requires(deserialize, (archived,)),
    ensures
        call_requires(RkyvCodec::<Packet, L>::next_frame, (codec, old(buf))),
        call_requires(RkyvCodec::<Packet, L>::decode::<F>, (codec, buf, deserialize)),
{
}

/// A frame that is cut short is not there to be decoded: wherever its length is
/// there and some of its archive is missing, the buffer holds no frame.
pub proof fn law_cut_short_is_no_frame<Packet, L: LengthCodec>(
    archived: Seq<u8>,
    kept: nat,
    buf: &BytesMut,
    complete: bool,
)
    requires
        archived.len() <= usize::MAX,
        L::decodable(archived.len() as usize),
        L::encoding(archived.len() as usize).len() <= kept,
        kept < L::encoding(archived.len() as usize).len() + archived.len(),
        byte_buffers::bytes_mut_contents(*buf) == (L::encoding(archived.len() as usize)
            + archived).take(kept as int),
        call_ensures(RkyvCodec::<Packet, L>::holds_frame, (buf,), complete),
    ensures
        !complete,
        !framed_codec::frame_complete::<L>(frame::frame::<L>(archived).take(kept as int)),
{
    let length = archived.len() as usize;
    let encoded = L::encoding(length);
    let part = (encoded + archived).take(kept as int);
    let rest = archived.take(kept - encoded.len());
    assert(part =~= encoded + rest);
    L::encoding_decodes(length, rest);
    assert(frame::frame::<L>(archived) =~= encoded + archived);
}

/// A frame that is there as a whole can be decoded, whatever follows it.
pub proof fn law_whole_is_a_frame<Packet, L: LengthCodec>(
    archived: Seq<u8>,
    tail: Seq<u8>,
    buf: &BytesMut,
    complete: bool,
)
    requires
        archived.len() <= isize::MAX - 15,
        L::decodable(archived.len() as usize),
        byte_buffers::bytes_mut_contents(*buf) == L::encoding(archived.len() as usize) + archived
            + tail,
        call_ensures(RkyvCodec::<Packet, L>::holds_frame, (buf,), complete),
    ensures
        complete,
{
    let length = archived.len() as usize;
    let encoded = L::encoding(length);
    assert(encoded + archived + tail =~= encoded + (archived + tail));
    L::encoding_decodes(length, archived + tail);
}

/// Finding the next frame copies the archive, which is the bytes that the length
/// in front of it measures, and counts the frame's bytes; an empty buffer has
/// none, and a bad length is an error.
pub proof fn law_next_frame<Packet, L: LengthCodec>(
    codec: &mut RkyvCodec<Packet, L>,
    buf: &BytesMut,
    result: Result<Option<usize>, RkyvCodecError<L>>,
    archived: &[u8],
)
    requires
        call_ensures(RkyvCodec::<Packet, L>::next_frame, (codec, buf), result),
        call_ensures(RkyvCodec::<Packet, L>::archive, (final(codec),), archived),
    ensures
        ({
            let bytes = byte_buffers::bytes_mut_contents(*buf);
            match (L::decoding(bytes), result) {
                (_, Ok(None)) => bytes.len() == 0 && final(codec).decoded() == old(codec).decoded(),
                (Ok((length, used)), Ok(Some(amount_read))) => {
                    &&& bytes.len() > 0
                    &&& amount_read == used + length
                    &&& archived@ == bytes.subrange(used as int, used + length)
                },
                (Err(fault), Err(RkyvCodecError::ReadLengthError(error))) => {
                    &&& bytes.len() > 0
                    &&& error == fault
                    &&& archived@.len() == 0
                },
                _ => false,
            }
        }),
{
}

/// A packet leaves the buffer with exactly its frame; where it could not be
/// deserialized, the buffer stays as it is and the error is handed on.
pub proof fn law_finish_decode<Packet, L: LengthCodec>(
    amount_read: usize,
    deserialized: Result<Packet, rancor::Error>,
    buf: &mut BytesMut,
    result: Result<Option<Packet>, RkyvCodecError<L>>,
)
    requires
        call_ensures(
            RkyvCodec::<Packet, L>::finish_decode,
            (amount_read, deserialized, buf),
            result,
        ),
    ensures
        match (deserialized, result) {
            (Ok(packet), Ok(Some(decoded))) => {
                &&& decoded == packet
                &&& byte_buffers::bytes_mut_contents(*final(buf))
                    == byte_buffers::bytes_mut_contents(*old(buf)).skip(amount_read as int)
            },
            (Err(cause), Err(RkyvCodecError::CheckArchiveError(error))) => {
                &&& error == cause
                &&& byte_buffers::bytes_mut_contents(*final(buf))
                    == byte_buffers::bytes_mut_contents(*old(buf))
            },
            _ => false,
        },
        amount_read <= byte_buffers::bytes_mut_contents(*old(buf)).len() ==> call_requires(
            RkyvCodec::<Packet, L>::finish_decode,
            (amount_read, deserialized, buf),
        ),
{
}

/// Decoding hands the bytes that the length measures to `deserialize`, and gives
/// what that gives: the packet, with its frame off the buffer, or the error, with
/// the buffer as it was. An empty buffer gives no packet, and a bad length its
/// error.
pub proof fn law_decodes<
    Packet,
    L: LengthCodec,
    F: FnOnce(&[u8]) -> Result<Packet, rancor::Error>,
>(
    codec: &mut RkyvCodec<Packet, L>,
    buf: &mut BytesMut,
    deserialize: F,
    model: spec_fn(Seq<u8>) -> Result<Packet, rancor::Error>,
    result: Result<Option<Packet>, RkyvCodecError<L>>,
)
    requires
        call_ensures(RkyvCodec::<Packet, L>::decode::<F>, (codec, buf, deserialize), result),
        forall|args: (&[u8],), outcome: Result<Packet, rancor::Error>| #[trigger]
            call_ensures(deserialize, args, outcome) ==> outcome == model(args.0@),
    ensures
        ({
            let bytes = byte_buffers::bytes_mut_contents(*old(buf));
            let left = byte_buffers::bytes_mut_contents(*final(buf));
            if bytes.len() == 0 {
                &&& result matches Ok(None)
                &&& left == bytes
                &&& final(codec).decoded() == old(codec).decoded()
            } else {
                match L::decoding(bytes) {
                    Err(fault) => {
                        &&& result matches Err(RkyvCodecError::ReadLengthError(error))
                        &&& error == fault
                        &&& left == bytes
                        &&& final(codec).decoded().len() == 0
                    },
                    Ok((length, used)) => {
                        let archived = bytes.subrange(used as int, used + length);
                        &&& final(codec).decoded() == archived
                        &&& match model(archived) {
                            Ok(packet) => {
                                &&& result matches Ok(Some(decoded))
                                &&& decoded == packet
                                &&& left == bytes.skip(used + length)
                            },
                            Err(cause) => {
                                &&& result matches Err(RkyvCodecError::CheckArchiveError(error))
                                &&& error == cause
                                &&& left == bytes
                            },
                        }
                    },
                }
            }
        }),
{
    assert(framed_codec::follows(deserialize, model));
}

/// What was encoded into an empty buffer is decoded from it: the packet whose
/// archive it was, and the buffer is then empty again.
pub proof fn law_encoded_is_decoded<
    Packet,
    L: LengthCodec,
    F: FnOnce(&[u8]) -> Result<Packet, rancor::Error>,
>(
    packet: Packet,
    archived: &[u8],
    encoder: &mut RkyvCodec<Packet, L>,
    encoding: &mut BytesMut,
    encoded: Result<(), RkyvCodecError<L>>,
    decoder: &mut RkyvCodec<Packet, L>,
    decoding: &mut BytesMut,
    deserialize: F,
    decoded: Result<Option<Packet>, RkyvCodecError<L>>,
)
    requires
        archived@.len() <= isize::MAX - 15,
        L::decodable(archived@.len() as usize),
        byte_buffers::bytes_mut_contents(*encoding).len() == 0,
        call_ensures(RkyvCodec::<Packet, L>::encode, (encoder, Ok(archived), encoding), encoded),
        *decoding == *final(encoding),
        forall|args: (&[u8],), outcome: Result<Packet, rancor::Error>| #[trigger]
            call_ensures(deserialize, args, outcome) ==> args.0@ == archived@ ==> outcome == Ok::<
                Packet,
                rancor::Error,
            >(packet),
        call_ensures(
            RkyvCodec::<Packet, L>::decode::<F>,
            (decoder, decoding, deserialize),
            decoded,
        ),
    ensures
        encoded is Ok,
        decoded matches Ok(Some(found)) && found == packet,
        byte_buffers::bytes_mut_contents(*final(decoding)).len() == 0,
{
    let length = archived@.len() as usize;
    let bytes = byte_buffers::bytes_mut_contents(*decoding);
    law_encodes::<Packet, L>(encoder, Ok(archived), encoding, encoded);
    assert(bytes =~= L::encoding(length) + archived@);
    L::encoding_decodes(length, archived@);
    L::decoding_within(bytes);
    let used = L::encoding(length).len() as int;
    assert(bytes.subrange(used, used + length) =~= archived@);
    assert(bytes.skip(used + length).len() == 0);
}

/// A new codec has decoded nothing yet.
pub proof fn law_new_codec<Packet, L: LengthCodec>(codec: RkyvCodec<Packet, L>, archived: &[u8])
    requires
        call_ensures(<RkyvCodec<Packet, L> as Default>::default, (), codec),
        call_ensures(RkyvCodec::<Packet, L>::archive, (&codec,), archived),
    ensures
        archived@.len() == 0,
{
}

/// A codec can be made, and any buffer asked about.
pub proof fn law_codec_admits<Packet, L: LengthCodec>(
    codec: RkyvCodec<Packet, L>,
    buf: &BytesMut,
    archived: &[u8],
)
    ensures
        call_requires(<RkyvCodec<Packet, L> as Default>::default, ()),
        call_requires(RkyvCodec::<Packet, L>::has_room, (buf, archived)),
        call_requires(RkyvCodec::<Packet, L>::holds_frame, (buf,)),
        call_requires(RkyvCodec::<Packet, L>::archive, (&codec,)),
{
}

} // verus!
