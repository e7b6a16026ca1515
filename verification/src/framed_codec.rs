//! Frames in a growing buffer, as an encoder and a decoder of packets.
use crate::error::RkyvCodecError;
use crate::frame;
use crate::length_codec::LengthCodec;
use crate::outside::{aligned_vec, byte_buffers};
use bytes::BytesMut;
use core::marker::PhantomData;
use rkyv::rancor;
use rkyv::util::AlignedVec;
use vstd::prelude::*;

verus! {

/// Where the archive of the first frame in `bytes` begins and ends, or why
/// there is none.
pub open spec fn frame_bounds<L: LengthCodec>(bytes: Seq<u8>) -> Result<
    (nat, nat),
    RkyvCodecError<L>,
> {
    match L::decoding(bytes) {
        Ok((length, used)) => Ok((used, used + length as nat)),
        Err(error) => Err(RkyvCodecError::ReadLengthError(error)),
    }
}

/// Whether the first frame in `bytes`, if it has a length, is there as a whole
/// and is one that a packet buffer can hold.
pub open spec fn frame_complete<L: LengthCodec>(bytes: Seq<u8>) -> bool {
    frame_bounds::<L>(bytes) matches Ok((start, end)) ==> {
        &&& end <= bytes.len()
        &&& end - start <= aligned_vec::aligned_max()
    }
}

/// What decoding from a buffer that holds `bytes` gives, where `model` says what
/// an archive is turned into, and what the buffer then holds.
pub open spec fn packet_decoding<Packet, L: LengthCodec>(
    bytes: Seq<u8>,
    model: spec_fn(Seq<u8>) -> Result<Packet, rancor::Error>,
) -> (Result<Option<Packet>, RkyvCodecError<L>>, Seq<u8>) {
    match frame_bounds::<L>(bytes) {
        _ if bytes.len() == 0 => (Ok(None), bytes),
        Err(error) => (Err(error), bytes),
        Ok((start, end)) => match model(bytes.subrange(start as int, end as int)) {
            Ok(packet) => (Ok(Some(packet)), bytes.skip(end as int)),
            Err(error) => (Err(RkyvCodecError::CheckArchiveError(error)), bytes),
        },
    }
}

/// Whether `deserialize` turns each archive into what `model` says.
pub open spec fn follows<Packet, F: FnOnce(&[u8]) -> Result<Packet, rancor::Error>>(
    deserialize: F,
    model: spec_fn(Seq<u8>) -> Result<Packet, rancor::Error>,
) -> bool {
    forall|args: (&[u8],), outcome: Result<Packet, rancor::Error>| #[trigger]
        call_ensures(deserialize, args, outcome) ==> outcome == model(args.0@)
}

/// Encodes packets to frames and decodes frames to packets.
pub struct RkyvCodec<Packet, L: LengthCodec> {
    _data: PhantomData<Packet>,
    _length: PhantomData<L>,
    decode_buffer: AlignedVec,
}

impl<Packet, L: LengthCodec> Default for RkyvCodec<Packet, L> {
    fn default() -> (codec: Self)
        ensures
            codec.decoded() == Seq::<u8>::empty(),
    {
        RkyvCodec {
            _data: PhantomData,
            _length: PhantomData,
            decode_buffer: aligned_vec::aligned_new(),
        }
    }
}

impl<Packet, L: LengthCodec> RkyvCodec<Packet, L> {
    /// The archive that was decoded last.
    pub closed spec fn decoded(&self) -> Seq<u8> {
        aligned_vec::aligned_contents(self.decode_buffer)
    }

    /// Whether `buf` can take the frame of an archive.
    pub fn has_room(buf: &BytesMut, archived: &[u8]) -> (fits: bool)
        ensures
            fits == (byte_buffers::bytes_mut_contents(*buf).len() + frame::frame::<L>(
                archived@,
            ).len() <= byte_buffers::bytes_mut_max()),
    {
        let mut length_buffer = L::Buffer::default();
        let encoded: usize = L::encode(archived.len(), &mut length_buffer).len();
        let held: usize = byte_buffers::bytes_mut_as_slice(buf).len();
        let largest: usize = (isize::MAX / 4) as usize;
        held <= largest && encoded <= largest - held && archived.len() <= largest - held - encoded
    }

    /// Writes a packet's frame to the end of `buf`, given the packet's archive;
    /// or hands on the error where the packet could not be serialized.
    pub fn encode(
        &mut self,
        serialized: Result<&[u8], rancor::Error>,
        buf: &mut BytesMut,
    ) -> (result: Result<(), RkyvCodecError<L>>)
        requires
            serialized matches Ok(archived) ==> byte_buffers::bytes_mut_contents(*old(buf)).len()
                + frame::frame::<L>(archived@).len() <= byte_buffers::bytes_mut_max(),
        ensures
            *final(self) == *old(self),
            match serialized {
                Ok(archived) => {
                    &&& result is Ok
                    &&& byte_buffers::bytes_mut_contents(*final(buf)) == frame::appended::<L>(
                        byte_buffers::bytes_mut_contents(*old(buf)),
                        archived@,
                    )
                },
                Err(error) => {
                    &&& result matches Err(RkyvCodecError::CheckArchiveError(fault))
                    &&& fault == error
                    &&& byte_buffers::bytes_mut_contents(*final(buf))
                        == byte_buffers::bytes_mut_contents(*old(buf))
                },
            },
    {
        match serialized {
            Ok(archived) => {
                let mut length_buffer = L::Buffer::default();
                let length_buffer = L::encode(archived.len(), &mut length_buffer);
                byte_buffers::bytes_mut_extend_from_slice(buf, length_buffer);
                byte_buffers::bytes_mut_extend_from_slice(buf, archived);
                assert(byte_buffers::bytes_mut_contents(*buf) =~= frame::appended::<L>(
                    byte_buffers::bytes_mut_contents(*old(buf)),
                    archived@,
                ));
                Ok(())
            },
            Err(error) => Err(RkyvCodecError::from(error)),
        }
    }

    /// Whether `buf` can be decoded from: the first frame in it, if it has a
    /// length, is there as a whole and is one that the codec's buffer can hold.
    pub fn holds_frame(buf: &BytesMut) -> (complete: bool)
        ensures
            complete == frame_complete::<L>(byte_buffers::bytes_mut_contents(*buf)),
    {
        let bytes = byte_buffers::bytes_mut_as_slice(buf);
        proof {
            L::decoding_within(bytes@);
        }
        match L::decode(bytes) {
            Ok((length, remaining)) => {
                let largest: usize = (isize::MAX - 15) as usize;
                length <= remaining.len() && length <= largest
            },
            Err(_) => true,
        }
    }

    /// Copies the archive of the first frame in `buf` into the codec's buffer,
    /// and says how many bytes the frame takes up; nothing where `buf` is
    /// empty.
    pub fn next_frame(&mut self, buf: &BytesMut) -> (result: Result<
        Option<usize>,
        RkyvCodecError<L>,
    >)
        requires
            frame_complete::<L>(byte_buffers::bytes_mut_contents(*buf)),
        ensures
            ({
                let bytes = byte_buffers::bytes_mut_contents(*buf);
                match result {
                    Ok(None) => bytes.len() == 0 && final(self).decoded() == old(self).decoded(),
                    Ok(Some(amount_read)) => {
                        &&& bytes.len() > 0
                        &&& frame_bounds::<L>(bytes) matches Ok((start, end))
                        &&& amount_read == end
                        &&& final(self).decoded() == bytes.subrange(start as int, end as int)
                    },
                    Err(error) => {
                        &&& bytes.len() > 0
                        &&& frame_bounds::<L>(bytes) matches Err(fault)
                        &&& error == fault
                        &&& final(self).decoded() == Seq::<u8>::empty()
                    },
                }
            }),
    {
        let bytes = byte_buffers::bytes_mut_as_slice(buf);
        if bytes.len() == 0 {
            return Ok(None);
        }
        aligned_vec::aligned_clear(&mut self.decode_buffer);
        proof {
            L::decoding_within(bytes@);
        }
        match L::decode(bytes) {
            Ok((length, remaining)) => {
                let head: usize = bytes.len() - remaining.len();
                aligned_vec::aligned_extend_from_slice(
                    &mut self.decode_buffer,
                    vstd::slice::slice_subrange(remaining, 0, length),
                );
                assert(self.decoded() =~= bytes@.subrange(head as int, head + length));
                Ok(Some(head + length))
            },
            Err(error) => Err(RkyvCodecError::ReadLengthError(error)),
        }
    }

    /// The archive that was decoded last.
    pub fn archive(&self) -> (archived: &[u8])
        ensures
            archived@ == self.decoded(),
    {
        aligned_vec::aligned_as_slice(&self.decode_buffer)
    }

    /// Ends the decoding of a frame of `amount_read` bytes, given what its
    /// archive was turned into: the frame leaves `buf` with a packet, and stays
    /// with an error.
    pub fn finish_decode(
        amount_read: usize,
        deserialized: Result<Packet, rancor::Error>,
        buf: &mut BytesMut,
    ) -> (result: Result<Option<Packet>, RkyvCodecError<L>>)
        requires
            amount_read <= byte_buffers::bytes_mut_contents(*old(buf)).len(),
        ensures
            match deserialized {
                Ok(packet) => {
                    &&& result matches Ok(Some(decoded))
                    &&& decoded == packet
                    &&& byte_buffers::bytes_mut_contents(*final(buf))
                        == byte_buffers::bytes_mut_contents(*old(buf)).skip(amount_read as int)
                },
                Err(error) => {
                    &&& result matches Err(RkyvCodecError::CheckArchiveError(fault))
                    &&& fault == error
                    &&& byte_buffers::bytes_mut_contents(*final(buf))
                        == byte_buffers::bytes_mut_contents(*old(buf))
                },
            },
    {
        match deserialized {
            Ok(packet) => {
                byte_buffers::bytes_mut_advance(buf, amount_read);
                Ok(Some(packet))
            },
            Err(error) => Err(RkyvCodecError::from(error)),
        }
    }

    /// Takes a packet off the front of `buf`, where `deserialize` turns an
    /// archive into a packet.
    pub fn decode<F: FnOnce(&[u8]) -> Result<Packet, rancor::Error>>(
        &mut self,
        buf: &mut BytesMut,
        deserialize: F,
    ) -> (result: Result<Option<Packet>, RkyvCodecError<L>>)
        requires
            frame_complete::<L>(byte_buffers::bytes_mut_contents(*old(buf))),
            forall|archived: &[u8]| #[trigger] call_requires(deserialize, (archived,)),
        ensures
            ({
                let bytes = byte_buffers::bytes_mut_contents(*old(buf));
                let left = byte_buffers::bytes_mut_contents(*final(buf));
                match frame_bounds::<L>(bytes) {
                    _ if bytes.len() == 0 => {
                        &&& result matches Ok(None)
                        &&& left == bytes
                        &&& final(self).decoded() == old(self).decoded()
                    },
                    Err(error) => {
                        &&& result matches Err(fault)
                        &&& fault == error
                        &&& left == bytes
                        &&& final(self).decoded() == Seq::<u8>::empty()
                    },
                    Ok((start, end)) => exists|
                        args: (&[u8],),
                        outcome: Result<Packet, rancor::Error>,
                    | {
                        &&& args.0@ == bytes.subrange(start as int, end as int)
                        &&& final(self).decoded() == args.0@
                        &&& #[trigger] call_ensures(deserialize, args, outcome)
                        &&& match outcome {
                            Ok(packet) => {
                                &&& result matches Ok(Some(decoded))
                                &&& decoded == packet
                                &&& left == bytes.skip(end as int)
                            },
                            Err(error) => {
                                &&& result matches Err(RkyvCodecError::CheckArchiveError(fault))
                                &&& fault == error
                                &&& left == bytes
                            },
                        }
                    },
                }
            }),
            forall|model: spec_fn(Seq<u8>) -> Result<Packet, rancor::Error>| #[trigger]
                follows(deserialize, model) ==> (
                    result,
                    byte_buffers::bytes_mut_contents(*final(buf)),
                ) == packet_decoding::<Packet, L>(
                    byte_buffers::bytes_mut_contents(*old(buf)),
                    model,
                ),
    {
        match self.next_frame(buf) {
            Ok(Some(amount_read)) => {
                let archived = self.archive();
                let outcome = deserialize(archived);
                assert(call_ensures(deserialize, (archived,), outcome));
                Self::finish_decode(amount_read, outcome, buf)
            },
            Ok(None) => Ok(None),
            Err(error) => Err(error),
        }
    }
}

} // verus!
