//! Frames on streams: what to write to a stream and what to read from it.
use crate::error::RkyvCodecError;
use crate::frame;
use crate::length_codec::{LengthCodec, WithIOError};
use crate::outside::aligned_vec;
use core::ops::Range;
use rkyv::util::AlignedVec;
use vstd::prelude::*;

verus! {

/// The two runs of bytes, in this order, that write an archive's frame to a
/// stream: the length, encoded into `length_buffer`, and the archive.
pub fn archive_sink<'a, L: LengthCodec>(
    archived: &'a [u8],
    length_buffer: &'a mut L::Buffer,
) -> (writes: (&'a [u8], &'a [u8]))
    ensures
        writes.0@ == L::encoding(archived@.len() as usize),
        writes.1@ == archived@,
        writes.0@ + writes.1@ == frame::frame::<L>(archived@),
{
    (L::encode(archived.len(), length_buffer), archived)
}

/// What follows once the length of a frame was read from a stream, or was not:
/// the passed buffer is made as long as the archive and handed out for the
/// stream to fill, or the error is handed on and the buffer left empty.
/// The archive is to be checked when it is accessed.
pub fn archive_stream<'b, L: LengthCodec>(
    length: Result<usize, WithIOError<L::Error>>,
    buffer: &'b mut AlignedVec,
) -> (result: Result<&'b mut [u8], RkyvCodecError<L>>)
    requires
        length matches Ok(archive_len) ==> archive_len <= aligned_vec::aligned_max(),
    ensures
        match length {
            Ok(archive_len) => {
                &&& result matches Ok(space)
                &&& space@ == Seq::new(archive_len as nat, |i: int| 0u8)
                &&& aligned_vec::aligned_contents(*final(buffer)) == final(space)@
            },
            Err(WithIOError::IoError(error)) => {
                &&& result matches Err(RkyvCodecError::IoError(fault))
                &&& fault == error
                &&& aligned_vec::aligned_contents(*final(buffer)) == Seq::<u8>::empty()
            },
            Err(WithIOError::LengthDecodeError(error)) => {
                &&& result matches Err(RkyvCodecError::ReadLengthError(fault))
                &&& fault == error
                &&& aligned_vec::aligned_contents(*final(buffer)) == Seq::<u8>::empty()
            },
        },
{
    aligned_vec::aligned_clear(buffer);
    match length {
        Ok(archive_len) => {
            aligned_vec::aligned_resize(buffer, archive_len, 0);
            let space = aligned_vec::aligned_as_mut_slice(buffer);
            assert(space@ =~= Seq::new(archive_len as nat, |i: int| 0u8));
            Ok(space)
        },
        Err(error) => Err(RkyvCodecError::from(error)),
    }
}

/// What follows once the length of a frame was read from a stream, or was not:
/// the passed buffer is made as long as the archive and handed out for the
/// stream to fill, or the error is handed on and the buffer left empty.
///
/// The archive is not looked into: whoever accesses it unchecked relies on the
/// stream giving a frame that this library wrote with the same length codec.
pub fn archive_stream_unsafe<'b, L: LengthCodec>(
    length: Result<usize, WithIOError<L::Error>>,
    buffer: &'b mut AlignedVec,
) -> (result: Result<&'b mut [u8], RkyvCodecError<L>>)
    requires
        length matches Ok(archive_len) ==> archive_len <= aligned_vec::aligned_max(),
    ensures
        match length {
            Ok(archive_len) => {
                &&& result matches Ok(space)
                &&& space@ == Seq::new(archive_len as nat, |i: int| 0u8)
                &&& aligned_vec::aligned_contents(*final(buffer)) == final(space)@
            },
            Err(WithIOError::IoError(error)) => {
                &&& result matches Err(RkyvCodecError::IoError(fault))
                &&& fault == error
                &&& aligned_vec::aligned_contents(*final(buffer)) == Seq::<u8>::empty()
            },
            Err(WithIOError::LengthDecodeError(error)) => {
                &&& result matches Err(RkyvCodecError::ReadLengthError(fault))
                &&& fault == error
                &&& aligned_vec::aligned_contents(*final(buffer)) == Seq::<u8>::empty()
            },
        },
{
    archive_stream::<L>(length, buffer)
}

/// What has happened since a writer was last asked what to do.
pub enum FlushEvent {
    /// The writer is polled to be flushed.
    Polled,
    /// The stream took this many bytes of [`RkyvWriter::offer_length`].
    LengthWritten(usize),
    /// The stream took this many bytes of [`RkyvWriter::offer_body`].
    BodyWritten(usize),
    /// The stream was flushed.
    Flushed,
    /// The stream failed.
    Failed(std::io::Error),
}

/// What to do for a writer that is being flushed.
#[derive(Debug)]
pub enum FlushAction<L: LengthCodec> {
    /// Offer the stream what is left of the length.
    WriteLength,
    /// Offer the stream what is left of the archive.
    WriteBody,
    /// Flush the stream.
    FlushStream,
    /// Flushing has come to its end.
    Done(Result<(), RkyvCodecError<L>>),
}

/// What a writer has yet to send.
#[verifier::ext_equal]
pub struct Unsent {
    /// What is left of the length.
    pub length: Seq<u8>,
    /// What is left of the archive.
    pub body: Seq<u8>,
}

/// What is left of `bytes` behind the first `sent` of them.
pub open spec fn left_after(bytes: Seq<u8>, sent: nat) -> Seq<u8> {
    if sent <= bytes.len() {
        bytes.skip(sent as int)
    } else {
        Seq::empty()
    }
}

/// Whether `event` can happen to a writer that has `unsent` to send: a stream
/// takes no more than it is offered.
pub open spec fn flush_possible(unsent: Unsent, event: FlushEvent) -> bool {
    match event {
        FlushEvent::LengthWritten(count) => count <= unsent.length.len(),
        FlushEvent::BodyWritten(count) => count <= unsent.body.len(),
        _ => true,
    }
}

/// What is left to send after `event`.
pub open spec fn flush_unsent(unsent: Unsent, event: FlushEvent) -> Unsent {
    match event {
        FlushEvent::LengthWritten(count) => Unsent {
            length: unsent.length.skip(count as int),
            body: unsent.body,
        },
        FlushEvent::BodyWritten(count) => Unsent {
            length: unsent.length,
            body: unsent.body.skip(count as int),
        },
        _ => unsent,
    }
}

/// The bytes the stream took with `event`.
pub open spec fn flush_taken(unsent: Unsent, event: FlushEvent) -> Seq<u8> {
    match event {
        FlushEvent::LengthWritten(count) => unsent.length.take(count as int),
        FlushEvent::BodyWritten(count) => unsent.body.take(count as int),
        _ => Seq::empty(),
    }
}

/// What to do after `event` for a writer that had `unsent` to send. Each poll
/// offers what is left of the length until all of it is taken, and then the
/// archive in the same way; a stream that takes nothing where there is something
/// left is at its end.
pub open spec fn flush_next<L: LengthCodec>(unsent: Unsent, event: FlushEvent) -> FlushAction<L> {
    let after_write = if flush_unsent(unsent, event).body.len() > 0 {
        FlushAction::WriteBody
    } else {
        FlushAction::FlushStream
    };
    match event {
        FlushEvent::Polled => FlushAction::WriteLength,
        FlushEvent::LengthWritten(count) => if flush_unsent(unsent, event).length.len() > 0 {
            if count == 0 {
                FlushAction::Done(Err(RkyvCodecError::EOFError))
            } else {
                FlushAction::WriteLength
            }
        } else {
            after_write
        },
        FlushEvent::BodyWritten(count) => if count == 0 {
            FlushAction::Done(Err(RkyvCodecError::EOFError))
        } else {
            after_write
        },
        FlushEvent::Flushed => FlushAction::Done(Ok(())),
        FlushEvent::Failed(error) => FlushAction::Done(Err(RkyvCodecError::IoError(error))),
    }
}

/// Wraps a stream and sends archives to it, one frame at a time.
pub struct RkyvWriter<Writer, L: LengthCodec> {
    writer: Writer,
    buffer: AlignedVec,
    length_buffer: L::Buffer,
    len_state: Range<usize>,
    buf_state: usize,
}

impl<Writer, L: LengthCodec> RkyvWriter<Writer, L> {
    /// The wrapped stream.
    pub closed spec fn stream(&self) -> Writer {
        self.writer
    }

    /// The states that a writer can be in.
    pub closed spec fn wf(&self) -> bool {
        self.len_state.start <= self.len_state.end <= L::bytes_of(self.length_buffer).len()
    }

    /// How many bytes of archive the stream has taken since a packet was last
    /// serialized.
    pub closed spec fn sent(&self) -> nat {
        self.buf_state as nat
    }

    /// What is yet to be sent.
    pub closed spec fn unsent(&self) -> Unsent {
        Unsent {
            length: L::bytes_of(self.length_buffer).subrange(
                self.len_state.start as int,
                self.len_state.end as int,
            ),
            body: left_after(aligned_vec::aligned_contents(self.buffer), self.buf_state as nat),
        }
    }

    /// Wraps a stream; there is nothing to send yet.
    pub fn new(writer: Writer) -> (wrapped: Self)
        ensures
            wrapped.wf(),
            wrapped.stream() == writer,
            wrapped.unsent().length == Seq::<u8>::empty(),
            wrapped.unsent().body == Seq::<u8>::empty(),
            wrapped.sent() == 0,
    {
        RkyvWriter {
            writer,
            buffer: aligned_vec::aligned_new(),
            length_buffer: L::Buffer::default(),
            len_state: Range { start: 0, end: 0 },
            buf_state: 0,
        }
    }

    /// Gives the stream back.
    pub fn inner(self) -> (writer: Writer)
        ensures
            writer == self.stream(),
    {
        self.writer
    }

    /// The wrapped stream.
    pub fn stream_mut(&mut self) -> (writer: &mut Writer)
        ensures
            *writer == old(self).stream(),
            final(self).stream() == *final(writer),
            final(self).unsent() == old(self).unsent(),
            final(self).sent() == old(self).sent(),
            final(self).wf() == old(self).wf(),
    {
        &mut self.writer
    }

    /// Takes in a packet to be sent, in place of what was there before:
    /// `written` is what was written in serializing it, all of its archive or,
    /// where that failed, as much as there is. After a failure the writer goes on
    /// with the length and from the position that it had.
    pub fn start_send(
        &mut self,
        written: &[u8],
        serialized: Result<(), rkyv::rancor::Error>,
    ) -> (result: Result<(), RkyvCodecError<L>>)
        requires
            old(self).wf(),
            written@.len() <= aligned_vec::aligned_max(),
        ensures
            final(self).wf(),
            final(self).stream() == old(self).stream(),
            match serialized {
                Ok(()) => {
                    &&& result is Ok
                    &&& final(self).unsent().length == L::encoding(written@.len() as usize)
                    &&& final(self).unsent().body == written@
                    &&& final(self).sent() == 0
                },
                Err(_) => {
                    &&& result matches Err(RkyvCodecError::SerializeError)
                    &&& final(self).unsent().length == old(self).unsent().length
                    &&& final(self).unsent().body == left_after(written@, old(self).sent())
                    &&& final(self).sent() == old(self).sent()
                },
            },
    {
        aligned_vec::aligned_clear(&mut self.buffer);
        aligned_vec::aligned_extend_from_slice(&mut self.buffer, written);
        assert(aligned_vec::aligned_contents(self.buffer) =~= written@);
        match serialized {
            Ok(()) => {
                let encoded: usize = L::encode(written.len(), &mut self.length_buffer).len();
                self.len_state = Range { start: 0, end: encoded };
                self.buf_state = 0;
                assert(self.unsent().length =~= L::encoding(written@.len() as usize));
                assert(self.unsent().body =~= written@);
                Ok(())
            },
            Err(_) => Err(RkyvCodecError::SerializeError),
        }
    }

    /// The wrapped stream and what is left of the length, to be offered to it.
    pub fn offer_length(&mut self) -> (offer: (&mut Writer, &[u8]))
        requires
            old(self).wf(),
        ensures
            *offer.0 == old(self).stream(),
            offer.1@ == old(self).unsent().length,
            final(self).stream() == *final(offer.0),
            final(self).unsent() == old(self).unsent(),
            final(self).sent() == old(self).sent(),
            final(self).wf(),
    {
        let length_buffer = L::as_slice(&mut self.length_buffer);
        (
            &mut self.writer,
            vstd::slice::slice_subrange(length_buffer, self.len_state.start, self.len_state.end),
        )
    }

    /// The wrapped stream and what is left of the archive, to be offered to it.
    pub fn offer_body(&mut self) -> (offer: (&mut Writer, &[u8]))
        requires
            old(self).wf(),
        ensures
            *offer.0 == old(self).stream(),
            offer.1@ == old(self).unsent().body,
            final(self).stream() == *final(offer.0),
            final(self).unsent() == old(self).unsent(),
            final(self).sent() == old(self).sent(),
            final(self).wf(),
    {
        let held = aligned_vec::aligned_as_slice(&self.buffer);
        let from: usize = if self.buf_state <= held.len() {
            self.buf_state
        } else {
            held.len()
        };
        assert(held@.skip(held@.len() as int) =~= Seq::<u8>::empty());
        (&mut self.writer, vstd::slice::slice_subrange(held, from, held.len()))
    }

    /// Takes in what happened and says what to do next.
    pub fn poll_flush(&mut self, event: FlushEvent) -> (action: FlushAction<L>)
        requires
            old(self).wf(),
            flush_possible(old(self).unsent(), event),
        ensures
            final(self).wf(),
            final(self).stream() == old(self).stream(),
            final(self).unsent() == flush_unsent(old(self).unsent(), event),
            final(self).sent() == old(self).sent() + match event {
                FlushEvent::BodyWritten(count) => count as nat,
                _ => 0,
            },
            action == flush_next::<L>(old(self).unsent(), event),
    {
        let held: usize = aligned_vec::aligned_len(&self.buffer);
        match event {
            FlushEvent::Polled => return FlushAction::WriteLength,
            FlushEvent::LengthWritten(written) => {
                self.len_state.start = self.len_state.start + written;
                if self.len_state.start < self.len_state.end {
                    assert(self.unsent() =~= flush_unsent(old(self).unsent(), event));
                    if written == 0 {
                        return FlushAction::Done(Err(RkyvCodecError::EOFError));
                    }
                    return FlushAction::WriteLength;
                }
            },
            FlushEvent::BodyWritten(bytes_written) => {
                if bytes_written == 0 {
                    assert(self.unsent() =~= flush_unsent(old(self).unsent(), event));
                    return FlushAction::Done(Err(RkyvCodecError::EOFError));
                }
                self.buf_state = self.buf_state + bytes_written;
            },
            FlushEvent::Flushed => return FlushAction::Done(Ok(())),
            FlushEvent::Failed(error) => return FlushAction::Done(
                Err(RkyvCodecError::IoError(error)),
            ),
        }
        assert(self.unsent() =~= flush_unsent(old(self).unsent(), event));
        if self.buf_state < held {
            FlushAction::WriteBody
        } else {
            FlushAction::FlushStream
        }
    }
}

} // verus!
