//! What the functions of the library promise together.
use crate::big_endian;
use crate::error::RkyvCodecError;
use crate::frame;
use crate::framed_codec;
use crate::length_codec;
use crate::length_codec::LengthCodec;
use crate::outside::aligned_vec;
use crate::rkyv_codec;
use crate::rkyv_codec::{FlushAction, FlushEvent, Unsent};
use crate::varint;
use crate::varint::{VarintLength, VarintLengthError};
use vstd::prelude::*;

pub mod buffers;
pub mod errors;
pub mod frames;
pub mod lengths;
pub mod packets;
pub mod streams;
pub mod writer;

verus! {

/// Reading from a buffer gives back what was written to it: the archive of the
/// first frame, and behind it whatever followed the frame.
pub proof fn law_bytes_roundtrip<L: LengthCodec>(archived: Seq<u8>, tail: Seq<u8>)
    requires
        archived.len() <= usize::MAX,
        L::readable(archived.len() as usize),
    ensures
        frame::frame_reading::<L>(frame::frame::<L>(archived) + tail).0 matches Ok(read) && read
            == archived,
        frame::frame_reading::<L>(frame::frame::<L>(archived) + tail).1 == tail,
{
    let length = archived.len() as usize;
    let bytes = frame::frame::<L>(archived) + tail;
    L::encoding_reads(length, archived + tail);
    assert(bytes =~= L::encoding(length) + (archived + tail));
    let body = bytes.skip(L::encoding(length).len() as int);
    assert(body =~= archived + tail);
    assert(body.take(length as int) =~= archived);
    assert(body.skip(length as int) =~= tail);
}

/// What is read does not depend on the packet buffer that it is read into: the
/// buffer holds the archive and nothing of what it held before.
pub proof fn law_bytes_buffer_reused<L: LengthCodec>(
    bytes: Seq<u8>,
    before: Seq<u8>,
    otherwise: Seq<u8>,
)
    requires
        frame::frame_reading::<L>(bytes).0 is Ok,
    ensures
        frame::frame_reading::<L>(bytes).0 matches Ok(read) && {
            &&& frame::buffer_after::<L>(bytes, before) == read
            &&& frame::buffer_after::<L>(bytes, otherwise) == read
        },
{
}

/// Decoding a packet finds the archive that was encoded, all of it and nothing
/// else, and what is left is what followed its frame.
pub proof fn law_codec_roundtrip<L: LengthCodec>(archived: Seq<u8>, tail: Seq<u8>)
    requires
        archived.len() <= aligned_vec::aligned_max(),
        L::decodable(archived.len() as usize),
    ensures
        ({
            let bytes = frame::frame::<L>(archived) + tail;
            &&& bytes.len() > 0
            &&& framed_codec::frame_complete::<L>(bytes)
            &&& framed_codec::frame_bounds::<L>(bytes) matches Ok((start, end))
            &&& bytes.subrange(start as int, end as int) == archived
            &&& bytes.skip(end as int) == tail
        }),
{
    let length = archived.len() as usize;
    let bytes = frame::frame::<L>(archived) + tail;
    L::encoding_decodes(length, archived + tail);
    assert(bytes =~= L::encoding(length) + (archived + tail));
    L::decoding_within(bytes);
    let start = L::encoding(length).len();
    let end = start + archived.len();
    assert(bytes.subrange(start as int, end as int) =~= archived);
    assert(bytes.skip(end as int) =~= tail);
}

/// Where a frame can be read from a buffer, decoding finds the same archive
/// and leaves the same bytes.
pub proof fn law_codec_agrees_with_reading<L: LengthCodec>(bytes: Seq<u8>)
    requires
        frame::frame_reading::<L>(bytes).0 is Ok,
    ensures
        framed_codec::frame_bounds::<L>(bytes) matches Ok((start, end)) && {
            &&& end <= bytes.len()
            &&& frame::frame_reading::<L>(bytes).0 matches Ok(read)
            &&& read == bytes.subrange(start as int, end as int)
            &&& frame::frame_reading::<L>(bytes).1 == bytes.skip(end as int)
        },
{
    L::reading_decodes(bytes);
    L::decoding_within(bytes);
    if let (Ok(length), used) = L::reading(bytes) {
        let body = bytes.skip(used as int);
        assert(body.take(length as int) =~= bytes.subrange(used as int, used + length));
        assert(body.skip(length as int) =~= bytes.skip(used + length));
    }
}

/// A stream is asked for the bytes of a length and for no byte behind them.
pub proof fn law_stream_takes_length<L: LengthCodec>(input: Seq<u8>)
    requires
        L::decoding(input) is Ok,
    ensures
        L::decoding(input) matches Ok((length, used)) && {
            &&& length_codec::stream_extent::<L>(input, 0) == Some(used)
            &&& length_codec::read_length::<L>(input.take(used as int)) matches Ok(read)
            &&& read == length
        },
{
    L::decoding_within(input);
    L::decoding_streams(input, 0);
    if let Ok((_, used)) = L::decoding(input) {
        lemma_stream_extent::<L>(input, 0, used);
    }
}

/// Reading a length goes on to its end.
proof fn lemma_stream_extent<L: LengthCodec>(input: Seq<u8>, taken: nat, used: nat)
    requires
        L::decoding(input) matches Ok((_, extent)) && extent == used,
        taken <= used,
    ensures
        length_codec::stream_extent::<L>(input, taken) == Some(used),
    decreases used - taken,
{
    L::decoding_within(input);
    L::decoding_streams(input, taken);
    if taken < used {
        let wanted = L::wanting(input.take(taken as int));
        lemma_stream_extent::<L>(input, taken + wanted, used);
    }
}

/// The archive that is read from a stream that gives `input`, and what the
/// stream has still to give; nothing where there is no length or the stream
/// ends before the archive does.
pub open spec fn stream_reading<L: LengthCodec>(input: Seq<u8>) -> Option<(Seq<u8>, Seq<u8>)> {
    match length_codec::stream_extent::<L>(input, 0) {
        Some(taken) => match length_codec::read_length::<L>(input.take(taken as int)) {
            Ok(length) if taken + length <= input.len() => Some(
                (input.subrange(taken as int, taken + length), input.skip(taken + length)),
            ),
            _ => None,
        },
        None => None,
    }
}

/// A stream that gives a frame gives its archive back, and no byte behind the
/// frame is asked for.
pub proof fn law_stream_roundtrip<L: LengthCodec>(archived: Seq<u8>, tail: Seq<u8>)
    requires
        archived.len() <= usize::MAX,
        L::decodable(archived.len() as usize),
    ensures
        stream_reading::<L>(frame::frame::<L>(archived) + tail) == Some((archived, tail)),
{
    let length = archived.len() as usize;
    let input = frame::frame::<L>(archived) + tail;
    L::encoding_decodes(length, archived + tail);
    assert(input =~= L::encoding(length) + (archived + tail));
    law_stream_takes_length::<L>(input);
    let taken = L::encoding(length).len();
    assert(input.subrange(taken as int, taken + length) =~= archived);
    assert(input.skip(taken + length) =~= tail);
}

/// A part of an encoded length is not taken for a length.
proof fn lemma_part_of_length<L: LengthCodec>(encoded: Seq<u8>, kept: nat)
    requires
        L::decoding(encoded) matches Ok((_, used)) && used == encoded.len(),
        kept < encoded.len(),
    ensures
        L::decoding(encoded.take(kept as int)) is Err,
{
    let part = encoded.take(kept as int);
    L::decoding_within(part);
    if let Ok((_, used)) = L::decoding(part) {
        L::decoding_streams(part, used);
        L::decoding_streams(encoded, used);
        assert(part.take(used as int) =~= encoded.take(used as int));
    }
}

/// A frame that is cut short is not read from a buffer: where the cut is within
/// the length, there is an error of the length, and where it is within the
/// archive, the error tells how many bytes are wanted and how many are there.
pub proof fn law_bytes_cut_short<L: LengthCodec>(archived: Seq<u8>, kept: nat)
    requires
        archived.len() <= usize::MAX,
        L::readable(archived.len() as usize),
        kept < frame::frame::<L>(archived).len(),
    ensures
        ({
            let extent = L::encoding(archived.len() as usize).len();
            match frame::frame_reading::<L>(frame::frame::<L>(archived).take(kept as int)).0 {
                Ok(_) => false,
                Err(RkyvCodecError::ReadLengthError(_)) => kept < extent,
                Err(RkyvCodecError::LengthTooLong { requested, available }) => {
                    &&& kept >= extent
                    &&& requested == archived.len()
                    &&& available == kept - extent
                },
                Err(_) => false,
            }
        }),
{
    let length = archived.len() as usize;
    let encoded = L::encoding(length);
    let part = frame::frame::<L>(archived).take(kept as int);
    if kept < encoded.len() {
        L::encoding_reads(length, Seq::empty());
        L::reading_decodes(encoded);
        assert(encoded + Seq::empty() =~= encoded);
        lemma_part_of_length::<L>(encoded, kept);
        L::reading_decodes(part);
        assert(part =~= encoded.take(kept as int));
    } else {
        let rest = archived.take(kept - encoded.len());
        L::encoding_reads(length, rest);
        assert(part =~= encoded + rest);
        assert(part.skip(encoded.len() as int) =~= rest);
    }
}

/// A frame that is cut short is not read from a stream, however much of the
/// frame the stream gives.
pub proof fn law_stream_cut_short<L: LengthCodec>(archived: Seq<u8>, kept: nat)
    requires
        archived.len() <= usize::MAX,
        L::decodable(archived.len() as usize),
        kept < frame::frame::<L>(archived).len(),
    ensures
        stream_reading::<L>(frame::frame::<L>(archived).take(kept as int)) is None,
{
    let length = archived.len() as usize;
    let encoded = L::encoding(length);
    let part = frame::frame::<L>(archived).take(kept as int);
    if kept < encoded.len() {
        L::encoding_decodes(length, Seq::empty());
        assert(encoded + Seq::empty() =~= encoded);
        assert(part =~= encoded.take(kept as int));
        lemma_stream_ends::<L>(encoded, kept, 0);
    } else {
        let rest = archived.take(kept - encoded.len());
        L::encoding_decodes(length, rest);
        assert(part =~= encoded + rest);
        law_stream_takes_length::<L>(part);
    }
}

/// A stream that ends within a length is found to end there.
proof fn lemma_stream_ends<L: LengthCodec>(encoded: Seq<u8>, kept: nat, taken: nat)
    requires
        L::decoding(encoded) matches Ok((_, used)) && used == encoded.len(),
        taken <= kept < encoded.len(),
    ensures
        length_codec::stream_extent::<L>(encoded.take(kept as int), taken) is None,
    decreases kept - taken,
{
    let part = encoded.take(kept as int);
    L::decoding_streams(encoded, taken);
    assert(part.take(taken as int) =~= encoded.take(taken as int));
    let wanted = L::wanting(part.take(taken as int));
    if taken + wanted <= kept {
        lemma_stream_ends::<L>(encoded, kept, taken + wanted);
    }
}

/// The archive that is read from a buffer that holds `bytes`, and what the
/// buffer then holds; nothing where there is an error.
pub open spec fn bytes_reading<L: LengthCodec>(bytes: Seq<u8>) -> Option<(Seq<u8>, Seq<u8>)> {
    match frame::frame_reading::<L>(bytes) {
        (Ok(archived), rest) => Some((archived, rest)),
        (Err(_), _) => None,
    }
}

/// The archive that is decoded from a buffer that holds `bytes`, and what the
/// buffer then holds; nothing where there is no whole frame.
pub open spec fn codec_reading<L: LengthCodec>(bytes: Seq<u8>) -> Option<(Seq<u8>, Seq<u8>)> {
    match framed_codec::frame_bounds::<L>(bytes) {
        Ok((start, end)) if framed_codec::frame_complete::<L>(bytes) => Some(
            (bytes.subrange(start as int, end as int), bytes.skip(end as int)),
        ),
        _ => None,
    }
}

/// The frames of `archives`, one behind the other.
pub open spec fn frames<L: LengthCodec>(archives: Seq<Seq<u8>>) -> Seq<u8>
    decreases archives.len(),
{
    if archives.len() == 0 {
        Seq::empty()
    } else {
        frame::frame::<L>(archives[0]) + frames::<L>(archives.drop_first())
    }
}

/// The archives that `read` gives where it is used `count` times in a row,
/// each time on what it left the time before, and what is left in the end;
/// nothing where one of them cannot be read.
pub open spec fn reading_in_turn(
    read: spec_fn(Seq<u8>) -> Option<(Seq<u8>, Seq<u8>)>,
    bytes: Seq<u8>,
    count: nat,
) -> Option<(Seq<Seq<u8>>, Seq<u8>)>
    decreases count,
{
    if count == 0 {
        Some((Seq::empty(), bytes))
    } else {
        match read(bytes) {
            Some((archived, rest)) => match reading_in_turn(read, rest, (count - 1) as nat) {
                Some((others, left)) => Some((seq![archived] + others, left)),
                None => None,
            },
            None => None,
        }
    }
}

/// A way of reading that gives each frame's archive, whatever follows the frame,
/// gives all archives in turn.
proof fn lemma_in_turn<L: LengthCodec>(
    read: spec_fn(Seq<u8>) -> Option<(Seq<u8>, Seq<u8>)>,
    archives: Seq<Seq<u8>>,
    tail: Seq<u8>,
)
    requires
        forall|i: int, rest: Seq<u8>|
            0 <= i < archives.len() ==> read(#[trigger] (frame::frame::<L>(archives[i]) + rest))
                == Some((archives[i], rest)),
    ensures
        reading_in_turn(read, frames::<L>(archives) + tail, archives.len()) == Some(
            (archives, tail),
        ),
    decreases archives.len(),
{
    if archives.len() == 0 {
        assert(frames::<L>(archives) + tail =~= tail);
        assert(archives =~= Seq::empty());
    } else {
        let others = archives.drop_first();
        let rest = frames::<L>(others) + tail;
        assert forall|i: int, after: Seq<u8>| 0 <= i < others.len() implies read(
            #[trigger] (frame::frame::<L>(others[i]) + after),
        ) == Some((others[i], after)) by {
            assert(others[i] == archives[i + 1]);
            assert(read(frame::frame::<L>(archives[i + 1]) + after) == Some(
                (archives[i + 1], after),
            ));
        }
        lemma_in_turn::<L>(read, others, tail);
        assert(frames::<L>(archives) + tail =~= frame::frame::<L>(archives[0]) + rest);
        assert(seq![archives[0]] + others =~= archives);
    }
}

/// Any number of frames, one behind the other in a buffer, are read in the
/// order they were written.
pub proof fn law_bytes_sequence<L: LengthCodec>(archives: Seq<Seq<u8>>, tail: Seq<u8>)
    requires
        forall|i: int|
            0 <= i < archives.len() ==> (#[trigger] archives[i]).len() <= usize::MAX
                && L::readable(archives[i].len() as usize),
    ensures
        reading_in_turn(
            |bytes: Seq<u8>| bytes_reading::<L>(bytes),
            frames::<L>(archives) + tail,
            archives.len(),
        ) == Some((archives, tail)),
{
    let read = |bytes: Seq<u8>| bytes_reading::<L>(bytes);
    assert forall|i: int, rest: Seq<u8>| 0 <= i < archives.len() implies read(
        #[trigger] (frame::frame::<L>(archives[i]) + rest),
    ) == Some((archives[i], rest)) by {
        law_bytes_roundtrip::<L>(archives[i], rest);
    }
    lemma_in_turn::<L>(read, archives, tail);
}

/// Any number of frames, one behind the other in a buffer, are decoded in the
/// order they were encoded.
pub proof fn law_codec_sequence<L: LengthCodec>(archives: Seq<Seq<u8>>, tail: Seq<u8>)
    requires
        forall|i: int|
            0 <= i < archives.len() ==> (#[trigger] archives[i]).len() <= aligned_vec::aligned_max()
                && L::decodable(archives[i].len() as usize),
    ensures
        reading_in_turn(
            |bytes: Seq<u8>| codec_reading::<L>(bytes),
            frames::<L>(archives) + tail,
            archives.len(),
        ) == Some((archives, tail)),
{
    let read = |bytes: Seq<u8>| codec_reading::<L>(bytes);
    assert forall|i: int, rest: Seq<u8>| 0 <= i < archives.len() implies read(
        #[trigger] (frame::frame::<L>(archives[i]) + rest),
    ) == Some((archives[i], rest)) by {
        law_codec_roundtrip::<L>(archives[i], rest);
    }
    lemma_in_turn::<L>(read, archives, tail);
}

/// Any number of frames that a stream gives one behind the other are read in
/// the order they were sent.
pub proof fn law_stream_sequence<L: LengthCodec>(archives: Seq<Seq<u8>>, tail: Seq<u8>)
    requires
        forall|i: int|
            0 <= i < archives.len() ==> (#[trigger] archives[i]).len() <= usize::MAX
                && L::decodable(archives[i].len() as usize),
    ensures
        reading_in_turn(
            |bytes: Seq<u8>| stream_reading::<L>(bytes),
            frames::<L>(archives) + tail,
            archives.len(),
        ) == Some((archives, tail)),
{
    let read = |bytes: Seq<u8>| stream_reading::<L>(bytes);
    assert forall|i: int, rest: Seq<u8>| 0 <= i < archives.len() implies read(
        #[trigger] (frame::frame::<L>(archives[i]) + rest),
    ) == Some((archives[i], rest)) by {
        law_stream_roundtrip::<L>(archives[i], rest);
    }
    lemma_in_turn::<L>(read, archives, tail);
}

/// Whether a writer with `unsent` to send can go through `events`.
pub open spec fn run_possible(unsent: Unsent, events: Seq<FlushEvent>) -> bool
    decreases events.len(),
{
    events.len() == 0 || {
        &&& rkyv_codec::flush_possible(unsent, events[0])
        &&& run_possible(rkyv_codec::flush_unsent(unsent, events[0]), events.drop_first())
    }
}

/// What a writer has left to send after `events`.
pub open spec fn run_unsent(unsent: Unsent, events: Seq<FlushEvent>) -> Unsent
    decreases events.len(),
{
    if events.len() == 0 {
        unsent
    } else {
        run_unsent(rkyv_codec::flush_unsent(unsent, events[0]), events.drop_first())
    }
}

/// The bytes the stream took with `events`.
pub open spec fn run_taken(unsent: Unsent, events: Seq<FlushEvent>) -> Seq<u8>
    decreases events.len(),
{
    if events.len() == 0 {
        Seq::empty()
    } else {
        rkyv_codec::flush_taken(unsent, events[0]) + run_taken(
            rkyv_codec::flush_unsent(unsent, events[0]),
            events.drop_first(),
        )
    }
}

/// Whether each of `events` answers what the writer asked for, first `action`
/// and then what each event leads to; a writer may be polled anew at any time.
pub open spec fn run_answers<L: LengthCodec>(
    action: FlushAction<L>,
    unsent: Unsent,
    events: Seq<FlushEvent>,
) -> bool
    decreases events.len(),
{
    events.len() == 0 || {
        &&& match events[0] {
            FlushEvent::Polled => true,
            FlushEvent::LengthWritten(_) => action is WriteLength,
            FlushEvent::BodyWritten(_) => action is WriteBody,
            FlushEvent::Flushed => action is FlushStream,
            FlushEvent::Failed(_) => !(action is Done),
        }
        &&& run_answers::<L>(
            rkyv_codec::flush_next::<L>(unsent, events[0]),
            rkyv_codec::flush_unsent(unsent, events[0]),
            events.drop_first(),
        )
    }
}

/// What the writer asks for after `events`, where it asked for `action` before.
pub open spec fn run_action<L: LengthCodec>(
    action: FlushAction<L>,
    unsent: Unsent,
    events: Seq<FlushEvent>,
) -> FlushAction<L>
    decreases events.len(),
{
    if events.len() == 0 {
        action
    } else {
        run_action::<L>(
            rkyv_codec::flush_next::<L>(unsent, events[0]),
            rkyv_codec::flush_unsent(unsent, events[0]),
            events.drop_first(),
        )
    }
}

/// What a writer has to send once it was given an archive.
pub open spec fn sending<L: LengthCodec>(archived: Seq<u8>) -> Unsent {
    Unsent { length: L::encoding(archived.len() as usize), body: archived }
}

/// Whether `events` are what happens from a poll on, and end in a flush that
/// ended well.
pub open spec fn flushed<L: LengthCodec>(unsent: Unsent, events: Seq<FlushEvent>) -> bool {
    &&& run_possible(unsent, events)
    &&& run_answers::<L>(FlushAction::WriteLength, unsent, events)
    &&& run_action::<L>(FlushAction::WriteLength, unsent, events) matches FlushAction::Done(Ok(()))
}

/// The archive is offered once the length is sent, and a flush ends well once
/// both are.
proof fn lemma_run<L: LengthCodec>(
    action: FlushAction<L>,
    unsent: Unsent,
    events: Seq<FlushEvent>,
)
    requires
        action is WriteBody ==> unsent.length.len() == 0,
        action is FlushStream ==> unsent.length.len() == 0 && unsent.body.len() == 0,
        action matches FlushAction::Done(Ok(())) ==> unsent.length.len() == 0 && unsent.body.len()
            == 0,
        run_possible(unsent, events),
        run_answers::<L>(action, unsent, events),
    ensures
        ({
            let left = run_unsent(unsent, events);
            &&& run_taken(unsent, events) + left.length + left.body == unsent.length + unsent.body
            &&& run_action::<L>(action, unsent, events) matches FlushAction::Done(Ok(()))
                ==> left.length.len() == 0 && left.body.len() == 0
        }),
    decreases events.len(),
{
    if events.len() > 0 {
        let others = events.drop_first();
        let next = rkyv_codec::flush_unsent(unsent, events[0]);
        let taken = rkyv_codec::flush_taken(unsent, events[0]);
        let left = run_unsent(unsent, events);
        lemma_run::<L>(rkyv_codec::flush_next::<L>(unsent, events[0]), next, others);
        assert(taken + (next.length + next.body) =~= unsent.length + unsent.body);
        assert(run_taken(unsent, events) + left.length + left.body =~= taken + (run_taken(
            next,
            others,
        ) + left.length + left.body));
    } else {
        assert(run_taken(unsent, events) + unsent.length =~= unsent.length);
    }
}

/// Nothing is lost, doubled or put out of place: what the stream has taken, in
/// however many pieces and polls, and what is left make up the length and the
/// archive, in this order.
pub proof fn law_writer_sends_in_order<L: LengthCodec>(unsent: Unsent, events: Seq<FlushEvent>)
    requires
        run_possible(unsent, events),
        run_answers::<L>(FlushAction::WriteLength, unsent, events),
    ensures
        ({
            let left = run_unsent(unsent, events);
            run_taken(unsent, events) + left.length + left.body == unsent.length + unsent.body
        }),
{
    lemma_run::<L>(FlushAction::WriteLength, unsent, events);
}

/// A flush that ends well has sent the frame and leaves nothing to send.
pub proof fn law_writer_sends_frame<L: LengthCodec>(archived: Seq<u8>, events: Seq<FlushEvent>)
    requires
        flushed::<L>(sending::<L>(archived), events),
    ensures
        run_unsent(sending::<L>(archived), events).length.len() == 0,
        run_unsent(sending::<L>(archived), events).body.len() == 0,
        run_taken(sending::<L>(archived), events) == frame::frame::<L>(archived),
{
    let unsent = sending::<L>(archived);
    let taken = run_taken(unsent, events);
    let left = run_unsent(unsent, events);
    lemma_run::<L>(FlushAction::WriteLength, unsent, events);
    assert(taken + left.length + left.body =~= taken);
}

/// What a writer has sent with a flush that ended well is read from the stream
/// as it was sent.
pub proof fn law_writer_roundtrip<L: LengthCodec>(
    archived: Seq<u8>,
    events: Seq<FlushEvent>,
    tail: Seq<u8>,
)
    requires
        archived.len() <= usize::MAX,
        L::decodable(archived.len() as usize),
        flushed::<L>(sending::<L>(archived), events),
    ensures
        stream_reading::<L>(run_taken(sending::<L>(archived), events) + tail) == Some(
            (archived, tail),
        ),
{
    law_writer_sends_frame::<L>(archived, events);
    law_stream_roundtrip::<L>(archived, tail);
}

/// A writer that has nothing to send, such as a new one, sends nothing when it
/// is flushed, and does not take the stream to be at its end.
pub proof fn law_writer_idle<L: LengthCodec>(unsent: Unsent, events: Seq<FlushEvent>)
    requires
        unsent.length.len() == 0,
        unsent.body.len() == 0,
        run_possible(unsent, events),
        run_answers::<L>(FlushAction::WriteLength, unsent, events),
    ensures
        run_taken(unsent, events) == Seq::<u8>::empty(),
        !(run_action::<L>(FlushAction::WriteLength, unsent, events) matches FlushAction::Done(
            Err(RkyvCodecError::EOFError),
        )),
{
    lemma_idle::<L>(FlushAction::WriteLength, unsent, events);
}

/// Where nothing is left to send, nothing but the stream's own failure comes in
/// between.
proof fn lemma_idle<L: LengthCodec>(
    action: FlushAction<L>,
    unsent: Unsent,
    events: Seq<FlushEvent>,
)
    requires
        unsent.length.len() == 0,
        unsent.body.len() == 0,
        !(action is WriteBody),
        !(action matches FlushAction::Done(Err(RkyvCodecError::EOFError))),
        run_possible(unsent, events),
        run_answers::<L>(action, unsent, events),
    ensures
        run_taken(unsent, events) == Seq::<u8>::empty(),
        !(run_action::<L>(action, unsent, events) matches FlushAction::Done(
            Err(RkyvCodecError::EOFError),
        )),
    decreases events.len(),
{
    if events.len() > 0 {
        let next = rkyv_codec::flush_unsent(unsent, events[0]);
        lemma_idle::<L>(
            rkyv_codec::flush_next::<L>(unsent, events[0]),
            next,
            events.drop_first(),
        );
        assert(run_taken(unsent, events) =~= Seq::<u8>::empty());
    }
}

/// Flushing twice is flushing once: after a flush that ended well another one
/// sends nothing.
pub proof fn law_writer_flush_again<L: LengthCodec>(
    unsent: Unsent,
    first: Seq<FlushEvent>,
    second: Seq<FlushEvent>,
)
    requires
        flushed::<L>(unsent, first),
        run_possible(run_unsent(unsent, first), second),
        run_answers::<L>(FlushAction::WriteLength, run_unsent(unsent, first), second),
    ensures
        run_taken(run_unsent(unsent, first), second) == Seq::<u8>::empty(),
{
    lemma_run::<L>(FlushAction::WriteLength, unsent, first);
    law_writer_idle::<L>(run_unsent(unsent, first), second);
}

/// The bytes a stream takes where `archives` are sent to it in turn, each with
/// the events in `runs` that follow it.
pub open spec fn sent_in_turn<L: LengthCodec>(
    archives: Seq<Seq<u8>>,
    runs: Seq<Seq<FlushEvent>>,
) -> Seq<u8>
    decreases archives.len(),
{
    if archives.len() == 0 {
        Seq::empty()
    } else {
        run_taken(sending::<L>(archives[0]), runs[0]) + sent_in_turn::<L>(
            archives.drop_first(),
            runs.drop_first(),
        )
    }
}

/// Packets that are sent in turn, each with a flush that ends well, put their
/// frames on the stream, one behind the other.
pub proof fn law_writer_sends_frames<L: LengthCodec>(
    archives: Seq<Seq<u8>>,
    runs: Seq<Seq<FlushEvent>>,
)
    requires
        runs.len() == archives.len(),
        forall|i: int|
            0 <= i < archives.len() ==> flushed::<L>(
                sending::<L>(#[trigger] archives[i]),
                #[trigger] runs[i],
            ),
    ensures
        sent_in_turn::<L>(archives, runs) == frames::<L>(archives),
    decreases archives.len(),
{
    if archives.len() > 0 {
        let later = archives.drop_first();
        let later_runs = runs.drop_first();
        assert(flushed::<L>(sending::<L>(archives[0]), runs[0]));
        law_writer_sends_frame::<L>(archives[0], runs[0]);
        assert forall|i: int| 0 <= i < later.len() implies flushed::<L>(
            sending::<L>(#[trigger] later[i]),
            #[trigger] later_runs[i],
        ) by {
            assert(later[i] == archives[i + 1] && later_runs[i] == runs[i + 1]);
        }
        law_writer_sends_frames::<L>(later, later_runs);
    }
}

/// Packets that are sent in turn, each with a flush that ends well, are read
/// from the stream in the order they were sent.
pub proof fn law_writer_sequence<L: LengthCodec>(
    archives: Seq<Seq<u8>>,
    runs: Seq<Seq<FlushEvent>>,
    tail: Seq<u8>,
)
    requires
        runs.len() == archives.len(),
        forall|i: int|
            0 <= i < archives.len() ==> flushed::<L>(
                sending::<L>(#[trigger] archives[i]),
                #[trigger] runs[i],
            ),
        forall|i: int|
            0 <= i < archives.len() ==> (#[trigger] archives[i]).len() <= usize::MAX
                && L::decodable(archives[i].len() as usize),
    ensures
        reading_in_turn(
            |bytes: Seq<u8>| stream_reading::<L>(bytes),
            sent_in_turn::<L>(archives, runs) + tail,
            archives.len(),
        ) == Some((archives, tail)),
{
    law_writer_sends_frames::<L>(archives, runs);
    law_stream_sequence::<L>(archives, tail);
}

/// What a buffer that held `before` holds once the frames of `archives` were
/// appended to it, one after the other.
pub open spec fn appended_in_turn<L: LengthCodec>(
    before: Seq<u8>,
    archives: Seq<Seq<u8>>,
) -> Seq<u8>
    decreases archives.len(),
{
    if archives.len() == 0 {
        before
    } else {
        appended_in_turn::<L>(
            frame::appended::<L>(before, archives[0]),
            archives.drop_first(),
        )
    }
}

/// Each packet adds its own frame to a buffer, whatever the buffer held and
/// whatever packets came before: the buffer then ends in their frames, one
/// behind the other.
pub proof fn law_appends_frames<L: LengthCodec>(before: Seq<u8>, archives: Seq<Seq<u8>>)
    ensures
        appended_in_turn::<L>(before, archives) == before + frames::<L>(archives),
    decreases archives.len(),
{
    if archives.len() > 0 {
        let later = archives.drop_first();
        law_appends_frames::<L>(frame::appended::<L>(before, archives[0]), later);
        assert(before + frame::frame::<L>(archives[0]) + frames::<L>(later) =~= before + (
        frame::frame::<L>(archives[0]) + frames::<L>(later)));
    } else {
        assert(before + frames::<L>(archives) =~= before);
    }
}

/// Frames that were appended to an empty buffer, no matter by which function, are
/// read in order by every way of reading.
pub proof fn law_appended_frames_read<L: LengthCodec>(archives: Seq<Seq<u8>>, tail: Seq<u8>)
    requires
        forall|i: int|
            0 <= i < archives.len() ==> {
                &&& (#[trigger] archives[i]).len() <= aligned_vec::aligned_max()
                &&& L::readable(archives[i].len() as usize)
                &&& L::decodable(archives[i].len() as usize)
            },
    ensures
        ({
            let bytes = appended_in_turn::<L>(Seq::empty(), archives) + tail;
            let count = archives.len();
            let bytes_way = |bytes: Seq<u8>| bytes_reading::<L>(bytes);
            let codec_way = |bytes: Seq<u8>| codec_reading::<L>(bytes);
            let stream_way = |bytes: Seq<u8>| stream_reading::<L>(bytes);
            &&& reading_in_turn(bytes_way, bytes, count) == Some((archives, tail))
            &&& reading_in_turn(codec_way, bytes, count) == Some((archives, tail))
            &&& reading_in_turn(stream_way, bytes, count) == Some((archives, tail))
        }),
{
    law_appends_frames::<L>(Seq::empty(), archives);
    assert(Seq::<u8>::empty() + frames::<L>(archives) =~= frames::<L>(archives));
    law_bytes_sequence::<L>(archives, tail);
    law_codec_sequence::<L>(archives, tail);
    law_stream_sequence::<L>(archives, tail);
}

/// The packets that decoding `count` times in a row from a buffer that holds
/// `bytes` gives, where `model` says what an archive is turned into, and what
/// the buffer then holds; nothing where one of them cannot be decoded.
pub open spec fn decoding_in_turn<Packet, L: LengthCodec>(
    model: spec_fn(Seq<u8>) -> Result<Packet, rkyv::rancor::Error>,
    bytes: Seq<u8>,
    count: nat,
) -> Option<(Seq<Packet>, Seq<u8>)>
    decreases count,
{
    if count == 0 {
        Some((Seq::empty(), bytes))
    } else {
        match framed_codec::packet_decoding::<Packet, L>(bytes, model) {
            (Ok(Some(packet)), rest) if framed_codec::frame_complete::<L>(
                bytes,
            ) => match decoding_in_turn::<Packet, L>(
                model,
                rest,
                (count - 1) as nat,
            ) {
                Some((others, left)) => Some((seq![packet] + others, left)),
                None => None,
            },
            _ => None,
        }
    }
}

/// Decoding in turn goes through the frames in turn.
proof fn lemma_decoding_in_turn<Packet, L: LengthCodec>(
    packets: Seq<Packet>,
    archives: Seq<Seq<u8>>,
    model: spec_fn(Seq<u8>) -> Result<Packet, rkyv::rancor::Error>,
    tail: Seq<u8>,
)
    requires
        packets.len() == archives.len(),
        forall|i: int|
            0 <= i < archives.len() ==> {
                &&& (#[trigger] archives[i]).len() <= aligned_vec::aligned_max()
                &&& L::decodable(archives[i].len() as usize)
                &&& model(archives[i]) == Ok::<Packet, rkyv::rancor::Error>(packets[i])
            },
    ensures
        decoding_in_turn::<Packet, L>(model, frames::<L>(archives) + tail, archives.len()) == Some(
            (packets, tail),
        ),
    decreases archives.len(),
{
    if archives.len() == 0 {
        assert(frames::<L>(archives) + tail =~= tail);
        assert(packets =~= Seq::empty());
    } else {
        let later = archives.drop_first();
        let later_packets = packets.drop_first();
        let rest = frames::<L>(later) + tail;
        assert forall|i: int| 0 <= i < later.len() implies {
            &&& (#[trigger] later[i]).len() <= aligned_vec::aligned_max()
            &&& L::decodable(later[i].len() as usize)
            &&& model(later[i]) == Ok::<Packet, rkyv::rancor::Error>(later_packets[i])
        } by {
            assert(later[i] == archives[i + 1]);
        }
        lemma_decoding_in_turn::<Packet, L>(later_packets, later, model, tail);
        assert(archives[0].len() <= aligned_vec::aligned_max());
        law_codec_roundtrip::<L>(archives[0], rest);
        assert(frames::<L>(archives) + tail =~= frame::frame::<L>(archives[0]) + rest);
        assert(seq![packets[0]] + later_packets =~= packets);
    }
}

/// Packets that are encoded in turn into an empty buffer are decoded in the
/// order they were encoded, each taking its own frame off the buffer; then the
/// buffer is empty, and there is no further packet. The archives are those of
/// the packets, in that deserializing gives the packets back.
pub proof fn law_codec_packets<Packet, L: LengthCodec>(
    packets: Seq<Packet>,
    archives: Seq<Seq<u8>>,
    model: spec_fn(Seq<u8>) -> Result<Packet, rkyv::rancor::Error>,
)
    requires
        packets.len() == archives.len(),
        forall|i: int|
            0 <= i < archives.len() ==> {
                &&& (#[trigger] archives[i]).len() <= aligned_vec::aligned_max()
                &&& L::decodable(archives[i].len() as usize)
                &&& model(archives[i]) == Ok::<Packet, rkyv::rancor::Error>(packets[i])
            },
    ensures
        decoding_in_turn::<Packet, L>(
            model,
            appended_in_turn::<L>(Seq::empty(), archives),
            packets.len(),
        ) == Some((packets, Seq::<u8>::empty())),
        framed_codec::frame_complete::<L>(Seq::empty()),
        framed_codec::packet_decoding::<Packet, L>(Seq::empty(), model).0 matches Ok(None),
{
    L::decoding_within(Seq::empty());
    let bytes = frames::<L>(archives);
    law_appends_frames::<L>(Seq::empty(), archives);
    assert(Seq::<u8>::empty() + bytes =~= bytes + Seq::<u8>::empty());
    lemma_decoding_in_turn::<Packet, L>(packets, archives, model, Seq::empty());
}

/// A varint that is cut short is told from one that is wrong: every part of it
/// that lacks its end calls for more bytes.
pub proof fn law_varint_cut_short(length: usize, kept: nat)
    requires
        kept < VarintLength::encoding(length).len(),
    ensures
        VarintLength::decoding(VarintLength::encoding(length).take(kept as int)) == Err::<
            (usize, nat),
            VarintLengthError,
        >(VarintLengthError::Insufficient),
{
    let part = VarintLength::encoding(length).take(kept as int);
    varint::lemma_encoding_shape(length as nat);
    VarintLength::encoding_decodes(length, Seq::empty());
    assert(VarintLength::encoding(length) + Seq::empty() =~= VarintLength::encoding(length));
    varint::lemma_extent_bytes(VarintLength::encoding(length), varint::max_len());
    assert forall|i: int| 0 <= i < part.len() && i < varint::max_len() implies #[trigger] part[i]
        >= 128 by {
        assert(part[i] == varint::varint_encoding(length as nat)[i]);
    }
    varint::lemma_extent_open(part, varint::max_len());
}

/// No two varints stand for one length: bytes that decode to a length, with no
/// bit too many for a `usize`, are the bytes it is encoded to.
pub proof fn law_varint_unique(bytes: Seq<u8>)
    requires
        VarintLength::decoding(bytes) matches Ok((_, used)) && varint::varint_value(
            bytes.take(used as int),
        ) <= usize::MAX,
    ensures
        VarintLength::decoding(bytes) matches Ok((length, used)) && VarintLength::encoding(length)
            == bytes.take(used as int),
{
    varint::lemma_extent_bytes(bytes, varint::max_len());
    if let Ok((_, used)) = VarintLength::decoding(bytes) {
        let whole = bytes.take(used as int);
        assert forall|i: int| 0 <= i < whole.len() - 1 implies #[trigger] whole[i] >= 128 by {
            assert(whole[i] == bytes[i]);
        }
        varint::lemma_encoding_of_value(whole);
    }
}

/// The lengths that come back from a buffer are those below 2^63, or 2^28
/// where a `usize` has 32 bits; the bytes of a longer one are taken for the
/// beginning of a varint.
pub proof fn law_varint_read_limit(length: usize, tail: Seq<u8>)
    requires
        !VarintLength::readable(length),
    ensures
        VarintLength::reading(VarintLength::encoding(length) + tail) == (
            Err::<usize, VarintLengthError>(VarintLengthError::Insufficient),
            varint::max_read(),
        ),
{
    let encoded = varint::varint_encoding(length as nat);
    let bytes = encoded + tail;
    varint::lemma_range_values();
    varint::lemma_encoding_len(length as nat, varint::max_read());
    varint::lemma_encoding_shape(length as nat);
    assert forall|i: int|
        0 <= i < bytes.len() && i < varint::max_read() implies #[trigger] bytes[i] >= 128 by {
        assert(bytes[i] == encoded[i]);
    }
    varint::lemma_extent_open(bytes, varint::max_read());
}

/// A length too large for its fixed width loses its upper bytes: what comes
/// back is its remainder.
pub proof fn law_fixed_width_truncates(length: usize, width: nat, tail: Seq<u8>)
    ensures
        big_endian::be_decoding(big_endian::be_encoding(length as nat, width) + tail, width)
            matches Ok((decoded, used)) && used == width && decoded == length as nat
            % big_endian::be_range(width),
{
    let encoded = big_endian::be_encoding(length as nat, width);
    let kept = length as nat % big_endian::be_range(width);
    big_endian::lemma_be_encoding_len(length as nat, width);
    big_endian::lemma_be_value_remainder(length as nat, width);
    assert((encoded + tail).take(width as int) =~= encoded);
}

} // verus!
