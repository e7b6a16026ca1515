//! What a writer does, call by call, and that a flush comes to its end.
use crate::error::RkyvCodecError;
use crate::laws;
use crate::length_codec::LengthCodec;
use crate::rkyv_codec;
use crate::rkyv_codec::{FlushAction, FlushEvent, RkyvWriter, Unsent};
use vstd::prelude::*;

verus! {

/// A new writer has nothing to offer, and gives its stream back.
pub proof fn law_new_writer<Writer, L: LengthCodec>(
    stream: Writer,
    fresh: RkyvWriter<Writer, L>,
    length: &mut RkyvWriter<Writer, L>,
    length_offer: (&mut Writer, &[u8]),
    body: &mut RkyvWriter<Writer, L>,
    body_offer: (&mut Writer, &[u8]),
    given_back: Writer,
)
    requires
        call_ensures(RkyvWriter::<Writer, L>::new, (stream,), fresh),
        *length == fresh,
        call_ensures(RkyvWriter::<Writer, L>::offer_length, (length,), length_offer),
        *body == fresh,
        call_ensures(RkyvWriter::<Writer, L>::offer_body, (body,), body_offer),
        call_ensures(RkyvWriter::<Writer, L>::inner, (fresh,), given_back),
    ensures
        fresh.wf(),
        length_offer.1@.len() == 0,
        body_offer.1@.len() == 0,
        *old(length_offer.0) == stream,
        *old(body_offer.0) == stream,
        given_back == stream,
{
}

/// What a writer offers is what it has yet to send; offering changes nothing but
/// what is done to the stream.
pub proof fn law_offers<Writer, L: LengthCodec>(
    length: &mut RkyvWriter<Writer, L>,
    length_offer: (&mut Writer, &[u8]),
    body: &mut RkyvWriter<Writer, L>,
    body_offer: (&mut Writer, &[u8]),
    reached: &mut RkyvWriter<Writer, L>,
    stream: &mut Writer,
)
    requires
        call_ensures(RkyvWriter::<Writer, L>::offer_length, (length,), length_offer),
        call_ensures(RkyvWriter::<Writer, L>::offer_body, (body,), body_offer),
        call_ensures(RkyvWriter::<Writer, L>::stream_mut, (reached,), stream),
    ensures
        length_offer.1@ == old(length).unsent().length,
        *old(length_offer.0) == old(length).stream(),
        final(length).stream() == *final(length_offer.0),
        final(length).unsent() == old(length).unsent(),
        final(length).sent() == old(length).sent(),
        final(length).wf(),
        body_offer.1@ == old(body).unsent().body,
        *old(body_offer.0) == old(body).stream(),
        final(body).stream() == *final(body_offer.0),
        final(body).unsent() == old(body).unsent(),
        final(body).sent() == old(body).sent(),
        final(body).wf(),
        *old(stream) == old(reached).stream(),
        final(reached).stream() == *final(stream),
        final(reached).unsent() == old(reached).unsent(),
        final(reached).sent() == old(reached).sent(),
        final(reached).wf() == old(reached).wf(),
{
}

/// A writer that was given a serialized packet offers the encoded length of its
/// archive, and the archive, whatever it had to send before.
pub proof fn law_start_send_offers<Writer, L: LengthCodec>(
    writer: &mut RkyvWriter<Writer, L>,
    archived: &[u8],
    result: Result<(), RkyvCodecError<L>>,
    length: &mut RkyvWriter<Writer, L>,
    length_offer: (&mut Writer, &[u8]),
    body: &mut RkyvWriter<Writer, L>,
    body_offer: (&mut Writer, &[u8]),
)
    requires
        call_ensures(RkyvWriter::<Writer, L>::start_send, (writer, archived, Ok(())), result),
        *length == *final(writer),
        call_ensures(RkyvWriter::<Writer, L>::offer_length, (length,), length_offer),
        *body == *final(writer),
        call_ensures(RkyvWriter::<Writer, L>::offer_body, (body,), body_offer),
    ensures
        result is Ok,
        length_offer.1@ == L::encoding(archived@.len() as usize),
        body_offer.1@ == archived@,
        final(writer).stream() == old(writer).stream(),
        final(writer).sent() == 0,
        final(writer).wf(),
{
}

/// A packet that could not be serialized is an error, and leaves the length and
/// the position in the archive as they were; what was written of it is what the
/// writer goes on with from there.
pub proof fn law_start_send_fails<Writer, L: LengthCodec>(
    writer: &mut RkyvWriter<Writer, L>,
    written: &[u8],
    fault: rkyv::rancor::Error,
    result: Result<(), RkyvCodecError<L>>,
)
    requires
        call_ensures(RkyvWriter::<Writer, L>::start_send, (writer, written, Err(fault)), result),
    ensures
        result matches Err(RkyvCodecError::SerializeError),
        final(writer).unsent().length == old(writer).unsent().length,
        old(writer).sent() <= written@.len() ==> final(writer).unsent().body == written@.skip(
            old(writer).sent() as int,
        ),
        old(writer).sent() > written@.len() ==> final(writer).unsent().body.len() == 0,
        final(writer).sent() == old(writer).sent(),
        final(writer).stream() == old(writer).stream(),
        final(writer).wf(),
{
}

/// A writer takes in every packet that its buffer can hold, and every event that
/// tells of no more bytes than were offered.
pub proof fn law_writer_admits<Writer, L: LengthCodec>(
    writer: &mut RkyvWriter<Writer, L>,
    written: &[u8],
    serialized: Result<(), rkyv::rancor::Error>,
    event: FlushEvent,
)
    requires
        writer.wf(),
    ensures
        written@.len() <= isize::MAX - 15 ==> call_requires(
            RkyvWriter::<Writer, L>::start_send,
            (writer, written, serialized),
        ),
        call_requires(RkyvWriter::<Writer, L>::offer_length, (writer,)),
        call_requires(RkyvWriter::<Writer, L>::offer_body, (writer,)),
        match event {
            FlushEvent::LengthWritten(count) => count <= old(writer).unsent().length.len(),
            FlushEvent::BodyWritten(count) => count <= old(writer).unsent().body.len(),
            _ => true,
        } ==> call_requires(RkyvWriter::<Writer, L>::poll_flush, (writer, event)),
{
}

/// What a stream takes leaves the front of what the writer has to send, and
/// nothing else changes what that is.
pub proof fn law_flush_advances<Writer, L: LengthCodec>(
    writer: &mut RkyvWriter<Writer, L>,
    event: FlushEvent,
    action: FlushAction<L>,
)
    requires
        call_ensures(RkyvWriter::<Writer, L>::poll_flush, (writer, event), action),
    ensures
        final(writer).stream() == old(writer).stream(),
        final(writer).wf(),
        match event {
            FlushEvent::LengthWritten(count) => {
                &&& final(writer).unsent().length == old(writer).unsent().length.skip(count as int)
                &&& final(writer).unsent().body == old(writer).unsent().body
                &&& final(writer).sent() == old(writer).sent()
            },
            FlushEvent::BodyWritten(count) => {
                &&& final(writer).unsent().length == old(writer).unsent().length
                &&& final(writer).unsent().body == old(writer).unsent().body.skip(count as int)
                &&& final(writer).sent() == old(writer).sent() + count
            },
            _ => {
                &&& final(writer).unsent() == old(writer).unsent()
                &&& final(writer).sent() == old(writer).sent()
            },
        },
{
}

/// The length is offered first, and for as long as some of it is left; then the
/// archive, for as long as some of it is left; and the stream is flushed exactly
/// where nothing is left.
pub proof fn law_flush_asks_for_what_is_left<Writer, L: LengthCodec>(
    writer: &mut RkyvWriter<Writer, L>,
    event: FlushEvent,
    action: FlushAction<L>,
)
    requires
        call_ensures(RkyvWriter::<Writer, L>::poll_flush, (writer, event), action),
    ensures
        ({
            let length_left = final(writer).unsent().length.len();
            let body_left = final(writer).unsent().body.len();
            match event {
                FlushEvent::Polled => action is WriteLength,
                FlushEvent::LengthWritten(count) => if length_left > 0 {
                    count > 0 ==> action is WriteLength
                } else if body_left > 0 {
                    action is WriteBody
                } else {
                    action is FlushStream
                },
                FlushEvent::BodyWritten(count) => count > 0 ==> if body_left > 0 {
                    action is WriteBody
                } else {
                    action is FlushStream
                },
                _ => action is Done,
            }
        }),
{
}

/// The stream is taken to be at its end exactly where it took nothing of what it
/// was offered.
pub proof fn law_flush_end_of_stream<Writer, L: LengthCodec>(
    writer: &mut RkyvWriter<Writer, L>,
    event: FlushEvent,
    action: FlushAction<L>,
)
    requires
        call_ensures(RkyvWriter::<Writer, L>::poll_flush, (writer, event), action),
        event is BodyWritten ==> writer.unsent().body.len() > 0,
    ensures
        action matches FlushAction::Done(Err(RkyvCodecError::EOFError)) <==> match event {
            FlushEvent::LengthWritten(count) => count == 0 && old(writer).unsent().length.len() > 0,
            FlushEvent::BodyWritten(count) => count == 0,
            _ => false,
        },
{
}

/// A flush ends well exactly with a flush of the stream that succeeded; and
/// exactly a failure of the stream, whenever it comes, ends it with that
/// failure.
pub proof fn law_flush_outcome<Writer, L: LengthCodec>(
    writer: &mut RkyvWriter<Writer, L>,
    event: FlushEvent,
    action: FlushAction<L>,
)
    requires
        call_ensures(RkyvWriter::<Writer, L>::poll_flush, (writer, event), action),
    ensures
        action matches FlushAction::Done(Ok(())) <==> event is Flushed,
        match (event, action) {
            (FlushEvent::Failed(cause), FlushAction::Done(Err(RkyvCodecError::IoError(error)))) =>
                error == cause,
            (FlushEvent::Failed(_), _) => false,
            (_, FlushAction::Done(Err(error))) => error is EOFError,
            _ => true,
        },
{
}

/// What the rules of a flush say of its outcome, whatever there is to send: it is
/// well exactly where the stream's flush succeeded, and a failure of the stream
/// is handed on.
pub proof fn law_flush_rules<L: LengthCodec>(
    unsent: Unsent,
    event: FlushEvent,
    error: std::io::Error,
)
    ensures
        rkyv_codec::flush_next::<L>(unsent, event) matches FlushAction::Done(Ok(())) <==> event
            is Flushed,
        rkyv_codec::flush_next::<L>(unsent, FlushEvent::Failed(error)) == FlushAction::<L>::Done(
            Err(RkyvCodecError::IoError(error)),
        ),
        rkyv_codec::flush_next::<L>(unsent, event) matches FlushAction::Done(
            Err(RkyvCodecError::EOFError),
        ) ==> match event {
            FlushEvent::LengthWritten(count) => count == 0,
            FlushEvent::BodyWritten(count) => count == 0,
            _ => false,
        },
{
}

/// Whether the stream makes progress with each of `events`: it takes something of
/// what it is offered, if there is something, and its flush succeeds.
pub open spec fn progressing(unsent: Unsent, events: Seq<FlushEvent>) -> bool
    decreases events.len(),
{
    events.len() == 0 || {
        &&& match events[0] {
            FlushEvent::LengthWritten(count) => count > 0 || unsent.length.len() == 0,
            FlushEvent::BodyWritten(count) => count > 0,
            FlushEvent::Flushed => true,
            FlushEvent::Polled => false,
            FlushEvent::Failed(_) => false,
        }
        &&& progressing(rkyv_codec::flush_unsent(unsent, events[0]), events.drop_first())
    }
}

/// A flush of a stream that makes progress comes to a good end: it never ends in
/// an error, it goes on for at most as many events as there are bytes to send,
/// and two, and where it is over it has ended well.
pub proof fn law_flush_ends_well<L: LengthCodec>(unsent: Unsent, events: Seq<FlushEvent>)
    requires
        laws::run_possible(unsent, events),
        laws::run_answers::<L>(FlushAction::WriteLength, unsent, events),
        progressing(unsent, events),
    ensures
        ({
            let most = unsent.length.len() + unsent.body.len() + 2;
            let action = laws::run_action::<L>(FlushAction::WriteLength, unsent, events);
            &&& events.len() <= most
            &&& action is Done ==> (action matches FlushAction::Done(Ok(())))
            &&& events.len() == most ==> (action matches FlushAction::Done(Ok(())))
        }),
{
    lemma_progress::<L>(FlushAction::WriteLength, unsent, events);
}

/// How many events a writer can still go through that asks for `action`.
spec fn events_left<L: LengthCodec>(action: FlushAction<L>, unsent: Unsent) -> nat {
    match action {
        FlushAction::WriteLength => unsent.length.len() + unsent.body.len() + 2,
        FlushAction::WriteBody => unsent.body.len() + 1,
        FlushAction::FlushStream => 1,
        FlushAction::Done(_) => 0,
    }
}

/// Each event that makes progress brings a flush closer to its end.
proof fn lemma_progress<L: LengthCodec>(
    action: FlushAction<L>,
    unsent: Unsent,
    events: Seq<FlushEvent>,
)
    requires
        !(action matches FlushAction::Done(Err(_))),
        action is WriteBody ==> unsent.body.len() > 0,
        laws::run_possible(unsent, events),
        laws::run_answers::<L>(action, unsent, events),
        progressing(unsent, events),
    ensures
        events.len() + events_left::<L>(
            laws::run_action::<L>(action, unsent, events),
            laws::run_unsent(unsent, events),
        ) <= events_left::<L>(action, unsent),
        !(laws::run_action::<L>(action, unsent, events) matches FlushAction::Done(Err(_))),
    decreases events.len(),
{
    if events.len() > 0 {
        lemma_progress::<L>(
            rkyv_codec::flush_next::<L>(unsent, events[0]),
            rkyv_codec::flush_unsent(unsent, events[0]),
            events.drop_first(),
        );
    }
}

/// Any stream can be wrapped, reached and given back.
pub proof fn law_streams_can_be_wrapped<Writer, L: LengthCodec>(
    stream: Writer,
    writer: &mut RkyvWriter<Writer, L>,
    wrapped: RkyvWriter<Writer, L>,
    given_back: Writer,
)
    requires
        call_ensures(RkyvWriter::<Writer, L>::inner, (wrapped,), given_back),
    ensures
        call_requires(RkyvWriter::<Writer, L>::new, (stream,)),
        call_requires(RkyvWriter::<Writer, L>::stream_mut, (writer,)),
        call_requires(RkyvWriter::<Writer, L>::inner, (wrapped,)),
        given_back == wrapped.stream(),
{
}

} // verus!
