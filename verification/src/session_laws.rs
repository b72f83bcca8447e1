//! What holds of a session as a whole: of the messages that its writer writes and its reader
//! receives, of the events that the reader announces, and of how both come to an end.
use vstd::prelude::*;

use crate::data::VerifiedPeerMessage;
use crate::peer_service::{PeerEvent, PeerEventKind, SessionId};
use crate::session::{
    arrival_of, buffer_after, end_of, new_reader, read_action, reader_after, received,
    write_action, write_phase, ReadActionView, ReadInput, ReadPhase, ReaderView, ReceiveError,
    ReceivedView, StreamItem, WriteAction, WriteEvent, WritePhase, BUF_SIZE, MESSAGE_DELIMITER,
};

verus! {

/// What a reader that already holds `buffer` receives out of `items`, up to the first failure.
pub open spec fn receive_all(buffer: Seq<u8>, items: Seq<StreamItem>) -> Seq<ReceivedView>
    decreases items.len(),
{
    if items.len() == 0 {
        Seq::empty()
    } else {
        let rest = receive_all(buffer_after(buffer, items[0]), items.drop_first());
        match received(buffer, items[0]) {
            ReceivedView::More => rest,
            ReceivedView::Text(text) => seq![ReceivedView::Text(text)] + rest,
            ReceivedView::Failed(error) => seq![ReceivedView::Failed(error)],
        }
    }
}

/// The items that a reader gets when `bytes` come in over the connection.
pub open spec fn as_items(bytes: Seq<u8>) -> Seq<StreamItem> {
    bytes.map_values(|byte: u8| StreamItem::Byte(byte))
}

/// The bytes that an action of a session's writer puts on the connection.
pub open spec fn bytes_of(action: WriteAction) -> Seq<u8> {
    match action {
        WriteAction::WriteText(text) => text@,
        WriteAction::WriteDelimiter(byte) => seq![byte],
        _ => Seq::empty(),
    }
}

/// The bytes that a session's writer puts on the connection for messages with `texts`, as long
/// as each write succeeds.
pub open spec fn written(texts: Seq<Vec<u8>>) -> Seq<u8>
    decreases texts.len(),
{
    if texts.len() == 0 {
        Seq::empty()
    } else {
        bytes_of(write_action(WritePhase::Message, WriteEvent::Message(texts[0]))) + bytes_of(
            write_action(WritePhase::Text, WriteEvent::TextWritten),
        ) + bytes_of(write_action(WritePhase::Delimiter, WriteEvent::DelimiterWritten)) + written(
            texts.drop_first(),
        )
    }
}

/// `text` holds no delimiter.
pub open spec fn is_delimitable(text: Seq<u8>) -> bool {
    forall|i: int| 0 <= i < text.len() ==> #[trigger] text[i] != MESSAGE_DELIMITER
}

/// Bytes that end no message and for which there is room are added to the buffer.
proof fn lemma_text_is_buffered(buffer: Seq<u8>, text: Seq<u8>, rest: Seq<StreamItem>)
    requires
        is_delimitable(text),
        buffer.len() + text.len() <= BUF_SIZE,
    ensures
        receive_all(buffer, as_items(text) + rest) == receive_all(buffer + text, rest),
    decreases text.len(),
{
    let items = as_items(text) + rest;
    if text.len() == 0 {
        assert(items =~= rest);
        assert(buffer + text =~= buffer);
    } else {
        assert(items[0] == StreamItem::Byte(text[0]));
        assert(items.drop_first() =~= as_items(text.drop_first()) + rest);
        assert forall|i: int| 0 <= i < text.drop_first().len() implies #[trigger] text.drop_first()[i]
            != MESSAGE_DELIMITER by {
            assert(text.drop_first()[i] == text[i + 1]);
        }
        lemma_text_is_buffered(buffer.push(text[0]), text.drop_first(), rest);
        assert(buffer.push(text[0]) + text.drop_first() =~= buffer + text);
    }
}

/// What one peer writes, the other reads: each message is received with the text it was
/// written with, in order, whatever comes in behind. (The texts of messages are UTF-8, hold no
/// zero byte and fit into the buffer.)
pub proof fn law_written_messages_are_received(texts: Seq<Vec<u8>>, rest: Seq<StreamItem>)
    requires
        forall|i: int|
            0 <= i < texts.len() ==> {
                &&& is_delimitable((#[trigger] texts[i])@)
                &&& vstd::utf8::valid_utf8(texts[i]@)
                &&& texts[i]@.len() < BUF_SIZE
            },
    ensures
        receive_all(Seq::empty(), as_items(written(texts)) + rest) == texts.map_values(
            |text: Vec<u8>| ReceivedView::Text(vstd::utf8::decode_utf8(text@)),
        ) + receive_all(Seq::empty(), rest),
    decreases texts.len(),
{
    let as_text = |text: Vec<u8>| ReceivedView::Text(vstd::utf8::decode_utf8(text@));
    if texts.len() == 0 {
        assert(as_items(written(texts)) + rest =~= rest);
        assert(texts.map_values(as_text) + receive_all(Seq::empty(), rest) =~= receive_all(
            Seq::empty(),
            rest,
        ));
    } else {
        let text = texts[0]@;
        let others = texts.drop_first();
        let behind = as_items(written(others)) + rest;
        let delimited = seq![StreamItem::Byte(MESSAGE_DELIMITER)] + behind;
        assert(as_items(written(texts)) + rest =~= as_items(text) + delimited);
        lemma_text_is_buffered(Seq::empty(), text, delimited);
        assert(Seq::<u8>::empty() + text =~= text);
        assert(delimited.drop_first() =~= behind);
        assert forall|i: int| 0 <= i < others.len() implies {
            &&& is_delimitable((#[trigger] others[i])@)
            &&& vstd::utf8::valid_utf8(others[i]@)
            &&& others[i]@.len() < BUF_SIZE
        } by {
            assert(others[i] == texts[i + 1]);
        }
        law_written_messages_are_received(others, rest);
        assert(texts.map_values(as_text) =~= seq![as_text(texts[0])] + others.map_values(as_text));
        assert(receive_all(text, delimited) =~= seq![as_text(texts[0])] + receive_all(
            Seq::empty(),
            behind,
        ));
        assert(texts.map_values(as_text) + receive_all(Seq::empty(), rest) =~= seq![
            as_text(texts[0]),
        ] + (others.map_values(as_text) + receive_all(Seq::empty(), rest)));
    }
}

/// A message that does not fit into the buffer is not received, even if only its delimiter
/// does not fit.
pub proof fn law_long_message_is_refused(text: Seq<u8>, rest: Seq<StreamItem>)
    requires
        is_delimitable(text),
        text.len() >= BUF_SIZE,
    ensures
        receive_all(
            Seq::empty(),
            as_items(text) + (seq![StreamItem::Byte(MESSAGE_DELIMITER)] + rest),
        ) == seq![ReceivedView::Failed(ReceiveError::TooLong)],
{
    let behind = seq![StreamItem::Byte(MESSAGE_DELIMITER)] + rest;
    let head = text.take(BUF_SIZE as int);
    let tail = as_items(text.skip(BUF_SIZE as int)) + behind;
    assert(as_items(text) + behind =~= as_items(head) + tail);
    lemma_text_is_buffered(Seq::empty(), head, tail);
    assert(Seq::<u8>::empty() + head =~= head);
    assert(tail[0] is Byte);
}

/// Interrupted reads change nothing.
pub proof fn law_interruptions_change_nothing(buffer: Seq<u8>, items: Seq<StreamItem>)
    ensures
        receive_all(buffer, items) == receive_all(
            buffer,
            items.filter(|item: StreamItem| item !is Interrupted),
        ),
    decreases items.len(),
{
    let kept = |item: StreamItem| item !is Interrupted;
    if items.len() > 0 {
        let first = items[0];
        let others = items.drop_first();
        law_interruptions_change_nothing(buffer_after(buffer, first), others);
        assert(items =~= seq![first] + others);
        Seq::filter_distributes_over_add(seq![first], others, kept);
        reveal(Seq::filter);
        assert(seq![first].drop_last() =~= Seq::empty());
        let filtered = items.filter(kept);
        assert(seq![first].filter(kept) == if kept(first) {
            Seq::<StreamItem>::empty().filter(kept).push(first)
        } else {
            Seq::<StreamItem>::empty().filter(kept)
        });
        if first is Interrupted {
            assert(filtered =~= others.filter(kept));
        } else {
            assert(filtered =~= seq![first] + others.filter(kept));
            assert(filtered.drop_first() =~= others.filter(kept));
        }
    } else {
        reveal(Seq::filter);
    }
}

/// The stream is split at zero bytes: such a byte ends a message, which is received as the text
/// that the bytes before it encode, if they are UTF-8; any other byte is kept for the message, if
/// there are fewer than 65536 before it. What is kept is given up once a message is received or
/// has failed.
pub proof fn law_stream_is_split_at_zero_bytes(buffer: Seq<u8>, byte: u8)
    ensures
        received(buffer, StreamItem::Interrupted) is More,
        buffer_after(buffer, StreamItem::Interrupted) == buffer,
        received(buffer, StreamItem::End) == ReceivedView::Failed(ReceiveError::UnexpectedEnd),
        buffer.len() >= 65536 ==> received(buffer, StreamItem::Byte(byte)) == ReceivedView::Failed(
            ReceiveError::TooLong,
        ) && received(buffer, StreamItem::Failed) == ReceivedView::Failed(ReceiveError::TooLong),
        buffer.len() < 65536 ==> received(buffer, StreamItem::Failed) == ReceivedView::Failed(
            ReceiveError::ReadFailed,
        ),
        buffer.len() < 65536 && byte != 0 ==> {
            &&& received(buffer, StreamItem::Byte(byte)) is More
            &&& buffer_after(buffer, StreamItem::Byte(byte)) == buffer.push(byte)
        },
        buffer.len() < 65536 && byte == 0 ==> received(buffer, StreamItem::Byte(byte))
            == if vstd::utf8::valid_utf8(buffer) {
            ReceivedView::Text(vstd::utf8::decode_utf8(buffer))
        } else {
            ReceivedView::Failed(ReceiveError::NotUtf8)
        },
        forall|item: StreamItem|
            !(#[trigger] received(buffer, item) is More) ==> buffer_after(buffer, item).len() == 0,
{
}

/// A message that a text was decoded to is announced as it is, of whatever kind it is, under the
/// session that it came in over, and the reader reads on. A text that gave no message ends the
/// session, which is announced under its number.
pub proof fn law_message_is_announced_as_it_is(
    reader: ReaderView,
    message: VerifiedPeerMessage,
    error: ReceiveError,
)
    requires
        reader.phase is Message,
    ensures
        ({
            let input = ReadInput::Message(Ok(message));
            &&& read_action(reader, input) is Deliver
            &&& read_action(reader, input)->Deliver_0.session_id == reader.session_id
            &&& read_action(reader, input)->Deliver_0.event_kind == PeerEventKind::NewMessage(
                message,
            )
            &&& reader_after(reader, input).phase is Item
            &&& reader_after(reader, input).session_id == reader.session_id
            &&& reader_after(reader, input).buffer == reader.buffer
        }),
        ({
            let input = ReadInput::Message(Err(error));
            &&& read_action(reader, input) is Close
            &&& read_action(reader, input)->Close_0.session_id == reader.session_id
            &&& read_action(reader, input)->Close_0.event_kind is Disconnected
            &&& reader_after(reader, input).phase is Closed
        }),
{
}

/// A reader that waits for bytes does with each item what comes of it: it reads on while the
/// message is not complete, hands its text over once it is, and ends the session once it has
/// failed.
pub proof fn law_reader_does_what_was_received(reader: ReaderView, item: StreamItem)
    requires
        reader.phase is Item,
    ensures
        ({
            let input = ReadInput::Item(item);
            let action = read_action(reader, input);
            let next = reader_after(reader, input);
            &&& next.session_id == reader.session_id
            &&& next.buffer == buffer_after(reader.buffer, item)
            &&& match received(reader.buffer, item) {
                ReceivedView::More => action is Read && next.phase is Item,
                ReceivedView::Text(text) => {
                    &&& action is Decode
                    &&& action->Decode_0 == text
                    &&& next.phase is Message
                },
                ReceivedView::Failed(_) => {
                    &&& action is Close
                    &&& action->Close_0.session_id == reader.session_id
                    &&& action->Close_0.event_kind is Disconnected
                    &&& next.phase is Closed
                },
            }
        }),
{
}

/// Two messages that come in one after the other over a session are announced in that order, each
/// as it is, and nothing that a reader announced of one message bears on the next.
pub proof fn law_messages_are_announced_apart(
    reader: ReaderView,
    first: VerifiedPeerMessage,
    second: VerifiedPeerMessage,
)
    requires
        reader.phase is Message,
        reader.buffer.len() == 0,
    ensures
        ({
            let read_on = reader_after(reader, ReadInput::Message(Ok(first)));
            let again = reader_after(read_on, ReadInput::Item(StreamItem::Byte(0)));
            &&& again == reader
            &&& announced(read_action(reader, ReadInput::Message(Ok(first)))) + announced(
                read_action(again, ReadInput::Message(Ok(second))),
            ) == seq![
                PeerEvent {
                    session_id: reader.session_id,
                    event_kind: PeerEventKind::NewMessage(first),
                },
                PeerEvent {
                    session_id: reader.session_id,
                    event_kind: PeerEventKind::NewMessage(second),
                },
            ]
        }),
{
    let read_on = reader_after(reader, ReadInput::Message(Ok(first)));
    let again = reader_after(read_on, ReadInput::Item(StreamItem::Byte(0)));
    assert(reader.buffer =~= Seq::empty());
    assert(vstd::utf8::valid_utf8(Seq::empty()));
    assert(again.buffer =~= reader.buffer);
}

/// The reader of a session once it was given `inputs`.
pub open spec fn reader_run(session_id: SessionId, inputs: Seq<ReadInput>) -> ReaderView
    decreases inputs.len(),
{
    if inputs.len() == 0 {
        new_reader(session_id)
    } else {
        reader_after(reader_run(session_id, inputs.drop_last()), inputs.last())
    }
}

/// The events that an action of a session's reader announces.
pub open spec fn announced(action: ReadActionView) -> Seq<PeerEvent> {
    match action {
        ReadActionView::Deliver(event) | ReadActionView::Close(event) => seq![event],
        _ => Seq::empty(),
    }
}

/// The events that the reader of a session announces while it is given `inputs`.
pub open spec fn announcements(session_id: SessionId, inputs: Seq<ReadInput>) -> Seq<PeerEvent>
    decreases inputs.len(),
{
    if inputs.len() == 0 {
        Seq::empty()
    } else {
        let before = inputs.drop_last();
        announcements(session_id, before) + announced(
            read_action(reader_run(session_id, before), inputs.last()),
        )
    }
}

/// A reader never holds more bytes than the buffer's size, whatever it is given.
pub proof fn law_buffer_is_bounded(session_id: SessionId, inputs: Seq<ReadInput>)
    ensures
        reader_run(session_id, inputs).buffer.len() <= BUF_SIZE,
    decreases inputs.len(),
{
    if inputs.len() > 0 {
        law_buffer_is_bounded(session_id, inputs.drop_last());
    }
}

/// Whatever a reader is given, it announces messages of its session, and then, if the session
/// ends, that end: once, and as the last event.
pub proof fn law_end_is_announced_once_and_last(session_id: SessionId, inputs: Seq<ReadInput>)
    ensures
        ({
            let events = announcements(session_id, inputs);
            let closed = reader_run(session_id, inputs).phase is Closed;
            &&& closed ==> events.len() > 0 && events.last() == end_of(session_id)
            &&& closed ==> events.last().session_id == session_id && events.last().event_kind
                is Disconnected
            &&& forall|i: int|
                0 <= i < events.len() - if closed { 1int } else { 0int } ==> {
                    &&& (#[trigger] events[i]).session_id == session_id
                    &&& events[i].event_kind is NewMessage
                }
        }),
        reader_run(session_id, inputs).session_id == session_id,
    decreases inputs.len(),
{
    if inputs.len() > 0 {
        law_end_is_announced_once_and_last(session_id, inputs.drop_last());
    }
}

/// A reader that has announced the end of its session stays as it is and announces nothing
/// more, whatever it is given.
pub proof fn law_nothing_is_announced_after_the_end(
    session_id: SessionId,
    inputs: Seq<ReadInput>,
    more: Seq<ReadInput>,
)
    requires
        reader_run(session_id, inputs).phase is Closed,
    ensures
        announcements(session_id, inputs + more) == announcements(session_id, inputs),
        reader_run(session_id, inputs + more) == reader_run(session_id, inputs),
    decreases more.len(),
{
    if more.len() == 0 {
        assert(inputs + more =~= inputs);
    } else {
        law_nothing_is_announced_after_the_end(session_id, inputs, more.drop_last());
        assert((inputs + more).drop_last() =~= inputs + more.drop_last());
    }
}

/// The events that `reader` announces while `items` are read from the connection, if `decode`
/// tells what becomes of a text.
pub open spec fn session_events(
    reader: ReaderView,
    items: Seq<StreamItem>,
    decode: spec_fn(Seq<char>) -> Result<VerifiedPeerMessage, ReceiveError>,
) -> Seq<PeerEvent>
    decreases items.len(),
{
    if items.len() == 0 {
        Seq::empty()
    } else {
        let action = read_action(reader, ReadInput::Item(items[0]));
        let next = reader_after(reader, ReadInput::Item(items[0]));
        match action {
            ReadActionView::Decode(text) => {
                let outcome = ReadInput::Message(decode(text));
                announced(read_action(next, outcome)) + session_events(
                    reader_after(next, outcome),
                    items.drop_first(),
                    decode,
                )
            },
            _ => announced(action) + session_events(next, items.drop_first(), decode),
        }
    }
}

/// The events of a session over which `outcomes` are received: the messages up to the first
/// that fails, and then the end.
pub open spec fn events_of(
    session_id: SessionId,
    outcomes: Seq<ReceivedView>,
    decode: spec_fn(Seq<char>) -> Result<VerifiedPeerMessage, ReceiveError>,
) -> Seq<PeerEvent>
    decreases outcomes.len(),
{
    if outcomes.len() == 0 {
        Seq::empty()
    } else {
        let rest = events_of(session_id, outcomes.drop_first(), decode);
        match outcomes[0] {
            ReceivedView::More => rest,
            ReceivedView::Text(text) => match decode(text) {
                Ok(message) => seq![arrival_of(session_id, message)] + rest,
                Err(_) => seq![end_of(session_id)],
            },
            ReceivedView::Failed(_) => seq![end_of(session_id)],
        }
    }
}

/// A reader that has stopped announces nothing.
proof fn lemma_closed_reader_is_silent(
    reader: ReaderView,
    items: Seq<StreamItem>,
    decode: spec_fn(Seq<char>) -> Result<VerifiedPeerMessage, ReceiveError>,
)
    requires
        reader.phase is Closed,
    ensures
        session_events(reader, items, decode) == Seq::<PeerEvent>::empty(),
    decreases items.len(),
{
    if items.len() > 0 {
        lemma_closed_reader_is_silent(reader, items.drop_first(), decode);
    }
}

/// The events of a session are those of the messages received over it, up to the first failure
/// to receive, decode or verify one; that failure is announced as the end.
pub proof fn law_received_messages_are_announced(
    session_id: SessionId,
    buffer: Seq<u8>,
    items: Seq<StreamItem>,
    decode: spec_fn(Seq<char>) -> Result<VerifiedPeerMessage, ReceiveError>,
)
    ensures
        session_events(
            ReaderView { session_id, buffer, phase: ReadPhase::Item },
            items,
            decode,
        ) == events_of(session_id, receive_all(buffer, items), decode),
    decreases items.len(),
{
    if items.len() > 0 {
        let reader = ReaderView { session_id, buffer, phase: ReadPhase::Item };
        let next = reader_after(reader, ReadInput::Item(items[0]));
        let others = items.drop_first();
        let rest = receive_all(next.buffer, others);
        law_received_messages_are_announced(session_id, next.buffer, others, decode);
        match received(buffer, items[0]) {
            ReceivedView::More => {
                assert(session_events(reader, items, decode) =~= session_events(
                    next,
                    others,
                    decode,
                ));
            },
            ReceivedView::Text(text) => {
                assert((seq![ReceivedView::Text(text)] + rest).drop_first() =~= rest);
                if decode(text) is Err {
                    lemma_closed_reader_is_silent(
                        reader_after(next, ReadInput::Message(decode(text))),
                        others,
                        decode,
                    );
                }
            },
            ReceivedView::Failed(error) => {
                lemma_closed_reader_is_silent(next, others, decode);
            },
        }
    }
}

/// Texts that are decoded are announced as their messages.
proof fn lemma_events_of_texts(
    session_id: SessionId,
    texts: Seq<Vec<u8>>,
    rest: Seq<ReceivedView>,
    decode: spec_fn(Seq<char>) -> Result<VerifiedPeerMessage, ReceiveError>,
)
    requires
        forall|i: int|
            0 <= i < texts.len() ==> decode(
                vstd::utf8::decode_utf8((#[trigger] texts[i])@),
            ) is Ok,
    ensures
        events_of(
            session_id,
            texts.map_values(
                |text: Vec<u8>| ReceivedView::Text(vstd::utf8::decode_utf8(text@)),
            ) + rest,
            decode,
        ) == texts.map_values(
            |text: Vec<u8>|
                arrival_of(session_id, decode(vstd::utf8::decode_utf8(text@))->Ok_0),
        ) + events_of(session_id, rest, decode),
    decreases texts.len(),
{
    let as_text = |text: Vec<u8>| ReceivedView::Text(vstd::utf8::decode_utf8(text@));
    let as_event = |text: Vec<u8>|
        arrival_of(session_id, decode(vstd::utf8::decode_utf8(text@))->Ok_0);
    let outcomes = texts.map_values(as_text) + rest;
    if texts.len() == 0 {
        assert(outcomes =~= rest);
        assert(texts.map_values(as_event) + events_of(session_id, rest, decode) =~= events_of(
            session_id,
            rest,
            decode,
        ));
    } else {
        let others = texts.drop_first();
        assert forall|i: int| 0 <= i < others.len() implies decode(
            vstd::utf8::decode_utf8((#[trigger] others[i])@),
        ) is Ok by {
            assert(others[i] == texts[i + 1]);
        }
        lemma_events_of_texts(session_id, others, rest, decode);
        assert(outcomes[0] == as_text(texts[0]));
        assert(decode(vstd::utf8::decode_utf8(texts[0]@)) is Ok);
        assert(outcomes.drop_first() =~= others.map_values(as_text) + rest);
        assert(texts.map_values(as_event) =~= seq![as_event(texts[0])] + others.map_values(
            as_event,
        ));
        assert(events_of(session_id, outcomes, decode) =~= texts.map_values(as_event) + events_of(
            session_id,
            rest,
            decode,
        ));
    }
}

/// What one peer writes, the other's reader announces: the messages in order and then, when the
/// connection ends or fails, the end of the session, with nothing behind it. (The texts of
/// messages are UTF-8, hold no zero byte, fit into the buffer, and are decoded.)
pub proof fn law_written_messages_are_announced(
    session_id: SessionId,
    texts: Seq<Vec<u8>>,
    rest: Seq<StreamItem>,
    decode: spec_fn(Seq<char>) -> Result<VerifiedPeerMessage, ReceiveError>,
)
    requires
        forall|i: int|
            0 <= i < texts.len() ==> {
                &&& is_delimitable((#[trigger] texts[i])@)
                &&& vstd::utf8::valid_utf8(texts[i]@)
                &&& texts[i]@.len() < BUF_SIZE
                &&& decode(vstd::utf8::decode_utf8(texts[i]@)) is Ok
            },
        rest.len() > 0,
        rest[0] is End || rest[0] is Failed,
    ensures
        session_events(new_reader(session_id), as_items(written(texts)) + rest, decode)
            == texts.map_values(
            |text: Vec<u8>|
                arrival_of(session_id, decode(vstd::utf8::decode_utf8(text@))->Ok_0),
        ).push(end_of(session_id)),
        ({
            let events = session_events(
                new_reader(session_id),
                as_items(written(texts)) + rest,
                decode,
            );
            &&& events.len() == texts.len() + 1
            &&& forall|i: int|
                0 <= i < texts.len() ==> {
                    &&& (#[trigger] events[i]).session_id == session_id
                    &&& events[i].event_kind == PeerEventKind::NewMessage(
                        decode(vstd::utf8::decode_utf8(texts[i]@))->Ok_0,
                    )
                }
            &&& events.last().session_id == session_id
            &&& events.last().event_kind is Disconnected
        }),
{
    let items = as_items(written(texts)) + rest;
    law_received_messages_are_announced(session_id, Seq::empty(), items, decode);
    law_written_messages_are_received(texts, rest);
    lemma_events_of_texts(session_id, texts, receive_all(Seq::empty(), rest), decode);
}

/// What a session's writer waits for after `events`.
pub open spec fn writer_run(events: Seq<WriteEvent>) -> WritePhase
    decreases events.len(),
{
    if events.len() == 0 {
        WritePhase::Message
    } else {
        write_phase(writer_run(events.drop_last()), events.last())
    }
}

/// The bytes that a session's writer puts on the connection during `events`, if each write puts
/// all its bytes there.
pub open spec fn bytes_put(events: Seq<WriteEvent>) -> Seq<u8>
    decreases events.len(),
{
    if events.len() == 0 {
        Seq::empty()
    } else {
        let before = events.drop_last();
        bytes_put(before) + bytes_of(write_action(writer_run(before), events.last()))
    }
}

/// The texts of the messages that a session's writer takes during `events`.
pub open spec fn texts_taken(events: Seq<WriteEvent>) -> Seq<Vec<u8>>
    decreases events.len(),
{
    if events.len() == 0 {
        Seq::empty()
    } else {
        let before = events.drop_last();
        match write_action(writer_run(before), events.last()) {
            WriteAction::WriteText(text) => texts_taken(before).push(text),
            _ => texts_taken(before),
        }
    }
}

/// How many texts a session's writer has put a delimiter behind during `events`.
pub open spec fn texts_delimited(events: Seq<WriteEvent>) -> nat
    decreases events.len(),
{
    if events.len() == 0 {
        0
    } else {
        let before = events.drop_last();
        texts_delimited(before) + if write_action(
            writer_run(before),
            events.last(),
        ) is WriteDelimiter {
            1nat
        } else {
            0nat
        }
    }
}

/// One more message is written behind the others.
proof fn lemma_written_in_order(texts: Seq<Vec<u8>>, text: Vec<u8>)
    ensures
        written(texts.push(text)) == written(texts) + text@ + seq![MESSAGE_DELIMITER],
    decreases texts.len(),
{
    let all = texts.push(text);
    if texts.len() == 0 {
        assert(all.drop_first() =~= texts);
        assert(written(texts) =~= Seq::empty());
        assert(written(all) =~= text@ + seq![MESSAGE_DELIMITER]);
        assert(written(texts) + text@ =~= text@);
    } else {
        lemma_written_in_order(texts.drop_first(), text);
        assert(all.drop_first() =~= texts.drop_first().push(text));
        assert(written(all) =~= written(texts) + text@ + seq![MESSAGE_DELIMITER]);
    }
}

/// Behind the text of each message stands one zero byte, and nothing else stands between them.
pub proof fn law_each_text_is_followed_by_a_zero_byte(texts: Seq<Vec<u8>>, text: Vec<u8>)
    ensures
        written(Seq::empty()) == Seq::<u8>::empty(),
        written(texts.push(text)) == written(texts) + text@ + seq![0u8],
{
    lemma_written_in_order(texts, text);
}

/// Whatever happens, a writer puts on the connection the messages that it takes, in order and
/// each with its delimiter, but for the last one: that is without its delimiter while its text
/// is being written, and stays so if that fails.
pub proof fn law_messages_are_written_in_order(events: Seq<WriteEvent>)
    ensures
        ({
            let texts = texts_taken(events);
            let delimited = texts_delimited(events);
            &&& delimited <= texts.len() <= delimited + 1
            &&& bytes_put(events) == written(texts.take(delimited as int)) + if texts.len()
                == delimited {
                Seq::empty()
            } else {
                texts.last()@
            }
            &&& match writer_run(events) {
                WritePhase::Message | WritePhase::Delimiter => texts.len() == delimited,
                WritePhase::Text => texts.len() == delimited + 1,
                WritePhase::Stopped => true,
            }
        }),
    decreases events.len(),
{
    let texts = texts_taken(events);
    let delimited = texts_delimited(events);
    if events.len() > 0 {
        let before = events.drop_last();
        let old_texts = texts_taken(before);
        let old_delimited = texts_delimited(before);
        law_messages_are_written_in_order(before);
        match write_action(writer_run(before), events.last()) {
            WriteAction::WriteText(text) => {
                assert(texts.take(delimited as int) =~= old_texts.take(old_delimited as int));
                assert(bytes_put(before) =~= written(old_texts.take(old_delimited as int)));
            },
            WriteAction::WriteDelimiter(byte) => {
                assert(texts.take(delimited as int) =~= old_texts.take(
                    old_delimited as int,
                ).push(texts.last()));
                lemma_written_in_order(old_texts.take(old_delimited as int), texts.last());
            },
            _ => {
                assert(bytes_put(events) =~= bytes_put(before));
            },
        }
    }
}

/// A writer that fails to write a text, or to which no more messages can come, takes no message
/// and puts no byte on the connection from then on.
pub proof fn law_writer_stops_at_the_first_failure(
    events: Seq<WriteEvent>,
    failure: WriteEvent,
    more: Seq<WriteEvent>,
)
    requires
        match writer_run(events) {
            WritePhase::Message => failure is Closed || failure is TextFailed,
            WritePhase::Text => failure is TextFailed,
            _ => false,
        },
    ensures
        bytes_put(events.push(failure) + more) == bytes_put(events),
        texts_taken(events.push(failure) + more) == texts_taken(events),
        writer_run(events.push(failure) + more) is Stopped,
    decreases more.len(),
{
    let all = events.push(failure) + more;
    if more.len() == 0 {
        assert(all =~= events.push(failure));
        assert(all.drop_last() =~= events);
    } else {
        law_writer_stops_at_the_first_failure(events, failure, more.drop_last());
        assert(all.drop_last() =~= events.push(failure) + more.drop_last());
        assert(all.last() == more.last());
    }
}

} // verus!
