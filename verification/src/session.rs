//! What the threads of one session do: reading messages off the connection, writing messages
//! to it, and calling again at a peer that was dialed.
//!
//! A message travels as the bytes of its text, which hold no zero byte, and one zero byte
//! behind them.
use vstd::prelude::*;

use crate::data::{Interval, VerifiedPeerMessage};
use crate::peer_service::{PeerEvent, PeerEventKind, SessionId};

verus! {

/// A message is shorter than this, its delimiter not counted.
pub const BUF_SIZE: usize = 65536;

/// The byte behind a message.
pub const MESSAGE_DELIMITER: u8 = 0;

/// What a read of one byte from a connection gave.
#[derive(Clone, Copy, Debug, PartialEq, Eq)]
pub enum StreamItem {
    Byte(u8),
    /// The read was interrupted and can be made again.
    Interrupted,
    /// The read failed for good.
    Failed,
    /// The connection has ended.
    End,
}

/// Why there is no message.
#[derive(Clone, Copy, Debug, PartialEq, Eq)]
pub enum ReceiveError {
    /// The message is too long.
    TooLong,
    /// The connection could not be read.
    ReadFailed,
    /// The message is not UTF-8.
    NotUtf8,
    /// The connection ended before the delimiter.
    UnexpectedEnd,
    /// The text is not that of a message.
    Malformed,
    /// The message does not stand up to verification.
    Unverified,
}

/// What is known of the next message once another item has been read.
#[derive(Debug, PartialEq, Eq)]
pub enum Received {
    /// Nothing yet: more has to be read.
    More,
    /// Its text.
    Text(String),
    /// That there is none.
    Failed(ReceiveError),
}

pub enum ReceivedView {
    More,
    Text(Seq<char>),
    Failed(ReceiveError),
}

impl View for Received {
    type V = ReceivedView;

    open spec fn view(&self) -> ReceivedView {
        match self {
            Received::More => ReceivedView::More,
            Received::Text(text) => ReceivedView::Text(text@),
            Received::Failed(error) => ReceivedView::Failed(*error),
        }
    }
}

/// What the message with these bytes is received as.
pub open spec fn message_text(bytes: Seq<u8>) -> ReceivedView {
    if vstd::utf8::valid_utf8(bytes) {
        ReceivedView::Text(vstd::utf8::decode_utf8(bytes))
    } else {
        ReceivedView::Failed(ReceiveError::NotUtf8)
    }
}

/// What is received when `item` is read behind the bytes in `buffer`.
pub open spec fn received(buffer: Seq<u8>, item: StreamItem) -> ReceivedView {
    match item {
        StreamItem::Interrupted => ReceivedView::More,
        StreamItem::End => ReceivedView::Failed(ReceiveError::UnexpectedEnd),
        _ if buffer.len() >= BUF_SIZE => ReceivedView::Failed(ReceiveError::TooLong),
        StreamItem::Failed => ReceivedView::Failed(ReceiveError::ReadFailed),
        StreamItem::Byte(byte) => if byte == MESSAGE_DELIMITER {
            message_text(buffer)
        } else {
            ReceivedView::More
        },
    }
}

/// The bytes of the next message that have been read, once `item` has been read behind those
/// in `buffer`: none, if `item` made a message complete or impossible.
pub open spec fn buffer_after(buffer: Seq<u8>, item: StreamItem) -> Seq<u8> {
    match received(buffer, item) {
        ReceivedView::More => match item {
            StreamItem::Byte(byte) => buffer.push(byte),
            _ => buffer,
        },
        _ => Seq::empty(),
    }
}

/// Calls `std::str::from_utf8`, which gives the text that the bytes encode, or an error if
/// they are not UTF-8.
#[verifier::external_body]
fn utf8_text(bytes: &Vec<u8>) -> (r: Option<&str>)
    ensures
        r is Some == vstd::utf8::valid_utf8(bytes@),
        r is Some ==> r->0@ == vstd::utf8::decode_utf8(bytes@),
{
    std::str::from_utf8(bytes.as_slice()).ok()
}

/// Puts messages together out of what is read from a connection.
pub struct MessageReader {
    buffer: Vec<u8>,
}

impl MessageReader {
    #[verifier::type_invariant]
    spec fn is_bounded(self) -> bool {
        self.buffer@.len() <= BUF_SIZE
    }

    /// The bytes of the next message that have been read.
    pub closed spec fn buffer(&self) -> Seq<u8> {
        self.buffer@
    }

    /// A reader at the start of a message.
    pub fn new() -> (r: Self)
        ensures
            r.buffer() == Seq::<u8>::empty(),
    {
        MessageReader { buffer: Vec::new() }
    }

    /// Takes the next item that was read.
    pub fn recv_message(&mut self, item: StreamItem) -> (r: Received)
        ensures
            r@ == received(old(self).buffer(), item),
            final(self).buffer() == buffer_after(old(self).buffer(), item),
            final(self).buffer().len() <= BUF_SIZE,
            final(self).buffer().len() <= 65536,
            item is Interrupted ==> r is More && final(self).buffer() == old(self).buffer(),
            item is End ==> r == Received::Failed(ReceiveError::UnexpectedEnd),
            (item is Byte || item is Failed) && old(self).buffer().len() == 65536 ==> r
                == Received::Failed(ReceiveError::TooLong),
            item is Failed && old(self).buffer().len() < 65536 ==> r == Received::Failed(
                ReceiveError::ReadFailed,
            ),
            item is Byte && item->Byte_0 != 0 && old(self).buffer().len() < 65536 ==> r is More
                && final(self).buffer() == old(self).buffer().push(item->Byte_0),
            item == StreamItem::Byte(0) && old(self).buffer().len() < 65536
                && vstd::utf8::valid_utf8(old(self).buffer()) ==> r is Text && r->Text_0@
                == vstd::utf8::decode_utf8(old(self).buffer()),
            item == StreamItem::Byte(0) && old(self).buffer().len() < 65536
                && !vstd::utf8::valid_utf8(old(self).buffer()) ==> r == Received::Failed(
                ReceiveError::NotUtf8,
            ),
            !(r is More) ==> final(self).buffer().len() == 0,
    {
        proof {
            use_type_invariant(&*self);
        }
        if let StreamItem::Interrupted = item {
            return Received::More;
        }
        if let StreamItem::Byte(byte) = item {
            if self.buffer.len() < BUF_SIZE && byte != MESSAGE_DELIMITER {
                let mut buffer: Vec<u8> = Vec::new();
                std::mem::swap(&mut buffer, &mut self.buffer);
                buffer.push(byte);
                self.buffer = buffer;
                return Received::More;
            }
        }
        let r = match item {
            StreamItem::End => Received::Failed(ReceiveError::UnexpectedEnd),
            _ if self.buffer.len() >= BUF_SIZE => Received::Failed(ReceiveError::TooLong),
            StreamItem::Failed => Received::Failed(ReceiveError::ReadFailed),
            _ => match utf8_text(&self.buffer) {
                Some(text) => Received::Text(text.to_string()),
                None => Received::Failed(ReceiveError::NotUtf8),
            },
        };
        self.buffer = Vec::new();
        r
    }
}

/// What a session's reader does next.
#[derive(Debug, PartialEq, Eq)]
pub enum ReadAction {
    /// Read the next item from the connection; [`SessionReader::read_item`] takes it.
    Read,
    /// Turn this text into a message and verify that;
    /// [`SessionReader::read_message`] takes the outcome.
    Decode(String),
    /// Announce the event, then read the next item.
    Deliver(PeerEvent),
    /// Shut the connection down, announce the event and stop.
    Close(PeerEvent),
    /// Nothing: the reader has stopped, or has not asked for what it was given.
    Ignore,
}

pub enum ReadActionView {
    Read,
    Decode(Seq<char>),
    Deliver(PeerEvent),
    Close(PeerEvent),
    Ignore,
}

impl View for ReadAction {
    type V = ReadActionView;

    open spec fn view(&self) -> ReadActionView {
        match self {
            ReadAction::Read => ReadActionView::Read,
            ReadAction::Decode(text) => ReadActionView::Decode(text@),
            ReadAction::Deliver(event) => ReadActionView::Deliver(*event),
            ReadAction::Close(event) => ReadActionView::Close(*event),
            ReadAction::Ignore => ReadActionView::Ignore,
        }
    }
}

/// The event that announces the end of a session.
pub fn drop_connection(session_id: SessionId) -> (event: PeerEvent)
    ensures
        event == end_of(session_id),
        event.session_id == session_id,
        event.event_kind is Disconnected,
{
    PeerEvent { session_id, event_kind: PeerEventKind::Disconnected }
}

/// What a session's reader waits for.
#[derive(Clone, Copy, Debug, PartialEq, Eq)]
pub enum ReadPhase {
    /// An item from the connection.
    Item,
    /// What became of a text.
    Message,
    /// Nothing: the session has ended.
    Closed,
}

/// What a session's reader is given.
pub enum ReadInput {
    Item(StreamItem),
    Message(Result<VerifiedPeerMessage, ReceiveError>),
}

pub struct ReaderView {
    pub session_id: SessionId,
    /// The bytes of the next message that have been read.
    pub buffer: Seq<u8>,
    pub phase: ReadPhase,
}

/// The reader of a session that has just begun.
pub open spec fn new_reader(session_id: SessionId) -> ReaderView {
    ReaderView { session_id, buffer: Seq::empty(), phase: ReadPhase::Item }
}

/// That `message` has come in over a session.
pub open spec fn arrival_of(session_id: SessionId, message: VerifiedPeerMessage) -> PeerEvent {
    PeerEvent { session_id, event_kind: PeerEventKind::NewMessage(message) }
}

/// That a session has ended.
pub open spec fn end_of(session_id: SessionId) -> PeerEvent {
    PeerEvent { session_id, event_kind: PeerEventKind::Disconnected }
}

/// What `reader` does when it is given `input`.
pub open spec fn read_action(reader: ReaderView, input: ReadInput) -> ReadActionView {
    match (reader.phase, input) {
        (ReadPhase::Item, ReadInput::Item(item)) => match received(reader.buffer, item) {
            ReceivedView::More => ReadActionView::Read,
            ReceivedView::Text(text) => ReadActionView::Decode(text),
            ReceivedView::Failed(_) => ReadActionView::Close(end_of(reader.session_id)),
        },
        (ReadPhase::Message, ReadInput::Message(Ok(message))) => ReadActionView::Deliver(
            arrival_of(reader.session_id, message),
        ),
        (ReadPhase::Message, ReadInput::Message(Err(_))) => ReadActionView::Close(
            end_of(reader.session_id),
        ),
        _ => ReadActionView::Ignore,
    }
}

/// `reader` once it was given `input`.
pub open spec fn reader_after(reader: ReaderView, input: ReadInput) -> ReaderView {
    ReaderView {
        session_id: reader.session_id,
        buffer: match (reader.phase, input) {
            (ReadPhase::Item, ReadInput::Item(item)) => buffer_after(reader.buffer, item),
            _ => reader.buffer,
        },
        phase: match read_action(reader, input) {
            ReadActionView::Read | ReadActionView::Deliver(_) => ReadPhase::Item,
            ReadActionView::Decode(_) => ReadPhase::Message,
            ReadActionView::Close(_) => ReadPhase::Closed,
            ReadActionView::Ignore => reader.phase,
        },
    }
}

/// The reader of a session. It announces the messages that come in, until the first that
/// cannot be received, decoded or verified; that ends the session.
pub struct SessionReader {
    session_id: SessionId,
    reader: MessageReader,
    phase: ReadPhase,
}

impl View for SessionReader {
    type V = ReaderView;

    closed spec fn view(&self) -> ReaderView {
        ReaderView {
            session_id: self.session_id,
            buffer: self.reader.buffer(),
            phase: self.phase,
        }
    }
}

impl SessionReader {
    /// A reader at the start of a message.
    pub fn new(session_id: SessionId) -> (r: Self)
        ensures
            r@ == new_reader(session_id),
            r@.session_id == session_id,
            r@.buffer.len() == 0,
            r@.phase is Item,
    {
        SessionReader { session_id, reader: MessageReader::new(), phase: ReadPhase::Item }
    }

    /// Takes the next item that was read from the connection.
    pub fn read_item(&mut self, item: StreamItem) -> (action: ReadAction)
        ensures
            action@ == read_action(old(self)@, ReadInput::Item(item)),
            final(self)@ == reader_after(old(self)@, ReadInput::Item(item)),
            final(self)@.session_id == old(self)@.session_id,
            !(old(self)@.phase is Item) ==> action is Ignore && final(self)@ == old(self)@,
            old(self)@.phase is Item ==> {
                let held = old(self)@.buffer;
                let room = held.len() < 65536;
                &&& item is Interrupted ==> action is Read && final(self)@ == old(self)@
                &&& item is Byte && item->Byte_0 != 0 && room ==> {
                    &&& action is Read
                    &&& final(self)@.phase is Item
                    &&& final(self)@.buffer == held.push(item->Byte_0)
                }
                &&& item == StreamItem::Byte(0) && room && vstd::utf8::valid_utf8(held) ==> {
                    &&& action is Decode
                    &&& action->Decode_0@ == vstd::utf8::decode_utf8(held)
                    &&& final(self)@.phase is Message
                    &&& final(self)@.buffer.len() == 0
                }
                &&& item is End || item is Failed || (item is Byte && !room) || (item
                    == StreamItem::Byte(0) && !vstd::utf8::valid_utf8(held)) ==> {
                    &&& action is Close
                    &&& action->Close_0.session_id == old(self)@.session_id
                    &&& action->Close_0.event_kind is Disconnected
                    &&& final(self)@.phase is Closed
                }
            },
    {
        match self.phase {
            ReadPhase::Item => match self.reader.recv_message(item) {
                Received::More => ReadAction::Read,
                Received::Text(text) => {
                    self.phase = ReadPhase::Message;
                    ReadAction::Decode(text)
                },
                Received::Failed(_) => {
                    self.phase = ReadPhase::Closed;
                    ReadAction::Close(drop_connection(self.session_id))
                },
            },
            _ => ReadAction::Ignore,
        }
    }

    /// Takes what became of a text: a message, or the reason why there is none.
    pub fn read_message(&mut self, message: Result<VerifiedPeerMessage, ReceiveError>) -> (action:
        ReadAction)
        ensures
            action@ == read_action(old(self)@, ReadInput::Message(message)),
            final(self)@ == reader_after(old(self)@, ReadInput::Message(message)),
            final(self)@.session_id == old(self)@.session_id,
            final(self)@.buffer == old(self)@.buffer,
            !(old(self)@.phase is Message) ==> action is Ignore && final(self)@ == old(self)@,
            old(self)@.phase is Message && message is Ok ==> {
                &&& action is Deliver
                &&& action->Deliver_0.session_id == old(self)@.session_id
                &&& action->Deliver_0.event_kind == PeerEventKind::NewMessage(message->Ok_0)
                &&& final(self)@.phase is Item
            },
            old(self)@.phase is Message && message is Err ==> {
                &&& action is Close
                &&& action->Close_0.session_id == old(self)@.session_id
                &&& action->Close_0.event_kind is Disconnected
                &&& final(self)@.phase is Closed
            },
    {
        match self.phase {
            ReadPhase::Message => match message {
                Ok(message) => {
                    self.phase = ReadPhase::Item;
                    ReadAction::Deliver(
                        PeerEvent {
                            session_id: self.session_id,
                            event_kind: PeerEventKind::NewMessage(message),
                        },
                    )
                },
                Err(_) => {
                    self.phase = ReadPhase::Closed;
                    ReadAction::Close(drop_connection(self.session_id))
                },
            },
            _ => ReadAction::Ignore,
        }
    }
}

/// One step of the reader of a session that was dialed.
#[derive(Clone, Copy, Debug, PartialEq, Eq)]
pub enum DialAction {
    /// Shut the connection of the session down.
    ShutdownSession,
    /// Wait.
    Sleep(Interval),
    /// Try to connect to the peer once more.
    Connect,
    /// Shut the connection that the last attempt gave down.
    ShutdownConnection,
}

/// How long a peer is left alone after the session with it was shut down.
pub const FIRST_CALL_SECS: u64 = 5;

/// How long a new connection is held.
pub const HOLD_SECS: u64 = 2;

/// How long a peer is left alone after it was called at.
pub const NEXT_CALL_SECS: u64 = 4;

/// How the reader of a session spends its time.
pub enum ReadPlan {
    /// It reads messages.
    Messages(SessionReader),
    /// It takes these steps; [`redial`] takes the outcome of the last.
    Redial(Vec<DialAction>),
}

/// What the reader of a session does, which depends on who opened the session: messages are
/// read if the peer did, while a peer that was dialed is only called at.
pub fn read_handle(session_id: SessionId, dial: bool) -> (plan: ReadPlan)
    ensures
        dial ==> plan is Redial && plan->Redial_0@ == seq![
            DialAction::ShutdownSession,
            DialAction::Sleep(Interval { secs: FIRST_CALL_SECS, nanos: 0 }),
            DialAction::Connect,
        ],
        !dial ==> plan is Messages && plan->Messages_0@ == new_reader(session_id),
        dial ==> plan->Redial_0@.len() == 3 && plan->Redial_0@[1] == DialAction::Sleep(
            Interval { secs: 5, nanos: 0 },
        ),
        !dial ==> {
            &&& plan->Messages_0@.session_id == session_id
            &&& plan->Messages_0@.buffer.len() == 0
            &&& plan->Messages_0@.phase is Item
        },
{
    if dial {
        ReadPlan::Redial(
            vec![
                DialAction::ShutdownSession,
                DialAction::Sleep(Interval::from_secs(FIRST_CALL_SECS)),
                DialAction::Connect,
            ],
        )
    } else {
        ReadPlan::Messages(SessionReader::new(session_id))
    }
}

/// What the reader of a dialed session does after an attempt to connect: a connection is held
/// for a while, shut down, and made anew later; a failed attempt is made anew after
/// `dial_cooldown`.
pub fn redial(connected: bool, dial_cooldown: Interval) -> (actions: Vec<DialAction>)
    ensures
        actions@ == if connected {
            seq![
                DialAction::Sleep(Interval { secs: HOLD_SECS, nanos: 0 }),
                DialAction::ShutdownConnection,
                DialAction::Sleep(Interval { secs: NEXT_CALL_SECS, nanos: 0 }),
                DialAction::Connect,
            ]
        } else {
            seq![DialAction::Sleep(dial_cooldown), DialAction::Connect]
        },
        connected ==> {
            &&& actions@.len() == 4
            &&& actions@[0] == DialAction::Sleep(Interval { secs: 2, nanos: 0 })
            &&& actions@[2] == DialAction::Sleep(Interval { secs: 4, nanos: 0 })
        },
{
    if connected {
        vec![
            DialAction::Sleep(Interval::from_secs(HOLD_SECS)),
            DialAction::ShutdownConnection,
            DialAction::Sleep(Interval::from_secs(NEXT_CALL_SECS)),
            DialAction::Connect,
        ]
    } else {
        vec![DialAction::Sleep(dial_cooldown), DialAction::Connect]
    }
}

/// What happened to a session's writer.
#[derive(Debug, PartialEq, Eq)]
pub enum WriteEvent {
    /// There will be no more messages.
    Closed,
    /// There is a message to write, with this text.
    Message(Vec<u8>),
    /// The text of a message could not be made or written.
    TextFailed,
    /// The text of a message was written.
    TextWritten,
    /// The delimiter behind a message was written.
    DelimiterWritten,
}

/// What a session's writer does next.
#[derive(Debug, PartialEq, Eq)]
pub enum WriteAction {
    Stop,
    /// Shut the connection down and stop.
    Shutdown,
    /// Write these bytes, the text of a message.
    WriteText(Vec<u8>),
    /// Write this byte, the delimiter behind a message.
    WriteDelimiter(u8),
    /// Wait for the next message.
    Next,
    /// Nothing: the writer has stopped, or has not asked for what it was told.
    Ignore,
}

/// What a session's writer waits for.
#[derive(Clone, Copy, Debug, PartialEq, Eq)]
pub enum WritePhase {
    /// The next message.
    Message,
    /// That a text has been written.
    Text,
    /// That a delimiter has been written.
    Delimiter,
    /// Nothing: it has stopped.
    Stopped,
}

/// What a writer that waits for `phase` does on `event`. A message is written as its text and
/// the delimiter behind it. A text that cannot be written ends the session.
pub open spec fn write_action(phase: WritePhase, event: WriteEvent) -> WriteAction {
    match (phase, event) {
        (WritePhase::Message, WriteEvent::Closed) => WriteAction::Stop,
        (WritePhase::Message, WriteEvent::Message(text)) => WriteAction::WriteText(text),
        (WritePhase::Message, WriteEvent::TextFailed) => WriteAction::Shutdown,
        (WritePhase::Text, WriteEvent::TextFailed) => WriteAction::Shutdown,
        (WritePhase::Text, WriteEvent::TextWritten) => WriteAction::WriteDelimiter(
            MESSAGE_DELIMITER,
        ),
        (WritePhase::Delimiter, WriteEvent::DelimiterWritten) => WriteAction::Next,
        _ => WriteAction::Ignore,
    }
}

/// What a writer that waited for `phase` waits for after `event`.
pub open spec fn write_phase(phase: WritePhase, event: WriteEvent) -> WritePhase {
    match write_action(phase, event) {
        WriteAction::Stop | WriteAction::Shutdown => WritePhase::Stopped,
        WriteAction::WriteText(_) => WritePhase::Text,
        WriteAction::WriteDelimiter(_) => WritePhase::Delimiter,
        WriteAction::Next => WritePhase::Message,
        WriteAction::Ignore => phase,
    }
}

/// The writer of a session. It writes the messages that it is handed, until there are no more
/// or one cannot be written.
pub struct SessionWriter {
    phase: WritePhase,
}

impl SessionWriter {
    /// What the writer waits for.
    pub closed spec fn phase(&self) -> WritePhase {
        self.phase
    }

    /// A writer that waits for the first message.
    pub fn new() -> (r: Self)
        ensures
            r.phase() == WritePhase::Message,
    {
        SessionWriter { phase: WritePhase::Message }
    }

    /// Says what the writer does after `event`.
    pub fn write_handle(&mut self, event: WriteEvent) -> (action: WriteAction)
        ensures
            action == write_action(old(self).phase(), event),
            final(self).phase() == write_phase(old(self).phase(), event),
            old(self).phase() is Message ==> match event {
                WriteEvent::Closed => action is Stop && final(self).phase() is Stopped,
                WriteEvent::Message(text) => {
                    &&& action is WriteText
                    &&& action->WriteText_0 == text
                    &&& final(self).phase() is Text
                },
                WriteEvent::TextFailed => action is Shutdown && final(self).phase() is Stopped,
                _ => action is Ignore && final(self).phase() is Message,
            },
            old(self).phase() is Text ==> match event {
                WriteEvent::TextFailed => action is Shutdown && final(self).phase() is Stopped,
                WriteEvent::TextWritten => {
                    &&& action is WriteDelimiter
                    &&& action->WriteDelimiter_0 == 0
                    &&& final(self).phase() is Delimiter
                },
                _ => action is Ignore && final(self).phase() is Text,
            },
            old(self).phase() is Delimiter ==> match event {
                WriteEvent::DelimiterWritten => action is Next && final(self).phase() is Message,
                _ => action is Ignore && final(self).phase() is Delimiter,
            },
            old(self).phase() is Stopped ==> action is Ignore && final(self).phase() is Stopped,
    {
        match (self.phase, event) {
            (WritePhase::Message, WriteEvent::Closed) => {
                self.phase = WritePhase::Stopped;
                WriteAction::Stop
            },
            (WritePhase::Message, WriteEvent::Message(text)) => {
                self.phase = WritePhase::Text;
                WriteAction::WriteText(text)
            },
            (WritePhase::Message | WritePhase::Text, WriteEvent::TextFailed) => {
                self.phase = WritePhase::Stopped;
                WriteAction::Shutdown
            },
            (WritePhase::Text, WriteEvent::TextWritten) => {
                self.phase = WritePhase::Delimiter;
                WriteAction::WriteDelimiter(MESSAGE_DELIMITER)
            },
            (WritePhase::Delimiter, WriteEvent::DelimiterWritten) => {
                self.phase = WritePhase::Message;
                WriteAction::Next
            },
            _ => WriteAction::Ignore,
        }
    }
}

} // verus!
