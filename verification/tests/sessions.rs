use faultycoin::data::{BlockHash, Interval, VerifiedPeerMessage};
use faultycoin::peer_service::{PeerEvent, PeerEventKind};
use faultycoin::session::{
    drop_connection, read_handle, redial, DialAction, MessageReader, ReadAction, ReadPlan,
    ReceiveError, Received, SessionReader, SessionWriter, StreamItem, WriteAction, WriteEvent,
    BUF_SIZE,
};

fn feed(reader: &mut MessageReader, bytes: &[u8]) -> Vec<Received> {
    let mut out = Vec::new();
    for byte in bytes {
        match reader.recv_message(StreamItem::Byte(*byte)) {
            Received::More => {}
            received => out.push(received),
        }
    }
    out
}

fn write(texts: &[&str]) -> Vec<u8> {
    let mut wire = Vec::new();
    let mut writer = SessionWriter::new();
    for text in texts {
        match writer.write_handle(WriteEvent::Message(text.as_bytes().to_vec())) {
            WriteAction::WriteText(bytes) => wire.extend(bytes),
            action => panic!("{:?}", action),
        }
        match writer.write_handle(WriteEvent::TextWritten) {
            WriteAction::WriteDelimiter(byte) => wire.push(byte),
            action => panic!("{:?}", action),
        }
        assert_eq!(writer.write_handle(WriteEvent::DelimiterWritten), WriteAction::Next);
    }
    wire
}

fn disconnected(session_id: u64) -> PeerEvent {
    PeerEvent { session_id, event_kind: PeerEventKind::Disconnected }
}

#[test]
fn written_messages_are_received() {
    let wire = write(&["{\"kind\":\"request\"}", "", "\u{e9}\u{4e2d}"]);
    assert_eq!(&wire[..3], b"{\"k");
    let mut reader = MessageReader::new();
    assert_eq!(
        feed(&mut reader, &wire),
        vec![
            Received::Text("{\"kind\":\"request\"}".to_string()),
            Received::Text("".to_string()),
            Received::Text("\u{e9}\u{4e2d}".to_string()),
        ]
    );
}

#[test]
fn message_is_not_received_before_its_delimiter() {
    let mut reader = MessageReader::new();
    assert_eq!(reader.recv_message(StreamItem::Byte(b'a')), Received::More);
    assert_eq!(reader.recv_message(StreamItem::Interrupted), Received::More);
    assert_eq!(reader.recv_message(StreamItem::Byte(b'b')), Received::More);
    assert_eq!(reader.recv_message(StreamItem::Byte(0)), Received::Text("ab".to_string()));
}

#[test]
fn longest_message_is_received() {
    let mut wire = vec![b'x'; BUF_SIZE - 1];
    wire.push(0);
    let mut reader = MessageReader::new();
    assert_eq!(feed(&mut reader, &wire), vec![Received::Text("x".repeat(BUF_SIZE - 1))]);
}

fn full_reader() -> MessageReader {
    let mut reader = MessageReader::new();
    assert_eq!(feed(&mut reader, &vec![b'x'; BUF_SIZE]), vec![]);
    reader
}

#[test]
fn message_of_the_buffer_size_is_too_long() {
    let mut reader = full_reader();
    assert_eq!(reader.recv_message(StreamItem::Interrupted), Received::More);
    assert_eq!(
        reader.recv_message(StreamItem::Byte(0)),
        Received::Failed(ReceiveError::TooLong)
    );
    assert_eq!(
        full_reader().recv_message(StreamItem::Byte(b'x')),
        Received::Failed(ReceiveError::TooLong)
    );
    assert_eq!(
        full_reader().recv_message(StreamItem::Failed),
        Received::Failed(ReceiveError::TooLong)
    );
    assert_eq!(
        full_reader().recv_message(StreamItem::End),
        Received::Failed(ReceiveError::UnexpectedEnd)
    );
}

#[test]
fn broken_connections_give_no_message() {
    let mut reader = MessageReader::new();
    assert_eq!(feed(&mut reader, b"abc"), vec![]);
    assert_eq!(reader.recv_message(StreamItem::Failed), Received::Failed(ReceiveError::ReadFailed));
    assert_eq!(feed(&mut reader, b"d"), vec![]);
    assert_eq!(
        reader.recv_message(StreamItem::End),
        Received::Failed(ReceiveError::UnexpectedEnd)
    );
}

#[test]
fn reader_starts_over_after_a_failure() {
    let mut reader = MessageReader::new();
    assert_eq!(feed(&mut reader, b"a"), vec![]);
    assert_eq!(reader.recv_message(StreamItem::Failed), Received::Failed(ReceiveError::ReadFailed));
    assert_eq!(reader.recv_message(StreamItem::Byte(0)), Received::Text("".to_string()));
    let mut reader = full_reader();
    assert_eq!(
        reader.recv_message(StreamItem::Byte(b'x')),
        Received::Failed(ReceiveError::TooLong)
    );
    assert_eq!(feed(&mut reader, b"y\0"), vec![Received::Text("y".to_string())]);
}

#[test]
fn message_has_to_be_utf8() {
    let mut reader = MessageReader::new();
    assert_eq!(
        feed(&mut reader, &[0xff, 0xfe, 0]),
        vec![Received::Failed(ReceiveError::NotUtf8)]
    );
    assert_eq!(feed(&mut reader, &[0xc3, 0xa9, 0]), vec![Received::Text("\u{e9}".to_string())]);
}

fn request(byte: u8) -> VerifiedPeerMessage {
    VerifiedPeerMessage::Request { block_hash: BlockHash { bytes: [byte; 64] } }
}

fn arrival(session_id: u64, message: VerifiedPeerMessage) -> PeerEvent {
    PeerEvent { session_id, event_kind: PeerEventKind::NewMessage(message) }
}

/// The events that a new reader announces while it reads `items`, if a text of one digit is a
/// request and any other is malformed.
fn announcements(session_id: u64, items: Vec<StreamItem>) -> Vec<PeerEvent> {
    let mut reader = SessionReader::new(session_id);
    let mut events = Vec::new();
    for item in items {
        let mut action = reader.read_item(item);
        if let ReadAction::Decode(text) = action {
            action = reader.read_message(match text.parse::<u8>() {
                Ok(digit) if text.len() == 1 => Ok(request(digit)),
                _ => Err(ReceiveError::Malformed),
            });
        }
        match action {
            ReadAction::Deliver(event) | ReadAction::Close(event) => events.push(event),
            _ => {}
        }
    }
    events
}

fn items(bytes: &[u8]) -> Vec<StreamItem> {
    bytes.iter().map(|byte| StreamItem::Byte(*byte)).collect()
}

#[test]
fn reader_announces_messages_and_the_end() {
    let mut reader = SessionReader::new(6);
    assert_eq!(reader.read_item(StreamItem::Byte(b'm')), ReadAction::Read);
    assert_eq!(reader.read_item(StreamItem::Byte(0)), ReadAction::Decode("m".to_string()));
    assert_eq!(
        reader.read_message(Ok(request(1))),
        ReadAction::Deliver(arrival(6, request(1)))
    );
    assert_eq!(reader.read_item(StreamItem::End), ReadAction::Close(disconnected(6)));
    assert_eq!(drop_connection(9), disconnected(9));
}

#[test]
fn text_that_is_no_message_ends_the_session() {
    for error in [ReceiveError::Malformed, ReceiveError::Unverified] {
        let mut reader = SessionReader::new(6);
        assert_eq!(reader.read_item(StreamItem::Byte(0)), ReadAction::Decode("".to_string()));
        assert_eq!(reader.read_message(Err(error)), ReadAction::Close(disconnected(6)));
    }
}

#[test]
fn end_is_announced_once_and_last() {
    let mut wire = items(&write(&["1", "2"]));
    wire.push(StreamItem::End);
    wire.extend(items(&write(&["3"])));
    wire.push(StreamItem::Failed);
    assert_eq!(
        announcements(7, wire),
        vec![arrival(7, request(1)), arrival(7, request(2)), disconnected(7)]
    );
    assert_eq!(
        announcements(7, items(&write(&["1", "x", "3"]))),
        vec![arrival(7, request(1)), disconnected(7)]
    );
    assert_eq!(announcements(7, items(&write(&["4"]))), vec![arrival(7, request(4))]);
}

#[test]
fn closed_reader_ignores_what_it_is_given() {
    let mut reader = SessionReader::new(6);
    assert_eq!(reader.read_item(StreamItem::Failed), ReadAction::Close(disconnected(6)));
    assert_eq!(reader.read_item(StreamItem::Byte(0)), ReadAction::Ignore);
    assert_eq!(reader.read_item(StreamItem::End), ReadAction::Ignore);
    assert_eq!(reader.read_message(Ok(request(1))), ReadAction::Ignore);
    assert_eq!(reader.read_message(Err(ReceiveError::Malformed)), ReadAction::Ignore);
}

#[test]
fn reader_ignores_what_it_did_not_ask_for() {
    let mut reader = SessionReader::new(6);
    assert_eq!(reader.read_message(Err(ReceiveError::Malformed)), ReadAction::Ignore);
    assert_eq!(reader.read_item(StreamItem::Byte(b'm')), ReadAction::Read);
    assert_eq!(reader.read_item(StreamItem::Byte(0)), ReadAction::Decode("m".to_string()));
    assert_eq!(reader.read_item(StreamItem::End), ReadAction::Ignore);
    assert_eq!(
        reader.read_message(Ok(request(2))),
        ReadAction::Deliver(arrival(6, request(2)))
    );
}

#[test]
fn dialed_peer_is_called_at_again() {
    match read_handle(3, true) {
        ReadPlan::Redial(actions) => assert_eq!(
            actions,
            vec![
                DialAction::ShutdownSession,
                DialAction::Sleep(Interval { secs: 5, nanos: 0 }),
                DialAction::Connect,
            ]
        ),
        ReadPlan::Messages(_) => panic!(),
    }
    let cooldown = Interval { secs: 0, nanos: 700 };
    assert_eq!(
        redial(true, cooldown),
        vec![
            DialAction::Sleep(Interval { secs: 2, nanos: 0 }),
            DialAction::ShutdownConnection,
            DialAction::Sleep(Interval { secs: 4, nanos: 0 }),
            DialAction::Connect,
        ]
    );
    assert_eq!(redial(false, cooldown), vec![DialAction::Sleep(cooldown), DialAction::Connect]);
}

#[test]
fn accepted_peer_is_read() {
    match read_handle(3, false) {
        ReadPlan::Messages(mut reader) => {
            assert_eq!(reader.read_item(StreamItem::End), ReadAction::Close(disconnected(3)))
        }
        ReadPlan::Redial(_) => panic!(),
    }
}

#[test]
fn writer_stops_or_shuts_down() {
    assert_eq!(SessionWriter::new().write_handle(WriteEvent::Closed), WriteAction::Stop);
    assert_eq!(SessionWriter::new().write_handle(WriteEvent::TextFailed), WriteAction::Shutdown);
    let mut writer = SessionWriter::new();
    let text = b"ab".to_vec();
    assert_eq!(
        writer.write_handle(WriteEvent::Message(text.clone())),
        WriteAction::WriteText(text)
    );
    assert_eq!(writer.write_handle(WriteEvent::TextFailed), WriteAction::Shutdown);
}

#[test]
fn stopped_writer_writes_nothing() {
    for end in [WriteEvent::Closed, WriteEvent::TextFailed] {
        let mut writer = SessionWriter::new();
        writer.write_handle(end);
        for event in [
            WriteEvent::Message(b"ab".to_vec()),
            WriteEvent::TextWritten,
            WriteEvent::DelimiterWritten,
            WriteEvent::TextFailed,
            WriteEvent::Closed,
        ] {
            assert_eq!(writer.write_handle(event), WriteAction::Ignore);
        }
    }
}

#[test]
fn writer_ignores_what_it_did_not_ask_for() {
    let mut writer = SessionWriter::new();
    assert_eq!(writer.write_handle(WriteEvent::TextWritten), WriteAction::Ignore);
    assert_eq!(writer.write_handle(WriteEvent::DelimiterWritten), WriteAction::Ignore);
    writer.write_handle(WriteEvent::Message(b"ab".to_vec()));
    assert_eq!(writer.write_handle(WriteEvent::Closed), WriteAction::Ignore);
    assert_eq!(writer.write_handle(WriteEvent::TextWritten), WriteAction::WriteDelimiter(0));
    assert_eq!(writer.write_handle(WriteEvent::TextFailed), WriteAction::Ignore);
    assert_eq!(writer.write_handle(WriteEvent::DelimiterWritten), WriteAction::Next);
}
