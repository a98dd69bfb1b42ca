use eye::networking::{encode, MessageType};
use eye::reader::{ConnectionReader, Event, ReadState, ReceivedMessage};

fn message(sender_id: u32, msg_type: MessageType, payload: &[u8]) -> Event {
    Event::MessageReceived(ReceivedMessage { sender_id, msg_type, payload: payload.to_vec() })
}

fn sample_stream() -> Vec<u8> {
    let mut stream = Vec::new();
    stream.extend(encode(MessageType::HelloRequest, &[0x08, 0x7B]));
    stream.extend(encode(MessageType::ServoRotateRequest, &[]));
    stream.extend(encode(MessageType::ServoRotateRequest, &[0x08, 0x01, 0x10, 0x02]));
    stream.extend(encode(MessageType::HelloResponse, &[9; 300]));
    stream
}

fn sample_events(sender_id: u32) -> Vec<Event> {
    vec![
        message(sender_id, MessageType::HelloRequest, &[0x08, 0x7B]),
        message(sender_id, MessageType::ServoRotateRequest, &[]),
        message(sender_id, MessageType::ServoRotateRequest, &[0x08, 0x01, 0x10, 0x02]),
        message(sender_id, MessageType::HelloResponse, &[9; 300]),
    ]
}

fn feed_in_chunks(sender_id: u32, stream: &[u8], size: usize) -> (ConnectionReader, Vec<Event>) {
    let (mut reader, _) = ConnectionReader::start(sender_id);
    let mut events = Vec::new();
    for chunk in stream.chunks(size) {
        events.extend(reader.on_read(chunk));
    }
    (reader, events)
}

#[test]
fn start_reports_the_connection() {
    let (reader, event) = ConnectionReader::start(42);
    assert_eq!(event, Event::Connected(42));
    assert_eq!(reader.client_id(), 42);
    assert_eq!(reader.state(), ReadState::MsgType);
    assert!(reader.is_reading());
    assert_eq!(reader.wanted(), 4);
}

#[test]
fn whole_stream_in_one_read() {
    let (mut reader, _) = ConnectionReader::start(5);
    let events = reader.on_read(&sample_stream());
    assert_eq!(events, sample_events(5));
    assert_eq!(reader.state(), ReadState::MsgType);
    assert_eq!(reader.wanted(), 4);
}

#[test]
fn chunking_does_not_change_the_frames() {
    let stream = sample_stream();
    let (mut whole, _) = ConnectionReader::start(5);
    let expected = whole.on_read(&stream);
    for size in [1usize, 2, 3, 4, 5, 7, 8, 9, 13, 64, 311, 1000] {
        let (reader, events) = feed_in_chunks(5, &stream, size);
        assert_eq!(events, expected, "chunks of {}", size);
        assert_eq!(reader.state(), whole.state());
        assert_eq!(reader.wanted(), whole.wanted());
    }
}

#[test]
fn chunking_does_not_change_what_is_pending() {
    let mut stream = sample_stream();
    stream.extend_from_slice(&[2, 0, 0, 0, 5, 0, 0, 0, 1, 2]);
    let (mut whole, _) = ConnectionReader::start(5);
    let expected = whole.on_read(&stream);
    assert_eq!(whole.state(), ReadState::Payload);
    assert_eq!(whole.wanted(), 3);
    for size in [1usize, 3, 6, 10] {
        let (mut reader, events) = feed_in_chunks(5, &stream, size);
        assert_eq!(events, expected);
        assert_eq!(reader.state(), ReadState::Payload);
        assert_eq!(reader.wanted(), 3);
        assert_eq!(
            reader.on_read(&[3, 4, 5]),
            vec![message(5, MessageType::ServoRotateRequest, &[1, 2, 3, 4, 5])]
        );
    }
}

#[test]
fn wanted_follows_the_fields() {
    let (mut reader, _) = ConnectionReader::start(1);
    assert_eq!(reader.wanted(), 4);
    assert!(reader.on_read(&[2]).is_empty());
    assert_eq!(reader.state(), ReadState::MsgType);
    assert_eq!(reader.wanted(), 3);
    assert!(reader.on_read(&[0, 0, 0]).is_empty());
    assert_eq!(reader.state(), ReadState::Length);
    assert_eq!(reader.wanted(), 4);
    assert!(reader.on_read(&[6, 0]).is_empty());
    assert_eq!(reader.wanted(), 2);
    assert!(reader.on_read(&[0, 0]).is_empty());
    assert_eq!(reader.state(), ReadState::Payload);
    assert_eq!(reader.wanted(), 6);
    assert!(reader.on_read(&[1, 2, 3, 4]).is_empty());
    assert_eq!(reader.wanted(), 2);
    assert_eq!(
        reader.on_read(&[5, 6]),
        vec![message(1, MessageType::ServoRotateRequest, &[1, 2, 3, 4, 5, 6])]
    );
    assert_eq!(reader.state(), ReadState::MsgType);
    assert_eq!(reader.wanted(), 4);
}

#[test]
fn short_read_keeps_what_was_read() {
    let (mut reader, _) = ConnectionReader::start(1);
    assert!(reader.on_read(&[1, 0]).is_empty());
    assert!(reader.on_read(&[0, 0, 2]).is_empty());
    assert!(reader.on_read(&[0, 0, 0, 0xAA]).is_empty());
    assert_eq!(
        reader.on_read(&[0xBB]),
        vec![message(1, MessageType::HelloResponse, &[0xAA, 0xBB])]
    );
}

#[test]
fn zero_length_frame_needs_no_further_read() {
    let (mut reader, _) = ConnectionReader::start(9);
    let events = reader.on_read(&[2, 0, 0, 0, 0, 0, 0, 0]);
    assert_eq!(events, vec![message(9, MessageType::ServoRotateRequest, &[])]);
    assert_eq!(reader.state(), ReadState::MsgType);
    assert_eq!(reader.wanted(), 4);
}

#[test]
fn zero_length_frame_in_small_reads() {
    let (mut reader, _) = ConnectionReader::start(9);
    let header = [0u8, 0, 0, 0, 0, 0, 0, 0];
    let mut events = Vec::new();
    for (at, byte) in header.iter().enumerate() {
        assert!(reader.wanted() > 0);
        let got = reader.on_read(&[*byte]);
        if at < 7 {
            assert!(got.is_empty());
        }
        events.extend(got);
    }
    assert_eq!(events, vec![message(9, MessageType::HelloRequest, &[])]);
    assert!(reader.wanted() > 0);
}

#[test]
fn reader_never_asks_for_nothing_while_it_reads() {
    let stream = sample_stream();
    let (mut reader, _) = ConnectionReader::start(5);
    let mut at = 0;
    let mut events = Vec::new();
    while at < stream.len() {
        let wanted = reader.wanted();
        assert!(wanted > 0);
        let end = (at + wanted).min(stream.len());
        let got = reader.on_read(&stream[at..end]);
        assert!(got.len() <= 1);
        events.extend(got);
        at = end;
    }
    assert_eq!(events, sample_events(5));
}

#[test]
fn empty_read_means_disconnected() {
    let (mut reader, _) = ConnectionReader::start(4);
    assert!(reader.on_read(&[0, 0, 0]).is_empty());
    assert_eq!(reader.on_read(&[]), vec![Event::Disconnected(4)]);
    assert_eq!(reader.state(), ReadState::Disconnected);
    assert!(!reader.is_reading());
    assert_eq!(reader.wanted(), 0);
}

#[test]
fn nothing_is_read_after_a_disconnect() {
    let (mut reader, _) = ConnectionReader::start(4);
    assert_eq!(reader.on_read(&[]), vec![Event::Disconnected(4)]);
    assert!(reader.on_read(&encode(MessageType::HelloRequest, &[1])).is_empty());
    assert!(reader.on_read(&[]).is_empty());
    assert_eq!(reader.disconnect(), None);
    assert_eq!(reader.state(), ReadState::Disconnected);
}

#[test]
fn transport_failure_is_reported_once() {
    let (mut reader, _) = ConnectionReader::start(6);
    assert!(reader.on_read(&[1, 0, 0, 0, 9]).is_empty());
    assert_eq!(reader.disconnect(), Some(Event::Disconnected(6)));
    assert_eq!(reader.disconnect(), None);
    assert_eq!(reader.wanted(), 0);
}

#[test]
fn unknown_type_index_stops_the_reader() {
    let (mut reader, _) = ConnectionReader::start(2);
    let mut stream = 999u32.to_le_bytes().to_vec();
    stream.extend(encode(MessageType::HelloRequest, &[1]));
    let events = reader.on_read(&stream);
    assert!(events.is_empty());
    assert_eq!(reader.state(), ReadState::Rejected);
    assert!(!reader.is_reading());
    assert_eq!(reader.wanted(), 0);
    assert!(reader.on_read(&encode(MessageType::HelloRequest, &[1])).is_empty());
    assert_eq!(reader.state(), ReadState::Rejected);
}

#[test]
fn unknown_type_index_is_judged_before_the_length() {
    let (mut reader, _) = ConnectionReader::start(2);
    assert!(reader.on_read(&[3, 0, 0]).is_empty());
    assert!(reader.is_reading());
    assert!(reader.on_read(&[0]).is_empty());
    assert_eq!(reader.state(), ReadState::Rejected);
}

#[test]
fn frames_before_an_unknown_type_are_reported() {
    let (mut reader, _) = ConnectionReader::start(2);
    let mut stream = encode(MessageType::HelloRequest, &[1, 2]);
    stream.extend_from_slice(&999u32.to_le_bytes());
    stream.extend(encode(MessageType::HelloRequest, &[3]));
    assert_eq!(reader.on_read(&stream), vec![message(2, MessageType::HelloRequest, &[1, 2])]);
    assert_eq!(reader.state(), ReadState::Rejected);
}

#[test]
fn unknown_type_leaves_other_connections_alone() {
    let (mut bad, _) = ConnectionReader::start(1);
    let (mut good, _) = ConnectionReader::start(2);
    assert!(good.on_read(&[0, 0, 0, 0, 1]).is_empty());
    assert!(bad.on_read(&999u32.to_le_bytes()).is_empty());
    assert_eq!(bad.state(), ReadState::Rejected);
    assert_eq!(good.state(), ReadState::Length);
    assert_eq!(
        good.on_read(&[0, 0, 0, 0x55]),
        vec![message(2, MessageType::HelloRequest, &[0x55])]
    );
    assert!(good.is_reading());
}

#[test]
fn unknown_type_is_no_disconnect() {
    let (mut reader, _) = ConnectionReader::start(2);
    let events = reader.on_read(&[0xE7, 0x03, 0, 0]);
    assert!(!events.contains(&Event::Disconnected(2)));
    assert!(reader.on_read(&[]).is_empty());
    assert_eq!(reader.disconnect(), None);
}

#[test]
fn events_name_the_connection() {
    for id in [0u32, 7, u32::MAX] {
        let (mut reader, hello) = ConnectionReader::start(id);
        assert_eq!(hello, Event::Connected(id));
        assert_eq!(
            reader.on_read(&encode(MessageType::HelloRequest, &[1])),
            vec![message(id, MessageType::HelloRequest, &[1])]
        );
        assert_eq!(reader.on_read(&[]), vec![Event::Disconnected(id)]);
    }
}
