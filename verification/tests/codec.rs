use eye::networking::{
    encode, messages_lookup, msg_id_from_type, msg_type_from_id, read_u32_le, write_u32_le,
    MessageType,
};
use eye::reader::{ConnectionReader, Event, ReceivedMessage};

fn all_types() -> Vec<MessageType> {
    vec![MessageType::HelloRequest, MessageType::HelloResponse, MessageType::ServoRotateRequest]
}

fn decode_one(frame: &[u8]) -> Vec<Event> {
    let (mut reader, _) = ConnectionReader::start(3);
    reader.on_read(frame)
}

#[test]
fn wire_indices_are_fixed() {
    assert_eq!(msg_type_from_id(0), Some(MessageType::HelloRequest));
    assert_eq!(msg_type_from_id(1), Some(MessageType::HelloResponse));
    assert_eq!(msg_type_from_id(2), Some(MessageType::ServoRotateRequest));
    assert_eq!(msg_id_from_type(MessageType::HelloRequest), Some(0));
    assert_eq!(msg_id_from_type(MessageType::HelloResponse), Some(1));
    assert_eq!(msg_id_from_type(MessageType::ServoRotateRequest), Some(2));
}

#[test]
fn unknown_indices_name_no_type() {
    assert_eq!(msg_type_from_id(3), None);
    assert_eq!(msg_type_from_id(999), None);
    assert_eq!(msg_type_from_id(u32::MAX), None);
}

#[test]
fn index_and_type_determine_each_other() {
    for message_type in all_types() {
        let id = msg_id_from_type(message_type).unwrap();
        assert_eq!(msg_type_from_id(id), Some(message_type));
    }
    for id in 0..3u32 {
        let message_type = msg_type_from_id(id).unwrap();
        assert_eq!(msg_id_from_type(message_type), Some(id));
    }
}

#[test]
fn lookup_table_is_ordered_by_index() {
    let table = messages_lookup();
    assert_eq!(table.len(), 3);
    for id in 0..3u32 {
        assert_eq!(Some(table[id as usize]), msg_type_from_id(id));
    }
}

#[test]
fn u32_is_written_least_significant_byte_first() {
    let mut out = vec![0xAAu8];
    write_u32_le(&mut out, 0x0403_0201);
    assert_eq!(out, vec![0xAA, 0x01, 0x02, 0x03, 0x04]);
    let mut out = Vec::new();
    write_u32_le(&mut out, 10000);
    assert_eq!(out, vec![0x10, 0x27, 0x00, 0x00]);
    let mut out = Vec::new();
    write_u32_le(&mut out, u32::MAX);
    assert_eq!(out, vec![0xFF, 0xFF, 0xFF, 0xFF]);
}

#[test]
fn u32_is_read_least_significant_byte_first() {
    assert_eq!(read_u32_le(&[0x01, 0x02, 0x03, 0x04]), 0x0403_0201);
    assert_eq!(read_u32_le(&[0xE7, 0x03, 0x00, 0x00]), 999);
    assert_eq!(read_u32_le(&[0xFF, 0xFF, 0xFF, 0xFF]), u32::MAX);
    assert_eq!(read_u32_le(&[0, 0, 0, 0]), 0);
}

#[test]
fn u32_round_trips_through_bytes() {
    for value in [0u32, 1, 255, 256, 65535, 65536, 0x00FF_FFFF, 0x0100_0000, 0xDEAD_BEEF, u32::MAX]
    {
        let mut out = Vec::new();
        write_u32_le(&mut out, value);
        assert_eq!(out, value.to_le_bytes().to_vec());
        assert_eq!(read_u32_le(&out), value);
    }
}

#[test]
fn frame_is_index_length_payload() {
    assert_eq!(
        encode(MessageType::ServoRotateRequest, &[0x08, 0x02]),
        vec![2, 0, 0, 0, 2, 0, 0, 0, 0x08, 0x02]
    );
    assert_eq!(encode(MessageType::HelloRequest, &[]), vec![0, 0, 0, 0, 0, 0, 0, 0]);
    assert_eq!(encode(MessageType::HelloResponse, &[7]), vec![1, 0, 0, 0, 1, 0, 0, 0, 7]);
}

#[test]
fn frame_length_field_counts_the_payload() {
    let payload = vec![0x5Au8; 10000];
    let frame = encode(MessageType::HelloResponse, &payload);
    assert_eq!(frame.len(), 10008);
    assert_eq!(&frame[0..4], &[1, 0, 0, 0]);
    assert_eq!(&frame[4..8], &[0x10, 0x27, 0, 0]);
    assert_eq!(&frame[8..], &payload[..]);
}

#[test]
fn round_trip_of_every_type_and_size() {
    for message_type in all_types() {
        for size in [0usize, 1, 10000] {
            let payload: Vec<u8> = (0..size).map(|i| (i % 251) as u8).collect();
            let frame = encode(message_type, &payload);
            let events = decode_one(&frame);
            assert_eq!(
                events,
                vec![Event::MessageReceived(ReceivedMessage {
                    sender_id: 3,
                    msg_type: message_type,
                    payload: payload.clone(),
                })]
            );
        }
    }
}

#[test]
fn round_trip_leaves_the_reader_between_frames() {
    let (mut reader, _) = ConnectionReader::start(3);
    let frame = encode(MessageType::HelloRequest, &[1, 2, 3]);
    assert_eq!(reader.on_read(&frame).len(), 1);
    assert!(reader.is_reading());
    assert_eq!(reader.wanted(), 4);
    assert_eq!(reader.on_read(&frame).len(), 1);
}
