use netproto::chat::codec::{decode_payload, encode_payload, CodecError};
use netproto::chat::message::{current_timestamp, timestamp_of, MessageType, ProtocolMessage};

fn s(text: &str) -> String {
    text.to_string()
}

fn catalogue() -> Vec<MessageType> {
    vec![
        MessageType::Connect { username: s("alice") },
        MessageType::JoinRoom { room: s("general") },
        MessageType::SendMessage { room: s("general"), content: s("hello, world") },
        MessageType::ListRooms,
        MessageType::ListUsers { room: s("general") },
        MessageType::Disconnect,
        MessageType::ConnectAck { success: true, message: s("Bienvenue, alice !") },
        MessageType::ConnectAck { success: false, message: s("") },
        MessageType::JoinRoomAck { success: true, room: s("général"), message: s("ok") },
        MessageType::MessageBroadcast {
            room: s("general"),
            username: s("alice"),
            content: s("héllo ✓"),
            timestamp: 1_700_000_000,
        },
        MessageType::RoomList { rooms: vec![] },
        MessageType::RoomList { rooms: vec![s("a"), s(""), s("salon 3")] },
        MessageType::UserList { room: s("general"), users: vec![s("alice"), s("bob")] },
        MessageType::Error { message: s("not connected") },
        MessageType::UserJoined { room: s("general"), username: s("bob") },
        MessageType::UserLeft { room: s("general"), username: s("bob") },
    ]
}

#[test]
fn every_message_round_trips_through_a_frame() {
    for (i, message_type) in catalogue().into_iter().enumerate() {
        let timestamp = 1000 + i as u64;
        let message = ProtocolMessage::with_timestamp(message_type.clone(), timestamp);
        let frame = message.serialize().unwrap();
        let (decoded, used) = ProtocolMessage::deserialize_from_stream(&frame).unwrap();
        assert_eq!(decoded.message_type, message_type);
        assert_eq!(decoded.timestamp, timestamp);
        assert_eq!(used, frame.len());
    }
}

#[test]
fn frame_is_length_prefix_then_payload() {
    let message = ProtocolMessage::with_timestamp(MessageType::ListRooms, 5);
    let frame = message.serialize().unwrap();
    assert_eq!(frame, vec![0, 0, 0, 12, 3, 0, 0, 0, 5, 0, 0, 0, 0, 0, 0, 0]);
}

#[test]
fn connect_payload_has_the_expected_bytes() {
    let message = ProtocolMessage::with_timestamp(
        MessageType::Connect { username: s("ab") },
        0x0102,
    );
    let payload = encode_payload(&message);
    assert_eq!(
        payload,
        vec![0, 0, 0, 0, 2, 0, 0, 0, 0, 0, 0, 0, b'a', b'b', 2, 1, 0, 0, 0, 0, 0, 0]
    );
}

#[test]
fn length_prefix_is_big_endian() {
    let content = "x".repeat(300);
    let message = ProtocolMessage::with_timestamp(
        MessageType::Error { message: content },
        0,
    );
    let frame = message.serialize().unwrap();
    // tag 4 + length 8 + 300 bytes + timestamp 8
    assert_eq!(&frame[..4], &[0, 0, 1, 64]);
    assert_eq!(frame.len(), 4 + 320);
}

#[test]
fn payload_layout_matches_bincode_for_strings() {
    let message = ProtocolMessage::with_timestamp(
        MessageType::SendMessage { room: s("général"), content: s("salut ✓") },
        1_700_000_123,
    );
    let expected = bincode::serialize(&(2u32, s("général"), s("salut ✓"), 1_700_000_123u64)).unwrap();
    assert_eq!(encode_payload(&message), expected);
}

#[test]
fn payload_layout_matches_bincode_for_booleans_and_lists() {
    let ack = ProtocolMessage::with_timestamp(
        MessageType::JoinRoomAck { success: true, room: s("r"), message: s("m") },
        9,
    );
    let expected = bincode::serialize(&(7u32, true, s("r"), s("m"), 9u64)).unwrap();
    assert_eq!(encode_payload(&ack), expected);

    let users = vec![s("alice"), s("bob")];
    let list = ProtocolMessage::with_timestamp(
        MessageType::UserList { room: s("general"), users: users.clone() },
        10,
    );
    let expected = bincode::serialize(&(10u32, s("general"), users, 10u64)).unwrap();
    assert_eq!(encode_payload(&list), expected);

    let broadcast = ProtocolMessage::with_timestamp(
        MessageType::MessageBroadcast {
            room: s("r"),
            username: s("u"),
            content: s("c"),
            timestamp: 77,
        },
        78,
    );
    let expected = bincode::serialize(&(8u32, s("r"), s("u"), s("c"), 77u64, 78u64)).unwrap();
    assert_eq!(encode_payload(&broadcast), expected);
}

#[test]
fn reading_takes_one_frame_and_leaves_the_rest() {
    let first = ProtocolMessage::with_timestamp(MessageType::ListRooms, 1).serialize().unwrap();
    let second = ProtocolMessage::with_timestamp(MessageType::Disconnect, 2).serialize().unwrap();
    let mut stream = first.clone();
    stream.extend_from_slice(&second);
    let (message, used) = ProtocolMessage::deserialize_from_stream(&stream).unwrap();
    assert_eq!(message.message_type, MessageType::ListRooms);
    assert_eq!(used, first.len());
    let (next, used_next) = ProtocolMessage::deserialize_from_stream(&stream[used..]).unwrap();
    assert_eq!(next.message_type, MessageType::Disconnect);
    assert_eq!(next.timestamp, 2);
    assert_eq!(used_next, second.len());
}

#[test]
fn stream_that_ends_early_is_a_closed_connection() {
    assert_eq!(
        ProtocolMessage::deserialize_from_stream(&[]).unwrap_err(),
        CodecError::ConnectionClosed
    );
    assert_eq!(
        ProtocolMessage::deserialize_from_stream(&[0, 0, 0]).unwrap_err(),
        CodecError::ConnectionClosed
    );
    let frame = ProtocolMessage::with_timestamp(MessageType::ListRooms, 1).serialize().unwrap();
    assert_eq!(
        ProtocolMessage::deserialize_from_stream(&frame[..frame.len() - 1]).unwrap_err(),
        CodecError::ConnectionClosed
    );
}

#[test]
fn unknown_variant_is_malformed() {
    let mut payload = vec![14, 0, 0, 0];
    payload.extend_from_slice(&[0; 8]);
    assert_eq!(decode_payload(&payload).unwrap_err(), CodecError::MalformedMessage);
    let mut frame = vec![0, 0, 0, 12];
    frame.extend_from_slice(&payload);
    assert_eq!(
        ProtocolMessage::deserialize_from_stream(&frame).unwrap_err(),
        CodecError::MalformedMessage
    );
}

#[test]
fn truncated_or_padded_payload_is_malformed() {
    let message = ProtocolMessage::with_timestamp(MessageType::Connect { username: s("alice") }, 3);
    let payload = encode_payload(&message);
    assert!(decode_payload(&payload).is_ok());
    assert_eq!(
        decode_payload(&payload[..payload.len() - 1]).unwrap_err(),
        CodecError::MalformedMessage
    );
    let mut padded = payload.clone();
    padded.push(0);
    assert_eq!(decode_payload(&padded).unwrap_err(), CodecError::MalformedMessage);
    assert_eq!(decode_payload(&[]).unwrap_err(), CodecError::MalformedMessage);
}

#[test]
fn boolean_other_than_zero_or_one_is_malformed() {
    let message = ProtocolMessage::with_timestamp(
        MessageType::ConnectAck { success: true, message: s("") },
        0,
    );
    let mut payload = encode_payload(&message);
    assert_eq!(payload[4], 1);
    payload[4] = 2;
    assert_eq!(decode_payload(&payload).unwrap_err(), CodecError::MalformedMessage);
    payload[4] = 0;
    let decoded = decode_payload(&payload).unwrap();
    assert_eq!(
        decoded.message_type,
        MessageType::ConnectAck { success: false, message: s("") }
    );
}

#[test]
fn string_that_is_not_utf8_is_malformed() {
    let message = ProtocolMessage::with_timestamp(MessageType::Connect { username: s("ab") }, 0);
    let mut payload = encode_payload(&message);
    payload[12] = 0xFF;
    assert_eq!(decode_payload(&payload).unwrap_err(), CodecError::MalformedMessage);
}

#[test]
fn string_length_beyond_the_payload_is_malformed() {
    let mut payload = vec![0, 0, 0, 0];
    payload.extend_from_slice(&[0xFF; 8]);
    payload.extend_from_slice(b"abc");
    payload.extend_from_slice(&[0; 8]);
    assert_eq!(decode_payload(&payload).unwrap_err(), CodecError::MalformedMessage);
}

#[test]
fn list_count_beyond_the_payload_is_malformed() {
    let mut payload = vec![9, 0, 0, 0];
    payload.extend_from_slice(&[0xFF; 8]);
    payload.extend_from_slice(&[0; 8]);
    assert_eq!(decode_payload(&payload).unwrap_err(), CodecError::MalformedMessage);
}

#[test]
fn decoded_text_is_the_text_that_was_sent() {
    let text = "ünïcödé — 日本語";
    let message = ProtocolMessage::with_timestamp(MessageType::Error { message: s(text) }, 1);
    let decoded = decode_payload(&encode_payload(&message)).unwrap();
    match decoded.message_type {
        MessageType::Error { message } => assert_eq!(message, text),
        other => panic!("unexpected message {:?}", other),
    }
}

#[test]
fn new_message_keeps_its_content_and_is_stamped() {
    let before = current_timestamp();
    let message = ProtocolMessage::new(MessageType::JoinRoom { room: s("general") });
    let after = current_timestamp();
    assert_eq!(message.message_type, MessageType::JoinRoom { room: s("general") });
    assert!(before <= message.timestamp && message.timestamp <= after);
    assert!(message.timestamp > 1_600_000_000);
}

#[test]
fn clone_keeps_every_field() {
    for message_type in catalogue() {
        let copy = message_type.clone();
        assert_eq!(copy, message_type);
    }
    let message = ProtocolMessage::with_timestamp(MessageType::ListRooms, 42);
    let copy = message.clone();
    assert_eq!(copy.timestamp, 42);
    assert_eq!(copy.message_type, MessageType::ListRooms);
}

#[test]
fn timestamp_is_the_seconds_read_or_zero_before_the_epoch() {
    assert_eq!(timestamp_of(Some(1_700_000_000)), 1_700_000_000);
    assert_eq!(timestamp_of(Some(0)), 0);
    assert_eq!(timestamp_of(Some(u64::MAX)), u64::MAX);
    assert_eq!(timestamp_of(None), 0);
}
