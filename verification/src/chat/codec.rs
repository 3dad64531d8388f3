//! The wire format of the chat protocol.
//!
//! A frame is the payload's length as four big-endian bytes, then the payload.
//! The payload is the message's variant number as four little-endian bytes,
//! the variant's fields in order, and the timestamp. Integers are fixed-width
//! little-endian, a boolean is one byte 0 or 1, a string is its UTF-8 length
//! as eight bytes and then its UTF-8 bytes, and a list is its item count as
//! eight bytes and then its items.

use crate::chat::message::{MessageType, MessageView, ProtocolMessage, ProtocolMessageView};
use crate::chat::round_trip::frame_round_trip;
use crate::text::string_from_utf8;
use crate::endian::{
    lemma_u32_from_be_prefix, lemma_u32_from_le_prefix, lemma_u64_from_le_prefix, push_u32_be,
    push_u32_le, push_u64_le, read_u32_be, read_u32_le, read_u64_le, u32_be, u32_from_be,
    u32_from_le, u32_le, u64_from_le, u64_le,
};
use vstd::prelude::*;
use vstd::slice::{slice_subrange, slice_to_vec};
use vstd::utf8::{decode_utf8, encode_utf8, encode_utf8_decode_utf8, valid_utf8};

verus! {

/// Why a frame could not be written or read.
#[derive(Debug, Clone, Copy, PartialEq, Eq, Structural)]
pub enum CodecError {
    /// The stream ended before a whole frame had arrived.
    ConnectionClosed,
    /// The payload is not the encoding of any message.
    MalformedMessage,
    /// The payload is longer than a frame's length prefix can say.
    MessageTooLarge,
}

// ---------------------------------------------------------------- encoding

/// One byte for a boolean.
pub open spec fn bool_bytes(b: bool) -> Seq<u8> {
    seq![if b { 1u8 } else { 0u8 }]
}

/// A string: the length of its UTF-8 form, then that form.
pub open spec fn str_bytes(s: Seq<char>) -> Seq<u8> {
    u64_le(encode_utf8(s).len() as u64) + encode_utf8(s)
}

/// The strings of a list, one after the other.
pub open spec fn items_bytes(items: Seq<Seq<char>>) -> Seq<u8>
    decreases items.len(),
{
    if items.len() == 0 {
        Seq::<u8>::empty()
    } else {
        str_bytes(items[0]) + items_bytes(items.drop_first())
    }
}

/// A list of strings: the number of items, then the items.
pub open spec fn list_bytes(items: Seq<Seq<char>>) -> Seq<u8> {
    u64_le(items.len() as u64) + items_bytes(items)
}

/// The number that stands for a message's variant on the wire.
pub open spec fn variant_tag(m: MessageView) -> u32 {
    match m {
        MessageView::Connect { .. } => 0,
        MessageView::JoinRoom { .. } => 1,
        MessageView::SendMessage { .. } => 2,
        MessageView::ListRooms => 3,
        MessageView::ListUsers { .. } => 4,
        MessageView::Disconnect => 5,
        MessageView::ConnectAck { .. } => 6,
        MessageView::JoinRoomAck { .. } => 7,
        MessageView::MessageBroadcast { .. } => 8,
        MessageView::RoomList { .. } => 9,
        MessageView::UserList { .. } => 10,
        MessageView::Error { .. } => 11,
        MessageView::UserJoined { .. } => 12,
        MessageView::UserLeft { .. } => 13,
    }
}

/// The fields of a message, in the catalogue's order.
pub open spec fn fields_bytes(m: MessageView) -> Seq<u8> {
    match m {
        MessageView::Connect { username } => str_bytes(username),
        MessageView::JoinRoom { room } => str_bytes(room),
        MessageView::SendMessage { room, content } => str_bytes(room) + str_bytes(content),
        MessageView::ListRooms => Seq::<u8>::empty(),
        MessageView::ListUsers { room } => str_bytes(room),
        MessageView::Disconnect => Seq::<u8>::empty(),
        MessageView::ConnectAck { success, message } => bool_bytes(success) + str_bytes(message),
        MessageView::JoinRoomAck { success, room, message } => bool_bytes(success) + (str_bytes(
            room,
        ) + str_bytes(message)),
        MessageView::MessageBroadcast { room, username, content, timestamp } => str_bytes(room) + (
        str_bytes(username) + (str_bytes(content) + u64_le(timestamp))),
        MessageView::RoomList { rooms } => list_bytes(rooms),
        MessageView::UserList { room, users } => str_bytes(room) + list_bytes(users),
        MessageView::Error { message } => str_bytes(message),
        MessageView::UserJoined { room, username } => str_bytes(room) + str_bytes(username),
        MessageView::UserLeft { room, username } => str_bytes(room) + str_bytes(username),
    }
}

/// A message: its variant number, then its fields.
pub open spec fn message_bytes(m: MessageView) -> Seq<u8> {
    u32_le(variant_tag(m)) + fields_bytes(m)
}

/// The payload of a frame: the message, then its timestamp.
pub open spec fn payload_bytes(p: ProtocolMessageView) -> Seq<u8> {
    message_bytes(p.message_type) + u64_le(p.timestamp)
}

/// A frame: the payload's length in four big-endian bytes, then the payload.
pub open spec fn frame_bytes(p: ProtocolMessageView) -> Seq<u8> {
    u32_be(payload_bytes(p).len() as u32) + payload_bytes(p)
}

/// The UTF-8 form of `s` is short enough for its length to be written.
pub open spec fn str_fits(s: Seq<char>) -> bool {
    encode_utf8(s).len() <= u64::MAX
}

/// The list is short enough for its count to be written, and so is each item.
pub open spec fn list_fits(items: Seq<Seq<char>>) -> bool {
    &&& items.len() <= u64::MAX
    &&& forall|i: int| 0 <= i < items.len() ==> str_fits(#[trigger] items[i])
}

/// The message has an encoding: every length in it can be written in eight
/// bytes. Every message held in memory is such a message.
pub open spec fn representable(m: MessageView) -> bool {
    match m {
        MessageView::Connect { username } => str_fits(username),
        MessageView::JoinRoom { room } => str_fits(room),
        MessageView::SendMessage { room, content } => str_fits(room) && str_fits(content),
        MessageView::ListRooms => true,
        MessageView::ListUsers { room } => str_fits(room),
        MessageView::Disconnect => true,
        MessageView::ConnectAck { success, message } => str_fits(message),
        MessageView::JoinRoomAck { success, room, message } => str_fits(room) && str_fits(message),
        MessageView::MessageBroadcast { room, username, content, timestamp } => str_fits(room)
            && str_fits(username) && str_fits(content),
        MessageView::RoomList { rooms } => list_fits(rooms),
        MessageView::UserList { room, users } => str_fits(room) && list_fits(users),
        MessageView::Error { message } => str_fits(message),
        MessageView::UserJoined { room, username } => str_fits(room) && str_fits(username),
        MessageView::UserLeft { room, username } => str_fits(room) && str_fits(username),
    }
}

/// The items up to `n`, followed by item `n`, are the items up to `n + 1`.
pub proof fn lemma_items_bytes_push(items: Seq<Seq<char>>, n: int)
    requires
        0 <= n < items.len(),
    ensures
        items_bytes(items.take(n + 1)) == items_bytes(items.take(n)) + str_bytes(items[n]),
    decreases n,
{
    let longer = items.take(n + 1);
    reveal_with_fuel(items_bytes, 2);
    if n == 0 {
        assert(longer.drop_first() =~= Seq::<Seq<char>>::empty());
        assert(items.take(0) =~= Seq::<Seq<char>>::empty());
        assert(items_bytes(longer) =~= str_bytes(items[0]));
        assert(items_bytes(items.take(0)) + str_bytes(items[0]) =~= str_bytes(items[0]));
    } else {
        let tail = items.drop_first();
        lemma_items_bytes_push(tail, n - 1);
        assert(longer.drop_first() =~= tail.take(n));
        assert(items.take(n).drop_first() =~= tail.take(n - 1));
        assert(tail[n - 1] == items[n]);
        assert(items_bytes(longer) =~= str_bytes(items[0]) + (items_bytes(tail.take(n - 1))
            + str_bytes(items[n])));
        assert(items_bytes(items.take(n)) + str_bytes(items[n]) =~= str_bytes(items[0]) + (
        items_bytes(tail.take(n - 1)) + str_bytes(items[n])));
    }
}

/// Appends `bytes` to `out`.
pub fn push_bytes(out: &mut Vec<u8>, bytes: &[u8])
    ensures
        final(out)@ == old(out)@ + bytes@,
{
    out.extend_from_slice(bytes);
    assert(out@ =~= old(out)@ + bytes@);
}

/// Appends the encoding of a boolean.
pub fn push_bool(out: &mut Vec<u8>, b: bool)
    ensures
        final(out)@ == old(out)@ + bool_bytes(b),
{
    out.push(if b { 1u8 } else { 0u8 });
    assert(out@ =~= old(out)@ + bool_bytes(b));
}

/// Appends the encoding of a string.
pub fn push_str(out: &mut Vec<u8>, s: &String)
    ensures
        final(out)@ == old(out)@ + str_bytes(s@),
        str_fits(s@),
{
    let bytes = s.as_str().as_bytes();
    push_u64_le(out, bytes.len() as u64);
    push_bytes(out, bytes);
    assert(out@ =~= old(out)@ + str_bytes(s@));
}

/// Appends the encoding of a list of strings.
pub fn push_list(out: &mut Vec<u8>, items: &Vec<String>)
    ensures
        final(out)@ == old(out)@ + list_bytes(items.deep_view()),
        list_fits(items.deep_view()),
{
    let ghost views = items.deep_view();
    push_u64_le(out, items.len() as u64);
    let ghost start = out@;
    let mut i: usize = 0;
    assert(views.take(0) =~= Seq::<Seq<char>>::empty());
    assert(out@ =~= start + items_bytes(views.take(0)));
    while i < items.len()
        invariant
            i <= items.len(),
            views == items.deep_view(),
            out@ == start + items_bytes(views.take(i as int)),
            forall|k: int| 0 <= k < i ==> str_fits(#[trigger] views[k]),
        decreases items.len() - i,
    {
        let ghost before = out@;
        push_str(out, &items[i]);
        proof {
            lemma_items_bytes_push(views, i as int);
            assert(views[i as int] == items[i as int]@);
            assert(out@ =~= start + items_bytes(views.take(i + 1)));
        }
        i += 1;
    }
    assert(views.take(items.len() as int) =~= views);
    assert(out@ =~= old(out)@ + list_bytes(items.deep_view()));
}

/// Appends the encoding of a message: its variant number and its fields.
pub fn push_message(out: &mut Vec<u8>, m: &MessageType)
    ensures
        final(out)@ == old(out)@ + message_bytes(m@),
        representable(m@),
{
    let ghost start = out@;
    match m {
        MessageType::Connect { username } => {
            push_u32_le(out, 0);
            push_str(out, username);
            assert(out@ =~= start + message_bytes(m@));
        },
        MessageType::JoinRoom { room } => {
            push_u32_le(out, 1);
            push_str(out, room);
            assert(out@ =~= start + message_bytes(m@));
        },
        MessageType::SendMessage { room, content } => {
            push_u32_le(out, 2);
            push_str(out, room);
            push_str(out, content);
            assert(out@ =~= start + message_bytes(m@));
        },
        MessageType::ListRooms => {
            push_u32_le(out, 3);
            assert(out@ =~= start + message_bytes(m@));
        },
        MessageType::ListUsers { room } => {
            push_u32_le(out, 4);
            push_str(out, room);
            assert(out@ =~= start + message_bytes(m@));
        },
        MessageType::Disconnect => {
            push_u32_le(out, 5);
            assert(out@ =~= start + message_bytes(m@));
        },
        _ => {
            push_event(out, m);
        },
    }
}

/// Appends the encoding of a server's message.
fn push_event(out: &mut Vec<u8>, m: &MessageType)
    requires
        variant_tag(m@) >= 6,
    ensures
        final(out)@ == old(out)@ + message_bytes(m@),
        representable(m@),
{
    let ghost start = out@;
    match m {
        MessageType::ConnectAck { success, message } => {
            push_u32_le(out, 6);
            push_bool(out, *success);
            push_str(out, message);
            assert(out@ =~= start + message_bytes(m@));
        },
        MessageType::JoinRoomAck { success, room, message } => {
            push_u32_le(out, 7);
            push_bool(out, *success);
            push_str(out, room);
            push_str(out, message);
            assert(out@ =~= start + message_bytes(m@));
        },
        MessageType::MessageBroadcast { room, username, content, timestamp } => {
            push_u32_le(out, 8);
            push_str(out, room);
            push_str(out, username);
            push_str(out, content);
            push_u64_le(out, *timestamp);
            assert(out@ =~= start + message_bytes(m@));
        },
        MessageType::RoomList { rooms } => {
            push_u32_le(out, 9);
            push_list(out, rooms);
            assert(out@ =~= start + message_bytes(m@));
        },
        MessageType::UserList { room, users } => {
            push_u32_le(out, 10);
            push_str(out, room);
            push_list(out, users);
            assert(out@ =~= start + message_bytes(m@));
        },
        MessageType::Error { message } => {
            push_u32_le(out, 11);
            push_str(out, message);
            assert(out@ =~= start + message_bytes(m@));
        },
        MessageType::UserJoined { room, username } => {
            push_u32_le(out, 12);
            push_str(out, room);
            push_str(out, username);
            assert(out@ =~= start + message_bytes(m@));
        },
        MessageType::UserLeft { room, username } => {
            push_u32_le(out, 13);
            push_str(out, room);
            push_str(out, username);
            assert(out@ =~= start + message_bytes(m@));
        },
        _ => {},
    }
}

/// The payload of `message`: the message and its timestamp.
pub fn encode_payload(message: &ProtocolMessage) -> (payload: Vec<u8>)
    ensures
        payload@ == payload_bytes(message@),
        representable(message@.message_type),
{
    let mut payload: Vec<u8> = Vec::new();
    push_message(&mut payload, &message.message_type);
    push_u64_le(&mut payload, message.timestamp);
    assert(payload@ =~= payload_bytes(message@));
    payload
}

impl ProtocolMessage {
    /// The frame that carries this message, or `MessageTooLarge` where the
    /// payload's length does not fit the four-byte prefix. A frame that was
    /// written is read back as this message.
    pub fn serialize(&self) -> (frame: Result<Vec<u8>, CodecError>)
        ensures
            match frame {
                Ok(bytes) => {
                    &&& payload_bytes(self@).len() <= u32::MAX
                    &&& bytes@ == frame_bytes(self@)
                    &&& decode_frame_spec(bytes@) == Ok::<(ProtocolMessageView, nat), CodecError>(
                        (self@, bytes@.len()),
                    )
                },
                Err(e) => payload_bytes(self@).len() > u32::MAX && e == CodecError::MessageTooLarge,
            },
    {
        let payload = encode_payload(self);
        if payload.len() > 0xFFFF_FFFF {
            return Err(CodecError::MessageTooLarge);
        }
        let mut frame: Vec<u8> = Vec::new();
        push_u32_be(&mut frame, payload.len() as u32);
        push_bytes(&mut frame, payload.as_slice());
        proof {
            assert(frame@ =~= frame_bytes(self@));
            frame_round_trip(self@, Seq::<u8>::empty());
            assert(frame_bytes(self@) + Seq::<u8>::empty() =~= frame_bytes(self@));
        }
        Ok(frame)
    }
}

// ---------------------------------------------------------------- decoding

/// A 32-bit number at the front of `b`, and what follows it.
pub open spec fn parse_u32(b: Seq<u8>) -> Option<(u32, Seq<u8>)> {
    if b.len() >= 4 {
        Some((u32_from_le(b), b.skip(4)))
    } else {
        None
    }
}

/// A 64-bit number at the front of `b`, and what follows it.
pub open spec fn parse_u64(b: Seq<u8>) -> Option<(u64, Seq<u8>)> {
    if b.len() >= 8 {
        Some((u64_from_le(b), b.skip(8)))
    } else {
        None
    }
}

/// A boolean at the front of `b`, and what follows it. Only 0 and 1 are booleans.
pub open spec fn parse_bool(b: Seq<u8>) -> Option<(bool, Seq<u8>)> {
    if b.len() >= 1 && b[0] <= 1 {
        Some((b[0] == 1, b.skip(1)))
    } else {
        None
    }
}

/// A string at the front of `b`, and what follows it. The announced length
/// must be there, and must be valid UTF-8.
pub open spec fn parse_str(b: Seq<u8>) -> Option<(Seq<char>, Seq<u8>)> {
    match parse_u64(b) {
        Some((len, rest)) => if len <= rest.len() && valid_utf8(rest.take(len as int)) {
            Some((decode_utf8(rest.take(len as int)), rest.skip(len as int)))
        } else {
            None
        },
        None => None,
    }
}

/// `count` strings at the front of `b`, and what follows them.
pub open spec fn parse_items(b: Seq<u8>, count: nat) -> Option<(Seq<Seq<char>>, Seq<u8>)>
    decreases count,
{
    if count == 0 {
        Some((Seq::<Seq<char>>::empty(), b))
    } else {
        match parse_str(b) {
            Some((first, rest)) => match parse_items(rest, (count - 1) as nat) {
                Some((others, after)) => Some((seq![first] + others, after)),
                None => None,
            },
            None => None,
        }
    }
}

/// A list of strings at the front of `b`, and what follows it.
pub open spec fn parse_list(b: Seq<u8>) -> Option<(Seq<Seq<char>>, Seq<u8>)> {
    match parse_u64(b) {
        Some((count, rest)) => parse_items(rest, count as nat),
        None => None,
    }
}

/// Two strings, one after the other.
pub open spec fn parse_str2(b: Seq<u8>) -> Option<(Seq<char>, Seq<char>, Seq<u8>)> {
    match parse_str(b) {
        Some((first, rest)) => match parse_str(rest) {
            Some((second, after)) => Some((first, second, after)),
            None => None,
        },
        None => None,
    }
}

/// A boolean and a string: the fields of `ConnectAck`.
pub open spec fn parse_connect_ack(b: Seq<u8>) -> Option<(MessageView, Seq<u8>)> {
    match parse_bool(b) {
        Some((success, rest)) => match parse_str(rest) {
            Some((message, after)) => Some((MessageView::ConnectAck { success, message }, after)),
            None => None,
        },
        None => None,
    }
}

/// A boolean and two strings: the fields of `JoinRoomAck`.
pub open spec fn parse_join_room_ack(b: Seq<u8>) -> Option<(MessageView, Seq<u8>)> {
    match parse_bool(b) {
        Some((success, rest)) => match parse_str2(rest) {
            Some((room, message, after)) => Some(
                (MessageView::JoinRoomAck { success, room, message }, after),
            ),
            None => None,
        },
        None => None,
    }
}

/// Three strings and a number: the fields of `MessageBroadcast`.
pub open spec fn parse_broadcast(b: Seq<u8>) -> Option<(MessageView, Seq<u8>)> {
    match parse_str2(b) {
        Some((room, username, rest)) => match parse_str(rest) {
            Some((content, after)) => match parse_u64(after) {
                Some((timestamp, end)) => Some(
                    (MessageView::MessageBroadcast { room, username, content, timestamp }, end),
                ),
                None => None,
            },
            None => None,
        },
        None => None,
    }
}

/// A string and a list: the fields of `UserList`.
pub open spec fn parse_user_list(b: Seq<u8>) -> Option<(MessageView, Seq<u8>)> {
    match parse_str(b) {
        Some((room, rest)) => match parse_list(rest) {
            Some((users, after)) => Some((MessageView::UserList { room, users }, after)),
            None => None,
        },
        None => None,
    }
}

/// The fields of a client's request, the variant numbered `tag`, at the
/// front of `b`, and what follows them.
pub open spec fn parse_request_fields(tag: u32, b: Seq<u8>) -> Option<(MessageView, Seq<u8>)> {
    if tag == 0 {
        match parse_str(b) {
            Some((username, rest)) => Some((MessageView::Connect { username }, rest)),
            None => None,
        }
    } else if tag == 1 {
        match parse_str(b) {
            Some((room, rest)) => Some((MessageView::JoinRoom { room }, rest)),
            None => None,
        }
    } else if tag == 2 {
        match parse_str2(b) {
            Some((room, content, rest)) => Some((MessageView::SendMessage { room, content }, rest)),
            None => None,
        }
    } else if tag == 3 {
        Some((MessageView::ListRooms, b))
    } else if tag == 4 {
        match parse_str(b) {
            Some((room, rest)) => Some((MessageView::ListUsers { room }, rest)),
            None => None,
        }
    } else if tag == 5 {
        Some((MessageView::Disconnect, b))
    } else {
        None
    }
}

/// The fields of a server's message, the variant numbered `tag`, at the
/// front of `b`, and what follows them.
pub open spec fn parse_event_fields(tag: u32, b: Seq<u8>) -> Option<(MessageView, Seq<u8>)> {
    if tag == 6 {
        parse_connect_ack(b)
    } else if tag == 7 {
        parse_join_room_ack(b)
    } else if tag == 8 {
        parse_broadcast(b)
    } else if tag == 9 {
        match parse_list(b) {
            Some((rooms, rest)) => Some((MessageView::RoomList { rooms }, rest)),
            None => None,
        }
    } else if tag == 10 {
        parse_user_list(b)
    } else if tag == 11 {
        match parse_str(b) {
            Some((message, rest)) => Some((MessageView::Error { message }, rest)),
            None => None,
        }
    } else if tag == 12 {
        match parse_str2(b) {
            Some((room, username, rest)) => Some((MessageView::UserJoined { room, username }, rest)),
            None => None,
        }
    } else if tag == 13 {
        match parse_str2(b) {
            Some((room, username, rest)) => Some((MessageView::UserLeft { room, username }, rest)),
            None => None,
        }
    } else {
        None
    }
}

/// The fields of the variant numbered `tag` at the front of `b`, and what
/// follows them. A number that the catalogue does not have gives nothing.
pub open spec fn parse_fields(tag: u32, b: Seq<u8>) -> Option<(MessageView, Seq<u8>)> {
    if tag <= 5 {
        parse_request_fields(tag, b)
    } else {
        parse_event_fields(tag, b)
    }
}

/// A message at the front of `b`, and what follows it.
pub open spec fn parse_message(b: Seq<u8>) -> Option<(MessageView, Seq<u8>)> {
    match parse_u32(b) {
        Some((tag, rest)) => parse_fields(tag, rest),
        None => None,
    }
}

/// The message that `payload` encodes, if it encodes one: a message, its
/// timestamp, and nothing after them.
pub open spec fn decode_payload_spec(payload: Seq<u8>) -> Option<ProtocolMessageView> {
    match parse_message(payload) {
        Some((message_type, rest)) => match parse_u64(rest) {
            Some((timestamp, end)) => if end.len() == 0 {
                Some(ProtocolMessageView { message_type, timestamp })
            } else {
                None
            },
            None => None,
        },
        None => None,
    }
}

/// What reading one frame from the bytes that a stream delivered gives: the
/// message and the number of bytes it took, or the reason for failing.
pub open spec fn decode_frame_spec(stream: Seq<u8>) -> Result<(ProtocolMessageView, nat), CodecError> {
    if stream.len() < 4 {
        Err(CodecError::ConnectionClosed)
    } else {
        let len = u32_from_be(stream) as int;
        if stream.len() < 4 + len {
            Err(CodecError::ConnectionClosed)
        } else {
            match decode_payload_spec(stream.subrange(4, 4 + len)) {
                Some(message) => Ok((message, (4 + len) as nat)),
                None => Err(CodecError::MalformedMessage),
            }
        }
    }
}

/// Reads a 32-bit number at `pos`.
fn read_u32(data: &[u8], pos: usize) -> (r: Option<(u32, usize)>)
    requires
        pos <= data@.len(),
    ensures
        match r {
            Some((x, next)) => pos <= next <= data@.len() && parse_u32(data@.skip(pos as int))
                == Some((x, data@.skip(next as int))),
            None => parse_u32(data@.skip(pos as int)) is None,
        },
{
    if data.len() - pos < 4 {
        return None;
    }
    let x = read_u32_le(data, pos);
    proof {
        let tail = data@.skip(pos as int);
        let four = data@.subrange(pos as int, pos + 4);
        assert(tail.subrange(0, 4) =~= four.subrange(0, 4));
        lemma_u32_from_le_prefix(tail, four);
        assert(tail.skip(4) =~= data@.skip(pos + 4));
    }
    Some((x, pos + 4))
}

/// Reads a 64-bit number at `pos`.
fn read_u64(data: &[u8], pos: usize) -> (r: Option<(u64, usize)>)
    requires
        pos <= data@.len(),
    ensures
        match r {
            Some((x, next)) => pos <= next <= data@.len() && parse_u64(data@.skip(pos as int))
                == Some((x, data@.skip(next as int))),
            None => parse_u64(data@.skip(pos as int)) is None,
        },
{
    if data.len() - pos < 8 {
        return None;
    }
    let x = read_u64_le(data, pos);
    proof {
        let tail = data@.skip(pos as int);
        let eight = data@.subrange(pos as int, pos + 8);
        assert(tail.subrange(0, 8) =~= eight.subrange(0, 8));
        lemma_u64_from_le_prefix(tail, eight);
        assert(tail.skip(8) =~= data@.skip(pos + 8));
    }
    Some((x, pos + 8))
}

/// Reads a boolean at `pos`.
fn read_bool(data: &[u8], pos: usize) -> (r: Option<(bool, usize)>)
    requires
        pos <= data@.len(),
    ensures
        match r {
            Some((b, next)) => pos <= next <= data@.len() && parse_bool(data@.skip(pos as int))
                == Some((b, data@.skip(next as int))),
            None => parse_bool(data@.skip(pos as int)) is None,
        },
{
    if data.len() - pos < 1 {
        return None;
    }
    let byte = data[pos];
    assert(data@.skip(pos as int)[0] == byte);
    if byte > 1 {
        return None;
    }
    assert(data@.skip(pos as int).skip(1) =~= data@.skip(pos + 1));
    Some((byte == 1, pos + 1))
}

/// Reads a string at `pos`.
fn read_str(data: &[u8], pos: usize) -> (r: Option<(String, usize)>)
    requires
        pos <= data@.len(),
    ensures
        match r {
            Some((s, next)) => pos <= next <= data@.len() && parse_str(data@.skip(pos as int))
                == Some((s@, data@.skip(next as int))),
            None => parse_str(data@.skip(pos as int)) is None,
        },
{
    let (len, start) = match read_u64(data, pos) {
        Some(found) => found,
        None => { return None; },
    };
    if len > (data.len() - start) as u64 {
        return None;
    }
    let end = start + len as usize;
    let bytes = slice_to_vec(slice_subrange(data, start, end));
    proof {
        let rest = data@.skip(start as int);
        assert(rest.take(len as int) =~= bytes@);
        assert(rest.skip(len as int) =~= data@.skip(end as int));
    }
    match string_from_utf8(bytes) {
        Some(s) => {
            proof {
                encode_utf8_decode_utf8(s@);
            }
            Some((s, end))
        },
        None => None,
    }
}

/// Reads two strings at `pos`.
fn read_str2(data: &[u8], pos: usize) -> (r: Option<(String, String, usize)>)
    requires
        pos <= data@.len(),
    ensures
        match r {
            Some((a, b, next)) => pos <= next <= data@.len() && parse_str2(data@.skip(pos as int))
                == Some((a@, b@, data@.skip(next as int))),
            None => parse_str2(data@.skip(pos as int)) is None,
        },
{
    let (first, mid) = match read_str(data, pos) {
        Some(found) => found,
        None => { return None; },
    };
    let (second, next) = match read_str(data, mid) {
        Some(found) => found,
        None => { return None; },
    };
    Some((first, second, next))
}

/// Reads a list of strings at `pos`.
fn read_list(data: &[u8], pos: usize) -> (r: Option<(Vec<String>, usize)>)
    requires
        pos <= data@.len(),
    ensures
        match r {
            Some((items, next)) => pos <= next <= data@.len() && parse_list(
                data@.skip(pos as int),
            ) == Some((items.deep_view(), data@.skip(next as int))),
            None => parse_list(data@.skip(pos as int)) is None,
        },
{
    let (count, start) = match read_u64(data, pos) {
        Some(found) => found,
        None => { return None; },
    };
    let mut items: Vec<String> = Vec::new();
    let mut at: usize = start;
    let mut done: u64 = 0;
    let ghost whole = parse_items(data@.skip(start as int), count as nat);
    assert(items.deep_view() =~= Seq::<Seq<char>>::empty());
    assert(whole == match parse_items(data@.skip(at as int), (count - done) as nat) {
        Some((others, after)) => Some((items.deep_view() + others, after)),
        None => None,
    }) by {
        match parse_items(data@.skip(at as int), (count - done) as nat) {
            Some((others, after)) => {
                assert(items.deep_view() + others =~= others);
            },
            None => {},
        }
    }
    while done < count
        invariant
            done <= count,
            start <= at <= data@.len(),
            pos <= start,
            whole == parse_list(data@.skip(pos as int)),
            whole == match parse_items(data@.skip(at as int), (count - done) as nat) {
                Some((others, after)) => Some((items.deep_view() + others, after)),
                None => None,
            },
        decreases count - done,
    {
        let ghost before = items.deep_view();
        let ghost here = data@.skip(at as int);
        match read_str(data, at) {
            Some((s, next)) => {
                items.push(s);
                proof {
                    assert(items.deep_view() =~= before + seq![s@]);
                    match parse_items(data@.skip(next as int), (count - done - 1) as nat) {
                        Some((others, after)) => {
                            assert(before + (seq![s@] + others) =~= items.deep_view() + others);
                        },
                        None => {},
                    }
                }
                at = next;
                done += 1;
            },
            None => {
                return None;
            },
        }
    }
    assert(items.deep_view() + Seq::<Seq<char>>::empty() =~= items.deep_view());
    Some((items, at))
}

/// Reads the fields of `ConnectAck` at `pos`.
fn read_connect_ack(data: &[u8], pos: usize) -> (r: Option<(MessageType, usize)>)
    requires
        pos <= data@.len(),
    ensures
        match r {
            Some((m, next)) => pos <= next <= data@.len() && parse_connect_ack(
                data@.skip(pos as int),
            ) == Some((m@, data@.skip(next as int))),
            None => parse_connect_ack(data@.skip(pos as int)) is None,
        },
{
    let (success, mid) = match read_bool(data, pos) {
        Some(found) => found,
        None => { return None; },
    };
    match read_str(data, mid) {
        Some((message, next)) => Some((MessageType::ConnectAck { success, message }, next)),
        None => None,
    }
}

/// Reads the fields of `JoinRoomAck` at `pos`.
fn read_join_room_ack(data: &[u8], pos: usize) -> (r: Option<(MessageType, usize)>)
    requires
        pos <= data@.len(),
    ensures
        match r {
            Some((m, next)) => pos <= next <= data@.len() && parse_join_room_ack(
                data@.skip(pos as int),
            ) == Some((m@, data@.skip(next as int))),
            None => parse_join_room_ack(data@.skip(pos as int)) is None,
        },
{
    let (success, mid) = match read_bool(data, pos) {
        Some(found) => found,
        None => { return None; },
    };
    match read_str2(data, mid) {
        Some((room, message, next)) => Some(
            (MessageType::JoinRoomAck { success, room, message }, next),
        ),
        None => None,
    }
}

/// Reads the fields of `MessageBroadcast` at `pos`.
fn read_broadcast(data: &[u8], pos: usize) -> (r: Option<(MessageType, usize)>)
    requires
        pos <= data@.len(),
    ensures
        match r {
            Some((m, next)) => pos <= next <= data@.len() && parse_broadcast(
                data@.skip(pos as int),
            ) == Some((m@, data@.skip(next as int))),
            None => parse_broadcast(data@.skip(pos as int)) is None,
        },
{
    let (room, username, mid) = match read_str2(data, pos) {
        Some(found) => found,
        None => { return None; },
    };
    let (content, last) = match read_str(data, mid) {
        Some(found) => found,
        None => { return None; },
    };
    match read_u64(data, last) {
        Some((timestamp, next)) => Some(
            (MessageType::MessageBroadcast { room, username, content, timestamp }, next),
        ),
        None => None,
    }
}

/// Reads the fields of `UserList` at `pos`.
fn read_user_list(data: &[u8], pos: usize) -> (r: Option<(MessageType, usize)>)
    requires
        pos <= data@.len(),
    ensures
        match r {
            Some((m, next)) => pos <= next <= data@.len() && parse_user_list(
                data@.skip(pos as int),
            ) == Some((m@, data@.skip(next as int))),
            None => parse_user_list(data@.skip(pos as int)) is None,
        },
{
    let (room, mid) = match read_str(data, pos) {
        Some(found) => found,
        None => { return None; },
    };
    match read_list(data, mid) {
        Some((users, next)) => Some((MessageType::UserList { room, users }, next)),
        None => None,
    }
}

/// Reads the fields of a client's request at `pos`.
fn read_request_fields(tag: u32, data: &[u8], pos: usize) -> (r: Option<(MessageType, usize)>)
    requires
        pos <= data@.len(),
    ensures
        match r {
            Some((m, next)) => pos <= next <= data@.len() && parse_request_fields(
                tag,
                data@.skip(pos as int),
            ) == Some((m@, data@.skip(next as int))),
            None => parse_request_fields(tag, data@.skip(pos as int)) is None,
        },
{
    if tag == 0 {
        match read_str(data, pos) {
            Some((username, next)) => Some((MessageType::Connect { username }, next)),
            None => None,
        }
    } else if tag == 1 {
        match read_str(data, pos) {
            Some((room, next)) => Some((MessageType::JoinRoom { room }, next)),
            None => None,
        }
    } else if tag == 2 {
        match read_str2(data, pos) {
            Some((room, content, next)) => Some((MessageType::SendMessage { room, content }, next)),
            None => None,
        }
    } else if tag == 3 {
        Some((MessageType::ListRooms, pos))
    } else if tag == 4 {
        match read_str(data, pos) {
            Some((room, next)) => Some((MessageType::ListUsers { room }, next)),
            None => None,
        }
    } else if tag == 5 {
        Some((MessageType::Disconnect, pos))
    } else {
        None
    }
}

/// Reads the fields of a server's message at `pos`.
fn read_event_fields(tag: u32, data: &[u8], pos: usize) -> (r: Option<(MessageType, usize)>)
    requires
        pos <= data@.len(),
    ensures
        match r {
            Some((m, next)) => pos <= next <= data@.len() && parse_event_fields(
                tag,
                data@.skip(pos as int),
            ) == Some((m@, data@.skip(next as int))),
            None => parse_event_fields(tag, data@.skip(pos as int)) is None,
        },
{
    if tag == 6 {
        read_connect_ack(data, pos)
    } else if tag == 7 {
        read_join_room_ack(data, pos)
    } else if tag == 8 {
        read_broadcast(data, pos)
    } else if tag == 9 {
        match read_list(data, pos) {
            Some((rooms, next)) => Some((MessageType::RoomList { rooms }, next)),
            None => None,
        }
    } else if tag == 10 {
        read_user_list(data, pos)
    } else if tag == 11 {
        match read_str(data, pos) {
            Some((message, next)) => Some((MessageType::Error { message }, next)),
            None => None,
        }
    } else if tag == 12 {
        match read_str2(data, pos) {
            Some((room, username, next)) => Some((MessageType::UserJoined { room, username }, next)),
            None => None,
        }
    } else if tag == 13 {
        match read_str2(data, pos) {
            Some((room, username, next)) => Some((MessageType::UserLeft { room, username }, next)),
            None => None,
        }
    } else {
        None
    }
}

/// Reads a message at `pos`: its variant number and its fields.
fn read_message(data: &[u8], pos: usize) -> (r: Option<(MessageType, usize)>)
    requires
        pos <= data@.len(),
    ensures
        match r {
            Some((m, next)) => pos <= next <= data@.len() && parse_message(
                data@.skip(pos as int),
            ) == Some((m@, data@.skip(next as int))),
            None => parse_message(data@.skip(pos as int)) is None,
        },
{
    let (tag, at) = match read_u32(data, pos) {
        Some(found) => found,
        None => { return None; },
    };
    if tag <= 5 {
        read_request_fields(tag, data, at)
    } else {
        read_event_fields(tag, data, at)
    }
}

/// The message that `payload` encodes, or `MalformedMessage` where it encodes
/// none: an unknown variant number, a field cut short, a string that is not
/// UTF-8, a boolean that is neither 0 nor 1, or bytes left over.
pub fn decode_payload(payload: &[u8]) -> (r: Result<ProtocolMessage, CodecError>)
    ensures
        match r {
            Ok(message) => decode_payload_spec(payload@) == Some(message@),
            Err(e) => decode_payload_spec(payload@) is None && e == CodecError::MalformedMessage,
        },
{
    assert(payload@.skip(0) =~= payload@);
    let (message_type, at) = match read_message(payload, 0) {
        Some(found) => found,
        None => { return Err(CodecError::MalformedMessage); },
    };
    let (timestamp, end) = match read_u64(payload, at) {
        Some(found) => found,
        None => { return Err(CodecError::MalformedMessage); },
    };
    if end != payload.len() {
        return Err(CodecError::MalformedMessage);
    }
    Ok(ProtocolMessage { message_type, timestamp })
}

impl ProtocolMessage {
    /// Reads one frame from `stream`, the bytes that a connection delivered:
    /// the message and the number of bytes that its frame took. Fails with
    /// `ConnectionClosed` where the bytes end before the length prefix or
    /// before the announced payload is complete, and with `MalformedMessage`
    /// where the payload encodes no message.
    pub fn deserialize_from_stream(stream: &[u8]) -> (r: Result<(ProtocolMessage, usize), CodecError>)
        ensures
            match r {
                Ok((message, used)) => decode_frame_spec(stream@) == Ok::<
                    (ProtocolMessageView, nat),
                    CodecError,
                >((message@, used as nat)),
                Err(e) => decode_frame_spec(stream@) == Err::<(ProtocolMessageView, nat), CodecError>(
                    e,
                ),
            },
    {
        if stream.len() < 4 {
            return Err(CodecError::ConnectionClosed);
        }
        let len = read_u32_be(stream, 0);
        proof {
            let prefix = stream@.subrange(0, 4);
            assert(prefix.subrange(0, 4) =~= stream@.subrange(0, 4));
            lemma_u32_from_be_prefix(stream@, prefix);
        }
        if ((stream.len() - 4) as u64) < len as u64 {
            return Err(CodecError::ConnectionClosed);
        }
        let end = 4 + len as usize;
        match decode_payload(slice_subrange(stream, 4, end)) {
            Ok(message) => Ok((message, end)),
            Err(e) => Err(e),
        }
    }
}

} // verus!
