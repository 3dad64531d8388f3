//! Reading back what was written: every message that has an encoding is read
//! back from it unchanged.

use crate::chat::codec::{
    bool_bytes, decode_frame_spec, decode_payload_spec, fields_bytes, frame_bytes, items_bytes,
    list_bytes, list_fits, message_bytes, parse_bool, parse_event_fields, parse_items, parse_list,
    parse_message, parse_request_fields, parse_str, parse_str2, parse_u32, parse_u64,
    payload_bytes, representable, str_bytes, str_fits, variant_tag, CodecError,
};
use crate::chat::message::{MessageView, ProtocolMessageView};
use crate::endian::{
    lemma_u32_be_round_trip, lemma_u32_from_be_inverse, lemma_u32_from_le_inverse,
    lemma_u32_le_round_trip, lemma_u64_from_le_inverse, lemma_u64_le_round_trip, u32_be,
    u32_from_be, u32_le, u64_le,
};
use vstd::prelude::*;
use vstd::utf8::{
    decode_utf8, decode_utf8_encode_utf8, encode_utf8, encode_utf8_decode_utf8,
    encode_utf8_valid_utf8,
};

verus! {

/// A written 32-bit number is read back, and what follows it is left.
pub proof fn lemma_read_back_u32(x: u32, rest: Seq<u8>)
    ensures
        parse_u32(u32_le(x) + rest) == Some((x, rest)),
{
    lemma_u32_le_round_trip(x, rest);
    assert((u32_le(x) + rest).skip(4) =~= rest);
}

/// A written 64-bit number is read back, and what follows it is left.
pub proof fn lemma_read_back_u64(x: u64, rest: Seq<u8>)
    ensures
        parse_u64(u64_le(x) + rest) == Some((x, rest)),
{
    lemma_u64_le_round_trip(x, rest);
    assert((u64_le(x) + rest).skip(8) =~= rest);
}

/// A written boolean is read back, and what follows it is left.
pub proof fn lemma_read_back_bool(b: bool, rest: Seq<u8>)
    ensures
        parse_bool(bool_bytes(b) + rest) == Some((b, rest)),
{
    assert((bool_bytes(b) + rest).skip(1) =~= rest);
}

/// A written string is read back, and what follows it is left.
pub proof fn lemma_read_back_str(s: Seq<char>, rest: Seq<u8>)
    requires
        str_fits(s),
    ensures
        parse_str(str_bytes(s) + rest) == Some((s, rest)),
{
    let utf8 = encode_utf8(s);
    let len = utf8.len() as u64;
    let whole = str_bytes(s) + rest;
    assert(whole =~= u64_le(len) + (utf8 + rest));
    lemma_read_back_u64(len, utf8 + rest);
    assert((utf8 + rest).take(len as int) =~= utf8);
    assert((utf8 + rest).skip(len as int) =~= rest);
    encode_utf8_valid_utf8(s);
    encode_utf8_decode_utf8(s);
}

/// Two written strings are read back, and what follows them is left.
pub proof fn lemma_read_back_str2(a: Seq<char>, b: Seq<char>, rest: Seq<u8>)
    requires
        str_fits(a),
        str_fits(b),
    ensures
        parse_str2(str_bytes(a) + (str_bytes(b) + rest)) == Some((a, b, rest)),
{
    lemma_read_back_str(a, str_bytes(b) + rest);
    lemma_read_back_str(b, rest);
}

/// Written items are read back, and what follows them is left.
pub proof fn lemma_read_back_items(items: Seq<Seq<char>>, rest: Seq<u8>)
    requires
        forall|i: int| 0 <= i < items.len() ==> str_fits(#[trigger] items[i]),
    ensures
        parse_items(items_bytes(items) + rest, items.len()) == Some((items, rest)),
    decreases items.len(),
{
    if items.len() == 0 {
        assert(items_bytes(items) + rest =~= rest);
        assert(items =~= Seq::<Seq<char>>::empty());
    } else {
        let tail = items.drop_first();
        assert forall|i: int| 0 <= i < tail.len() implies str_fits(#[trigger] tail[i]) by {
            assert(tail[i] == items[i + 1]);
        }
        lemma_read_back_items(tail, rest);
        lemma_read_back_str(items[0], items_bytes(tail) + rest);
        assert(items_bytes(items) + rest =~= str_bytes(items[0]) + (items_bytes(tail) + rest));
        assert(seq![items[0]] + tail =~= items);
    }
}

/// A written list is read back, and what follows it is left.
pub proof fn lemma_read_back_list(items: Seq<Seq<char>>, rest: Seq<u8>)
    requires
        list_fits(items),
    ensures
        parse_list(list_bytes(items) + rest) == Some((items, rest)),
{
    let count = items.len() as u64;
    assert(list_bytes(items) + rest =~= u64_le(count) + (items_bytes(items) + rest));
    lemma_read_back_u64(count, items_bytes(items) + rest);
    lemma_read_back_items(items, rest);
}

/// The fields of a written request are read back under its variant number.
proof fn lemma_read_back_request(m: MessageView, rest: Seq<u8>)
    requires
        representable(m),
        variant_tag(m) <= 5,
    ensures
        parse_request_fields(variant_tag(m), fields_bytes(m) + rest) == Some((m, rest)),
{
    match m {
        MessageView::Connect { username } => {
            lemma_read_back_str(username, rest);
        },
        MessageView::JoinRoom { room } => {
            lemma_read_back_str(room, rest);
        },
        MessageView::SendMessage { room, content } => {
            lemma_read_back_str2(room, content, rest);
            assert(fields_bytes(m) + rest =~= str_bytes(room) + (str_bytes(content) + rest));
        },
        MessageView::ListRooms => {
            assert(fields_bytes(m) + rest =~= rest);
        },
        MessageView::ListUsers { room } => {
            lemma_read_back_str(room, rest);
        },
        MessageView::Disconnect => {
            assert(fields_bytes(m) + rest =~= rest);
        },
        _ => {},
    }
}

/// The fields of a written acknowledgement are read back.
proof fn lemma_read_back_acks(m: MessageView, rest: Seq<u8>)
    requires
        representable(m),
        m is ConnectAck || m is JoinRoomAck,
    ensures
        parse_event_fields(variant_tag(m), fields_bytes(m) + rest) == Some((m, rest)),
{
    match m {
        MessageView::ConnectAck { success, message } => {
            assert(fields_bytes(m) + rest =~= bool_bytes(success) + (str_bytes(message) + rest));
            lemma_read_back_bool(success, str_bytes(message) + rest);
            lemma_read_back_str(message, rest);
        },
        MessageView::JoinRoomAck { success, room, message } => {
            assert(fields_bytes(m) + rest =~= bool_bytes(success) + (str_bytes(room) + (str_bytes(
                message,
            ) + rest)));
            lemma_read_back_bool(success, str_bytes(room) + (str_bytes(message) + rest));
            lemma_read_back_str2(room, message, rest);
        },
        _ => {},
    }
}

/// The fields of a written broadcast are read back.
proof fn lemma_read_back_broadcast(m: MessageView, rest: Seq<u8>)
    requires
        representable(m),
        m is MessageBroadcast,
    ensures
        parse_event_fields(variant_tag(m), fields_bytes(m) + rest) == Some((m, rest)),
{
    match m {
        MessageView::MessageBroadcast { room, username, content, timestamp } => {
            let after_names = str_bytes(content) + (u64_le(timestamp) + rest);
            assert(fields_bytes(m) + rest =~= str_bytes(room) + (str_bytes(username)
                + after_names));
            lemma_read_back_str2(room, username, after_names);
            lemma_read_back_str(content, u64_le(timestamp) + rest);
            lemma_read_back_u64(timestamp, rest);
        },
        _ => {},
    }
}

/// The fields of a written listing are read back.
proof fn lemma_read_back_listing(m: MessageView, rest: Seq<u8>)
    requires
        representable(m),
        m is RoomList || m is UserList,
    ensures
        parse_event_fields(variant_tag(m), fields_bytes(m) + rest) == Some((m, rest)),
{
    match m {
        MessageView::RoomList { rooms } => {
            lemma_read_back_list(rooms, rest);
        },
        MessageView::UserList { room, users } => {
            assert(fields_bytes(m) + rest =~= str_bytes(room) + (list_bytes(users) + rest));
            lemma_read_back_str(room, list_bytes(users) + rest);
            lemma_read_back_list(users, rest);
        },
        _ => {},
    }
}

/// The fields of a written notice are read back.
proof fn lemma_read_back_notice(m: MessageView, rest: Seq<u8>)
    requires
        representable(m),
        m is Error || m is UserJoined || m is UserLeft,
    ensures
        parse_event_fields(variant_tag(m), fields_bytes(m) + rest) == Some((m, rest)),
{
    match m {
        MessageView::Error { message } => {
            lemma_read_back_str(message, rest);
        },
        MessageView::UserJoined { room, username } => {
            assert(fields_bytes(m) + rest =~= str_bytes(room) + (str_bytes(username) + rest));
            lemma_read_back_str2(room, username, rest);
        },
        MessageView::UserLeft { room, username } => {
            assert(fields_bytes(m) + rest =~= str_bytes(room) + (str_bytes(username) + rest));
            lemma_read_back_str2(room, username, rest);
        },
        _ => {},
    }
}

/// A written message is read back, and what follows it is left.
pub proof fn lemma_read_back_message(m: MessageView, rest: Seq<u8>)
    requires
        representable(m),
    ensures
        parse_message(message_bytes(m) + rest) == Some((m, rest)),
{
    let tag = variant_tag(m);
    assert(message_bytes(m) + rest =~= u32_le(tag) + (fields_bytes(m) + rest));
    lemma_read_back_u32(tag, fields_bytes(m) + rest);
    if tag <= 5 {
        lemma_read_back_request(m, rest);
    } else if m is ConnectAck || m is JoinRoomAck {
        lemma_read_back_acks(m, rest);
    } else if m is MessageBroadcast {
        lemma_read_back_broadcast(m, rest);
    } else if m is RoomList || m is UserList {
        lemma_read_back_listing(m, rest);
    } else {
        lemma_read_back_notice(m, rest);
    }
}

/// Decoding the payload of a message gives the message back, timestamp
/// included.
pub proof fn payload_round_trip(p: ProtocolMessageView)
    requires
        representable(p.message_type),
    ensures
        decode_payload_spec(payload_bytes(p)) == Some(p),
{
    lemma_read_back_message(p.message_type, u64_le(p.timestamp));
    lemma_read_back_u64(p.timestamp, Seq::<u8>::empty());
    assert(u64_le(p.timestamp) + Seq::<u8>::empty() =~= u64_le(p.timestamp));
}

/// Reading a frame from a stream that starts with the frame of a message
/// gives the message back and takes exactly the frame, whatever follows it.
pub proof fn frame_round_trip(p: ProtocolMessageView, more: Seq<u8>)
    requires
        representable(p.message_type),
        payload_bytes(p).len() <= u32::MAX,
    ensures
        decode_frame_spec(frame_bytes(p) + more) == Ok::<(ProtocolMessageView, nat), CodecError>(
            (p, frame_bytes(p).len()),
        ),
{
    let payload = payload_bytes(p);
    let len = payload.len() as u32;
    let stream = frame_bytes(p) + more;
    assert(stream =~= u32_be(len) + (payload + more));
    lemma_u32_be_round_trip(len, payload + more);
    assert(stream.subrange(4, 4 + len) =~= payload);
    payload_round_trip(p);
}

/// Bytes from which a 32-bit number is read are that number written, and
/// what is left.
pub proof fn lemma_written_u32(b: Seq<u8>)
    requires
        parse_u32(b) is Some,
    ensures
        parse_u32(b) matches Some((x, rest)) && b == u32_le(x) + rest,
{
    lemma_u32_from_le_inverse(b);
    assert(b =~= b.subrange(0, 4) + b.skip(4));
}

/// Bytes from which a 64-bit number is read are that number written, and
/// what is left.
pub proof fn lemma_written_u64(b: Seq<u8>)
    requires
        parse_u64(b) is Some,
    ensures
        parse_u64(b) matches Some((x, rest)) && b == u64_le(x) + rest,
{
    lemma_u64_from_le_inverse(b);
    assert(b =~= b.subrange(0, 8) + b.skip(8));
}

/// Bytes from which a boolean is read are that boolean written, and what is
/// left.
pub proof fn lemma_written_bool(b: Seq<u8>)
    requires
        parse_bool(b) is Some,
    ensures
        parse_bool(b) matches Some((flag, rest)) && b == bool_bytes(flag) + rest,
{
    assert(b =~= bool_bytes(b[0] == 1) + b.skip(1));
}

/// Bytes from which a string is read are that string written, and what is
/// left.
pub proof fn lemma_written_str(b: Seq<u8>)
    requires
        parse_str(b) is Some,
    ensures
        parse_str(b) matches Some((s, rest)) && b == str_bytes(s) + rest && str_fits(s),
{
    lemma_written_u64(b);
    let (len, rest) = parse_u64(b)->0;
    let utf8 = rest.take(len as int);
    decode_utf8_encode_utf8(utf8);
    assert(rest =~= utf8 + rest.skip(len as int));
    assert(b =~= str_bytes(decode_utf8(utf8)) + rest.skip(len as int));
}

/// Bytes from which two strings are read are those strings written, and
/// what is left.
pub proof fn lemma_written_str2(b: Seq<u8>)
    requires
        parse_str2(b) is Some,
    ensures
        parse_str2(b) matches Some((first, second, rest)) && b == str_bytes(first) + (str_bytes(
            second,
        ) + rest) && str_fits(first) && str_fits(second),
{
    lemma_written_str(b);
    let (first, rest) = parse_str(b)->0;
    lemma_written_str(rest);
}

/// Bytes from which items are read are those items written, and what is
/// left.
pub proof fn lemma_written_items(b: Seq<u8>, count: nat)
    requires
        parse_items(b, count) is Some,
    ensures
        parse_items(b, count) matches Some((items, rest)) && b == items_bytes(items) + rest
            && items.len() == count && forall|i: int|
            0 <= i < count ==> str_fits(#[trigger] items[i]),
    decreases count,
{
    let (items, after) = parse_items(b, count)->0;
    if count == 0 {
        assert(items_bytes(items) + after =~= b);
    } else {
        lemma_written_str(b);
        let (first, rest) = parse_str(b)->0;
        lemma_written_items(rest, (count - 1) as nat);
        let (others, end) = parse_items(rest, (count - 1) as nat)->0;
        assert(items =~= seq![first] + others);
        assert(items.drop_first() =~= others);
        assert(b =~= items_bytes(items) + after);
        assert forall|i: int| 0 <= i < count implies str_fits(#[trigger] items[i]) by {
            if i > 0 {
                assert(items[i] == others[i - 1]);
            }
        }
    }
}

/// Bytes from which a list is read are that list written, and what is left.
pub proof fn lemma_written_list(b: Seq<u8>)
    requires
        parse_list(b) is Some,
    ensures
        parse_list(b) matches Some((items, rest)) && b == list_bytes(items) + rest && list_fits(
            items,
        ),
{
    lemma_written_u64(b);
    let (count, rest) = parse_u64(b)->0;
    lemma_written_items(rest, count as nat);
    let (items, after) = parse_items(rest, count as nat)->0;
    assert(b =~= list_bytes(items) + after);
}

/// Bytes from which the fields of a request are read are those fields
/// written, and what is left.
proof fn lemma_written_request(tag: u32, b: Seq<u8>)
    requires
        parse_request_fields(tag, b) is Some,
    ensures
        parse_request_fields(tag, b) matches Some((m, rest)) && b == fields_bytes(m) + rest
            && variant_tag(m) == tag && representable(m),
{
    let (m, rest) = parse_request_fields(tag, b)->0;
    if tag == 0 || tag == 1 || tag == 4 {
        lemma_written_str(b);
    } else if tag == 2 {
        lemma_written_str2(b);
        assert(b =~= fields_bytes(m) + rest);
    } else {
        assert(b =~= fields_bytes(m) + rest);
    }
}

/// Bytes from which the fields of an acknowledgement or a broadcast are
/// read are those fields written, and what is left.
proof fn lemma_written_reply(tag: u32, b: Seq<u8>)
    requires
        6 <= tag <= 8,
        parse_event_fields(tag, b) is Some,
    ensures
        parse_event_fields(tag, b) matches Some((m, rest)) && b == fields_bytes(m) + rest
            && variant_tag(m) == tag && representable(m),
{
    let (m, rest) = parse_event_fields(tag, b)->0;
    if tag == 6 {
        lemma_written_bool(b);
        let (flag, after_flag) = parse_bool(b)->0;
        lemma_written_str(after_flag);
        assert(b =~= fields_bytes(m) + rest);
    } else if tag == 7 {
        lemma_written_bool(b);
        let (flag, after_flag) = parse_bool(b)->0;
        lemma_written_str2(after_flag);
        assert(b =~= fields_bytes(m) + rest);
    } else {
        lemma_written_str2(b);
        let (room, username, after_names) = parse_str2(b)->0;
        lemma_written_str(after_names);
        let (content, after_content) = parse_str(after_names)->0;
        lemma_written_u64(after_content);
        assert(b =~= fields_bytes(m) + rest);
    }
}

/// Bytes from which the fields of a listing or a notice are read are those
/// fields written, and what is left.
proof fn lemma_written_notice(tag: u32, b: Seq<u8>)
    requires
        9 <= tag,
        parse_event_fields(tag, b) is Some,
    ensures
        parse_event_fields(tag, b) matches Some((m, rest)) && b == fields_bytes(m) + rest
            && variant_tag(m) == tag && representable(m),
{
    let (m, rest) = parse_event_fields(tag, b)->0;
    if tag == 9 {
        lemma_written_list(b);
    } else if tag == 10 {
        lemma_written_str(b);
        let (room, after_room) = parse_str(b)->0;
        lemma_written_list(after_room);
        assert(b =~= fields_bytes(m) + rest);
    } else if tag == 11 {
        lemma_written_str(b);
    } else {
        lemma_written_str2(b);
        assert(b =~= fields_bytes(m) + rest);
    }
}

/// Bytes from which a message is read are that message written, and what is
/// left; and the message has an encoding.
pub proof fn lemma_written_message(b: Seq<u8>)
    requires
        parse_message(b) is Some,
    ensures
        parse_message(b) matches Some((m, rest)) && b == message_bytes(m) + rest && representable(
            m,
        ),
{
    lemma_written_u32(b);
    let (tag, rest) = parse_u32(b)->0;
    let (m, after) = parse_message(b)->0;
    if tag <= 5 {
        lemma_written_request(tag, rest);
    } else if tag <= 8 {
        lemma_written_reply(tag, rest);
    } else {
        lemma_written_notice(tag, rest);
    }
    assert(b =~= message_bytes(m) + after);
}

/// Only the payload of a message decodes to that message: a payload that
/// decodes is, byte for byte, the encoding of what it decodes to. So no two
/// payloads decode to the same message.
pub proof fn payload_is_canonical(payload: Seq<u8>)
    requires
        decode_payload_spec(payload) is Some,
    ensures
        decode_payload_spec(payload) matches Some(p) && payload == payload_bytes(p)
            && representable(p.message_type),
{
    lemma_written_message(payload);
    let (m, rest) = parse_message(payload)->0;
    lemma_written_u64(rest);
    let (timestamp, end) = parse_u64(rest)->0;
    assert(end =~= Seq::<u8>::empty());
    assert(payload =~= payload_bytes(decode_payload_spec(payload)->0));
}

/// Only the frame of a message reads as that message: the bytes that
/// reading a frame takes from a stream are, byte for byte, the frame of the
/// message that was read.
pub proof fn frame_is_canonical(stream: Seq<u8>)
    requires
        decode_frame_spec(stream) is Ok,
    ensures
        decode_frame_spec(stream) matches Ok((p, used)) && used <= stream.len() && stream.take(
            used as int,
        ) == frame_bytes(p) && payload_bytes(p).len() <= u32::MAX,
{
    let len = u32_from_be(stream);
    let payload = stream.subrange(4, 4 + len);
    payload_is_canonical(payload);
    lemma_u32_from_be_inverse(stream);
    assert(stream.take(4 + len) =~= stream.subrange(0, 4) + payload);
}

} // verus!
