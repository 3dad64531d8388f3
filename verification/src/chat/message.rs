//! The message catalogue of the chat protocol and its mathematical view.

use vstd::prelude::*;

verus! {

/// One message of the chat protocol.
#[derive(Debug, PartialEq)]
pub enum MessageType {
    // client to server
    Connect { username: String },
    JoinRoom { room: String },
    SendMessage { room: String, content: String },
    ListRooms,
    ListUsers { room: String },
    Disconnect,
    // server to client
    ConnectAck { success: bool, message: String },
    JoinRoomAck { success: bool, room: String, message: String },
    MessageBroadcast { room: String, username: String, content: String, timestamp: u64 },
    RoomList { rooms: Vec<String> },
    UserList { room: String, users: Vec<String> },
    Error { message: String },
    UserJoined { room: String, username: String },
    UserLeft { room: String, username: String },
}

/// What a [`MessageType`] says: the same catalogue over sequences of characters.
pub enum MessageView {
    Connect { username: Seq<char> },
    JoinRoom { room: Seq<char> },
    SendMessage { room: Seq<char>, content: Seq<char> },
    ListRooms,
    ListUsers { room: Seq<char> },
    Disconnect,
    ConnectAck { success: bool, message: Seq<char> },
    JoinRoomAck { success: bool, room: Seq<char>, message: Seq<char> },
    MessageBroadcast { room: Seq<char>, username: Seq<char>, content: Seq<char>, timestamp: u64 },
    RoomList { rooms: Seq<Seq<char>> },
    UserList { room: Seq<char>, users: Seq<Seq<char>> },
    Error { message: Seq<char> },
    UserJoined { room: Seq<char>, username: Seq<char> },
    UserLeft { room: Seq<char>, username: Seq<char> },
}

impl View for MessageType {
    type V = MessageView;

    open spec fn view(&self) -> MessageView {
        match *self {
            MessageType::Connect { username } => MessageView::Connect { username: username@ },
            MessageType::JoinRoom { room } => MessageView::JoinRoom { room: room@ },
            MessageType::SendMessage { room, content } => MessageView::SendMessage {
                room: room@,
                content: content@,
            },
            MessageType::ListRooms => MessageView::ListRooms,
            MessageType::ListUsers { room } => MessageView::ListUsers { room: room@ },
            MessageType::Disconnect => MessageView::Disconnect,
            MessageType::ConnectAck { success, message } => MessageView::ConnectAck {
                success,
                message: message@,
            },
            MessageType::JoinRoomAck { success, room, message } => MessageView::JoinRoomAck {
                success,
                room: room@,
                message: message@,
            },
            MessageType::MessageBroadcast {
                room,
                username,
                content,
                timestamp,
            } => MessageView::MessageBroadcast {
                room: room@,
                username: username@,
                content: content@,
                timestamp,
            },
            MessageType::RoomList { rooms } => MessageView::RoomList { rooms: rooms.deep_view() },
            MessageType::UserList { room, users } => MessageView::UserList {
                room: room@,
                users: users.deep_view(),
            },
            MessageType::Error { message } => MessageView::Error { message: message@ },
            MessageType::UserJoined { room, username } => MessageView::UserJoined {
                room: room@,
                username: username@,
            },
            MessageType::UserLeft { room, username } => MessageView::UserLeft {
                room: room@,
                username: username@,
            },
        }
    }
}

/// A copy of a list of strings, string by string.
pub fn clone_strings(list: &Vec<String>) -> (copy: Vec<String>)
    ensures
        copy.deep_view() == list.deep_view(),
{
    let mut copy: Vec<String> = Vec::new();
    let mut i: usize = 0;
    while i < list.len()
        invariant
            i <= list.len(),
            copy.len() == i,
            forall|k: int| 0 <= k < i ==> copy[k]@ == list[k]@,
        decreases list.len() - i,
    {
        copy.push(list[i].clone());
        i += 1;
    }
    assert(copy.deep_view() =~= list.deep_view());
    copy
}

impl Clone for MessageType {
    fn clone(&self) -> (copy: Self)
        ensures
            copy@ == self@,
    {
        match self {
            MessageType::Connect { username } => MessageType::Connect { username: username.clone() },
            MessageType::JoinRoom { room } => MessageType::JoinRoom { room: room.clone() },
            MessageType::SendMessage { room, content } => MessageType::SendMessage {
                room: room.clone(),
                content: content.clone(),
            },
            MessageType::ListRooms => MessageType::ListRooms,
            MessageType::ListUsers { room } => MessageType::ListUsers { room: room.clone() },
            MessageType::Disconnect => MessageType::Disconnect,
            MessageType::ConnectAck { success, message } => MessageType::ConnectAck {
                success: *success,
                message: message.clone(),
            },
            MessageType::JoinRoomAck { success, room, message } => MessageType::JoinRoomAck {
                success: *success,
                room: room.clone(),
                message: message.clone(),
            },
            MessageType::MessageBroadcast {
                room,
                username,
                content,
                timestamp,
            } => MessageType::MessageBroadcast {
                room: room.clone(),
                username: username.clone(),
                content: content.clone(),
                timestamp: *timestamp,
            },
            MessageType::RoomList { rooms } => MessageType::RoomList { rooms: clone_strings(rooms) },
            MessageType::UserList { room, users } => MessageType::UserList {
                room: room.clone(),
                users: clone_strings(users),
            },
            MessageType::Error { message } => MessageType::Error { message: message.clone() },
            MessageType::UserJoined { room, username } => MessageType::UserJoined {
                room: room.clone(),
                username: username.clone(),
            },
            MessageType::UserLeft { room, username } => MessageType::UserLeft {
                room: room.clone(),
                username: username.clone(),
            },
        }
    }
}

/// A message with the time at which it was made, in seconds since the Unix
/// epoch. The time is carried along; it is not part of what the message says.
#[derive(Debug)]
pub struct ProtocolMessage {
    pub message_type: MessageType,
    pub timestamp: u64,
}

/// What a [`ProtocolMessage`] carries.
pub struct ProtocolMessageView {
    pub message_type: MessageView,
    pub timestamp: u64,
}

impl View for ProtocolMessage {
    type V = ProtocolMessageView;

    open spec fn view(&self) -> ProtocolMessageView {
        ProtocolMessageView { message_type: self.message_type@, timestamp: self.timestamp }
    }
}

impl Clone for ProtocolMessage {
    fn clone(&self) -> (copy: Self)
        ensures
            copy@ == self@,
    {
        ProtocolMessage { message_type: self.message_type.clone(), timestamp: self.timestamp }
    }
}

/// A point in time as the system clock gives it. Nothing is known of it.
#[verifier::external_type_specification]
#[verifier::external_body]
pub struct ExSystemTime(std::time::SystemTime);

/// `SystemTime::now`: the time on the system clock. Nothing is claimed of
/// it.
#[verifier::external_body]
fn system_now() -> std::time::SystemTime {
    std::time::SystemTime::now()
}

/// `SystemTime::duration_since` with `UNIX_EPOCH`: the time elapsed since the
/// Unix epoch, or `None` where `time` lies before it. Nothing is claimed of
/// the duration.
#[verifier::external_body]
fn since_epoch(time: &std::time::SystemTime) -> Option<core::time::Duration> {
    match time.duration_since(std::time::UNIX_EPOCH) {
        Ok(elapsed) => Some(elapsed),
        Err(_) => None,
    }
}

/// `Duration::as_secs`: the whole seconds of a duration. Nothing is claimed
/// of their number.
#[verifier::external_body]
fn whole_seconds(elapsed: &core::time::Duration) -> u64 {
    elapsed.as_secs()
}

/// The timestamp for a reading of the clock: the seconds that the reading
/// counts since the Unix epoch, and 0 for a reading from before the epoch,
/// which has none.
pub fn timestamp_of(reading: Option<u64>) -> (timestamp: u64)
    ensures
        timestamp == match reading {
            Some(seconds) => seconds,
            None => 0u64,
        },
{
    match reading {
        Some(seconds) => seconds,
        None => 0,
    }
}

/// The current time in seconds since the Unix epoch; 0 where the system clock
/// stands before the epoch. The clock decides the value: it is
/// [`timestamp_of`] what the clock read, and nothing more is known of it.
pub fn current_timestamp() -> u64 {
    let now = system_now();
    let reading = match since_epoch(&now) {
        Some(elapsed) => Some(whole_seconds(&elapsed)),
        None => None,
    };
    timestamp_of(reading)
}

impl ProtocolMessage {
    /// Wraps `message_type`, stamped with the current time.
    pub fn new(message_type: MessageType) -> (message: Self)
        ensures
            message.message_type == message_type,
    {
        ProtocolMessage { message_type, timestamp: current_timestamp() }
    }

    /// Wraps `message_type`, stamped with `timestamp`.
    pub fn with_timestamp(message_type: MessageType, timestamp: u64) -> (message: Self)
        ensures
            message.message_type == message_type,
            message.timestamp == timestamp,
    {
        ProtocolMessage { message_type, timestamp }
    }
}

} // verus!
