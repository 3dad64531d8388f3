//! The client's side of a session: what it knows of itself, the requests it
//! sends, and what it makes of the answers.

use crate::chat::message::{clone_strings, MessageType, MessageView};
use vstd::prelude::*;
use vstd::string::StringExecFns;

verus! {

/// Why a client could not make a request.
#[derive(Debug, Clone, Copy, PartialEq, Eq, Structural)]
pub enum ClientError {
    /// The client has no connection to a server.
    NotConnected,
    /// The client has no connection, or is in no room.
    NotInRoom,
}

/// A chat client: whether it has a connection, the name it logged in under
/// and the room it joined.
#[derive(Debug)]
pub struct ChatClient {
    connected: bool,
    username: Option<String>,
    current_room: Option<String>,
}

/// What a [`ChatClient`] knows.
pub struct ClientView {
    pub connected: bool,
    pub username: Option<Seq<char>>,
    pub current_room: Option<Seq<char>>,
}

/// What an answer from the server means to the request that awaited it.
#[derive(Debug)]
pub struct Answer {
    /// Whether the request succeeded.
    pub success: bool,
    /// The server's words for the user, if it sent any.
    pub notice: Option<String>,
}

/// The text in `text`, as characters.
pub open spec fn text_view(text: Option<String>) -> Option<Seq<char>> {
    match text {
        Some(s) => Some(s@),
        None => None,
    }
}

impl View for ChatClient {
    type V = ClientView;

    closed spec fn view(&self) -> ClientView {
        ClientView {
            connected: self.connected,
            username: text_view(self.username),
            current_room: text_view(self.current_room),
        }
    }
}

/// Whether `ack` acknowledges a login with success.
pub open spec fn login_succeeded(ack: MessageView) -> bool {
    ack matches MessageView::ConnectAck { success, .. } && success
}

/// Whether `ack` acknowledges a join with success.
pub open spec fn join_succeeded(ack: MessageView) -> bool {
    ack matches MessageView::JoinRoomAck { success, .. } && success
}

/// The server's words in an acknowledgement of a login.
pub open spec fn login_notice(ack: MessageView) -> Option<Seq<char>> {
    match ack {
        MessageView::ConnectAck { message, .. } => Some(message),
        _ => None,
    }
}

/// The server's words in an acknowledgement of a join.
pub open spec fn join_notice(ack: MessageView) -> Option<Seq<char>> {
    match ack {
        MessageView::JoinRoomAck { message, .. } => Some(message),
        _ => None,
    }
}

impl ChatClient {
    /// A client without a connection, a name or a room.
    pub fn new() -> (client: Self)
        ensures
            client@ == (ClientView { connected: false, username: None, current_room: None }),
    {
        ChatClient { connected: false, username: None, current_room: None }
    }

    /// Records that a connection to a server has been opened.
    pub fn connect(&mut self)
        ensures
            final(self)@ == (ClientView { connected: true, ..old(self)@ }),
    {
        self.connected = true;
    }

    /// Whether the client has a connection.
    pub fn is_connected(&self) -> (connected: bool)
        ensures
            connected == self@.connected,
    {
        self.connected
    }

    /// The name the client logged in under.
    pub fn username(&self) -> (name: Option<String>)
        ensures
            text_view(name) == self@.username,
    {
        match &self.username {
            Some(name) => Some(name.clone()),
            None => None,
        }
    }

    /// The room the client joined.
    pub fn current_room(&self) -> (room: Option<String>)
        ensures
            text_view(room) == self@.current_room,
    {
        match &self.current_room {
            Some(room) => Some(room.clone()),
            None => None,
        }
    }

    /// The request that logs in as `username`; `NotConnected` without a
    /// connection.
    pub fn login_request(&self, username: &String) -> (request: Result<MessageType, ClientError>)
        ensures
            match request {
                Ok(message) => self@.connected && message@ == (MessageView::Connect {
                    username: username@,
                }),
                Err(e) => !self@.connected && e == ClientError::NotConnected,
            },
    {
        if self.connected {
            Ok(MessageType::Connect { username: username.clone() })
        } else {
            Err(ClientError::NotConnected)
        }
    }

    /// Takes the server's answer to a login as `username`: on a `ConnectAck`
    /// with success the client is logged in under that name. Any other
    /// message counts as a failure and changes nothing.
    pub fn login(&mut self, username: String, response: &MessageType) -> (answer: Answer)
        ensures
            answer.success == login_succeeded(response@),
            text_view(answer.notice) == login_notice(response@),
            final(self)@ == if login_succeeded(response@) {
                ClientView { username: Some(username@), ..old(self)@ }
            } else {
                old(self)@
            },
    {
        match response {
            MessageType::ConnectAck { success, message } => {
                if *success {
                    self.username = Some(username);
                }
                Answer { success: *success, notice: Some(message.clone()) }
            },
            _ => Answer { success: false, notice: None },
        }
    }

    /// The request that joins `room`; `NotConnected` without a connection.
    pub fn join_room_request(&self, room: &String) -> (request: Result<MessageType, ClientError>)
        ensures
            match request {
                Ok(message) => self@.connected && message@ == (MessageView::JoinRoom { room: room@ }),
                Err(e) => !self@.connected && e == ClientError::NotConnected,
            },
    {
        if self.connected {
            Ok(MessageType::JoinRoom { room: room.clone() })
        } else {
            Err(ClientError::NotConnected)
        }
    }

    /// Takes the server's answer to a join of `room`: on a `JoinRoomAck` with
    /// success the client is in that room. Any other message counts as a
    /// failure and changes nothing.
    pub fn join_room(&mut self, room: String, response: &MessageType) -> (answer: Answer)
        ensures
            answer.success == join_succeeded(response@),
            text_view(answer.notice) == join_notice(response@),
            final(self)@ == if join_succeeded(response@) {
                ClientView { current_room: Some(room@), ..old(self)@ }
            } else {
                old(self)@
            },
    {
        match response {
            MessageType::JoinRoomAck { success, room: _, message } => {
                if *success {
                    self.current_room = Some(room);
                }
                Answer { success: *success, notice: Some(message.clone()) }
            },
            _ => Answer { success: false, notice: None },
        }
    }

    /// The request that says `content` in the room the client is in;
    /// `NotInRoom` without a connection or a room.
    pub fn send_chat_message(&self, content: String) -> (request: Result<MessageType, ClientError>)
        ensures
            match request {
                Ok(message) => self@.connected && self@.current_room is Some && message@ == (
                MessageView::SendMessage { room: self@.current_room->0, content: content@ }),
                Err(e) => !(self@.connected && self@.current_room is Some) && e
                    == ClientError::NotInRoom,
            },
    {
        if !self.connected {
            return Err(ClientError::NotInRoom);
        }
        match &self.current_room {
            Some(room) => Ok(MessageType::SendMessage { room: room.clone(), content }),
            None => Err(ClientError::NotInRoom),
        }
    }

    /// The request that lists the rooms; `NotConnected` without a connection.
    pub fn list_rooms_request(&self) -> (request: Result<MessageType, ClientError>)
        ensures
            match request {
                Ok(message) => self@.connected && message@ == MessageView::ListRooms,
                Err(e) => !self@.connected && e == ClientError::NotConnected,
            },
    {
        if self.connected {
            Ok(MessageType::ListRooms)
        } else {
            Err(ClientError::NotConnected)
        }
    }

    /// The rooms that the server's answer to a list request names; `None`
    /// where the answer is no `RoomList`.
    pub fn list_rooms(response: &MessageType) -> (rooms: Option<Vec<String>>)
        ensures
            match rooms {
                Some(names) => response@ == (MessageView::RoomList { rooms: names.deep_view() }),
                None => !(response@ is RoomList),
            },
    {
        match response {
            MessageType::RoomList { rooms } => Some(clone_strings(rooms)),
            _ => None,
        }
    }

    /// Ends the session: the client forgets its connection, its name and its
    /// room. Gives the `Disconnect` to send first, if there was a connection.
    pub fn disconnect(&mut self) -> (farewell: Option<MessageType>)
        ensures
            final(self)@ == (ClientView { connected: false, username: None, current_room: None }),
            match farewell {
                Some(message) => old(self)@.connected && message@ == MessageView::Disconnect,
                None => !old(self)@.connected,
            },
    {
        let was_connected = self.connected;
        self.connected = false;
        self.username = None;
        self.current_room = None;
        if was_connected {
            Some(MessageType::Disconnect)
        } else {
            None
        }
    }
}

/// The line that shows an event from the server to the user; `None` for a
/// message that is not shown.
pub open spec fn rendered(event: MessageView) -> Option<Seq<char>> {
    match event {
        MessageView::MessageBroadcast { room, username, content, .. } => Some(
            "["@ + room + "] "@ + username + ": "@ + content,
        ),
        MessageView::UserJoined { room, username } => Some(
            username + " a rejoint le salon "@ + room,
        ),
        MessageView::UserLeft { room, username } => Some(username + " a quitté le salon "@ + room),
        MessageView::Error { message } => Some("Erreur: "@ + message),
        _ => None,
    }
}

/// The line that shows `event` to the user: a chat message with its room and
/// sender, a notice that a user joined or left, or an error. Other messages
/// are not shown.
pub fn render_event(event: &MessageType) -> (line: Option<String>)
    ensures
        text_view(line) == rendered(event@),
{
    match event {
        MessageType::MessageBroadcast { room, username, content, timestamp: _ } => {
            let mut line = String::from_str("[");
            line.append(room.as_str());
            line.append("] ");
            line.append(username.as_str());
            line.append(": ");
            line.append(content.as_str());
            Some(line)
        },
        MessageType::UserJoined { room, username } => {
            let mut line = username.clone();
            line.append(" a rejoint le salon ");
            line.append(room.as_str());
            Some(line)
        },
        MessageType::UserLeft { room, username } => {
            let mut line = username.clone();
            line.append(" a quitté le salon ");
            line.append(room.as_str());
            Some(line)
        },
        MessageType::Error { message } => {
            let mut line = String::from_str("Erreur: ");
            line.append(message.as_str());
            Some(line)
        },
        _ => None,
    }
}

} // verus!
