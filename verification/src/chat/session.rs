//! The server side of one connection: what each message from the client does
//! to the registry and which messages go out in answer.
//!
//! A session is unauthenticated until a `Connect` succeeds, then
//! authenticated under that name, in a room once it has joined one, and closed
//! after a `Disconnect` or when its stream fails.

use crate::chat::codec::CodecError;
use crate::chat::dispatcher::{broadcast, outgoing_view, Outgoing, OutgoingView};
use crate::chat::message::{MessageType, MessageView, ProtocolMessage};
use crate::chat::registry::ChatServer;
use crate::chat::state::ServerState;
use vstd::prelude::*;
use vstd::string::StringExecFns;

verus! {

/// Where a session stands.
pub enum SessionState {
    Unauthenticated,
    Authenticated,
    InRoom,
    Closed,
}

/// What one step of a session leaves behind: the registry, the name the
/// session is authenticated under, whether the session goes on, and the
/// messages to write, in order.
pub struct Step {
    pub state: ServerState,
    pub user: Option<Seq<char>>,
    pub keep_open: bool,
    pub outgoing: Seq<OutgoingView>,
}

/// What a session's step gave back: whether the session goes on, and the
/// messages to write, in order.
#[derive(Debug)]
pub struct Outcome {
    pub keep_open: bool,
    pub outgoing: Vec<Outgoing>,
}

/// The name in `user`, as characters.
pub open spec fn name_view(user: Option<String>) -> Option<Seq<char>> {
    match user {
        Some(name) => Some(name@),
        None => None,
    }
}

/// Where a session stands, given whether it was closed, the name it is
/// authenticated under and the registry.
pub open spec fn session_state(state: ServerState, user: Option<Seq<char>>, closed: bool) -> SessionState {
    if closed {
        SessionState::Closed
    } else {
        match user {
            None => SessionState::Unauthenticated,
            Some(name) => if state.room_of(name) is Some {
                SessionState::InRoom
            } else {
                SessionState::Authenticated
            },
        }
    }
}

/// The reply to a `Connect` under a name that is taken.
pub open spec fn text_name_taken() -> Seq<char> {
    "Nom d'utilisateur déjà utilisé"@
}

/// The reply to a `Connect` from a session that is authenticated already.
pub open spec fn text_already_connected() -> Seq<char> {
    "Déjà connecté"@
}

/// The greeting for a user who connected.
pub open spec fn text_welcome(username: Seq<char>) -> Seq<char> {
    "Bienvenue, "@ + username + " !"@
}

/// The confirmation for a user who joined `room`.
pub open spec fn text_joined(room: Seq<char>) -> Seq<char> {
    "Vous avez rejoint le salon "@ + room
}

/// The error for a request that needs an authenticated session.
pub open spec fn text_not_connected() -> Seq<char> {
    "not connected"@
}

/// The error for a message sent to a room the sender is not in.
pub open spec fn text_not_in_room() -> Seq<char> {
    "Vous n'êtes pas dans ce salon"@
}

/// The error for a message that only a server sends.
pub open spec fn text_unsupported() -> Seq<char> {
    "Message non supporté"@
}

/// One message to the session's own connection.
pub open spec fn reply(handle: u64, message: MessageView) -> Seq<OutgoingView> {
    seq![OutgoingView { handle, message }]
}

/// A step that changes nothing, goes on, and answers with an error.
pub open spec fn refuse(state: ServerState, user: Option<Seq<char>>, handle: u64, text: Seq<char>) -> Step {
    Step {
        state,
        user,
        keep_open: true,
        outgoing: reply(handle, MessageView::Error { message: text }),
    }
}

/// `Connect`: a session that is not yet authenticated and asks for a free
/// name is registered under it and greeted; every other request is refused
/// with a `ConnectAck` that says so, and nothing changes.
pub open spec fn connect_step(
    state: ServerState,
    user: Option<Seq<char>>,
    username: Seq<char>,
    handle: u64,
) -> Step {
    if user is Some {
        Step {
            state,
            user,
            keep_open: true,
            outgoing: reply(
                handle,
                MessageView::ConnectAck { success: false, message: text_already_connected() },
            ),
        }
    } else if state.has_user(username) {
        Step {
            state,
            user,
            keep_open: true,
            outgoing: reply(
                handle,
                MessageView::ConnectAck { success: false, message: text_name_taken() },
            ),
        }
    } else {
        Step {
            state: state.add_user(username, handle),
            user: Some(username),
            keep_open: true,
            outgoing: reply(
                handle,
                MessageView::ConnectAck { success: true, message: text_welcome(username) },
            ),
        }
    }
}

/// `UserLeft` for the other members of the room that `username` is in;
/// nothing for a user in no room.
pub open spec fn leave_notices(state: ServerState, username: Seq<char>) -> Seq<OutgoingView> {
    match state.room_of(username) {
        Some(old) => broadcast(
            state,
            old,
            MessageView::UserLeft { room: old, username },
            Some(username),
        ),
        None => Seq::<OutgoingView>::empty(),
    }
}

/// `JoinRoom` from `username`: the other members of the room it was in are
/// told that it left, the user moves, is told so, and the other members of
/// `room` are told that it joined. A name that is not connected is refused.
pub open spec fn join_step(state: ServerState, username: Seq<char>, room: Seq<char>, handle: u64) -> Step {
    if state.has_user(username) {
        let after = state.join_room(username, room);
        Step {
            state: after,
            user: Some(username),
            keep_open: true,
            outgoing: leave_notices(state, username) + reply(
                handle,
                MessageView::JoinRoomAck { success: true, room, message: text_joined(room) },
            ) + broadcast(
                after,
                room,
                MessageView::UserJoined { room, username },
                Some(username),
            ),
        }
    } else {
        refuse(state, Some(username), handle, text_not_connected())
    }
}

/// `SendMessage` from `username`: where `room` is the room the user is in,
/// every member of it, the sender too, gets the message; otherwise the sender
/// gets an error and nobody else anything.
pub open spec fn send_step(
    state: ServerState,
    username: Seq<char>,
    room: Seq<char>,
    content: Seq<char>,
    handle: u64,
    now: u64,
) -> Step {
    if state.room_of(username) == Some(room) {
        Step {
            state,
            user: Some(username),
            keep_open: true,
            outgoing: broadcast(
                state,
                room,
                MessageView::MessageBroadcast { room, username, content, timestamp: now },
                None,
            ),
        }
    } else if state.has_user(username) {
        refuse(state, Some(username), handle, text_not_in_room())
    } else {
        refuse(state, Some(username), handle, text_not_connected())
    }
}

/// `ListRooms`: the names of the rooms.
pub open spec fn list_rooms_step(state: ServerState, user: Option<Seq<char>>, handle: u64) -> Step {
    Step {
        state,
        user,
        keep_open: true,
        outgoing: reply(handle, MessageView::RoomList { rooms: state.room_names() }),
    }
}

/// `ListUsers`: the members of `room` in join order.
pub open spec fn list_users_step(
    state: ServerState,
    user: Option<Seq<char>>,
    room: Seq<char>,
    handle: u64,
) -> Step {
    Step {
        state,
        user,
        keep_open: true,
        outgoing: reply(handle, MessageView::UserList { room, users: state.members_of(room) }),
    }
}

/// What `message` from a session does. `Disconnect` ends the session. From
/// an unauthenticated session only `Connect` is served. A message that only a
/// server sends is refused.
pub open spec fn process_step(
    state: ServerState,
    user: Option<Seq<char>>,
    message: MessageView,
    handle: u64,
    now: u64,
) -> Step {
    match message {
        MessageView::Disconnect => Step {
            state,
            user,
            keep_open: false,
            outgoing: Seq::<OutgoingView>::empty(),
        },
        MessageView::Connect { username } => connect_step(state, user, username, handle),
        _ => match user {
            None => refuse(state, user, handle, text_not_connected()),
            Some(name) => match message {
                MessageView::JoinRoom { room } => join_step(state, name, room, handle),
                MessageView::SendMessage { room, content } => send_step(
                    state,
                    name,
                    room,
                    content,
                    handle,
                    now,
                ),
                MessageView::ListRooms => list_rooms_step(state, user, handle),
                MessageView::ListUsers { room } => list_users_step(state, user, room, handle),
                _ => refuse(state, user, handle, text_unsupported()),
            },
        },
    }
}

/// What the end of a session does: a user that was authenticated is removed
/// from the registry, and the other members of its room are told that it
/// left. The session is authenticated no longer, so a second end does nothing.
pub open spec fn close_step(state: ServerState, user: Option<Seq<char>>) -> Step {
    match user {
        Some(name) => Step {
            state: state.remove_user(name),
            user: None,
            keep_open: false,
            outgoing: leave_notices(state, name),
        },
        None => Step { state, user: None, keep_open: false, outgoing: Seq::<OutgoingView>::empty() },
    }
}

/// What reading from a session's connection gave.
#[derive(Debug)]
pub enum SessionEvent {
    /// A frame arrived and was decoded.
    Received(ProtocolMessage),
    /// The stream ended or delivered what is no message.
    Failed(CodecError),
}

/// What a [`SessionEvent`] says.
pub enum SessionEventView {
    Received(MessageView),
    Failed(CodecError),
}

impl View for SessionEvent {
    type V = SessionEventView;

    open spec fn view(&self) -> SessionEventView {
        match *self {
            SessionEvent::Received(message) => SessionEventView::Received(message.message_type@),
            SessionEvent::Failed(e) => SessionEventView::Failed(e),
        }
    }
}

/// What an event on a session's connection does. A message is processed; a
/// session that ends, by a `Disconnect` or by a failure of its stream, is
/// closed then and there, after what the message itself sent.
pub open spec fn client_step(
    state: ServerState,
    user: Option<Seq<char>>,
    event: SessionEventView,
    handle: u64,
    now: u64,
) -> Step {
    match event {
        SessionEventView::Received(message) => {
            let done = process_step(state, user, message, handle, now);
            if done.keep_open {
                done
            } else {
                let closed = close_step(done.state, done.user);
                Step {
                    state: closed.state,
                    user: closed.user,
                    keep_open: false,
                    outgoing: done.outgoing + closed.outgoing,
                }
            }
        },
        SessionEventView::Failed(_) => close_step(state, user),
    }
}

/// The registry, the session's name and the messages are those of `step`.
pub open spec fn took_step(
    server: ChatServer,
    user: Option<String>,
    outgoing: Vec<Outgoing>,
    step: Step,
) -> bool {
    &&& server@ == step.state
    &&& name_view(user) == step.user
    &&& outgoing_view(outgoing@) == step.outgoing
}

/// `head` followed by `tail`.
fn text2(head: &str, tail: &String) -> (text: String)
    ensures
        text@ == head@ + tail@,
{
    let mut text = String::from_str(head);
    text.append(tail.as_str());
    text
}

/// `head`, `middle` and `tail` in a row.
fn text3(head: &str, middle: &String, tail: &str) -> (text: String)
    ensures
        text@ == head@ + middle@ + tail@,
{
    let mut text = text2(head, middle);
    text.append(tail);
    text
}

/// One message to the session's own connection.
fn reply_to(handle: u64, message: MessageType) -> (sent: Vec<Outgoing>)
    ensures
        outgoing_view(sent@) == reply(handle, message@),
{
    let mut sent: Vec<Outgoing> = Vec::new();
    sent.push(Outgoing { handle, message });
    assert(outgoing_view(sent@) =~= reply(handle, message@));
    sent
}

/// An error to the session's own connection.
fn error_to(handle: u64, text: &str) -> (sent: Vec<Outgoing>)
    ensures
        outgoing_view(sent@) == reply(handle, MessageView::Error { message: text@ }),
{
    reply_to(handle, MessageType::Error { message: String::from_str(text) })
}

/// Moves the messages of `more` to the end of `sent`.
fn send_also(sent: &mut Vec<Outgoing>, more: Vec<Outgoing>)
    ensures
        outgoing_view(final(sent)@) == outgoing_view(old(sent)@) + outgoing_view(more@),
{
    let mut rest = more;
    sent.append(&mut rest);
    assert(outgoing_view(sent@) =~= outgoing_view(old(sent)@) + outgoing_view(more@));
}

impl ChatServer {
    /// Serves a `Connect`: registers `username` with `handle` for a session
    /// that is not authenticated yet, if the name is free, and greets it;
    /// otherwise answers that the request failed and changes nothing.
    pub fn handle_connect(
        &mut self,
        username: String,
        current_user: &mut Option<String>,
        handle: u64,
    ) -> (sent: Vec<Outgoing>)
        requires
            old(self).wf(),
        ensures
            final(self).wf(),
            took_step(
                *final(self),
                *final(current_user),
                sent,
                connect_step(old(self)@, name_view(*old(current_user)), username@, handle),
            ),
    {
        if current_user.is_some() {
            return reply_to(
                handle,
                MessageType::ConnectAck {
                    success: false,
                    message: String::from_str("Déjà connecté"),
                },
            );
        }
        let greeting = text3("Bienvenue, ", &username, " !");
        let name = username.clone();
        if self.add_user(username, handle) {
            *current_user = Some(name);
            reply_to(handle, MessageType::ConnectAck { success: true, message: greeting })
        } else {
            reply_to(
                handle,
                MessageType::ConnectAck {
                    success: false,
                    message: String::from_str("Nom d'utilisateur déjà utilisé"),
                },
            )
        }
    }

    /// `UserLeft` for the other members of the room that `username` is in.
    fn leave_notices(&self, username: &String) -> (sent: Vec<Outgoing>)
        requires
            self.wf(),
        ensures
            outgoing_view(sent@) == leave_notices(self@, username@),
    {
        match self.current_room(username) {
            Some(old) => {
                let event = MessageType::UserLeft { room: old.clone(), username: username.clone() };
                self.broadcast_to_room(&old, &event, Some(username))
            },
            None => {
                let sent: Vec<Outgoing> = Vec::new();
                assert(outgoing_view(sent@) =~= Seq::<OutgoingView>::empty());
                sent
            },
        }
    }

    /// Serves a `JoinRoom` from `username`: tells the other members of the
    /// room it is in that it left, moves it into `room`, confirms, and tells
    /// the other members of `room` that it joined.
    pub fn handle_join_room(&mut self, username: &String, room: String, handle: u64) -> (sent: Vec<
        Outgoing,
    >)
        requires
            old(self).wf(),
        ensures
            final(self).wf(),
            final(self)@ == join_step(old(self)@, username@, room@, handle).state,
            outgoing_view(sent@) == join_step(old(self)@, username@, room@, handle).outgoing,
    {
        if !self.has_user(username) {
            return error_to(handle, "not connected");
        }
        let mut sent = self.leave_notices(username);
        self.join_room(username, &room);
        let confirmation = MessageType::JoinRoomAck {
            success: true,
            room: room.clone(),
            message: text2("Vous avez rejoint le salon ", &room),
        };
        send_also(&mut sent, reply_to(handle, confirmation));
        let event = MessageType::UserJoined { room: room.clone(), username: username.clone() };
        let joined = self.broadcast_to_room(&room, &event, Some(username));
        send_also(&mut sent, joined);
        sent
    }

    /// Serves a `SendMessage` from `username`: where `room` is the room the
    /// user is in, the message goes to every member of it, stamped `now`;
    /// otherwise the sender gets an error.
    pub fn handle_send_message(
        &self,
        username: &String,
        room: String,
        content: String,
        handle: u64,
        now: u64,
    ) -> (sent: Vec<Outgoing>)
        requires
            self.wf(),
        ensures
            outgoing_view(sent@) == send_step(
                self@,
                username@,
                room@,
                content@,
                handle,
                now,
            ).outgoing,
    {
        let here = match self.current_room(username) {
            Some(current) => current == room,
            None => false,
        };
        if here {
            let event = MessageType::MessageBroadcast {
                room: room.clone(),
                username: username.clone(),
                content,
                timestamp: now,
            };
            self.broadcast_to_room(&room, &event, None)
        } else if self.has_user(username) {
            error_to(handle, "Vous n'êtes pas dans ce salon")
        } else {
            error_to(handle, "not connected")
        }
    }

    /// Serves a `ListRooms`: the names of the rooms, in the order in which
    /// they were first joined.
    pub fn handle_list_rooms(&self, handle: u64) -> (sent: Vec<Outgoing>)
        ensures
            outgoing_view(sent@) == reply(handle, MessageView::RoomList { rooms: self@.room_names() }),
    {
        reply_to(handle, MessageType::RoomList { rooms: self.list_rooms() })
    }

    /// Serves a `ListUsers`: the members of `room` in join order.
    pub fn handle_list_users(&self, room: String, handle: u64) -> (sent: Vec<Outgoing>)
        requires
            self.wf(),
        ensures
            outgoing_view(sent@) == reply(
                handle,
                MessageView::UserList { room: room@, users: self@.members_of(room@) },
            ),
    {
        let users = self.list_users(&room);
        reply_to(handle, MessageType::UserList { room, users })
    }

    /// Removes `username` from the registry, all three parts at once, and
    /// gives the `UserLeft` for the other members of its room.
    pub fn cleanup_user(&mut self, username: &String) -> (sent: Vec<Outgoing>)
        requires
            old(self).wf(),
        ensures
            final(self).wf(),
            final(self)@ == old(self)@.remove_user(username@),
            outgoing_view(sent@) == leave_notices(old(self)@, username@),
    {
        let sent = self.leave_notices(username);
        self.remove_user(username);
        sent
    }

    /// Ends a session: cleans up after the user it was authenticated under,
    /// if any. The session is authenticated no longer, so that ending it
    /// again does nothing.
    pub fn close_session(&mut self, current_user: &mut Option<String>) -> (sent: Vec<Outgoing>)
        requires
            old(self).wf(),
        ensures
            final(self).wf(),
            *final(current_user) is None,
            took_step(
                *final(self),
                *final(current_user),
                sent,
                close_step(old(self)@, name_view(*old(current_user))),
            ),
    {
        match current_user.take() {
            Some(name) => self.cleanup_user(&name),
            None => {
                let sent: Vec<Outgoing> = Vec::new();
                assert(outgoing_view(sent@) =~= Seq::<OutgoingView>::empty());
                sent
            },
        }
    }

    /// Serves one message of a session. `current_user` is the name the
    /// session is authenticated under, `handle` its own connection and `now`
    /// the time that a chat message is stamped with. Says whether the session
    /// goes on, and gives the messages to write, in order.
    pub fn process_message(
        &mut self,
        message: ProtocolMessage,
        current_user: &mut Option<String>,
        handle: u64,
        now: u64,
    ) -> (outcome: Outcome)
        requires
            old(self).wf(),
        ensures
            final(self).wf(),
            outcome.keep_open == process_step(
                old(self)@,
                name_view(*old(current_user)),
                message@.message_type,
                handle,
                now,
            ).keep_open,
            took_step(
                *final(self),
                *final(current_user),
                outcome.outgoing,
                process_step(
                    old(self)@,
                    name_view(*old(current_user)),
                    message@.message_type,
                    handle,
                    now,
                ),
            ),
    {
        match message.message_type {
            MessageType::Disconnect => {
                let outgoing: Vec<Outgoing> = Vec::new();
                assert(outgoing_view(outgoing@) =~= Seq::<OutgoingView>::empty());
                Outcome { keep_open: false, outgoing }
            },
            MessageType::Connect { username } => {
                let outgoing = self.handle_connect(username, current_user, handle);
                Outcome { keep_open: true, outgoing }
            },
            request => {
                let outgoing = match current_user {
                    None => error_to(handle, "not connected"),
                    Some(name) => match request {
                        MessageType::JoinRoom { room } => self.handle_join_room(name, room, handle),
                        MessageType::SendMessage { room, content } => self.handle_send_message(
                            name,
                            room,
                            content,
                            handle,
                            now,
                        ),
                        MessageType::ListRooms => self.handle_list_rooms(handle),
                        MessageType::ListUsers { room } => self.handle_list_users(room, handle),
                        _ => error_to(handle, "Message non supporté"),
                    },
                };
                Outcome { keep_open: true, outgoing }
            },
        }
    }

    /// Serves one event of a session's connection: processes a message, and
    /// closes the session when the message ends it or the stream has failed.
    /// The caller writes what is to be sent and reads again while the session
    /// goes on.
    pub fn handle_client(
        &mut self,
        event: SessionEvent,
        current_user: &mut Option<String>,
        handle: u64,
        now: u64,
    ) -> (outcome: Outcome)
        requires
            old(self).wf(),
        ensures
            final(self).wf(),
            !outcome.keep_open ==> *final(current_user) is None,
            outcome.keep_open == client_step(
                old(self)@,
                name_view(*old(current_user)),
                event@,
                handle,
                now,
            ).keep_open,
            took_step(
                *final(self),
                *final(current_user),
                outcome.outgoing,
                client_step(old(self)@, name_view(*old(current_user)), event@, handle, now),
            ),
    {
        match event {
            SessionEvent::Received(message) => {
                let done = self.process_message(message, current_user, handle, now);
                if done.keep_open {
                    done
                } else {
                    let mut outgoing = done.outgoing;
                    let closing = self.close_session(current_user);
                    send_also(&mut outgoing, closing);
                    Outcome { keep_open: false, outgoing }
                }
            },
            SessionEvent::Failed(_) => {
                let outgoing = self.close_session(current_user);
                Outcome { keep_open: false, outgoing }
            },
        }
    }
}

} // verus!
