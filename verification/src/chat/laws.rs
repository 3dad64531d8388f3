//! What holds of the chat service as a whole: who is told what, and what the
//! registry looks like after each kind of step.

use crate::chat::dispatcher::{broadcast, deliveries, OutgoingView};
use crate::chat::message::MessageView;
use crate::chat::codec::CodecError;
use crate::chat::session::{
    client_step, close_step, connect_step, join_step, list_users_step, process_step, reply,
    send_step, session_state, text_joined, text_not_connected, SessionEventView,
};
use crate::chat::state::{without, ServerState};
use crate::chat::state_lemmas::{lemma_found_at, lemma_without};
use vstd::prelude::*;

verus! {

/// `event` once for each of `members`, in their order, each to the member's
/// own connection.
pub open spec fn notify(state: ServerState, members: Seq<Seq<char>>, event: MessageView) -> Seq<
    OutgoingView,
> {
    Seq::new(
        members.len(),
        |i: int| OutgoingView { handle: state.handle_of(members[i])->0, message: event },
    )
}

/// `members` but for the one excluded, if one is.
pub open spec fn others(members: Seq<Seq<char>>, exclude: Option<Seq<char>>) -> Seq<Seq<char>> {
    match exclude {
        Some(name) => without(members, name),
        None => members,
    }
}

/// Among connected users who are listed once each, the deliveries of an
/// event are one for each of them but the excluded one, in their order.
pub proof fn lemma_deliveries(
    state: ServerState,
    members: Seq<Seq<char>>,
    event: MessageView,
    exclude: Option<Seq<char>>,
)
    requires
        members.no_duplicates(),
        forall|i: int| 0 <= i < members.len() ==> state.has_user(#[trigger] members[i]),
    ensures
        deliveries(state, members, event, exclude) == notify(state, others(members, exclude), event),
    decreases members.len(),
{
    if members.len() == 0 {
        assert(others(members, exclude) =~= members);
        assert(deliveries(state, members, event, exclude) =~= notify(
            state,
            others(members, exclude),
            event,
        ));
    } else {
        let earlier = members.drop_last();
        let last = members.last();
        let n = earlier.len() as int;
        assert forall|i: int| 0 <= i < earlier.len() implies state.has_user(
            #[trigger] earlier[i],
        ) by {
            assert(earlier[i] == members[i]);
        }
        assert(earlier.no_duplicates());
        lemma_deliveries(state, earlier, event, exclude);
        assert(!earlier.contains(last)) by {
            if earlier.contains(last) {
                let k = earlier.index_of(last);
                assert(members[k] == members[n]);
            }
        }
        assert(state.has_user(members[n]));
        match exclude {
            Some(name) => {
                if name == last {
                    lemma_found_at(members, n);
                    assert(without(members, name) =~= earlier);
                    assert(without(earlier, name) == earlier);
                } else {
                    if earlier.contains(name) {
                        let k = earlier.index_of(name);
                        assert(members[k] == name);
                        lemma_found_at(members, k);
                        lemma_found_at(earlier, k);
                        assert(without(members, name) =~= without(earlier, name).push(last));
                    } else {
                        assert(!members.contains(name)) by {
                            if members.contains(name) {
                                let k = members.index_of(name);
                                assert(earlier[k] == name);
                            }
                        }
                        assert(members =~= earlier.push(last));
                    }
                    assert(others(members, exclude) =~= others(earlier, exclude).push(last));
                    assert(deliveries(state, members, event, exclude) =~= notify(
                        state,
                        others(members, exclude),
                        event,
                    ));
                }
            },
            None => {
                assert(members =~= earlier.push(last));
                assert(deliveries(state, members, event, exclude) =~= notify(
                    state,
                    others(members, exclude),
                    event,
                ));
            },
        }
    }
}

/// In a consistent registry, a broadcast to a room is one delivery for each
/// member but the excluded one, in join order, each to the member's own
/// connection.
pub proof fn broadcast_reaches_members(
    state: ServerState,
    room: Seq<char>,
    event: MessageView,
    exclude: Option<Seq<char>>,
)
    requires
        state.wf(),
    ensures
        broadcast(state, room, event, exclude) == notify(
            state,
            others(state.members_of(room), exclude),
            event,
        ),
        state.members_of(room).no_duplicates(),
        forall|i: int|
            0 <= i < state.members_of(room).len() ==> state.handle_of(
                #[trigger] state.members_of(room)[i],
            ) is Some,
{
    let members = state.members_of(room);
    assert forall|i: int| 0 <= i < members.len() implies state.has_user(#[trigger] members[i]) by {
        assert(members.contains(members[i]));
        state.lemma_membership(members[i], room);
    }
    if members.len() > 0 {
        state.lemma_membership(members[0], room);
    }
    lemma_deliveries(state, members, event, exclude);
}

/// A user who joins a room while in another is afterwards a member of the
/// new room only. The other members of the room it was in are told that it
/// left, then the user gets its confirmation, then the other members of the
/// new room are told that it joined; each is told once, and the user itself
/// gets neither notice.
pub proof fn join_moves_user(
    state: ServerState,
    username: Seq<char>,
    from: Seq<char>,
    room: Seq<char>,
    handle: u64,
)
    requires
        state.wf(),
        state.room_of(username) == Some(from),
    ensures
        ({
            let step = join_step(state, username, room, handle);
            &&& step.state.wf()
            &&& step.state.room_of(username) == Some(room)
            &&& step.state.members_of(room).contains(username)
            &&& forall|q: Seq<char>| q != room ==> !(#[trigger] step.state.members_of(q)).contains(username)
            &&& step.outgoing == notify(
                state,
                without(state.members_of(from), username),
                MessageView::UserLeft { room: from, username },
            ) + reply(
                handle,
                MessageView::JoinRoomAck { success: true, room, message: text_joined(room) },
            ) + notify(
                step.state,
                without(step.state.members_of(room), username),
                MessageView::UserJoined { room, username },
            )
            &&& !without(state.members_of(from), username).contains(username)
            &&& !without(step.state.members_of(room), username).contains(username)
        }),
{
    let step = join_step(state, username, room, handle);
    state.lemma_join_room(username, room);
    state.lemma_membership(username, from);
    step.state.lemma_membership(username, room);
    assert forall|q: Seq<char>| q != room implies !(#[trigger] step.state.members_of(q)).contains(
        username,
    ) by {
        step.state.lemma_membership(username, q);
    }
    broadcast_reaches_members(
        state,
        from,
        MessageView::UserLeft { room: from, username },
        Some(username),
    );
    broadcast_reaches_members(
        step.state,
        room,
        MessageView::UserJoined { room, username },
        Some(username),
    );
    lemma_without(state.members_of(from), username);
    lemma_without(step.state.members_of(room), username);
}

/// A message sent to the room the sender is in reaches every member of the
/// room, the sender too, exactly once each and in join order, with the room,
/// the sender's name, the content and the time given. Nothing else changes.
pub proof fn send_reaches_room(
    state: ServerState,
    username: Seq<char>,
    room: Seq<char>,
    content: Seq<char>,
    handle: u64,
    now: u64,
)
    requires
        state.wf(),
        state.room_of(username) == Some(room),
    ensures
        ({
            let step = send_step(state, username, room, content, handle, now);
            &&& step.state == state
            &&& step.outgoing == notify(
                state,
                state.members_of(room),
                MessageView::MessageBroadcast { room, username, content, timestamp: now },
            )
            &&& step.outgoing.len() == state.members_of(room).len()
            &&& state.members_of(room).no_duplicates()
            &&& state.members_of(room).contains(username)
        }),
{
    broadcast_reaches_members(
        state,
        room,
        MessageView::MessageBroadcast { room, username, content, timestamp: now },
        None,
    );
    state.lemma_membership(username, room);
}

/// A message sent to a room the sender is not in is broadcast to nobody: the
/// sender alone gets an answer, an error, and nothing changes.
pub proof fn send_elsewhere_is_refused(
    state: ServerState,
    username: Seq<char>,
    room: Seq<char>,
    content: Seq<char>,
    handle: u64,
    now: u64,
)
    requires
        state.room_of(username) != Some(room),
    ensures
        ({
            let step = send_step(state, username, room, content, handle, now);
            &&& step.state == state
            &&& step.outgoing.len() == 1
            &&& step.outgoing[0].handle == handle
            &&& step.outgoing[0].message is Error
        }),
{
}

/// The list of a room's users names exactly the users who are in the room,
/// each once, in the order in which they joined: a user who joins comes last,
/// and a user who leaves is taken out from among the others.
pub proof fn list_users_is_exact(state: ServerState, user: Option<Seq<char>>, room: Seq<char>, handle: u64)
    requires
        state.wf(),
    ensures
        ({
            let step = list_users_step(state, user, room, handle);
            let users = state.members_of(room);
            &&& step.state == state
            &&& step.outgoing == reply(handle, MessageView::UserList { room, users })
            &&& users.no_duplicates()
            &&& forall|name: Seq<char>| #[trigger]
                users.contains(name) <==> state.room_of(name) == Some(room)
        }),
{
    let users = state.members_of(room);
    assert forall|name: Seq<char>| #[trigger]
        users.contains(name) <==> state.room_of(name) == Some(room) by {
        state.lemma_membership(name, room);
    }
    if users.len() > 0 {
        state.lemma_membership(users[0], room);
    } else {
        assert(users.no_duplicates());
    }
}

/// The end of an authenticated session removes its user from the users, from
/// the connections and from every room's members in one step, which leaves
/// the registry consistent; the members that remain in its room are told that
/// it left, once each, and everybody else stays as they are.
pub proof fn close_removes_user(state: ServerState, username: Seq<char>)
    requires
        state.wf(),
    ensures
        ({
            let step = close_step(state, Some(username));
            &&& step.state.wf()
            &&& step.user is None
            &&& !step.state.has_user(username)
            &&& step.state.handle_of(username) is None
            &&& step.state.room_of(username) is None
            &&& forall|q: Seq<char>| !(#[trigger] step.state.members_of(q)).contains(username)
            &&& forall|other: Seq<char>|
                other != username ==> (#[trigger] step.state.has_user(other) <==> state.has_user(
                    other,
                ))
            &&& forall|other: Seq<char>|
                other != username ==> #[trigger] step.state.room_of(other) == state.room_of(other)
            &&& forall|other: Seq<char>|
                other != username ==> #[trigger] step.state.handle_of(other) == state.handle_of(
                    other,
                )
            &&& match state.room_of(username) {
                Some(room) => step.outgoing == notify(
                    state,
                    step.state.members_of(room),
                    MessageView::UserLeft { room, username },
                ),
                None => step.outgoing.len() == 0,
            }
        }),
{
    let step = close_step(state, Some(username));
    state.lemma_remove_user(username);
    assert forall|q: Seq<char>| !(#[trigger] step.state.members_of(q)).contains(username) by {
        state.lemma_membership(username, q);
        if state.members_of(q).contains(username) {
            lemma_without(state.members_of(q), username);
        }
    }
    match state.room_of(username) {
        Some(room) => {
            broadcast_reaches_members(
                state,
                room,
                MessageView::UserLeft { room, username },
                Some(username),
            );
        },
        None => {},
    }
}

/// What a step of a session does to the set of connected names: it stays
/// consistent; only a successful `Connect` adds a name, the session's new
/// one; only the end of the session removes one, its own.
pub proof fn step_changes_own_name_only(
    state: ServerState,
    user: Option<Seq<char>>,
    event: SessionEventView,
    handle: u64,
    now: u64,
)
    requires
        state.wf(),
        user matches Some(name) ==> state.has_user(name),
    ensures
        ({
            let step = client_step(state, user, event, handle, now);
            &&& step.state.wf()
            &&& step.user matches Some(name) ==> step.state.has_user(name)
            &&& step.user is Some ==> (step.user == user || (user is None && !state.has_user(
                step.user->0,
            )))
            &&& step.user is None ==> !step.keep_open || user is None
            &&& (user is Some && step.user is None) ==> !step.state.has_user(user->0)
            &&& forall|other: Seq<char>|
                user != Some(other) && step.user != Some(other) ==> (
                #[trigger] step.state.has_user(other) <==> state.has_user(other))
        }),
{
    match event {
        SessionEventView::Received(message) => {
            let done = process_step(state, user, message, handle, now);
            lemma_process_step(state, user, message, handle, now);
            if !done.keep_open {
                match done.user {
                    Some(name) => {
                        done.state.lemma_remove_user(name);
                    },
                    None => {},
                }
            }
        },
        SessionEventView::Failed(_) => {
            match user {
                Some(name) => {
                    state.lemma_remove_user(name);
                },
                None => {},
            }
        },
    }
}

/// What processing one message does to the set of connected names.
proof fn lemma_process_step(
    state: ServerState,
    user: Option<Seq<char>>,
    message: MessageView,
    handle: u64,
    now: u64,
)
    requires
        state.wf(),
        user matches Some(name) ==> state.has_user(name),
    ensures
        ({
            let step = process_step(state, user, message, handle, now);
            &&& step.state.wf()
            &&& step.user matches Some(name) ==> step.state.has_user(name)
            &&& step.user == user || (user is None && step.user is Some && !state.has_user(
                step.user->0,
            ))
            &&& !step.keep_open ==> step.state == state && step.user == user
            &&& forall|other: Seq<char>|
                step.user != Some(other) ==> (#[trigger] step.state.has_user(other)
                    <==> state.has_user(other))
        }),
{
    match message {
        MessageView::Connect { username } => {
            if user is None && !state.has_user(username) {
                state.lemma_add_user(username, handle);
            }
        },
        MessageView::JoinRoom { room } => {
            match user {
                Some(name) => {
                    state.lemma_join_room(name, room);
                },
                None => {},
            }
        },
        _ => {},
    }
}

/// A `Connect` under a name that is connected fails: the answer is a
/// `ConnectAck` without success, and nothing changes.
pub proof fn connect_fails_while_taken(
    state: ServerState,
    user: Option<Seq<char>>,
    username: Seq<char>,
    handle: u64,
)
    requires
        state.has_user(username),
    ensures
        ({
            let step = connect_step(state, user, username, handle);
            &&& step.state == state
            &&& step.user == user
            &&& step.outgoing.len() == 1
            &&& step.outgoing[0].handle == handle
            &&& step.outgoing[0].message matches MessageView::ConnectAck { success, .. } && !success
        }),
{
}

/// A `Connect` from a session that is not authenticated, under a name that
/// is free, succeeds: the name is connected from then on and the answer is a
/// `ConnectAck` with success.
pub proof fn connect_succeeds_while_free(state: ServerState, username: Seq<char>, handle: u64)
    requires
        state.wf(),
        !state.has_user(username),
    ensures
        ({
            let step = connect_step(state, None, username, handle);
            &&& step.state.wf()
            &&& step.user == Some(username)
            &&& step.state.has_user(username)
            &&& step.state.handle_of(username) == Some(handle)
            &&& step.state.room_of(username) is None
            &&& step.outgoing.len() == 1
            &&& step.outgoing[0].handle == handle
            &&& step.outgoing[0].message matches MessageView::ConnectAck { success, .. } && success
        }),
{
    state.lemma_add_user(username, handle);
}

/// One event on the connection of one session.
pub struct Action {
    pub session: int,
    pub event: SessionEventView,
    pub handle: u64,
    pub now: u64,
}

/// The server and its sessions: the registry, and the name each session is
/// authenticated under. A session that is not listed is unauthenticated.
pub struct World {
    pub state: ServerState,
    pub sessions: Map<int, Option<Seq<char>>>,
}

impl World {
    /// The name that session `id` is authenticated under.
    pub open spec fn user(self, id: int) -> Option<Seq<char>> {
        if self.sessions.contains_key(id) {
            self.sessions[id]
        } else {
            None
        }
    }

    /// The world after one action.
    pub open spec fn act(self, action: Action) -> World {
        let step = client_step(
            self.state,
            self.user(action.session),
            action.event,
            action.handle,
            action.now,
        );
        World { state: step.state, sessions: self.sessions.insert(action.session, step.user) }
    }

    /// The world after the actions of `trace`, one after the other.
    pub open spec fn run(self, trace: Seq<Action>) -> World
        decreases trace.len(),
    {
        if trace.len() == 0 {
            self
        } else {
            self.run(trace.drop_last()).act(trace.last())
        }
    }

    /// The registry is consistent and holds exactly the names that sessions
    /// are authenticated under, each under one session.
    pub open spec fn inv(self) -> bool {
        &&& self.state.wf()
        &&& forall|id: int| (#[trigger] self.user(id)) matches Some(name) ==> self.state.has_user(name)
        &&& forall|a: int, b: int|
            a != b && (#[trigger] self.user(a)) is Some ==> self.user(a) != #[trigger] self.user(b)
        &&& forall|name: Seq<char>| #[trigger]
            self.state.has_user(name) ==> exists|id: int| self.user(id) == Some(name)
    }

    /// The world before anything happened.
    pub open spec fn start() -> World {
        World { state: ServerState::empty(), sessions: Map::<int, Option<Seq<char>>>::empty() }
    }
}

/// The world starts out in order.
pub proof fn start_is_in_order()
    ensures
        World::start().inv(),
{
    ServerState::lemma_empty_wf();
}

/// Every action keeps the world in order: a name is in the registry exactly
/// while some session is authenticated under it, and no two sessions share a
/// name.
pub proof fn act_keeps_order(world: World, action: Action)
    requires
        world.inv(),
    ensures
        world.act(action).inv(),
{
    let id = action.session;
    let user = world.user(id);
    let step = client_step(world.state, user, action.event, action.handle, action.now);
    let after = world.act(action);
    step_changes_own_name_only(world.state, user, action.event, action.handle, action.now);
    assert(after.user(id) == step.user);
    assert forall|other: int| other != id implies #[trigger] after.user(other) == world.user(
        other,
    ) by {}
    assert forall|a: int| (#[trigger] after.user(a)) is Some implies after.state.has_user(
        after.user(a)->0,
    ) by {
        if a != id {
            let name = world.user(a)->0;
            assert(world.user(a) != world.user(id) || world.user(id) is None);
            assert(world.state.has_user(name));
            if step.user == Some(name) {
                assert(user is None && !world.state.has_user(name));
            }
        }
    }
    assert forall|a: int, b: int| a != b && (#[trigger] after.user(a)) is Some implies after.user(a)
        != #[trigger] after.user(b) by {
        if a == id {
            if after.user(b) == step.user {
                let name = step.user->0;
                assert(world.user(b) == Some(name));
                assert(world.state.has_user(name));
                assert(step.user == user);
                assert(world.user(id) != world.user(b));
            }
        } else if b == id {
            if after.user(a) == step.user {
                let name = step.user->0;
                assert(world.user(a) == Some(name));
                assert(world.state.has_user(name));
                assert(step.user == user);
                assert(world.user(a) != world.user(id));
            }
        } else {
            assert(world.user(a) != world.user(b));
        }
    }
    assert forall|name: Seq<char>| #[trigger] after.state.has_user(name) implies exists|s: int|
        after.user(s) == Some(name) by {
        if step.user == Some(name) {
            assert(after.user(id) == Some(name));
        } else if user == Some(name) {
            assert(step.user is None);
            assert(!step.state.has_user(name));
        } else {
            assert(world.state.has_user(name));
            let s = choose|s: int| world.user(s) == Some(name);
            assert(s != id);
            assert(after.user(s) == Some(name));
        }
    }
}

/// Whatever happens keeps the world in order.
pub proof fn run_keeps_order(world: World, trace: Seq<Action>)
    requires
        world.inv(),
    ensures
        world.run(trace).inv(),
    decreases trace.len(),
{
    if trace.len() > 0 {
        run_keeps_order(world, trace.drop_last());
        act_keeps_order(world.run(trace.drop_last()), trace.last());
    }
}

/// While the session that connected under a name does nothing, whatever the
/// other sessions do, the name stays taken.
pub proof fn name_stays_taken(world: World, first: int, name: Seq<char>, trace: Seq<Action>)
    requires
        world.inv(),
        world.user(first) == Some(name),
        forall|k: int| 0 <= k < trace.len() ==> (#[trigger] trace[k]).session != first,
    ensures
        world.run(trace).inv(),
        world.run(trace).user(first) == Some(name),
        world.run(trace).state.has_user(name),
    decreases trace.len(),
{
    run_keeps_order(world, trace);
    if trace.len() > 0 {
        let earlier = trace.drop_last();
        assert forall|k: int| 0 <= k < earlier.len() implies (#[trigger] earlier[k]).session
            != first by {
            assert(earlier[k] == trace[k]);
        }
        name_stays_taken(world, first, name, earlier);
        assert(trace.last() == trace[trace.len() - 1]);
    }
}

/// After a session connected under a name, a `Connect` under the same name
/// from any other session fails, whatever the other sessions did in between,
/// until the first session ends; once it has ended, the name is free again.
pub proof fn second_connect_fails_until_disconnect(
    world: World,
    first: int,
    name: Seq<char>,
    trace: Seq<Action>,
    second: int,
    handle: u64,
    now: u64,
)
    requires
        world.inv(),
        world.user(first) == Some(name),
        forall|k: int| 0 <= k < trace.len() ==> (#[trigger] trace[k]).session != first,
        second != first,
    ensures
        ({
            let later = world.run(trace);
            let attempt = process_step(
                later.state,
                later.user(second),
                MessageView::Connect { username: name },
                handle,
                now,
            );
            let ended = close_step(later.state, later.user(first));
            &&& attempt.state == later.state
            &&& attempt.user == later.user(second)
            &&& attempt.outgoing.len() == 1
            &&& attempt.outgoing[0].handle == handle
            &&& attempt.outgoing[0].message matches MessageView::ConnectAck { success, .. }
                && !success
            &&& !ended.state.has_user(name)
        }),
{
    name_stays_taken(world, first, name, trace);
    let later = world.run(trace);
    connect_fails_while_taken(later.state, later.user(second), name, handle);
    later.state.lemma_remove_user(name);
}

/// A session moves as its table says. `Disconnect` closes it, and nothing
/// else that can be decoded does. An unauthenticated session becomes
/// authenticated by a `Connect` under a free name and by nothing else; every
/// other request leaves it and the registry as they are and is answered with
/// an error. An authenticated session is in a room after a `JoinRoom`; every
/// other request leaves it where it stands and the registry as it is.
pub proof fn session_follows_table(
    state: ServerState,
    user: Option<Seq<char>>,
    message: MessageView,
    handle: u64,
    now: u64,
)
    requires
        state.wf(),
        user matches Some(name) ==> state.has_user(name),
    ensures
        ({
            let before = session_state(state, user, false);
            let step = client_step(state, user, SessionEventView::Received(message), handle, now);
            let after = session_state(step.state, step.user, !step.keep_open);
            &&& message is Disconnect <==> after is Closed
            &&& (before is Unauthenticated && message is Connect) ==> if state.has_user(
                message->Connect_username,
            ) {
                after is Unauthenticated && step.state == state
            } else {
                after is Authenticated
            }
            &&& (before is Unauthenticated && !(message is Connect) && !(message is Disconnect))
                ==> after is Unauthenticated && step.state == state && step.outgoing == reply(
                handle,
                MessageView::Error { message: text_not_connected() },
            )
            &&& (!(before is Unauthenticated) && message is JoinRoom) ==> after is InRoom
            &&& (!(before is Unauthenticated) && !(message is JoinRoom) && !(message is Disconnect))
                ==> after == before && step.state == state
        }),
{
    match message {
        MessageView::Connect { username } => {
            if user is None && !state.has_user(username) {
                state.lemma_add_user(username, handle);
            }
        },
        MessageView::JoinRoom { room } => {
            match user {
                Some(name) => {
                    state.lemma_join_room(name, room);
                },
                None => {},
            }
        },
        _ => {},
    }
}

/// A stream that fails closes the session, and the session's user is
/// cleaned up exactly as after a `Disconnect`.
pub proof fn failure_closes_session(
    state: ServerState,
    user: Option<Seq<char>>,
    error: CodecError,
    handle: u64,
    now: u64,
)
    ensures
        ({
            let failed = client_step(state, user, SessionEventView::Failed(error), handle, now);
            let left = client_step(
                state,
                user,
                SessionEventView::Received(MessageView::Disconnect),
                handle,
                now,
            );
            &&& failed == close_step(state, user)
            &&& session_state(failed.state, failed.user, !failed.keep_open) is Closed
            &&& failed.state == left.state
            &&& failed.user == left.user
            &&& failed.outgoing == left.outgoing
            &&& failed.user is None
        }),
{
    let left = client_step(
        state,
        user,
        SessionEventView::Received(MessageView::Disconnect),
        handle,
        now,
    );
    assert(left.outgoing =~= close_step(state, user).outgoing);
}

} // verus!
