//! The presence registry as a mathematical value: who is connected, which
//! room each user is in, who the members of each room are, and through which
//! connection each user is reached.

use vstd::prelude::*;

verus! {

/// A connected user and the room the user is in, if any.
pub struct UserState {
    pub username: Seq<char>,
    pub current_room: Option<Seq<char>>,
}

/// A room and its members, in the order in which they joined.
pub struct RoomState {
    pub name: Seq<char>,
    pub members: Seq<Seq<char>>,
}

/// The connection through which a user is reached.
pub struct ConnectionState {
    pub username: Seq<char>,
    pub handle: u64,
}

/// The registry: users in the order in which they connected, rooms in the
/// order in which they were first joined, and one connection for each user.
pub struct ServerState {
    pub users: Seq<UserState>,
    pub rooms: Seq<RoomState>,
    pub connections: Seq<ConnectionState>,
}

/// `names` without its occurrence of `name`; `names` itself where it has none.
pub open spec fn without(names: Seq<Seq<char>>, name: Seq<char>) -> Seq<Seq<char>> {
    if names.contains(name) {
        names.remove(names.index_of(name))
    } else {
        names
    }
}

impl ServerState {
    /// The registry with nobody connected and no room.
    pub open spec fn empty() -> ServerState {
        ServerState {
            users: Seq::<UserState>::empty(),
            rooms: Seq::<RoomState>::empty(),
            connections: Seq::<ConnectionState>::empty(),
        }
    }

    /// The names of the connected users, in the order in which they connected.
    pub open spec fn user_names(self) -> Seq<Seq<char>> {
        Seq::new(self.users.len(), |i: int| self.users[i].username)
    }

    /// The names of the rooms, in the order in which they were first joined.
    pub open spec fn room_names(self) -> Seq<Seq<char>> {
        Seq::new(self.rooms.len(), |i: int| self.rooms[i].name)
    }

    /// `name` is connected.
    pub open spec fn has_user(self, name: Seq<char>) -> bool {
        self.user_names().contains(name)
    }

    /// A room named `room` exists.
    pub open spec fn has_room(self, room: Seq<char>) -> bool {
        self.room_names().contains(room)
    }

    /// Where `name` stands among the users.
    pub open spec fn user_index(self, name: Seq<char>) -> int {
        self.user_names().index_of(name)
    }

    /// Where `room` stands among the rooms.
    pub open spec fn room_index(self, room: Seq<char>) -> int {
        self.room_names().index_of(room)
    }

    /// The room that `name` is in; `None` for a user in no room and for a
    /// name that is not connected.
    pub open spec fn room_of(self, name: Seq<char>) -> Option<Seq<char>> {
        if self.has_user(name) {
            self.users[self.user_index(name)].current_room
        } else {
            None
        }
    }

    /// The members of `room` in join order; nobody where there is no such room.
    pub open spec fn members_of(self, room: Seq<char>) -> Seq<Seq<char>> {
        if self.has_room(room) {
            self.rooms[self.room_index(room)].members
        } else {
            Seq::<Seq<char>>::empty()
        }
    }

    /// The connection of `name`; `None` for a name that is not connected.
    pub open spec fn handle_of(self, name: Seq<char>) -> Option<u64> {
        if self.has_user(name) {
            Some(self.connections[self.user_index(name)].handle)
        } else {
            None
        }
    }

    /// Member `k` of room `r` is a connected user whose room is that room.
    pub open spec fn member_ok(self, r: int, k: int) -> bool {
        let member = self.rooms[r].members[k];
        self.has_user(member) && self.room_of(member) == Some(self.rooms[r].name)
    }

    /// The room of user `i`, if the user has one, exists and lists the user.
    pub open spec fn user_ok(self, i: int) -> bool {
        match self.users[i].current_room {
            Some(room) => self.has_room(room) && self.members_of(room).contains(
                self.users[i].username,
            ),
            None => true,
        }
    }

    /// The registry is consistent: no name and no room occurs twice, every
    /// user has exactly one connection, no room lists a user twice, every
    /// member of a room is a connected user whose room is that room, and every
    /// user in a room is listed by it.
    pub open spec fn wf(self) -> bool {
        &&& self.user_names().no_duplicates()
        &&& self.room_names().no_duplicates()
        &&& self.connections.len() == self.users.len()
        &&& forall|i: int|
            0 <= i < self.users.len() ==> (#[trigger] self.connections[i]).username
                == self.users[i].username
        &&& forall|r: int| 0 <= r < self.rooms.len() ==> (#[trigger] self.rooms[r]).members.no_duplicates()
        &&& forall|r: int, k: int|
            0 <= r < self.rooms.len() && 0 <= k < self.rooms[r].members.len()
                ==> #[trigger] self.member_ok(r, k)
        &&& forall|i: int| 0 <= i < self.users.len() ==> #[trigger] self.user_ok(i)
    }

    /// The registry after `name` connected through `handle`, in no room yet.
    pub open spec fn add_user(self, name: Seq<char>, handle: u64) -> ServerState {
        ServerState {
            users: self.users.push(UserState { username: name, current_room: None }),
            rooms: self.rooms,
            connections: self.connections.push(ConnectionState { username: name, handle }),
        }
    }

    /// The registry after `name` left the room it was in: the room no longer
    /// lists the user and the user is in no room. Unchanged for a user in no
    /// room and for a name that is not connected.
    pub open spec fn leave_room(self, name: Seq<char>) -> ServerState {
        match self.room_of(name) {
            Some(room) => {
                let i = self.user_index(name);
                let r = self.room_index(room);
                ServerState {
                    users: self.users.update(i, UserState { username: name, current_room: None }),
                    rooms: self.rooms.update(
                        r,
                        RoomState { name: room, members: without(self.rooms[r].members, name) },
                    ),
                    connections: self.connections,
                }
            },
            None => self,
        }
    }

    /// The registry after `name`, a user in no room, entered `room`: the user
    /// is the room's last member, and the room is made if it was not there.
    pub open spec fn enter_room(self, name: Seq<char>, room: Seq<char>) -> ServerState {
        let i = self.user_index(name);
        let users = self.users.update(i, UserState { username: name, current_room: Some(room) });
        if self.has_room(room) {
            let r = self.room_index(room);
            ServerState {
                users,
                rooms: self.rooms.update(
                    r,
                    RoomState { name: room, members: self.rooms[r].members.push(name) },
                ),
                connections: self.connections,
            }
        } else {
            ServerState {
                users,
                rooms: self.rooms.push(RoomState { name: room, members: seq![name] }),
                connections: self.connections,
            }
        }
    }

    /// The registry after `name` joined `room`: the user first leaves the room
    /// it was in, then enters `room`. Unchanged for a name that is not
    /// connected.
    pub open spec fn join_room(self, name: Seq<char>, room: Seq<char>) -> ServerState {
        if self.has_user(name) {
            self.leave_room(name).enter_room(name, room)
        } else {
            self
        }
    }

    /// The registry after `name` disconnected: the user has left its room and
    /// is gone from the users and from the connections. Unchanged for a name
    /// that is not connected.
    pub open spec fn remove_user(self, name: Seq<char>) -> ServerState {
        if self.has_user(name) {
            let left = self.leave_room(name);
            let i = self.user_index(name);
            ServerState {
                users: left.users.remove(i),
                rooms: left.rooms,
                connections: left.connections.remove(i),
            }
        } else {
            self
        }
    }
}

} // verus!
