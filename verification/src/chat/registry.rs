//! The presence registry: connected users, the members of each room, and the
//! connection through which each user is reached.

use crate::chat::message::clone_strings;
use crate::chat::state::{without, ConnectionState, RoomState, ServerState, UserState};
use crate::chat::state_lemmas::lemma_found_at;
use vstd::prelude::*;

verus! {

/// A connected user.
#[derive(Debug)]
pub struct User {
    pub username: String,
    pub current_room: Option<String>,
}

impl View for User {
    type V = UserState;

    open spec fn view(&self) -> UserState {
        UserState {
            username: self.username@,
            current_room: match self.current_room {
                Some(room) => Some(room@),
                None => None,
            },
        }
    }
}

impl Clone for User {
    fn clone(&self) -> (copy: Self)
        ensures
            copy@ == self@,
    {
        User {
            username: self.username.clone(),
            current_room: match &self.current_room {
                Some(room) => Some(room.clone()),
                None => None,
            },
        }
    }
}

/// A room and its members in join order.
#[derive(Debug)]
pub struct Room {
    pub name: String,
    pub members: Vec<String>,
}

impl View for Room {
    type V = RoomState;

    open spec fn view(&self) -> RoomState {
        RoomState { name: self.name@, members: self.members.deep_view() }
    }
}

/// The connection of a user. The handle stands for the writable endpoint,
/// which the caller keeps.
#[derive(Debug)]
pub struct Connection {
    pub username: String,
    pub handle: u64,
}

impl View for Connection {
    type V = ConnectionState;

    open spec fn view(&self) -> ConnectionState {
        ConnectionState { username: self.username@, handle: self.handle }
    }
}

/// The chat server's shared state.
pub struct ChatServer {
    users: Vec<User>,
    rooms: Vec<Room>,
    connections: Vec<Connection>,
}

impl View for ChatServer {
    type V = ServerState;

    closed spec fn view(&self) -> ServerState {
        ServerState {
            users: Seq::new(self.users@.len(), |i: int| self.users@[i]@),
            rooms: Seq::new(self.rooms@.len(), |i: int| self.rooms@[i]@),
            connections: Seq::new(self.connections@.len(), |i: int| self.connections@[i]@),
        }
    }
}

/// Where `name` stands in `names`, if it is there.
fn find_name(names: &Vec<String>, name: &String) -> (found: Option<usize>)
    ensures
        match found {
            Some(i) => i < names.len() && names[i as int]@ == name@,
            None => !names.deep_view().contains(name@),
        },
{
    let mut i: usize = 0;
    while i < names.len()
        invariant
            i <= names.len(),
            forall|k: int| 0 <= k < i ==> names[k]@ != name@,
        decreases names.len() - i,
    {
        if names[i] == *name {
            return Some(i);
        }
        i += 1;
    }
    proof {
        let views = names.deep_view();
        if views.contains(name@) {
            let k = views.index_of(name@);
            assert(views[k] == names[k]@);
        }
    }
    None
}

impl ChatServer {
    /// The registry is consistent.
    pub open spec fn wf(&self) -> bool {
        self@.wf()
    }

    /// A server with nobody connected and no room.
    pub fn new() -> (server: Self)
        ensures
            server@ == ServerState::empty(),
            server.wf(),
    {
        let server = ChatServer { users: Vec::new(), rooms: Vec::new(), connections: Vec::new() };
        assert(server@.users =~= ServerState::empty().users);
        assert(server@.rooms =~= ServerState::empty().rooms);
        assert(server@.connections =~= ServerState::empty().connections);
        server
    }

    /// Where `name` stands among the users, if it is connected.
    fn find_user(&self, name: &String) -> (found: Option<usize>)
        requires
            self.wf(),
        ensures
            match found {
                Some(i) => self@.has_user(name@) && i == self@.user_index(name@) && i
                    < self.users.len(),
                None => !self@.has_user(name@),
            },
    {
        let mut i: usize = 0;
        while i < self.users.len()
            invariant
                self.wf(),
                i <= self.users.len(),
                forall|k: int| 0 <= k < i ==> self.users[k].username@ != name@,
            decreases self.users.len() - i,
        {
            if self.users[i].username == *name {
                proof {
                    assert(self@.user_names()[i as int] == name@);
                    lemma_found_at(self@.user_names(), i as int);
                }
                return Some(i);
            }
            i += 1;
        }
        proof {
            let names = self@.user_names();
            if names.contains(name@) {
                let k = names.index_of(name@);
                assert(names[k] == self.users[k].username@);
            }
        }
        None
    }

    /// Where `room` stands among the rooms, if it exists.
    fn find_room(&self, room: &String) -> (found: Option<usize>)
        requires
            self.wf(),
        ensures
            match found {
                Some(r) => self@.has_room(room@) && r == self@.room_index(room@) && r
                    < self.rooms.len(),
                None => !self@.has_room(room@),
            },
    {
        let mut r: usize = 0;
        while r < self.rooms.len()
            invariant
                self.wf(),
                r <= self.rooms.len(),
                forall|k: int| 0 <= k < r ==> self.rooms[k].name@ != room@,
            decreases self.rooms.len() - r,
        {
            if self.rooms[r].name == *room {
                proof {
                    assert(self@.room_names()[r as int] == room@);
                    lemma_found_at(self@.room_names(), r as int);
                }
                return Some(r);
            }
            r += 1;
        }
        proof {
            let names = self@.room_names();
            if names.contains(room@) {
                let k = names.index_of(room@);
                assert(names[k] == self.rooms[k].name@);
            }
        }
        None
    }

    /// Whether `username` is connected.
    pub fn has_user(&self, username: &String) -> (connected: bool)
        requires
            self.wf(),
        ensures
            connected == self@.has_user(username@),
    {
        self.find_user(username).is_some()
    }

    /// The room that `username` is in; `None` for a user in no room and for a
    /// name that is not connected.
    pub fn current_room(&self, username: &String) -> (room: Option<String>)
        requires
            self.wf(),
        ensures
            match room {
                Some(name) => self@.room_of(username@) == Some(name@),
                None => self@.room_of(username@) is None,
            },
    {
        match self.find_user(username) {
            Some(i) => match &self.users[i].current_room {
                Some(room) => Some(room.clone()),
                None => None,
            },
            None => None,
        }
    }

    /// The connection of `username`; `None` for a name that is not connected.
    pub fn get_connection(&self, username: &String) -> (handle: Option<u64>)
        requires
            self.wf(),
        ensures
            handle == self@.handle_of(username@),
    {
        match self.find_user(username) {
            Some(i) => {
                proof {
                    assert(self@.connections.len() == self@.users.len());
                }
                Some(self.connections[i].handle)
            },
            None => None,
        }
    }

    /// The names of the rooms, in the order in which they were first joined.
    pub fn list_rooms(&self) -> (rooms: Vec<String>)
        ensures
            rooms.deep_view() == self@.room_names(),
    {
        let mut names: Vec<String> = Vec::new();
        let mut r: usize = 0;
        while r < self.rooms.len()
            invariant
                r <= self.rooms.len(),
                names.len() == r,
                forall|k: int| 0 <= k < r ==> names[k]@ == self.rooms[k].name@,
            decreases self.rooms.len() - r,
        {
            names.push(self.rooms[r].name.clone());
            r += 1;
        }
        assert(names.deep_view() =~= self@.room_names());
        names
    }

    /// The members of `room` in join order; nobody where there is no such room.
    pub fn list_users(&self, room: &String) -> (users: Vec<String>)
        requires
            self.wf(),
        ensures
            users.deep_view() == self@.members_of(room@),
    {
        match self.find_room(room) {
            Some(r) => clone_strings(&self.rooms[r].members),
            None => {
                let nobody: Vec<String> = Vec::new();
                assert(nobody.deep_view() =~= Seq::<Seq<char>>::empty());
                nobody
            },
        }
    }

    /// Registers `username`, reached through `handle` and in no room, unless
    /// the name is taken. Says whether the user was registered.
    pub fn add_user(&mut self, username: String, handle: u64) -> (added: bool)
        requires
            old(self).wf(),
        ensures
            final(self).wf(),
            added == !old(self)@.has_user(username@),
            final(self)@ == if added {
                old(self)@.add_user(username@, handle)
            } else {
                old(self)@
            },
            final(self)@.has_user(username@),
            added ==> final(self)@.handle_of(username@) == Some(handle) && final(self)@.room_of(
                username@,
            ) is None,
    {
        if self.find_user(&username).is_some() {
            return false;
        }
        let name = username.clone();
        self.users.push(User { username, current_room: None });
        self.connections.push(Connection { username: name, handle });
        proof {
            let before = old(self)@;
            let after = before.add_user(username@, handle);
            assert(self@.users =~= after.users);
            assert(self@.rooms =~= after.rooms);
            assert(self@.connections =~= after.connections);
            before.lemma_add_user(username@, handle);
        }
        true
    }

    /// Takes `username` out of the room it is in, if it is in one.
    fn leave_room(&mut self, username: &String)
        requires
            old(self).wf(),
        ensures
            final(self).wf(),
            final(self)@ == old(self)@.leave_room(username@),
    {
        proof {
            old(self)@.lemma_leave_room(username@);
        }
        let i = match self.find_user(username) {
            Some(i) => i,
            None => { return ; },
        };
        let room = match &self.users[i].current_room {
            Some(room) => room.clone(),
            None => { return ; },
        };
        proof {
            self@.lemma_membership(username@, room@);
        }
        let r = match self.find_room(&room) {
            Some(r) => r,
            None => { return ; },
        };
        let k = match find_name(&self.rooms[r].members, username) {
            Some(k) => k,
            None => { return ; },
        };
        proof {
            let members = self.rooms[r as int].members.deep_view();
            assert(self@.rooms[r as int].members == members);
            assert(members[k as int] == username@);
            lemma_found_at(members, k as int);
        }
        let mut entry = self.rooms.remove(r);
        entry.members.remove(k);
        self.rooms.insert(r, entry);
        self.users.set(i, User { username: username.clone(), current_room: None });
        proof {
            let before = old(self)@;
            let after = before.leave_room(username@);
            assert(self@.users =~= after.users);
            assert(self.rooms@[r as int]@.members =~= without(
                before.rooms[r as int].members,
                username@,
            ));
            assert(self@.rooms =~= after.rooms);
            assert(self@.connections =~= after.connections);
        }
    }

    /// Moves `username` into `room`: the user leaves the room it is in, then
    /// becomes the last member of `room`, which is made if it does not exist.
    /// Does nothing, and says so, for a name that is not connected.
    pub fn join_room(&mut self, username: &String, room: &String) -> (joined: bool)
        requires
            old(self).wf(),
        ensures
            final(self).wf(),
            joined == old(self)@.has_user(username@),
            final(self)@ == old(self)@.join_room(username@, room@),
            joined ==> final(self)@.room_of(username@) == Some(room@) && final(self)@.members_of(
                room@,
            ) == without(old(self)@.members_of(room@), username@).push(username@),
    {
        if self.find_user(username).is_none() {
            return false;
        }
        self.leave_room(username);
        proof {
            old(self)@.lemma_leave_room(username@);
            old(self)@.lemma_join_room(username@, room@);
            assert(self@.has_user(username@));
        }
        let ghost left = self@;
        let i = match self.find_user(username) {
            Some(i) => i,
            None => { return false; },
        };
        match self.find_room(room) {
            Some(r) => {
                let mut entry = self.rooms.remove(r);
                entry.members.push(username.clone());
                self.rooms.insert(r, entry);
                proof {
                    assert(self.rooms@[r as int]@.members =~= left.rooms[r as int].members.push(
                        username@,
                    ));
                }
            },
            None => {
                let mut members: Vec<String> = Vec::new();
                members.push(username.clone());
                self.rooms.push(Room { name: room.clone(), members });
                proof {
                    assert(self.rooms@[left.rooms.len() as int]@.members =~= seq![username@]);
                }
            },
        }
        self.users.set(i, User { username: username.clone(), current_room: Some(room.clone()) });
        proof {
            let after = left.enter_room(username@, room@);
            assert(self@.users =~= after.users);
            assert(self@.rooms =~= after.rooms);
            assert(self@.connections =~= after.connections);
        }
        true
    }

    /// Removes `username` from the room it is in, from the users and from the
    /// connections. Does nothing for a name that is not connected.
    pub fn remove_user(&mut self, username: &String)
        requires
            old(self).wf(),
        ensures
            final(self).wf(),
            final(self)@ == old(self)@.remove_user(username@),
            !final(self)@.has_user(username@),
            final(self)@.handle_of(username@) is None,
            forall|room: Seq<char>|
                #[trigger] final(self)@.members_of(room) == without(
                    old(self)@.members_of(room),
                    username@,
                ),
    {
        proof {
            old(self)@.lemma_remove_user(username@);
            old(self)@.lemma_leave_room(username@);
        }
        if self.find_user(username).is_none() {
            return ;
        }
        self.leave_room(username);
        let i = match self.find_user(username) {
            Some(i) => i,
            None => { return ; },
        };
        self.users.remove(i);
        self.connections.remove(i);
        proof {
            let after = old(self)@.remove_user(username@);
            assert(self@.users =~= after.users);
            assert(self@.rooms =~= after.rooms);
            assert(self@.connections =~= after.connections);
        }
    }
}

} // verus!
