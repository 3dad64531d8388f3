//! Every change of the registry keeps it consistent, and what each change
//! does to what can be observed of it.

use crate::chat::state::{without, ServerState};
use vstd::prelude::*;

verus! {

/// In a sequence without duplicates, an item is found where it stands.
pub proof fn lemma_found_at(names: Seq<Seq<char>>, i: int)
    requires
        names.no_duplicates(),
        0 <= i < names.len(),
    ensures
        names.contains(names[i]),
        names.index_of(names[i]) == i,
{
    assert(names.contains(names[i]));
    let j = names.index_of(names[i]);
    assert(0 <= j < names.len() && names[j] == names[i]);
}

/// An item that a sequence contains stands at its index.
pub proof fn lemma_index_of(names: Seq<Seq<char>>, name: Seq<char>)
    requires
        names.contains(name),
    ensures
        0 <= names.index_of(name) < names.len(),
        names[names.index_of(name)] == name,
{
}

/// Taking a name out of a sequence without duplicates leaves the others, in
/// their order, and nothing else.
pub proof fn lemma_without(names: Seq<Seq<char>>, name: Seq<char>)
    requires
        names.no_duplicates(),
    ensures
        without(names, name).no_duplicates(),
        !without(names, name).contains(name),
        forall|other: Seq<char>|
            other != name ==> (#[trigger] without(names, name).contains(other) <==> names.contains(
                other,
            )),
        names.contains(name) ==> without(names, name).len() == names.len() - 1,
{
    let rest = without(names, name);
    if names.contains(name) {
        let at = names.index_of(name);
        assert forall|k: int| 0 <= k < rest.len() implies #[trigger] rest[k] == names[if k < at {
            k
        } else {
            k + 1
        }] by {}
        assert forall|i: int, j: int| 0 <= i < rest.len() && 0 <= j < rest.len() && i != j implies rest[i]
            != rest[j] by {
            let a = if i < at { i } else { i + 1 };
            let b = if j < at { j } else { j + 1 };
            assert(rest[i] == names[a]);
            assert(rest[j] == names[b]);
        }
        if rest.contains(name) {
            let k = rest.index_of(name);
            let a = if k < at { k } else { k + 1 };
            assert(rest[k] == names[a]);
            assert(names[a] == names[at]);
        }
        assert forall|other: Seq<char>| other != name implies (#[trigger] rest.contains(other)
            <==> names.contains(other)) by {
            if rest.contains(other) {
                let k = rest.index_of(other);
                let a = if k < at { k } else { k + 1 };
                assert(rest[k] == names[a]);
                assert(names.contains(other));
            }
            if names.contains(other) {
                let a = names.index_of(other);
                let k = if a < at { a } else { a - 1 };
                assert(rest[k] == names[a]);
                assert(rest.contains(other));
            }
        }
    }
}

/// A name added at the end of a sequence that did not have it: still no
/// duplicates, and every other name is found where it was.
pub proof fn lemma_push_name(names: Seq<Seq<char>>, name: Seq<char>)
    requires
        names.no_duplicates(),
        !names.contains(name),
    ensures
        names.push(name).no_duplicates(),
        names.push(name).contains(name),
        names.push(name).index_of(name) == names.len(),
        forall|other: Seq<char>|
            other != name ==> (#[trigger] names.push(name).contains(other) <==> names.contains(
                other,
            )),
        forall|other: Seq<char>|
            names.contains(other) ==> #[trigger] names.push(name).index_of(other) == names.index_of(
                other,
            ),
{
    let longer = names.push(name);
    assert forall|i: int, j: int| 0 <= i < longer.len() && 0 <= j < longer.len() && i != j implies longer[i]
        != longer[j] by {
        if i < names.len() {
            assert(names.contains(names[i]));
        }
        if j < names.len() {
            assert(names.contains(names[j]));
        }
    }
    lemma_found_at(longer, names.len() as int);
    assert forall|other: Seq<char>| other != name implies (#[trigger] longer.contains(other)
        <==> names.contains(other)) by {
        if longer.contains(other) {
            let k = longer.index_of(other);
            assert(names[k] == other);
            assert(names.contains(other));
        }
        if names.contains(other) {
            let k = names.index_of(other);
            assert(longer[k] == other);
            assert(longer.contains(other));
        }
    }
    assert forall|other: Seq<char>| names.contains(other) implies #[trigger] longer.index_of(other)
        == names.index_of(other) by {
        let k = names.index_of(other);
        assert(longer[k] == other);
        lemma_found_at(longer, k);
    }
}

impl ServerState {
    /// A user is connected exactly if some entry bears its name; the entry is
    /// then the one at the user's index.
    pub proof fn lemma_user_at(self, i: int)
        requires
            self.user_names().no_duplicates(),
            0 <= i < self.users.len(),
        ensures
            self.has_user(self.users[i].username),
            self.user_index(self.users[i].username) == i,
    {
        lemma_found_at(self.user_names(), i);
    }

    /// A room exists exactly if some entry bears its name; the entry is then
    /// the one at the room's index.
    pub proof fn lemma_room_at(self, r: int)
        requires
            self.room_names().no_duplicates(),
            0 <= r < self.rooms.len(),
        ensures
            self.has_room(self.rooms[r].name),
            self.room_index(self.rooms[r].name) == r,
            self.members_of(self.rooms[r].name) == self.rooms[r].members,
    {
        lemma_found_at(self.room_names(), r);
    }

    /// The index of a connected user is that of an entry with its name.
    pub proof fn lemma_user_index(self, name: Seq<char>)
        requires
            self.has_user(name),
        ensures
            0 <= self.user_index(name) < self.users.len(),
            self.users[self.user_index(name)].username == name,
    {
        lemma_index_of(self.user_names(), name);
    }

    /// The index of an existing room is that of an entry with its name.
    pub proof fn lemma_room_index(self, room: Seq<char>)
        requires
            self.has_room(room),
        ensures
            0 <= self.room_index(room) < self.rooms.len(),
            self.rooms[self.room_index(room)].name == room,
    {
        lemma_index_of(self.room_names(), room);
    }

    /// The empty registry is consistent.
    pub proof fn lemma_empty_wf()
        ensures
            ServerState::empty().wf(),
            forall|name: Seq<char>| !(#[trigger] ServerState::empty().has_user(name)),
            forall|room: Seq<char>| !(#[trigger] ServerState::empty().has_room(room)),
    {
    }

    /// In a consistent registry, a user's room exists and lists the user, and
    /// a member of a room is a connected user whose room is that room.
    pub proof fn lemma_membership(self, name: Seq<char>, room: Seq<char>)
        requires
            self.wf(),
        ensures
            self.room_of(name) == Some(room) <==> self.members_of(room).contains(name),
            self.members_of(room).contains(name) ==> self.has_user(name) && self.has_room(room),
            self.members_of(room).no_duplicates(),
    {
        if self.has_room(room) {
            self.lemma_room_index(room);
            let r = self.room_index(room);
            assert(self.rooms[r].members.no_duplicates());
            if self.members_of(room).contains(name) {
                let k = self.rooms[r].members.index_of(name);
                assert(self.member_ok(r, k));
            }
        }
        if self.room_of(name) == Some(room) {
            self.lemma_user_index(name);
            assert(self.user_ok(self.user_index(name)));
        }
    }

    /// Connecting a new name keeps the registry consistent; the new user is in
    /// no room and is reached through its handle; nothing else changes.
    pub proof fn lemma_add_user(self, name: Seq<char>, handle: u64)
        requires
            self.wf(),
            !self.has_user(name),
        ensures
            self.add_user(name, handle).wf(),
            self.add_user(name, handle).has_user(name),
            self.add_user(name, handle).room_of(name) is None,
            self.add_user(name, handle).handle_of(name) == Some(handle),
            forall|other: Seq<char>|
                other != name ==> (#[trigger] self.add_user(name, handle).has_user(other)
                    <==> self.has_user(other)),
            forall|other: Seq<char>|
                other != name ==> #[trigger] self.add_user(name, handle).room_of(other)
                    == self.room_of(other),
            forall|other: Seq<char>|
                other != name ==> #[trigger] self.add_user(name, handle).handle_of(other)
                    == self.handle_of(other),
            self.add_user(name, handle).rooms == self.rooms,
    {
        let after = self.add_user(name, handle);
        let names = self.user_names();
        assert(after.user_names() =~= names.push(name));
        assert(after.room_names() =~= self.room_names());
        lemma_push_name(names, name);
        assert forall|other: Seq<char>| other != name implies (#[trigger] after.has_user(other)
            <==> self.has_user(other)) by {}
        assert forall|other: Seq<char>| other != name implies #[trigger] after.room_of(other)
            == self.room_of(other) && after.handle_of(other) == self.handle_of(other) by {
            if self.has_user(other) {
                self.lemma_user_index(other);
                assert(after.user_index(other) == self.user_index(other));
            }
        }
        assert forall|r: int, k: int|
            0 <= r < after.rooms.len() && 0 <= k < after.rooms[r].members.len()
                implies #[trigger] after.member_ok(r, k) by {
            assert(self.member_ok(r, k));
            let member = self.rooms[r].members[k];
            assert(member != name);
            assert(after.room_of(member) == self.room_of(member));
        }
        assert forall|i: int| 0 <= i < after.users.len() implies #[trigger] after.user_ok(i) by {
            if i < self.users.len() {
                assert(self.user_ok(i));
                assert(after.users[i] == self.users[i]);
            }
        }
        assert forall|i: int| 0 <= i < after.users.len() implies (#[trigger] after.connections[i]).username
            == after.users[i].username by {
            if i < self.users.len() {
                assert(self.connections[i].username == self.users[i].username);
            }
        }
    }

    /// Leaving keeps the registry consistent. The user is then in no room,
    /// the room it was in lists the other members as before, and nothing
    /// else changes.
    pub proof fn lemma_leave_room(self, name: Seq<char>)
        requires
            self.wf(),
        ensures
            self.leave_room(name).wf(),
            self.leave_room(name).user_names() == self.user_names(),
            self.leave_room(name).room_names() == self.room_names(),
            self.leave_room(name).connections == self.connections,
            self.leave_room(name).room_of(name) is None,
            forall|other: Seq<char>|
                other != name ==> #[trigger] self.leave_room(name).room_of(other) == self.room_of(
                    other,
                ),
            forall|room: Seq<char>|
                #[trigger] self.leave_room(name).members_of(room) == if self.room_of(name) == Some(
                    room,
                ) {
                    without(self.members_of(room), name)
                } else {
                    self.members_of(room)
                },
    {
        let after = self.leave_room(name);
        match self.room_of(name) {
            Some(old) => {
                self.lemma_user_index(name);
                let i = self.user_index(name);
                assert(self.user_ok(i));
                self.lemma_room_index(old);
                let r = self.room_index(old);
                let members = self.rooms[r].members;
                assert(members.no_duplicates());
                lemma_without(members, name);
                assert(after.user_names() =~= self.user_names());
                assert(after.room_names() =~= self.room_names());
                assert forall|other: Seq<char>| other != name implies #[trigger] after.room_of(other)
                    == self.room_of(other) by {
                    if self.has_user(other) {
                        self.lemma_user_index(other);
                    }
                }
                assert forall|room: Seq<char>| #[trigger] after.members_of(room) == if self.room_of(
                    name,
                ) == Some(room) {
                    without(self.members_of(room), name)
                } else {
                    self.members_of(room)
                } by {
                    if self.has_room(room) {
                        self.lemma_room_index(room);
                        if room != old {
                            assert(self.room_index(room) != r);
                        }
                    }
                }
                assert forall|q: int| 0 <= q < after.rooms.len() implies (#[trigger] after.rooms[q]).members.no_duplicates() by {
                    if q != r {
                        assert(self.rooms[q].members.no_duplicates());
                    }
                }
                assert forall|q: int, k: int|
                    0 <= q < after.rooms.len() && 0 <= k < after.rooms[q].members.len()
                        implies #[trigger] after.member_ok(q, k) by {
                    let member = after.rooms[q].members[k];
                    if q == r {
                        assert(without(members, name).contains(member));
                        assert(member != name);
                        assert(members.contains(member));
                        let k0 = members.index_of(member);
                        assert(self.member_ok(r, k0));
                    } else {
                        assert(self.member_ok(q, k));
                        if member == name {
                            self.lemma_room_at(q);
                            self.lemma_room_at(r);
                        }
                    }
                    assert(after.room_of(member) == self.room_of(member));
                }
                assert forall|j: int| 0 <= j < after.users.len() implies #[trigger] after.user_ok(j) by {
                    if j != i {
                        assert(self.user_ok(j));
                        assert(after.users[j] == self.users[j]);
                        self.lemma_user_at(j);
                        self.lemma_user_at(i);
                        let other = self.users[j].username;
                        assert(other != name);
                        match self.users[j].current_room {
                            Some(room) => {
                                assert(after.members_of(room).contains(other));
                            },
                            None => {},
                        }
                    }
                }
                assert forall|j: int| 0 <= j < after.users.len() implies (#[trigger] after.connections[j]).username
                    == after.users[j].username by {
                    assert(self.connections[j].username == self.users[j].username);
                }
            },
            None => {
                assert forall|room: Seq<char>| self.room_of(name) != Some(room) by {}
            },
        }
    }

    /// Entering keeps the registry consistent. The user is then in `room` and
    /// is its last member; the room exists; nothing else changes.
    pub proof fn lemma_enter_room(self, name: Seq<char>, room: Seq<char>)
        requires
            self.wf(),
            self.has_user(name),
            self.room_of(name) is None,
        ensures
            self.enter_room(name, room).wf(),
            self.enter_room(name, room).user_names() == self.user_names(),
            self.enter_room(name, room).connections == self.connections,
            self.enter_room(name, room).room_names() == if self.has_room(room) {
                self.room_names()
            } else {
                self.room_names().push(room)
            },
            self.enter_room(name, room).room_of(name) == Some(room),
            forall|other: Seq<char>|
                other != name ==> #[trigger] self.enter_room(name, room).room_of(other)
                    == self.room_of(other),
            self.enter_room(name, room).has_room(room),
            forall|q: Seq<char>|
                q != room ==> (#[trigger] self.enter_room(name, room).has_room(q) <==> self.has_room(
                    q,
                )),
            self.enter_room(name, room).members_of(room) == self.members_of(room).push(name),
            forall|q: Seq<char>|
                q != room ==> #[trigger] self.enter_room(name, room).members_of(q)
                    == self.members_of(q),
    {
        let after = self.enter_room(name, room);
        self.lemma_user_index(name);
        let i = self.user_index(name);
        assert(after.user_names() =~= self.user_names());
        // the user is listed by no room
        assert forall|q: int, k: int|
            0 <= q < self.rooms.len() && 0 <= k < self.rooms[q].members.len()
                implies self.rooms[q].members[k] != name by {
            assert(self.member_ok(q, k));
        }
        assert forall|other: Seq<char>| other != name implies #[trigger] after.room_of(other)
            == self.room_of(other) by {
            if self.has_user(other) {
                self.lemma_user_index(other);
            }
        }
        if self.has_room(room) {
            self.lemma_room_index(room);
            let r = self.room_index(room);
            let members = self.rooms[r].members;
            assert(after.room_names() =~= self.room_names());
            assert(!members.contains(name)) by {
                if members.contains(name) {
                    let k = members.index_of(name);
                    assert(self.rooms[r].members[k] == name);
                }
            }
            assert(members.no_duplicates());
            lemma_push_name(members, name);
            assert forall|q: Seq<char>| q != room implies #[trigger] after.members_of(q)
                == self.members_of(q) by {
                if self.has_room(q) {
                    self.lemma_room_index(q);
                }
            }
            assert forall|q: int| 0 <= q < after.rooms.len() implies (#[trigger] after.rooms[q]).members.no_duplicates() by {
                if q != r {
                    assert(self.rooms[q].members.no_duplicates());
                }
            }
            assert forall|q: int, k: int|
                0 <= q < after.rooms.len() && 0 <= k < after.rooms[q].members.len()
                    implies #[trigger] after.member_ok(q, k) by {
                let member = after.rooms[q].members[k];
                if q == r && k == members.len() {
                } else {
                    assert(self.member_ok(q, k));
                    assert(member != name);
                    assert(after.room_of(member) == self.room_of(member));
                }
            }
            assert forall|j: int| 0 <= j < after.users.len() implies #[trigger] after.user_ok(j) by {
                if j != i {
                    assert(self.user_ok(j));
                    assert(after.users[j] == self.users[j]);
                    match self.users[j].current_room {
                        Some(q) => {
                            if q == room {
                                assert(members.contains(self.users[j].username));
                                let k = members.index_of(self.users[j].username);
                                assert(members.push(name)[k] == self.users[j].username);
                            }
                        },
                        None => {},
                    }
                } else {
                    assert(members.push(name)[members.len() as int] == name);
                }
            }
        } else {
            let names = self.room_names();
            assert(after.room_names() =~= names.push(room));
            lemma_push_name(names, room);
            let r = self.rooms.len() as int;
            assert(after.room_index(room) == r);
            assert(after.members_of(room) =~= self.members_of(room).push(name));
            assert forall|q: Seq<char>| q != room implies #[trigger] after.members_of(q)
                == self.members_of(q) by {
                if self.has_room(q) {
                    self.lemma_room_index(q);
                    assert(after.room_index(q) == self.room_index(q));
                }
            }
            assert forall|q: int| 0 <= q < after.rooms.len() implies (#[trigger] after.rooms[q]).members.no_duplicates() by {
                if q != r {
                    assert(self.rooms[q].members.no_duplicates());
                }
            }
            assert forall|q: int, k: int|
                0 <= q < after.rooms.len() && 0 <= k < after.rooms[q].members.len()
                    implies #[trigger] after.member_ok(q, k) by {
                let member = after.rooms[q].members[k];
                if q == r {
                } else {
                    assert(self.member_ok(q, k));
                    assert(member != name);
                    assert(after.room_of(member) == self.room_of(member));
                }
            }
            assert forall|j: int| 0 <= j < after.users.len() implies #[trigger] after.user_ok(j) by {
                if j != i {
                    assert(self.user_ok(j));
                    assert(after.users[j] == self.users[j]);
                } else {
                    assert(seq![name][0] == name);
                }
            }
        }
        assert forall|j: int| 0 <= j < after.users.len() implies (#[trigger] after.connections[j]).username
            == after.users[j].username by {
            assert(self.connections[j].username == self.users[j].username);
        }
    }

    /// Joining keeps the registry consistent. The user is then a member of
    /// `room` only: it is the last member of `room`, the room it was in no
    /// longer lists it, and every other room has its members as before.
    pub proof fn lemma_join_room(self, name: Seq<char>, room: Seq<char>)
        requires
            self.wf(),
            self.has_user(name),
        ensures
            self.join_room(name, room).wf(),
            self.join_room(name, room).user_names() == self.user_names(),
            self.join_room(name, room).connections == self.connections,
            self.join_room(name, room).room_of(name) == Some(room),
            forall|other: Seq<char>|
                other != name ==> #[trigger] self.join_room(name, room).room_of(other)
                    == self.room_of(other),
            self.join_room(name, room).members_of(room) == without(
                self.members_of(room),
                name,
            ).push(name),
            forall|q: Seq<char>|
                q != room ==> #[trigger] self.join_room(name, room).members_of(q) == without(
                    self.members_of(q),
                    name,
                ),
            forall|q: Seq<char>|
                q != room ==> (#[trigger] self.join_room(name, room).has_room(q) <==> self.has_room(
                    q,
                )),
            self.join_room(name, room).has_room(room),
    {
        let left = self.leave_room(name);
        self.lemma_leave_room(name);
        assert(left.has_user(name));
        left.lemma_enter_room(name, room);
        let after = self.join_room(name, room);
        assert forall|q: Seq<char>| #[trigger] left.members_of(q) == without(
            self.members_of(q),
            name,
        ) by {
            if self.room_of(name) != Some(q) {
                self.lemma_membership(name, q);
            }
        }
        assert(after.members_of(room) == left.members_of(room).push(name));
        assert forall|q: Seq<char>| q != room implies #[trigger] after.members_of(q) == without(
            self.members_of(q),
            name,
        ) by {
            assert(after.members_of(q) == left.members_of(q));
        }
        assert forall|other: Seq<char>| other != name implies #[trigger] after.room_of(other)
            == self.room_of(other) by {
            assert(after.room_of(other) == left.room_of(other));
        }
        assert forall|q: Seq<char>| q != room implies (#[trigger] after.has_room(q)
            <==> self.has_room(q)) by {
            assert(after.has_room(q) <==> left.has_room(q));
        }
    }

    /// Taking entry `i` out of the users and the connections of a registry in
    /// which that user is in no room keeps it consistent; the others stay as
    /// they are.
    proof fn lemma_drop_user(self, name: Seq<char>)
        requires
            self.wf(),
            self.has_user(name),
            self.room_of(name) is None,
        ensures
            ({
                let i = self.user_index(name);
                let after = ServerState {
                    users: self.users.remove(i),
                    rooms: self.rooms,
                    connections: self.connections.remove(i),
                };
                &&& after.wf()
                &&& !after.has_user(name)
                &&& after.user_names() == without(self.user_names(), name)
                &&& forall|other: Seq<char>|
                    other != name ==> (#[trigger] after.has_user(other) <==> self.has_user(other))
                &&& forall|other: Seq<char>|
                    other != name ==> #[trigger] after.room_of(other) == self.room_of(other)
                &&& forall|other: Seq<char>|
                    other != name ==> #[trigger] after.handle_of(other) == self.handle_of(other)
            }),
    {
        self.lemma_user_index(name);
        let i = self.user_index(name);
        let after = ServerState {
            users: self.users.remove(i),
            rooms: self.rooms,
            connections: self.connections.remove(i),
        };
        let names = self.user_names();
        lemma_without(names, name);
        assert(after.user_names() =~= without(names, name));
        assert(after.room_names() =~= self.room_names());
        assert forall|j: int| 0 <= j < after.users.len() implies #[trigger] after.users[j]
            == self.users[if j < i { j } else { j + 1 }] && after.connections[j]
            == self.connections[if j < i { j } else { j + 1 }] by {}
        assert forall|other: Seq<char>| other != name implies #[trigger] after.room_of(other)
            == self.room_of(other) && after.handle_of(other) == self.handle_of(other) by {
            if self.has_user(other) {
                self.lemma_user_index(other);
                let a = self.user_index(other);
                let j = if a < i { a } else { a - 1 };
                assert(after.users[j] == self.users[a]);
                assert(after.user_names()[j] == other);
                lemma_found_at(after.user_names(), j);
            }
        }
        assert forall|q: int, k: int|
            0 <= q < after.rooms.len() && 0 <= k < after.rooms[q].members.len()
                implies #[trigger] after.member_ok(q, k) by {
            assert(self.member_ok(q, k));
            let member = self.rooms[q].members[k];
            assert(member != name);
            assert(after.room_of(member) == self.room_of(member));
        }
        assert forall|j: int| 0 <= j < after.users.len() implies #[trigger] after.user_ok(j) by {
            let a = if j < i { j } else { j + 1 };
            assert(self.user_ok(a));
        }
        assert forall|j: int| 0 <= j < after.users.len() implies (#[trigger] after.connections[j]).username
            == after.users[j].username by {
            let a = if j < i { j } else { j + 1 };
            assert(self.connections[a].username == self.users[a].username);
        }
    }

    /// Disconnecting keeps the registry consistent. The user is then gone
    /// from the users, from the connections and from the room it was in, all
    /// at once; every other user keeps its room and its connection, and every
    /// room keeps its other members.
    pub proof fn lemma_remove_user(self, name: Seq<char>)
        requires
            self.wf(),
        ensures
            self.remove_user(name).wf(),
            !self.remove_user(name).has_user(name),
            self.remove_user(name).room_of(name) is None,
            self.remove_user(name).handle_of(name) is None,
            self.remove_user(name).user_names() == without(self.user_names(), name),
            self.remove_user(name).room_names() == self.room_names(),
            forall|other: Seq<char>|
                other != name ==> (#[trigger] self.remove_user(name).has_user(other)
                    <==> self.has_user(other)),
            forall|other: Seq<char>|
                other != name ==> #[trigger] self.remove_user(name).room_of(other) == self.room_of(
                    other,
                ),
            forall|other: Seq<char>|
                other != name ==> #[trigger] self.remove_user(name).handle_of(other)
                    == self.handle_of(other),
            forall|q: Seq<char>|
                #[trigger] self.remove_user(name).members_of(q) == without(self.members_of(q), name),
    {
        let after = self.remove_user(name);
        if self.has_user(name) {
            let left = self.leave_room(name);
            self.lemma_leave_room(name);
            assert(left.has_user(name));
            assert(left.user_index(name) == self.user_index(name));
            left.lemma_drop_user(name);
            assert forall|q: Seq<char>| #[trigger] after.members_of(q) == without(
                self.members_of(q),
                name,
            ) by {
                assert(after.room_names() =~= left.room_names());
                assert(after.members_of(q) == left.members_of(q));
                if self.room_of(name) != Some(q) {
                    self.lemma_membership(name, q);
                }
            }
            assert forall|other: Seq<char>| other != name implies #[trigger] after.room_of(other)
                == self.room_of(other) && after.handle_of(other) == self.handle_of(other) && (
            after.has_user(other) <==> self.has_user(other)) by {
                assert(left.room_of(other) == self.room_of(other));
                assert(left.handle_of(other) == self.handle_of(other));
                assert(left.has_user(other) <==> self.has_user(other));
            }
            assert(after.room_names() =~= self.room_names());
        } else {
            assert(without(self.user_names(), name) == self.user_names());
            assert forall|q: Seq<char>| #[trigger] after.members_of(q) == without(
                self.members_of(q),
                name,
            ) by {
                self.lemma_membership(name, q);
            }
        }
    }
}

} // verus!
