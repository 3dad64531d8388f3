//! Fan-out of one event to the members of a room.

use crate::chat::message::{MessageType, MessageView};
use crate::chat::registry::ChatServer;
use crate::chat::state::ServerState;
use vstd::prelude::*;

verus! {

/// A message to be written to one connection.
#[derive(Debug)]
pub struct Outgoing {
    pub handle: u64,
    pub message: MessageType,
}

/// What an [`Outgoing`] says.
pub struct OutgoingView {
    pub handle: u64,
    pub message: MessageView,
}

impl View for Outgoing {
    type V = OutgoingView;

    open spec fn view(&self) -> OutgoingView {
        OutgoingView { handle: self.handle, message: self.message@ }
    }
}

/// What a list of outgoing messages says, in order.
pub open spec fn outgoing_view(list: Seq<Outgoing>) -> Seq<OutgoingView> {
    Seq::new(list.len(), |i: int| list[i]@)
}

/// `event` for each of `members` in turn, but for `exclude` and for a member
/// that has no connection.
pub open spec fn deliveries(
    state: ServerState,
    members: Seq<Seq<char>>,
    event: MessageView,
    exclude: Option<Seq<char>>,
) -> Seq<OutgoingView>
    decreases members.len(),
{
    if members.len() == 0 {
        Seq::<OutgoingView>::empty()
    } else {
        let earlier = deliveries(state, members.drop_last(), event, exclude);
        let member = members.last();
        if exclude == Some(member) {
            earlier
        } else {
            match state.handle_of(member) {
                Some(handle) => earlier.push(OutgoingView { handle, message: event }),
                None => earlier,
            }
        }
    }
}

/// `event` for every member of `room` in join order, but for `exclude`.
pub open spec fn broadcast(
    state: ServerState,
    room: Seq<char>,
    event: MessageView,
    exclude: Option<Seq<char>>,
) -> Seq<OutgoingView> {
    deliveries(state, state.members_of(room), event, exclude)
}

impl ChatServer {
    /// The deliveries that bring `message_type` to every current member of
    /// `room` but `exclude_user`: one for each, in join order, each to the
    /// member's own connection. The registry is read once and not changed.
    pub fn broadcast_to_room(
        &self,
        room: &String,
        message_type: &MessageType,
        exclude_user: Option<&String>,
    ) -> (sent: Vec<Outgoing>)
        requires
            self.wf(),
        ensures
            outgoing_view(sent@) == broadcast(
                self@,
                room@,
                message_type@,
                match exclude_user {
                    Some(name) => Some(name@),
                    None => None,
                },
            ),
    {
        let members = self.list_users(room);
        let ghost exclude: Option<Seq<char>> = match exclude_user {
            Some(name) => Some(name@),
            None => None,
        };
        let ghost names = members.deep_view();
        let mut sent: Vec<Outgoing> = Vec::new();
        let mut i: usize = 0;
        assert(names.take(0) =~= Seq::<Seq<char>>::empty());
        assert(outgoing_view(sent@) =~= Seq::<OutgoingView>::empty());
        while i < members.len()
            invariant
                self.wf(),
                i <= members.len(),
                names == members.deep_view(),
                exclude == match exclude_user {
                    Some(name) => Some(name@),
                    None => None,
                },
                outgoing_view(sent@) == deliveries(
                    self@,
                    names.take(i as int),
                    message_type@,
                    exclude,
                ),
            decreases members.len() - i,
        {
            let member = &members[i];
            let ghost before = outgoing_view(sent@);
            proof {
                let upto = names.take(i + 1);
                assert(upto.drop_last() =~= names.take(i as int));
                assert(upto.last() == member@);
            }
            let skip = match exclude_user {
                Some(name) => *name == *member,
                None => false,
            };
            if !skip {
                match self.get_connection(member) {
                    Some(handle) => {
                        sent.push(Outgoing { handle, message: message_type.clone() });
                        assert(outgoing_view(sent@) =~= before.push(
                            OutgoingView { handle, message: message_type@ },
                        ));
                    },
                    None => {},
                }
            }
            i += 1;
        }
        assert(names.take(members.len() as int) =~= names);
        sent
    }
}

} // verus!
