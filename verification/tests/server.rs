use netproto::chat::codec::CodecError;
use netproto::chat::dispatcher::Outgoing;
use netproto::chat::message::{MessageType, ProtocolMessage};
use netproto::chat::registry::ChatServer;
use netproto::chat::session::{Outcome, SessionEvent};

fn s(text: &str) -> String {
    text.to_string()
}

fn request(message_type: MessageType) -> ProtocolMessage {
    ProtocolMessage::with_timestamp(message_type, 0)
}

fn sent(outgoing: &[Outgoing]) -> Vec<(u64, MessageType)> {
    outgoing.iter().map(|o| (o.handle, o.message.clone())).collect()
}

fn step(
    server: &mut ChatServer,
    user: &mut Option<String>,
    handle: u64,
    message_type: MessageType,
) -> Outcome {
    server.process_message(request(message_type), user, handle, 1234)
}

fn connect(server: &mut ChatServer, name: &str, handle: u64) -> Option<String> {
    let mut user = None;
    let outcome = step(server, &mut user, handle, MessageType::Connect { username: s(name) });
    assert!(outcome.keep_open);
    assert_eq!(
        sent(&outcome.outgoing),
        vec![(
            handle,
            MessageType::ConnectAck { success: true, message: format!("Bienvenue, {} !", name) }
        )]
    );
    assert_eq!(user, Some(s(name)));
    user
}

fn join(server: &mut ChatServer, user: &mut Option<String>, handle: u64, room: &str) -> Outcome {
    step(server, user, handle, MessageType::JoinRoom { room: s(room) })
}

fn joined_ack(room: &str) -> MessageType {
    MessageType::JoinRoomAck {
        success: true,
        room: s(room),
        message: format!("Vous avez rejoint le salon {}", room),
    }
}

#[test]
fn alice_and_bob_meet_in_general() {
    let mut server = ChatServer::new();
    let mut alice = connect(&mut server, "alice", 1);
    let outcome = join(&mut server, &mut alice, 1, "general");
    assert_eq!(sent(&outcome.outgoing), vec![(1, joined_ack("general"))]);

    let mut bob = connect(&mut server, "bob", 2);
    let outcome = join(&mut server, &mut bob, 2, "general");
    // bob gets the acknowledgement only; alice is told that bob joined
    assert_eq!(
        sent(&outcome.outgoing),
        vec![
            (2, joined_ack("general")),
            (1, MessageType::UserJoined { room: s("general"), username: s("bob") }),
        ]
    );

    let outcome = server.process_message(
        request(MessageType::SendMessage { room: s("general"), content: s("hi") }),
        &mut alice,
        1,
        4242,
    );
    let broadcast = MessageType::MessageBroadcast {
        room: s("general"),
        username: s("alice"),
        content: s("hi"),
        timestamp: 4242,
    };
    assert!(outcome.keep_open);
    assert_eq!(sent(&outcome.outgoing), vec![(1, broadcast.clone()), (2, broadcast)]);
}

#[test]
fn second_connect_under_a_taken_name_fails_until_the_first_disconnects() {
    let mut server = ChatServer::new();
    let mut first = connect(&mut server, "alice", 1);

    let mut second = None;
    let outcome = step(&mut server, &mut second, 2, MessageType::Connect { username: s("alice") });
    assert!(outcome.keep_open);
    assert_eq!(
        sent(&outcome.outgoing),
        vec![(
            2,
            MessageType::ConnectAck {
                success: false,
                message: s("Nom d'utilisateur déjà utilisé")
            }
        )]
    );
    assert_eq!(second, None);
    assert_eq!(server.get_connection(&s("alice")), Some(1));

    // other traffic does not free the name
    let mut carol = connect(&mut server, "carol", 3);
    join(&mut server, &mut carol, 3, "general");
    let outcome = step(&mut server, &mut second, 2, MessageType::Connect { username: s("alice") });
    assert!(matches!(
        outcome.outgoing[0].message,
        MessageType::ConnectAck { success: false, .. }
    ));

    // the first session ends
    let outcome =
        server.handle_client(SessionEvent::Received(request(MessageType::Disconnect)), &mut first, 1, 0);
    assert!(!outcome.keep_open);
    assert_eq!(first, None);
    assert!(!server.has_user(&s("alice")));

    let outcome = step(&mut server, &mut second, 2, MessageType::Connect { username: s("alice") });
    assert_eq!(
        sent(&outcome.outgoing),
        vec![(2, MessageType::ConnectAck { success: true, message: s("Bienvenue, alice !") })]
    );
    assert_eq!(second, Some(s("alice")));
    assert_eq!(server.get_connection(&s("alice")), Some(2));
}

#[test]
fn connect_from_an_authenticated_session_is_refused() {
    let mut server = ChatServer::new();
    let mut alice = connect(&mut server, "alice", 1);
    let outcome = step(&mut server, &mut alice, 1, MessageType::Connect { username: s("alice2") });
    assert!(outcome.keep_open);
    assert_eq!(
        sent(&outcome.outgoing),
        vec![(1, MessageType::ConnectAck { success: false, message: s("Déjà connecté") })]
    );
    assert_eq!(alice, Some(s("alice")));
    assert!(!server.has_user(&s("alice2")));
    assert!(server.has_user(&s("alice")));
}

#[test]
fn joining_another_room_moves_the_user() {
    let mut server = ChatServer::new();
    let mut alice = connect(&mut server, "alice", 1);
    let mut bob = connect(&mut server, "bob", 2);
    let mut carol = connect(&mut server, "carol", 3);
    join(&mut server, &mut alice, 1, "a");
    join(&mut server, &mut bob, 2, "a");
    join(&mut server, &mut carol, 3, "b");

    let outcome = join(&mut server, &mut alice, 1, "b");
    assert!(outcome.keep_open);
    assert_eq!(
        sent(&outcome.outgoing),
        vec![
            (2, MessageType::UserLeft { room: s("a"), username: s("alice") }),
            (1, joined_ack("b")),
            (3, MessageType::UserJoined { room: s("b"), username: s("alice") }),
        ]
    );
    assert_eq!(server.list_users(&s("a")), vec![s("bob")]);
    assert_eq!(server.list_users(&s("b")), vec![s("carol"), s("alice")]);
    assert_eq!(server.current_room(&s("alice")), Some(s("b")));
}

#[test]
fn rejoining_the_same_room_moves_the_user_to_the_end() {
    let mut server = ChatServer::new();
    let mut alice = connect(&mut server, "alice", 1);
    let mut bob = connect(&mut server, "bob", 2);
    join(&mut server, &mut alice, 1, "a");
    join(&mut server, &mut bob, 2, "a");
    let outcome = join(&mut server, &mut alice, 1, "a");
    assert_eq!(
        sent(&outcome.outgoing),
        vec![
            (2, MessageType::UserLeft { room: s("a"), username: s("alice") }),
            (1, joined_ack("a")),
            (2, MessageType::UserJoined { room: s("a"), username: s("alice") }),
        ]
    );
    assert_eq!(server.list_users(&s("a")), vec![s("bob"), s("alice")]);
}

#[test]
fn message_to_another_room_is_not_broadcast() {
    let mut server = ChatServer::new();
    let mut alice = connect(&mut server, "alice", 1);
    let mut bob = connect(&mut server, "bob", 2);
    join(&mut server, &mut alice, 1, "a");
    join(&mut server, &mut bob, 2, "b");

    let outcome = step(
        &mut server,
        &mut alice,
        1,
        MessageType::SendMessage { room: s("b"), content: s("psst") },
    );
    assert!(outcome.keep_open);
    assert_eq!(
        sent(&outcome.outgoing),
        vec![(1, MessageType::Error { message: s("Vous n'êtes pas dans ce salon") })]
    );

    let mut carol = connect(&mut server, "carol", 3);
    let outcome = step(
        &mut server,
        &mut carol,
        3,
        MessageType::SendMessage { room: s("a"), content: s("psst") },
    );
    assert_eq!(
        sent(&outcome.outgoing),
        vec![(3, MessageType::Error { message: s("Vous n'êtes pas dans ce salon") })]
    );
}

#[test]
fn list_users_is_in_join_order_without_duplicates() {
    let mut server = ChatServer::new();
    let mut users = Vec::new();
    for (i, name) in ["dave", "alice", "carol", "bob"].iter().enumerate() {
        let mut user = connect(&mut server, name, i as u64);
        join(&mut server, &mut user, i as u64, "general");
        users.push(user);
    }
    join(&mut server, &mut users[1], 1, "general");
    let outcome = step(&mut server, &mut users[0], 0, MessageType::ListUsers { room: s("general") });
    assert_eq!(
        sent(&outcome.outgoing),
        vec![(
            0,
            MessageType::UserList {
                room: s("general"),
                users: vec![s("dave"), s("carol"), s("bob"), s("alice")]
            }
        )]
    );
    let outcome = step(&mut server, &mut users[0], 0, MessageType::ListUsers { room: s("nowhere") });
    assert_eq!(
        sent(&outcome.outgoing),
        vec![(0, MessageType::UserList { room: s("nowhere"), users: vec![] })]
    );
}

#[test]
fn list_rooms_names_rooms_in_creation_order_and_keeps_empty_rooms() {
    let mut server = ChatServer::new();
    let mut alice = connect(&mut server, "alice", 1);
    let outcome = step(&mut server, &mut alice, 1, MessageType::ListRooms);
    assert_eq!(sent(&outcome.outgoing), vec![(1, MessageType::RoomList { rooms: vec![] })]);
    join(&mut server, &mut alice, 1, "zeta");
    join(&mut server, &mut alice, 1, "alpha");
    let outcome = step(&mut server, &mut alice, 1, MessageType::ListRooms);
    assert_eq!(
        sent(&outcome.outgoing),
        vec![(1, MessageType::RoomList { rooms: vec![s("zeta"), s("alpha")] })]
    );
    assert_eq!(server.list_users(&s("zeta")), Vec::<String>::new());
    assert_eq!(server.list_rooms(), vec![s("zeta"), s("alpha")]);
}

#[test]
fn disconnect_removes_the_user_everywhere_and_tells_the_room() {
    let mut server = ChatServer::new();
    let mut alice = connect(&mut server, "alice", 1);
    let mut bob = connect(&mut server, "bob", 2);
    let mut carol = connect(&mut server, "carol", 3);
    join(&mut server, &mut alice, 1, "general");
    join(&mut server, &mut bob, 2, "general");
    join(&mut server, &mut carol, 3, "general");

    let outcome =
        server.handle_client(SessionEvent::Received(request(MessageType::Disconnect)), &mut bob, 2, 0);
    assert!(!outcome.keep_open);
    let left = MessageType::UserLeft { room: s("general"), username: s("bob") };
    assert_eq!(sent(&outcome.outgoing), vec![(1, left.clone()), (3, left)]);
    assert_eq!(bob, None);
    assert!(!server.has_user(&s("bob")));
    assert_eq!(server.get_connection(&s("bob")), None);
    assert_eq!(server.current_room(&s("bob")), None);
    assert_eq!(server.list_users(&s("general")), vec![s("alice"), s("carol")]);
    assert_eq!(server.get_connection(&s("alice")), Some(1));
    assert_eq!(server.get_connection(&s("carol")), Some(3));

    // closing again does nothing
    let again = server.close_session(&mut bob);
    assert!(again.is_empty());
    assert_eq!(server.list_users(&s("general")), vec![s("alice"), s("carol")]);
}

#[test]
fn failed_stream_closes_the_session_and_cleans_up() {
    let mut server = ChatServer::new();
    let mut alice = connect(&mut server, "alice", 1);
    let mut bob = connect(&mut server, "bob", 2);
    join(&mut server, &mut alice, 1, "general");
    join(&mut server, &mut bob, 2, "general");
    for error in [CodecError::ConnectionClosed, CodecError::MalformedMessage] {
        let mut user = connect(&mut server, "eve", 9);
        join(&mut server, &mut user, 9, "general");
        let outcome = server.handle_client(SessionEvent::Failed(error), &mut user, 9, 0);
        assert!(!outcome.keep_open);
        let left = MessageType::UserLeft { room: s("general"), username: s("eve") };
        assert_eq!(sent(&outcome.outgoing), vec![(1, left.clone()), (2, left)]);
        assert!(!server.has_user(&s("eve")));
    }
    let mut nobody = None;
    let outcome =
        server.handle_client(SessionEvent::Failed(CodecError::ConnectionClosed), &mut nobody, 7, 0);
    assert!(!outcome.keep_open);
    assert!(outcome.outgoing.is_empty());
}

#[test]
fn disconnect_of_a_user_in_no_room_tells_nobody() {
    let mut server = ChatServer::new();
    let mut alice = connect(&mut server, "alice", 1);
    let sent_on_close = server.close_session(&mut alice);
    assert!(sent_on_close.is_empty());
    assert!(!server.has_user(&s("alice")));
}

#[test]
fn unauthenticated_session_is_served_connect_only() {
    let mut server = ChatServer::new();
    let not_connected = MessageType::Error { message: s("not connected") };
    for message_type in [
        MessageType::JoinRoom { room: s("general") },
        MessageType::SendMessage { room: s("general"), content: s("hi") },
        MessageType::ListRooms,
        MessageType::ListUsers { room: s("general") },
        MessageType::RoomList { rooms: vec![] },
    ] {
        let mut user = None;
        let outcome = step(&mut server, &mut user, 5, message_type);
        assert!(outcome.keep_open);
        assert_eq!(sent(&outcome.outgoing), vec![(5, not_connected.clone())]);
        assert_eq!(user, None);
    }
    assert!(server.list_rooms().is_empty());
    let mut user = None;
    let outcome = step(&mut server, &mut user, 5, MessageType::Disconnect);
    assert!(!outcome.keep_open);
    assert!(outcome.outgoing.is_empty());
}

#[test]
fn message_that_only_a_server_sends_is_refused() {
    let mut server = ChatServer::new();
    let mut alice = connect(&mut server, "alice", 1);
    for message_type in [
        MessageType::ConnectAck { success: true, message: s("") },
        MessageType::JoinRoomAck { success: true, room: s("r"), message: s("") },
        MessageType::MessageBroadcast {
            room: s("r"),
            username: s("u"),
            content: s("c"),
            timestamp: 1,
        },
        MessageType::RoomList { rooms: vec![] },
        MessageType::UserList { room: s("r"), users: vec![] },
        MessageType::Error { message: s("") },
        MessageType::UserJoined { room: s("r"), username: s("u") },
        MessageType::UserLeft { room: s("r"), username: s("u") },
    ] {
        let outcome = step(&mut server, &mut alice, 1, message_type);
        assert!(outcome.keep_open);
        assert_eq!(
            sent(&outcome.outgoing),
            vec![(1, MessageType::Error { message: s("Message non supporté") })]
        );
    }
}

#[test]
fn registry_operations_are_safe_on_absent_users() {
    let mut server = ChatServer::new();
    server.remove_user(&s("ghost"));
    assert!(!server.join_room(&s("ghost"), &s("general")));
    assert!(server.list_rooms().is_empty());
    assert_eq!(server.get_connection(&s("ghost")), None);
    assert!(server.add_user(s("alice"), 11));
    assert!(!server.add_user(s("alice"), 12));
    assert_eq!(server.get_connection(&s("alice")), Some(11));
    assert!(server.join_room(&s("alice"), &s("general")));
    assert_eq!(server.list_users(&s("general")), vec![s("alice")]);
    server.remove_user(&s("alice"));
    server.remove_user(&s("alice"));
    assert_eq!(server.list_users(&s("general")), Vec::<String>::new());
    assert_eq!(server.list_rooms(), vec![s("general")]);
}

#[test]
fn session_of_a_name_that_is_not_registered_is_told_so() {
    let mut server = ChatServer::new();
    let mut ghost = Some(s("ghost"));
    let outcome = join(&mut server, &mut ghost, 4, "general");
    assert_eq!(
        sent(&outcome.outgoing),
        vec![(4, MessageType::Error { message: s("not connected") })]
    );
    assert!(server.list_rooms().is_empty());
    let outcome = step(
        &mut server,
        &mut ghost,
        4,
        MessageType::SendMessage { room: s("general"), content: s("x") },
    );
    assert_eq!(
        sent(&outcome.outgoing),
        vec![(4, MessageType::Error { message: s("not connected") })]
    );
}

#[test]
fn broadcast_excludes_only_the_named_user() {
    let mut server = ChatServer::new();
    for (i, name) in ["a", "b", "c"].iter().enumerate() {
        assert!(server.add_user(s(name), 10 + i as u64));
        assert!(server.join_room(&s(name), &s("room")));
    }
    let event = MessageType::Error { message: s("e") };
    let all = server.broadcast_to_room(&s("room"), &event, None);
    assert_eq!(sent(&all), vec![(10, event.clone()), (11, event.clone()), (12, event.clone())]);
    let but_b = server.broadcast_to_room(&s("room"), &event, Some(&s("b")));
    assert_eq!(sent(&but_b), vec![(10, event.clone()), (12, event.clone())]);
    let stranger = server.broadcast_to_room(&s("room"), &event, Some(&s("zed")));
    assert_eq!(stranger.len(), 3);
    let nowhere = server.broadcast_to_room(&s("void"), &event, None);
    assert!(nowhere.is_empty());
}

#[test]
fn cleanup_user_gives_the_notices_and_removes_the_user() {
    let mut server = ChatServer::new();
    assert!(server.add_user(s("a"), 1));
    assert!(server.add_user(s("b"), 2));
    server.join_room(&s("a"), &s("room"));
    server.join_room(&s("b"), &s("room"));
    let notices = server.cleanup_user(&s("a"));
    assert_eq!(
        sent(&notices),
        vec![(2, MessageType::UserLeft { room: s("room"), username: s("a") })]
    );
    assert!(!server.has_user(&s("a")));
    assert!(server.cleanup_user(&s("a")).is_empty());
}
