use netproto::chat::client::{render_event, ChatClient, ClientError};
use netproto::chat::command::{parse_command, Command};
use netproto::chat::message::MessageType;

fn s(text: &str) -> String {
    text.to_string()
}

#[test]
fn new_client_knows_nothing() {
    let client = ChatClient::new();
    assert!(!client.is_connected());
    assert_eq!(client.username(), None);
    assert_eq!(client.current_room(), None);
}

#[test]
fn requests_need_a_connection() {
    let client = ChatClient::new();
    assert_eq!(client.login_request(&s("alice")).unwrap_err(), ClientError::NotConnected);
    assert_eq!(client.join_room_request(&s("general")).unwrap_err(), ClientError::NotConnected);
    assert_eq!(client.list_rooms_request().unwrap_err(), ClientError::NotConnected);
    assert_eq!(client.send_chat_message(s("hi")).unwrap_err(), ClientError::NotInRoom);
}

#[test]
fn login_succeeds_on_a_positive_acknowledgement_only() {
    let mut client = ChatClient::new();
    client.connect();
    assert!(client.is_connected());
    assert_eq!(
        client.login_request(&s("alice")).unwrap(),
        MessageType::Connect { username: s("alice") }
    );

    let refused = MessageType::ConnectAck { success: false, message: s("pris") };
    let answer = client.login(s("alice"), &refused);
    assert!(!answer.success);
    assert_eq!(answer.notice, Some(s("pris")));
    assert_eq!(client.username(), None);

    let other = MessageType::Error { message: s("oops") };
    let answer = client.login(s("alice"), &other);
    assert!(!answer.success);
    assert_eq!(answer.notice, None);
    assert_eq!(client.username(), None);

    let welcome = MessageType::ConnectAck { success: true, message: s("Bienvenue") };
    let answer = client.login(s("alice"), &welcome);
    assert!(answer.success);
    assert_eq!(answer.notice, Some(s("Bienvenue")));
    assert_eq!(client.username(), Some(s("alice")));
    assert!(client.is_connected());
}

#[test]
fn join_and_send_follow_the_acknowledgement() {
    let mut client = ChatClient::new();
    client.connect();
    assert_eq!(client.send_chat_message(s("hi")).unwrap_err(), ClientError::NotInRoom);
    assert_eq!(
        client.join_room_request(&s("general")).unwrap(),
        MessageType::JoinRoom { room: s("general") }
    );
    let refused = MessageType::JoinRoomAck { success: false, room: s("general"), message: s("non") };
    let answer = client.join_room(s("general"), &refused);
    assert!(!answer.success);
    assert_eq!(answer.notice, Some(s("non")));
    assert_eq!(client.current_room(), None);
    let unrelated = MessageType::RoomList { rooms: vec![] };
    let answer = client.join_room(s("general"), &unrelated);
    assert!(!answer.success);
    assert_eq!(answer.notice, None);

    let ok = MessageType::JoinRoomAck { success: true, room: s("general"), message: s("oui") };
    let answer = client.join_room(s("general"), &ok);
    assert!(answer.success);
    assert_eq!(client.current_room(), Some(s("general")));
    assert_eq!(
        client.send_chat_message(s("hi")).unwrap(),
        MessageType::SendMessage { room: s("general"), content: s("hi") }
    );
}

#[test]
fn list_rooms_reads_a_room_list_only() {
    let mut client = ChatClient::new();
    client.connect();
    assert_eq!(client.list_rooms_request().unwrap(), MessageType::ListRooms);
    let list = MessageType::RoomList { rooms: vec![s("a"), s("b")] };
    assert_eq!(ChatClient::list_rooms(&list), Some(vec![s("a"), s("b")]));
    assert_eq!(ChatClient::list_rooms(&MessageType::ListRooms), None);
}

#[test]
fn disconnect_forgets_everything() {
    let mut client = ChatClient::new();
    assert_eq!(client.disconnect(), None);
    client.connect();
    client.login(s("alice"), &MessageType::ConnectAck { success: true, message: s("") });
    client.join_room(
        s("general"),
        &MessageType::JoinRoomAck { success: true, room: s("general"), message: s("") },
    );
    assert_eq!(client.disconnect(), Some(MessageType::Disconnect));
    assert!(!client.is_connected());
    assert_eq!(client.username(), None);
    assert_eq!(client.current_room(), None);
    assert_eq!(client.disconnect(), None);
}

#[test]
fn events_are_rendered_for_the_user() {
    assert_eq!(
        render_event(&MessageType::MessageBroadcast {
            room: s("general"),
            username: s("alice"),
            content: s("hi"),
            timestamp: 1,
        }),
        Some(s("[general] alice: hi"))
    );
    assert_eq!(
        render_event(&MessageType::UserJoined { room: s("general"), username: s("bob") }),
        Some(s("bob a rejoint le salon general"))
    );
    assert_eq!(
        render_event(&MessageType::UserLeft { room: s("general"), username: s("bob") }),
        Some(s("bob a quitté le salon general"))
    );
    assert_eq!(
        render_event(&MessageType::Error { message: s("not connected") }),
        Some(s("Erreur: not connected"))
    );
    assert_eq!(render_event(&MessageType::ListRooms), None);
    assert_eq!(
        render_event(&MessageType::ConnectAck { success: true, message: s("x") }),
        None
    );
}

#[test]
fn lines_are_commands_or_chat() {
    assert_eq!(parse_command(""), Command::Empty);
    assert_eq!(parse_command("hello there"), Command::Say(s("hello there")));
    assert_eq!(parse_command("héllo /join"), Command::Say(s("héllo /join")));
    assert_eq!(parse_command("/join general"), Command::Join(s("general")));
    assert_eq!(parse_command("/join salon été"), Command::Join(s("salon été")));
    assert_eq!(parse_command("/join "), Command::Join(s("")));
    assert_eq!(parse_command("/join"), Command::JoinUsage);
    assert_eq!(parse_command("/rooms"), Command::Rooms);
    assert_eq!(parse_command("/rooms now"), Command::Rooms);
    assert_eq!(parse_command("/quit"), Command::Quit);
    assert_eq!(parse_command("/quit please"), Command::Quit);
    assert_eq!(parse_command("/help me"), Command::Unknown(s("/help")));
    assert_eq!(parse_command("/joinx room"), Command::Unknown(s("/joinx")));
    assert_eq!(parse_command("/"), Command::Unknown(s("/")));
    assert_eq!(parse_command("/é x"), Command::Unknown(s("/é")));
}
