use wesfu::{
    check_name, is_valid_room_name, is_valid_username, TcpHandler, CreateRoomError,
    DeleteRoomError, JoinError, NameError, RegisterError, Registry, SessionOutput, SessionState,
    TcpCommand, TcpCommandType, UdpHandler,
};

fn text(t: TcpCommandType, s: &str) -> TcpCommand {
    TcpCommand::WithStringPayload { command_type: t, payload: s.to_string() }
}

fn s(x: &str) -> String {
    x.to_string()
}

fn connect(registry: &mut Registry, name: &str) -> TcpHandler {
    let mut session = TcpHandler::new();
    let out = session.on_command(registry, text(TcpCommandType::HelloFromClient, name));
    assert_eq!(out.replies, vec![TcpCommand::Simple(TcpCommandType::HelloFromServer)]);
    assert_eq!(session.state_of(), SessionState::Idle);
    session
}

fn sid_of(out: &SessionOutput) -> u8 {
    match &out.replies[0] {
        TcpCommand::WithStreamIDPayload { command_type: TcpCommandType::JoinRoomSuccess, payload } => {
            *payload
        }
        other => panic!("expected JoinRoomSuccess, got {:?}", other),
    }
}

#[test]
fn hello_happy_path() {
    let mut registry = Registry::new();
    let mut session = TcpHandler::new();
    let out = session.on_command(&mut registry, text(TcpCommandType::HelloFromClient, "alice"));
    assert_eq!(out.replies, vec![TcpCommand::Simple(TcpCommandType::HelloFromServer)]);
    assert!(out.notices.is_empty());
    assert_eq!(session.state_of(), SessionState::Idle);
    assert_eq!(registry.list_users(), vec![s("alice")]);
}

#[test]
fn duplicate_username() {
    let mut registry = Registry::new();
    let _alice = connect(&mut registry, "alice");
    let mut second = TcpHandler::new();
    let out = second.on_command(&mut registry, text(TcpCommandType::HelloFromClient, "alice"));
    assert_eq!(
        out.replies,
        vec![text(TcpCommandType::InvalidUsername, "Username 'alice' is already taken.")]
    );
    assert_eq!(second.state_of(), SessionState::Closed);
    assert_eq!(registry.list_users(), vec![s("alice")]);
    // Tearing down the refused connection leaves the live user alone.
    let out = second.handle_disconnect_user(&mut registry);
    assert!(out.notices.is_empty());
    assert_eq!(registry.list_users(), vec![s("alice")]);
}

#[test]
fn invalid_usernames_close() {
    let mut registry = Registry::new();
    let mut a = TcpHandler::new();
    let out = a.on_command(&mut registry, text(TcpCommandType::HelloFromClient, "bad name"));
    assert_eq!(
        out.replies,
        vec![text(
            TcpCommandType::InvalidUsername,
            "Username must contain only letters, numbers, underscores (_), or hyphens (-)."
        )]
    );
    assert_eq!(a.state_of(), SessionState::Closed);
    let mut b = TcpHandler::new();
    let out = b.on_command(&mut registry, text(TcpCommandType::HelloFromClient, &"a".repeat(21)));
    assert_eq!(
        out.replies,
        vec![text(TcpCommandType::InvalidUsername, "Username must be less than or equal to 20 characters.")]
    );
    let mut c = TcpHandler::new();
    let out = c.on_command(&mut registry, text(TcpCommandType::HelloFromClient, ""));
    assert_eq!(out.replies, vec![text(TcpCommandType::InvalidUsername, "Username must not be empty.")]);
    assert!(registry.list_users().is_empty());
}

#[test]
fn first_command_must_be_hello() {
    let mut registry = Registry::new();
    let mut session = TcpHandler::new();
    let out = session.on_command(&mut registry, TcpCommand::Simple(TcpCommandType::GetRooms));
    assert_eq!(
        out.replies,
        vec![text(TcpCommandType::InvalidUsername, "Expected a hello with a user name.")]
    );
    assert_eq!(session.state_of(), SessionState::Closed);
    assert!(registry.list_users().is_empty());
}

#[test]
fn name_rules() {
    assert!(is_valid_username("a_b-C9"));
    assert!(!is_valid_username("a b"));
    assert!(!is_valid_username(""));
    assert!(!is_valid_room_name(""));
    assert!(is_valid_room_name("r-1_x"));
    assert!(!is_valid_room_name("r!"));
    assert_eq!(check_name("r1"), None);
    assert_eq!(check_name(""), Some(NameError::Empty));
    assert_eq!(check_name("abcdefghijklmnopqrstu"), Some(NameError::TooLong));
    assert_eq!(check_name("abcdefghijklmnopqrst"), None);
    assert_eq!(check_name("é"), Some(NameError::InvalidCharacters));
}

#[test]
fn room_lifecycle() {
    let mut registry = Registry::new();
    let mut alice = connect(&mut registry, "alice");
    let mut bob = connect(&mut registry, "bob");
    let out = alice.on_command(&mut registry, text(TcpCommandType::CreateRoom, "r1"));
    assert_eq!(out.replies, vec![TcpCommand::Simple(TcpCommandType::CreateRoomSuccess)]);
    let out = alice.on_command(&mut registry, TcpCommand::Simple(TcpCommandType::GetRooms));
    assert_eq!(
        out.replies,
        vec![TcpCommand::WithMultiStringPayload {
            command_type: TcpCommandType::ReturnRooms,
            payload: vec![s("r1")],
        }]
    );

    let bob_join = bob.on_command(&mut registry, text(TcpCommandType::JoinRoom, "r1"));
    assert_eq!(bob_join.replies.len(), 1);
    let bob_sid = sid_of(&bob_join);
    assert!(bob_join.notices.is_empty());
    assert_eq!(bob.state_of(), SessionState::InCall);

    let alice_join = alice.on_command(&mut registry, text(TcpCommandType::JoinRoom, "r1"));
    let alice_sid = sid_of(&alice_join);
    assert_ne!(alice_sid, bob_sid);
    assert_eq!(alice_join.replies.len(), 2);
    let rsid_bob = match &alice_join.replies[1] {
        TcpCommand::WithRoomStreamIDPayload {
            command_type: TcpCommandType::OtherUserJoinedRoom,
            payload,
        } => *payload,
        other => panic!("unexpected {:?}", other),
    };
    assert_eq!(alice_join.notices.len(), 1);
    assert_eq!(alice_join.notices[0].0, "bob");
    let rsid_alice = match &alice_join.notices[0].1 {
        TcpCommand::WithRoomStreamIDPayload {
            command_type: TcpCommandType::OtherUserJoinedRoom,
            payload,
        } => *payload,
        other => panic!("unexpected {:?}", other),
    };
    assert_ne!(rsid_alice, rsid_bob);

    // Bob's session relays the notice to Bob.
    let relayed = bob.on_notification(alice_join.notices[0].1.clone());
    assert_eq!(relayed.replies, vec![alice_join.notices[0].1.clone()]);
    // During the call, further requests are ignored.
    let ignored = bob.on_command(&mut registry, TcpCommand::Simple(TcpCommandType::GetRooms));
    assert!(ignored.replies.is_empty());
}

#[test]
fn notifications_are_dropped_outside_a_call() {
    let mut registry = Registry::new();
    let alice = connect(&mut registry, "alice");
    let out = alice.on_notification(TcpCommand::WithRoomStreamIDPayload {
        command_type: TcpCommandType::OtherUserLeftRoom,
        payload: 1,
    });
    assert!(out.replies.is_empty());
}

#[test]
fn create_room_errors() {
    let mut registry = Registry::new();
    let mut alice = connect(&mut registry, "alice");
    alice.on_command(&mut registry, text(TcpCommandType::CreateRoom, "r1"));
    let out = alice.on_command(&mut registry, text(TcpCommandType::CreateRoom, "r1"));
    assert_eq!(out.replies, vec![text(TcpCommandType::InvalidRoomName, "Room: 'r1' already exists.")]);
    let out = alice.on_command(&mut registry, text(TcpCommandType::CreateRoom, "r 1"));
    assert_eq!(
        out.replies,
        vec![text(
            TcpCommandType::InvalidRoomName,
            "Room name must contain only letters, numbers, underscores (_), or hyphens (-)."
        )]
    );
    let out = alice.on_command(&mut registry, text(TcpCommandType::CreateRoom, &"r".repeat(21)));
    assert_eq!(
        out.replies,
        vec![text(TcpCommandType::InvalidRoomName, "Room name must be less than or equal to 20 characters.")]
    );
    assert_eq!(registry.list_rooms(), vec![s("r1")]);
}

#[test]
fn delete_while_in_use() {
    let mut registry = Registry::new();
    let mut alice = connect(&mut registry, "alice");
    let mut bob = connect(&mut registry, "bob");
    let mut carol = connect(&mut registry, "carol");
    carol.on_command(&mut registry, text(TcpCommandType::CreateRoom, "r1"));
    alice.on_command(&mut registry, text(TcpCommandType::JoinRoom, "r1"));
    bob.on_command(&mut registry, text(TcpCommandType::JoinRoom, "r1"));
    let out = carol.on_command(&mut registry, text(TcpCommandType::DeleteRoom, "r1"));
    assert_eq!(
        out.replies,
        vec![text(
            TcpCommandType::InvalidRoomName,
            "Room 'r1' is in use and cannot be deleted at this time."
        )]
    );
    let left = alice.handle_disconnect_user(&mut registry);
    assert_eq!(left.notices.len(), 1);
    assert_eq!(left.notices[0].0, "bob");
    bob.handle_disconnect_user(&mut registry);
    let out = carol.on_command(&mut registry, text(TcpCommandType::DeleteRoom, "r1"));
    assert_eq!(out.replies, vec![TcpCommand::Simple(TcpCommandType::DeleteRoomSuccess)]);
    let out = carol.on_command(&mut registry, text(TcpCommandType::DeleteRoom, "r1"));
    assert_eq!(out.replies, vec![text(TcpCommandType::InvalidRoomName, "Room: 'r1' does not exist.")]);
    assert_eq!(registry.list_users(), vec![s("carol")]);
}

#[test]
fn join_missing_room() {
    let mut registry = Registry::new();
    let mut alice = connect(&mut registry, "alice");
    let out = alice.on_command(&mut registry, text(TcpCommandType::JoinRoom, "nowhere"));
    assert_eq!(out.replies, vec![text(TcpCommandType::InvalidJoinRoom, "Room not found")]);
    assert_eq!(alice.state_of(), SessionState::Idle);
}

#[test]
fn unhandled_request_closes() {
    let mut registry = Registry::new();
    let mut alice = connect(&mut registry, "alice");
    let out = alice.on_command(&mut registry, TcpCommand::Simple(TcpCommandType::HelloFromServer));
    assert!(out.replies.is_empty());
    assert_eq!(alice.state_of(), SessionState::Closed);
}

#[test]
fn active_users_listed_in_order() {
    let mut registry = Registry::new();
    let mut alice = connect(&mut registry, "alice");
    let _bob = connect(&mut registry, "bob");
    let out = alice.on_command(&mut registry, TcpCommand::Simple(TcpCommandType::GetActiveUsers));
    assert_eq!(
        out.replies,
        vec![TcpCommand::WithMultiStringPayload {
            command_type: TcpCommandType::ReturnActiveUsers,
            payload: vec![s("alice"), s("bob")],
        }]
    );
}

#[test]
fn leave_notifies_each_remaining_member_once() {
    let mut registry = Registry::new();
    let mut a = connect(&mut registry, "a");
    let mut b = connect(&mut registry, "b");
    let mut c = connect(&mut registry, "c");
    a.on_command(&mut registry, text(TcpCommandType::CreateRoom, "r"));
    let ja = a.on_command(&mut registry, text(TcpCommandType::JoinRoom, "r"));
    b.on_command(&mut registry, text(TcpCommandType::JoinRoom, "r"));
    c.on_command(&mut registry, text(TcpCommandType::JoinRoom, "r"));
    assert_eq!(ja.replies.len(), 1);
    let out = b.handle_disconnect_user(&mut registry);
    let mut names: Vec<String> = out.notices.iter().map(|n| n.0.clone()).collect();
    names.sort();
    assert_eq!(names, vec![s("a"), s("c")]);
    assert!(out.notices.iter().all(|n| matches!(
        n.1,
        TcpCommand::WithRoomStreamIDPayload { command_type: TcpCommandType::OtherUserLeftRoom, .. }
    )));
    assert_eq!(b.state_of(), SessionState::Closed);
    assert_eq!(registry.list_users(), vec![s("a"), s("c")]);
}

#[test]
fn registry_errors() {
    let mut registry = Registry::new();
    assert_eq!(registry.register_user(&s("x y")), Err(RegisterError::Name(NameError::InvalidCharacters)));
    assert_eq!(registry.register_user(&s("alice")), Ok(()));
    assert_eq!(registry.register_user(&s("alice")), Err(RegisterError::Taken));
    assert_eq!(registry.create_room(&s("")), Err(CreateRoomError::Name(NameError::Empty)));
    assert_eq!(registry.create_room(&s("r1")), Ok(()));
    assert_eq!(registry.create_room(&s("r1")), Err(CreateRoomError::Exists));
    assert_eq!(registry.delete_room(&s("zz")), Err(DeleteRoomError::NotFound));
    assert_eq!(registry.join_room(&s("zz"), &s("alice")).err(), Some(JoinError::RoomNotFound));
    assert_eq!(registry.join_room(&s("r1"), &s("ghost")).err(), Some(JoinError::UserUnavailable));
    let joined = registry.join_room_with(&s("r1"), &s("alice"), 5, 6).ok().unwrap();
    assert_eq!((joined.sid, joined.rsid), (5, 6));
    assert!(joined.existing.is_empty());
    assert_eq!(registry.join_room(&s("r1"), &s("alice")).err(), Some(JoinError::UserUnavailable));
    assert_eq!(registry.register_user(&s("bob")), Ok(()));
    assert_eq!(registry.join_room_with(&s("r1"), &s("bob"), 5, 7).err(), Some(JoinError::StreamIdTaken));
    assert_eq!(registry.join_room_with(&s("r1"), &s("bob"), 8, 6).err(), Some(JoinError::RoomStreamIdTaken));
    let bob = registry.join_room_with(&s("r1"), &s("bob"), 8, 7).ok().unwrap();
    assert_eq!(bob.existing, vec![(s("alice"), 6)]);
    assert_eq!(registry.delete_room(&s("r1")), Err(DeleteRoomError::InUse));
    let notices = registry.deregister_user(&s("alice"));
    assert_eq!(notices, vec![(s("bob"), 6)]);
    assert_eq!(registry.deregister_user(&s("alice")), vec![]);
}

#[test]
fn forward_path() {
    let mut registry = Registry::new();
    registry.register_user(&s("alice")).unwrap();
    registry.register_user(&s("bob")).unwrap();
    registry.create_room(&s("r1")).unwrap();
    registry.join_room_with(&s("r1"), &s("bob"), 0xB0, 2).ok().unwrap();
    registry.join_room_with(&s("r1"), &s("alice"), 0xA0, 1).ok().unwrap();
    let mut relay: UdpHandler<u32> = UdpHandler::new();
    let payload: Vec<u8> = (0..1288u32).map(|i| (i % 251) as u8).collect();

    // Bob's address is learned from his own datagram, which goes to nobody yet.
    let mut from_bob = vec![0xB0];
    from_bob.extend_from_slice(&payload);
    assert!(relay.handle_datagram(&registry, 2000, &from_bob).is_empty());

    let mut from_alice = vec![0xA0];
    from_alice.extend_from_slice(&payload);
    let sends = relay.handle_datagram(&registry, 1000, &from_alice);
    let mut expected = vec![1u8];
    expected.extend_from_slice(&payload);
    assert_eq!(sends, vec![(2000, expected)]);
    assert_eq!(relay.endpoint(&s("alice")), Some(1000));

    // An unknown stream identifier is dropped and nothing is learned.
    assert!(relay.handle_datagram(&registry, 3000, &[0x55, 1, 2]).is_empty());
    // Too short.
    assert!(relay.handle_datagram(&registry, 1000, &[0xA0]).is_empty());

    // After Alice leaves, her stream identifier routes nothing.
    registry.deregister_user(&s("alice"));
    assert!(relay.handle_datagram(&registry, 1000, &from_alice).is_empty());
}
