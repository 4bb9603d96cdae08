use wesfu::{CallHandler, UserCommand, UserInputHandler};

fn parse(line: &str) -> (UserCommand, Option<String>) {
    UserInputHandler::handle(line)
}

#[test]
fn blank_line_keeps_alive() {
    assert_eq!(parse("   "), (UserCommand::KeepAlive, None));
    assert_eq!(parse(""), (UserCommand::KeepAlive, None));
}

#[test]
fn simple_commands() {
    assert_eq!(parse("list users"), (UserCommand::ListUsers, None));
    assert_eq!(parse("  list rooms\n"), (UserCommand::ListRooms, None));
    assert_eq!(parse("exit"), (UserCommand::Close, None));
}

#[test]
fn room_commands() {
    assert_eq!(parse("create room r1"), (UserCommand::CreateRoom("r1".to_string()), None));
    assert_eq!(parse("join room lobby "), (UserCommand::JoinRoom("lobby".to_string()), None));
    assert_eq!(parse("delete room r1"), (UserCommand::DeleteRoom("r1".to_string()), None));
}

#[test]
fn room_commands_need_one_name() {
    assert_eq!(
        parse("create room"),
        (UserCommand::KeepAlive, Some("Usage: create room <name>".to_string()))
    );
    assert_eq!(
        parse("create room a b"),
        (UserCommand::KeepAlive, Some("Usage: create room <name>".to_string()))
    );
    assert_eq!(
        parse("join room  a"),
        (UserCommand::KeepAlive, Some("Usage: join room <name>".to_string()))
    );
    assert_eq!(
        parse("delete room"),
        (UserCommand::KeepAlive, Some("Usage: delete room <name>".to_string()))
    );
}

#[test]
fn unknown_command() {
    assert_eq!(parse("dance"), (UserCommand::KeepAlive, Some("Unknown command".to_string())));
    assert_eq!(
        UserInputHandler::parse_trimmed(" exit"),
        (UserCommand::KeepAlive, Some("Unknown command".to_string()))
    );
}

#[test]
fn peers_follow_join_and_leave() {
    let mut call = CallHandler::new();
    call.on_datagram(&[3, 9, 9]);
    assert!(call.frames().is_empty());
    call.on_user_joined(3);
    call.on_user_joined(5);
    assert_eq!(call.frames(), vec![Vec::<u8>::new(), vec![]]);
    call.on_datagram(&[3, 1, 2]);
    call.on_datagram(&[5, 7]);
    assert_eq!(call.frames(), vec![vec![1, 2], vec![7]]);
    call.on_datagram(&[3, 4]);
    assert_eq!(call.frames(), vec![vec![4], vec![7]]);
    call.on_user_joined(3);
    assert_eq!(call.frames(), vec![vec![], vec![7]]);
    call.on_user_left(3);
    assert_eq!(call.frames(), vec![vec![7]]);
    call.on_datagram(&[3, 1]);
    call.on_datagram(&[]);
    assert_eq!(call.frames(), vec![vec![7]]);
}
