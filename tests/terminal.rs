use wesfu::{
    hello, interpret_hello_reply, interpret_reply, request_for, try_differential_update,
    AsciiConverter, ServerReply, TcpCommand, TcpCommandType, TerminalOp, UserCommand,
};

fn print(s: &str) -> TerminalOp {
    TerminalOp::Print(s.to_string())
}

#[test]
fn first_draw_clears_then_prints() {
    let mut converter = AsciiConverter::new();
    let ops = converter.update_terminal_smooth("a\nb\n", 10, 5);
    assert_eq!(
        ops,
        vec![TerminalOp::ClearScreen, TerminalOp::MoveTo(1), print("a\nb\n"), TerminalOp::Flush]
    );
}

#[test]
fn changed_lines_are_redrawn_alone() {
    let mut converter = AsciiConverter::new();
    converter.update_terminal_smooth("a\nb\n", 10, 5);
    let ops = converter.update_terminal_smooth("a\nc\n", 10, 5);
    assert_eq!(ops, vec![TerminalOp::MoveTo(2), TerminalOp::ClearLine, print("c"), TerminalOp::Flush]);
    assert_eq!(converter.update_terminal_smooth("a\nc\n", 10, 5), vec![]);
    let shorter = converter.update_terminal_smooth("a\n", 10, 5);
    assert_eq!(shorter, vec![TerminalOp::MoveTo(2), TerminalOp::ClearLine, TerminalOp::Flush]);
}

#[test]
fn resize_redraws_everything() {
    let mut converter = AsciiConverter::new();
    converter.update_terminal_smooth("a\nb\n", 10, 5);
    let ops = converter.update_terminal_smooth("a\nb\n", 11, 5);
    assert_eq!(
        ops,
        vec![TerminalOp::ClearScreen, TerminalOp::MoveTo(1), print("a\nb\n"), TerminalOp::Flush]
    );
}

#[test]
fn large_line_count_change_redraws_everything() {
    let mut converter = AsciiConverter::new();
    converter.update_terminal_smooth("1\n2\n3\n4\n5\n6\n7\n", 10, 5);
    let ops = converter.update_terminal_smooth("x\n", 10, 5);
    assert_eq!(
        ops,
        vec![
            TerminalOp::MoveTo(1),
            print("x\n"),
            TerminalOp::ClearLineBreak,
            TerminalOp::ClearLineBreak,
            TerminalOp::ClearLineBreak,
            TerminalOp::ClearLineBreak,
            TerminalOp::ClearLineBreak,
            TerminalOp::ClearLineBreak,
            TerminalOp::Flush,
        ]
    );
}

#[test]
fn differential_plan_limits() {
    assert_eq!(try_differential_update("a\nb\nc\nd\ne\nf\ng\n", "a\n"), None);
    assert_eq!(
        try_differential_update("a\nb\nc\nd\ne\nf\n", "a\n"),
        Some(vec![
            TerminalOp::MoveTo(2),
            TerminalOp::ClearLine,
            TerminalOp::MoveTo(3),
            TerminalOp::ClearLine,
            TerminalOp::MoveTo(4),
            TerminalOp::ClearLine,
            TerminalOp::MoveTo(5),
            TerminalOp::ClearLine,
            TerminalOp::MoveTo(6),
            TerminalOp::ClearLine,
            TerminalOp::Flush,
        ])
    );
    assert_eq!(try_differential_update("same", "same"), Some(vec![]));
}

#[test]
fn requests_for_user_commands() {
    assert_eq!(
        request_for(&UserCommand::ListUsers),
        Some(TcpCommand::Simple(TcpCommandType::GetActiveUsers))
    );
    assert_eq!(
        request_for(&UserCommand::JoinRoom("r1".to_string())),
        Some(TcpCommand::WithStringPayload {
            command_type: TcpCommandType::JoinRoom,
            payload: "r1".to_string()
        })
    );
    assert_eq!(request_for(&UserCommand::KeepAlive), None);
    assert_eq!(request_for(&UserCommand::Close), None);
}

#[test]
fn replies_are_interpreted_against_the_request() {
    let rooms = TcpCommand::WithMultiStringPayload {
        command_type: TcpCommandType::ReturnRooms,
        payload: vec!["r1".to_string()],
    };
    assert_eq!(
        interpret_reply(&UserCommand::ListRooms, rooms.clone()),
        ServerReply::Rooms(vec!["r1".to_string()])
    );
    assert_eq!(interpret_reply(&UserCommand::ListUsers, rooms), ServerReply::Unexpected);
    assert_eq!(
        interpret_reply(
            &UserCommand::JoinRoom("r1".to_string()),
            TcpCommand::WithStreamIDPayload { command_type: TcpCommandType::JoinRoomSuccess, payload: 4 }
        ),
        ServerReply::Joined(4)
    );
    assert_eq!(
        interpret_reply(
            &UserCommand::DeleteRoom("r1".to_string()),
            TcpCommand::WithStringPayload {
                command_type: TcpCommandType::InvalidRoomName,
                payload: "no".to_string()
            }
        ),
        ServerReply::Refused("no".to_string())
    );
    assert_eq!(
        interpret_reply(
            &UserCommand::CreateRoom("r1".to_string()),
            TcpCommand::Simple(TcpCommandType::CreateRoomSuccess)
        ),
        ServerReply::RoomCreated
    );
}

#[test]
fn hello_reply() {
    assert_eq!(
        hello("alice".to_string()),
        TcpCommand::WithStringPayload {
            command_type: TcpCommandType::HelloFromClient,
            payload: "alice".to_string()
        }
    );
    assert_eq!(
        interpret_hello_reply(TcpCommand::Simple(TcpCommandType::HelloFromServer)),
        ServerReply::Welcome
    );
    assert_eq!(
        interpret_hello_reply(TcpCommand::WithStringPayload {
            command_type: TcpCommandType::InvalidUsername,
            payload: "taken".to_string()
        }),
        ServerReply::Refused("taken".to_string())
    );
    assert_eq!(
        interpret_hello_reply(TcpCommand::Simple(TcpCommandType::GetRooms)),
        ServerReply::Unexpected
    );
}
