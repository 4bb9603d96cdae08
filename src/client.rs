use vstd::prelude::*;

use crate::command::{strings_view, CommandModel, StreamID, TcpCommand};
use crate::command_type::TcpCommandType;
use crate::user_input::{UserCommand, UserCommandView};

verus! {

/// What a reply from the server means to the client.
#[derive(Debug, Clone, PartialEq, Eq)]
pub enum ServerReply {
    /// The server accepted the user name.
    Welcome,
    /// The connected users.
    Users(Vec<String>),
    /// The rooms.
    Rooms(Vec<String>),
    /// The room was created.
    RoomCreated,
    /// The room was deleted.
    RoomDeleted,
    /// The call starts, under this stream identifier.
    Joined(StreamID),
    /// The request was refused, for the reason given.
    Refused(String),
    /// A reply that does not answer the request.
    Unexpected,
}

/// The content of a server reply.
pub enum ServerReplyView {
    Welcome,
    Users(Seq<Seq<char>>),
    Rooms(Seq<Seq<char>>),
    RoomCreated,
    RoomDeleted,
    Joined(u8),
    Refused(Seq<char>),
    Unexpected,
}

impl View for ServerReply {
    type V = ServerReplyView;

    open spec fn view(&self) -> ServerReplyView {
        match self {
            ServerReply::Welcome => ServerReplyView::Welcome,
            ServerReply::Users(u) => ServerReplyView::Users(strings_view(u@)),
            ServerReply::Rooms(r) => ServerReplyView::Rooms(strings_view(r@)),
            ServerReply::RoomCreated => ServerReplyView::RoomCreated,
            ServerReply::RoomDeleted => ServerReplyView::RoomDeleted,
            ServerReply::Joined(s) => ServerReplyView::Joined(*s),
            ServerReply::Refused(m) => ServerReplyView::Refused(m@),
            ServerReply::Unexpected => ServerReplyView::Unexpected,
        }
    }
}

/// The request that a user command sends, if it sends one.
pub open spec fn request_model(c: UserCommandView) -> Option<CommandModel> {
    match c {
        UserCommandView::ListUsers => Some(CommandModel::Simple(TcpCommandType::GetActiveUsers)),
        UserCommandView::ListRooms => Some(CommandModel::Simple(TcpCommandType::GetRooms)),
        UserCommandView::CreateRoom(n) => Some(CommandModel::Text(TcpCommandType::CreateRoom, n)),
        UserCommandView::DeleteRoom(n) => Some(CommandModel::Text(TcpCommandType::DeleteRoom, n)),
        UserCommandView::JoinRoom(n) => Some(CommandModel::Text(TcpCommandType::JoinRoom, n)),
        _ => None,
    }
}

/// What the reply to the hello means.
pub open spec fn hello_reply_model(reply: CommandModel) -> ServerReplyView {
    match reply {
        CommandModel::Simple(TcpCommandType::HelloFromServer) => ServerReplyView::Welcome,
        CommandModel::Text(TcpCommandType::InvalidUsername, m) => ServerReplyView::Refused(m),
        _ => ServerReplyView::Unexpected,
    }
}

/// What the reply to the request of user command `c` means: the answer the
/// request expects, a refusal where the request can be refused, else nothing
/// that answers it.
pub open spec fn reply_model(c: UserCommandView, reply: CommandModel) -> ServerReplyView {
    match (c, reply) {
        (
            UserCommandView::ListUsers,
            CommandModel::TextList(TcpCommandType::ReturnActiveUsers, u),
        ) => ServerReplyView::Users(u),
        (UserCommandView::ListRooms, CommandModel::TextList(TcpCommandType::ReturnRooms, r)) =>
            ServerReplyView::Rooms(r),
        (UserCommandView::CreateRoom(_), CommandModel::Simple(TcpCommandType::CreateRoomSuccess)) =>
            ServerReplyView::RoomCreated,
        (UserCommandView::CreateRoom(_), CommandModel::Text(TcpCommandType::InvalidRoomName, m)) =>
            ServerReplyView::Refused(m),
        (UserCommandView::DeleteRoom(_), CommandModel::Simple(TcpCommandType::DeleteRoomSuccess)) =>
            ServerReplyView::RoomDeleted,
        (UserCommandView::DeleteRoom(_), CommandModel::Text(TcpCommandType::InvalidRoomName, m)) =>
            ServerReplyView::Refused(m),
        (UserCommandView::JoinRoom(_), CommandModel::Stream(TcpCommandType::JoinRoomSuccess, s)) =>
            ServerReplyView::Joined(s),
        (UserCommandView::JoinRoom(_), CommandModel::Text(TcpCommandType::InvalidJoinRoom, m)) =>
            ServerReplyView::Refused(m),
        _ => ServerReplyView::Unexpected,
    }
}

/// The hello that introduces the client under `username`.
pub fn hello(username: String) -> (r: TcpCommand)
    ensures
        r@ == CommandModel::Text(TcpCommandType::HelloFromClient, username@),
{
    TcpCommand::WithStringPayload { command_type: TcpCommandType::HelloFromClient, payload: username }
}

/// The request that a user command sends to the server, if any.
pub fn request_for(command: &UserCommand) -> (r: Option<TcpCommand>)
    ensures
        match r {
            Some(c) => request_model(command@) == Some(c@),
            None => request_model(command@) is None,
        },
{
    match command {
        UserCommand::ListUsers => Some(TcpCommand::Simple(TcpCommandType::GetActiveUsers)),
        UserCommand::ListRooms => Some(TcpCommand::Simple(TcpCommandType::GetRooms)),
        UserCommand::CreateRoom(n) => Some(
            TcpCommand::WithStringPayload {
                command_type: TcpCommandType::CreateRoom,
                payload: n.clone(),
            },
        ),
        UserCommand::DeleteRoom(n) => Some(
            TcpCommand::WithStringPayload {
                command_type: TcpCommandType::DeleteRoom,
                payload: n.clone(),
            },
        ),
        UserCommand::JoinRoom(n) => Some(
            TcpCommand::WithStringPayload { command_type: TcpCommandType::JoinRoom, payload: n.clone() },
        ),
        _ => None,
    }
}

/// What the server's reply to the hello means.
pub fn interpret_hello_reply(reply: TcpCommand) -> (r: ServerReply)
    ensures
        r@ == hello_reply_model(reply@),
{
    match reply {
        TcpCommand::Simple(TcpCommandType::HelloFromServer) => ServerReply::Welcome,
        TcpCommand::WithStringPayload { command_type: TcpCommandType::InvalidUsername, payload } =>
            ServerReply::Refused(payload),
        _ => ServerReply::Unexpected,
    }
}

/// What the server's reply to the request of `command` means.
pub fn interpret_reply(command: &UserCommand, reply: TcpCommand) -> (r: ServerReply)
    ensures
        r@ == reply_model(command@, reply@),
{
    match (command, reply) {
        (
            UserCommand::ListUsers,
            TcpCommand::WithMultiStringPayload {
                command_type: TcpCommandType::ReturnActiveUsers,
                payload,
            },
        ) => ServerReply::Users(payload),
        (
            UserCommand::ListRooms,
            TcpCommand::WithMultiStringPayload { command_type: TcpCommandType::ReturnRooms, payload },
        ) => ServerReply::Rooms(payload),
        (UserCommand::CreateRoom(_), TcpCommand::Simple(TcpCommandType::CreateRoomSuccess)) =>
            ServerReply::RoomCreated,
        (
            UserCommand::CreateRoom(_),
            TcpCommand::WithStringPayload { command_type: TcpCommandType::InvalidRoomName, payload },
        ) => ServerReply::Refused(payload),
        (UserCommand::DeleteRoom(_), TcpCommand::Simple(TcpCommandType::DeleteRoomSuccess)) =>
            ServerReply::RoomDeleted,
        (
            UserCommand::DeleteRoom(_),
            TcpCommand::WithStringPayload { command_type: TcpCommandType::InvalidRoomName, payload },
        ) => ServerReply::Refused(payload),
        (
            UserCommand::JoinRoom(_),
            TcpCommand::WithStreamIDPayload { command_type: TcpCommandType::JoinRoomSuccess, payload },
        ) => ServerReply::Joined(payload),
        (
            UserCommand::JoinRoom(_),
            TcpCommand::WithStringPayload { command_type: TcpCommandType::InvalidJoinRoom, payload },
        ) => ServerReply::Refused(payload),
        _ => ServerReply::Unexpected,
    }
}

} // verus!
