use vstd::prelude::*;

verus! {

/// The opcodes of the control protocol, in wire order.
#[derive(Debug, Clone, Copy, PartialEq, Eq, Structural)]
pub enum TcpCommandType {
    HelloFromClient,
    HelloFromServer,
    InvalidUsername,
    GetActiveUsers,
    ReturnActiveUsers,
    CreateRoom,
    InvalidRoomName,
    CreateRoomSuccess,
    GetRooms,
    ReturnRooms,
    JoinRoom,
    JoinRoomSuccess,
    InvalidJoinRoom,
    OtherUserJoinedRoom,
    OtherUserLeftRoom,
    DeleteRoom,
    DeleteRoomSuccess,
}

/// The shape of the bytes that follow an opcode.
#[derive(Debug, Clone, Copy, PartialEq, Eq, Structural)]
pub enum TcpCommandPayloadType {
    Empty,
    SingleString,
    MultiString,
    StreamID,
    RoomStreamID,
}

/// The first opcode byte; the others follow in declaration order.
pub const FIRST_OPCODE: u8 = 0x45;

/// Number of opcodes in the protocol.
pub const OPCODE_COUNT: u8 = 17;

/// Position of a command type in the opcode table.
pub open spec fn type_index(t: TcpCommandType) -> nat {
    match t {
        TcpCommandType::HelloFromClient => 0,
        TcpCommandType::HelloFromServer => 1,
        TcpCommandType::InvalidUsername => 2,
        TcpCommandType::GetActiveUsers => 3,
        TcpCommandType::ReturnActiveUsers => 4,
        TcpCommandType::CreateRoom => 5,
        TcpCommandType::InvalidRoomName => 6,
        TcpCommandType::CreateRoomSuccess => 7,
        TcpCommandType::GetRooms => 8,
        TcpCommandType::ReturnRooms => 9,
        TcpCommandType::JoinRoom => 10,
        TcpCommandType::JoinRoomSuccess => 11,
        TcpCommandType::InvalidJoinRoom => 12,
        TcpCommandType::OtherUserJoinedRoom => 13,
        TcpCommandType::OtherUserLeftRoom => 14,
        TcpCommandType::DeleteRoom => 15,
        TcpCommandType::DeleteRoomSuccess => 16,
    }
}

/// The wire byte of a command type.
pub open spec fn opcode_of(t: TcpCommandType) -> u8 {
    (FIRST_OPCODE + type_index(t)) as u8
}

/// Whether a byte is the opcode of some command type.
pub open spec fn is_opcode(b: u8) -> bool {
    FIRST_OPCODE <= b < FIRST_OPCODE + OPCODE_COUNT
}

/// The payload kind that the protocol fixes for each opcode.
pub open spec fn payload_kind(t: TcpCommandType) -> TcpCommandPayloadType {
    match t {
        TcpCommandType::HelloFromServer | TcpCommandType::GetActiveUsers
        | TcpCommandType::CreateRoomSuccess | TcpCommandType::GetRooms
        | TcpCommandType::DeleteRoomSuccess => TcpCommandPayloadType::Empty,
        TcpCommandType::HelloFromClient | TcpCommandType::InvalidUsername
        | TcpCommandType::CreateRoom | TcpCommandType::InvalidRoomName
        | TcpCommandType::JoinRoom | TcpCommandType::InvalidJoinRoom
        | TcpCommandType::DeleteRoom => TcpCommandPayloadType::SingleString,
        TcpCommandType::ReturnActiveUsers | TcpCommandType::ReturnRooms =>
            TcpCommandPayloadType::MultiString,
        TcpCommandType::JoinRoomSuccess => TcpCommandPayloadType::StreamID,
        TcpCommandType::OtherUserJoinedRoom | TcpCommandType::OtherUserLeftRoom =>
            TcpCommandPayloadType::RoomStreamID,
    }
}

/// The command type at a position of the opcode table.
pub open spec fn type_at(i: u8) -> TcpCommandType {
    match i {
        0 => TcpCommandType::HelloFromClient,
        1 => TcpCommandType::HelloFromServer,
        2 => TcpCommandType::InvalidUsername,
        3 => TcpCommandType::GetActiveUsers,
        4 => TcpCommandType::ReturnActiveUsers,
        5 => TcpCommandType::CreateRoom,
        6 => TcpCommandType::InvalidRoomName,
        7 => TcpCommandType::CreateRoomSuccess,
        8 => TcpCommandType::GetRooms,
        9 => TcpCommandType::ReturnRooms,
        10 => TcpCommandType::JoinRoom,
        11 => TcpCommandType::JoinRoomSuccess,
        12 => TcpCommandType::InvalidJoinRoom,
        13 => TcpCommandType::OtherUserJoinedRoom,
        14 => TcpCommandType::OtherUserLeftRoom,
        15 => TcpCommandType::DeleteRoom,
        _ => TcpCommandType::DeleteRoomSuccess,
    }
}

/// The command type that an opcode byte names.
pub open spec fn type_of_opcode(b: u8) -> TcpCommandType {
    type_at((b - FIRST_OPCODE) as u8)
}

/// Every command type has an opcode, and the opcode names it back.
pub proof fn lemma_opcode_of_type(t: TcpCommandType)
    ensures
        is_opcode(opcode_of(t)),
        type_of_opcode(opcode_of(t)) == t,
{
}

/// Every opcode is the opcode of the type it names.
pub proof fn lemma_type_of_opcode(b: u8)
    requires
        is_opcode(b),
    ensures
        opcode_of(type_of_opcode(b)) == b,
{
}

impl TcpCommandType {
    pub fn payload_type(&self) -> (r: TcpCommandPayloadType)
        ensures
            r == payload_kind(*self),
    {
        match self {
            TcpCommandType::GetRooms => TcpCommandPayloadType::Empty,
            TcpCommandType::HelloFromServer => TcpCommandPayloadType::Empty,
            TcpCommandType::GetActiveUsers => TcpCommandPayloadType::Empty,
            TcpCommandType::CreateRoomSuccess => TcpCommandPayloadType::Empty,
            TcpCommandType::DeleteRoomSuccess => TcpCommandPayloadType::Empty,
            TcpCommandType::CreateRoom => TcpCommandPayloadType::SingleString,
            TcpCommandType::HelloFromClient => TcpCommandPayloadType::SingleString,
            TcpCommandType::InvalidUsername => TcpCommandPayloadType::SingleString,
            TcpCommandType::InvalidRoomName => TcpCommandPayloadType::SingleString,
            TcpCommandType::JoinRoom => TcpCommandPayloadType::SingleString,
            TcpCommandType::InvalidJoinRoom => TcpCommandPayloadType::SingleString,
            TcpCommandType::DeleteRoom => TcpCommandPayloadType::SingleString,
            TcpCommandType::ReturnRooms => TcpCommandPayloadType::MultiString,
            TcpCommandType::ReturnActiveUsers => TcpCommandPayloadType::MultiString,
            TcpCommandType::JoinRoomSuccess => TcpCommandPayloadType::StreamID,
            TcpCommandType::OtherUserJoinedRoom => TcpCommandPayloadType::RoomStreamID,
            TcpCommandType::OtherUserLeftRoom => TcpCommandPayloadType::RoomStreamID,
        }
    }

    pub fn to_byte(&self) -> (r: u8)
        ensures
            r == opcode_of(*self),
    {
        let index: u8 = match self {
            TcpCommandType::HelloFromClient => 0,
            TcpCommandType::HelloFromServer => 1,
            TcpCommandType::InvalidUsername => 2,
            TcpCommandType::GetActiveUsers => 3,
            TcpCommandType::ReturnActiveUsers => 4,
            TcpCommandType::CreateRoom => 5,
            TcpCommandType::InvalidRoomName => 6,
            TcpCommandType::CreateRoomSuccess => 7,
            TcpCommandType::GetRooms => 8,
            TcpCommandType::ReturnRooms => 9,
            TcpCommandType::JoinRoom => 10,
            TcpCommandType::JoinRoomSuccess => 11,
            TcpCommandType::InvalidJoinRoom => 12,
            TcpCommandType::OtherUserJoinedRoom => 13,
            TcpCommandType::OtherUserLeftRoom => 14,
            TcpCommandType::DeleteRoom => 15,
            TcpCommandType::DeleteRoomSuccess => 16,
        };
        FIRST_OPCODE + index
    }

    /// The command type whose opcode is `command`, if there is one.
    pub fn from_byte(command: u8) -> (r: Option<TcpCommandType>)
        ensures
            r is Some <==> is_opcode(command),
            r matches Some(t) ==> t == type_of_opcode(command),
    {
        if command < FIRST_OPCODE || command >= FIRST_OPCODE + OPCODE_COUNT {
            return None;
        }
        let t = match command - FIRST_OPCODE {
            0 => TcpCommandType::HelloFromClient,
            1 => TcpCommandType::HelloFromServer,
            2 => TcpCommandType::InvalidUsername,
            3 => TcpCommandType::GetActiveUsers,
            4 => TcpCommandType::ReturnActiveUsers,
            5 => TcpCommandType::CreateRoom,
            6 => TcpCommandType::InvalidRoomName,
            7 => TcpCommandType::CreateRoomSuccess,
            8 => TcpCommandType::GetRooms,
            9 => TcpCommandType::ReturnRooms,
            10 => TcpCommandType::JoinRoom,
            11 => TcpCommandType::JoinRoomSuccess,
            12 => TcpCommandType::InvalidJoinRoom,
            13 => TcpCommandType::OtherUserJoinedRoom,
            14 => TcpCommandType::OtherUserLeftRoom,
            15 => TcpCommandType::DeleteRoom,
            _ => TcpCommandType::DeleteRoomSuccess,
        };
        Some(t)
    }
}

} // verus!
