//! Core of a small selective forwarding unit for ASCII video calls: the
//! control-protocol codec, the nibble frame codec, the membership registry,
//! the per-connection control session, the datagram relay, and the client's
//! call bookkeeping, input parsing and frame composition.

pub mod ascii;
pub mod call;
pub mod client;
pub mod command;
pub mod command_type;
pub mod frame;
pub mod names;
pub mod registry;
pub mod relay;
pub mod render;
pub mod session;
pub mod text;
pub mod user_input;

pub use ascii::{try_differential_update, AsciiConverter, TerminalOp};
pub use client::{hello, interpret_hello_reply, interpret_reply, request_for, ServerReply};
pub use call::{sender_datagram, CallHandler, TestPatten};
pub use command::{decode_command, encode_command, DecodeError, EncodeError, RoomStreamID, StreamID, TcpCommand};
pub use command_type::{TcpCommandPayloadType, TcpCommandType};
pub use frame::{luma_to_nibble, pack_gray, unpack_nibbles, HEIGHT, WIDTH};
pub use names::{check_name, is_valid_room_name, is_valid_username, NameError};
pub use registry::{CreateRoomError, DeleteRoomError, JoinError, JoinOutcome, RegisterError, Registry, Room};
pub use relay::UdpHandler;
pub use render::{frames_side_by_side_to_string, render_frames_to_string};
pub use session::{TcpHandler, SessionOutput, SessionState};
pub use user_input::{UserCommand, UserInputHandler};
