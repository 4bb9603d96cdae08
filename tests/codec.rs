use wesfu::{
    decode_command, encode_command, DecodeError, EncodeError, TcpCommand, TcpCommandPayloadType,
    TcpCommandType,
};

fn round_trip(c: TcpCommand) {
    let bytes = encode_command(&c).expect("well-formed command encodes");
    let decoded = decode_command(&bytes).expect("decodes");
    assert_eq!(decoded, Some((c, bytes.len())));
}

#[test]
fn hello_from_client_wire_bytes() {
    let c = TcpCommand::WithStringPayload {
        command_type: TcpCommandType::HelloFromClient,
        payload: "alice".to_string(),
    };
    assert_eq!(
        encode_command(&c).unwrap(),
        vec![0x45, 0x05, 0x61, 0x6C, 0x69, 0x63, 0x65]
    );
}

#[test]
fn hello_from_server_wire_bytes() {
    let c = TcpCommand::Simple(TcpCommandType::HelloFromServer);
    assert_eq!(encode_command(&c).unwrap(), vec![0x46]);
}

#[test]
fn opcodes_follow_declaration_order() {
    assert_eq!(TcpCommandType::HelloFromClient.to_byte(), 0x45);
    assert_eq!(TcpCommandType::OtherUserLeftRoom.to_byte(), 0x45 + 14);
    assert_eq!(TcpCommandType::DeleteRoom.to_byte(), 0x45 + 15);
    assert_eq!(TcpCommandType::DeleteRoomSuccess.to_byte(), 0x45 + 16);
    assert_eq!(TcpCommandType::from_byte(0x45 + 16), Some(TcpCommandType::DeleteRoomSuccess));
    assert_eq!(TcpCommandType::from_byte(0x44), None);
    assert_eq!(TcpCommandType::from_byte(0x45 + 17), None);
}

#[test]
fn from_byte_inverts_to_byte() {
    for b in 0u8..=255 {
        if let Some(t) = TcpCommandType::from_byte(b) {
            assert_eq!(t.to_byte(), b);
        }
    }
}

#[test]
fn payload_kinds() {
    assert_eq!(TcpCommandType::GetRooms.payload_type(), TcpCommandPayloadType::Empty);
    assert_eq!(TcpCommandType::DeleteRoom.payload_type(), TcpCommandPayloadType::SingleString);
    assert_eq!(TcpCommandType::ReturnRooms.payload_type(), TcpCommandPayloadType::MultiString);
    assert_eq!(TcpCommandType::JoinRoomSuccess.payload_type(), TcpCommandPayloadType::StreamID);
    assert_eq!(
        TcpCommandType::OtherUserLeftRoom.payload_type(),
        TcpCommandPayloadType::RoomStreamID
    );
}

#[test]
fn round_trips_each_payload_kind() {
    round_trip(TcpCommand::Simple(TcpCommandType::GetActiveUsers));
    round_trip(TcpCommand::WithStringPayload {
        command_type: TcpCommandType::CreateRoom,
        payload: "r1".to_string(),
    });
    round_trip(TcpCommand::WithStringPayload {
        command_type: TcpCommandType::InvalidUsername,
        payload: "é ünïcode ✓".to_string(),
    });
    round_trip(TcpCommand::WithMultiStringPayload {
        command_type: TcpCommandType::ReturnActiveUsers,
        payload: vec!["alice".to_string(), "".to_string(), "bob".to_string()],
    });
    round_trip(TcpCommand::WithMultiStringPayload {
        command_type: TcpCommandType::ReturnRooms,
        payload: vec![],
    });
    round_trip(TcpCommand::WithStreamIDPayload {
        command_type: TcpCommandType::JoinRoomSuccess,
        payload: 0xAB,
    });
    round_trip(TcpCommand::WithRoomStreamIDPayload {
        command_type: TcpCommandType::OtherUserJoinedRoom,
        payload: 7,
    });
}

#[test]
fn round_trip_with_trailing_bytes() {
    let c = TcpCommand::WithStringPayload {
        command_type: TcpCommandType::JoinRoom,
        payload: "room".to_string(),
    };
    let mut bytes = encode_command(&c).unwrap();
    let n = bytes.len();
    bytes.extend_from_slice(&[0x46, 0x47]);
    assert_eq!(decode_command(&bytes).unwrap(), Some((c, n)));
}

#[test]
fn longest_string_fits() {
    round_trip(TcpCommand::WithStringPayload {
        command_type: TcpCommandType::InvalidRoomName,
        payload: "x".repeat(255),
    });
}

#[test]
fn empty_input_is_peer_closed() {
    assert_eq!(decode_command(&[]), Ok(None));
}

#[test]
fn unknown_opcode_fails() {
    assert_eq!(decode_command(&[0x00]), Err(DecodeError::UnknownOpcode));
    assert_eq!(decode_command(&[0x45 + 17, 1, 2]), Err(DecodeError::UnknownOpcode));
}

#[test]
fn truncated_frames_fail() {
    assert_eq!(decode_command(&[0x45]), Err(DecodeError::Truncated));
    assert_eq!(decode_command(&[0x45, 3, b'a']), Err(DecodeError::Truncated));
    assert_eq!(decode_command(&[0x49]), Err(DecodeError::Truncated));
    assert_eq!(decode_command(&[0x49, 2, 1, b'a']), Err(DecodeError::Truncated));
    assert_eq!(decode_command(&[0x50]), Err(DecodeError::Truncated));
}

#[test]
fn invalid_utf8_fails() {
    assert_eq!(decode_command(&[0x45, 2, 0xFF, 0xFE]), Err(DecodeError::InvalidUtf8));
    assert_eq!(decode_command(&[0x49, 1, 1, 0xC0]), Err(DecodeError::InvalidUtf8));
}

#[test]
fn oversize_string_is_refused() {
    let c = TcpCommand::WithStringPayload {
        command_type: TcpCommandType::CreateRoom,
        payload: "x".repeat(256),
    };
    assert_eq!(encode_command(&c), Err(EncodeError::Oversize));
    let multi_byte = TcpCommand::WithStringPayload {
        command_type: TcpCommandType::CreateRoom,
        payload: "é".repeat(128),
    };
    assert_eq!(encode_command(&multi_byte), Err(EncodeError::Oversize));
}

#[test]
fn oversize_list_is_refused() {
    let c = TcpCommand::WithMultiStringPayload {
        command_type: TcpCommandType::ReturnRooms,
        payload: vec!["r".to_string(); 256],
    };
    assert_eq!(encode_command(&c), Err(EncodeError::Oversize));
    let long_item = TcpCommand::WithMultiStringPayload {
        command_type: TcpCommandType::ReturnRooms,
        payload: vec!["ok".to_string(), "y".repeat(300)],
    };
    assert_eq!(encode_command(&long_item), Err(EncodeError::Oversize));
}

#[test]
fn payload_mismatch_is_refused() {
    let c = TcpCommand::Simple(TcpCommandType::HelloFromClient);
    assert_eq!(encode_command(&c), Err(EncodeError::PayloadMismatch));
    let d = TcpCommand::WithStreamIDPayload {
        command_type: TcpCommandType::OtherUserJoinedRoom,
        payload: 1,
    };
    assert_eq!(encode_command(&d), Err(EncodeError::PayloadMismatch));
}

#[test]
fn command_type_of_each_variant() {
    let c = TcpCommand::WithRoomStreamIDPayload {
        command_type: TcpCommandType::OtherUserLeftRoom,
        payload: 3,
    };
    assert_eq!(c.get_command_type(), TcpCommandType::OtherUserLeftRoom);
    assert_eq!(
        TcpCommand::Simple(TcpCommandType::GetRooms).get_command_type(),
        TcpCommandType::GetRooms
    );
}
