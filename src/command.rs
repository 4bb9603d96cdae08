use vstd::prelude::*;
use vstd::utf8::{decode_utf8, encode_utf8, valid_utf8};
use vstd::utf8::{decode_utf8_encode_utf8, encode_utf8_decode_utf8, encode_utf8_valid_utf8};
use vstd::slice::slice_to_vec;

use crate::command_type::{
    is_opcode, lemma_opcode_of_type, lemma_type_of_opcode, opcode_of, type_of_opcode, payload_kind, TcpCommandPayloadType,
    TcpCommandType,
};

verus! {

/// Server-assigned identifier of a sender's datagram stream.
pub type StreamID = u8;

/// Room-scoped tag under which a member's frames are fanned out.
pub type RoomStreamID = u8;

/// Largest length that a one-byte length prefix can announce.
pub const MAX_FIELD_LEN: usize = 255;

/// One control message.
#[derive(Debug, Clone, PartialEq, Eq)]
#[allow(inconsistent_fields)]
pub enum TcpCommand {
    Simple(TcpCommandType),
    WithStringPayload { command_type: TcpCommandType, payload: String },
    WithMultiStringPayload { command_type: TcpCommandType, payload: Vec<String> },
    WithStreamIDPayload { command_type: TcpCommandType, payload: StreamID },
    WithRoomStreamIDPayload { command_type: TcpCommandType, payload: RoomStreamID },
}

/// The mathematical content of a control message: strings as character sequences.
pub enum CommandModel {
    Simple(TcpCommandType),
    Text(TcpCommandType, Seq<char>),
    TextList(TcpCommandType, Seq<Seq<char>>),
    Stream(TcpCommandType, u8),
    RoomStream(TcpCommandType, u8),
}

impl View for TcpCommand {
    type V = CommandModel;

    open spec fn view(&self) -> CommandModel {
        match self {
            TcpCommand::Simple(t) => CommandModel::Simple(*t),
            TcpCommand::WithStringPayload { command_type, payload } => CommandModel::Text(
                *command_type,
                payload@,
            ),
            TcpCommand::WithMultiStringPayload { command_type, payload } => CommandModel::TextList(
                *command_type,
                strings_view(payload@),
            ),
            TcpCommand::WithStreamIDPayload { command_type, payload } => CommandModel::Stream(
                *command_type,
                *payload,
            ),
            TcpCommand::WithRoomStreamIDPayload { command_type, payload } => CommandModel::RoomStream(
                *command_type,
                *payload,
            ),
        }
    }
}

/// The character sequences of a list of strings.
pub open spec fn strings_view(v: Seq<String>) -> Seq<Seq<char>> {
    v.map_values(|s: String| s@)
}

impl TcpCommand {
    pub fn get_command_type(&self) -> (r: TcpCommandType)
        ensures
            r == model_type(self@),
    {
        match self {
            TcpCommand::Simple(command_type) => *command_type,
            TcpCommand::WithStringPayload { command_type, .. } => *command_type,
            TcpCommand::WithMultiStringPayload { command_type, .. } => *command_type,
            TcpCommand::WithStreamIDPayload { command_type, .. } => *command_type,
            TcpCommand::WithRoomStreamIDPayload { command_type, .. } => *command_type,
        }
    }
}

/// Why a byte stream does not start with a command.
#[derive(Debug, Clone, Copy, PartialEq, Eq, Structural)]
pub enum DecodeError {
    UnknownOpcode,
    Truncated,
    InvalidUtf8,
}

/// Why a command cannot be put on the wire.
#[derive(Debug, Clone, Copy, PartialEq, Eq, Structural)]
pub enum EncodeError {
    PayloadMismatch,
    Oversize,
}

pub open spec fn model_type(m: CommandModel) -> TcpCommandType {
    match m {
        CommandModel::Simple(t) => t,
        CommandModel::Text(t, _) => t,
        CommandModel::TextList(t, _) => t,
        CommandModel::Stream(t, _) => t,
        CommandModel::RoomStream(t, _) => t,
    }
}

/// The payload carried matches the payload kind of the opcode.
pub open spec fn payload_matches(m: CommandModel) -> bool {
    match m {
        CommandModel::Simple(t) => payload_kind(t) == TcpCommandPayloadType::Empty,
        CommandModel::Text(t, _) => payload_kind(t) == TcpCommandPayloadType::SingleString,
        CommandModel::TextList(t, _) => payload_kind(t) == TcpCommandPayloadType::MultiString,
        CommandModel::Stream(t, _) => payload_kind(t) == TcpCommandPayloadType::StreamID,
        CommandModel::RoomStream(t, _) => payload_kind(t) == TcpCommandPayloadType::RoomStreamID,
    }
}

/// A string whose UTF-8 form fits behind a one-byte length.
pub open spec fn text_fits(s: Seq<char>) -> bool {
    encode_utf8(s).len() <= MAX_FIELD_LEN
}

/// A command that can be encoded: right payload kind, every length within a byte.
pub open spec fn well_formed(m: CommandModel) -> bool {
    &&& payload_matches(m)
    &&& match m {
        CommandModel::Text(_, s) => text_fits(s),
        CommandModel::TextList(_, ss) => ss.len() <= MAX_FIELD_LEN && forall|i: int|
            0 <= i < ss.len() ==> #[trigger] text_fits(ss[i]),
        _ => true,
    }
}

/// A length-prefixed string on the wire.
pub open spec fn text_bytes(s: Seq<char>) -> Seq<u8> {
    seq![encode_utf8(s).len() as u8] + encode_utf8(s)
}

/// The length-prefixed strings of a list, one after another.
pub open spec fn text_list_bytes(ss: Seq<Seq<char>>) -> Seq<u8>
    decreases ss.len(),
{
    if ss.len() == 0 {
        seq![]
    } else {
        text_bytes(ss[0]) + text_list_bytes(ss.drop_first())
    }
}

/// The wire form of a command.
pub open spec fn encode_model(m: CommandModel) -> Seq<u8> {
    match m {
        CommandModel::Simple(t) => seq![opcode_of(t)],
        CommandModel::Text(t, s) => seq![opcode_of(t)] + text_bytes(s),
        CommandModel::TextList(t, ss) => seq![opcode_of(t), ss.len() as u8] + text_list_bytes(ss),
        CommandModel::Stream(t, b) => seq![opcode_of(t), b],
        CommandModel::RoomStream(t, b) => seq![opcode_of(t), b],
    }
}

/// Reads one length-prefixed string; gives the characters and the bytes used.
pub open spec fn parse_text(b: Seq<u8>) -> Result<(Seq<char>, nat), DecodeError> {
    if b.len() < 1 || b.len() < 1 + b[0] {
        Err(DecodeError::Truncated)
    } else if !valid_utf8(b.subrange(1, 1 + b[0])) {
        Err(DecodeError::InvalidUtf8)
    } else {
        Ok((decode_utf8(b.subrange(1, 1 + b[0])), (1 + b[0]) as nat))
    }
}

/// Reads `k` length-prefixed strings in a row.
pub open spec fn parse_text_list(b: Seq<u8>, k: nat) -> Result<(Seq<Seq<char>>, nat), DecodeError>
    decreases k,
{
    if k == 0 {
        Ok((seq![], 0))
    } else {
        match parse_text(b) {
            Err(e) => Err(e),
            Ok((s, n)) => match parse_text_list(b.skip(n as int), (k - 1) as nat) {
                Err(e) => Err(e),
                Ok((rest, m)) => Ok((seq![s] + rest, n + m)),
            },
        }
    }
}

/// Reads the command at the start of `b`: `Ok(None)` when `b` is empty (the peer
/// closed at a command boundary), else the command and the number of bytes it took.
pub open spec fn decode_model(b: Seq<u8>) -> Result<Option<(CommandModel, nat)>, DecodeError> {
    if b.len() == 0 {
        Ok(None)
    } else if !is_opcode(b[0]) {
        Err(DecodeError::UnknownOpcode)
    } else {
        let t = type_of_opcode(b[0]);
        let rest = b.skip(1);
        match payload_kind(t) {
            TcpCommandPayloadType::Empty => Ok(Some((CommandModel::Simple(t), 1))),
            TcpCommandPayloadType::SingleString => match parse_text(rest) {
                Err(e) => Err(e),
                Ok((s, n)) => Ok(Some((CommandModel::Text(t, s), 1 + n))),
            },
            TcpCommandPayloadType::MultiString => if rest.len() < 1 {
                Err(DecodeError::Truncated)
            } else {
                match parse_text_list(rest.skip(1), rest[0] as nat) {
                    Err(e) => Err(e),
                    Ok((ss, n)) => Ok(Some((CommandModel::TextList(t, ss), 2 + n))),
                }
            },
            TcpCommandPayloadType::StreamID => if rest.len() < 1 {
                Err(DecodeError::Truncated)
            } else {
                Ok(Some((CommandModel::Stream(t, rest[0]), 2)))
            },
            TcpCommandPayloadType::RoomStreamID => if rest.len() < 1 {
                Err(DecodeError::Truncated)
            } else {
                Ok(Some((CommandModel::RoomStream(t, rest[0]), 2)))
            },
        }
    }
}

/// The model of what `decode_command` returns.
pub open spec fn decoded_view(r: Result<Option<(TcpCommand, usize)>, DecodeError>) -> Result<
    Option<(CommandModel, nat)>,
    DecodeError,
> {
    match r {
        Ok(Some((c, n))) => Ok(Some((c@, n as nat))),
        Ok(None) => Ok(None),
        Err(e) => Err(e),
    }
}

/// Relies on `String::from_utf8`: it succeeds exactly on valid UTF-8 and then
/// holds the characters that the bytes encode.
#[verifier::external_body]
fn string_from_utf8(bytes: Vec<u8>) -> (r: Option<String>)
    ensures
        r is Some <==> valid_utf8(bytes@),
        r matches Some(s) ==> s@ == decode_utf8(bytes@),
{
    String::from_utf8(bytes).ok()
}

fn append_bytes(out: &mut Vec<u8>, b: &[u8])
    ensures
        final(out)@ == old(out)@ + b@,
{
    let mut i: usize = 0;
    while i < b.len()
        invariant
            i <= b@.len(),
            out@ == old(out)@ + b@.take(i as int),
        decreases b@.len() - i,
    {
        out.push(b[i]);
        i = i + 1;
        assert(b@.take(i as int) =~= b@.take(i - 1) + seq![b@[i - 1]]);
    }
    assert(b@.take(i as int) =~= b@);
}

proof fn lemma_text_list_push(ss: Seq<Seq<char>>, s: Seq<char>)
    ensures
        text_list_bytes(ss.push(s)) == text_list_bytes(ss) + text_bytes(s),
    decreases ss.len(),
{
    if ss.len() == 0 {
        assert(ss.push(s).drop_first() =~= seq![]);
        assert(text_list_bytes(ss.push(s)) =~= text_bytes(s) + text_list_bytes(seq![]));
    } else {
        lemma_text_list_push(ss.drop_first(), s);
        assert(ss.push(s).drop_first() =~= ss.drop_first().push(s));
        assert(text_list_bytes(ss.push(s)) =~= text_bytes(ss[0]) + text_list_bytes(
            ss.drop_first().push(s),
        ));
        assert(text_list_bytes(ss.push(s)) =~= text_list_bytes(ss) + text_bytes(s));
    }
}

fn push_text(out: &mut Vec<u8>, s: &String)
    requires
        text_fits(s@),
    ensures
        final(out)@ == old(out)@ + text_bytes(s@),
{
    let b = s.as_str().as_bytes();
    out.push(b.len() as u8);
    append_bytes(out, b);
    assert(final(out)@ =~= old(out)@ + text_bytes(s@));
}

/// Puts a command on the wire.
pub fn encode_command(command: &TcpCommand) -> (r: Result<Vec<u8>, EncodeError>)
    ensures
        r is Ok <==> well_formed(command@),
        r matches Ok(b) ==> b@ == encode_model(command@),
        r == Err::<Vec<u8>, EncodeError>(EncodeError::PayloadMismatch) <==> !payload_matches(
            command@,
        ),
        r == Err::<Vec<u8>, EncodeError>(EncodeError::Oversize) <==> payload_matches(command@)
            && !well_formed(command@),
{
    match command {
        TcpCommand::Simple(command_type) => {
            if !(command_type.payload_type() == TcpCommandPayloadType::Empty) {
                return Err(EncodeError::PayloadMismatch);
            }
            Ok(vec![command_type.to_byte()])
        },
        TcpCommand::WithStringPayload { command_type, payload } => {
            if !(command_type.payload_type() == TcpCommandPayloadType::SingleString) {
                return Err(EncodeError::PayloadMismatch);
            }
            if payload.as_str().as_bytes().len() > MAX_FIELD_LEN {
                return Err(EncodeError::Oversize);
            }
            let mut message = vec![command_type.to_byte()];
            push_text(&mut message, payload);
            assert(message@ =~= encode_model(command@));
            Ok(message)
        },
        TcpCommand::WithMultiStringPayload { command_type, payload } => {
            if !(command_type.payload_type() == TcpCommandPayloadType::MultiString) {
                return Err(EncodeError::PayloadMismatch);
            }
            if payload.len() > MAX_FIELD_LEN {
                return Err(EncodeError::Oversize);
            }
            let mut message = vec![command_type.to_byte(), payload.len() as u8];
            let ghost ss = strings_view(payload@);
            let mut i: usize = 0;
            while i < payload.len()
                invariant
                    i <= payload@.len(),
                    ss == strings_view(payload@),
                    forall|j: int| 0 <= j < i ==> #[trigger] text_fits(ss[j]),
                    payload@.len() <= MAX_FIELD_LEN,
                    payload_kind(*command_type) == TcpCommandPayloadType::MultiString,
                    command@ == CommandModel::TextList(*command_type, ss),
                    message@ == seq![opcode_of(*command_type), payload@.len() as u8]
                        + text_list_bytes(ss.take(i as int)),
                decreases payload@.len() - i,
            {
                assert(ss[i as int] == payload@[i as int]@);
                if payload[i].as_str().as_bytes().len() > MAX_FIELD_LEN {
                    assert(!text_fits(ss[i as int]));
                    return Err(EncodeError::Oversize);
                }
                proof {
                    lemma_text_list_push(ss.take(i as int), ss[i as int]);
                    assert(ss.take(i + 1) =~= ss.take(i as int).push(ss[i as int]));
                }
                push_text(&mut message, &payload[i]);
                i = i + 1;
            }
            assert(ss.take(i as int) =~= ss);
            Ok(message)
        },
        TcpCommand::WithStreamIDPayload { command_type, payload } => {
            if !(command_type.payload_type() == TcpCommandPayloadType::StreamID) {
                return Err(EncodeError::PayloadMismatch);
            }
            Ok(vec![command_type.to_byte(), *payload])
        },
        TcpCommand::WithRoomStreamIDPayload { command_type, payload } => {
            if !(command_type.payload_type() == TcpCommandPayloadType::RoomStreamID) {
                return Err(EncodeError::PayloadMismatch);
            }
            Ok(vec![command_type.to_byte(), *payload])
        },
    }
}

/// Puts the strings already read in front of what the rest of a list gives.
pub open spec fn prepend_read(
    read: Seq<Seq<char>>,
    used: nat,
    rest: Result<(Seq<Seq<char>>, nat), DecodeError>,
) -> Result<(Seq<Seq<char>>, nat), DecodeError> {
    match rest {
        Ok((more, m)) => Ok((read + more, used + m)),
        Err(e) => Err(e),
    }
}

fn read_text(bytes: &[u8], pos: usize) -> (r: Result<(String, usize), DecodeError>)
    requires
        pos <= bytes@.len(),
    ensures
        match r {
            Ok((s, n)) => parse_text(bytes@.skip(pos as int)) == Ok::<(Seq<char>, nat), DecodeError>(
                (s@, n as nat),
            ) && pos + n <= bytes@.len(),
            Err(e) => parse_text(bytes@.skip(pos as int)) == Err::<(Seq<char>, nat), DecodeError>(e),
        },
{
    if pos >= bytes.len() {
        return Err(DecodeError::Truncated);
    }
    let n = bytes[pos] as usize;
    if bytes.len() - pos - 1 < n {
        return Err(DecodeError::Truncated);
    }
    let body = slice_to_vec(&bytes[pos + 1..pos + 1 + n]);
    assert(body@ =~= bytes@.skip(pos as int).subrange(1, 1 + n));
    match string_from_utf8(body) {
        Some(s) => Ok((s, 1 + n)),
        None => Err(DecodeError::InvalidUtf8),
    }
}

/// Reads the command at the start of `bytes`, with the number of bytes it takes;
/// `Ok(None)` when `bytes` is empty.
pub fn decode_command(bytes: &[u8]) -> (r: Result<Option<(TcpCommand, usize)>, DecodeError>)
    ensures
        decoded_view(r) == decode_model(bytes@),
{
    if bytes.len() == 0 {
        return Ok(None);
    }
    let command_type = match TcpCommandType::from_byte(bytes[0]) {
        Some(t) => t,
        None => return Err(DecodeError::UnknownOpcode),
    };
    let ghost rest = bytes@.skip(1);
    match command_type.payload_type() {
        TcpCommandPayloadType::Empty => Ok(Some((TcpCommand::Simple(command_type), 1))),
        TcpCommandPayloadType::SingleString => match read_text(bytes, 1) {
            Ok((payload, n)) => Ok(
                Some((TcpCommand::WithStringPayload { command_type, payload }, 1 + n)),
            ),
            Err(e) => Err(e),
        },
        TcpCommandPayloadType::MultiString => {
            if bytes.len() < 2 {
                return Err(DecodeError::Truncated);
            }
            let count = bytes[1] as usize;
            let ghost whole = bytes@.skip(2);
            assert(rest.skip(1) =~= whole);
            let mut payload: Vec<String> = Vec::new();
            let mut pos: usize = 2;
            let mut i: usize = 0;
            let total = bytes.len();
            while i < count
                invariant
                    2 <= pos <= bytes@.len(),
                    bytes@.len() == total,
                    count == bytes@[1],
                    is_opcode(bytes@[0]),
                    type_of_opcode(bytes@[0]) == command_type,
                    payload_kind(command_type) == TcpCommandPayloadType::MultiString,
                    rest == bytes@.skip(1),
                    rest.skip(1) == whole,
                    i <= count,
                    whole == bytes@.skip(2),
                    parse_text_list(whole, count as nat) == prepend_read(
                        strings_view(payload@),
                        (pos - 2) as nat,
                        parse_text_list(bytes@.skip(pos as int), (count - i) as nat),
                    ),
                decreases count - i,
            {
                let ghost acc = strings_view(payload@);
                let ghost k = (count - i) as nat;
                match read_text(bytes, pos) {
                    Err(e) => {
                        assert(parse_text_list(bytes@.skip(pos as int), k) == Err::<
                            (Seq<Seq<char>>, nat),
                            DecodeError,
                        >(e));
                        assert(rest[0] == bytes@[1]);
                        return Err(e);
                    },
                    Ok((s, n)) => {
                        proof {
                            let tail = bytes@.skip(pos as int);
                            assert(tail.skip(n as int) =~= bytes@.skip(pos + n));
                            let later = parse_text_list(bytes@.skip(pos + n), (k - 1) as nat);
                            match later {
                                Ok((more, m)) => {
                                    assert(acc + (seq![s@] + more) =~= acc.push(s@) + more);
                                },
                                Err(_) => {},
                            }
                        }
                        payload.push(s);
                        assert(strings_view(payload@) =~= acc.push(s@));
                        pos = pos + n;
                        i = i + 1;
                    },
                }
            }
            assert(strings_view(payload@) + seq![] =~= strings_view(payload@));
            Ok(Some((TcpCommand::WithMultiStringPayload { command_type, payload }, pos)))
        },
        TcpCommandPayloadType::StreamID => {
            if bytes.len() < 2 {
                return Err(DecodeError::Truncated);
            }
            Ok(Some((TcpCommand::WithStreamIDPayload { command_type, payload: bytes[1] }, 2)))
        },
        TcpCommandPayloadType::RoomStreamID => {
            if bytes.len() < 2 {
                return Err(DecodeError::Truncated);
            }
            Ok(Some((TcpCommand::WithRoomStreamIDPayload { command_type, payload: bytes[1] }, 2)))
        },
    }
}

proof fn lemma_parse_text_of_bytes(s: Seq<char>, rest: Seq<u8>)
    requires
        text_fits(s),
    ensures
        parse_text(text_bytes(s) + rest) == Ok::<(Seq<char>, nat), DecodeError>(
            (s, text_bytes(s).len()),
        ),
{
    let e = encode_utf8(s);
    let b = text_bytes(s) + rest;
    encode_utf8_valid_utf8(s);
    encode_utf8_decode_utf8(s);
    assert(b[0] == e.len());
    assert(b.subrange(1, 1 + b[0]) =~= e);
}

proof fn lemma_parse_text_list_of_bytes(ss: Seq<Seq<char>>, rest: Seq<u8>)
    requires
        forall|i: int| 0 <= i < ss.len() ==> #[trigger] text_fits(ss[i]),
    ensures
        parse_text_list(text_list_bytes(ss) + rest, ss.len()) == Ok::<
            (Seq<Seq<char>>, nat),
            DecodeError,
        >((ss, text_list_bytes(ss).len())),
    decreases ss.len(),
{
    if ss.len() > 0 {
        let tail = ss.drop_first();
        assert forall|i: int| 0 <= i < tail.len() implies #[trigger] text_fits(tail[i]) by {
            assert(text_fits(ss[i + 1]));
        }
        assert(text_fits(ss[0]));
        lemma_parse_text_list_of_bytes(tail, rest);
        let b = text_list_bytes(ss) + rest;
        let after = text_list_bytes(tail) + rest;
        assert(b =~= text_bytes(ss[0]) + after);
        lemma_parse_text_of_bytes(ss[0], after);
        assert(b.skip(text_bytes(ss[0]).len() as int) =~= after);
        assert(seq![ss[0]] + tail =~= ss);
        assert(text_list_bytes(ss).len() == text_bytes(ss[0]).len() + text_list_bytes(tail).len());
        assert((ss.len() - 1) as nat == tail.len());
    } else {
        assert(ss =~= seq![]);
    }
}

/// Decoding the wire form of a well-formed command, whatever bytes follow it,
/// gives back that command and the length of its wire form.
pub proof fn lemma_decode_encode(m: CommandModel, rest: Seq<u8>)
    requires
        well_formed(m),
    ensures
        decode_model(encode_model(m) + rest) == Ok::<Option<(CommandModel, nat)>, DecodeError>(
            Some((m, encode_model(m).len())),
        ),
{
    let b = encode_model(m) + rest;
    let t = model_type(m);
    lemma_opcode_of_type(t);
    assert(b[0] == opcode_of(t));
    match m {
        CommandModel::Simple(_) => {},
        CommandModel::Text(_, s) => {
            assert(b.skip(1) =~= text_bytes(s) + rest);
            lemma_parse_text_of_bytes(s, rest);
        },
        CommandModel::TextList(_, ss) => {
            assert(b.skip(1)[0] == ss.len() as u8);
            assert(b.skip(1).skip(1) =~= text_list_bytes(ss) + rest);
            lemma_parse_text_list_of_bytes(ss, rest);
        },
        CommandModel::Stream(_, v) => {
            assert(b.skip(1)[0] == v);
        },
        CommandModel::RoomStream(_, v) => {
            assert(b.skip(1)[0] == v);
        },
    }
}

proof fn lemma_parse_text_framed(b: Seq<u8>)
    ensures
        parse_text(b) matches Ok((s, n)) ==> text_fits(s) && n <= b.len() && text_bytes(s) == b.take(
            n as int,
        ),
{
    if let Ok((s, n)) = parse_text(b) {
        let body = b.subrange(1, 1 + b[0]);
        decode_utf8_encode_utf8(body);
        assert(text_bytes(s) =~= b.take(n as int));
    }
}

proof fn lemma_parse_text_list_framed(b: Seq<u8>, k: nat)
    ensures
        parse_text_list(b, k) matches Ok((ss, n)) ==> ss.len() == k && n <= b.len() && (forall|
            i: int,
        | 0 <= i < ss.len() ==> #[trigger] text_fits(ss[i])) && text_list_bytes(ss) == b.take(
            n as int,
        ),
    decreases k,
{
    if k > 0 {
        lemma_parse_text_framed(b);
        if let Ok((s, n)) = parse_text(b) {
            let after = b.skip(n as int);
            lemma_parse_text_list_framed(after, (k - 1) as nat);
            if let Ok((more, m)) = parse_text_list(after, (k - 1) as nat) {
                let ss = seq![s] + more;
                assert(ss.drop_first() =~= more);
                assert forall|i: int| 0 <= i < ss.len() implies #[trigger] text_fits(ss[i]) by {
                    if i > 0 {
                        assert(ss[i] == more[i - 1]);
                    }
                }
                assert(text_list_bytes(ss) =~= b.take((n + m) as int));
            }
        }
    }
}

/// Every command that decodes was framed as the encoder frames it: it is well
/// formed and the bytes consumed are exactly its wire form.
pub proof fn lemma_decoded_is_framed(b: Seq<u8>)
    ensures
        decode_model(b) matches Ok(Some((m, n))) ==> well_formed(m) && n <= b.len()
            && encode_model(m) == b.take(n as int),
{
    if b.len() > 0 && is_opcode(b[0]) {
        let t = type_of_opcode(b[0]);
        lemma_type_of_opcode(b[0]);
        let rest = b.skip(1);
        lemma_parse_text_framed(rest);
        if rest.len() >= 1 {
            lemma_parse_text_list_framed(rest.skip(1), rest[0] as nat);
        }
        if let Ok(Some((m, n))) = decode_model(b) {
            assert(encode_model(m) =~= b.take(n as int));
        }
    }
}

/// A non-empty byte stream that does not start with the wire form of any
/// well-formed command fails to decode, and so consumes nothing.
pub proof fn lemma_misframed_fails(b: Seq<u8>)
    requires
        b.len() > 0,
        forall|m: CommandModel, n: int|
            0 <= n <= b.len() && well_formed(m) ==> #[trigger] encode_model(m) != #[trigger] b.take(n),
    ensures
        decode_model(b) is Err,
{
    lemma_decoded_is_framed(b);
    if let Ok(Some((m, n))) = decode_model(b) {
        assert(encode_model(m) == b.take(n as int));
    }
}

proof fn lemma_parse_text_cut(s: Seq<char>, t: int)
    requires
        text_fits(s),
        0 <= t < text_bytes(s).len(),
    ensures
        parse_text(text_bytes(s).take(t)) == Err::<(Seq<char>, nat), DecodeError>(
            DecodeError::Truncated,
        ),
{
    let b = text_bytes(s).take(t);
    if t > 0 {
        assert(b[0] == encode_utf8(s).len());
    }
}

proof fn lemma_parse_text_list_cut(ss: Seq<Seq<char>>, t: int)
    requires
        forall|i: int| 0 <= i < ss.len() ==> #[trigger] text_fits(ss[i]),
        0 <= t < text_list_bytes(ss).len(),
    ensures
        parse_text_list(text_list_bytes(ss).take(t), ss.len()) == Err::<
            (Seq<Seq<char>>, nat),
            DecodeError,
        >(DecodeError::Truncated),
    decreases ss.len(),
{
    let tail = ss.drop_first();
    let tb = text_bytes(ss[0]);
    let rest = text_list_bytes(tail);
    assert(text_list_bytes(ss) == tb + rest);
    assert(text_fits(ss[0]));
    let b = text_list_bytes(ss).take(t);
    if t < tb.len() {
        assert(b =~= tb.take(t));
        lemma_parse_text_cut(ss[0], t);
    } else {
        let later = rest.take(t - tb.len());
        assert(b =~= tb + later);
        lemma_parse_text_of_bytes(ss[0], later);
        assert(b.skip(tb.len() as int) =~= later);
        assert forall|i: int| 0 <= i < tail.len() implies #[trigger] text_fits(tail[i]) by {
            assert(text_fits(ss[i + 1]));
        }
        lemma_parse_text_list_cut(tail, t - tb.len());
        assert((ss.len() - 1) as nat == tail.len());
    }
}

/// A stream that ends inside the wire form of a well-formed command, after its
/// opcode, does not decode: the declared framing is unavailable.
pub proof fn lemma_truncated_fails(m: CommandModel, n: int)
    requires
        well_formed(m),
        1 <= n < encode_model(m).len(),
    ensures
        decode_model(encode_model(m).take(n)) == Err::<Option<(CommandModel, nat)>, DecodeError>(
            DecodeError::Truncated,
        ),
{
    let b = encode_model(m).take(n);
    let t = model_type(m);
    lemma_opcode_of_type(t);
    assert(b[0] == opcode_of(t));
    let rest = b.skip(1);
    match m {
        CommandModel::Text(_, s) => {
            assert(rest =~= text_bytes(s).take(n - 1));
            lemma_parse_text_cut(s, n - 1);
        },
        CommandModel::TextList(_, ss) => {
            if n >= 2 {
                assert(rest[0] == ss.len() as u8);
                assert(rest.skip(1) =~= text_list_bytes(ss).take(n - 2));
                lemma_parse_text_list_cut(ss, n - 2);
            }
        },
        _ => {},
    }
}

} // verus!
