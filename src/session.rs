use vstd::prelude::*;

use crate::command::{strings_view, CommandModel, RoomStreamID, TcpCommand};
use crate::command_type::TcpCommandType;
use crate::names::{name_error, NameError};
use crate::registry::{
    can_join, departed, ids_certain, has_sid, in_some_room, joined, leave_notices, members_view, room_exists, room_names,
    rsid_taken, sid_taken, CreateRoomError, DeleteRoomError, JoinError, JoinOutcome,
    registry_wf, room_wf, RegisterError, Registry, RegistryView, RoomView,
};
use crate::text::framed_name;

verus! {

/// Where a control connection stands.
#[derive(Debug, Clone, Copy, PartialEq, Eq, Structural)]
pub enum SessionState {
    /// Waiting for the client's hello.
    Connecting,
    /// Greeted; serving requests.
    Idle,
    /// In a room; only membership notices flow to the client.
    InCall,
    /// Finished; nothing more is read or written.
    Closed,
}

/// What a session hands back after an event: the commands to write to its own
/// client, in order, and the notices to publish to other users' queues.
pub struct SessionOutput {
    pub replies: Vec<TcpCommand>,
    pub notices: Vec<(String, TcpCommand)>,
}

/// The replies of an output, as command models.
pub open spec fn replies_of(o: SessionOutput) -> Seq<CommandModel> {
    o.replies@.map_values(|c: TcpCommand| c@)
}

/// The notices of an output, as (recipient, command model) pairs.
pub open spec fn notices_of(o: SessionOutput) -> Seq<(Seq<char>, CommandModel)> {
    o.notices@.map_values(|n: (String, TcpCommand)| (n.0@, n.1@))
}

/// An output with a single reply and no notices.
pub open spec fn only_reply(o: SessionOutput, c: CommandModel) -> bool {
    replies_of(o) == seq![c] && notices_of(o).len() == 0
}

/// An output with nothing in it.
pub open spec fn silent(o: SessionOutput) -> bool {
    replies_of(o).len() == 0 && notices_of(o).len() == 0
}

/// The text sent back for a refused user name.
pub open spec fn username_error_text(e: NameError) -> Seq<char> {
    match e {
        NameError::InvalidCharacters =>
            "Username must contain only letters, numbers, underscores (_), or hyphens (-)."@,
        NameError::TooLong => "Username must be less than or equal to 20 characters."@,
        NameError::Empty => "Username must not be empty."@,
    }
}

/// The text sent back for a refused room name.
pub open spec fn room_name_error_text(e: NameError) -> Seq<char> {
    match e {
        NameError::InvalidCharacters =>
            "Room name must contain only letters, numbers, underscores (_), or hyphens (-)."@,
        NameError::TooLong => "Room name must be less than or equal to 20 characters."@,
        NameError::Empty => "Room name must not be empty."@,
    }
}

/// The text sent back when a connection does not start with a hello.
pub open spec fn hello_expected_text() -> Seq<char> {
    "Expected a hello with a user name."@
}

pub open spec fn taken_text(name: Seq<char>) -> Seq<char> {
    "Username '"@ + name + "' is already taken."@
}

pub open spec fn room_exists_text(name: Seq<char>) -> Seq<char> {
    "Room: '"@ + name + "' already exists."@
}

pub open spec fn room_in_use_text(name: Seq<char>) -> Seq<char> {
    "Room '"@ + name + "' is in use and cannot be deleted at this time."@
}

pub open spec fn room_missing_text(name: Seq<char>) -> Seq<char> {
    "Room: '"@ + name + "' does not exist."@
}

/// The text sent back when a join names no room.
pub open spec fn join_missing_text() -> Seq<char> {
    "Room not found"@
}

/// The text sent back when no fresh identifier could be drawn.
pub open spec fn join_exhausted_text() -> Seq<char> {
    "Failed to assign a stream identifier. Try again."@
}

/// The text sent back when the user cannot join (not connected, or already in a call).
pub open spec fn join_unavailable_text() -> Seq<char> {
    "You cannot join a room now."@
}

/// What the joiner is told: its stream identifier, then one joined notice per
/// member already in the room, carrying that member's tag.
pub open spec fn join_replies(sid: u8, existing: Seq<(Seq<char>, u8)>) -> Seq<CommandModel> {
    seq![CommandModel::Stream(TcpCommandType::JoinRoomSuccess, sid)] + existing.map_values(
        |m: (Seq<char>, u8)| CommandModel::RoomStream(TcpCommandType::OtherUserJoinedRoom, m.1),
    )
}

/// What the members already in the room are told: one joined notice each,
/// carrying the joiner's tag.
pub open spec fn join_notices(rsid: u8, existing: Seq<(Seq<char>, u8)>) -> Seq<
    (Seq<char>, CommandModel),
> {
    existing.map_values(
        |m: (Seq<char>, u8)| (m.0, CommandModel::RoomStream(TcpCommandType::OtherUserJoinedRoom, rsid)),
    )
}

/// What the remaining members are told when a member leaves: one left notice
/// each, carrying the leaver's tag.
pub open spec fn leave_commands(notices: Seq<(Seq<char>, u8)>) -> Seq<(Seq<char>, CommandModel)> {
    notices.map_values(
        |n: (Seq<char>, u8)| (n.0, CommandModel::RoomStream(TcpCommandType::OtherUserLeftRoom, n.1)),
    )
}

/// The control state machine of one connection.
pub struct TcpHandler {
    state: SessionState,
    username: Option<String>,
}

/// Where a session stands, and the user it greeted.
pub struct SessionView {
    pub state: SessionState,
    pub username: Option<Seq<char>>,
}

impl View for TcpHandler {
    type V = SessionView;

    closed spec fn view(&self) -> SessionView {
        SessionView {
            state: self.state,
            username: match self.username {
                Some(u) => Some(u@),
                None => None,
            },
        }
    }
}

/// A greeted session knows its user.
pub open spec fn session_wf(s: SessionView) -> bool {
    (s.state == SessionState::Idle || s.state == SessionState::InCall) ==> s.username is Some
}

/// What the first command of a connection does.
pub open spec fn greet_post(
    reg: RegistryView,
    reg2: RegistryView,
    s2: SessionView,
    command: CommandModel,
    r: SessionOutput,
) -> bool {
    match command {
        CommandModel::Text(TcpCommandType::HelloFromClient, name) => match name_error(name) {
            Some(e) => only_reply(
                r,
                CommandModel::Text(TcpCommandType::InvalidUsername, username_error_text(e)),
            ) && s2.state == SessionState::Closed && s2.username is None && reg2 == reg,
            None => if reg.users.contains(name) {
                only_reply(r, CommandModel::Text(TcpCommandType::InvalidUsername, taken_text(name)))
                    && s2.state == SessionState::Closed && s2.username is None && reg2 == reg
            } else {
                only_reply(r, CommandModel::Simple(TcpCommandType::HelloFromServer)) && s2.state
                    == SessionState::Idle && s2.username == Some(name) && reg2 == RegistryView {
                    users: reg.users.push(name),
                    ..reg
                }
            },
        },
        _ => only_reply(r, CommandModel::Text(TcpCommandType::InvalidUsername, hello_expected_text()))
            && s2.state == SessionState::Closed && s2.username is None && reg2 == reg,
    }
}

/// What a join request does for user `u`: the room must exist and the user be
/// free; then either no fresh identifier could be drawn, or the user is in the
/// room under fresh identifiers and the call begins.
pub open spec fn join_post(
    reg: RegistryView,
    reg2: RegistryView,
    s2: SessionView,
    u: Seq<char>,
    n: Seq<char>,
    r: SessionOutput,
) -> bool {
    &&& !room_exists(reg, n) ==> only_reply(
        r,
        CommandModel::Text(TcpCommandType::InvalidJoinRoom, join_missing_text()),
    ) && s2.state == SessionState::Idle && reg2 == reg
    &&& forall|i: int|
        0 <= i < reg.rooms.len() && (#[trigger] reg.rooms[i]).name == n ==> if !can_join(reg, u) {
            only_reply(
                r,
                CommandModel::Text(TcpCommandType::InvalidJoinRoom, join_unavailable_text()),
            ) && s2.state == SessionState::Idle && reg2 == reg
        } else {
            (!ids_certain(reg, i) && only_reply(
                r,
                CommandModel::Text(TcpCommandType::InvalidJoinRoom, join_exhausted_text()),
            ) && s2.state == SessionState::Idle && reg2 == reg) || (s2.state
                == SessionState::InCall && exists|sid: u8, rsid: u8|
                !sid_taken(reg, sid) && !rsid_taken(reg.rooms[i], rsid) && reg2 == joined(
                    reg,
                    i,
                    u,
                    sid,
                    rsid,
                ) && replies_of(r) == join_replies(sid, reg.rooms[i].members) && notices_of(r)
                    == join_notices(rsid, reg.rooms[i].members))
        }
}

/// What a request does in `Idle` for user `u`; anything that is not a request
/// closes the session.
pub open spec fn idle_post(
    reg: RegistryView,
    reg2: RegistryView,
    s2: SessionView,
    u: Seq<char>,
    command: CommandModel,
    r: SessionOutput,
) -> bool {
    match command {
        CommandModel::Simple(TcpCommandType::GetActiveUsers) => only_reply(
            r,
            CommandModel::TextList(TcpCommandType::ReturnActiveUsers, reg.users),
        ) && s2.state == SessionState::Idle && reg2 == reg,
        CommandModel::Simple(TcpCommandType::GetRooms) => only_reply(
            r,
            CommandModel::TextList(TcpCommandType::ReturnRooms, room_names(reg)),
        ) && s2.state == SessionState::Idle && reg2 == reg,
        CommandModel::Text(TcpCommandType::CreateRoom, n) => s2.state == SessionState::Idle && match name_error(n) {
            Some(e) => only_reply(
                r,
                CommandModel::Text(TcpCommandType::InvalidRoomName, room_name_error_text(e)),
            ) && reg2 == reg,
            None => if room_exists(reg, n) {
                only_reply(r, CommandModel::Text(TcpCommandType::InvalidRoomName, room_exists_text(n)))
                    && reg2 == reg
            } else {
                only_reply(r, CommandModel::Simple(TcpCommandType::CreateRoomSuccess)) && reg2
                    == RegistryView {
                    rooms: reg.rooms.push(RoomView { name: n, members: seq![] }),
                    ..reg
                }
            },
        },
        CommandModel::Text(TcpCommandType::DeleteRoom, n) => s2.state == SessionState::Idle && (
        !room_exists(reg, n) ==> only_reply(
            r,
            CommandModel::Text(TcpCommandType::InvalidRoomName, room_missing_text(n)),
        ) && reg2 == reg) && forall|i: int|
            0 <= i < reg.rooms.len() && (#[trigger] reg.rooms[i]).name == n ==> if reg.rooms[i].members.len()
                > 0 {
                only_reply(r, CommandModel::Text(TcpCommandType::InvalidRoomName, room_in_use_text(n)))
                    && reg2 == reg
            } else {
                only_reply(r, CommandModel::Simple(TcpCommandType::DeleteRoomSuccess)) && reg2
                    == RegistryView { rooms: reg.rooms.remove(i), ..reg }
            },
        CommandModel::Text(TcpCommandType::JoinRoom, n) => join_post(reg, reg2, s2, u, n, r),
        _ => silent(r) && s2.state == SessionState::Closed && reg2 == reg,
    }
}

fn text_reply(command_type: TcpCommandType, payload: String) -> (r: SessionOutput)
    ensures
        only_reply(r, CommandModel::Text(command_type, payload@)),
{
    let out = SessionOutput {
        replies: vec![TcpCommand::WithStringPayload { command_type, payload }],
        notices: Vec::new(),
    };
    assert(replies_of(out) =~= seq![CommandModel::Text(command_type, payload@)]);
    out
}

fn simple_reply(command_type: TcpCommandType) -> (r: SessionOutput)
    ensures
        only_reply(r, CommandModel::Simple(command_type)),
{
    let out = SessionOutput {
        replies: vec![TcpCommand::Simple(command_type)],
        notices: Vec::new(),
    };
    assert(replies_of(out) =~= seq![CommandModel::Simple(command_type)]);
    out
}

fn list_reply(command_type: TcpCommandType, payload: Vec<String>) -> (r: SessionOutput)
    ensures
        only_reply(r, CommandModel::TextList(command_type, strings_view(payload@))),
{
    let ghost ss = strings_view(payload@);
    let out = SessionOutput {
        replies: vec![TcpCommand::WithMultiStringPayload { command_type, payload }],
        notices: Vec::new(),
    };
    assert(replies_of(out) =~= seq![CommandModel::TextList(command_type, ss)]);
    out
}

fn no_output() -> (r: SessionOutput)
    ensures
        silent(r),
{
    let out = SessionOutput { replies: Vec::new(), notices: Vec::new() };
    assert(replies_of(out) =~= seq![]);
    assert(notices_of(out) =~= seq![]);
    out
}

fn username_error_message(e: NameError) -> (r: String)
    ensures
        r@ == username_error_text(e),
{
    match e {
        NameError::InvalidCharacters => String::from_str(
            "Username must contain only letters, numbers, underscores (_), or hyphens (-).",
        ),
        NameError::TooLong => String::from_str(
            "Username must be less than or equal to 20 characters.",
        ),
        NameError::Empty => String::from_str("Username must not be empty."),
    }
}

fn room_name_error_message(e: NameError) -> (r: String)
    ensures
        r@ == room_name_error_text(e),
{
    match e {
        NameError::InvalidCharacters => String::from_str(
            "Room name must contain only letters, numbers, underscores (_), or hyphens (-).",
        ),
        NameError::TooLong => String::from_str(
            "Room name must be less than or equal to 20 characters.",
        ),
        NameError::Empty => String::from_str("Room name must not be empty."),
    }
}

/// The replies and notices of a successful join.
pub fn join_response(outcome: &JoinOutcome) -> (r: SessionOutput)
    ensures
        replies_of(r) == join_replies(outcome.sid, members_view(outcome.existing@)),
        notices_of(r) == join_notices(outcome.rsid, members_view(outcome.existing@)),
{
    let ghost ex = members_view(outcome.existing@);
    let mut replies: Vec<TcpCommand> = Vec::new();
    replies.push(
        TcpCommand::WithStreamIDPayload {
            command_type: TcpCommandType::JoinRoomSuccess,
            payload: outcome.sid,
        },
    );
    let mut notices: Vec<(String, TcpCommand)> = Vec::new();
    let mut j: usize = 0;
    while j < outcome.existing.len()
        invariant
            j <= outcome.existing@.len(),
            ex == members_view(outcome.existing@),
            replies@.len() == j + 1,
            replies@[0]@ == CommandModel::Stream(TcpCommandType::JoinRoomSuccess, outcome.sid),
            forall|a: int|
                0 < a <= j ==> (#[trigger] replies@[a])@ == CommandModel::RoomStream(
                    TcpCommandType::OtherUserJoinedRoom,
                    ex[a - 1].1,
                ),
            notices@.len() == j,
            forall|a: int|
                0 <= a < j ==> (#[trigger] notices@[a]).0@ == ex[a].0 && notices@[a].1@
                    == CommandModel::RoomStream(TcpCommandType::OtherUserJoinedRoom, outcome.rsid),
        decreases outcome.existing@.len() - j,
    {
        let member = &outcome.existing[j];
        replies.push(
            TcpCommand::WithRoomStreamIDPayload {
                command_type: TcpCommandType::OtherUserJoinedRoom,
                payload: member.1,
            },
        );
        notices.push(
            (
                member.0.clone(),
                TcpCommand::WithRoomStreamIDPayload {
                    command_type: TcpCommandType::OtherUserJoinedRoom,
                    payload: outcome.rsid,
                },
            ),
        );
        j = j + 1;
    }
    let out = SessionOutput { replies, notices };
    assert(replies_of(out) =~= join_replies(outcome.sid, ex));
    assert(notices_of(out) =~= join_notices(outcome.rsid, ex));
    out
}

/// The notices owed to the remaining members when a user leaves.
pub fn leave_response(departures: Vec<(String, RoomStreamID)>) -> (r: SessionOutput)
    ensures
        replies_of(r).len() == 0,
        notices_of(r) == leave_commands(members_view(departures@)),
{
    let ghost d = members_view(departures@);
    let mut notices: Vec<(String, TcpCommand)> = Vec::new();
    let mut j: usize = 0;
    while j < departures.len()
        invariant
            j <= departures@.len(),
            d == members_view(departures@),
            notices@.len() == j,
            forall|a: int|
                0 <= a < j ==> (#[trigger] notices@[a]).0@ == d[a].0 && notices@[a].1@
                    == CommandModel::RoomStream(TcpCommandType::OtherUserLeftRoom, d[a].1),
        decreases departures@.len() - j,
    {
        notices.push(
            (
                departures[j].0.clone(),
                TcpCommand::WithRoomStreamIDPayload {
                    command_type: TcpCommandType::OtherUserLeftRoom,
                    payload: departures[j].1,
                },
            ),
        );
        j = j + 1;
    }
    let out = SessionOutput { replies: Vec::new(), notices };
    assert(replies_of(out) =~= seq![]);
    assert(notices_of(out) =~= leave_commands(d));
    out
}

/// Some notice sends `c` to `name`.
pub open spec fn is_notified(
    notices: Seq<(Seq<char>, CommandModel)>,
    name: Seq<char>,
    c: CommandModel,
) -> bool {
    exists|j: int| 0 <= j < notices.len() && #[trigger] notices[j] == (name, c)
}

/// After a successful join, each member already in the room is sent exactly one
/// joined notice, carrying the joiner's tag, and the joiner is told of each of
/// those members exactly once, with that member's tag, right after its own
/// stream identifier.
pub proof fn lemma_join_notifications(
    reg: RegistryView,
    i: int,
    sid: u8,
    rsid: u8,
    replies: Seq<CommandModel>,
    notices: Seq<(Seq<char>, CommandModel)>,
)
    requires
        registry_wf(reg),
        0 <= i < reg.rooms.len(),
        replies == join_replies(sid, reg.rooms[i].members),
        notices == join_notices(rsid, reg.rooms[i].members),
    ensures
        notices.len() == reg.rooms[i].members.len(),
        forall|k: int|
            0 <= k < reg.rooms[i].members.len() ==> #[trigger] notices[k] == (
                reg.rooms[i].members[k].0,
                CommandModel::RoomStream(TcpCommandType::OtherUserJoinedRoom, rsid),
            ),
        forall|a: int, b: int|
            0 <= a < notices.len() && 0 <= b < notices.len() && (#[trigger] notices[a]).0 == (
            #[trigger] notices[b]).0 ==> a == b,
        replies.len() == reg.rooms[i].members.len() + 1,
        replies[0] == CommandModel::Stream(TcpCommandType::JoinRoomSuccess, sid),
        forall|k: int|
            0 <= k < reg.rooms[i].members.len() ==> #[trigger] replies[k + 1]
                == CommandModel::RoomStream(
                TcpCommandType::OtherUserJoinedRoom,
                reg.rooms[i].members[k].1,
            ),
{
    let ms = reg.rooms[i].members;
    assert(room_wf(reg.rooms[i]));
    assert forall|a: int, b: int|
        0 <= a < notices.len() && 0 <= b < notices.len() && (#[trigger] notices[a]).0 == (
        #[trigger] notices[b]).0 implies a == b by {
        assert(notices[a].0 == ms[a].0);
        assert(notices[b].0 == ms[b].0);
    }
}

/// When a user leaves the room it was in, each other member is sent exactly one
/// left notice, carrying the leaver's tag, and the leaver is sent none.
pub proof fn lemma_leave_notifications(
    reg: RegistryView,
    ri: int,
    k: int,
    notices: Seq<(Seq<char>, CommandModel)>,
)
    requires
        registry_wf(reg),
        0 <= ri < reg.rooms.len(),
        0 <= k < reg.rooms[ri].members.len(),
        notices == leave_commands(leave_notices(reg.rooms[ri], k)),
    ensures
        notices.len() == reg.rooms[ri].members.len() - 1,
        forall|q: int|
            0 <= q < reg.rooms[ri].members.len() && q != k ==> is_notified(
                notices,
                (#[trigger] reg.rooms[ri].members[q]).0,
                CommandModel::RoomStream(TcpCommandType::OtherUserLeftRoom, reg.rooms[ri].members[k].1),
            ),
        forall|a: int, b: int|
            0 <= a < notices.len() && 0 <= b < notices.len() && (#[trigger] notices[a]).0 == (
            #[trigger] notices[b]).0 ==> a == b,
        forall|j: int| 0 <= j < notices.len() ==> (#[trigger] notices[j]).0 != reg.rooms[ri].members[k].0,
{
    let ms = reg.rooms[ri].members;
    assert(room_wf(reg.rooms[ri]));
    let rest = ms.remove(k);
    assert forall|j: int| 0 <= j < rest.len() implies #[trigger] rest[j] == ms[if j < k {
        j
    } else {
        j + 1
    }] by {}
    assert forall|q: int| 0 <= q < reg.rooms[ri].members.len() && q != k implies is_notified(
        notices,
        (#[trigger] reg.rooms[ri].members[q]).0,
        CommandModel::RoomStream(TcpCommandType::OtherUserLeftRoom, reg.rooms[ri].members[k].1),
    ) by {
        let j = if q < k {
            q
        } else {
            q - 1
        };
        assert(rest[j] == ms[q]);
        assert(notices[j] == (
            ms[q].0,
            CommandModel::RoomStream(TcpCommandType::OtherUserLeftRoom, ms[k].1),
        ));
    }
    assert forall|a: int, b: int|
        0 <= a < notices.len() && 0 <= b < notices.len() && (#[trigger] notices[a]).0 == (
        #[trigger] notices[b]).0 implies a == b by {
        assert(notices[a].0 == rest[a].0);
        assert(notices[b].0 == rest[b].0);
    }
    assert forall|j: int| 0 <= j < notices.len() implies (#[trigger] notices[j]).0 != ms[k].0 by {
        assert(notices[j].0 == rest[j].0);
    }
}

impl TcpHandler {

    /// A session for a connection that has just been accepted.
    pub fn new() -> (r: Self)
        ensures
            r@.state == SessionState::Connecting,
            r@.username is None,
            session_wf(r@),
    {
        TcpHandler { state: SessionState::Connecting, username: None }
    }

    pub fn state_of(&self) -> (r: SessionState)
        ensures
            r == self@.state,
    {
        self.state
    }

    /// The first command of a connection: a hello with a valid, unclaimed name
    /// registers the user and moves to `Idle`; anything else is answered with
    /// the reason the user was not admitted, and closes.
    pub fn greet(&mut self, registry: &mut Registry, command: TcpCommand) -> (r: SessionOutput)
        requires
            old(registry).wf(),
            old(self)@.state == SessionState::Connecting,
        ensures
            final(registry).wf(),
            session_wf(final(self)@),
            greet_post(old(registry)@, final(registry)@, final(self)@, command@, r),
    {
        match command {
            TcpCommand::WithStringPayload {
                command_type: TcpCommandType::HelloFromClient,
                payload,
            } => {
                match registry.register_user(&payload) {
                    Err(RegisterError::Name(e)) => {
                        self.state = SessionState::Closed;
                        self.username = None;
                        text_reply(TcpCommandType::InvalidUsername, username_error_message(e))
                    },
                    Err(RegisterError::Taken) => {
                        self.state = SessionState::Closed;
                        self.username = None;
                        text_reply(
                            TcpCommandType::InvalidUsername,
                            framed_name("Username '", payload.as_str(), "' is already taken."),
                        )
                    },
                    Ok(()) => {
                        self.state = SessionState::Idle;
                        self.username = Some(payload);
                        simple_reply(TcpCommandType::HelloFromServer)
                    },
                }
            },
            _ => {
                self.state = SessionState::Closed;
                self.username = None;
                text_reply(
                    TcpCommandType::InvalidUsername,
                    String::from_str("Expected a hello with a user name."),
                )
            },
        }
    }

    /// Serves one request of a greeted client: lists, room creation and
    /// deletion keep the session in `Idle`; a successful join starts the call;
    /// a command that is not a request closes the session.
    pub fn handle_command_from_user(&mut self, registry: &mut Registry, command: TcpCommand) -> (r:
        SessionOutput)
        requires
            old(registry).wf(),
            session_wf(old(self)@),
            old(self)@.state == SessionState::Idle,
        ensures
            final(registry).wf(),
            session_wf(final(self)@),
            final(self)@.username == old(self)@.username,
            idle_post(
                old(registry)@,
                final(registry)@,
                final(self)@,
                old(self)@.username->0,
                command@,
                r,
            ),
    {
        let ghost before = registry@;
        match command {
            TcpCommand::Simple(TcpCommandType::GetActiveUsers) => {
                list_reply(TcpCommandType::ReturnActiveUsers, registry.list_users())
            },
            TcpCommand::Simple(TcpCommandType::GetRooms) => {
                list_reply(TcpCommandType::ReturnRooms, registry.list_rooms())
            },
            TcpCommand::WithStringPayload { command_type: TcpCommandType::CreateRoom, payload } => {
                match registry.create_room(&payload) {
                    Err(CreateRoomError::Name(e)) => text_reply(
                        TcpCommandType::InvalidRoomName,
                        room_name_error_message(e),
                    ),
                    Err(CreateRoomError::Exists) => text_reply(
                        TcpCommandType::InvalidRoomName,
                        framed_name("Room: '", payload.as_str(), "' already exists."),
                    ),
                    Ok(()) => simple_reply(TcpCommandType::CreateRoomSuccess),
                }
            },
            TcpCommand::WithStringPayload { command_type: TcpCommandType::DeleteRoom, payload } => {
                match registry.delete_room(&payload) {
                    Err(DeleteRoomError::InUse) => text_reply(
                        TcpCommandType::InvalidRoomName,
                        framed_name(
                            "Room '",
                            payload.as_str(),
                            "' is in use and cannot be deleted at this time.",
                        ),
                    ),
                    Err(DeleteRoomError::NotFound) => text_reply(
                        TcpCommandType::InvalidRoomName,
                        framed_name("Room: '", payload.as_str(), "' does not exist."),
                    ),
                    Ok(()) => simple_reply(TcpCommandType::DeleteRoomSuccess),
                }
            },
            TcpCommand::WithStringPayload { command_type: TcpCommandType::JoinRoom, payload } => {
                let username = match &self.username {
                    Some(u) => u,
                    None => {
                        return no_output();
                    },
                };
                match registry.join_room(&payload, username) {
                    Ok(outcome) => {
                        self.state = SessionState::InCall;
                        let out = join_response(&outcome);
                        proof {
                            assert forall|i: int|
                                0 <= i < before.rooms.len() && (#[trigger] before.rooms[i]).name
                                    == payload@ && can_join(before, username@) implies exists|
                                sid: u8,
                                rsid: u8,
                            |
                                !sid_taken(before, sid) && !rsid_taken(before.rooms[i], rsid)
                                    && registry@ == joined(before, i, username@, sid, rsid)
                                    && replies_of(out) == join_replies(sid, before.rooms[i].members)
                                    && notices_of(out) == join_notices(
                                    rsid,
                                    before.rooms[i].members,
                                ) by {
                                assert(registry@ == joined(
                                    before,
                                    i,
                                    username@,
                                    outcome.sid,
                                    outcome.rsid,
                                ));
                            }
                        }
                        out
                    },
                    Err(JoinError::RoomNotFound) => text_reply(
                        TcpCommandType::InvalidJoinRoom,
                        String::from_str("Room not found"),
                    ),
                    Err(JoinError::Exhausted) => text_reply(
                        TcpCommandType::InvalidJoinRoom,
                        String::from_str("Failed to assign a stream identifier. Try again."),
                    ),
                    Err(_) => text_reply(
                        TcpCommandType::InvalidJoinRoom,
                        String::from_str("You cannot join a room now."),
                    ),
                }
            },
            _ => {
                self.state = SessionState::Closed;
                no_output()
            },
        }
    }

    /// Handles one command read from the client, whatever the state: the hello
    /// while connecting, requests while idle; in a call or after the end,
    /// commands are read and ignored.
    pub fn on_command(&mut self, registry: &mut Registry, command: TcpCommand) -> (r: SessionOutput)
        requires
            old(registry).wf(),
            session_wf(old(self)@),
        ensures
            final(registry).wf(),
            session_wf(final(self)@),
            old(self)@.state == SessionState::Connecting ==> greet_post(
                old(registry)@,
                final(registry)@,
                final(self)@,
                command@,
                r,
            ),
            old(self)@.state == SessionState::Idle ==> final(self)@.username == old(self)@.username
                && idle_post(
                old(registry)@,
                final(registry)@,
                final(self)@,
                old(self)@.username->0,
                command@,
                r,
            ),
            (old(self)@.state == SessionState::InCall || old(self)@.state == SessionState::Closed)
                ==> silent(r) && final(self)@ == old(self)@ && final(registry)@ == old(registry)@,
    {
        match self.state {
            SessionState::Connecting => self.greet(registry, command),
            SessionState::Idle => self.handle_command_from_user(registry, command),
            _ => no_output(),
        }
    }

    /// A membership notice from the user's queue: relayed to the client during a
    /// call, dropped otherwise.
    pub fn on_notification(&self, notice: TcpCommand) -> (r: SessionOutput)
        ensures
            self@.state == SessionState::InCall ==> only_reply(r, notice@),
            self@.state != SessionState::InCall ==> silent(r),
    {
        if self.state == SessionState::InCall {
            let out = SessionOutput { replies: vec![notice], notices: Vec::new() };
            assert(replies_of(out) =~= seq![notice@]);
            out
        } else {
            no_output()
        }
    }

    /// The teardown when the connection ends, for whatever reason: the greeted
    /// user leaves its room and the registry, and each remaining member of that
    /// room is owed one left notice with the leaver's tag.
    pub fn handle_disconnect_user(&mut self, registry: &mut Registry) -> (r: SessionOutput)
        requires
            old(registry).wf(),
        ensures
            final(registry).wf(),
            final(self)@.state == SessionState::Closed,
            final(self)@.username is None,
            replies_of(r).len() == 0,
            old(self)@.username is None ==> final(registry)@ == old(registry)@ && notices_of(r).len()
                == 0,
            old(self)@.username matches Some(u) ==> exists|d: Seq<(Seq<char>, u8)>|
                departed(old(registry)@, final(registry)@, u, d) && notices_of(r) == leave_commands(d),
            old(self)@.username matches Some(u) ==> !final(registry)@.users.contains(u) && !has_sid(
                final(registry)@,
                u,
            ) && !in_some_room(final(registry)@, u),
    {
        self.state = SessionState::Closed;
        match self.username.take() {
            None => no_output(),
            Some(username) => {
                let departures = registry.deregister_user(&username);
                leave_response(departures)
            },
        }
    }
}

} // verus!
