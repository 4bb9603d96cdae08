use vstd::prelude::*;

use crate::command::{RoomStreamID, StreamID};
use crate::names::{check_name, name_error, NameError};

verus! {

/// A named room and its members, each with the tag its frames are fanned out under.
pub struct Room {
    pub name: String,
    pub username_to_rsid: Vec<(String, RoomStreamID)>,
}

/// The content of a room: its name and its members with their tags, in joining order.
pub struct RoomView {
    pub name: Seq<char>,
    pub members: Seq<(Seq<char>, u8)>,
}

impl View for Room {
    type V = RoomView;

    open spec fn view(&self) -> RoomView {
        RoomView {
            name: self.name@,
            members: self.username_to_rsid@.map_values(|e: (String, u8)| (e.0@, e.1)),
        }
    }
}

/// The content of the server's registry.
pub struct RegistryView {
    /// Connected users, in order of arrival.
    pub users: Seq<Seq<char>>,
    /// Rooms, in order of creation.
    pub rooms: Seq<RoomView>,
    /// Stream identifiers of the users in a call, with their owners.
    pub sids: Seq<(u8, Seq<char>)>,
}

/// The server's users, rooms and stream identifiers.
pub struct Registry {
    active_usernames: Vec<String>,
    rooms: Vec<Room>,
    sid_to_username: Vec<(StreamID, String)>,
}

impl View for Registry {
    type V = RegistryView;

    closed spec fn view(&self) -> RegistryView {
        RegistryView {
            users: self.active_usernames@.map_values(|s: String| s@),
            rooms: self.rooms@.map_values(|r: Room| r@),
            sids: self.sid_to_username@.map_values(|e: (u8, String)| (e.0, e.1@)),
        }
    }
}

/// `u` is a member of room `r`.
pub open spec fn in_room(r: RoomView, u: Seq<char>) -> bool {
    exists|k: int| 0 <= k < r.members.len() && (#[trigger] r.members[k]).0 == u
}

/// `u` owns a stream identifier.
pub open spec fn has_sid(v: RegistryView, u: Seq<char>) -> bool {
    exists|s: int| 0 <= s < v.sids.len() && (#[trigger] v.sids[s]).1 == u
}

/// `u` is a member of some room.
pub open spec fn in_some_room(v: RegistryView, u: Seq<char>) -> bool {
    exists|r: int| 0 <= r < v.rooms.len() && in_room(#[trigger] v.rooms[r], u)
}

/// Some room is named `name`.
pub open spec fn room_exists(v: RegistryView, name: Seq<char>) -> bool {
    exists|r: int| 0 <= r < v.rooms.len() && (#[trigger] v.rooms[r]).name == name
}

/// Members of a room are distinct, and so are their tags.
pub open spec fn room_wf(r: RoomView) -> bool {
    forall|i: int, j: int|
        0 <= i < r.members.len() && 0 <= j < r.members.len() && i != j ==> (
        #[trigger] r.members[i]).0 != (#[trigger] r.members[j]).0 && r.members[i].1
            != r.members[j].1
}

/// The registry's invariant: names are unique, identifiers are unique, every
/// member of a room is a connected user with a stream identifier, every
/// identifier belongs to a member of a room, and nobody is in two rooms.
pub open spec fn registry_wf(v: RegistryView) -> bool {
    &&& v.users.no_duplicates()
    &&& forall|i: int, j: int|
        0 <= i < v.rooms.len() && 0 <= j < v.rooms.len() && i != j ==> (#[trigger] v.rooms[i]).name
            != (#[trigger] v.rooms[j]).name
    &&& forall|r: int| 0 <= r < v.rooms.len() ==> room_wf(#[trigger] v.rooms[r])
    &&& forall|i: int, j: int|
        0 <= i < v.sids.len() && 0 <= j < v.sids.len() && i != j ==> (#[trigger] v.sids[i]).0
            != (#[trigger] v.sids[j]).0 && v.sids[i].1 != v.sids[j].1
    &&& forall|r: int, k: int|
        0 <= r < v.rooms.len() && 0 <= k < v.rooms[r].members.len() ==> v.users.contains(
            (#[trigger] v.rooms[r].members[k]).0,
        ) && has_sid(v, v.rooms[r].members[k].0)
    &&& forall|s: int| 0 <= s < v.sids.len() ==> in_some_room(v, (#[trigger] v.sids[s]).1)
    &&& forall|r1: int, r2: int, u: Seq<char>|
        0 <= r1 < v.rooms.len() && 0 <= r2 < v.rooms.len() && #[trigger] in_room(v.rooms[r1], u)
            && #[trigger] in_room(v.rooms[r2], u) ==> r1 == r2
}

/// The names of the rooms, in order.
pub open spec fn room_names(v: RegistryView) -> Seq<Seq<char>> {
    v.rooms.map_values(|r: RoomView| r.name)
}

/// The user that owns stream identifier `sid`, if any.
pub open spec fn sid_owner(v: RegistryView, sid: u8) -> Option<Seq<char>> {
    if exists|s: int| 0 <= s < v.sids.len() && (#[trigger] v.sids[s]).0 == sid {
        Some(v.sids[choose|s: int| 0 <= s < v.sids.len() && (#[trigger] v.sids[s]).0 == sid].1)
    } else {
        None
    }
}

/// Some member of the registry's calls already holds stream identifier `sid`.
pub open spec fn sid_taken(v: RegistryView, sid: u8) -> bool {
    exists|s: int| 0 <= s < v.sids.len() && (#[trigger] v.sids[s]).0 == sid
}

/// Some member of room `r` already has tag `rsid`.
pub open spec fn rsid_taken(r: RoomView, rsid: u8) -> bool {
    exists|k: int| 0 <= k < r.members.len() && (#[trigger] r.members[k]).1 == rsid
}

/// The registry after user `u` joins room number `i` with identifiers `sid` and `rsid`.
pub open spec fn joined(v: RegistryView, i: int, u: Seq<char>, sid: u8, rsid: u8) -> RegistryView {
    RegistryView {
        rooms: v.rooms.update(
            i,
            RoomView { name: v.rooms[i].name, members: v.rooms[i].members.push((u, rsid)) },
        ),
        sids: v.sids.push((sid, u)),
        ..v
    }
}

/// Every draw of identifiers for a join into room number `i` is fresh: no
/// stream identifier is in use and the room is empty, so the join cannot run
/// out of draws.
pub open spec fn ids_certain(v: RegistryView, i: int) -> bool {
    v.sids.len() == 0 && v.rooms[i].members.len() == 0
}

/// `u` is connected and not yet in a call.
pub open spec fn can_join(v: RegistryView, u: Seq<char>) -> bool {
    v.users.contains(u) && !has_sid(v, u)
}

/// What a successful join hands back: the joiner's identifiers and the members
/// that were in the room before, with their tags, in joining order.
pub struct JoinOutcome {
    pub sid: StreamID,
    pub rsid: RoomStreamID,
    pub existing: Vec<(String, RoomStreamID)>,
}

/// The members of a list of (name, tag) pairs, as character sequences.
pub open spec fn members_view(v: Seq<(String, u8)>) -> Seq<(Seq<char>, u8)> {
    v.map_values(|e: (String, u8)| (e.0@, e.1))
}

/// Why a user cannot join a room.
#[derive(Debug, Clone, Copy, PartialEq, Eq, Structural)]
pub enum JoinError {
    RoomNotFound,
    UserUnavailable,
    StreamIdTaken,
    RoomStreamIdTaken,
    Exhausted,
}

/// The notices owed to the other members when the member at position `k` leaves
/// room `r`: each remaining member, with the leaver's tag.
pub open spec fn leave_notices(r: RoomView, k: int) -> Seq<(Seq<char>, u8)> {
    r.members.remove(k).map_values(|m: (Seq<char>, u8)| (m.0, r.members[k].1))
}

/// How the registry `w` follows from `v` when user `u` leaves, owing
/// `notices` to the members left behind: `u` is dropped from the users, its
/// stream identifier is freed, and it is taken out of its room, whose other
/// members are each owed one notice with `u`'s tag.
pub open spec fn departed(
    v: RegistryView,
    w: RegistryView,
    u: Seq<char>,
    notices: Seq<(Seq<char>, u8)>,
) -> bool {
    &&& v.users.contains(u) ==> exists|i: int|
        0 <= i < v.users.len() && v.users[i] == u && w.users == v.users.remove(i)
    &&& !v.users.contains(u) ==> w.users == v.users
    &&& has_sid(v, u) ==> exists|s: int|
        0 <= s < v.sids.len() && v.sids[s].1 == u && w.sids == v.sids.remove(s)
    &&& !has_sid(v, u) ==> w.sids == v.sids
    &&& in_some_room(v, u) ==> exists|ri: int, k: int|
        0 <= ri < v.rooms.len() && 0 <= k < v.rooms[ri].members.len() && v.rooms[ri].members[k].0
            == u && w.rooms == v.rooms.update(
            ri,
            RoomView { name: v.rooms[ri].name, members: v.rooms[ri].members.remove(k) },
        ) && notices == leave_notices(v.rooms[ri], k)
    &&& !in_some_room(v, u) ==> w.rooms == v.rooms && notices.len() == 0
}

/// Where position `j` of a sequence, after the element at `i` was removed, was before.
pub open spec fn index_before_removal(j: int, i: int) -> int {
    if j < i {
        j
    } else {
        j + 1
    }
}

proof fn lemma_remove_at<A>(s: Seq<A>, i: int)
    requires
        0 <= i < s.len(),
    ensures
        s.remove(i).len() == s.len() - 1,
        forall|j: int|
            0 <= j < s.len() - 1 ==> #[trigger] s.remove(i)[j] == s[index_before_removal(j, i)],
{
}

/// Why a user cannot connect.
#[derive(Debug, Clone, Copy, PartialEq, Eq, Structural)]
pub enum RegisterError {
    Name(NameError),
    Taken,
}

/// Why a room cannot be created.
#[derive(Debug, Clone, Copy, PartialEq, Eq, Structural)]
pub enum CreateRoomError {
    Name(NameError),
    Exists,
}

/// Why a room cannot be deleted.
#[derive(Debug, Clone, Copy, PartialEq, Eq, Structural)]
pub enum DeleteRoomError {
    InUse,
    NotFound,
}

fn rsid_in_room(room: &Room, rsid: RoomStreamID) -> (r: bool)
    ensures
        r == rsid_taken(room@, rsid),
{
    let mut k: usize = 0;
    while k < room.username_to_rsid.len()
        invariant
            k <= room.username_to_rsid@.len(),
            forall|j: int| 0 <= j < k ==> (#[trigger] room@.members[j]).1 != rsid,
        decreases room.username_to_rsid@.len() - k,
    {
        if room.username_to_rsid[k].1 == rsid {
            assert(room@.members[k as int].1 == rsid);
            return true;
        }
        k = k + 1;
    }
    false
}

fn member_position(room: &Room, name: &String) -> (r: Option<usize>)
    ensures
        match r {
            Some(k) => k < room@.members.len() && room@.members[k as int].0 == name@,
            None => !in_room(room@, name@),
        },
{
    let mut k: usize = 0;
    while k < room.username_to_rsid.len()
        invariant
            k <= room.username_to_rsid@.len(),
            forall|j: int| 0 <= j < k ==> (#[trigger] room@.members[j]).0 != name@,
        decreases room.username_to_rsid@.len() - k,
    {
        if room.username_to_rsid[k].0 == *name {
            return Some(k);
        }
        k = k + 1;
    }
    None
}

fn clone_members(members: &Vec<(String, RoomStreamID)>) -> (r: Vec<(String, RoomStreamID)>)
    ensures
        members_view(r@) == members_view(members@),
{
    let mut out: Vec<(String, RoomStreamID)> = Vec::new();
    let mut k: usize = 0;
    while k < members.len()
        invariant
            k <= members@.len(),
            out@.len() == k,
            forall|j: int|
                0 <= j < k ==> (#[trigger] out@[j]).0@ == members@[j].0@ && out@[j].1
                    == members@[j].1,
        decreases members@.len() - k,
    {
        out.push((members[k].0.clone(), members[k].1));
        k = k + 1;
    }
    assert(members_view(out@) =~= members_view(members@));
    out
}

/// Most random draws made for one fresh identifier.
pub const MAX_ID_DRAWS: usize = 10000;

/// Relies on `rand::random::<u8>`: one byte from the thread-local generator.
/// Nothing is known of its value.
#[verifier::external_body]
fn random_byte() -> (r: u8) {
    rand::random::<u8>()
}

fn draw_fresh_rsid(room: &Room) -> (r: Option<RoomStreamID>)
    ensures
        r matches Some(x) ==> !rsid_taken(room@, x),
        room@.members.len() == 0 ==> r is Some,
{
    let mut tries: usize = 0;
    while tries < MAX_ID_DRAWS
        invariant
            room@.members.len() == 0 ==> tries == 0,
        decreases MAX_ID_DRAWS - tries,
    {
        let candidate = random_byte();
        if !rsid_in_room(room, candidate) {
            return Some(candidate);
        }
        tries = tries + 1;
    }
    None
}

/// No user is connected twice, and each stream identifier in use belongs to
/// exactly one user, at every moment the registry is well formed.
pub proof fn lemma_uniqueness(v: RegistryView)
    requires
        registry_wf(v),
    ensures
        forall|i: int, j: int|
            0 <= i < v.users.len() && 0 <= j < v.users.len() && v.users[i] == v.users[j] ==> i
                == j,
        forall|a: int, b: int|
            0 <= a < v.sids.len() && 0 <= b < v.sids.len() && (#[trigger] v.sids[a]).0 == (
            #[trigger] v.sids[b]).0 ==> a == b && v.sids[a].1 == v.sids[b].1,
{
}

/// Every member of a room owns a stream identifier, is a connected user, and is
/// a member of that room only.
pub proof fn lemma_membership_coherence(v: RegistryView, r: int, u: Seq<char>)
    requires
        registry_wf(v),
        0 <= r < v.rooms.len(),
        in_room(v.rooms[r], u),
    ensures
        has_sid(v, u),
        v.users.contains(u),
        forall|r2: int| 0 <= r2 < v.rooms.len() && #[trigger] in_room(v.rooms[r2], u) ==> r2 == r,
{
    let k = choose|k: int| 0 <= k < v.rooms[r].members.len() && v.rooms[r].members[k].0 == u;
    assert(v.rooms[r].members[k].0 == u);
}

/// When a member leaves, its room keeps its name and place and loses exactly
/// that member, and every other room is unchanged; so once all members of a
/// room have left, the room is empty and can be deleted.
pub proof fn lemma_leave_shrinks_room(
    v: RegistryView,
    w: RegistryView,
    u: Seq<char>,
    d: Seq<(Seq<char>, u8)>,
    ri: int,
)
    requires
        registry_wf(v),
        departed(v, w, u, d),
        0 <= ri < v.rooms.len(),
        in_room(v.rooms[ri], u),
    ensures
        w.rooms.len() == v.rooms.len(),
        w.rooms[ri].name == v.rooms[ri].name,
        w.rooms[ri].members.len() == v.rooms[ri].members.len() - 1,
        !in_room(w.rooms[ri], u),
        forall|x: Seq<char>| x != u && #[trigger] in_room(v.rooms[ri], x) ==> in_room(w.rooms[ri], x),
        forall|r: int| 0 <= r < v.rooms.len() && r != ri ==> #[trigger] w.rooms[r] == v.rooms[r],
{
    assert(in_some_room(v, u));
    let (ri2, k) = choose|ri2: int, k: int|
        0 <= ri2 < v.rooms.len() && 0 <= k < v.rooms[ri2].members.len() && v.rooms[ri2].members[k].0
            == u && w.rooms == v.rooms.update(
            ri2,
            RoomView { name: v.rooms[ri2].name, members: v.rooms[ri2].members.remove(k) },
        ) && d == leave_notices(v.rooms[ri2], k);
    assert(in_room(v.rooms[ri2], u));
    assert(ri2 == ri);
    let ms = v.rooms[ri].members;
    assert(room_wf(v.rooms[ri]));
    assert forall|q: int| 0 <= q < w.rooms[ri].members.len() implies (
    #[trigger] w.rooms[ri].members[q]).0 != u by {
        assert(w.rooms[ri].members[q] == ms[index_before_removal(q, k)]);
    }
    assert forall|x: Seq<char>| x != u && #[trigger] in_room(v.rooms[ri], x) implies in_room(
        w.rooms[ri],
        x,
    ) by {
        let q = choose|q: int| 0 <= q < ms.len() && ms[q].0 == x;
        assert(q != k);
        let q1 = if q < k {
            q
        } else {
            q - 1
        };
        assert(w.rooms[ri].members[q1] == ms[q]);
    }
}

/// When both members of a room of two leave, one after the other, the room is
/// left empty, under its name and at its place, and every other room is
/// unchanged; a delete of it then succeeds.
pub proof fn lemma_room_of_two_emptied(
    v0: RegistryView,
    v1: RegistryView,
    v2: RegistryView,
    a: Seq<char>,
    b: Seq<char>,
    d1: Seq<(Seq<char>, u8)>,
    d2: Seq<(Seq<char>, u8)>,
    ri: int,
)
    requires
        registry_wf(v0),
        registry_wf(v1),
        departed(v0, v1, a, d1),
        departed(v1, v2, b, d2),
        0 <= ri < v0.rooms.len(),
        v0.rooms[ri].members.len() == 2,
        a != b,
        in_room(v0.rooms[ri], a),
        in_room(v0.rooms[ri], b),
    ensures
        v2.rooms.len() == v0.rooms.len(),
        v2.rooms[ri].name == v0.rooms[ri].name,
        v2.rooms[ri].members.len() == 0,
        forall|r: int| 0 <= r < v0.rooms.len() && r != ri ==> #[trigger] v2.rooms[r] == v0.rooms[r],
{
    lemma_leave_shrinks_room(v0, v1, a, d1, ri);
    assert(in_room(v1.rooms[ri], b));
    lemma_leave_shrinks_room(v1, v2, b, d2, ri);
    assert forall|r: int| 0 <= r < v0.rooms.len() && r != ri implies #[trigger] v2.rooms[r]
        == v0.rooms[r] by {
        assert(v1.rooms[r] == v0.rooms[r]);
    }
}

impl Registry {
    pub open spec fn wf(&self) -> bool {
        registry_wf(self@)
    }

    /// An empty registry: no users, no rooms.
    pub fn new() -> (r: Registry)
        ensures
            r.wf(),
            r@.users.len() == 0,
            r@.rooms.len() == 0,
            r@.sids.len() == 0,
    {
        let r = Registry {
            active_usernames: Vec::new(),
            rooms: Vec::new(),
            sid_to_username: Vec::new(),
        };
        assert(r@.users =~= Seq::<Seq<char>>::empty());
        r
    }

    /// The connected users, in order of arrival.
    pub fn list_users(&self) -> (r: Vec<String>)
        ensures
            r@.map_values(|s: String| s@) == self@.users,
    {
        let mut out: Vec<String> = Vec::new();
        let mut i: usize = 0;
        while i < self.active_usernames.len()
            invariant
                i <= self.active_usernames@.len(),
                out@.len() == i,
                forall|j: int| 0 <= j < i ==> (#[trigger] out@[j])@ == self@.users[j],
            decreases self.active_usernames@.len() - i,
        {
            out.push(self.active_usernames[i].clone());
            i = i + 1;
        }
        assert(out@.map_values(|s: String| s@) =~= self@.users);
        out
    }

    /// The names of the rooms, in order of creation.
    pub fn list_rooms(&self) -> (r: Vec<String>)
        ensures
            r@.map_values(|s: String| s@) == room_names(self@),
    {
        let mut out: Vec<String> = Vec::new();
        let mut i: usize = 0;
        while i < self.rooms.len()
            invariant
                i <= self.rooms@.len(),
                out@.len() == i,
                forall|j: int| 0 <= j < i ==> (#[trigger] out@[j])@ == self@.rooms[j].name,
            decreases self.rooms@.len() - i,
        {
            out.push(self.rooms[i].name.clone());
            i = i + 1;
        }
        assert(out@.map_values(|s: String| s@) =~= room_names(self@));
        out
    }

    fn user_position(&self, name: &String) -> (r: Option<usize>)
        ensures
            match r {
                Some(i) => i < self@.users.len() && self@.users[i as int] == name@,
                None => !self@.users.contains(name@),
            },
    {
        let mut i: usize = 0;
        while i < self.active_usernames.len()
            invariant
                i <= self.active_usernames@.len(),
                forall|j: int| 0 <= j < i ==> self@.users[j] != name@,
            decreases self.active_usernames@.len() - i,
        {
            if self.active_usernames[i] == *name {
                return Some(i);
            }
            i = i + 1;
        }
        None
    }

    fn room_position(&self, name: &String) -> (r: Option<usize>)
        ensures
            match r {
                Some(i) => i < self@.rooms.len() && self@.rooms[i as int].name == name@,
                None => !room_exists(self@, name@),
            },
    {
        let mut i: usize = 0;
        while i < self.rooms.len()
            invariant
                i <= self.rooms@.len(),
                forall|j: int| 0 <= j < i ==> (#[trigger] self@.rooms[j]).name != name@,
            decreases self.rooms@.len() - i,
        {
            if self.rooms[i].name == *name {
                return Some(i);
            }
            i = i + 1;
        }
        None
    }

    /// Admits a user under `name`: refused if the name breaks the naming rules
    /// or is already connected.
    pub fn register_user(&mut self, name: &String) -> (r: Result<(), RegisterError>)
        requires
            old(self).wf(),
        ensures
            final(self).wf(),
            match name_error(name@) {
                Some(e) => r == Err::<(), RegisterError>(RegisterError::Name(e)) && final(self)@
                    == old(self)@,
                None => if old(self)@.users.contains(name@) {
                    r == Err::<(), RegisterError>(RegisterError::Taken) && final(self)@ == old(
                        self,
                    )@
                } else {
                    r is Ok && final(self)@ == RegistryView {
                        users: old(self)@.users.push(name@),
                        ..old(self)@
                    }
                },
            },
    {
        if let Some(e) = check_name(name.as_str()) {
            return Err(RegisterError::Name(e));
        }
        if self.user_position(name).is_some() {
            return Err(RegisterError::Taken);
        }
        let ghost before = self@;
        self.active_usernames.push(name.clone());
        assert(self@.users =~= before.users.push(name@));
        assert(self@.rooms =~= before.rooms);
        assert(self@.sids =~= before.sids);
        proof {
            assert forall|r: int, k: int|
                0 <= r < self@.rooms.len() && 0 <= k < self@.rooms[r].members.len() implies
                self@.users.contains((#[trigger] self@.rooms[r].members[k]).0) by {
                let u = self@.rooms[r].members[k].0;
                let i = choose|i: int| 0 <= i < before.users.len() && before.users[i] == u;
                assert(self@.users[i] == u);
            }
        }
        Ok(())
    }

    /// Creates an empty room named `name`: refused if the name breaks the naming
    /// rules or a room has it already.
    pub fn create_room(&mut self, name: &String) -> (r: Result<(), CreateRoomError>)
        requires
            old(self).wf(),
        ensures
            final(self).wf(),
            match name_error(name@) {
                Some(e) => r == Err::<(), CreateRoomError>(CreateRoomError::Name(e))
                    && final(self)@ == old(self)@,
                None => if room_exists(old(self)@, name@) {
                    r == Err::<(), CreateRoomError>(CreateRoomError::Exists) && final(self)@
                        == old(self)@
                } else {
                    r is Ok && final(self)@ == RegistryView {
                        rooms: old(self)@.rooms.push(RoomView { name: name@, members: seq![] }),
                        ..old(self)@
                    }
                },
            },
    {
        if let Some(e) = check_name(name.as_str()) {
            return Err(CreateRoomError::Name(e));
        }
        if self.room_position(name).is_some() {
            return Err(CreateRoomError::Exists);
        }
        let ghost before = self@;
        self.rooms.push(Room { name: name.clone(), username_to_rsid: Vec::new() });
        let ghost fresh = RoomView { name: name@, members: seq![] };
        assert(self@.rooms[before.rooms.len() as int].members =~= fresh.members);
        assert(self@.rooms =~= before.rooms.push(fresh));
        assert(self@.users =~= before.users);
        assert(self@.sids =~= before.sids);
        proof {
            assert forall|s: int| 0 <= s < self@.sids.len() implies in_some_room(
                self@,
                (#[trigger] self@.sids[s]).1,
            ) by {
                let u = self@.sids[s].1;
                assert(in_some_room(before, u));
                let r = choose|r: int| 0 <= r < before.rooms.len() && in_room(before.rooms[r], u);
                assert(self@.rooms[r] == before.rooms[r]);
            }
            assert forall|r1: int, r2: int, u: Seq<char>|
                0 <= r1 < self@.rooms.len() && 0 <= r2 < self@.rooms.len() && #[trigger] in_room(
                    self@.rooms[r1],
                    u,
                ) && #[trigger] in_room(self@.rooms[r2], u) implies r1 == r2 by {
                assert(!in_room(fresh, u));
            }
        }
        Ok(())
    }

    /// Deletes the room named `name`; refused while it has members, or when no
    /// room has that name.
    pub fn delete_room(&mut self, name: &String) -> (r: Result<(), DeleteRoomError>)
        requires
            old(self).wf(),
        ensures
            final(self).wf(),
            !room_exists(old(self)@, name@) ==> r == Err::<(), DeleteRoomError>(
                DeleteRoomError::NotFound,
            ) && final(self)@ == old(self)@,
            forall|i: int|
                0 <= i < old(self)@.rooms.len() && (#[trigger] old(self)@.rooms[i]).name == name@
                    ==> if old(self)@.rooms[i].members.len() > 0 {
                    r == Err::<(), DeleteRoomError>(DeleteRoomError::InUse) && final(self)@ == old(
                        self,
                    )@
                } else {
                    r is Ok && final(self)@ == RegistryView {
                        rooms: old(self)@.rooms.remove(i),
                        ..old(self)@
                    }
                },
    {
        let i = match self.room_position(name) {
            Some(i) => i,
            None => return Err(DeleteRoomError::NotFound),
        };
        if self.rooms[i].username_to_rsid.len() > 0 {
            return Err(DeleteRoomError::InUse);
        }
        let ghost before = self@;
        self.rooms.remove(i);
        proof {
            let after = self@;
            assert(after.rooms =~= before.rooms.remove(i as int));
            assert(after.users =~= before.users);
            assert(after.sids =~= before.sids);
            assert forall|j: int| 0 <= j < after.rooms.len() implies #[trigger] after.rooms[j]
                == before.rooms[if j < i {
                j
            } else {
                j + 1
            }] by {}
            assert forall|s: int| 0 <= s < after.sids.len() implies in_some_room(
                after,
                (#[trigger] after.sids[s]).1,
            ) by {
                let u = after.sids[s].1;
                assert(in_some_room(before, u));
                let r = choose|r: int| 0 <= r < before.rooms.len() && in_room(before.rooms[r], u);
                assert(r != i);
                let j = if r < i {
                    r
                } else {
                    r - 1
                };
                assert(after.rooms[j] == before.rooms[r]);
            }
            assert forall|r: int, k: int|
                0 <= r < after.rooms.len() && 0 <= k < after.rooms[r].members.len() implies
                after.users.contains((#[trigger] after.rooms[r].members[k]).0) && has_sid(
                after,
                after.rooms[r].members[k].0,
            ) by {
                let r0 = if r < i {
                    r
                } else {
                    r + 1
                };
                assert(after.rooms[r] == before.rooms[r0]);
                assert(before.rooms[r0].members[k] == after.rooms[r].members[k]);
            }
            assert forall|r1: int, r2: int, u: Seq<char>|
                0 <= r1 < after.rooms.len() && 0 <= r2 < after.rooms.len() && #[trigger] in_room(
                    after.rooms[r1],
                    u,
                ) && #[trigger] in_room(after.rooms[r2], u) implies r1 == r2 by {
                let a = if r1 < i {
                    r1
                } else {
                    r1 + 1
                };
                let b = if r2 < i {
                    r2
                } else {
                    r2 + 1
                };
                assert(after.rooms[r1] == before.rooms[a]);
                assert(after.rooms[r2] == before.rooms[b]);
            }
            assert forall|j1: int, j2: int|
                0 <= j1 < after.rooms.len() && 0 <= j2 < after.rooms.len() && j1 != j2 implies (
                #[trigger] after.rooms[j1]).name != (#[trigger] after.rooms[j2]).name by {
                let a = if j1 < i {
                    j1
                } else {
                    j1 + 1
                };
                let b = if j2 < i {
                    j2
                } else {
                    j2 + 1
                };
                assert(after.rooms[j1] == before.rooms[a]);
                assert(after.rooms[j2] == before.rooms[b]);
            }
            assert forall|j: int| 0 <= j < after.rooms.len() implies room_wf(
                #[trigger] after.rooms[j],
            ) by {
                let a = if j < i {
                    j
                } else {
                    j + 1
                };
                assert(after.rooms[j] == before.rooms[a]);
            }
        }
        Ok(())
    }

    fn sid_position_of_user(&self, name: &String) -> (r: Option<usize>)
        ensures
            match r {
                Some(s) => s < self@.sids.len() && self@.sids[s as int].1 == name@,
                None => !has_sid(self@, name@),
            },
    {
        let mut s: usize = 0;
        while s < self.sid_to_username.len()
            invariant
                s <= self.sid_to_username@.len(),
                forall|j: int| 0 <= j < s ==> (#[trigger] self@.sids[j]).1 != name@,
            decreases self.sid_to_username@.len() - s,
        {
            if self.sid_to_username[s].1 == *name {
                return Some(s);
            }
            s = s + 1;
        }
        None
    }

    /// The room at position `i`.
    pub fn room_at(&self, i: usize) -> (r: &Room)
        requires
            i < self@.rooms.len(),
        ensures
            r@ == self@.rooms[i as int],
    {
        &self.rooms[i]
    }

    /// The name of the user that owns stream identifier `sid`, if any.
    pub fn sid_owner_name(&self, sid: StreamID) -> (r: Option<String>)
        requires
            self.wf(),
        ensures
            r matches Some(n) ==> sid_owner(self@, sid) == Some(n@),
            r is None ==> sid_owner(self@, sid) is None,
    {
        let mut s: usize = 0;
        while s < self.sid_to_username.len()
            invariant
                s <= self.sid_to_username@.len(),
                registry_wf(self@),
                forall|j: int| 0 <= j < s ==> (#[trigger] self@.sids[j]).0 != sid,
            decreases self.sid_to_username@.len() - s,
        {
            if self.sid_to_username[s].0 == sid {
                proof {
                    let v = self@;
                    assert(v.sids[s as int].0 == sid);
                    let c = choose|c: int| 0 <= c < v.sids.len() && (#[trigger] v.sids[c]).0 == sid;
                    assert(c == s);
                }
                return Some(self.sid_to_username[s].1.clone());
            }
            s = s + 1;
        }
        None
    }

    fn sid_in_use(&self, sid: StreamID) -> (r: bool)
        ensures
            r == sid_taken(self@, sid),
    {
        let mut s: usize = 0;
        while s < self.sid_to_username.len()
            invariant
                s <= self.sid_to_username@.len(),
                forall|j: int| 0 <= j < s ==> (#[trigger] self@.sids[j]).0 != sid,
            decreases self.sid_to_username@.len() - s,
        {
            if self.sid_to_username[s].0 == sid {
                assert(self@.sids[s as int].0 == sid);
                return true;
            }
            s = s + 1;
        }
        false
    }

    /// Puts a connected user who is not in a call into the room named
    /// `room_name`, under stream identifier `sid` and room tag `rsid`.
    pub fn join_room_with(
        &mut self,
        room_name: &String,
        username: &String,
        sid: StreamID,
        rsid: RoomStreamID,
    ) -> (r: Result<JoinOutcome, JoinError>)
        requires
            old(self).wf(),
        ensures
            final(self).wf(),
            !room_exists(old(self)@, room_name@) ==> r is Err && r->Err_0 == JoinError::RoomNotFound
                && final(self)@ == old(self)@,
            forall|i: int|
                0 <= i < old(self)@.rooms.len() && (#[trigger] old(self)@.rooms[i]).name
                    == room_name@ ==> if !can_join(old(self)@, username@) {
                    r is Err && r->Err_0 == JoinError::UserUnavailable && final(self)@ == old(self)@
                } else if sid_taken(old(self)@, sid) {
                    r is Err && r->Err_0 == JoinError::StreamIdTaken && final(self)@ == old(self)@
                } else if rsid_taken(old(self)@.rooms[i], rsid) {
                    r is Err && r->Err_0 == JoinError::RoomStreamIdTaken && final(self)@ == old(
                        self,
                    )@
                } else {
                    r is Ok && r->Ok_0.sid == sid && r->Ok_0.rsid == rsid && members_view(
                        r->Ok_0.existing@,
                    ) == old(self)@.rooms[i].members && final(self)@ == joined(
                        old(self)@,
                        i,
                        username@,
                        sid,
                        rsid,
                    )
                },
    {
        let i = match self.room_position(room_name) {
            Some(i) => i,
            None => return Err(JoinError::RoomNotFound),
        };
        if self.user_position(username).is_none() || self.sid_position_of_user(username).is_some() {
            return Err(JoinError::UserUnavailable);
        }
        if self.sid_in_use(sid) {
            return Err(JoinError::StreamIdTaken);
        }
        if rsid_in_room(&self.rooms[i], rsid) {
            return Err(JoinError::RoomStreamIdTaken);
        }
        let existing = clone_members(&self.rooms[i].username_to_rsid);
        let ghost before = self@;
        let ghost u = username@;
        let mut room = self.rooms.remove(i);
        room.username_to_rsid.push((username.clone(), rsid));
        self.rooms.insert(i, room);
        self.sid_to_username.push((sid, username.clone()));
        proof {
            let after = self@;
            let target = joined(before, i as int, u, sid, rsid);
            assert(after.rooms[i as int].members =~= target.rooms[i as int].members);
            assert(after.rooms =~= target.rooms);
            assert(after.sids =~= target.sids);
            assert(after.users =~= target.users);
            let n = before.sids.len();
            let old_room = before.rooms[i as int];
            let new_room = after.rooms[i as int];
            assert(!in_some_room(before, u));
            assert(!in_room(old_room, u));
            // members of the joined room
            assert forall|a: int, b: int|
                0 <= a < new_room.members.len() && 0 <= b < new_room.members.len() && a != b
                    implies (#[trigger] new_room.members[a]).0 != (#[trigger] new_room.members[b]).0
                && new_room.members[a].1 != new_room.members[b].1 by {
                if a == old_room.members.len() {
                    assert(new_room.members[b] == old_room.members[b]);
                } else if b == old_room.members.len() {
                    assert(new_room.members[a] == old_room.members[a]);
                } else {
                    assert(room_wf(before.rooms[i as int]));
                }
            }
            assert forall|j: int| 0 <= j < after.rooms.len() implies room_wf(
                #[trigger] after.rooms[j],
            ) by {
                if j != i {
                    assert(after.rooms[j] == before.rooms[j]);
                }
            }
            assert forall|j1: int, j2: int|
                0 <= j1 < after.rooms.len() && 0 <= j2 < after.rooms.len() && j1 != j2 implies (
                #[trigger] after.rooms[j1]).name != (#[trigger] after.rooms[j2]).name by {
                assert(after.rooms[j1].name == before.rooms[j1].name);
                assert(after.rooms[j2].name == before.rooms[j2].name);
            }
            assert forall|a: int, b: int|
                0 <= a < after.sids.len() && 0 <= b < after.sids.len() && a != b implies (
                #[trigger] after.sids[a]).0 != (#[trigger] after.sids[b]).0 && after.sids[a].1
                    != after.sids[b].1 by {
                if a == n {
                    assert(after.sids[b] == before.sids[b]);
                } else if b == n {
                    assert(after.sids[a] == before.sids[a]);
                }
            }
            assert(in_room(new_room, u)) by {
                assert(new_room.members[old_room.members.len() as int].0 == u);
            }
            assert forall|r: int, k: int|
                0 <= r < after.rooms.len() && 0 <= k < after.rooms[r].members.len() implies
                after.users.contains((#[trigger] after.rooms[r].members[k]).0) && has_sid(
                after,
                after.rooms[r].members[k].0,
            ) by {
                let m = after.rooms[r].members[k].0;
                if r == i && k == old_room.members.len() {
                    assert(after.sids[n as int].1 == u);
                } else {
                    assert(after.rooms[r].members[k] == before.rooms[r].members[k]);
                    assert(has_sid(before, m));
                    let s = choose|s: int| 0 <= s < before.sids.len() && before.sids[s].1 == m;
                    assert(after.sids[s] == before.sids[s]);
                }
            }
            assert forall|s: int| 0 <= s < after.sids.len() implies in_some_room(
                after,
                (#[trigger] after.sids[s]).1,
            ) by {
                let w = after.sids[s].1;
                if s == n {
                    assert(in_room(after.rooms[i as int], w));
                } else {
                    assert(after.sids[s] == before.sids[s]);
                    assert(in_some_room(before, w));
                    let r = choose|r: int| 0 <= r < before.rooms.len() && in_room(before.rooms[r], w);
                    let k = choose|k: int|
                        0 <= k < before.rooms[r].members.len() && before.rooms[r].members[k].0 == w;
                    assert(after.rooms[r].members[k] == before.rooms[r].members[k]);
                    assert(in_room(after.rooms[r], w));
                }
            }
            assert forall|r1: int, r2: int, w: Seq<char>|
                0 <= r1 < after.rooms.len() && 0 <= r2 < after.rooms.len() && #[trigger] in_room(
                    after.rooms[r1],
                    w,
                ) && #[trigger] in_room(after.rooms[r2], w) implies r1 == r2 by {
                if w == u {
                    if r1 != i {
                        assert(after.rooms[r1] == before.rooms[r1]);
                    }
                    if r2 != i {
                        assert(after.rooms[r2] == before.rooms[r2]);
                    }
                } else {
                    let k1 = choose|k: int|
                        0 <= k < after.rooms[r1].members.len() && after.rooms[r1].members[k].0 == w;
                    let k2 = choose|k: int|
                        0 <= k < after.rooms[r2].members.len() && after.rooms[r2].members[k].0 == w;
                    assert(after.rooms[r1].members[k1] == before.rooms[r1].members[k1]);
                    assert(after.rooms[r2].members[k2] == before.rooms[r2].members[k2]);
                    assert(in_room(before.rooms[r1], w));
                    assert(in_room(before.rooms[r2], w));
                }
            }
        }
        Ok(JoinOutcome { sid, rsid, existing })
    }

    fn draw_fresh_sid(&self) -> (r: Option<StreamID>)
        ensures
            r matches Some(x) ==> !sid_taken(self@, x),
            self@.sids.len() == 0 ==> r is Some,
    {
        let mut tries: usize = 0;
        while tries < MAX_ID_DRAWS
            invariant
                self@.sids.len() == 0 ==> tries == 0,
            decreases MAX_ID_DRAWS - tries,
        {
            let candidate = random_byte();
            if !self.sid_in_use(candidate) {
                return Some(candidate);
            }
            tries = tries + 1;
        }
        None
    }

    /// Puts a connected user who is not in a call into the room named
    /// `room_name`, under a stream identifier unused on the server and a tag
    /// unused in the room, each drawn at random with at most 10 000 draws.
    /// When no identifier is in use and the room is empty, the join succeeds.
    pub fn join_room(&mut self, room_name: &String, username: &String) -> (r: Result<
        JoinOutcome,
        JoinError,
    >)
        requires
            old(self).wf(),
        ensures
            final(self).wf(),
            !room_exists(old(self)@, room_name@) ==> r is Err && r->Err_0 == JoinError::RoomNotFound
                && final(self)@ == old(self)@,
            forall|i: int|
                0 <= i < old(self)@.rooms.len() && (#[trigger] old(self)@.rooms[i]).name
                    == room_name@ ==> if !can_join(old(self)@, username@) {
                    r is Err && r->Err_0 == JoinError::UserUnavailable && final(self)@ == old(self)@
                } else {
                    (!ids_certain(old(self)@, i) && r is Err && r->Err_0 == JoinError::Exhausted
                        && final(self)@ == old(self)@) || (r is Ok && !sid_taken(old(self)@, r->Ok_0.sid) && !rsid_taken(
                        old(self)@.rooms[i],
                        r->Ok_0.rsid,
                    ) && members_view(r->Ok_0.existing@) == old(self)@.rooms[i].members
                        && final(self)@ == joined(
                        old(self)@,
                        i,
                        username@,
                        r->Ok_0.sid,
                        r->Ok_0.rsid,
                    ))
                },
    {
        let i = match self.room_position(room_name) {
            Some(i) => i,
            None => return Err(JoinError::RoomNotFound),
        };
        if self.user_position(username).is_none() || self.sid_position_of_user(username).is_some() {
            return Err(JoinError::UserUnavailable);
        }
        let sid = match self.draw_fresh_sid() {
            Some(sid) => sid,
            None => return Err(JoinError::Exhausted),
        };
        let rsid = match draw_fresh_rsid(&self.rooms[i]) {
            Some(rsid) => rsid,
            None => return Err(JoinError::Exhausted),
        };
        self.join_room_with(room_name, username, sid, rsid)
    }

    /// The room that `name` is in, and its position among the members.
    pub fn find_member(&self, name: &String) -> (r: Option<(usize, usize)>)
        ensures
            match r {
                Some((ri, k)) => ri < self@.rooms.len() && k < self@.rooms[ri as int].members.len()
                    && self@.rooms[ri as int].members[k as int].0 == name@,
                None => !in_some_room(self@, name@),
            },
    {
        let mut ri: usize = 0;
        while ri < self.rooms.len()
            invariant
                ri <= self.rooms@.len(),
                forall|j: int| 0 <= j < ri ==> !in_room(#[trigger] self@.rooms[j], name@),
            decreases self.rooms@.len() - ri,
        {
            if let Some(k) = member_position(&self.rooms[ri], name) {
                return Some((ri, k));
            }
            ri = ri + 1;
        }
        None
    }

    /// Disconnects `name`: takes it out of its room, frees its stream identifier
    /// and drops it from the connected users. Returns the notices owed to the
    /// members left in its room: each of them, with the leaver's tag.
    pub fn deregister_user(&mut self, name: &String) -> (r: Vec<(String, RoomStreamID)>)
        requires
            old(self).wf(),
        ensures
            final(self).wf(),
            departed(old(self)@, final(self)@, name@, members_view(r@)),
            !final(self)@.users.contains(name@),
            !has_sid(final(self)@, name@),
            !in_some_room(final(self)@, name@),
    {
        let ghost before = self@;
        let ghost u = name@;
        let mut notices: Vec<(String, RoomStreamID)> = Vec::new();
        let found = self.find_member(name);
        let ghost mut gri: int = 0;
        let ghost mut gk: int = 0;
        if let Some((ri, k)) = found {
            let mut room = self.rooms.remove(ri);
            let ghost old_room = room@;
            let gone = room.username_to_rsid.remove(k);
            let mut j: usize = 0;
            while j < room.username_to_rsid.len()
                invariant
                    j <= room.username_to_rsid@.len(),
                    notices@.len() == j,
                    forall|a: int|
                        0 <= a < j ==> (#[trigger] notices@[a]).0@ == room.username_to_rsid@[a].0@
                            && notices@[a].1 == gone.1,
                decreases room.username_to_rsid@.len() - j,
            {
                notices.push((room.username_to_rsid[j].0.clone(), gone.1));
                j = j + 1;
            }
            proof {
                lemma_remove_at(old_room.members, k as int);
                assert(room@.members =~= old_room.members.remove(k as int));
                assert(members_view(notices@) =~= leave_notices(old_room, k as int));
            }
            self.rooms.insert(ri, room);
            proof {
                gri = ri as int;
                gk = k as int;
            }
        }
        let ghost mid = self@;
        let ghost mut gs: int = 0;
        if let Some(s) = self.sid_position_of_user(name) {
            self.sid_to_username.remove(s);
            proof {
                gs = s as int;
            }
        }
        let ghost mut gi: int = 0;
        if let Some(i) = self.user_position(name) {
            self.active_usernames.remove(i);
            proof {
                gi = i as int;
            }
        }
        proof {
            let after = self@;
            // shape of the result
            if found is Some {
                let old_room = before.rooms[gri];
                let new_room = RoomView { name: old_room.name, members: old_room.members.remove(gk) };
                lemma_remove_at(old_room.members, gk);
                assert(mid.rooms =~= before.rooms.update(gri, new_room));
                assert(after.rooms == mid.rooms);
            } else {
                assert(mid.rooms =~= before.rooms);
                assert(after.rooms =~= before.rooms);
            }
            if has_sid(before, u) {
                lemma_remove_at(before.sids, gs);
                assert(mid.sids =~= before.sids);
                assert(after.sids =~= before.sids.remove(gs));
            } else {
                assert(after.sids =~= before.sids);
            }
            if before.users.contains(u) {
                lemma_remove_at(before.users, gi);
                assert(after.users =~= before.users.remove(gi));
            } else {
                assert(after.users =~= before.users);
            }
            // the leaver is gone everywhere
            assert forall|r: int| 0 <= r < after.rooms.len() implies !in_room(
                #[trigger] after.rooms[r],
                u,
            ) by {
                if found is Some && r == gri {
                    let old_room = before.rooms[gri];
                    assert(room_wf(old_room));
                    assert forall|q: int| 0 <= q < after.rooms[r].members.len() implies (
                    #[trigger] after.rooms[r].members[q]).0 != u by {
                        let q0 = index_before_removal(q, gk);
                        assert(after.rooms[r].members[q] == old_room.members[q0]);
                    }
                } else {
                    assert(after.rooms[r] == before.rooms[r]);
                    if in_room(before.rooms[r], u) {
                        assert(in_room(before.rooms[gri], u));
                    }
                }
            }
            assert forall|s: int| 0 <= s < after.sids.len() implies (#[trigger] after.sids[s]).1
                != u by {
                if has_sid(before, u) {
                    assert(after.sids[s] == before.sids[index_before_removal(s, gs)]);
                } else {
                    assert(after.sids[s] == before.sids[s]);
                }
            }
            assert(!after.users.contains(u)) by {
                if after.users.contains(u) {
                    let q = choose|q: int| 0 <= q < after.users.len() && after.users[q] == u;
                    if before.users.contains(u) {
                        assert(after.users[q] == before.users[index_before_removal(q, gi)]);
                    }
                }
            }
            // invariant
            assert forall|a: int, b: int|
                0 <= a < after.users.len() && 0 <= b < after.users.len() && a != b implies
                after.users[a] != after.users[b] by {
                if before.users.contains(u) {
                    assert(after.users[a] == before.users[index_before_removal(a, gi)]);
                    assert(after.users[b] == before.users[index_before_removal(b, gi)]);
                }
            }
            assert forall|j1: int, j2: int|
                0 <= j1 < after.rooms.len() && 0 <= j2 < after.rooms.len() && j1 != j2 implies (
                #[trigger] after.rooms[j1]).name != (#[trigger] after.rooms[j2]).name by {
                assert(after.rooms[j1].name == before.rooms[j1].name);
                assert(after.rooms[j2].name == before.rooms[j2].name);
            }
            assert forall|j: int| 0 <= j < after.rooms.len() implies room_wf(
                #[trigger] after.rooms[j],
            ) by {
                if found is Some && j == gri {
                    let old_room = before.rooms[gri];
                    assert(room_wf(old_room));
                    let nr = after.rooms[j];
                    assert forall|a: int, b: int|
                        0 <= a < nr.members.len() && 0 <= b < nr.members.len() && a != b implies (
                        #[trigger] nr.members[a]).0 != (#[trigger] nr.members[b]).0
                        && nr.members[a].1 != nr.members[b].1 by {
                        assert(nr.members[a] == old_room.members[index_before_removal(a, gk)]);
                        assert(nr.members[b] == old_room.members[index_before_removal(b, gk)]);
                    }
                } else {
                    assert(after.rooms[j] == before.rooms[j]);
                }
            }
            assert forall|a: int, b: int|
                0 <= a < after.sids.len() && 0 <= b < after.sids.len() && a != b implies (
                #[trigger] after.sids[a]).0 != (#[trigger] after.sids[b]).0 && after.sids[a].1
                    != after.sids[b].1 by {
                if has_sid(before, u) {
                    assert(after.sids[a] == before.sids[index_before_removal(a, gs)]);
                    assert(after.sids[b] == before.sids[index_before_removal(b, gs)]);
                }
            }
            assert forall|r: int, k: int|
                0 <= r < after.rooms.len() && 0 <= k < after.rooms[r].members.len() implies
                after.users.contains((#[trigger] after.rooms[r].members[k]).0) && has_sid(
                after,
                after.rooms[r].members[k].0,
            ) by {
                let m = after.rooms[r].members[k].0;
                let k0 = if found is Some && r == gri {
                    index_before_removal(k, gk)
                } else {
                    k
                };
                assert(after.rooms[r].members[k] == before.rooms[r].members[k0]);
                assert(in_room(after.rooms[r], m));
                assert(m != u);
                assert(before.users.contains(m));
                let j = choose|j: int| 0 <= j < before.users.len() && before.users[j] == m;
                if before.users.contains(u) {
                    let j1 = if j < gi {
                        j
                    } else {
                        j - 1
                    };
                    assert(after.users[j1] == m);
                } else {
                    assert(after.users[j] == m);
                }
                assert(has_sid(before, m));
                let s = choose|s: int| 0 <= s < before.sids.len() && before.sids[s].1 == m;
                if has_sid(before, u) {
                    assert(s != gs);
                    let s1 = if s < gs {
                        s
                    } else {
                        s - 1
                    };
                    assert(after.sids[s1] == before.sids[s]);
                } else {
                    assert(after.sids[s] == before.sids[s]);
                }
            }
            assert forall|s: int| 0 <= s < after.sids.len() implies in_some_room(
                after,
                (#[trigger] after.sids[s]).1,
            ) by {
                let w = after.sids[s].1;
                let s0 = if has_sid(before, u) {
                    index_before_removal(s, gs)
                } else {
                    s
                };
                assert(after.sids[s] == before.sids[s0]);
                assert(w != u);
                assert(in_some_room(before, w));
                let r = choose|r: int| 0 <= r < before.rooms.len() && in_room(before.rooms[r], w);
                let k = choose|k: int|
                    0 <= k < before.rooms[r].members.len() && before.rooms[r].members[k].0 == w;
                if found is Some && r == gri {
                    assert(k != gk);
                    let k1 = if k < gk {
                        k
                    } else {
                        k - 1
                    };
                    assert(after.rooms[r].members[k1] == before.rooms[r].members[k]);
                    assert(in_room(after.rooms[r], w));
                } else {
                    assert(after.rooms[r] == before.rooms[r]);
                    assert(in_room(after.rooms[r], w));
                }
            }
            assert forall|r1: int, r2: int, w: Seq<char>|
                0 <= r1 < after.rooms.len() && 0 <= r2 < after.rooms.len() && #[trigger] in_room(
                    after.rooms[r1],
                    w,
                ) && #[trigger] in_room(after.rooms[r2], w) implies r1 == r2 by {
                let k1 = choose|k: int|
                    0 <= k < after.rooms[r1].members.len() && after.rooms[r1].members[k].0 == w;
                let k2 = choose|k: int|
                    0 <= k < after.rooms[r2].members.len() && after.rooms[r2].members[k].0 == w;
                let a = if found is Some && r1 == gri {
                    index_before_removal(k1, gk)
                } else {
                    k1
                };
                let b = if found is Some && r2 == gri {
                    index_before_removal(k2, gk)
                } else {
                    k2
                };
                assert(after.rooms[r1].members[k1] == before.rooms[r1].members[a]);
                assert(after.rooms[r2].members[k2] == before.rooms[r2].members[b]);
                assert(in_room(before.rooms[r1], w));
                assert(in_room(before.rooms[r2], w));
            }
        }
        notices
    }
}

} // verus!
