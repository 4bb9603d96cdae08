use vstd::prelude::*;
use vstd::slice::slice_to_vec;

use crate::registry::{has_sid, in_room, in_some_room, registry_wf, sid_owner, Registry, RegistryView};

verus! {

/// Shortest datagram that carries a stream identifier and a payload byte.
pub const MIN_DATAGRAM_LEN: usize = 2;

/// The last address seen for `name`, searching the table from the front.
pub open spec fn endpoint_of<A>(eps: Seq<(Seq<char>, A)>, name: Seq<char>) -> Option<A>
    decreases eps.len(),
{
    if eps.len() == 0 {
        None
    } else if eps[0].0 == name {
        Some(eps[0].1)
    } else {
        endpoint_of(eps.drop_first(), name)
    }
}

/// Each user appears at most once in an endpoint table.
pub open spec fn endpoints_wf<A>(eps: Seq<(Seq<char>, A)>) -> bool {
    forall|i: int, j: int|
        0 <= i < eps.len() && 0 <= j < eps.len() && i != j ==> (#[trigger] eps[i]).0 != (
        #[trigger] eps[j]).0
}

/// The table after learning that `name` sends from `addr`: its entry is
/// replaced, or added at the end.
pub open spec fn learned<A>(eps: Seq<(Seq<char>, A)>, name: Seq<char>, addr: A) -> Seq<
    (Seq<char>, A),
> {
    if exists|i: int| 0 <= i < eps.len() && (#[trigger] eps[i]).0 == name {
        eps.update(choose|i: int| 0 <= i < eps.len() && (#[trigger] eps[i]).0 == name, (name, addr))
    } else {
        eps.push((name, addr))
    }
}

/// The datagrams sent for one packet: one to each member other than the sender
/// whose address is known, in membership order.
pub open spec fn fanout<A>(
    members: Seq<(Seq<char>, u8)>,
    sender: Seq<char>,
    eps: Seq<(Seq<char>, A)>,
    packet: Seq<u8>,
) -> Seq<(A, Seq<u8>)>
    decreases members.len(),
{
    if members.len() == 0 {
        seq![]
    } else {
        let rest = fanout(members.drop_last(), sender, eps, packet);
        let m = members.last();
        if m.0 != sender && endpoint_of(eps, m.0) is Some {
            rest.push((endpoint_of(eps, m.0)->0, packet))
        } else {
            rest
        }
    }
}

/// The datagrams of a send list, as (address, bytes) pairs.
pub open spec fn sends_view<A>(v: Seq<(A, Vec<u8>)>) -> Seq<(A, Seq<u8>)> {
    v.map_values(|e: (A, Vec<u8>)| (e.0, e.1@))
}

/// A user that owns no stream identifier (one that has left) is the owner of
/// none, so no datagram is routed as coming from it.
pub proof fn lemma_no_forward_after_leave(v: RegistryView, u: Seq<char>, sid: u8)
    requires
        registry_wf(v),
        !has_sid(v, u),
    ensures
        sid_owner(v, sid) != Some(u),
{
    if exists|s: int| 0 <= s < v.sids.len() && (#[trigger] v.sids[s]).0 == sid {
        let s = choose|s: int| 0 <= s < v.sids.len() && (#[trigger] v.sids[s]).0 == sid;
        assert(v.sids[s].1 != u);
    }
}

/// In a room of two, a datagram from one member goes to the other member
/// alone, at its last known address, and nowhere when that address is unknown.
pub proof fn lemma_two_member_fanout<A>(
    members: Seq<(Seq<char>, u8)>,
    sender: Seq<char>,
    eps: Seq<(Seq<char>, A)>,
    packet: Seq<u8>,
)
    requires
        members.len() == 2,
        members[0].0 != members[1].0,
        members[0].0 == sender || members[1].0 == sender,
    ensures
        ({
            let other = if members[0].0 == sender {
                members[1].0
            } else {
                members[0].0
            };
            &&& endpoint_of(eps, other) matches Some(e) ==> fanout(members, sender, eps, packet)
                == seq![(e, packet)]
            &&& endpoint_of(eps, other) is None ==> fanout(members, sender, eps, packet).len() == 0
        }),
{
    let first = members.drop_last();
    assert(first.drop_last() =~= Seq::<(Seq<char>, u8)>::empty());
    assert(first.last() == members[0]);
    assert(fanout(first.drop_last(), sender, eps, packet) =~= seq![]);
    if endpoint_of(eps, members[0].0) is Some && members[0].0 != sender {
        assert(fanout(first, sender, eps, packet) =~= seq![
            (endpoint_of(eps, members[0].0)->0, packet),
        ]);
    } else {
        assert(fanout(first, sender, eps, packet) =~= seq![]);
    }
}

proof fn lemma_endpoint_at<A>(eps: Seq<(Seq<char>, A)>, x: Seq<char>, i: int)
    requires
        endpoints_wf(eps),
        0 <= i < eps.len(),
        eps[i].0 == x,
    ensures
        endpoint_of(eps, x) == Some(eps[i].1),
    decreases eps.len(),
{
    if eps[0].0 != x {
        let tail = eps.drop_first();
        assert(tail[i - 1] == eps[i]);
        assert forall|a: int, b: int|
            0 <= a < tail.len() && 0 <= b < tail.len() && a != b implies (#[trigger] tail[a]).0 != (
            #[trigger] tail[b]).0 by {
            assert(tail[a] == eps[a + 1] && tail[b] == eps[b + 1]);
        }
        lemma_endpoint_at(tail, x, i - 1);
    } else {
        assert(i == 0);
    }
}

proof fn lemma_endpoint_absent<A>(eps: Seq<(Seq<char>, A)>, x: Seq<char>)
    requires
        forall|i: int| 0 <= i < eps.len() ==> (#[trigger] eps[i]).0 != x,
    ensures
        endpoint_of(eps, x) is None,
    decreases eps.len(),
{
    if eps.len() > 0 {
        let tail = eps.drop_first();
        assert forall|i: int| 0 <= i < tail.len() implies (#[trigger] tail[i]).0 != x by {
            assert(tail[i] == eps[i + 1]);
        }
        assert(eps[0].0 != x);
        lemma_endpoint_absent(tail, x);
    }
}

/// Learning one sender's address changes no other user's known address.
pub proof fn lemma_learned_keeps_others<A>(
    eps: Seq<(Seq<char>, A)>,
    u: Seq<char>,
    addr: A,
    x: Seq<char>,
)
    requires
        endpoints_wf(eps),
        x != u,
    ensures
        endpoint_of(learned(eps, u, addr), x) == endpoint_of(eps, x),
{
    let l = learned(eps, u, addr);
    assert forall|a: int, b: int|
        0 <= a < l.len() && 0 <= b < l.len() && a != b implies (#[trigger] l[a]).0 != (
        #[trigger] l[b]).0 by {
        if exists|i: int| 0 <= i < eps.len() && (#[trigger] eps[i]).0 == u {
            let c = choose|i: int| 0 <= i < eps.len() && (#[trigger] eps[i]).0 == u;
            assert(l[a].0 == eps[a].0 && l[b].0 == eps[b].0);
        } else {
            if a == eps.len() {
                assert(l[b] == eps[b]);
            } else if b == eps.len() {
                assert(l[a] == eps[a]);
            } else {
                assert(l[a] == eps[a] && l[b] == eps[b]);
            }
        }
    }
    if exists|i: int| 0 <= i < eps.len() && (#[trigger] eps[i]).0 == x {
        let i = choose|i: int| 0 <= i < eps.len() && (#[trigger] eps[i]).0 == x;
        assert(l[i] == eps[i]);
        lemma_endpoint_at(eps, x, i);
        lemma_endpoint_at(l, x, i);
    } else {
        assert forall|i: int| 0 <= i < l.len() implies (#[trigger] l[i]).0 != x by {
            if i < eps.len() {
                assert(eps[i].0 != x);
            }
        }
        lemma_endpoint_absent(eps, x);
        lemma_endpoint_absent(l, x);
    }
}

/// In a room of two, a datagram from one member, which teaches the relay the
/// sender's address, goes to the other member alone at its last known
/// address, and nowhere when that address is unknown.
pub proof fn lemma_pair_forward<A>(
    members: Seq<(Seq<char>, u8)>,
    sender: Seq<char>,
    eps: Seq<(Seq<char>, A)>,
    from: A,
    packet: Seq<u8>,
)
    requires
        endpoints_wf(eps),
        members.len() == 2,
        members[0].0 != members[1].0,
        members[0].0 == sender || members[1].0 == sender,
    ensures
        ({
            let other = if members[0].0 == sender {
                members[1].0
            } else {
                members[0].0
            };
            let sends = fanout(members, sender, learned(eps, sender, from), packet);
            &&& endpoint_of(eps, other) matches Some(e) ==> sends == seq![(e, packet)]
            &&& endpoint_of(eps, other) is None ==> sends.len() == 0
        }),
{
    let other = if members[0].0 == sender {
        members[1].0
    } else {
        members[0].0
    };
    lemma_learned_keeps_others(eps, sender, from, other);
    lemma_two_member_fanout(members, sender, learned(eps, sender, from), packet);
}

/// The media relay: the last address seen for each sender, and the routing of
/// datagrams `[sid | payload]` to `[rsid | payload]` for the other room members.
pub struct UdpHandler<A> {
    username_to_socket_addr: Vec<(String, A)>,
}

impl<A: Copy> UdpHandler<A> {
    pub closed spec fn endpoints(&self) -> Seq<(Seq<char>, A)> {
        self.username_to_socket_addr@.map_values(|e: (String, A)| (e.0@, e.1))
    }

    /// A relay that has seen no datagram yet.
    pub fn new() -> (r: Self)
        ensures
            r.endpoints().len() == 0,
            endpoints_wf(r.endpoints()),
    {
        let r = UdpHandler { username_to_socket_addr: Vec::new() };
        assert(r.endpoints() =~= seq![]);
        r
    }

    /// The last address seen for `name`.
    pub fn endpoint(&self, name: &String) -> (r: Option<A>)
        ensures
            r == endpoint_of(self.endpoints(), name@),
    {
        let ghost eps = self.endpoints();
        let mut i: usize = 0;
        assert(eps.skip(0) =~= eps);
        while i < self.username_to_socket_addr.len()
            invariant
                i <= eps.len(),
                eps == self.endpoints(),
                endpoint_of(eps, name@) == endpoint_of(eps.skip(i as int), name@),
            decreases eps.len() - i,
        {
            assert(eps.skip(i as int).drop_first() =~= eps.skip(i + 1));
            if self.username_to_socket_addr[i].0 == *name {
                return Some(self.username_to_socket_addr[i].1);
            }
            i = i + 1;
        }
        None
    }

    fn learn(&mut self, name: &String, addr: A)
        requires
            endpoints_wf(old(self).endpoints()),
        ensures
            endpoints_wf(final(self).endpoints()),
            final(self).endpoints() == learned(old(self).endpoints(), name@, addr),
    {
        let ghost eps = self.endpoints();
        let mut i: usize = 0;
        while i < self.username_to_socket_addr.len()
            invariant
                i <= eps.len(),
                eps == self.endpoints(),
                eps == old(self).endpoints(),
                endpoints_wf(eps),
                forall|j: int| 0 <= j < i ==> (#[trigger] eps[j]).0 != name@,
            decreases eps.len() - i,
        {
            if self.username_to_socket_addr[i].0 == *name {
                let old_entry = self.username_to_socket_addr.remove(i);
                self.username_to_socket_addr.insert(i, (old_entry.0, addr));
                proof {
                    assert(eps[i as int].0 == name@);
                    let c = choose|c: int| 0 <= c < eps.len() && (#[trigger] eps[c]).0 == name@;
                    assert(c == i);
                    assert(self.endpoints() =~= eps.update(i as int, (name@, addr)));
                    assert(learned(eps, name@, addr) == eps.update(i as int, (name@, addr)));
                }
                return;
            }
            i = i + 1;
        }
        self.username_to_socket_addr.push((name.clone(), addr));
        assert(self.endpoints() =~= eps.push((name@, addr)));
    }

    /// Routes one datagram received from `from`. Shorter than two bytes, or with
    /// a stream identifier that nobody owns: dropped, nothing learned. Else the
    /// owner's address becomes `from`; if the owner is in a room, the payload goes,
    /// behind the owner's room tag, to every other member whose address is known.
    pub fn handle_datagram(&mut self, registry: &Registry, from: A, datagram: &[u8]) -> (r: Vec<
        (A, Vec<u8>),
    >)
        requires
            registry.wf(),
            endpoints_wf(old(self).endpoints()),
        ensures
            endpoints_wf(final(self).endpoints()),
            datagram@.len() < MIN_DATAGRAM_LEN || sid_owner(registry@, datagram@[0]) is None ==> r@.len()
                == 0 && final(self).endpoints() == old(self).endpoints(),
            datagram@.len() >= MIN_DATAGRAM_LEN && sid_owner(registry@, datagram@[0]) is Some ==> {
                let u = sid_owner(registry@, datagram@[0])->0;
                &&& final(self).endpoints() == learned(old(self).endpoints(), u, from)
                &&& !in_some_room(registry@, u) ==> r@.len() == 0
                &&& forall|ri: int, k: int|
                    0 <= ri < registry@.rooms.len() && 0 <= k < registry@.rooms[ri].members.len()
                        && (#[trigger] registry@.rooms[ri].members[k]).0 == u ==> sends_view(r@)
                        == fanout(
                        registry@.rooms[ri].members,
                        u,
                        final(self).endpoints(),
                        seq![registry@.rooms[ri].members[k].1] + datagram@.skip(1),
                    )
            },
    {
        if datagram.len() < MIN_DATAGRAM_LEN {
            return Vec::new();
        }
        let sid = datagram[0];
        let sender = match registry.sid_owner_name(sid) {
            Some(name) => name,
            None => return Vec::new(),
        };
        self.learn(&sender, from);
        let (ri, k) = match registry.find_member(&sender) {
            Some(found) => found,
            None => return Vec::new(),
        };
        let room = registry.room_at(ri);
        let ghost members = room@.members;
        let rsid = room.username_to_rsid[k].1;
        let mut packet: Vec<u8> = Vec::new();
        packet.push(rsid);
        let mut b: usize = 1;
        while b < datagram.len()
            invariant
                1 <= b <= datagram@.len(),
                packet@ == seq![rsid] + datagram@.subrange(1, b as int),
            decreases datagram@.len() - b,
        {
            packet.push(datagram[b]);
            b = b + 1;
            assert(packet@ =~= seq![rsid] + datagram@.subrange(1, b as int));
        }
        assert(datagram@.subrange(1, b as int) =~= datagram@.skip(1));
        let mut sends: Vec<(A, Vec<u8>)> = Vec::new();
        let mut j: usize = 0;
        while j < room.username_to_rsid.len()
            invariant
                j <= members.len(),
                members == room@.members,
                sends_view(sends@) == fanout(
                    members.take(j as int),
                    sender@,
                    self.endpoints(),
                    packet@,
                ),
            decreases members.len() - j,
        {
            assert(members.take(j + 1).drop_last() =~= members.take(j as int));
            let member = &room.username_to_rsid[j].0;
            if *member != sender {
                if let Some(addr) = self.endpoint(member) {
                    sends.push((addr, slice_to_vec(packet.as_slice())));
                    assert(sends_view(sends@) =~= fanout(
                        members.take(j + 1),
                        sender@,
                        self.endpoints(),
                        packet@,
                    ));
                }
            }
            j = j + 1;
        }
        assert(members.take(j as int) =~= members);
        proof {
            let v = registry@;
            assert forall|ri2: int, k2: int|
                0 <= ri2 < v.rooms.len() && 0 <= k2 < v.rooms[ri2].members.len() && (
                #[trigger] v.rooms[ri2].members[k2]).0 == sender@ implies ri2 == ri && k2 == k by {
                assert(in_room(v.rooms[ri2], sender@));
                assert(in_room(v.rooms[ri as int], sender@));
                assert(registry_wf(v));
            }
        }
        sends
    }
}

} // verus!
