use vstd::prelude::*;
use vstd::slice::slice_to_vec;

use crate::command::{RoomStreamID, StreamID};

verus! {

/// The synthetic pictures a client can send instead of its camera.
#[derive(Debug, Clone, Copy, PartialEq, Eq, Structural)]
pub enum TestPatten {
    BrokenOldTv,
    HeartRateMoniter,
    PoopPov,
}

/// The datagram a client sends: its stream identifier, then the packed frame.
pub fn sender_datagram(sid: StreamID, packed: &[u8]) -> (r: Vec<u8>)
    ensures
        r@ == seq![sid] + packed@,
{
    let mut out: Vec<u8> = Vec::new();
    out.push(sid);
    let mut i: usize = 0;
    while i < packed.len()
        invariant
            i <= packed@.len(),
            out@ == seq![sid] + packed@.take(i as int),
        decreases packed@.len() - i,
    {
        out.push(packed[i]);
        i = i + 1;
        assert(out@ =~= seq![sid] + packed@.take(i as int));
    }
    assert(packed@.take(i as int) =~= packed@);
    out
}

/// The peer with tag `rsid` is in the table.
pub open spec fn known_peer(peers: Seq<(u8, Seq<u8>)>, rsid: u8) -> bool {
    exists|i: int| 0 <= i < peers.len() && (#[trigger] peers[i]).0 == rsid
}

/// Position of the peer with tag `rsid`.
pub open spec fn peer_index(peers: Seq<(u8, Seq<u8>)>, rsid: u8) -> int {
    choose|i: int| 0 <= i < peers.len() && (#[trigger] peers[i]).0 == rsid
}

/// Each tag appears at most once.
pub open spec fn peers_wf(peers: Seq<(u8, Seq<u8>)>) -> bool {
    forall|i: int, j: int|
        0 <= i < peers.len() && 0 <= j < peers.len() && i != j ==> (#[trigger] peers[i]).0 != (
        #[trigger] peers[j]).0
}

/// The table with the frame of peer `rsid` set to `frame`.
pub open spec fn with_frame(peers: Seq<(u8, Seq<u8>)>, rsid: u8, frame: Seq<u8>) -> Seq<
    (u8, Seq<u8>),
> {
    peers.update(peer_index(peers, rsid), (rsid, frame))
}

/// The client's side of a call: the latest packed frame of each peer, keyed by
/// the peer's room tag, in the order the peers were announced.
pub struct CallHandler {
    peers: Vec<(RoomStreamID, Vec<u8>)>,
}

impl View for CallHandler {
    type V = Seq<(u8, Seq<u8>)>;

    closed spec fn view(&self) -> Seq<(u8, Seq<u8>)> {
        self.peers@.map_values(|p: (u8, Vec<u8>)| (p.0, p.1@))
    }
}

impl CallHandler {
    /// A call with no peer announced yet.
    pub fn new() -> (r: Self)
        ensures
            r@.len() == 0,
            peers_wf(r@),
    {
        let r = CallHandler { peers: Vec::new() };
        assert(r@ =~= seq![]);
        r
    }

    fn position(&self, rsid: RoomStreamID) -> (r: Option<usize>)
        requires
            peers_wf(self@),
        ensures
            match r {
                Some(i) => i < self@.len() && self@[i as int].0 == rsid && peer_index(self@, rsid)
                    == i,
                None => !known_peer(self@, rsid),
            },
    {
        let mut i: usize = 0;
        while i < self.peers.len()
            invariant
                i <= self@.len(),
                peers_wf(self@),
                forall|j: int| 0 <= j < i ==> (#[trigger] self@[j]).0 != rsid,
            decreases self@.len() - i,
        {
            if self.peers[i].0 == rsid {
                assert(self@[i as int].0 == rsid);
                return Some(i);
            }
            i = i + 1;
        }
        None
    }

    /// A member joined: its entry starts with no frame, replacing any it had.
    pub fn on_user_joined(&mut self, rsid: RoomStreamID)
        requires
            peers_wf(old(self)@),
        ensures
            peers_wf(final(self)@),
            known_peer(old(self)@, rsid) ==> final(self)@ == with_frame(old(self)@, rsid, seq![]),
            !known_peer(old(self)@, rsid) ==> final(self)@ == old(self)@.push((rsid, seq![])),
    {
        let ghost before = self@;
        match self.position(rsid) {
            Some(i) => {
                self.peers.remove(i);
                self.peers.insert(i, (rsid, Vec::new()));
                assert(self@ =~= with_frame(before, rsid, seq![]));
            },
            None => {
                self.peers.push((rsid, Vec::new()));
                assert(self@ =~= before.push((rsid, seq![])));
            },
        }
    }

    /// A member left: its entry goes.
    pub fn on_user_left(&mut self, rsid: RoomStreamID)
        requires
            peers_wf(old(self)@),
        ensures
            peers_wf(final(self)@),
            !known_peer(final(self)@, rsid),
            known_peer(old(self)@, rsid) ==> final(self)@ == old(self)@.remove(
                peer_index(old(self)@, rsid),
            ),
            !known_peer(old(self)@, rsid) ==> final(self)@ == old(self)@,
    {
        let ghost before = self@;
        if let Some(i) = self.position(rsid) {
            self.peers.remove(i);
            assert(self@ =~= before.remove(i as int));
            assert forall|j: int| 0 <= j < self@.len() implies (#[trigger] self@[j]).0 != rsid by {
                if j < i {
                    assert(self@[j] == before[j]);
                } else {
                    assert(self@[j] == before[j + 1]);
                }
            }
        }
    }

    /// A datagram `[rsid | frame]` from the relay: the frame becomes the latest
    /// of that peer if it was announced; anything else is ignored.
    pub fn on_datagram(&mut self, datagram: &[u8])
        requires
            peers_wf(old(self)@),
        ensures
            peers_wf(final(self)@),
            datagram@.len() >= 1 && known_peer(old(self)@, datagram@[0]) ==> final(self)@
                == with_frame(old(self)@, datagram@[0], datagram@.skip(1)),
            !(datagram@.len() >= 1 && known_peer(old(self)@, datagram@[0])) ==> final(self)@ == old(
                self,
            )@,
    {
        if datagram.len() < 1 {
            return;
        }
        let rsid = datagram[0];
        let ghost before = self@;
        if let Some(i) = self.position(rsid) {
            let frame = slice_to_vec(&datagram[1..datagram.len()]);
            assert(frame@ =~= datagram@.skip(1));
            self.peers.remove(i);
            self.peers.insert(i, (rsid, frame));
            assert(self@ =~= with_frame(before, rsid, datagram@.skip(1)));
        }
    }

    /// The latest frame of every peer, in the order the peers were announced.
    pub fn frames(&self) -> (r: Vec<Vec<u8>>)
        ensures
            r@.len() == self@.len(),
            forall|i: int| 0 <= i < r@.len() ==> (#[trigger] r@[i])@ == self@[i].1,
    {
        let mut out: Vec<Vec<u8>> = Vec::new();
        let mut i: usize = 0;
        while i < self.peers.len()
            invariant
                i <= self@.len(),
                out@.len() == i,
                forall|j: int| 0 <= j < i ==> (#[trigger] out@[j])@ == self@[j].1,
            decreases self@.len() - i,
        {
            out.push(slice_to_vec(self.peers[i].1.as_slice()));
            i = i + 1;
        }
        out
    }
}

} // verus!
