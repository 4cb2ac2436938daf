use vstd::prelude::*;

use crate::codec::clone_bytes;
use crate::errors::Error;
use vstd::pervasive::VecAdditionalExecFns;

verus! {

/// The zero-based position of an event in its creator's chain.
pub type Height = u64;

/// A frame number assigned by the external finality layer.
pub type FrameNumber = u64;

/// What one node knows about one peer: identity, where to reach it, and the
/// highest Lamport time and height observed for it so far.
pub struct DAGPeer {
    pub id: u64,
    pub public_key: Vec<u8>,
    pub base_addr: String,
    pub request_addr: String,
    pub reply_addr: String,
    pub last_known_lamport_time: u64,
    pub last_known_height: u64,
    pub last_gossip_height: u64,
}

/// The parts of a peer record that no update of clocks or heights touches.
pub open spec fn same_peer_identity(a: DAGPeer, b: DAGPeer) -> bool {
    &&& a.id == b.id
    &&& a.public_key@ == b.public_key@
    &&& a.base_addr@ == b.base_addr@
    &&& a.request_addr@ == b.request_addr@
    &&& a.reply_addr@ == b.reply_addr@
    &&& a.last_gossip_height == b.last_gossip_height
}

/// Field-by-field equality of two peer records.
pub open spec fn peer_eqv(a: DAGPeer, b: DAGPeer) -> bool {
    &&& same_peer_identity(a, b)
    &&& a.last_known_lamport_time == b.last_known_lamport_time
    &&& a.last_known_height == b.last_known_height
}

impl DAGPeer {
    /// A fresh peer record reachable at `base_addr`, with nothing observed
    /// of it yet; requests and replies go to the base address until the
    /// caller sets dedicated ones.
    pub fn new(id: u64, base_addr: String) -> (r: DAGPeer)
        ensures
            r.id == id,
            r.public_key@ == Seq::<u8>::empty(),
            r.base_addr@ == base_addr@,
            r.request_addr@ == base_addr@,
            r.reply_addr@ == base_addr@,
            r.last_known_lamport_time == 0,
            r.last_known_height == 0,
            r.last_gossip_height == 0,
    {
        let request_addr = base_addr.clone();
        let reply_addr = base_addr.clone();
        DAGPeer {
            id,
            public_key: Vec::new(),
            base_addr,
            request_addr,
            reply_addr,
            last_known_lamport_time: 0,
            last_known_height: 0,
            last_gossip_height: 0,
        }
    }

    pub fn set_public_key(&mut self, pk: Vec<u8>)
        ensures
            final(self).public_key@ == pk@,
            final(self).id == old(self).id,
            final(self).base_addr@ == old(self).base_addr@,
            final(self).request_addr@ == old(self).request_addr@,
            final(self).reply_addr@ == old(self).reply_addr@,
            final(self).last_known_lamport_time == old(self).last_known_lamport_time,
            final(self).last_known_height == old(self).last_known_height,
            final(self).last_gossip_height == old(self).last_gossip_height,
    {
        self.public_key = pk;
    }

    pub fn get_height(&self) -> (r: Height)
        ensures
            r == self.last_known_height,
    {
        self.last_known_height
    }

    pub fn get_base_addr(&self) -> (r: &String)
        ensures
            r@ == self.base_addr@,
    {
        &self.base_addr
    }

    /// The height to assign to the next locally created event of this peer:
    /// one past the stored height, which is raised along the way.
    pub fn get_next_height(&mut self) -> (r: Height)
        requires
            old(self).last_known_height < Height::MAX,
        ensures
            r == old(self).last_known_height + 1,
            final(self).last_known_height == r,
            final(self).last_known_lamport_time == old(self).last_known_lamport_time,
            same_peer_identity(*final(self), *old(self)),
    {
        let h = self.last_known_height + 1;
        self.last_known_height = h;
        h
    }

    /// Monotonically raises the stored Lamport time and height: afterwards
    /// both dominate the observed values and never fall below the old ones.
    pub fn update_lamport_time_and_height(&mut self, lamport_time: u64, height: Height)
        ensures
            final(self).last_known_lamport_time == if lamport_time > old(
                self,
            ).last_known_lamport_time {
                lamport_time
            } else {
                old(self).last_known_lamport_time
            },
            final(self).last_known_height == if height > old(self).last_known_height {
                height
            } else {
                old(self).last_known_height
            },
            final(self).last_known_lamport_time >= lamport_time,
            final(self).last_known_height >= height,
            final(self).last_known_lamport_time >= old(self).last_known_lamport_time,
            final(self).last_known_height >= old(self).last_known_height,
            same_peer_identity(*final(self), *old(self)),
    {
        if lamport_time > self.last_known_lamport_time {
            self.last_known_lamport_time = lamport_time;
        }
        if height > self.last_known_height {
            self.last_known_height = height;
        }
    }

    /// A fresh record holding the same values.
    pub fn duplicate(&self) -> (r: DAGPeer)
        ensures
            peer_eqv(r, *self),
    {
        DAGPeer {
            id: self.id,
            public_key: clone_bytes(&self.public_key),
            base_addr: self.base_addr.clone(),
            request_addr: self.request_addr.clone(),
            reply_addr: self.reply_addr.clone(),
            last_known_lamport_time: self.last_known_lamport_time,
            last_known_height: self.last_known_height,
            last_gossip_height: self.last_gossip_height,
        }
    }
}

/// One entry of a gossip snapshot: the height and Lamport time the sender
/// knows for one peer.
#[derive(Clone, Copy, PartialEq, Eq, Structural)]
pub struct GossipEntry {
    pub peer_id: u64,
    pub height: Height,
    pub lamport_time: u64,
}

/// A snapshot of what the sender knows about every peer, in peer-list
/// order.
pub struct GossipList {
    pub entries: Vec<GossipEntry>,
}

/// The gossip snapshot that a sequence of peer records yields.
pub open spec fn gossip_of(peers: Seq<DAGPeer>) -> Seq<GossipEntry> {
    Seq::new(
        peers.len(),
        |i: int|
            GossipEntry {
                peer_id: peers[i].id,
                height: peers[i].last_known_height,
                lamport_time: peers[i].last_known_lamport_time,
            },
    )
}

/// One of the records carries this identity.
pub open spec fn peers_contain(peers: Seq<DAGPeer>, id: u64) -> bool {
    exists|i: int| 0 <= i < peers.len() && (#[trigger] peers[i]).id == id
}

/// The member peer group: an ordered list with stable indexing, unique
/// identities, and a round-robin cursor.
pub struct DAGPeerList {
    pub peers: Vec<DAGPeer>,
    pub current: usize,
}

impl DAGPeerList {
    /// Identities are unique and the cursor stays inside the list.
    pub open spec fn wf(self) -> bool {
        &&& (forall|i: int, j: int|
            0 <= i < j < self.peers@.len() ==> self.peers@[i].id != self.peers@[j].id)
        &&& (self.peers@.len() == 0 ==> self.current == 0)
        &&& (self.peers@.len() > 0 ==> self.current < self.peers@.len())
    }

    pub open spec fn contains_id(self, id: u64) -> bool {
        peers_contain(self.peers@, id)
    }

    pub fn new() -> (r: DAGPeerList)
        ensures
            r.wf(),
            r.peers@.len() == 0,
            r.current == 0,
    {
        DAGPeerList { peers: Vec::new(), current: 0 }
    }

    pub fn len(&self) -> (r: usize)
        ensures
            r == self.peers@.len(),
    {
        self.peers.len()
    }

    pub fn peer_at(&self, i: usize) -> (r: &DAGPeer)
        requires
            i < self.peers@.len(),
        ensures
            *r == self.peers@[i as int],
    {
        &self.peers[i]
    }

    /// Appends a peer; refused when its identity is already present.
    pub fn add(&mut self, p: DAGPeer) -> (r: Result<(), Error>)
        requires
            old(self).wf(),
        ensures
            final(self).wf(),
            r is Ok <==> !old(self).contains_id(p.id),
            r is Ok ==> final(self).peers@ == old(self).peers@.push(p),
            r is Err ==> final(self).peers@ == old(self).peers@ && r == Err::<(), Error>(
                Error::Base,
            ),
            final(self).current == old(self).current,
    {
        let n = self.peers.len();
        let mut i: usize = 0;
        while i < n
            invariant
                i <= n,
                n == self.peers@.len(),
                self.peers@ == old(self).peers@,
                self.current == old(self).current,
                self.wf(),
                forall|j: int| 0 <= j < i ==> self.peers@[j].id != p.id,
            decreases n - i,
        {
            if self.peers[i].id == p.id {
                return Err(Error::Base);
            }
            i = i + 1;
        }
        self.peers.push(p);
        Ok(())
    }

    /// The position of the peer with the given identity; `Missing` when the
    /// identity is unknown.
    pub fn index_of(&self, id: u64) -> (r: Result<usize, Error>)
        ensures
            r is Ok <==> self.contains_id(id),
            r matches Ok(i) ==> i < self.peers@.len() && self.peers@[i as int].id == id,
            r matches Err(e) ==> e == Error::Missing,
    {
        let n = self.peers.len();
        let mut i: usize = 0;
        while i < n
            invariant
                i <= n,
                n == self.peers@.len(),
                forall|j: int| 0 <= j < i ==> self.peers@[j].id != id,
            decreases n - i,
        {
            if self.peers[i].id == id {
                return Ok(i);
            }
            i = i + 1;
        }
        Err(Error::Missing)
    }

    /// The next peer in round-robin order; the cursor advances and wraps,
    /// so every peer is visited once before any repeats.
    pub fn next_peer(&mut self) -> (r: DAGPeer)
        requires
            old(self).wf(),
            old(self).peers@.len() > 0,
        ensures
            final(self).wf(),
            peer_eqv(r, old(self).peers@[old(self).current as int]),
            final(self).peers@ == old(self).peers@,
            final(self).current == (old(self).current + 1) % (old(self).peers@.len() as int),
    {
        let n = self.peers.len();
        let p = self.peers[self.current].duplicate();
        self.current = (self.current + 1) % n;
        p
    }

    /// An atomic snapshot of the known height and Lamport time of every
    /// peer, in list order.
    pub fn get_gossip_list(&self) -> (r: GossipList)
        ensures
            r.entries@ == gossip_of(self.peers@),
    {
        let mut entries: Vec<GossipEntry> = Vec::new();
        let n = self.peers.len();
        let mut i: usize = 0;
        while i < n
            invariant
                i <= n,
                n == self.peers@.len(),
                entries@ == gossip_of(self.peers@).subrange(0, i as int),
            decreases n - i,
        {
            entries.push(
                GossipEntry {
                    peer_id: self.peers[i].id,
                    height: self.peers[i].last_known_height,
                    lamport_time: self.peers[i].last_known_lamport_time,
                },
            );
            i = i + 1;
            proof {
                assert(entries@ =~= gossip_of(self.peers@).subrange(0, i as int));
            }
        }
        proof {
            assert(gossip_of(self.peers@).subrange(0, n as int) =~= gossip_of(self.peers@));
        }
        GossipList { entries }
    }

    /// Raises the stored Lamport time and height of the peer at `i`.
    pub fn update_peer_at(&mut self, i: usize, lamport_time: u64, height: Height)
        requires
            old(self).wf(),
            i < old(self).peers@.len(),
        ensures
            final(self).wf(),
            final(self).peers@.len() == old(self).peers@.len(),
            final(self).current == old(self).current,
            forall|j: int|
                0 <= j < old(self).peers@.len() && j != i ==> final(self).peers@[j] == old(
                    self,
                ).peers@[j],
            same_peer_identity(final(self).peers@[i as int], old(self).peers@[i as int]),
            final(self).peers@[i as int].last_known_lamport_time == if lamport_time > old(
                self,
            ).peers@[i as int].last_known_lamport_time {
                lamport_time
            } else {
                old(self).peers@[i as int].last_known_lamport_time
            },
            final(self).peers@[i as int].last_known_height == if height > old(self).peers@[
                i as int
            ].last_known_height {
                height
            } else {
                old(self).peers@[i as int].last_known_height
            },
            final(self).peers@[i as int].last_known_lamport_time >= lamport_time,
            final(self).peers@[i as int].last_known_height >= height,
            final(self).peers@[i as int].last_known_lamport_time >= old(self).peers@[
                i as int
            ].last_known_lamport_time,
            final(self).peers@[i as int].last_known_height >= old(self).peers@[
                i as int
            ].last_known_height,
    {
        let mut p = self.peers[i].duplicate();
        p.update_lamport_time_and_height(lamport_time, height);
        self.peers.set(i, p);
        proof {
            assert forall|a: int, b: int|
                0 <= a < b < self.peers@.len() implies self.peers@[a].id != self.peers@[b].id by {
                assert(old(self).peers@[a].id != old(self).peers@[b].id);
            }
        }
    }

    /// Raises the height of the peer at `i` to one past its stored value
    /// and returns the new height.
    pub fn next_height_at(&mut self, i: usize) -> (r: Height)
        requires
            old(self).wf(),
            i < old(self).peers@.len(),
            old(self).peers@[i as int].last_known_height < Height::MAX,
        ensures
            final(self).wf(),
            final(self).peers@.len() == old(self).peers@.len(),
            final(self).current == old(self).current,
            forall|j: int|
                0 <= j < old(self).peers@.len() && j != i ==> final(self).peers@[j] == old(
                    self,
                ).peers@[j],
            r == old(self).peers@[i as int].last_known_height + 1,
            final(self).peers@[i as int].last_known_height == r,
            final(self).peers@[i as int].last_known_lamport_time == old(self).peers@[
                i as int
            ].last_known_lamport_time,
            same_peer_identity(final(self).peers@[i as int], old(self).peers@[i as int]),
    {
        let mut p = self.peers[i].duplicate();
        let h = p.get_next_height();
        self.peers.set(i, p);
        proof {
            assert forall|a: int, b: int|
                0 <= a < b < self.peers@.len() implies self.peers@[a].id != self.peers@[b].id by {
                assert(old(self).peers@[a].id != old(self).peers@[b].id);
            }
        }
        h
    }
}

impl Default for DAGPeerList {
    fn default() -> (r: DAGPeerList)
        ensures
            r.wf(),
            r.peers@.len() == 0,
            r.current == 0,
    {
        DAGPeerList::new()
    }
}

} // verus!
