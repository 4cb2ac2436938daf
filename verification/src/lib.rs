pub mod codec;
pub mod crypto;
pub mod dag_core;
pub mod errors;
pub mod event;
pub mod peer;
pub mod store;
pub mod stream;
pub mod sync;

use vstd::prelude::*;

use crate::codec::bytes_eq;
use crate::crypto::ed25519_verify;
use crate::crypto::sha3_of;
use crate::crypto::sig_of;
use crate::crypto::sig_valid;
use crate::dag_core::clock_dominates;
use crate::dag_core::DAGcore;
use crate::errors::Error;
use crate::event::Event;
use crate::event::EventV;
use crate::peer::DAGPeer;
use crate::peer::DAGPeerList;
use crate::peer::FrameNumber;
use crate::peer::gossip_of;
use crate::peer::peers_contain;
use crate::peer::same_peer_identity;
use crate::store::conflicts;
use crate::store::events_wf;
use crate::store::evs_of;
use crate::store::has_ch;
use crate::store::has_event;
use crate::store::has_hash;
use crate::store::insert_effect;
use crate::store::insertable;
use crate::store::other_parent_link_ok;
use crate::store::self_parent_link_ok;
use crate::store::entries_unique;
use crate::store::gossip_entries_unique;
use crate::store::gossip_result_ok;
use crate::store::Frame;
use crate::store::Store;
use crate::sync::SyncReply;
use crate::sync::SyncReq;

verus! {

/// What the engine is constructed from: timing of the initiator, local
/// addresses, the local identity with its signing seed, the member peers,
/// and the transaction-queue capacity.
pub struct DAGconfig {
    pub heartbeat: u64,
    pub proc_a_delay: u64,
    pub request_addr: String,
    pub reply_addr: String,
    pub creator: u64,
    pub secret_seed: Vec<u8>,
    pub peers: DAGPeerList,
    pub tx_pool_cap: usize,
}

/// Everything stored beyond the old length came out of the given events.
pub open spec fn all_from(evs_old: Seq<EventV>, evs_new: Seq<EventV>, events: Seq<Event>) -> bool {
    forall|q: int|
        evs_old.len() <= q < evs_new.len() ==> exists|m2: int|
            0 <= m2 < events.len() && (#[trigger] evs_new[q]) == events[m2]@
}

/// Growing the store by at most the one carried event keeps everything new
/// accounted to the carried events.
pub proof fn lemma_all_from_step(
    evs_old: Seq<EventV>,
    evs_mid: Seq<EventV>,
    evs_new: Seq<EventV>,
    events: Seq<Event>,
    k: int,
)
    requires
        all_from(evs_old, evs_mid, events),
        evs_old.len() <= evs_mid.len(),
        0 <= k < events.len(),
        evs_new == evs_mid || evs_new == evs_mid.push(events[k]@),
    ensures
        all_from(evs_old, evs_new, events),
{
    assert forall|q: int| evs_old.len() <= q < evs_new.len() implies exists|m2: int|
        0 <= m2 < events.len() && (#[trigger] evs_new[q]) == events[m2]@ by {
        if q < evs_mid.len() {
            let w = choose|w: int| 0 <= w < events.len() && (#[trigger] evs_mid[q]) == events[w]@;
            assert(evs_new[q] == evs_mid[q]);
            assert(evs_new[q] == events[w]@);
        } else {
            assert(evs_new == evs_mid.push(events[k]@));
            assert(evs_new[q] == events[k]@);
        }
    }
}

/// The fixed identity of a node: nothing a step of the engine may change.
pub open spec fn same_dag_identity(a: DAG, b: DAG) -> bool {
    &&& a.creator == b.creator
    &&& a.secret_seed@ == b.secret_seed@
    &&& a.request_addr@ == b.request_addr@
    &&& a.reply_addr@ == b.reply_addr@
    &&& a.heartbeat == b.heartbeat
    &&& a.proc_a_delay == b.proc_a_delay
}

/// The stored event carrying this content hash.
pub open spec fn event_by_hash(evs: Seq<EventV>, h: Seq<u8>) -> EventV {
    evs[choose|i: int| 0 <= i < evs.len() && (#[trigger] evs[i]).hash == h]
}

/// The frame counter a stored cursor stands for.
pub open spec fn cf_eff(cf: Option<FrameNumber>) -> int {
    match cf {
        None => 0,
        Some(x) => x as int,
    }
}

/// The transaction index a stored cursor stands for.
pub open spec fn ct_eff(ct: Option<usize>) -> int {
    match ct {
        None => 0,
        Some(x) => x as int,
    }
}

/// The stream cursor points at real positions: inside the finalised range,
/// inside the current frame, and inside the current event's transactions.
pub open spec fn cursor_ok(
    evs: Seq<EventV>,
    frames: Seq<Seq<Seq<u8>>>,
    lff: Option<FrameNumber>,
    cf: Option<FrameNumber>,
    ce: Option<usize>,
    ct: Option<usize>,
) -> bool {
    match ce {
        None => ct_eff(ct) == 0,
        Some(e) => {
            let cfv = cf_eff(cf);
            &&& 1 <= cfv <= frames.len()
            &&& (match lff {
                Some(lf) => cfv <= lf,
                None => false,
            })
            &&& (e as int) < frames[cfv - 1].len()
            &&& (ct_eff(ct) == 0 || (has_hash(evs, frames[cfv - 1][e as int]) && ct_eff(ct)
                < event_by_hash(evs, frames[cfv - 1][e as int]).transactions.len()))
        },
    }
}

/// A whole node: its mutable core, its peer registry, its event store, and
/// its fixed identity.
pub struct DAG {
    pub core: DAGcore,
    pub peers: DAGPeerList,
    pub store: Store,
    pub creator: u64,
    pub secret_seed: Vec<u8>,
    pub request_addr: String,
    pub reply_addr: String,
    pub heartbeat: u64,
    pub proc_a_delay: u64,
}

impl DAG {
    /// The engine's standing invariant: store and registry are well formed,
    /// the node is a member, the seed signs, the Lamport clock dominates
    /// every stored event, the finalised counter stays within the stored
    /// frames, and the stream cursor points at real positions.
    pub open spec fn wf(self) -> bool {
        &&& self.store.wf()
        &&& self.peers.wf()
        &&& self.peers.peers@.len() > 0
        &&& self.peers.contains_id(self.creator)
        &&& self.secret_seed@.len() == 32
        &&& clock_dominates(self.core.lamport_time, self.store.evs())
        &&& (match self.core.last_finalised_frame {
            Some(f) => f <= self.store.frs().len() && f < u64::MAX,
            None => true,
        })
        &&& cursor_ok(
            self.store.evs(),
            self.store.frs(),
            self.core.last_finalised_frame,
            self.core.current_frame,
            self.core.current_event,
            self.core.current_tx,
        )
    }

    /// Builds a node from its configuration and bootstraps the local
    /// genesis event (height zero, sentinel parents, empty payloads) into
    /// the store. Construction is refused when the peer list is empty, the
    /// local identity is not a member, or the seed has the wrong size.
    pub fn new(config: DAGconfig) -> (r: Result<DAG, Error>)
        requires
            config.peers.wf(),
        ensures
            r is Ok <==> config.peers.peers@.len() > 0 && config.peers.contains_id(config.creator)
                && config.secret_seed@.len() == 32,
            r matches Ok(d) ==> {
                &&& d.wf()
                &&& d.creator == config.creator
                &&& d.secret_seed@ == config.secret_seed@
                &&& d.request_addr@ == config.request_addr@
                &&& d.reply_addr@ == config.reply_addr@
                &&& d.heartbeat == config.heartbeat
                &&& d.proc_a_delay == config.proc_a_delay
                &&& d.core.lamport_time == 1
                &&& d.core.tx_pool@.len() == 0
                &&& d.core.tx_pool_cap == config.tx_pool_cap
                &&& !d.core.shutdown
                &&& d.core.last_finalised_frame is None
                &&& d.store.evs().len() == 1
                &&& d.store.evs()[0].creator == config.creator
                &&& d.store.evs()[0].height == 0
                &&& d.store.evs()[0].lamport_timestamp == 1
                &&& d.peers.peers@ == config.peers.peers@
            },
            r matches Err(e) ==> e == Error::Base,
    {
        if config.peers.len() == 0 {
            return Err(Error::Base);
        }
        if config.secret_seed.len() != 32 {
            return Err(Error::Base);
        }
        match config.peers.index_of(config.creator) {
            Err(_) => Err(Error::Base),
            Ok(_) => {
                let mut core = DAGcore::new(config.tx_pool_cap);
                let mut store = Store::new();
                let lamport = core.get_next_lamport_time();
                let genesis = Event::new(
                    config.creator,
                    0,
                    Vec::new(),
                    Vec::new(),
                    lamport,
                    Vec::new(),
                    Vec::new(),
                    &config.secret_seed,
                );
                let ghost gv = genesis@;
                let ok = store.insert(genesis);
                proof {
                    assert(ok);
                    assert(store.evs().len() == 1);
                    assert(store.evs()[0] == gv);
                }
                let d = DAG {
                    core,
                    peers: config.peers,
                    store,
                    creator: config.creator,
                    secret_seed: config.secret_seed,
                    request_addr: config.request_addr,
                    reply_addr: config.reply_addr,
                    heartbeat: config.heartbeat,
                    proc_a_delay: config.proc_a_delay,
                };
                Ok(d)
            },
        }
    }

    /// Requests shutdown: the workers and the stream observe the flag at
    /// their next step.
    pub fn shutdown(&mut self)
        requires
            old(self).wf(),
        ensures
            final(self).wf(),
            same_dag_identity(*final(self), *old(self)),
            final(self).core.shutdown,
            final(self).core.lamport_time == old(self).core.lamport_time,
            final(self).store == old(self).store,
            final(self).peers == old(self).peers,
    {
        self.core.set_shutdown(true);
    }

    /// Queues a client payload for the next locally created event; refused
    /// exactly when the queue is full.
    pub fn send_transaction(&mut self, tx: Vec<u8>) -> (r: Result<(), Error>)
        requires
            old(self).wf(),
        ensures
            final(self).wf(),
            same_dag_identity(*final(self), *old(self)),
            r is Ok <==> old(self).core.tx_pool@.len() < old(self).core.tx_pool_cap,
            r is Ok ==> final(self).core.tx_pool@ == old(self).core.tx_pool@.push(tx),
            r is Err ==> final(self).core.tx_pool@ == old(self).core.tx_pool@ && r == Err::<
                (),
                Error,
            >(Error::Base),
            final(self).store == old(self).store,
            final(self).peers == old(self).peers,
            final(self).core.lamport_time == old(self).core.lamport_time,
    {
        self.core.add_transaction(tx)
    }

    /// Observes the event's Lamport time and inserts it into the store;
    /// `Ok(false)` reports a key conflict, as storing does.
    pub fn insert_event(&mut self, e: Event) -> (r: Result<bool, Error>)
        requires
            old(self).wf(),
            insertable(old(self).store.evs(), e@),
        ensures
            final(self).wf(),
            same_dag_identity(*final(self), *old(self)),
            r matches Ok(b) ==> b == !conflicts(old(self).store.evs(), e@),
            r is Ok,
            final(self).store.evs() == insert_effect(old(self).store.evs(), e@),
            final(self).store.fts() == old(self).store.fts(),
            final(self).store.frs() == old(self).store.frs(),
            final(self).core.lamport_time == if e@.lamport_timestamp > old(
                self,
            ).core.lamport_time {
                e@.lamport_timestamp
            } else {
                old(self).core.lamport_time
            },
            crate::dag_core::same_core_but_clock(final(self).core, old(self).core),
            final(self).peers == old(self).peers,
    {
        let ghost old_evs = self.store.evs();
        self.core.update_lamport_time(e.lamport_timestamp);
        let ghost ev = e@;
        let rc = self.store.insert(e);
        proof {
            lemma_cursor_ok_grow(
                old_evs,
                self.store.evs(),
                self.store.frs(),
                self.core.last_finalised_frame,
                self.core.current_frame,
                self.core.current_event,
                self.core.current_tx,
                ev,
            );
        }
        Ok(rc)
    }
}

/// The cursor stays valid when the event set grows by an insert: the looked
/// up cursor event keeps both its presence and its value.
pub proof fn lemma_cursor_ok_grow(
    evs: Seq<EventV>,
    evs2: Seq<EventV>,
    frames: Seq<Seq<Seq<u8>>>,
    lff: Option<FrameNumber>,
    cf: Option<FrameNumber>,
    ce: Option<usize>,
    ct: Option<usize>,
    e: EventV,
)
    requires
        events_wf(evs2),
        evs2 == insert_effect(evs, e),
        cursor_ok(evs, frames, lff, cf, ce, ct),
    ensures
        cursor_ok(evs2, frames, lff, cf, ce, ct),
{
    if conflicts(evs, e) || has_event(evs, e) {
    } else {
        assert(evs2 == evs.push(e));
        match ce {
            None => {},
            Some(eidx) => {
                let cfv = cf_eff(cf);
                if ct_eff(ct) != 0 {
                    let h = frames[cfv - 1][eidx as int];
                    lemma_event_by_hash_stable(evs, e, h);
                }
            },
        }
    }
}

/// Appending a fresh, conflict-free event moves no stored hash: the event
/// looked up under any already present hash stays the same.
pub proof fn lemma_event_by_hash_stable(evs: Seq<EventV>, e: EventV, h: Seq<u8>)
    requires
        events_wf(evs.push(e)),
        has_hash(evs, h),
    ensures
        has_hash(evs.push(e), h),
        event_by_hash(evs.push(e), h) == event_by_hash(evs, h),
{
    let evs2 = evs.push(e);
    let i = choose|i: int| 0 <= i < evs.len() && (#[trigger] evs[i]).hash == h;
    assert(evs2[i] == evs[i]);
    assert(has_hash(evs2, h));
    let a = choose|a: int| 0 <= a < evs.len() && (#[trigger] evs[a]).hash == h;
    let b = choose|b: int| 0 <= b < evs2.len() && (#[trigger] evs2[b]).hash == h;
    assert(evs2[a] == evs[a]);
    if a != b {
        if a < b {
            assert(evs2[a].hash != evs2[b].hash);
        } else {
            assert(evs2[b].hash != evs2[a].hash);
        }
    }
}

/// The public key the registry holds for a peer.
pub open spec fn peer_pk(peers: Seq<crate::peer::DAGPeer>, id: u64) -> Seq<u8> {
    peers[choose|i: int| 0 <= i < peers.len() && (#[trigger] peers[i]).id == id].public_key@
}

/// What makes a received event acceptable: its hash really is the content
/// hash of its fields, its signature checks out under the creator's key,
/// and it is causally anchored on parents the store already holds.
pub open spec fn event_valid(evs: Seq<EventV>, e: EventV, pk: Seq<u8>) -> bool {
    &&& e.hash == sha3_of(e.content_bytes())
    &&& sig_valid(pk, e.hash, e.signature)
    &&& insertable(evs, e)
}

impl DAG {
    /// Validates a received event against the creator's public key and the
    /// store; fails only when the creator is no member.
    pub fn check_event(&self, e: &Event) -> (r: Result<bool, Error>)
        requires
            self.wf(),
        ensures
            r is Ok <==> self.peers.contains_id(e@.creator),
            r matches Ok(b) ==> b == event_valid(
                self.store.evs(),
                e@,
                peer_pk(self.peers.peers@, e@.creator),
            ),
            r matches Err(er) ==> er == Error::Missing,
    {
        let ghost evs = self.store.evs();
        let pidx = match self.peers.index_of(e.creator) {
            Ok(i) => i,
            Err(er) => {
                return Err(er);
            },
        };
        proof {
            let w = choose|i: int|
                0 <= i < self.peers.peers@.len() && (#[trigger] self.peers.peers@[i]).id
                    == e@.creator;
            if w != pidx {
                if w < pidx {
                    assert(self.peers.peers@[w].id != self.peers.peers@[pidx as int].id);
                } else {
                    assert(self.peers.peers@[pidx as int].id != self.peers.peers@[w].id);
                }
            }
            assert(peer_pk(self.peers.peers@, e@.creator) == self.peers.peers@[
                pidx as int
            ].public_key@);
        }
        let pk = &self.peers.peer_at(pidx).public_key;
        let computed = e.event_hash();
        if !bytes_eq(&computed, &e.hash) {
            return Ok(false);
        }
        if !ed25519_verify(pk, &e.hash, &e.signature) {
            return Ok(false);
        }
        if e.height > 0 {
            let sp = match self.store.get_event_of_creator(e.creator, e.height - 1) {
                Ok(x) => x,
                Err(_) => {
                    proof {
                        lemma_no_parent_key_no_link(evs, e@);
                    }
                    return Ok(false);
                },
            };
            let sp_hash_ok = bytes_eq(&sp.hash, &e.self_parent);
            let sp_lt_ok = sp.lamport_timestamp < e.lamport_timestamp;
            if !sp_hash_ok || !sp_lt_ok {
                proof {
                    lemma_self_parent_pinned(evs, e@, sp@);
                }
                return Ok(false);
            }
            let op = match self.store.get_event(&e.other_parent) {
                Ok(x) => x,
                Err(_) => {
                    return Ok(false);
                },
            };
            if !(op.lamport_timestamp < e.lamport_timestamp) {
                proof {
                    lemma_other_parent_pinned(evs, e@, op@);
                }
                return Ok(false);
            }
            proof {
                assert(self_parent_link_ok(evs, e@)) by {
                    let i = choose|i: int| 0 <= i < evs.len() && (#[trigger] evs[i]) == sp@;
                    assert(evs[i].hash == e@.self_parent);
                }
                assert(other_parent_link_ok(evs, e@)) by {
                    let i = choose|i: int| 0 <= i < evs.len() && (#[trigger] evs[i]) == op@;
                    assert(evs[i].hash == e@.other_parent);
                }
            }
        }
        Ok(true)
    }

    /// Hands the store the next finalised frame on the external finality
    /// layer's behalf; refused when the frame is empty, a hash does not
    /// resolve, or the frame numbers are exhausted.
    pub fn set_frame(&mut self, frame: Frame) -> (r: Result<FrameNumber, Error>)
        requires
            old(self).wf(),
        ensures
            final(self).wf(),
            same_dag_identity(*final(self), *old(self)),
            r matches Ok(n) ==> {
                &&& n == old(self).store.frs().len() + 1
                &&& final(self).store.frs() == old(self).store.frs().push(frame.events.deep_view())
                &&& final(self).store.evs() == old(self).store.evs()
                &&& final(self).store.fts() == old(self).store.fts()
                &&& final(self).core == old(self).core
                &&& final(self).peers == old(self).peers
            },
            r is Err ==> *final(self) == *old(self),
            r is Ok <==> (old(self).store.frs().len() < u64::MAX
                && frame.events.deep_view().len() > 0 && (forall|k: int|
                0 <= k < frame.events.deep_view().len() ==> has_hash(
                    old(self).store.evs(),
                    #[trigger] frame.events.deep_view()[k],
                ))),
    {
        let flen = self.store.frames_len();
        if !((flen as u64) < u64::MAX) {
            return Err(Error::Store);
        }
        let n = frame.events.len();
        if n == 0 {
            return Err(Error::Base);
        }
        let mut k: usize = 0;
        while k < n
            invariant
                k <= n,
                *self == *old(self),
                old(self).wf(),
                n == frame.events@.len(),
                forall|k2: int|
                    0 <= k2 < k ==> has_hash(
                        self.store.evs(),
                        #[trigger] frame.events.deep_view()[k2],
                    ),
            decreases n - k,
        {
            match self.store.get_event(&frame.events[k]) {
                Ok(_) => {
                    proof {
                        assert(frame.events.deep_view()[k as int] =~= frame.events@[k as int]@);
                    }
                },
                Err(_) => {
                    proof {
                        assert(frame.events.deep_view()[k as int] =~= frame.events@[k as int]@);
                    }
                    return Err(Error::Missing);
                },
            }
            k = k + 1;
        }
        let ghost fv = frame.events.deep_view();
        let num = self.store.set_frame(frame);
        proof {
            let frames2 = self.store.frs();
            let frames1 = old(self).store.frs();
            match self.core.current_event {
                None => {},
                Some(eidx) => {
                    let cfv = cf_eff(self.core.current_frame);
                    assert(frames2[cfv - 1] == frames1[cfv - 1]);
                },
            }
        }
        Ok(num)
    }

    /// Advances the last finalised frame on the external finality layer's
    /// behalf; the counter may only move forward and only over stored
    /// frames.
    pub fn set_last_finalised_frame(&mut self, f: FrameNumber) -> (r: Result<(), Error>)
        requires
            old(self).wf(),
        ensures
            final(self).wf(),
            same_dag_identity(*final(self), *old(self)),
            r is Ok <==> (f <= old(self).store.frs().len() && f < u64::MAX && (match old(
                self,
            ).core.last_finalised_frame {
                Some(c) => c <= f,
                None => true,
            })),
            r matches Ok(_) ==> {
                &&& final(self).core.last_finalised_frame == Some(f)
                &&& final(self).store == old(self).store
                &&& final(self).peers == old(self).peers
                &&& final(self).core.lamport_time == old(self).core.lamport_time
                &&& final(self).core.current_frame == old(self).core.current_frame
                &&& final(self).core.current_event == old(self).core.current_event
                &&& final(self).core.current_tx == old(self).core.current_tx
                &&& final(self).core.tx_pool@ == old(self).core.tx_pool@
                &&& final(self).core.shutdown == old(self).core.shutdown
            },
            r is Err ==> *final(self) == *old(self) && r == Err::<(), Error>(Error::Base),
    {
        let flen = self.store.frames_len();
        if !(f <= flen as u64) || !(f < u64::MAX) {
            return Err(Error::Base);
        }
        let ok = match self.core.last_finalised_frame {
            Some(c) => c <= f,
            None => true,
        };
        if !ok {
            return Err(Error::Base);
        }
        self.core.last_finalised_frame = Some(f);
        Ok(())
    }
}

/// Without the (creator, height - 1) key in the store, no self-parent link
/// can hold.
pub proof fn lemma_no_parent_key_no_link(evs: Seq<EventV>, e: EventV)
    requires
        e.height > 0,
        !has_ch(evs, e.creator, (e.height - 1) as u64),
    ensures
        !self_parent_link_ok(evs, e),
{
    if self_parent_link_ok(evs, e) {
        let w = choose|w: int|
            0 <= w < evs.len() && (#[trigger] evs[w]).hash == e.self_parent && evs[w].creator
                == e.creator && evs[w].height + 1 == e.height && evs[w].lamport_timestamp + 1
                <= e.lamport_timestamp;
        assert(evs[w].creator == e.creator && evs[w].height == (e.height - 1) as u64);
    }
}

/// The event stored under the (creator, height - 1) key is the only
/// possible self-parent: if it does not match, no self-parent link holds.
pub proof fn lemma_self_parent_pinned(evs: Seq<EventV>, e: EventV, sp: EventV)
    requires
        events_wf(evs),
        e.height > 0,
        has_event(evs, sp),
        sp.creator == e.creator,
        sp.height == (e.height - 1) as u64,
        !(sp.hash == e.self_parent && sp.lamport_timestamp < e.lamport_timestamp),
    ensures
        !self_parent_link_ok(evs, e),
{
    if self_parent_link_ok(evs, e) {
        let w = choose|w: int|
            0 <= w < evs.len() && (#[trigger] evs[w]).hash == e.self_parent && evs[w].creator
                == e.creator && evs[w].height + 1 == e.height && evs[w].lamport_timestamp + 1
                <= e.lamport_timestamp;
        let i = choose|i: int| 0 <= i < evs.len() && (#[trigger] evs[i]) == sp;
        if w != i {
            if w < i {
                assert(!(evs[w].creator == evs[i].creator && evs[w].height == evs[i].height));
            } else {
                assert(!(evs[i].creator == evs[w].creator && evs[i].height == evs[w].height));
            }
        }
        assert(evs[w] == sp);
    }
}

/// The event stored under the other-parent hash is the only possible other
/// parent: if its Lamport time does not fit, no other-parent link holds.
pub proof fn lemma_other_parent_pinned(evs: Seq<EventV>, e: EventV, op: EventV)
    requires
        events_wf(evs),
        has_event(evs, op),
        op.hash == e.other_parent,
        !(op.lamport_timestamp < e.lamport_timestamp),
    ensures
        !other_parent_link_ok(evs, e),
{
    if other_parent_link_ok(evs, e) {
        let w = choose|w: int|
            0 <= w < evs.len() && (#[trigger] evs[w]).hash == e.other_parent
                && evs[w].lamport_timestamp + 1 <= e.lamport_timestamp;
        let i = choose|i: int| 0 <= i < evs.len() && (#[trigger] evs[i]) == op;
        if w != i {
            if w < i {
                assert(evs[w].hash != evs[i].hash);
            } else {
                assert(evs[i].hash != evs[w].hash);
            }
        }
        assert(evs[w] == op);
    }
}

/// The peer record the registry holds for an identity.
pub open spec fn peer_of(peers: Seq<DAGPeer>, id: u64) -> DAGPeer {
    peers[choose|i: int| 0 <= i < peers.len() && (#[trigger] peers[i]).id == id]
}

/// The stored event carrying this (creator, height) key.
pub open spec fn event_at_ch(evs: Seq<EventV>, c: u64, h: u64) -> EventV {
    evs[choose|i: int|
        0 <= i < evs.len() && (#[trigger] evs[i]).creator == c && evs[i].height == h]
}

/// With unique keys, a stored event with a (creator, height) key is the one
/// looked up under it.
pub proof fn lemma_event_at_ch(evs: Seq<EventV>, ev: EventV, c: u64, h: u64)
    requires
        events_wf(evs),
        has_event(evs, ev),
        ev.creator == c,
        ev.height == h,
    ensures
        has_ch(evs, c, h),
        event_at_ch(evs, c, h) == ev,
{
    let i = choose|i: int| 0 <= i < evs.len() && (#[trigger] evs[i]) == ev;
    assert(has_ch(evs, c, h));
    let w = choose|w: int|
        0 <= w < evs.len() && (#[trigger] evs[w]).creator == c && evs[w].height == h;
    if w != i {
        if w < i {
            assert(!(evs[w].creator == evs[i].creator && evs[w].height == evs[i].height));
        } else {
            assert(!(evs[i].creator == evs[w].creator && evs[i].height == evs[w].height));
        }
    }
}

/// With unique identities, the record looked up for a listed identity is
/// the listed one.
pub proof fn lemma_peer_of(peers: Seq<DAGPeer>, j: int)
    requires
        forall|a: int, b: int|
            #![trigger peers[a], peers[b]]
            0 <= a < b < peers.len() ==> peers[a].id != peers[b].id,
        0 <= j < peers.len(),
    ensures
        peer_of(peers, peers[j].id) == peers[j],
{
    let id = peers[j].id;
    assert(0 <= j < peers.len() && peers[j].id == id);
    let w = choose|i: int| 0 <= i < peers.len() && (#[trigger] peers[i]).id == id;
    if w != j {
        if w < j {
            assert(peers[w].id != peers[j].id);
        } else {
            assert(peers[j].id != peers[w].id);
        }
    }
}

/// The event one initiator round creates, determined by the state the
/// round starts from: the next height of the local chain, one Lamport step
/// past the clock, parents at the local head and at the selected peer's
/// known head, and the queued payloads.
pub open spec fn initiator_event(d: DAG) -> EventV {
    let sel = d.peers.peers@[d.peers.current as int];
    let me = peer_of(d.peers.peers@, d.creator);
    let sp = event_at_ch(d.store.evs(), d.creator, me.last_known_height);
    let op = event_at_ch(d.store.evs(), sel.id, sel.last_known_height);
    let base = EventV {
        creator: d.creator,
        height: (me.last_known_height + 1) as u64,
        lamport_timestamp: (d.core.lamport_time + 1) as u64,
        self_parent: sp.hash,
        other_parent: op.hash,
        transactions: d.core.tx_pool.deep_view(),
        internal_transactions: d.core.internal_tx_pool.deep_view(),
        signature: Seq::empty(),
        hash: Seq::empty(),
    };
    let h = sha3_of(base.content_bytes());
    EventV { signature: sig_of(d.secret_seed@, h), hash: h, ..base }
}

impl DAG {
    /// One round of the initiator: selects the next peer round-robin,
    /// builds the synchronization request to send it, and creates, signs
    /// and stores a new local event whose other-parent is the selected
    /// peer's known head, draining the transaction queues into it. Returns
    /// the request, the selected peer's request address, and whether the
    /// new event entered the store.
    #[verifier::rlimit(100)]
    #[verifier::spinoff_prover]
    pub fn initiator_round(&mut self) -> (r: Result<(SyncReq, String, bool), Error>)
        requires
            old(self).wf(),
            old(self).core.lamport_time < u64::MAX,
        ensures
            final(self).wf(),
            same_dag_identity(*final(self), *old(self)),
            final(self).peers.current == (old(self).peers.current + 1) % (
            old(self).peers.peers@.len() as int),
            final(self).peers.peers@.len() == old(self).peers.peers@.len(),
            ({
                let sel = old(self).peers.peers@[old(self).peers.current as int];
                let me = peer_of(old(self).peers.peers@, old(self).creator);
                let evs = old(self).store.evs();
                &&& (r is Ok <==> me.last_known_height < u64::MAX && has_ch(
                    evs,
                    old(self).creator,
                    me.last_known_height,
                ) && has_ch(evs, sel.id, sel.last_known_height))
                &&& (r matches Ok((req, addr, inserted)) ==> {
                    let ev = initiator_event(*old(self));
                    &&& req.from == old(self).creator
                    &&& req.to == sel.id
                    &&& req.lamport_time == old(self).core.lamport_time
                    &&& req.gossip_list.entries@ == gossip_of(old(self).peers.peers@)
                    &&& addr@ == sel.request_addr@
                    &&& inserted == !conflicts(evs, ev)
                    &&& final(self).store.evs() == insert_effect(evs, ev)
                    &&& final(self).core.lamport_time == old(self).core.lamport_time + 1
                    &&& final(self).core.tx_pool@.len() == 0
                    &&& final(self).core.internal_tx_pool@.len() == 0
                    &&& (forall|j: int|
                        0 <= j < old(self).peers.peers@.len() && old(self).peers.peers@[j].id
                            != old(self).creator ==> final(self).peers.peers@[j] == old(
                            self,
                        ).peers.peers@[j])
                    &&& peer_of(final(self).peers.peers@, old(self).creator).last_known_height
                        == me.last_known_height + 1
                })
                &&& (r is Err ==> final(self).store == old(self).store && final(self).core == old(
                    self,
                ).core && final(self).peers.peers@ == old(self).peers.peers@)
            }),
            final(self).core.shutdown == old(self).core.shutdown,
            final(self).core.last_finalised_frame == old(self).core.last_finalised_frame,
            final(self).core.current_frame == old(self).core.current_frame,
            final(self).core.current_event == old(self).core.current_event,
            final(self).core.current_tx == old(self).core.current_tx,
    {
        let ghost old_peers = self.peers.peers@;
        let ghost evs0 = self.store.evs();
        let sel_peer = self.peers.next_peer();
        let gossip_list = self.peers.get_gossip_list();
        let lamport_now = self.core.get_lamport_time();
        let self_idx = match self.peers.index_of(self.creator) {
            Ok(i) => i,
            Err(_) => {
                proof {
                    assert(false);
                }
                return Err(Error::Missing);
            },
        };
        proof {
            lemma_peer_of(old_peers, self_idx as int);
            assert(peer_of(old_peers, self.creator) == old_peers[self_idx as int]);
        }
        let cur_height = self.peers.peer_at(self_idx).get_height();
        if cur_height == u64::MAX {
            return Err(Error::Base);
        }
        let sp_ev = match self.store.get_event_of_creator(self.creator, cur_height) {
            Ok(x) => x,
            Err(_) => {
                return Err(Error::Missing);
            },
        };
        let other_height = sel_peer.last_known_height;
        let op_ev = match self.store.get_event_of_creator(sel_peer.id, other_height) {
            Ok(x) => x,
            Err(_) => {
                return Err(Error::Missing);
            },
        };
        let height = self.peers.next_height_at(self_idx);
        let lamport_timestamp = self.core.get_next_lamport_time();
        let transactions = self.core.next_transactions();
        let internal_transactions = self.core.next_internal_transactions();
        let ghost txv = transactions.deep_view();
        let ghost itxv = internal_transactions.deep_view();
        let event = Event::new(
            self.creator,
            height,
            sp_ev.hash,
            op_ev.hash,
            lamport_timestamp,
            transactions,
            internal_transactions,
            &self.secret_seed,
        );
        let ghost ev = event@;
        proof {
            lemma_event_at_ch(evs0, sp_ev@, self.creator, cur_height);
            lemma_event_at_ch(evs0, op_ev@, sel_peer.id, other_height);
            assert(txv =~~= old(self).core.tx_pool.deep_view());
            assert(itxv =~~= old(self).core.internal_tx_pool.deep_view());
            let spec_ev = initiator_event(*old(self));
            assert(ev.content_bytes() == spec_ev.content_bytes());
            assert(ev == spec_ev);
            // the new event is causally anchored
            let i = choose|i: int| 0 <= i < evs0.len() && (#[trigger] evs0[i]) == sp_ev@;
            assert(evs0[i].hash == ev.self_parent && evs0[i].creator == ev.creator && evs0[i].height
                + 1 == ev.height && evs0[i].lamport_timestamp + 1 <= ev.lamport_timestamp);
            let w = choose|w: int| 0 <= w < evs0.len() && (#[trigger] evs0[w]) == op_ev@;
            assert(evs0[w].hash == ev.other_parent && evs0[w].lamport_timestamp + 1
                <= ev.lamport_timestamp);
            assert(insertable(evs0, ev));
        }
        let inserted = self.store.insert(event);
        proof {
            lemma_cursor_ok_grow(
                evs0,
                self.store.evs(),
                self.store.frs(),
                self.core.last_finalised_frame,
                self.core.current_frame,
                self.core.current_event,
                self.core.current_tx,
                ev,
            );
        }
        let req = SyncReq {
            from: self.creator,
            to: sel_peer.id,
            gossip_list,
            lamport_time: lamport_now,
        };
        Ok((req, sel_peer.request_addr, inserted))
    }
}

/// The store contents one synchronization reply leaves behind: each carried
/// event in turn is kept when it is valid against the store as it stands at
/// its moment, and skipped otherwise.
pub open spec fn listener_evs(
    evs: Seq<EventV>,
    peers: Seq<DAGPeer>,
    events: Seq<Event>,
    i: int,
) -> Seq<EventV>
    decreases events.len() - i,
{
    if i < 0 || i >= events.len() {
        evs
    } else {
        let e = events[i]@;
        let next = if peers_contain(peers, e.creator) && event_valid(
            evs,
            e,
            peer_pk(peers, e.creator),
        ) {
            insert_effect(evs, e)
        } else {
            evs
        };
        listener_evs(next, peers, events, i + 1)
    }
}

/// Raising clocks and heights moves no identity: membership and public
/// keys read the same through any such update.
pub proof fn lemma_peer_pk_stable(a: Seq<DAGPeer>, b: Seq<DAGPeer>, c: u64)
    requires
        a.len() == b.len(),
        forall|j: int, k: int|
            #![trigger a[j], a[k]]
            0 <= j < k < a.len() ==> a[j].id != a[k].id,
        forall|j: int| 0 <= j < a.len() ==> same_peer_identity(#[trigger] b[j], a[j]),
    ensures
        peers_contain(a, c) == peers_contain(b, c),
        peers_contain(a, c) ==> peer_pk(a, c) == peer_pk(b, c),
{
    if peers_contain(a, c) {
        let j = choose|j: int| 0 <= j < a.len() && (#[trigger] a[j]).id == c;
        assert(b[j].id == c);
        assert(peers_contain(b, c));
        let ja = choose|j2: int| 0 <= j2 < a.len() && (#[trigger] a[j2]).id == c;
        let jb = choose|j2: int| 0 <= j2 < b.len() && (#[trigger] b[j2]).id == c;
        assert(a[jb].id == c);
        if ja != jb {
            if ja < jb {
                assert(a[ja].id != a[jb].id);
            } else {
                assert(a[jb].id != a[ja].id);
            }
        }
        assert(peer_pk(a, c) == a[ja].public_key@);
        assert(peer_pk(b, c) == b[jb].public_key@);
    }
    if peers_contain(b, c) {
        let j = choose|j: int| 0 <= j < b.len() && (#[trigger] b[j]).id == c;
        assert(a[j].id == c);
        assert(peers_contain(a, c));
    }
}

impl DAG {
    /// Serves one synchronization request: observes the asker's Lamport
    /// time, gathers the events the asker is missing, snapshots the local
    /// gossip view, raises the asker's known clock, and returns the reply
    /// with the asker's reply address. Refused when the request's gossip
    /// list repeats a peer or the asker is no member.
    pub fn respond_sync_req(&mut self, req: SyncReq) -> (r: Result<(SyncReply, String), Error>)
        requires
            old(self).wf(),
        ensures
            final(self).wf(),
            same_dag_identity(*final(self), *old(self)),
            final(self).core.lamport_time == if req.lamport_time > old(self).core.lamport_time {
                req.lamport_time
            } else {
                old(self).core.lamport_time
            },
            final(self).store == old(self).store,
            r is Ok <==> (entries_unique(req.gossip_list.entries@) && old(self).peers.contains_id(
                req.from,
            )),
            r matches Ok((reply, addr)) ==> ({
                let evs = old(self).store.evs();
                let asker = peer_of(old(self).peers.peers@, req.from);
                &&& reply.from == req.to
                &&& reply.to == req.from
                &&& reply.lamport_time == final(self).core.lamport_time
                &&& reply.gossip_list.entries@ == gossip_of(old(self).peers.peers@)
                &&& gossip_result_ok(evs, req.gossip_list.entries@, evs_of(reply.events))
                &&& addr@ == asker.reply_addr@
                &&& (forall|j: int|
                    0 <= j < old(self).peers.peers@.len() && old(self).peers.peers@[j].id
                        != req.from ==> final(self).peers.peers@[j] == old(self).peers.peers@[j])
                &&& peer_of(final(self).peers.peers@, req.from).last_known_lamport_time == if req.lamport_time
                    > asker.last_known_lamport_time {
                    req.lamport_time
                } else {
                    asker.last_known_lamport_time
                }
            }),
            r is Err ==> final(self).peers == old(self).peers,
            final(self).peers.peers@.len() == old(self).peers.peers@.len(),
            final(self).peers.current == old(self).peers.current,
            crate::dag_core::same_core_but_clock(final(self).core, old(self).core),
    {
        self.core.update_lamport_time(req.lamport_time);
        if !gossip_entries_unique(&req.gossip_list) {
            return Err(Error::Base);
        }
        let events = match self.store.get_events_for_gossip(&req.gossip_list) {
            Ok(v) => v,
            Err(_) => {
                proof {
                    assert(false);
                }
                return Err(Error::Store);
            },
        };
        let gossip_list = self.peers.get_gossip_list();
        let pidx = match self.peers.index_of(req.from) {
            Ok(i) => i,
            Err(er) => {
                return Err(er);
            },
        };
        proof {
            lemma_peer_of(self.peers.peers@, pidx as int);
        }
        let addr = self.peers.peer_at(pidx).reply_addr.clone();
        self.peers.update_peer_at(pidx, req.lamport_time, 0);
        proof {
            lemma_peer_of(self.peers.peers@, pidx as int);
            assert(self.peers.contains_id(old(self).creator)) by {
                let w = choose|w: int|
                    0 <= w < old(self).peers.peers@.len() && (#[trigger] old(self).peers.peers@[
                        w
                    ]).id == old(self).creator;
                assert(self.peers.peers@[w].id == old(self).creator);
            }
        }
        let lamport_now = self.core.get_lamport_time();
        let reply = SyncReply {
            from: req.to,
            to: req.from,
            gossip_list,
            lamport_time: lamport_now,
            events,
        };
        Ok((reply, addr))
    }

    /// Ingests one synchronization reply: observes its Lamport time, then,
    /// for each carried event in order, validates it, stores it when valid,
    /// and raises the creator's known clock and height. Invalid events are
    /// skipped; the count of stored events comes back. Whatever arrives,
    /// the stored events only grow, everything new comes from the reply,
    /// and every peer's known clock and height only rise.
    #[verifier::rlimit(100)]
    #[verifier::spinoff_prover]
    pub fn apply_sync_reply(&mut self, reply: SyncReply) -> (n: usize)
        requires
            old(self).wf(),
        ensures
            final(self).wf(),
            same_dag_identity(*final(self), *old(self)),
            final(self).core.lamport_time >= old(self).core.lamport_time,
            final(self).core.lamport_time >= reply.lamport_time,
            old(self).store.evs().len() <= final(self).store.evs().len(),
            final(self).store.evs().subrange(0, old(self).store.evs().len() as int) == old(
                self,
            ).store.evs(),
            all_from(old(self).store.evs(), final(self).store.evs(), reply.events@),
            final(self).store.evs() == listener_evs(
                old(self).store.evs(),
                old(self).peers.peers@,
                reply.events@,
                0,
            ),
            final(self).store.fts() == old(self).store.fts(),
            final(self).store.frs() == old(self).store.frs(),
            final(self).peers.peers@.len() == old(self).peers.peers@.len(),
            forall|j: int|
                0 <= j < old(self).peers.peers@.len() ==> same_peer_identity(
                    #[trigger] final(self).peers.peers@[j],
                    old(self).peers.peers@[j],
                ) && final(self).peers.peers@[j].last_known_lamport_time >= old(
                    self,
                ).peers.peers@[j].last_known_lamport_time && final(self).peers.peers@[j].last_known_height >= old(self).peers.peers@[j].last_known_height,
            final(self).peers.current == old(self).peers.current,
            final(self).core.tx_pool@ == old(self).core.tx_pool@,
            final(self).core.internal_tx_pool@ == old(self).core.internal_tx_pool@,
            final(self).core.shutdown == old(self).core.shutdown,
            final(self).core.current_frame == old(self).core.current_frame,
            final(self).core.current_event == old(self).core.current_event,
            final(self).core.current_tx == old(self).core.current_tx,
            final(self).core.last_finalised_frame == old(self).core.last_finalised_frame,
            n <= reply.events@.len(),
    {
        self.core.update_lamport_time(reply.lamport_time);
        let m = reply.events.len();
        let mut count: usize = 0;
        let mut k: usize = 0;
        while k < m
            invariant
                k <= m,
                count <= k,
                m == reply.events@.len(),
                self.wf(),
                old(self).wf(),
                same_dag_identity(*self, *old(self)),
                self.core.lamport_time >= old(self).core.lamport_time,
                self.core.lamport_time >= reply.lamport_time,
                old(self).store.evs().len() <= self.store.evs().len(),
                self.store.evs().subrange(0, old(self).store.evs().len() as int) == old(
                    self,
                ).store.evs(),
                all_from(old(self).store.evs(), self.store.evs(), reply.events@),
                listener_evs(old(self).store.evs(), old(self).peers.peers@, reply.events@, 0)
                    == listener_evs(
                    self.store.evs(),
                    old(self).peers.peers@,
                    reply.events@,
                    k as int,
                ),
                self.store.fts() == old(self).store.fts(),
                self.store.frs() == old(self).store.frs(),
                self.peers.peers@.len() == old(self).peers.peers@.len(),
                forall|j: int|
                    0 <= j < old(self).peers.peers@.len() ==> same_peer_identity(
                        #[trigger] self.peers.peers@[j],
                        old(self).peers.peers@[j],
                    ) && self.peers.peers@[j].last_known_lamport_time >= old(
                        self,
                    ).peers.peers@[j].last_known_lamport_time
                        && self.peers.peers@[j].last_known_height >= old(
                        self,
                    ).peers.peers@[j].last_known_height,
                self.peers.current == old(self).peers.current,
                self.core.tx_pool@ == old(self).core.tx_pool@,
                self.core.internal_tx_pool@ == old(self).core.internal_tx_pool@,
                self.core.shutdown == old(self).core.shutdown,
                self.core.current_frame == old(self).core.current_frame,
                self.core.current_event == old(self).core.current_event,
                self.core.current_tx == old(self).core.current_tx,
                self.core.last_finalised_frame == old(self).core.last_finalised_frame,
            decreases m - k,
        {
            let ghost evs_mid = self.store.evs();
            let ghost peers_mid = self.peers.peers@;
            let ev = reply.events[k].duplicate();
            let valid = match self.check_event(&ev) {
                Ok(b) => b,
                Err(_) => false,
            };
            if valid {
                let ghost evm = ev@;
                let lamport_time = ev.lamport_timestamp;
                let height = ev.height;
                let creator = ev.creator;
                let _ = match self.insert_event(ev) {
                    Ok(b) => b,
                    Err(_) => false,
                };
                proof {
                    assert(self.store.evs().subrange(0, old(self).store.evs().len() as int)
                        =~= evs_mid.subrange(0, old(self).store.evs().len() as int));
                    assert(evm == reply.events@[k as int]@);
                    lemma_all_from_step(
                        old(self).store.evs(),
                        evs_mid,
                        self.store.evs(),
                        reply.events@,
                        k as int,
                    );
                }
                let pidx = match self.peers.index_of(creator) {
                    Ok(i) => i,
                    Err(_) => {
                        proof {
                            assert(false);
                        }
                        return count;
                    },
                };
                self.peers.update_peer_at(pidx, lamport_time, height);
                proof {
                    assert(self.peers.contains_id(old(self).creator)) by {
                        let w = choose|w: int|
                            0 <= w < peers_mid.len() && (#[trigger] peers_mid[w]).id == old(
                                self,
                            ).creator;
                        assert(self.peers.peers@[w].id == old(self).creator);
                    }
                }
                count = count + 1;
            }
            proof {
                let peers0 = old(self).peers.peers@;
                let e = reply.events@[k as int]@;
                assert(ev@ == e);
                lemma_peer_pk_stable(peers0, peers_mid, e.creator);
                if peers_contain(peers0, e.creator) {
                    assert(peer_pk(peers_mid, e.creator) == peer_pk(peers0, e.creator));
                }
                assert(listener_evs(evs_mid, peers0, reply.events@, k as int) == listener_evs(
                    self.store.evs(),
                    peers0,
                    reply.events@,
                    k as int + 1,
                ));
            }
            k = k + 1;
        }
        count
    }
}

} // verus!
