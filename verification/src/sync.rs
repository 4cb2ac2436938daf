use vstd::prelude::*;

use crate::event::Event;
use crate::peer::GossipList;

verus! {

/// An outbound synchronization request: who asks whom, what the asker
/// already knows of every peer, and the asker's Lamport time.
pub struct SyncReq {
    pub from: u64,
    pub to: u64,
    pub gossip_list: GossipList,
    pub lamport_time: u64,
}

/// The answer to a synchronization request: the responder's own gossip
/// snapshot, its Lamport time, and the events the asker was missing, in
/// gossip order.
pub struct SyncReply {
    pub from: u64,
    pub to: u64,
    pub gossip_list: GossipList,
    pub lamport_time: u64,
    pub events: Vec<Event>,
}

} // verus!
