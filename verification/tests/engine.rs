use dag_consensus::errors::Error;
use dag_consensus::peer::{DAGPeer, DAGPeerList};
use dag_consensus::store::Frame;
use dag_consensus::stream::StreamPoll;
use dag_consensus::sync::SyncReply;
use dag_consensus::{DAGconfig, DAG};
use ed25519_dalek::SigningKey;

fn seed(b: u8) -> Vec<u8> {
    vec![b; 32]
}

fn public_key(sd: &Vec<u8>) -> Vec<u8> {
    let mut s = [0u8; 32];
    s.copy_from_slice(sd.as_slice());
    SigningKey::from_bytes(&s).verifying_key().to_bytes().to_vec()
}

/// A peer list with members 1..=n, public keys derived from seeds 1..=n.
fn members(n: u8) -> DAGPeerList {
    let mut list = DAGPeerList::new();
    for id in 1..=n {
        let mut p = DAGPeer::new(id as u64, format!("127.0.0.1:90{:02}", id));
        p.set_public_key(public_key(&seed(id)));
        list.add(p).expect("fresh id");
    }
    list
}

fn node(id: u8, n_members: u8, cap: usize) -> DAG {
    let config = DAGconfig {
        heartbeat: 100,
        proc_a_delay: 0,
        request_addr: format!("127.0.0.1:91{:02}", id),
        reply_addr: format!("127.0.0.1:92{:02}", id),
        creator: id as u64,
        secret_seed: seed(id),
        peers: members(n_members),
        tx_pool_cap: cap,
    };
    let mut d = DAG::new(config).expect("valid configuration");
    // aim the round-robin cursor at the next peer over, not at the node
    // itself
    d.peers.current = (id as usize) % (n_members as usize);
    d
}

/// Hands every node every other node's genesis event, as a bootstrap step
/// outside the hot loop.
fn exchange_geneses(nodes: &mut Vec<DAG>) {
    let n = nodes.len();
    for a in 0..n {
        let creator = nodes[a].creator;
        let genesis = nodes[a].store.get_event_of_creator(creator, 0).expect("own genesis");
        for b in 0..n {
            if a != b {
                let copy = genesis.duplicate();
                assert_eq!(nodes[b].check_event(&copy), Ok(true));
                assert_eq!(nodes[b].insert_event(copy), Ok(true));
            }
        }
    }
}

/// One full gossip exchange: `from` initiates towards its round-robin
/// peer, that peer responds, and `from` ingests the reply.
fn gossip_once(nodes: &mut Vec<DAG>, from: usize) {
    let (req, _addr, _inserted) = nodes[from].initiator_round().expect("initiator round");
    let to = (req.to - 1) as usize;
    let (reply, _back) = nodes[to].respond_sync_req(req).expect("responder");
    nodes[from].apply_sync_reply(reply);
}

#[test]
fn construction_rejects_bad_configuration() {
    let config = DAGconfig {
        heartbeat: 100,
        proc_a_delay: 0,
        request_addr: "127.0.0.1:9101".to_string(),
        reply_addr: "127.0.0.1:9201".to_string(),
        creator: 9,
        secret_seed: seed(1),
        peers: members(2),
        tx_pool_cap: 10,
    };
    assert!(matches!(DAG::new(config), Err(Error::Base)));
}

#[test]
fn queue_full_is_reported() {
    let mut d = node(1, 2, 1);
    assert_eq!(d.send_transaction(vec![1]), Ok(()));
    assert_eq!(d.send_transaction(vec![2]), Err(Error::Base));
}

#[test]
fn shutdown_ends_the_stream() {
    let mut d = node(1, 2, 8);
    d.send_transaction(vec![1]).expect("queued");
    d.shutdown();
    assert!(matches!(d.poll_next(), StreamPoll::Ended));
}

#[test]
fn stream_pends_without_finalised_frames() {
    let mut d = node(1, 2, 8);
    assert!(matches!(d.poll_next(), StreamPoll::Pending));
}

#[test]
fn lamport_time_is_monotone_under_reordered_replies() {
    let mut d = node(1, 2, 8);
    let empty_gossip = d.peers.get_gossip_list();
    let reply_late = SyncReply {
        from: 2,
        to: 1,
        gossip_list: empty_gossip,
        lamport_time: 10,
        events: vec![],
    };
    d.apply_sync_reply(reply_late);
    assert!(d.core.lamport_time >= 10);
    let t = d.core.lamport_time;
    let reply_early = SyncReply {
        from: 2,
        to: 1,
        gossip_list: d.peers.get_gossip_list(),
        lamport_time: 3,
        events: vec![],
    };
    d.apply_sync_reply(reply_early);
    assert_eq!(d.core.lamport_time, t);
}

#[test]
fn gossip_propagates_a_payload() {
    let mut nodes = vec![node(1, 2, 8), node(2, 2, 8)];
    exchange_geneses(&mut nodes);
    nodes[1].send_transaction(vec![42]).expect("queued");
    // node 2 creates its event carrying the payload
    gossip_once(&mut nodes, 1);
    // node 1 initiates towards node 2 and ingests the reply
    gossip_once(&mut nodes, 0);
    let got = nodes[0].store.get_event_of_creator(2, 1).expect("propagated");
    assert_eq!(got.transactions, vec![vec![42u8]]);
}

#[test]
fn invalid_events_are_skipped_valid_ones_kept() {
    let mut nodes = vec![node(1, 3, 8), node(2, 3, 8), node(3, 3, 8)];
    exchange_geneses(&mut nodes);
    for _ in 0..3 {
        gossip_once(&mut nodes, 1);
    }
    // node 2 now holds its own chain above genesis: heights 1..=3
    let gossip = nodes[0].peers.get_gossip_list();
    let mut events = Vec::new();
    for h in 1..=3u64 {
        events.push(nodes[1].store.get_event_of_creator(2, h).expect("present"));
    }
    let mut broken = events[2].duplicate();
    broken.signature[0] = broken.signature[0].wrapping_add(1);
    let reply = SyncReply {
        from: 2,
        to: 1,
        gossip_list: gossip,
        lamport_time: nodes[1].core.lamport_time,
        events: vec![
            events[0].duplicate(),
            events[1].duplicate(),
            broken,
            events[2].duplicate(),
        ],
    };
    let n = nodes[0].apply_sync_reply(reply);
    assert_eq!(n, 3);
    for h in 1..=3u64 {
        assert!(nodes[0].store.get_event_of_creator(2, h).is_ok());
    }
    assert!(nodes[0].store.get_event_of_creator(2, 4).is_err());
}

#[test]
fn two_nodes_emit_the_same_stream() {
    // the same events and the same finalised frames on two engines
    let build = || -> DAG {
        let mut nodes = vec![node(1, 2, 8), node(2, 2, 8)];
        exchange_geneses(&mut nodes);
        nodes[1].send_transaction(vec![7]).expect("queued");
        gossip_once(&mut nodes, 1);
        nodes[0].send_transaction(vec![8]).expect("queued");
        nodes[0].send_transaction(vec![9]).expect("queued");
        gossip_once(&mut nodes, 0);
        // node 1 creates its own event carrying payloads 8 and 9
        let mut d = nodes.remove(0);
        let e21 = d.store.get_event_of_creator(2, 1).expect("present").hash;
        let e11 = d.store.get_event_of_creator(1, 1).expect("present").hash;
        let n1 = d.set_frame(Frame { events: vec![e21] }).expect("frame");
        let n2 = d.set_frame(Frame { events: vec![e11] }).expect("frame");
        assert_eq!((n1, n2), (1, 2));
        d.set_last_finalised_frame(2).expect("finalised");
        d
    };
    let mut a = build();
    let mut b = build();
    let drain = |d: &mut DAG| -> Vec<Vec<u8>> {
        let mut out = Vec::new();
        loop {
            match d.poll_next() {
                StreamPoll::Payload(p) => out.push(p),
                StreamPoll::Pending => break,
                StreamPoll::Ended => break,
            }
        }
        out
    };
    let pa = drain(&mut a);
    let pb = drain(&mut b);
    assert_eq!(pa, vec![vec![7u8], vec![8], vec![9]]);
    assert_eq!(pa, pb);
}

#[test]
fn stream_orders_frame_major_event_major_index_major() {
    let mut nodes = vec![node(1, 2, 8), node(2, 2, 8)];
    exchange_geneses(&mut nodes);
    nodes[0].send_transaction(vec![1]).expect("queued");
    nodes[0].send_transaction(vec![2]).expect("queued");
    gossip_once(&mut nodes, 0);
    let mut d = nodes.remove(0);
    let own = d.store.get_event_of_creator(1, 1).expect("present").hash;
    let genesis2 = d.store.get_event_of_creator(2, 0).expect("present").hash;
    // one frame holding an empty-payload event before the payload event
    d.set_frame(Frame { events: vec![genesis2, own] }).expect("frame");
    d.set_last_finalised_frame(1).expect("finalised");
    match d.poll_next() {
        StreamPoll::Payload(p) => assert_eq!(p, vec![1]),
        _ => panic!("expected the first payload"),
    }
    match d.poll_next() {
        StreamPoll::Payload(p) => assert_eq!(p, vec![2]),
        _ => panic!("expected the second payload"),
    }
    assert!(matches!(d.poll_next(), StreamPoll::Pending));
}
