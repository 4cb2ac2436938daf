use dag_consensus::errors::Error;
use dag_consensus::event::{decode_event, Event};
use dag_consensus::peer::{DAGPeer, DAGPeerList, GossipEntry, GossipList};
use dag_consensus::store::{FlagEntry, FlagTable, Frame, Store};

fn seed(b: u8) -> Vec<u8> {
    vec![b; 32]
}

/// A linear chain for one creator: each event's self-parent and
/// other-parent point at the creator's previous event.
fn chain(creator: u64, top: u64, sd: &Vec<u8>) -> Vec<Event> {
    let mut out: Vec<Event> = Vec::new();
    let mut prev_hash: Vec<u8> = Vec::new();
    for h in 0..=top {
        let e = Event::new(
            creator,
            h,
            prev_hash.clone(),
            prev_hash.clone(),
            h + 1,
            vec![],
            vec![],
            sd,
        );
        prev_hash = e.hash.clone();
        out.push(e);
    }
    out
}

#[test]
fn event_serialization_round_trip() {
    let sd = seed(7);
    let e = Event::new(
        9,
        3,
        vec![1, 2, 3],
        vec![4, 5],
        11,
        vec![vec![42], vec![], vec![7, 7]],
        vec![vec![9]],
        &sd,
    );
    let bytes = e.encode();
    let d = decode_event(&bytes).expect("round trip");
    assert_eq!(d.creator, 9);
    assert_eq!(d.height, 3);
    assert_eq!(d.lamport_timestamp, 11);
    assert_eq!(d.self_parent, vec![1, 2, 3]);
    assert_eq!(d.other_parent, vec![4, 5]);
    assert_eq!(d.transactions, vec![vec![42u8], vec![], vec![7, 7]]);
    assert_eq!(d.internal_transactions, vec![vec![9u8]]);
    assert_eq!(d.signature, e.signature);
    assert_eq!(d.hash, e.hash);
    assert_eq!(d.event_hash(), e.event_hash());
}

#[test]
fn event_decode_rejects_truncated_input() {
    let sd = seed(7);
    let e = Event::new(1, 0, vec![], vec![], 1, vec![vec![5]], vec![], &sd);
    let mut bytes = e.encode();
    bytes.pop();
    assert!(decode_event(&bytes).is_none());
    let empty: Vec<u8> = Vec::new();
    assert!(decode_event(&empty).is_none());
}

#[test]
fn event_hash_depends_on_content() {
    let sd = seed(1);
    let a = Event::new(1, 0, vec![], vec![], 1, vec![vec![1]], vec![], &sd);
    let b = Event::new(1, 0, vec![], vec![], 1, vec![vec![2]], vec![], &sd);
    assert_eq!(a.hash.len(), 32);
    assert_ne!(a.hash, b.hash);
    assert_eq!(a.hash, a.event_hash());
}

#[test]
fn insert_is_idempotent() {
    let sd = seed(3);
    let mut store = Store::new();
    let e = Event::new(1, 0, vec![], vec![], 1, vec![], vec![], &sd);
    assert!(store.insert(e.duplicate()));
    assert!(store.insert(e.duplicate()));
    assert!(store.get_event_of_creator(1, 0).is_ok());
    assert!(store.get_event_of_creator(1, 1).is_err());
    let again = store.get_event(&e.hash).expect("stored");
    assert_eq!(again.hash, e.hash);
    assert_eq!(again.height, 0);
}

#[test]
fn insert_refuses_conflicting_key() {
    let sd = seed(3);
    let mut store = Store::new();
    let a = Event::new(1, 0, vec![], vec![], 1, vec![vec![1]], vec![], &sd);
    let b = Event::new(1, 0, vec![], vec![], 1, vec![vec![2]], vec![], &sd);
    assert!(store.insert(a));
    assert!(!store.insert(b));
}

#[test]
fn heights_form_gapless_prefix() {
    let sd = seed(4);
    let mut store = Store::new();
    for e in chain(5, 3, &sd) {
        assert!(store.insert(e));
    }
    for h in 0..=3 {
        assert!(store.get_event_of_creator(5, h).is_ok());
    }
    assert!(store.get_event_of_creator(5, 4).is_err());
}

#[test]
fn lamport_exceeds_parents() {
    let sd = seed(4);
    let mut store = Store::new();
    for e in chain(5, 2, &sd) {
        assert!(store.insert(e));
    }
    let child = store.get_event_of_creator(5, 2).unwrap();
    let parent = store.get_event(&child.self_parent).unwrap();
    assert!(child.lamport_timestamp >= 1 + parent.lamport_timestamp);
}

#[test]
fn gossip_returns_exactly_the_missing_events() {
    // three creators seeded to height 5; the asker knows two of them up to
    // height 2 and one up to height 4
    let mut store = Store::new();
    for c in 1..=3u64 {
        let sd = seed(c as u8);
        for e in chain(c, 5, &sd) {
            assert!(store.insert(e));
        }
    }
    let g = GossipList {
        entries: vec![
            GossipEntry { peer_id: 1, height: 2, lamport_time: 0 },
            GossipEntry { peer_id: 2, height: 2, lamport_time: 0 },
            GossipEntry { peer_id: 3, height: 4, lamport_time: 0 },
        ],
    };
    let out = store.get_events_for_gossip(&g).expect("query");
    let got: Vec<(u64, u64)> = out.iter().map(|e| (e.creator, e.height)).collect();
    assert_eq!(got, vec![(1, 3), (1, 4), (1, 5), (2, 3), (2, 4), (2, 5), (3, 5)]);
}

#[test]
fn gossip_walks_upward_from_just_above_the_known_height() {
    let mut store = Store::new();
    let sd = seed(1);
    for e in chain(1, 1, &sd) {
        assert!(store.insert(e));
    }
    let g = GossipList {
        entries: vec![GossipEntry { peer_id: 1, height: 0, lamport_time: 0 }],
    };
    let out = store.get_events_for_gossip(&g).expect("query");
    assert_eq!(out.len(), 1);
    assert_eq!(out[0].height, 1);
}

#[test]
fn flag_table_round_trip() {
    let mut store = Store::new();
    let sd = seed(9);
    let e = Event::new(1, 0, vec![], vec![], 1, vec![], vec![], &sd);
    let hash = e.hash.clone();
    assert!(store.insert(e));
    assert!(store.get_flag_table(&hash).is_err());
    let ft = FlagTable {
        entries: vec![FlagEntry { peer_id: 2, hash: vec![1, 2, 3] }],
    };
    store.set_flag_table(&hash, ft).expect("stored");
    let got = store.get_flag_table(&hash).expect("present");
    assert_eq!(got.entries.len(), 1);
    assert_eq!(got.entries[0].peer_id, 2);
    assert_eq!(got.entries[0].hash, vec![1, 2, 3]);
    let replacement = FlagTable { entries: vec![] };
    store.set_flag_table(&hash, replacement).expect("stored");
    assert_eq!(store.get_flag_table(&hash).expect("present").entries.len(), 0);
}

#[test]
fn frames_are_numbered_from_one() {
    let mut store = Store::new();
    let sd = seed(2);
    let e = Event::new(1, 0, vec![], vec![], 1, vec![], vec![], &sd);
    let hash = e.hash.clone();
    assert!(store.insert(e));
    assert!(store.get_frame(1).is_err());
    let n = store.set_frame(Frame { events: vec![hash.clone()] });
    assert_eq!(n, 1);
    let f = store.get_frame(1).expect("present");
    assert_eq!(f.events, vec![hash]);
    assert!(store.get_frame(0).is_err());
    assert!(store.get_frame(2).is_err());
}

#[test]
fn peer_updates_are_monotone() {
    let mut p = DAGPeer::new(1, "127.0.0.1:9001".to_string());
    p.update_lamport_time_and_height(10, 4);
    assert_eq!(p.last_known_lamport_time, 10);
    assert_eq!(p.last_known_height, 4);
    p.update_lamport_time_and_height(3, 2);
    assert_eq!(p.last_known_lamport_time, 10);
    assert_eq!(p.last_known_height, 4);
    p.update_lamport_time_and_height(11, 4);
    assert_eq!(p.last_known_lamport_time, 11);
    assert_eq!(p.last_known_height, 4);
}

#[test]
fn round_robin_cycles_through_every_peer() {
    let mut list = DAGPeerList::new();
    for id in 1..=3u64 {
        list.add(DAGPeer::new(id, format!("127.0.0.1:900{}", id)))
            .expect("fresh id");
    }
    assert!(list.add(DAGPeer::new(2, "127.0.0.1:9009".to_string())).is_err());
    let seen: Vec<u64> = (0..6).map(|_| list.next_peer().id).collect();
    assert_eq!(seen, vec![1, 2, 3, 1, 2, 3]);
}

#[test]
fn gossip_list_snapshots_every_peer_in_order() {
    let mut list = DAGPeerList::new();
    for id in [4u64, 2, 9] {
        let mut p = DAGPeer::new(id, "127.0.0.1:9001".to_string());
        p.update_lamport_time_and_height(id + 100, id + 10);
        list.add(p).expect("fresh id");
    }
    let g = list.get_gossip_list();
    let got: Vec<(u64, u64, u64)> =
        g.entries.iter().map(|e| (e.peer_id, e.height, e.lamport_time)).collect();
    assert_eq!(got, vec![(4, 14, 104), (2, 12, 102), (9, 19, 109)]);
}

#[test]
fn parents_of_stored_events_resolve() {
    let sd = seed(6);
    let mut store = Store::new();
    for e in chain(2, 4, &sd) {
        assert!(store.insert(e));
    }
    for h in 1..=4u64 {
        let e = store.get_event_of_creator(2, h).expect("present");
        let sp = store.get_event(&e.self_parent).expect("self parent stored");
        let op = store.get_event(&e.other_parent).expect("other parent stored");
        assert_eq!(sp.creator, 2);
        assert_eq!(sp.height, h - 1);
        assert!(e.lamport_timestamp >= 1 + sp.lamport_timestamp);
        assert!(e.lamport_timestamp >= 1 + op.lamport_timestamp);
    }
}

#[test]
fn missing_lookups_surface_the_missing_error() {
    let store = Store::new();
    assert!(matches!(store.get_event(&vec![0u8; 32]), Err(Error::Missing)));
    assert!(matches!(store.get_event_of_creator(1, 0), Err(Error::Missing)));
    assert!(matches!(store.get_flag_table(&vec![0u8; 32]), Err(Error::Missing)));
    assert!(matches!(store.get_frame(1), Err(Error::Missing)));
}
