use vstd::prelude::*;

use crate::codec::clone_bytes;
use crate::codec::clone_bytes_list;
use crate::codec::dec_bytes;
use crate::codec::dec_bytes_list;
use crate::codec::dec_u64;
use crate::codec::enc_bytes;
use crate::codec::enc_bytes_list;
use crate::codec::lemma_dec_bytes;
use crate::codec::lemma_dec_bytes_list;
use crate::codec::lemma_dec_u64;
use crate::codec::lemma_subrange_nested;
use crate::codec::push_bytes;
use crate::codec::push_bytes_list;
use crate::codec::push_u64_le;
use crate::codec::u64_le;
use crate::crypto::ed25519_sign;
use crate::crypto::pk_of;
use crate::crypto::sha3_digest;
use crate::crypto::sha3_of;
use crate::crypto::sig_of;
use crate::crypto::sig_valid;

verus! {

/// One step of a creator's chain in the DAG: causal links to a self-parent
/// and an other-parent, a Lamport timestamp, the carried payloads, and the
/// creator's signature over the content hash.
///
/// The parent links hold the content hash of the parent event; the empty
/// byte string is the sentinel used by a genesis event, which has no parent.
pub struct Event {
    pub creator: u64,
    pub height: u64,
    pub lamport_timestamp: u64,
    pub self_parent: Vec<u8>,
    pub other_parent: Vec<u8>,
    pub transactions: Vec<Vec<u8>>,
    pub internal_transactions: Vec<Vec<u8>>,
    pub signature: Vec<u8>,
    pub hash: Vec<u8>,
}

/// The mathematical model of an event.
pub ghost struct EventV {
    pub creator: u64,
    pub height: u64,
    pub lamport_timestamp: u64,
    pub self_parent: Seq<u8>,
    pub other_parent: Seq<u8>,
    pub transactions: Seq<Seq<u8>>,
    pub internal_transactions: Seq<Seq<u8>>,
    pub signature: Seq<u8>,
    pub hash: Seq<u8>,
}

impl View for Event {
    type V = EventV;

    open spec fn view(&self) -> EventV {
        EventV {
            creator: self.creator,
            height: self.height,
            lamport_timestamp: self.lamport_timestamp,
            self_parent: self.self_parent@,
            other_parent: self.other_parent@,
            transactions: self.transactions.deep_view(),
            internal_transactions: self.internal_transactions.deep_view(),
            signature: self.signature@,
            hash: self.hash@,
        }
    }
}

impl EventV {
    /// The deterministic serialization of the signed and hashed fields: the
    /// input of the content hash.
    pub open spec fn content_bytes(self) -> Seq<u8> {
        u64_le(self.creator) + u64_le(self.height) + u64_le(self.lamport_timestamp) + enc_bytes(
            self.self_parent,
        ) + enc_bytes(self.other_parent) + enc_bytes_list(self.transactions) + enc_bytes_list(
            self.internal_transactions,
        )
    }

    /// The full wire form: content, then signature, then hash.
    pub open spec fn wire_bytes(self) -> Seq<u8> {
        self.content_bytes() + enc_bytes(self.signature) + enc_bytes(self.hash)
    }

    /// Every variable-length field is small enough for its length prefix.
    pub open spec fn bounded(self) -> bool {
        &&& self.self_parent.len() <= u64::MAX
        &&& self.other_parent.len() <= u64::MAX
        &&& self.transactions.len() <= u64::MAX
        &&& (forall|k: int|
            0 <= k < self.transactions.len() ==> #[trigger] self.transactions[k].len()
                <= u64::MAX)
        &&& self.internal_transactions.len() <= u64::MAX
        &&& (forall|k: int|
            0 <= k < self.internal_transactions.len()
                ==> #[trigger] self.internal_transactions[k].len() <= u64::MAX)
        &&& self.signature.len() <= u64::MAX
        &&& self.hash.len() <= u64::MAX
    }

    /// The stored hash is the content hash of the event's own fields.
    pub open spec fn hash_ok(self) -> bool {
        self.hash == sha3_of(self.content_bytes())
    }
}

impl Event {
    /// Builds, hashes and signs a new event. The content hash is computed
    /// over the deterministic serialization of the fields, and the signature
    /// is the creator's signature over that hash.
    pub fn new(
        creator: u64,
        height: u64,
        self_parent: Vec<u8>,
        other_parent: Vec<u8>,
        lamport_timestamp: u64,
        transactions: Vec<Vec<u8>>,
        internal_transactions: Vec<Vec<u8>>,
        seed: &Vec<u8>,
    ) -> (r: Event)
        requires
            seed@.len() == 32,
        ensures
            r@.creator == creator,
            r@.height == height,
            r@.lamport_timestamp == lamport_timestamp,
            r@.self_parent == self_parent@,
            r@.other_parent == other_parent@,
            r@.transactions == transactions.deep_view(),
            r@.internal_transactions == internal_transactions.deep_view(),
            r@.hash_ok(),
            r@.hash == sha3_of(r@.content_bytes()),
            r@.hash.len() == 32,
            r@.signature == sig_of(seed@, r@.hash),
            r@.signature.len() == 64,
            sig_valid(pk_of(seed@), r@.hash, r@.signature),
    {
        let mut e = Event {
            creator,
            height,
            lamport_timestamp,
            self_parent,
            other_parent,
            transactions,
            internal_transactions,
            signature: Vec::new(),
            hash: Vec::new(),
        };
        let h = e.event_hash();
        e.signature = ed25519_sign(seed, &h);
        e.hash = h;
        e
    }

    /// Recomputes the content hash from the event's fields.
    pub fn event_hash(&self) -> (r: Vec<u8>)
        ensures
            r@ == sha3_of(self@.content_bytes()),
            r@.len() == 32,
    {
        let content = self.content_encoding();
        sha3_digest(&content)
    }

    /// The deterministic serialization of the hashed fields.
    pub fn content_encoding(&self) -> (r: Vec<u8>)
        ensures
            r@ == self@.content_bytes(),
    {
        let mut out: Vec<u8> = Vec::new();
        push_u64_le(&mut out, self.creator);
        push_u64_le(&mut out, self.height);
        push_u64_le(&mut out, self.lamport_timestamp);
        push_bytes(&mut out, &self.self_parent);
        push_bytes(&mut out, &self.other_parent);
        push_bytes_list(&mut out, &self.transactions);
        push_bytes_list(&mut out, &self.internal_transactions);
        proof {
            assert(out@ =~= self@.content_bytes());
        }
        out
    }

    /// The full wire form of the event.
    pub fn encode(&self) -> (r: Vec<u8>)
        ensures
            r@ == self@.wire_bytes(),
    {
        let mut out = self.content_encoding();
        push_bytes(&mut out, &self.signature);
        push_bytes(&mut out, &self.hash);
        proof {
            assert(out@ =~= self@.wire_bytes());
        }
        out
    }

    /// A fresh event holding the same values.
    pub fn duplicate(&self) -> (r: Event)
        ensures
            r@ == self@,
    {
        let r = Event {
            creator: self.creator,
            height: self.height,
            lamport_timestamp: self.lamport_timestamp,
            self_parent: clone_bytes(&self.self_parent),
            other_parent: clone_bytes(&self.other_parent),
            transactions: clone_bytes_list(&self.transactions),
            internal_transactions: clone_bytes_list(&self.internal_transactions),
            signature: clone_bytes(&self.signature),
            hash: clone_bytes(&self.hash),
        };
        r
    }
}

/// The event a byte string decodes to, together with the position after it.
pub open spec fn dec_event(s: Seq<u8>, i: int) -> Option<(EventV, int)> {
    match dec_u64(s, i) {
        None => None,
        Some((creator, i1)) => match dec_u64(s, i1) {
            None => None,
            Some((height, i2)) => match dec_u64(s, i2) {
                None => None,
                Some((lamport_timestamp, i3)) => match dec_bytes(s, i3) {
                    None => None,
                    Some((self_parent, i4)) => match dec_bytes(s, i4) {
                        None => None,
                        Some((other_parent, i5)) => match dec_bytes_list(s, i5) {
                            None => None,
                            Some((transactions, i6)) => match dec_bytes_list(s, i6) {
                                None => None,
                                Some((internal_transactions, i7)) => match dec_bytes(s, i7) {
                                    None => None,
                                    Some((signature, i8)) => match dec_bytes(s, i8) {
                                        None => None,
                                        Some((hash, i9)) => Some(
                                            (
                                                EventV {
                                                    creator,
                                                    height,
                                                    lamport_timestamp,
                                                    self_parent,
                                                    other_parent,
                                                    transactions,
                                                    internal_transactions,
                                                    signature,
                                                    hash,
                                                },
                                                i9,
                                            ),
                                        ),
                                    },
                                },
                            },
                        },
                    },
                },
            },
        },
    }
}

/// The event a whole byte string stands for: a decode that must consume
/// every byte.
pub open spec fn parse_event(s: Seq<u8>) -> Option<EventV> {
    match dec_event(s, 0) {
        None => None,
        Some((e, j)) => if j == s.len() {
            Some(e)
        } else {
            None
        },
    }
}

/// Decoding at the position where an event was encoded yields that event.
#[verifier::rlimit(100)]
pub proof fn lemma_dec_event(s: Seq<u8>, i: int, e: EventV)
    requires
        0 <= i,
        e.bounded(),
        i + e.wire_bytes().len() <= s.len(),
        s.subrange(i, i + e.wire_bytes().len()) == e.wire_bytes(),
    ensures
        dec_event(s, i) == Some((e, i + e.wire_bytes().len())),
{
    let w = e.wire_bytes();
    let p1 = u64_le(e.creator);
    let p2 = u64_le(e.height);
    let p3 = u64_le(e.lamport_timestamp);
    let p4 = enc_bytes(e.self_parent);
    let p5 = enc_bytes(e.other_parent);
    let p6 = enc_bytes_list(e.transactions);
    let p7 = enc_bytes_list(e.internal_transactions);
    let p8 = enc_bytes(e.signature);
    let p9 = enc_bytes(e.hash);
    let o1: int = 8;
    let o2 = o1 + 8;
    let o3 = o2 + 8;
    let o4 = o3 + p4.len() as int;
    let o5 = o4 + p5.len() as int;
    let o6 = o5 + p6.len() as int;
    let o7 = o6 + p7.len() as int;
    let o8 = o7 + p8.len() as int;
    let o9 = o8 + p9.len() as int;
    assert(w == p1 + p2 + p3 + p4 + p5 + p6 + p7 + p8 + p9);
    assert(w.len() == o9);
    assert(w.subrange(0, o1) =~= p1);
    assert(w.subrange(o1, o2) =~= p2);
    assert(w.subrange(o2, o3) =~= p3);
    assert(w.subrange(o3, o4) =~= p4);
    assert(w.subrange(o4, o5) =~= p5);
    assert(w.subrange(o5, o6) =~= p6);
    assert(w.subrange(o6, o7) =~= p7);
    assert(w.subrange(o7, o8) =~= p8);
    assert(w.subrange(o8, o9) =~= p9);
    lemma_subrange_nested(s, i, w, 0, o1);
    lemma_subrange_nested(s, i, w, o1, 8);
    lemma_subrange_nested(s, i, w, o2, 8);
    lemma_subrange_nested(s, i, w, o3, p4.len() as int);
    lemma_subrange_nested(s, i, w, o4, p5.len() as int);
    lemma_subrange_nested(s, i, w, o5, p6.len() as int);
    lemma_subrange_nested(s, i, w, o6, p7.len() as int);
    lemma_subrange_nested(s, i, w, o7, p8.len() as int);
    lemma_subrange_nested(s, i, w, o8, p9.len() as int);
    lemma_dec_u64(s, i, e.creator);
    lemma_dec_u64(s, i + o1, e.height);
    lemma_dec_u64(s, i + o2, e.lamport_timestamp);
    lemma_dec_bytes(s, i + o3, e.self_parent);
    lemma_dec_bytes(s, i + o4, e.other_parent);
    lemma_dec_bytes_list(s, i + o5, e.transactions);
    lemma_dec_bytes_list(s, i + o6, e.internal_transactions);
    lemma_dec_bytes(s, i + o7, e.signature);
    lemma_dec_bytes(s, i + o8, e.hash);
}

/// Serialization round trip: the wire form of an event parses back to the
/// very same event, and the content hash therefore recomputes identically.
pub proof fn lemma_event_roundtrip(e: EventV)
    requires
        e.bounded(),
    ensures
        parse_event(e.wire_bytes()) == Some(e),
        parse_event(e.wire_bytes()) matches Some(d) ==> sha3_of(d.content_bytes()) == sha3_of(
            e.content_bytes(),
        ),
{
    let w = e.wire_bytes();
    assert(w.subrange(0, w.len() as int) =~= w);
    lemma_dec_event(w, 0, e);
}

/// Decodes one event out of a whole byte string; succeeds only if the
/// string is exactly one well-formed encoding.
pub fn decode_event(s: &Vec<u8>) -> (r: Option<Event>)
    ensures
        r matches Some(e) ==> parse_event(s@) == Some(e@),
        r is None ==> parse_event(s@) is None,
{
    let r0 = match read_event_at(s, 0) {
        None => None,
        Some((e, j)) => {
            if j == s.len() {
                Some(e)
            } else {
                None
            }
        },
    };
    r0
}

/// Reads one event at a position of a byte string.
pub fn read_event_at(s: &Vec<u8>, i: usize) -> (r: Option<(Event, usize)>)
    ensures
        r matches Some((e, j)) ==> dec_event(s@, i as int) == Some((e@, j as int)),
        r is None ==> dec_event(s@, i as int) is None,
{
    let (creator, i1) = match crate::codec::read_u64_le(s, i) {
        None => return None,
        Some(p) => p,
    };
    let (height, i2) = match crate::codec::read_u64_le(s, i1) {
        None => return None,
        Some(p) => p,
    };
    let (lamport_timestamp, i3) = match crate::codec::read_u64_le(s, i2) {
        None => return None,
        Some(p) => p,
    };
    let (self_parent, i4) = match crate::codec::read_bytes(s, i3) {
        None => return None,
        Some(p) => p,
    };
    let (other_parent, i5) = match crate::codec::read_bytes(s, i4) {
        None => return None,
        Some(p) => p,
    };
    let (transactions, i6) = match crate::codec::read_bytes_list(s, i5) {
        None => return None,
        Some(p) => p,
    };
    let (internal_transactions, i7) = match crate::codec::read_bytes_list(s, i6) {
        None => return None,
        Some(p) => p,
    };
    let (signature, i8) = match crate::codec::read_bytes(s, i7) {
        None => return None,
        Some(p) => p,
    };
    let (hash, i9) = match crate::codec::read_bytes(s, i8) {
        None => return None,
        Some(p) => p,
    };
    let e = Event {
        creator,
        height,
        lamport_timestamp,
        self_parent,
        other_parent,
        transactions,
        internal_transactions,
        signature,
        hash,
    };
    Some((e, i9))
}

} // verus!
