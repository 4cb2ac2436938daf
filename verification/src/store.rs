use vstd::prelude::*;

use crate::codec::bytes_eq;
use crate::codec::bytes_list_eq;
use crate::codec::clone_bytes;
use crate::codec::clone_bytes_list;
use crate::errors::Error;
use crate::event::Event;
use crate::event::EventV;
use crate::peer::FrameNumber;
use crate::peer::GossipEntry;
use crate::peer::GossipList;
use vstd::pervasive::VecAdditionalExecFns;

verus! {

// ---- flag tables ----

/// One entry of a flag table: a peer and the hash of a witness event.
pub struct FlagEntry {
    pub peer_id: u64,
    pub hash: Vec<u8>,
}

/// Per-event mapping from peer to witness-event hash, owned by the external
/// finality layer; the store only keeps and returns it.
pub struct FlagTable {
    pub entries: Vec<FlagEntry>,
}

impl View for FlagEntry {
    type V = (u64, Seq<u8>);

    open spec fn view(&self) -> (u64, Seq<u8>) {
        (self.peer_id, self.hash@)
    }
}

impl View for FlagTable {
    type V = Seq<(u64, Seq<u8>)>;

    open spec fn view(&self) -> Seq<(u64, Seq<u8>)> {
        Seq::new(self.entries@.len(), |i: int| self.entries@[i]@)
    }
}

impl FlagTable {
    /// A fresh table holding the same entries.
    pub fn duplicate(&self) -> (r: FlagTable)
        ensures
            r@ == self@,
    {
        let mut entries: Vec<FlagEntry> = Vec::new();
        let n = self.entries.len();
        let mut i: usize = 0;
        while i < n
            invariant
                i <= n,
                n == self.entries@.len(),
                entries@.len() == i,
                forall|j: int| 0 <= j < i ==> #[trigger] entries@[j]@ == self.entries@[j]@,
            decreases n - i,
        {
            entries.push(
                FlagEntry {
                    peer_id: self.entries[i].peer_id,
                    hash: clone_bytes(&self.entries[i].hash),
                },
            );
            i = i + 1;
        }
        let r = FlagTable { entries };
        proof {
            assert(r@ =~= self@);
        }
        r
    }
}

/// The association of one event hash with its flag table.
pub struct FlagSlot {
    pub event_hash: Vec<u8>,
    pub table: FlagTable,
}

/// The mathematical model of a flag-table slot.
pub ghost struct FlagSlotV {
    pub event_hash: Seq<u8>,
    pub table: Seq<(u64, Seq<u8>)>,
}

impl View for FlagSlot {
    type V = FlagSlotV;

    open spec fn view(&self) -> FlagSlotV {
        FlagSlotV { event_hash: self.event_hash@, table: self.table@ }
    }
}

// ---- frames ----

/// The ordered event hashes that the external finality layer grouped under
/// one frame number.
pub struct Frame {
    pub events: Vec<Vec<u8>>,
}

// ---- the store ----

/// The sequence of event models a vector of events stands for.
pub open spec fn evs_of(v: Vec<Event>) -> Seq<EventV> {
    Seq::new(v@.len(), |i: int| v@[i]@)
}

/// Some stored event carries this content hash.
pub open spec fn has_hash(evs: Seq<EventV>, h: Seq<u8>) -> bool {
    exists|i: int| 0 <= i < evs.len() && (#[trigger] evs[i]).hash == h
}

/// Some stored event carries this (creator, height) key.
pub open spec fn has_ch(evs: Seq<EventV>, c: u64, h: u64) -> bool {
    exists|i: int| 0 <= i < evs.len() && (#[trigger] evs[i]).creator == c && evs[i].height == h
}

/// This very event is stored.
pub open spec fn has_event(evs: Seq<EventV>, e: EventV) -> bool {
    exists|i: int| 0 <= i < evs.len() && (#[trigger] evs[i]) == e
}

/// A different stored event already occupies one of the two keys of `e`.
pub open spec fn conflicts(evs: Seq<EventV>, e: EventV) -> bool {
    exists|i: int|
        0 <= i < evs.len() && (#[trigger] evs[i]) != e && (evs[i].hash == e.hash || (
        evs[i].creator == e.creator && evs[i].height == e.height))
}

/// The creator's previous event is stored: reachable under the self-parent
/// hash, one height below, and at least one Lamport step older.
pub open spec fn self_parent_link_ok(evs: Seq<EventV>, e: EventV) -> bool {
    exists|i: int|
        0 <= i < evs.len() && (#[trigger] evs[i]).hash == e.self_parent && evs[i].creator
            == e.creator && evs[i].height + 1 == e.height && evs[i].lamport_timestamp + 1
            <= e.lamport_timestamp
}

/// The observed other-parent event is stored and at least one Lamport step
/// older.
pub open spec fn other_parent_link_ok(evs: Seq<EventV>, e: EventV) -> bool {
    exists|i: int|
        0 <= i < evs.len() && (#[trigger] evs[i]).hash == e.other_parent
            && evs[i].lamport_timestamp + 1 <= e.lamport_timestamp
}

/// What must hold of an event before it may enter the store: a genesis
/// event stands alone, any later event is causally anchored on both parents.
pub open spec fn insertable(evs: Seq<EventV>, e: EventV) -> bool {
    e.height > 0 ==> self_parent_link_ok(evs, e) && other_parent_link_ok(evs, e)
}

/// What a completed insert leaves in the store: nothing on a key conflict
/// or a repeated insert, the appended event otherwise.
pub open spec fn insert_effect(evs: Seq<EventV>, e: EventV) -> Seq<EventV> {
    if conflicts(evs, e) || has_event(evs, e) {
        evs
    } else {
        evs.push(e)
    }
}

/// Well-formedness of the stored event set: both keys are unique, every
/// non-genesis event is causally anchored, and heights stay below the event
/// count (which makes every creator's heights a gapless prefix).
pub open spec fn events_wf(evs: Seq<EventV>) -> bool {
    &&& (forall|i: int, j: int|
        #![trigger evs[i], evs[j]]
        0 <= i < j < evs.len() ==> evs[i].hash != evs[j].hash)
    &&& (forall|i: int, j: int|
        #![trigger evs[i], evs[j]]
        0 <= i < j < evs.len() ==> !(evs[i].creator == evs[j].creator && evs[i].height
            == evs[j].height))
    &&& (forall|i: int|
        0 <= i < evs.len() && (#[trigger] evs[i]).height > 0 ==> self_parent_link_ok(evs, evs[i])
            && other_parent_link_ok(evs, evs[i]))
    &&& (forall|i: int| 0 <= i < evs.len() ==> (#[trigger] evs[i]).height < evs.len())
}

/// The durable state of one node: events under both indices, flag tables,
/// and finalised frames.
pub struct Store {
    pub events: Vec<Event>,
    pub flag_tables: Vec<FlagSlot>,
    pub frames: Vec<Frame>,
}

impl Store {
    pub open spec fn evs(self) -> Seq<EventV> {
        evs_of(self.events)
    }

    pub open spec fn fts(self) -> Seq<FlagSlotV> {
        Seq::new(self.flag_tables@.len(), |i: int| self.flag_tables@[i]@)
    }

    pub open spec fn frs(self) -> Seq<Seq<Seq<u8>>> {
        Seq::new(self.frames@.len(), |i: int| self.frames@[i].events.deep_view())
    }

    /// Events are well-formed, flag tables are keyed uniquely, and every
    /// hash of a finalised frame resolves to a stored event.
    pub open spec fn wf(self) -> bool {
        &&& events_wf(self.evs())
        &&& (forall|i: int, j: int|
            #![trigger self.fts()[i], self.fts()[j]]
            0 <= i < j < self.fts().len() ==> self.fts()[i].event_hash != self.fts()[j].event_hash)
        &&& (forall|fi: int, k: int|
            0 <= fi < self.frs().len() && 0 <= k < self.frs()[fi].len() ==> has_hash(
                self.evs(),
                #[trigger] self.frs()[fi][k],
            ))
        &&& (forall|fi: int|
            0 <= fi < self.frs().len() ==> 0 < (#[trigger] self.frs()[fi]).len() <= usize::MAX)
    }

    /// An empty store.
    pub fn new() -> (r: Store)
        ensures
            r.wf(),
            r.evs().len() == 0,
            r.fts().len() == 0,
            r.frs().len() == 0,
    {
        Store { events: Vec::new(), flag_tables: Vec::new(), frames: Vec::new() }
    }

    /// Inserts an event under both of its keys. Nothing changes and `false`
    /// comes back when a different event already occupies one of the keys;
    /// inserting the same event again succeeds and changes nothing.
    pub fn insert(&mut self, e: Event) -> (r: bool)
        requires
            old(self).wf(),
            insertable(old(self).evs(), e@),
        ensures
            final(self).wf(),
            final(self).evs() == insert_effect(old(self).evs(), e@),
            final(self).fts() == old(self).fts(),
            final(self).frs() == old(self).frs(),
            r == !conflicts(old(self).evs(), e@),
    {
        let n = self.events.len();
        let mut i: usize = 0;
        while i < n
            invariant
                i <= n,
                n == self.events@.len(),
                *self == *old(self),
                old(self).wf(),
                insertable(old(self).evs(), e@),
                forall|j: int|
                    0 <= j < i ==> (#[trigger] self.evs()[j]).hash != e@.hash && !(
                    self.evs()[j].creator == e@.creator && self.evs()[j].height == e@.height),
            decreases n - i,
        {
            let same_hash = bytes_eq(&self.events[i].hash, &e.hash);
            let same_ch = self.events[i].creator == e.creator && self.events[i].height == e.height;
            if same_hash || same_ch {
                if events_eq(&self.events[i], &e) {
                    proof {
                        assert(self.evs()[i as int] == e@);
                        assert(has_event(self.evs(), e@));
                        assert forall|j: int|
                            0 <= j < self.evs().len() implies !((#[trigger] self.evs()[j]) != e@
                            && (self.evs()[j].hash == e@.hash || (self.evs()[j].creator
                            == e@.creator && self.evs()[j].height == e@.height))) by {
                            if self.evs()[j] != e@ {
                                if j != i {
                                    assert(self.evs()[j].hash != self.evs()[i as int].hash);
                                    assert(!(self.evs()[j].creator == self.evs()[
                                        i as int
                                    ].creator && self.evs()[j].height == self.evs()[
                                        i as int
                                    ].height));
                                }
                            }
                        }
                        assert(!conflicts(self.evs(), e@));
                    }
                    return true;
                } else {
                    proof {
                        assert(self.evs()[i as int] != e@);
                        assert(conflicts(self.evs(), e@));
                    }
                    return false;
                }
            }
            i = i + 1;
        }
        proof {
            assert(!conflicts(self.evs(), e@));
            assert(!has_event(self.evs(), e@));
        }
        let ghost old_evs = self.evs();
        self.events.push(e);
        proof {
            assert(self.evs() =~= old_evs.push(e@));
            assert(self.frs() =~= old(self).frs());
            assert(self.fts() =~= old(self).fts());
            lemma_events_wf_push(old_evs, e@);
            assert forall|fi: int, k: int|
                0 <= fi < self.frs().len() && 0 <= k < self.frs()[fi].len() implies has_hash(
                self.evs(),
                #[trigger] self.frs()[fi][k],
            ) by {
                assert(self.frs() =~= old(self).frs());
                assert(has_hash(old_evs, self.frs()[fi][k]));
                let w = choose|i2: int|
                    0 <= i2 < old_evs.len() && (#[trigger] old_evs[i2]).hash == self.frs()[fi][k];
                assert(self.evs()[w].hash == self.frs()[fi][k]);
            }
            assert(self.fts() =~= old(self).fts());
        }
        true
    }

    /// The stored event with this content hash; `Missing` when there is
    /// none.
    pub fn get_event(&self, ex: &Vec<u8>) -> (r: Result<Event, Error>)
        ensures
            r is Ok <==> has_hash(self.evs(), ex@),
            r matches Ok(e) ==> has_event(self.evs(), e@) && e@.hash == ex@,
            r matches Err(er) ==> er == Error::Missing,
    {
        let n = self.events.len();
        let mut i: usize = 0;
        while i < n
            invariant
                i <= n,
                n == self.events@.len(),
                forall|j: int| 0 <= j < i ==> (#[trigger] self.evs()[j]).hash != ex@,
            decreases n - i,
        {
            if bytes_eq(&self.events[i].hash, ex) {
                let e = self.events[i].duplicate();
                proof {
                    assert(self.evs()[i as int] == e@);
                }
                return Ok(e);
            }
            i = i + 1;
        }
        Err(Error::Missing)
    }

    /// The stored event of this creator at this height; `Missing` when
    /// there is none.
    pub fn get_event_of_creator(&self, creator: u64, height: u64) -> (r: Result<Event, Error>)
        ensures
            r is Ok <==> has_ch(self.evs(), creator, height),
            r matches Ok(e) ==> has_event(self.evs(), e@) && e@.creator == creator && e@.height
                == height,
            r matches Err(er) ==> er == Error::Missing,
    {
        match self.find_ch(creator, height) {
            Some(i) => {
                let e = self.events[i].duplicate();
                proof {
                    assert(self.evs()[i as int] == e@);
                }
                Ok(e)
            },
            None => Err(Error::Missing),
        }
    }

    /// The position of the stored event with this (creator, height) key.
    fn find_ch(&self, creator: u64, height: u64) -> (r: Option<usize>)
        ensures
            r matches Some(i) ==> i < self.evs().len() && self.evs()[i as int].creator == creator
                && self.evs()[i as int].height == height,
            r is None ==> !has_ch(self.evs(), creator, height),
    {
        let n = self.events.len();
        let mut i: usize = 0;
        while i < n
            invariant
                i <= n,
                n == self.events@.len(),
                forall|j: int|
                    0 <= j < i ==> !((#[trigger] self.evs()[j]).creator == creator
                        && self.evs()[j].height == height),
            decreases n - i,
        {
            if self.events[i].creator == creator && self.events[i].height == height {
                return Some(i);
            }
            i = i + 1;
        }
        None
    }

    /// Stores the flag table under an event hash, replacing any earlier
    /// table stored under the same hash.
    pub fn set_flag_table(&mut self, ex: &Vec<u8>, ft: FlagTable) -> (r: Result<(), Error>)
        requires
            old(self).wf(),
        ensures
            final(self).wf(),
            r is Ok,
            final(self).evs() == old(self).evs(),
            final(self).frs() == old(self).frs(),
            exists|i: int|
                0 <= i < final(self).fts().len() && (#[trigger] final(self).fts()[i]).event_hash
                    == ex@ && final(self).fts()[i].table == ft@,
            forall|i: int|
                0 <= i < old(self).fts().len() && (#[trigger] old(self).fts()[i]).event_hash != ex@
                    ==> has_slot(final(self).fts(), old(self).fts()[i]),
            forall|i: int|
                0 <= i < final(self).fts().len() ==> (#[trigger] final(self).fts()[i]).event_hash
                    == ex@ || has_slot(old(self).fts(), final(self).fts()[i]),
    {
        let n = self.flag_tables.len();
        let mut i: usize = 0;
        while i < n
            invariant
                i <= n,
                n == self.flag_tables@.len(),
                *self == *old(self),
                old(self).wf(),
                forall|j: int| 0 <= j < i ==> (#[trigger] self.fts()[j]).event_hash != ex@,
            decreases n - i,
        {
            if bytes_eq(&self.flag_tables[i].event_hash, ex) {
                let slot = FlagSlot { event_hash: clone_bytes(ex), table: ft };
                self.flag_tables.set(i, slot);
                proof {
                    assert(self.fts()[i as int].event_hash == ex@);
                    assert(self.fts() =~= old(self).fts().update(
                        i as int,
                        FlagSlotV { event_hash: ex@, table: ft@ },
                    ));
                    assert(self.evs() =~= old(self).evs());
                    assert(self.frs() =~= old(self).frs());
                    assert(old(self).fts()[i as int].event_hash == ex@);
                    assert forall|q: int|
                        0 <= q < old(self).fts().len() && (#[trigger] old(self).fts()[
                        q]).event_hash != ex@ implies has_slot(self.fts(), old(self).fts()[q]) by {
                        assert(self.fts()[q] == old(self).fts()[q]);
                    }
                    assert forall|q: int| 0 <= q < self.fts().len() implies (
                    #[trigger] self.fts()[q]).event_hash == ex@ || has_slot(
                        old(self).fts(),
                        self.fts()[q],
                    ) by {
                        if q != i {
                            assert(self.fts()[q] == old(self).fts()[q]);
                        }
                    }
                    assert forall|a: int, b: int|
                        #![trigger self.fts()[a], self.fts()[b]]
                        0 <= a < b < self.fts().len() implies self.fts()[a].event_hash
                        != self.fts()[b].event_hash by {
                        assert(old(self).fts()[a].event_hash != old(self).fts()[b].event_hash);
                        assert(self.fts()[a].event_hash == old(self).fts()[a].event_hash);
                        assert(self.fts()[b].event_hash == old(self).fts()[b].event_hash);
                    }
                }
                return Ok(());
            }
            i = i + 1;
        }
        let slot = FlagSlot { event_hash: clone_bytes(ex), table: ft };
        self.flag_tables.push(slot);
        proof {
            assert(self.fts() =~= old(self).fts().push(
                FlagSlotV { event_hash: ex@, table: ft@ },
            ));
            assert(self.fts()[old(self).fts().len() as int].event_hash == ex@);
            assert(self.evs() =~= old(self).evs());
            assert(self.frs() =~= old(self).frs());
            assert forall|q: int|
                0 <= q < old(self).fts().len() && (#[trigger] old(self).fts()[q]).event_hash != ex@
                implies has_slot(self.fts(), old(self).fts()[q]) by {
                assert(self.fts()[q] == old(self).fts()[q]);
            }
            assert forall|q: int| 0 <= q < self.fts().len() implies (#[trigger] self.fts()[
            q]).event_hash == ex@ || has_slot(old(self).fts(), self.fts()[q]) by {
                if q < old(self).fts().len() {
                    assert(self.fts()[q] == old(self).fts()[q]);
                }
            }
            assert forall|a: int, b: int|
                #![trigger self.fts()[a], self.fts()[b]]
                0 <= a < b < self.fts().len() implies self.fts()[a].event_hash != self.fts()[
            b].event_hash by {
                if b < old(self).fts().len() {
                    assert(old(self).fts()[a].event_hash != old(self).fts()[b].event_hash);
                } else {
                    assert(self.fts()[a].event_hash != ex@);
                }
            }
        }
        Ok(())
    }

    /// The flag table stored under an event hash; `Missing` when none was
    /// stored.
    pub fn get_flag_table(&self, ex: &Vec<u8>) -> (r: Result<FlagTable, Error>)
        ensures
            r is Ok <==> exists|i: int|
                0 <= i < self.fts().len() && (#[trigger] self.fts()[i]).event_hash == ex@,
            r matches Ok(t) ==> exists|i: int|
                0 <= i < self.fts().len() && (#[trigger] self.fts()[i]).event_hash == ex@
                    && self.fts()[i].table == t@,
            r matches Err(er) ==> er == Error::Missing,
    {
        let n = self.flag_tables.len();
        let mut i: usize = 0;
        while i < n
            invariant
                i <= n,
                n == self.flag_tables@.len(),
                forall|j: int| 0 <= j < i ==> (#[trigger] self.fts()[j]).event_hash != ex@,
            decreases n - i,
        {
            if bytes_eq(&self.flag_tables[i].event_hash, ex) {
                let t = self.flag_tables[i].table.duplicate();
                proof {
                    assert(self.fts()[i as int].event_hash == ex@ && self.fts()[i as int].table
                        == t@);
                }
                return Ok(t);
            }
            i = i + 1;
        }
        Err(Error::Missing)
    }

    /// Appends the next finalised frame; its number is one past the last.
    pub fn set_frame(&mut self, frame: Frame) -> (n: FrameNumber)
        requires
            old(self).wf(),
            old(self).frs().len() < u64::MAX,
            frame.events.deep_view().len() > 0,
            forall|k: int|
                0 <= k < frame.events.deep_view().len() ==> has_hash(
                    old(self).evs(),
                    #[trigger] frame.events.deep_view()[k],
                ),
        ensures
            final(self).wf(),
            final(self).evs() == old(self).evs(),
            final(self).fts() == old(self).fts(),
            final(self).frs() == old(self).frs().push(frame.events.deep_view()),
            n == old(self).frs().len() + 1,
    {
        let n = self.frames.len();
        let m = frame.events.len();
        proof {
            assert(frame.events.deep_view().len() == m);
        }
        self.frames.push(frame);
        proof {
            assert(self.frs() =~= old(self).frs().push(self.frames@[n as int].events.deep_view()));
            assert(self.evs() =~= old(self).evs());
            assert(self.fts() =~= old(self).fts());
        }
        (n as u64) + 1
    }

    /// The number of finalised frames held.
    pub fn frames_len(&self) -> (r: usize)
        ensures
            r == self.frs().len(),
    {
        self.frames.len()
    }

    /// The ordered event hashes of frame `n`; frames are numbered from one.
    pub fn get_frame(&self, n: FrameNumber) -> (r: Result<Frame, Error>)
        ensures
            r is Ok <==> 1 <= n <= self.frs().len(),
            r matches Ok(f) ==> f.events.deep_view() == self.frs()[n - 1],
            r matches Err(er) ==> er == Error::Missing,
    {
        let len = self.frames.len();
        if n >= 1 && n <= len as u64 {
            let idx = (n - 1) as usize;
            let f = Frame { events: clone_bytes_list(&self.frames[idx].events) };
            proof {
                assert(f.events.deep_view() == self.frs()[n - 1]);
            }
            Ok(f)
        } else {
            Err(Error::Missing)
        }
    }
}

/// A slot with these very values is present.
pub open spec fn has_slot(fts: Seq<FlagSlotV>, s: FlagSlotV) -> bool {
    exists|i: int| 0 <= i < fts.len() && (#[trigger] fts[i]) == s
}

/// Byte-for-byte equality of two events.
pub fn events_eq(a: &Event, b: &Event) -> (r: bool)
    ensures
        r == (a@ == b@),
{
    let r = a.creator == b.creator && a.height == b.height && a.lamport_timestamp
        == b.lamport_timestamp && bytes_eq(&a.self_parent, &b.self_parent) && bytes_eq(
        &a.other_parent,
        &b.other_parent,
    ) && bytes_list_eq(&a.transactions, &b.transactions) && bytes_list_eq(
        &a.internal_transactions,
        &b.internal_transactions,
    ) && bytes_eq(&a.signature, &b.signature) && bytes_eq(&a.hash, &b.hash);
    proof {
        if r {
            assert(a@ == b@);
        } else {
            assert(a@ != b@);
        }
    }
    r
}

/// Appending an insertable, conflict-free event preserves well-formedness.
pub proof fn lemma_events_wf_push(evs: Seq<EventV>, e: EventV)
    requires
        events_wf(evs),
        insertable(evs, e),
        !conflicts(evs, e),
        !has_event(evs, e),
    ensures
        events_wf(evs.push(e)),
{
    let evs2 = evs.push(e);
    assert(evs2.len() == evs.len() + 1);
    assert forall|i: int| 0 <= i < evs.len() implies evs2[i] == evs[i] by {}
    assert(evs2[evs.len() as int] == e);
    assert forall|i: int, j: int|
        #![trigger evs2[i], evs2[j]]
        0 <= i < j < evs2.len() implies evs2[i].hash != evs2[j].hash && !(evs2[i].creator
        == evs2[j].creator && evs2[i].height == evs2[j].height) by {
        if j == evs.len() {
            assert(evs[i] != e || has_event(evs, e)) by {
                if evs[i] == e {
                    assert(has_event(evs, e));
                }
            }
            assert(evs[i] != e);
            assert(!(evs[i].hash == e.hash || (evs[i].creator == e.creator && evs[i].height
                == e.height)));
        }
    }
    assert forall|i: int|
        0 <= i < evs2.len() && (#[trigger] evs2[i]).height > 0 implies self_parent_link_ok(
        evs2,
        evs2[i],
    ) && other_parent_link_ok(evs2, evs2[i]) by {
        if i < evs.len() {
            let w = choose|w: int|
                0 <= w < evs.len() && (#[trigger] evs[w]).hash == evs[i].self_parent && evs[
                    w
                ].creator == evs[i].creator && evs[w].height + 1 == evs[i].height && evs[
                    w
                ].lamport_timestamp + 1 <= evs[i].lamport_timestamp;
            assert(evs2[w] == evs[w]);
            let w2 = choose|w2: int|
                0 <= w2 < evs.len() && (#[trigger] evs[w2]).hash == evs[i].other_parent && evs[
                    w2
                ].lamport_timestamp + 1 <= evs[i].lamport_timestamp;
            assert(evs2[w2] == evs[w2]);
        } else {
            assert(evs2[i] == e);
            let w = choose|w: int|
                0 <= w < evs.len() && (#[trigger] evs[w]).hash == e.self_parent && evs[w].creator
                    == e.creator && evs[w].height + 1 == e.height && evs[w].lamport_timestamp + 1
                    <= e.lamport_timestamp;
            assert(evs2[w] == evs[w]);
            let w2 = choose|w2: int|
                0 <= w2 < evs.len() && (#[trigger] evs[w2]).hash == e.other_parent && evs[
                    w2
                ].lamport_timestamp + 1 <= e.lamport_timestamp;
            assert(evs2[w2] == evs[w2]);
        }
    }
    assert forall|i: int| 0 <= i < evs2.len() implies (#[trigger] evs2[i]).height < evs2.len() by {
        if i < evs.len() {
        } else {
            if e.height > 0 {
                let w = choose|w: int|
                    0 <= w < evs.len() && (#[trigger] evs[w]).hash == e.self_parent && evs[
                        w
                    ].creator == e.creator && evs[w].height + 1 == e.height && evs[
                        w
                    ].lamport_timestamp + 1 <= e.lamport_timestamp;
                assert(evs[w].height < evs.len());
            }
        }
    }
}

/// The heights a creator holds in a well-formed store form a gapless
/// prefix: below any stored height, every height is stored too.
pub proof fn lemma_heights_form_prefix(evs: Seq<EventV>, c: u64, h1: u64, h2: u64)
    requires
        events_wf(evs),
        has_ch(evs, c, h1),
        h2 <= h1,
    ensures
        has_ch(evs, c, h2),
    decreases h1,
{
    if h2 < h1 {
        let i = choose|i: int|
            0 <= i < evs.len() && (#[trigger] evs[i]).creator == c && evs[i].height == h1;
        assert(evs[i].height > 0);
        assert(self_parent_link_ok(evs, evs[i]));
        let w = choose|w: int|
            0 <= w < evs.len() && (#[trigger] evs[w]).hash == evs[i].self_parent && evs[w].creator
                == evs[i].creator && evs[w].height + 1 == evs[i].height && evs[w].lamport_timestamp
                + 1 <= evs[i].lamport_timestamp;
        assert(has_ch(evs, c, (h1 - 1) as u64));
        lemma_heights_form_prefix(evs, c, (h1 - 1) as u64, h2);
    }
}

/// Both parents of any stored non-genesis event resolve to stored events.
pub proof fn lemma_parents_present(evs: Seq<EventV>, e: EventV)
    requires
        events_wf(evs),
        has_event(evs, e),
        e.height > 0,
    ensures
        has_hash(evs, e.self_parent),
        has_hash(evs, e.other_parent),
{
    let i = choose|i: int| 0 <= i < evs.len() && (#[trigger] evs[i]) == e;
    assert(self_parent_link_ok(evs, evs[i]));
    assert(other_parent_link_ok(evs, evs[i]));
    let w = choose|w: int|
        0 <= w < evs.len() && (#[trigger] evs[w]).hash == e.self_parent && evs[w].creator
            == e.creator && evs[w].height + 1 == e.height && evs[w].lamport_timestamp + 1
            <= e.lamport_timestamp;
    assert(evs[w].hash == e.self_parent);
    let w2 = choose|w2: int|
        0 <= w2 < evs.len() && (#[trigger] evs[w2]).hash == e.other_parent && evs[
            w2
        ].lamport_timestamp + 1 <= e.lamport_timestamp;
    assert(evs[w2].hash == e.other_parent);
}

/// The Lamport timestamp of any stored non-genesis event exceeds both of
/// its parents' timestamps: at least one more than either.
pub proof fn lemma_lamport_causal(evs: Seq<EventV>, e: EventV)
    requires
        events_wf(evs),
        has_event(evs, e),
        e.height > 0,
    ensures
        exists|i: int|
            0 <= i < evs.len() && (#[trigger] evs[i]).hash == e.self_parent
                && evs[i].lamport_timestamp + 1 <= e.lamport_timestamp,
        exists|i: int|
            0 <= i < evs.len() && (#[trigger] evs[i]).hash == e.other_parent
                && evs[i].lamport_timestamp + 1 <= e.lamport_timestamp,
{
    let i = choose|i: int| 0 <= i < evs.len() && (#[trigger] evs[i]) == e;
    assert(self_parent_link_ok(evs, evs[i]));
    assert(other_parent_link_ok(evs, evs[i]));
    let w = choose|w: int|
        0 <= w < evs.len() && (#[trigger] evs[w]).hash == e.self_parent && evs[w].creator
            == e.creator && evs[w].height + 1 == e.height && evs[w].lamport_timestamp + 1
            <= e.lamport_timestamp;
    assert(evs[w].hash == e.self_parent && evs[w].lamport_timestamp + 1 <= e.lamport_timestamp);
    let w2 = choose|w2: int|
        0 <= w2 < evs.len() && (#[trigger] evs[w2]).hash == e.other_parent && evs[
            w2
        ].lamport_timestamp + 1 <= e.lamport_timestamp;
    assert(evs[w2].hash == e.other_parent && evs[w2].lamport_timestamp + 1 <= e.lamport_timestamp);
}

/// Inserting an event a second time leaves the store exactly as one insert
/// left it.
pub proof fn lemma_insert_idempotent(evs: Seq<EventV>, e: EventV)
    ensures
        insert_effect(insert_effect(evs, e), e) == insert_effect(evs, e),
{
    let evs1 = insert_effect(evs, e);
    if conflicts(evs, e) || has_event(evs, e) {
    } else {
        assert(evs1 == evs.push(e));
        assert(evs1[evs.len() as int] == e);
        assert(has_event(evs1, e));
    }
}

// ---- the incremental gossip query ----

/// Some entry asks for this event: its creator is listed and its height
/// lies above what the entry's sender knows.
pub open spec fn wanted(entries: Seq<GossipEntry>, e: EventV) -> bool {
    exists|j: int|
        0 <= j < entries.len() && (#[trigger] entries[j]).peer_id == e.creator && e.height
            > entries[j].height
}

/// Some entry below position `j` asks for this event.
pub open spec fn wanted_below(entries: Seq<GossipEntry>, e: EventV, j: int) -> bool {
    exists|j2: int|
        0 <= j2 < j && (#[trigger] entries[j2]).peer_id == e.creator && e.height > entries[
            j2
        ].height
}

/// The position of the entry naming this creator.
pub open spec fn entry_index(entries: Seq<GossipEntry>, c: u64) -> int {
    choose|j: int| 0 <= j < entries.len() && (#[trigger] entries[j]).peer_id == c
}

/// The order the gossip query promises: gossip-list order between
/// creators, ascending height within one creator.
pub open spec fn gossip_pair_ordered(entries: Seq<GossipEntry>, a: EventV, b: EventV) -> bool {
    if a.creator == b.creator {
        a.height < b.height
    } else {
        entry_index(entries, a.creator) < entry_index(entries, b.creator)
    }
}

/// Every peer appears at most once in a gossip list.
pub open spec fn entries_unique(entries: Seq<GossipEntry>) -> bool {
    forall|j1: int, j2: int|
        #![trigger entries[j1], entries[j2]]
        0 <= j1 < j2 < entries.len() ==> entries[j1].peer_id != entries[j2].peer_id
}

/// Everything the incremental gossip query promises: every returned event
/// is stored; every stored event that some entry asks for is returned; no
/// event is returned twice; only asked-for events are returned; and they
/// come in gossip-list order, heights ascending within one creator.
pub open spec fn gossip_result_ok(
    evs: Seq<EventV>,
    entries: Seq<GossipEntry>,
    rv: Seq<EventV>,
) -> bool {
    &&& (forall|k: int| 0 <= k < rv.len() ==> has_event(evs, #[trigger] rv[k]))
    &&& (forall|i: int, j: int|
        0 <= i < evs.len() && 0 <= j < entries.len() && (#[trigger] evs[i]).creator == (
        #[trigger] entries[j]).peer_id && evs[i].height > entries[j].height ==> has_event(
            rv,
            evs[i],
        ))
    &&& (forall|k1: int, k2: int|
        #![trigger rv[k1], rv[k2]]
        0 <= k1 < k2 < rv.len() ==> rv[k1] != rv[k2] && gossip_pair_ordered(
            entries,
            rv[k1],
            rv[k2],
        ))
    &&& (forall|k: int| 0 <= k < rv.len() ==> wanted(entries, #[trigger] rv[k]))
}

/// With unique identities, the entry index of a listed creator is the
/// position it is listed at.
pub proof fn lemma_entry_index(entries: Seq<GossipEntry>, j: int)
    requires
        entries_unique(entries),
        0 <= j < entries.len(),
    ensures
        entry_index(entries, entries[j].peer_id) == j,
{
    let c = entries[j].peer_id;
    assert(0 <= j < entries.len() && entries[j].peer_id == c);
    let ei = entry_index(entries, c);
    assert(0 <= ei < entries.len() && entries[ei].peer_id == c);
    if ei < j {
        assert(entries[ei].peer_id != entries[j].peer_id);
    } else if ei > j {
        assert(entries[j].peer_id != entries[ei].peer_id);
    }
}

/// One served gossip entry extends the result soundly: everything walked
/// is stored and asked for, the earlier entries stay fully served, the
/// entry just walked is fully served, and order and distinctness hold.
#[verifier::rlimit(100)]
proof fn lemma_gossip_entry_step(
    evs: Seq<EventV>,
    entries: Seq<GossipEntry>,
    prev: Seq<EventV>,
    out_v: Seq<EventV>,
    j: int,
    c: u64,
    base: u64,
    h: u64,
)
    requires
        events_wf(evs),
        entries_unique(entries),
        0 <= j < entries.len(),
        c == entries[j].peer_id,
        base == entries[j].height,
        h >= base,
        out_v.len() == prev.len() + (h - base),
        out_v.subrange(0, prev.len() as int) == prev,
        forall|m: int|
            0 <= m < h - base ==> (#[trigger] out_v[prev.len() + m]).creator == c && out_v[
                prev.len() + m
            ].height == base + 1 + m && has_event(evs, out_v[prev.len() + m]),
        h == u64::MAX || !has_ch(evs, c, (h + 1) as u64),
        forall|k: int| 0 <= k < prev.len() ==> has_event(evs, #[trigger] prev[k]),
        forall|k: int| 0 <= k < prev.len() ==> wanted_below(entries, #[trigger] prev[k], j),
        forall|i: int, j2: int|
            0 <= i < evs.len() && 0 <= j2 < j && (#[trigger] evs[i]).creator == (
            #[trigger] entries[j2]).peer_id && evs[i].height > entries[j2].height ==> has_event(
                prev,
                evs[i],
            ),
        forall|k1: int, k2: int|
            #![trigger prev[k1], prev[k2]]
            0 <= k1 < k2 < prev.len() ==> prev[k1] != prev[k2] && gossip_pair_ordered(
                entries,
                prev[k1],
                prev[k2],
            ),
    ensures
        forall|k: int| 0 <= k < out_v.len() ==> has_event(evs, #[trigger] out_v[k]),
        forall|k: int| 0 <= k < out_v.len() ==> wanted_below(entries, #[trigger] out_v[k], j + 1),
        forall|i: int, j2: int|
            0 <= i < evs.len() && 0 <= j2 < j + 1 && (#[trigger] evs[i]).creator == (
            #[trigger] entries[j2]).peer_id && evs[i].height > entries[j2].height ==> has_event(
                out_v,
                evs[i],
            ),
        forall|k1: int, k2: int|
            #![trigger out_v[k1], out_v[k2]]
            0 <= k1 < k2 < out_v.len() ==> out_v[k1] != out_v[k2] && gossip_pair_ordered(
                entries,
                out_v[k1],
                out_v[k2],
            ),
{
    // restate the walked tail over plain positions
    assert forall|k: int|
        prev.len() <= k < out_v.len() implies (#[trigger] out_v[k]).creator == c && out_v[k].height
        == base + 1 + (k - prev.len()) && has_event(evs, out_v[k]) by {
        let m = k - prev.len();
        assert(out_v[prev.len() + m].creator == c && out_v[prev.len() + m].height == base + 1 + m
            && has_event(evs, out_v[prev.len() + m]));
        assert(out_v[k] == out_v[prev.len() + m]);
    }
    assert forall|k: int| 0 <= k < prev.len() implies #[trigger] out_v[k] == prev[k] by {
        assert(out_v.subrange(0, prev.len() as int)[k] == prev[k]);
    }
    // everything returned is stored
    assert forall|k: int| 0 <= k < out_v.len() implies has_event(evs, #[trigger] out_v[k]) by {
        if k < prev.len() {
            assert(out_v[k] == prev[k]);
        }
    }
    // everything returned is asked for by an entry up to j
    assert forall|k: int|
        0 <= k < out_v.len() implies wanted_below(entries, #[trigger] out_v[k], j + 1) by {
        if k < prev.len() {
            let j2 = choose|j2: int|
                0 <= j2 < j && (#[trigger] entries[j2]).peer_id == prev[k].creator && prev[k].height
                    > entries[j2].height;
            assert(0 <= j2 < j + 1 && entries[j2].peer_id == out_v[k].creator && out_v[k].height
                > entries[j2].height);
        } else {
            assert(entries[j].peer_id == out_v[k].creator && out_v[k].height > entries[j].height);
        }
    }
    // the entry just walked is fully served
    assert forall|i: int|
        0 <= i < evs.len() && (#[trigger] evs[i]).creator == c && evs[i].height > base implies
        has_event(out_v, evs[i]) by {
        if evs[i].height > h {
            if h == u64::MAX {
                assert(evs[i].height <= u64::MAX);
            } else {
                lemma_heights_form_prefix(evs, c, evs[i].height, (h + 1) as u64);
                assert(has_ch(evs, c, (h + 1) as u64));
            }
        } else {
            let m = evs[i].height - base - 1;
            assert(out_v[prev.len() + m].creator == c && out_v[prev.len() + m].height == base + 1
                + m && has_event(evs, out_v[prev.len() + m]));
            let w = choose|w: int| 0 <= w < evs.len() && (#[trigger] evs[w]) == out_v[prev.len()
                + m];
            assert(evs[w].creator == evs[i].creator && evs[w].height == evs[i].height);
            if w != i {
                if w < i {
                    assert(!(evs[w].creator == evs[i].creator && evs[w].height == evs[i].height));
                } else {
                    assert(!(evs[i].creator == evs[w].creator && evs[i].height == evs[w].height));
                }
            }
            assert(out_v[prev.len() + m] == evs[i]);
        }
    }
    // the earlier entries stay fully served
    assert forall|i: int, j2: int|
        0 <= i < evs.len() && 0 <= j2 < j + 1 && (#[trigger] evs[i]).creator == (
        #[trigger] entries[j2]).peer_id && evs[i].height > entries[j2].height implies has_event(
        out_v,
        evs[i],
    ) by {
        if j2 < j {
            let k = choose|k: int| 0 <= k < prev.len() && (#[trigger] prev[k]) == evs[i];
            assert(out_v[k] == prev[k]);
        }
    }
    // order and distinctness
    assert forall|k1: int, k2: int|
        #![trigger out_v[k1], out_v[k2]]
        0 <= k1 < k2 < out_v.len() implies out_v[k1] != out_v[k2] && gossip_pair_ordered(
        entries,
        out_v[k1],
        out_v[k2],
    ) by {
        if k2 < prev.len() {
            assert(out_v[k1] == prev[k1] && out_v[k2] == prev[k2]);
        } else if k1 >= prev.len() {
            assert(out_v[k1].creator == c && out_v[k2].creator == c);
            assert(out_v[k1].height == base + 1 + (k1 - prev.len()));
            assert(out_v[k2].height == base + 1 + (k2 - prev.len()));
        } else {
            assert(out_v[k1] == prev[k1]);
            assert(out_v[k2].creator == c && out_v[k2].height == base + 1 + (k2 - prev.len()));
            let j2 = choose|j2: int|
                0 <= j2 < j && (#[trigger] entries[j2]).peer_id == prev[k1].creator
                    && prev[k1].height > entries[j2].height;
            lemma_entry_index(entries, j2);
            lemma_entry_index(entries, j);
            assert(entries[j2].peer_id != entries[j].peer_id);
            assert(out_v[k1].creator != out_v[k2].creator);
            assert(entry_index(entries, out_v[k1].creator) == j2);
            assert(entry_index(entries, out_v[k2].creator) == j);
        }
    }
}

impl Store {
    /// The events the sender of a gossip list is missing: for each listed
    /// peer, every stored event above the listed height, walked upwards
    /// until the first absent height.
    #[verifier::rlimit(100)]
    pub fn get_events_for_gossip(&self, g: &GossipList) -> (r: Result<Vec<Event>, Error>)
        requires
            self.wf(),
            entries_unique(g.entries@),
        ensures
            r is Ok,
            r matches Ok(out) ==> gossip_result_ok(self.evs(), g.entries@, evs_of(out)),
    {
        let evn = self.events.len();
        let mut out: Vec<Event> = Vec::new();
        let en = g.entries.len();
        let mut j: usize = 0;
        while j < en
            invariant
                j <= en,
                en == g.entries@.len(),
                evn == self.evs().len(),
                self.wf(),
                entries_unique(g.entries@),
                forall|k: int|
                    0 <= k < evs_of(out).len() ==> has_event(self.evs(), #[trigger] evs_of(out)[k]),
                forall|k: int|
                    0 <= k < evs_of(out).len() ==> wanted_below(
                        g.entries@,
                        #[trigger] evs_of(out)[k],
                        j as int,
                    ),
                forall|i: int, j2: int|
                    0 <= i < self.evs().len() && 0 <= j2 < j && (#[trigger] self.evs()[i]).creator
                        == (#[trigger] g.entries@[j2]).peer_id && self.evs()[i].height
                        > g.entries@[j2].height ==> has_event(evs_of(out), self.evs()[i]),
                forall|k1: int, k2: int|
                    #![trigger evs_of(out)[k1], evs_of(out)[k2]]
                    0 <= k1 < k2 < evs_of(out).len() ==> evs_of(out)[k1] != evs_of(out)[k2]
                        && gossip_pair_ordered(g.entries@, evs_of(out)[k1], evs_of(out)[k2]),
            decreases en - j,
        {
            let c = g.entries[j].peer_id;
            let base = g.entries[j].height;
            let ghost prev = evs_of(out);
            let ghost entries = g.entries@;
            let ghost evs = self.evs();
            let mut h: u64 = base;
            while h < u64::MAX
                invariant
                    self.wf(),
                    evs == self.evs(),
                    evn == self.evs().len(),
                    entries == g.entries@,
                    entries_unique(entries),
                    j < entries.len(),
                    c == entries[j as int].peer_id,
                    base == entries[j as int].height,
                    h >= base,
                    h > base ==> h < evn,
                    evs_of(out).len() == prev.len() + (h - base),
                    evs_of(out).subrange(0, prev.len() as int) == prev,
                    forall|m: int|
                        0 <= m < h - base ==> (#[trigger] evs_of(out)[prev.len() + m]).creator == c
                            && evs_of(out)[prev.len() + m].height == base + 1 + m && has_event(
                            self.evs(),
                            evs_of(out)[prev.len() + m],
                        ),
                    forall|k: int| 0 <= k < prev.len() ==> has_event(self.evs(), #[trigger] prev[k]),
                    forall|k: int|
                        0 <= k < prev.len() ==> wanted_below(entries, #[trigger] prev[k], j as int),
                    forall|k1: int, k2: int|
                        #![trigger prev[k1], prev[k2]]
                        0 <= k1 < k2 < prev.len() ==> prev[k1] != prev[k2] && gossip_pair_ordered(
                            entries,
                            prev[k1],
                            prev[k2],
                        ),
                ensures
                    h >= base,
                    h > base ==> h < evn,
                    evs_of(out).len() == prev.len() + (h - base),
                    evs_of(out).subrange(0, prev.len() as int) == prev,
                    forall|m: int|
                        0 <= m < h - base ==> (#[trigger] evs_of(out)[prev.len() + m]).creator == c
                            && evs_of(out)[prev.len() + m].height == base + 1 + m && has_event(
                            self.evs(),
                            evs_of(out)[prev.len() + m],
                        ),
                    h == u64::MAX || !has_ch(self.evs(), c, (h + 1) as u64),
                decreases u64::MAX - h,
            {
                let nh = h + 1;
                match self.find_ch(c, nh) {
                    None => {
                        break ;
                    },
                    Some(idx) => {
                        let ghost out_before = evs_of(out);
                        let ev = self.events[idx].duplicate();
                        proof {
                            assert(self.evs()[idx as int] == ev@);
                            assert(ev@.height < evn);
                        }
                        out.push(ev);
                        h = nh;
                        proof {
                            assert(evs_of(out) =~= out_before.push(self.evs()[idx as int]));
                            assert(evs_of(out).subrange(0, prev.len() as int) =~= prev);
                        }
                    },
                }
            }
            proof {
                lemma_gossip_entry_step(
                    self.evs(),
                    g.entries@,
                    prev,
                    evs_of(out),
                    j as int,
                    c,
                    base,
                    h,
                );
            }
            j = j + 1;
        }
        proof {
            assert forall|k: int|
                0 <= k < evs_of(out).len() implies wanted(g.entries@, #[trigger] evs_of(out)[k]) by {
                let j2 = choose|j2: int|
                    0 <= j2 < en && (#[trigger] g.entries@[j2]).peer_id == evs_of(out)[k].creator
                        && evs_of(out)[k].height > g.entries@[j2].height;
                assert(0 <= j2 < g.entries@.len());
            }
        }
        Ok(out)
    }
}

/// Decides whether a received gossip list names every peer at most once.
pub fn gossip_entries_unique(g: &GossipList) -> (r: bool)
    ensures
        r == entries_unique(g.entries@),
{
    let n = g.entries.len();
    let mut i: usize = 0;
    while i < n
        invariant
            i <= n,
            n == g.entries@.len(),
            forall|a: int, b: int|
                #![trigger g.entries@[a], g.entries@[b]]
                0 <= a < b < i ==> g.entries@[a].peer_id != g.entries@[b].peer_id,
        decreases n - i,
    {
        let mut j: usize = 0;
        while j < i
            invariant
                j <= i,
                i < n,
                n == g.entries@.len(),
                forall|a: int, b: int|
                    #![trigger g.entries@[a], g.entries@[b]]
                    0 <= a < b < i ==> g.entries@[a].peer_id != g.entries@[b].peer_id,
                forall|a: int| 0 <= a < j ==> (#[trigger] g.entries@[a]).peer_id != g.entries@[
                    i as int
                ].peer_id,
            decreases i - j,
        {
            if g.entries[j].peer_id == g.entries[i].peer_id {
                return false;
            }
            j = j + 1;
        }
        i = i + 1;
    }
    true
}

} // verus!
