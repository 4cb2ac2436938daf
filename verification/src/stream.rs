use vstd::prelude::*;

use crate::cf_eff;
use crate::ct_eff;
use crate::cursor_ok;
use crate::event_by_hash;
use crate::same_dag_identity;
use crate::DAG;
use crate::codec::clone_bytes;
use crate::event::EventV;
use crate::peer::FrameNumber;
use crate::store::has_hash;
use crate::store::Store;

verus! {

// ---- the stream surface ----

/// What one poll of the stream yields: a payload, not ready yet, or the
/// end of the stream after shutdown.
pub enum StreamPoll {
    Payload(Vec<u8>),
    Pending,
    Ended,
}

/// The outcome a poll stands for: `None` is not ready, `Some(None)` the
/// end, `Some(Some(p))` a payload.
pub open spec fn stream_poll_view(r: StreamPoll) -> Option<Option<Seq<u8>>> {
    match r {
        StreamPoll::Payload(p) => Some(Some(p@)),
        StreamPoll::Pending => None,
        StreamPoll::Ended => Some(None),
    }
}

/// The domain on which the stream walk is defined: the cursor stays within
/// the finalised frames.
pub open spec fn poll_live(
    frames: Seq<Seq<Seq<u8>>>,
    lf: u64,
    cf: Option<FrameNumber>,
    ce: Option<usize>,
) -> bool {
    &&& lf <= frames.len()
    &&& (forall|fi: int| 0 <= fi < frames.len() ==> (#[trigger] frames[fi]).len() <= usize::MAX)
    &&& (match ce {
        None => true,
        Some(e) => 1 <= cf_eff(cf) && cf_eff(cf) <= lf && (e as int) <= frames[cf_eff(cf)
            - 1].len(),
    })
}

/// The frame part of the walk's termination measure.
pub open spec fn poll_m1(lf: u64, cf: Option<FrameNumber>) -> int {
    lf + 1 - cf_eff(cf)
}

/// The event part of the walk's termination measure.
pub open spec fn poll_m2(frames: Seq<Seq<Seq<u8>>>, cf: Option<FrameNumber>, ce: Option<usize>) -> int {
    match ce {
        None => 0,
        Some(e) => frames[cf_eff(cf) - 1].len() - e + 1,
    }
}

/// The stream walk: starting from the cursor, it skips events without
/// payloads, wrapping from frame to frame, until it either finds the next
/// payload or passes the last finalised frame. It yields the outcome and
/// the cursor to store.
pub open spec fn poll_loop(
    evs: Seq<EventV>,
    frames: Seq<Seq<Seq<u8>>>,
    lf: u64,
    cf: Option<FrameNumber>,
    ce: Option<usize>,
    ct: Option<usize>,
) -> (Option<Option<Seq<u8>>>, (Option<FrameNumber>, Option<usize>, Option<usize>))
    decreases poll_m1(lf, cf), poll_m2(frames, cf, ce),
    when poll_live(frames, lf, cf, ce) && lf < u64::MAX
    via poll_loop_decreases
{
    let cfv = cf_eff(cf);
    match ce {
        None => {
            if cfv >= lf {
                (None, (cf, ce, ct))
            } else {
                poll_loop(evs, frames, lf, Some((cfv + 1) as u64), Some(0), ct)
            }
        },
        Some(e) => {
            let frame = frames[cfv - 1];
            let n_events = frame.len();
            let ev = event_by_hash(evs, frame[e as int]);
            let n_tx = ev.transactions.len();
            let ctv = ct_eff(ct);
            let data: Option<Seq<u8>> = if n_tx > 0 {
                Some(ev.transactions[ctv])
            } else {
                None
            };
            let st: (Option<FrameNumber>, Option<usize>, Option<usize>) = if ctv + 1 < n_tx {
                (Some(cfv as u64), Some(e), Some((ctv + 1) as usize))
            } else if e + 1 < n_events {
                (Some(cfv as u64), Some((e + 1) as usize), Some(0usize))
            } else {
                (Some(cfv as u64), None, Some(0usize))
            };
            match data {
                Some(p) => (Some(Some(p)), st),
                None => poll_loop(evs, frames, lf, st.0, st.1, st.2),
            }
        },
    }
}

#[via_fn]
proof fn poll_loop_decreases(
    evs: Seq<EventV>,
    frames: Seq<Seq<Seq<u8>>>,
    lf: u64,
    cf: Option<FrameNumber>,
    ce: Option<usize>,
    ct: Option<usize>,
) {
    let cfv = cf_eff(cf);
    match ce {
        None => {
            if cfv < lf {
                assert(cf_eff(Some((cfv + 1) as u64)) == cfv + 1);
            }
        },
        Some(e) => {
            let frame = frames[cfv - 1];
            let n_events = frame.len();
            let ev = event_by_hash(evs, frame[e as int]);
            let n_tx = ev.transactions.len();
            let ctv = ct_eff(ct);
            if !(n_tx > 0) {
                if ctv + 1 < n_tx {
                } else if e + 1 < n_events {
                    assert(cf_eff(Some(cfv as u64)) == cfv);
                    assert(poll_m2(frames, Some(cfv as u64), Some((e + 1) as usize)) == n_events - e);
                } else {
                    assert(cf_eff(Some(cfv as u64)) == cfv);
                }
            }
        },
    }
}

/// What one poll of a node does, determined by the node's state alone:
/// ended after shutdown, not ready without a finalised frame, otherwise the
/// stream walk from the stored cursor.
pub open spec fn dag_poll_spec(d: DAG) -> (
    Option<Option<Seq<u8>>>,
    (Option<FrameNumber>, Option<usize>, Option<usize>),
) {
    let cur = (d.core.current_frame, d.core.current_event, d.core.current_tx);
    if d.core.shutdown {
        (Some(None), cur)
    } else {
        match d.core.last_finalised_frame {
            None => (None, cur),
            Some(lf) => poll_loop(d.store.evs(), d.store.frs(), lf, cur.0, cur.1, cur.2),
        }
    }
}

/// The executable stream walk, step for step the walk the specification
/// describes.
#[verifier::rlimit(100)]
fn poll_walk(store: &Store, lf: u64, cf: Option<FrameNumber>, ce: Option<usize>, ct: Option<
    usize,
>) -> (r: (Option<Vec<u8>>, (Option<FrameNumber>, Option<usize>, Option<usize>)))
    requires
        store.wf(),
        lf <= store.frs().len(),
        lf < u64::MAX,
        poll_live(store.frs(), lf, cf, ce),
        cursor_ok(store.evs(), store.frs(), Some(lf), cf, ce, ct),
    ensures
        ({
            let (o, st) = poll_loop(store.evs(), store.frs(), lf, cf, ce, ct);
            &&& (match r.0 {
                Some(p) => o == Some(Some(p@)),
                None => o is None,
            })
            &&& r.1 == st
            &&& poll_live(store.frs(), lf, st.0, st.1)
            &&& cursor_ok(store.evs(), store.frs(), Some(lf), st.0, st.1, st.2)
        }),
    decreases poll_m1(lf, cf), poll_m2(store.frs(), cf, ce),
{
    match ce {
        None => {
            let cfv: u64 = match cf {
                None => 0,
                Some(x) => x,
            };
            if cfv >= lf {
                (None, (cf, ce, ct))
            } else {
                poll_walk(store, lf, Some(cfv + 1), Some(0), ct)
            }
        },
        Some(e) => {
            let cfv: u64 = match cf {
                None => 0,
                Some(x) => x,
            };
            let frame = match store.get_frame(cfv) {
                Ok(f) => f,
                Err(_) => {
                    proof {
                        assert(false);
                    }
                    return (None, (cf, ce, ct));
                },
            };
            let n_events = frame.events.len();
            proof {
                assert(frame.events.deep_view().len() == store.frs()[cfv - 1].len());
            }
            let hash = clone_bytes(&frame.events[e]);
            proof {
                assert(frame.events.deep_view()[e as int] =~= frame.events@[e as int]@);
                assert(hash@ == store.frs()[cfv - 1][e as int]);
                assert(has_hash(store.evs(), hash@));
            }
            let ev = match store.get_event(&hash) {
                Ok(x) => x,
                Err(_) => {
                    proof {
                        assert(false);
                    }
                    return (None, (cf, ce, ct));
                },
            };
            proof {
                let evs = store.evs();
                let i = choose|i: int| 0 <= i < evs.len() && (#[trigger] evs[i]) == ev@;
                let w = choose|w: int| 0 <= w < evs.len() && (#[trigger] evs[w]).hash == hash@;
                if i != w {
                    if i < w {
                        assert(evs[i].hash != evs[w].hash);
                    } else {
                        assert(evs[w].hash != evs[i].hash);
                    }
                }
                assert(event_by_hash(evs, hash@) == ev@);
            }
            let n_tx = ev.transactions.len();
            let ctv: usize = match ct {
                None => 0,
                Some(x) => x,
            };
            proof {
                assert(ev@.transactions.len() == n_tx);
                if n_tx > 0 {
                    assert(ctv < n_tx);
                }
            }
            let data: Option<Vec<u8>> = if n_tx > 0 {
                let p = clone_bytes(&ev.transactions[ctv]);
                proof {
                    assert(ev.transactions.deep_view()[ctv as int] =~= ev.transactions@[
                        ctv as int
                    ]@);
                }
                Some(p)
            } else {
                None
            };
            let st: (Option<FrameNumber>, Option<usize>, Option<usize>) = if ctv + 1 < n_tx {
                (Some(cfv), Some(e), Some(ctv + 1))
            } else if e + 1 < n_events {
                (Some(cfv), Some(e + 1), Some(0))
            } else {
                (Some(cfv), None, Some(0))
            };
            match data {
                Some(p) => (Some(p), st),
                None => poll_walk(store, lf, st.0, st.1, st.2),
            }
        },
    }
}

impl DAG {
    /// One poll of the client-facing transaction stream: the end after
    /// shutdown; not ready while nothing is finalised or the cursor has
    /// passed the finalised frames; otherwise the next payload in
    /// frame-major, event-major, index-major order, with the cursor
    /// advanced past it.
    pub fn poll_next(&mut self) -> (r: StreamPoll)
        requires
            old(self).wf(),
        ensures
            final(self).wf(),
            same_dag_identity(*final(self), *old(self)),
            stream_poll_view(r) == dag_poll_spec(*old(self)).0,
            (
                final(self).core.current_frame,
                final(self).core.current_event,
                final(self).core.current_tx,
            ) == dag_poll_spec(*old(self)).1,
            final(self).store == old(self).store,
            final(self).peers == old(self).peers,
            final(self).core.lamport_time == old(self).core.lamport_time,
            final(self).core.tx_pool@ == old(self).core.tx_pool@,
            final(self).core.internal_tx_pool@ == old(self).core.internal_tx_pool@,
            final(self).core.shutdown == old(self).core.shutdown,
            final(self).core.last_finalised_frame == old(self).core.last_finalised_frame,
    {
        if self.core.check_quit() {
            return StreamPoll::Ended;
        }
        let lf = match self.core.last_finalised_frame {
            None => {
                return StreamPoll::Pending;
            },
            Some(x) => x,
        };
        let (data, st) = poll_walk(
            &self.store,
            lf,
            self.core.current_frame,
            self.core.current_event,
            self.core.current_tx,
        );
        self.core.current_frame = st.0;
        self.core.current_event = st.1;
        self.core.current_tx = st.2;
        match data {
            Some(p) => StreamPoll::Payload(p),
            None => StreamPoll::Pending,
        }
    }
}


/// Every event a finalised frame references carries at least one payload.
pub open spec fn frames_have_payloads(evs: Seq<EventV>, frames: Seq<Seq<Seq<u8>>>, lf: u64) -> bool {
    forall|fi: int, k: int|
        0 <= fi < lf && fi < frames.len() && 0 <= k < frames[fi].len() ==> event_by_hash(
            evs,
            #[trigger] frames[fi][k],
        ).transactions.len() > 0
}

/// Stream determinism: two nodes holding the same events, the same
/// finalised frames, the same cursor and the same flags take the very same
/// step: the same outcome and the same next cursor.
pub proof fn lemma_stream_determinism(a: DAG, b: DAG)
    requires
        a.wf(),
        b.wf(),
        a.store.evs() == b.store.evs(),
        a.store.frs() == b.store.frs(),
        a.core.shutdown == b.core.shutdown,
        a.core.last_finalised_frame == b.core.last_finalised_frame,
        a.core.current_frame == b.core.current_frame,
        a.core.current_event == b.core.current_event,
        a.core.current_tx == b.core.current_tx,
    ensures
        dag_poll_spec(a) == dag_poll_spec(b),
{
}

/// The walk pends exactly from a cursor that has no event in progress and
/// stands at or past the last finalised frame, as long as every finalised
/// event carries a payload.
proof fn lemma_poll_loop_quiescence(
    evs: Seq<EventV>,
    frames: Seq<Seq<Seq<u8>>>,
    lf: u64,
    cf: Option<FrameNumber>,
    ce: Option<usize>,
    ct: Option<usize>,
)
    requires
        poll_live(frames, lf, cf, ce),
        lf < u64::MAX,
        forall|fi: int| 0 <= fi < lf && fi < frames.len() ==> (#[trigger] frames[fi]).len() > 0,
        frames_have_payloads(evs, frames, lf),
        ce matches Some(e) ==> (e as int) < frames[cf_eff(cf) - 1].len(),
    ensures
        ({
            let (o, st) = poll_loop(evs, frames, lf, cf, ce, ct);
            o is None <==> (ce is None && cf_eff(cf) >= lf)
        }),
    decreases poll_m1(lf, cf), poll_m2(frames, cf, ce),
{
    let cfv = cf_eff(cf);
    match ce {
        None => {
            if cfv >= lf {
            } else {
                assert(frames[cfv + 1 - 1].len() > 0);
                lemma_poll_loop_quiescence(
                    evs,
                    frames,
                    lf,
                    Some((cfv + 1) as u64),
                    Some(0),
                    ct,
                );
            }
        },
        Some(e) => {
            let frame = frames[cfv - 1];
            let ev = event_by_hash(evs, frame[e as int]);
            assert(ev.transactions.len() > 0) by {
                assert(frames_have_payloads(evs, frames, lf));
                assert(0 <= cfv - 1 < lf && cfv - 1 < frames.len() && 0 <= e < frames[cfv
                    - 1].len());
                assert(event_by_hash(evs, frames[cfv - 1][e as int]).transactions.len() > 0);
            }
        },
    }
}

/// Stream quiescence: with shutdown not requested and every finalised
/// event carrying a payload, a poll is not ready exactly when nothing is
/// finalised yet, or the cursor has no event in progress and stands at or
/// past the last finalised frame.
pub proof fn lemma_stream_quiescence(d: DAG)
    requires
        d.wf(),
        !d.core.shutdown,
        (match d.core.last_finalised_frame {
            Some(lf) => frames_have_payloads(d.store.evs(), d.store.frs(), lf),
            None => true,
        }),
    ensures
        ({
            match d.core.last_finalised_frame {
                None => dag_poll_spec(d).0 is None,
                Some(lf) => (dag_poll_spec(d).0 is None <==> (d.core.current_event is None
                    && cf_eff(d.core.current_frame) >= lf)),
            }
        }),
{
    match d.core.last_finalised_frame {
        None => {},
        Some(lf) => {
            lemma_poll_loop_quiescence(
                d.store.evs(),
                d.store.frs(),
                lf,
                d.core.current_frame,
                d.core.current_event,
                d.core.current_tx,
            );
        },
    }
}

} // verus!
