use vstd::prelude::*;

use crate::errors::Error;
use crate::event::EventV;
use crate::peer::FrameNumber;

verus! {

/// The node-local mutable state shared by the gossip procedures and the
/// stream surface: the Lamport clock, the transaction queues, the shutdown
/// flag, the stream cursor and the last finalised frame.
pub struct DAGcore {
    pub lamport_time: u64,
    pub tx_pool: Vec<Vec<u8>>,
    pub internal_tx_pool: Vec<Vec<u8>>,
    pub tx_pool_cap: usize,
    pub shutdown: bool,
    pub current_frame: Option<FrameNumber>,
    pub current_event: Option<usize>,
    pub current_tx: Option<usize>,
    pub last_finalised_frame: Option<FrameNumber>,
}

/// The clock has seen every stored event: no stored Lamport timestamp
/// exceeds it.
pub open spec fn clock_dominates(t: u64, evs: Seq<EventV>) -> bool {
    forall|i: int| 0 <= i < evs.len() ==> (#[trigger] evs[i]).lamport_timestamp <= t
}

impl DAGcore {
    /// Fresh state: clock at zero, empty queues, no cursor, nothing
    /// finalised.
    pub fn new(tx_pool_cap: usize) -> (r: DAGcore)
        ensures
            r.lamport_time == 0,
            r.tx_pool@.len() == 0,
            r.internal_tx_pool@.len() == 0,
            r.tx_pool_cap == tx_pool_cap,
            !r.shutdown,
            r.current_frame is None,
            r.current_event is None,
            r.current_tx is None,
            r.last_finalised_frame is None,
    {
        DAGcore {
            lamport_time: 0,
            tx_pool: Vec::new(),
            internal_tx_pool: Vec::new(),
            tx_pool_cap,
            shutdown: false,
            current_frame: None,
            current_event: None,
            current_tx: None,
            last_finalised_frame: None,
        }
    }

    pub fn get_lamport_time(&self) -> (r: u64)
        ensures
            r == self.lamport_time,
    {
        self.lamport_time
    }

    /// Raises the clock to the observed external time: afterwards it is the
    /// maximum of the two, so a smaller observation changes nothing.
    pub fn update_lamport_time(&mut self, observed: u64)
        ensures
            final(self).lamport_time == if observed > old(self).lamport_time {
                observed
            } else {
                old(self).lamport_time
            },
            final(self).lamport_time >= old(self).lamport_time,
            final(self).lamport_time >= observed,
            same_core_but_clock(*final(self), *old(self)),
    {
        if observed > self.lamport_time {
            self.lamport_time = observed;
        }
    }

    /// Steps the clock for a locally created event and returns the new
    /// value.
    pub fn get_next_lamport_time(&mut self) -> (r: u64)
        requires
            old(self).lamport_time < u64::MAX,
        ensures
            r == old(self).lamport_time + 1,
            final(self).lamport_time == r,
            same_core_but_clock(*final(self), *old(self)),
    {
        self.lamport_time = self.lamport_time + 1;
        self.lamport_time
    }

    /// Queues a client payload; refused exactly when the queue already
    /// holds its capacity.
    pub fn add_transaction(&mut self, tx: Vec<u8>) -> (r: Result<(), Error>)
        ensures
            r is Ok <==> old(self).tx_pool@.len() < old(self).tx_pool_cap,
            r is Ok ==> final(self).tx_pool@ == old(self).tx_pool@.push(tx),
            r is Err ==> final(self).tx_pool@ == old(self).tx_pool@ && r == Err::<(), Error>(
                Error::Base,
            ),
            final(self).lamport_time == old(self).lamport_time,
            final(self).internal_tx_pool@ == old(self).internal_tx_pool@,
            final(self).tx_pool_cap == old(self).tx_pool_cap,
            final(self).shutdown == old(self).shutdown,
            final(self).current_frame == old(self).current_frame,
            final(self).current_event == old(self).current_event,
            final(self).current_tx == old(self).current_tx,
            final(self).last_finalised_frame == old(self).last_finalised_frame,
    {
        if self.tx_pool.len() < self.tx_pool_cap {
            self.tx_pool.push(tx);
            Ok(())
        } else {
            Err(Error::Base)
        }
    }

    /// Takes every queued client payload, leaving the queue empty.
    pub fn next_transactions(&mut self) -> (r: Vec<Vec<u8>>)
        ensures
            r@ == old(self).tx_pool@,
            final(self).tx_pool@.len() == 0,
            final(self).lamport_time == old(self).lamport_time,
            final(self).internal_tx_pool@ == old(self).internal_tx_pool@,
            final(self).tx_pool_cap == old(self).tx_pool_cap,
            final(self).shutdown == old(self).shutdown,
            final(self).current_frame == old(self).current_frame,
            final(self).current_event == old(self).current_event,
            final(self).current_tx == old(self).current_tx,
            final(self).last_finalised_frame == old(self).last_finalised_frame,
    {
        let mut r: Vec<Vec<u8>> = Vec::new();
        core::mem::swap(&mut r, &mut self.tx_pool);
        r
    }

    /// Takes every queued internal payload, leaving the queue empty.
    pub fn next_internal_transactions(&mut self) -> (r: Vec<Vec<u8>>)
        ensures
            r@ == old(self).internal_tx_pool@,
            final(self).internal_tx_pool@.len() == 0,
            final(self).lamport_time == old(self).lamport_time,
            final(self).tx_pool@ == old(self).tx_pool@,
            final(self).tx_pool_cap == old(self).tx_pool_cap,
            final(self).shutdown == old(self).shutdown,
            final(self).current_frame == old(self).current_frame,
            final(self).current_event == old(self).current_event,
            final(self).current_tx == old(self).current_tx,
            final(self).last_finalised_frame == old(self).last_finalised_frame,
    {
        let mut r: Vec<Vec<u8>> = Vec::new();
        core::mem::swap(&mut r, &mut self.internal_tx_pool);
        r
    }

    pub fn set_shutdown(&mut self, value: bool)
        ensures
            final(self).shutdown == value,
            final(self).lamport_time == old(self).lamport_time,
            final(self).tx_pool@ == old(self).tx_pool@,
            final(self).internal_tx_pool@ == old(self).internal_tx_pool@,
            final(self).tx_pool_cap == old(self).tx_pool_cap,
            final(self).current_frame == old(self).current_frame,
            final(self).current_event == old(self).current_event,
            final(self).current_tx == old(self).current_tx,
            final(self).last_finalised_frame == old(self).last_finalised_frame,
    {
        self.shutdown = value;
    }

    pub fn check_quit(&self) -> (r: bool)
        ensures
            r == self.shutdown,
    {
        self.shutdown
    }
}

/// Everything of the core state but the clock is unchanged.
pub open spec fn same_core_but_clock(a: DAGcore, b: DAGcore) -> bool {
    &&& a.tx_pool@ == b.tx_pool@
    &&& a.internal_tx_pool@ == b.internal_tx_pool@
    &&& a.tx_pool_cap == b.tx_pool_cap
    &&& a.shutdown == b.shutdown
    &&& a.current_frame == b.current_frame
    &&& a.current_event == b.current_event
    &&& a.current_tx == b.current_tx
    &&& a.last_finalised_frame == b.last_finalised_frame
}

} // verus!
