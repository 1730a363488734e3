//! The queue between a helper that drains the port and a host that waits on an event.
//! A whole batch of packets has room before the helper takes it from the port.
use crate::types::Error;
use std::collections::VecDeque;
use vstd::prelude::*;

verus! {

/// Packets the queue holds at most.
pub const CAPACITY: usize = 128;

/// Packets the helper takes from the port at once.
pub const BATCH: usize = 64;

/// One port packet.
#[derive(Clone, Copy, Debug, PartialEq, Eq, Structural)]
pub struct Packet {
    pub key: usize,
    pub bytes: u32,
    pub overlapped: usize,
    pub status: i32,
}

/// What the helper does next.
#[derive(Clone, Copy, Debug, PartialEq, Eq, Structural)]
pub enum Pump {
    /// Wait until the host has drained packets.
    Room,
    /// Take a batch from the port.
    Take,
    /// Leave.
    Stop,
}

/// The packets that were taken and not drained.
#[derive(Debug)]
pub struct EventIntegration {
    entries: VecDeque<Packet>,
    high_water: usize,
    stopping: bool,
    error: Option<Error>,
}

/// The packets of a batch that are for the host: all but the request to stop.
pub open spec fn kept(batch: Seq<Packet>, stop: usize) -> Seq<Packet>
    decreases batch.len(),
{
    if batch.len() == 0 {
        Seq::empty()
    } else {
        let before = kept(batch.drop_last(), stop);
        if batch.last().key == stop {
            before
        } else {
            before.push(batch.last())
        }
    }
}

/// Some packet of the batch asks to stop.
pub open spec fn stops(batch: Seq<Packet>, stop: usize) -> bool {
    exists|k: int| 0 <= k < batch.len() && (#[trigger] batch[k]).key == stop
}

/// What a drain with this much room takes.
pub open spec fn first(queued: Seq<Packet>, room: usize) -> Seq<Packet> {
    if queued.len() <= room {
        queued
    } else {
        queued.take(room as int)
    }
}

/// What a drain with this much room leaves.
pub open spec fn rest(queued: Seq<Packet>, room: usize) -> Seq<Packet> {
    if queued.len() <= room {
        Seq::empty()
    } else {
        queued.skip(room as int)
    }
}

/// A batch never grows by filtering.
proof fn lemma_kept_len(batch: Seq<Packet>, stop: usize)
    ensures
        kept(batch, stop).len() <= batch.len(),
    decreases batch.len(),
{
    if batch.len() > 0 {
        lemma_kept_len(batch.drop_last(), stop);
    }
}

impl View for EventIntegration {
    type V = Seq<Packet>;

    closed spec fn view(&self) -> Seq<Packet> {
        self.entries@
    }
}

impl EventIntegration {
    /// The helper was asked to stop.
    pub closed spec fn is_stopping(&self) -> bool {
        self.stopping
    }

    /// Why the helper failed, if it did.
    pub closed spec fn failure(&self) -> Option<Error> {
        self.error
    }

    /// The most packets that were ever queued.
    pub closed spec fn peak(&self) -> nat {
        self.high_water as nat
    }

    /// The queue stays within its capacity.
    pub closed spec fn wf(&self) -> bool {
        self.entries@.len() <= CAPACITY
    }

    /// An empty queue.
    pub fn new() -> (queue: Self)
        ensures
            queue.wf(),
            queue@ == Seq::<Packet>::empty(),
            !queue.is_stopping(),
            queue.failure() is None,
            queue.peak() == 0,
    {
        EventIntegration { entries: VecDeque::new(), high_water: 0, stopping: false, error: None }
    }

    /// What the helper does next: a batch is taken only if all of it has room.
    pub fn pump(&self) -> (next: Pump)
        ensures
            next == (if self.is_stopping() {
                Pump::Stop
            } else if self@.len() > CAPACITY - BATCH {
                Pump::Room
            } else {
                Pump::Take
            }),
    {
        if self.stopping {
            Pump::Stop
        } else if self.entries.len() > CAPACITY - BATCH {
            Pump::Room
        } else {
            Pump::Take
        }
    }

    /// Queue a whole batch, in order. A request to stop is noted; nothing is dropped.
    pub fn take(&mut self, batch: &Vec<Packet>, stop: usize)
        requires
            old(self).wf(),
            batch@.len() <= BATCH,
            old(self)@.len() <= CAPACITY - BATCH,
        ensures
            final(self).wf(),
            final(self)@ == old(self)@ + kept(batch@, stop),
            final(self).is_stopping() == (old(self).is_stopping() || stops(batch@, stop)),
            final(self).failure() == old(self).failure(),
            final(self).peak() == (if final(self)@.len() > old(self).peak() {
                final(self)@.len()
            } else {
                old(self).peak()
            }),
    {
        let ghost before = self.entries@;
        let mut i: usize = 0;
        assert(batch@.take(0) =~= Seq::<Packet>::empty());
        assert(before + Seq::<Packet>::empty() =~= before);
        while i < batch.len()
            invariant
                i <= batch@.len(),
                self.entries@ == before + kept(batch@.take(i as int), stop),
                self.stopping == (old(self).is_stopping() || stops(batch@.take(i as int), stop)),
                self.error == old(self).failure(),
                self.high_water == old(self).peak(),
            decreases batch@.len() - i,
        {
            let ghost shorter = batch@.take(i as int);
            let ghost longer = batch@.take(i + 1);
            proof {
                assert(longer.drop_last() =~= shorter);
                assert(longer.last() == batch@[i as int]);
                assert(stops(longer, stop) == (stops(shorter, stop) || batch@[i as int].key
                    == stop)) by {
                    if stops(shorter, stop) {
                        let k = choose|k: int|
                            0 <= k < shorter.len() && (#[trigger] shorter[k]).key == stop;
                        assert(longer[k].key == stop);
                    }
                    if batch@[i as int].key == stop {
                        assert(longer[i as int].key == stop);
                    }
                    if stops(longer, stop) && batch@[i as int].key != stop {
                        let k = choose|k: int|
                            0 <= k < longer.len() && (#[trigger] longer[k]).key == stop;
                        assert(shorter[k].key == stop);
                    }
                }
            }
            if batch[i].key == stop {
                self.stopping = true;
            } else {
                self.entries.push_back(batch[i]);
                assert(self.entries@ =~= before + kept(longer, stop));
            }
            i = i + 1;
        }
        assert(batch@.take(i as int) =~= batch@);
        proof {
            lemma_kept_len(batch@, stop);
        }
        if self.entries.len() > self.high_water {
            self.high_water = self.entries.len();
        }
    }

    /// The helper failed: the host sees the error on its next turn.
    pub fn fail(&mut self, error: Error)
        requires
            old(self).wf(),
        ensures
            final(self).wf(),
            final(self)@ == old(self)@,
            final(self).failure() == Some(error),
            final(self).is_stopping() == old(self).is_stopping(),
            final(self).peak() == old(self).peak(),
    {
        self.error = Some(error);
    }

    /// Whether the helper failed; its error stays.
    pub fn check(&self) -> (ok: Result<(), Error>)
        ensures
            ok == (match self.failure() {
                Some(e) => Err(e),
                None => Ok(()),
            }),
    {
        match self.error {
            Some(e) => Err(e),
            None => Ok(()),
        }
    }

    /// Ask the helper to stop. What was taken stays queued.
    pub fn shutdown(&mut self)
        requires
            old(self).wf(),
        ensures
            final(self).wf(),
            final(self)@ == old(self)@,
            final(self).is_stopping(),
            final(self).failure() == old(self).failure(),
            final(self).peak() == old(self).peak(),
    {
        self.stopping = true;
    }

    /// Take up to `room` packets, unless the helper failed: then its error comes out and
    /// the packets stay.
    pub fn drain(&mut self, room: usize) -> (drained: Result<(Vec<Packet>, bool), Error>)
        requires
            old(self).wf(),
        ensures
            final(self).wf(),
            match (old(self).failure(), drained) {
                (Some(e), Err(found)) => found == e && final(self)@ == old(self)@,
                (None, Ok((packets, more))) => packets@ == first(old(self)@, room) && final(self)@
                    == rest(old(self)@, room) && more == (final(self)@.len() > 0),
                _ => false,
            },
            final(self).is_stopping() == old(self).is_stopping(),
            final(self).failure() == old(self).failure(),
            final(self).peak() == old(self).peak(),
    {
        match self.check() {
            Err(e) => Err(e),
            Ok(()) => Ok(self.drain_retained(room)),
        }
    }

    /// Take up to `room` packets, oldest first, also after a failure. The flag tells that
    /// packets are left, so that the host's event has to be signalled again.
    pub fn drain_retained(&mut self, room: usize) -> (drained: (Vec<Packet>, bool))
        requires
            old(self).wf(),
        ensures
            final(self).wf(),
            drained.0@ == first(old(self)@, room),
            final(self)@ == rest(old(self)@, room),
            drained.1 == (final(self)@.len() > 0),
            final(self).is_stopping() == old(self).is_stopping(),
            final(self).failure() == old(self).failure(),
            final(self).peak() == old(self).peak(),
    {
        let ghost before = self.entries@;
        let mut out: Vec<Packet> = Vec::new();
        let mut n: usize = 0;
        assert(before.skip(0) =~= before);
        while n < room && self.entries.len() > 0
            invariant
                n <= room,
                n <= before.len(),
                before == old(self)@,
                out@ == before.take(n as int),
                self.entries@ == before.skip(n as int),
                self.stopping == old(self).is_stopping(),
                self.error == old(self).failure(),
                self.high_water == old(self).peak(),
            decreases room - n,
        {
            if let Some(packet) = self.entries.pop_front() {
                out.push(packet);
                assert(out@ =~= before.take(n + 1));
                assert(self.entries@ =~= before.skip(n + 1));
                n = n + 1;
            }
        }
        assert(out@ == first(before, room));
        assert(self.entries@ == rest(before, room));
        let more = self.entries.len() > 0;
        (out, more)
    }
}

/// However drains and batches alternate, the packets that came out and those still queued
/// are together those that came in: none is lost, doubled or reordered.
pub proof fn law_drains_preserve_every_packet(
    drained: Seq<Packet>,
    queued: Seq<Packet>,
    batch: Seq<Packet>,
    stop: usize,
    room: usize,
)
    ensures
        (drained + first(queued, room)) + (rest(queued, room) + kept(batch, stop)) == (drained
            + queued) + kept(batch, stop),
{
    assert(first(queued, room) + rest(queued, room) =~= queued);
    assert((drained + first(queued, room)) + (rest(queued, room) + kept(batch, stop)) =~= (drained
        + queued) + kept(batch, stop));
}

/// A batch is queued whole, the requests to stop aside.
pub proof fn law_batch_is_queued_whole(batch: Seq<Packet>, stop: usize)
    ensures
        kept(batch, stop) == batch.filter(|p: Packet| p.key != stop),
        !stops(batch, stop) ==> kept(batch, stop) == batch,
    decreases batch.len(),
{
    reveal(Seq::filter);
    if batch.len() > 0 {
        law_batch_is_queued_whole(batch.drop_last(), stop);
        if !stops(batch, stop) {
            assert(batch.last().key != stop);
            assert(batch.drop_last().push(batch.last()) =~= batch);
            assert forall|k: int| 0 <= k < batch.drop_last().len() implies (
            #[trigger] batch.drop_last()[k]).key != stop by {
                assert(batch[k].key != stop);
            }
        }
    }
}

/// A drain takes as many packets as it has room for, the oldest, and leaves the others.
pub proof fn law_drain_takes_what_fits(queued: Seq<Packet>, room: usize)
    ensures
        first(queued, room).len() <= room,
        first(queued, room).len() == room || rest(queued, room).len() == 0,
        first(queued, room) + rest(queued, room) == queued,
{
    assert(first(queued, room) + rest(queued, room) =~= queued);
}

} // verus!
