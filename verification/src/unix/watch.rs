//! File-system watches of one loop: who is subscribed, what was reported to whom, and
//! which reports wait for a buffer.
use crate::queues::{lemma_pop, lemma_push, lemma_remove_value, remove_handle};
use crate::types::{
    cancelled_event, invalid, unsupported, Error, ErrorKind, Event, Handle, Lease, OpId,
    Operation, Outcome, Request,
};
use crate::unix::inotify::{
    is_rename, kind_of, Record, RecordView, WatchKind, IN_IGNORED, IN_Q_OVERFLOW,
};
use std::collections::VecDeque;
use vstd::prelude::*;

verus! {

/// A watch number that the system no longer knows. No record carries it.
pub const GONE: u32 = 0xffff_ffff;

/// The key under which the change queue is ready; no handle has it.
pub const QUEUE_KEY: u64 = 0xffff_ffff_ffff_fffe;

/// One watch.
#[derive(Clone, Copy, Debug, PartialEq, Eq, Structural)]
pub struct Watch {
    pub handle: Handle,
    /// Its subscription.
    pub op: Option<OpId>,
    /// It waits for a buffer.
    pub queued: bool,
    /// The number under which the system reports it. Watches of one file share it.
    pub wd: u32,
}

/// What the storage of a watch receives.
#[derive(Clone, Copy, Debug, PartialEq, Eq, Structural)]
pub enum Report {
    /// Some changes are unknown.
    Lost,
    /// A change of the watched path itself: it is reported under its own name.
    Own(WatchKind),
    /// A change of the entry that the record names.
    Named(WatchKind),
}

/// A report and the slot of the watch that receives it.
#[derive(Clone, Copy, Debug, PartialEq, Eq, Structural)]
pub struct Delivery {
    pub slot: usize,
    pub report: Report,
}

/// What a record means to one watch.
pub open spec fn report_for(w: Watch, record: RecordView, mask: u32) -> Option<Report> {
    if mask & IN_Q_OVERFLOW != 0 {
        Some(Report::Lost)
    } else if w.wd != record.wd || mask & IN_IGNORED != 0 || w.op is None {
        None
    } else {
        let kind = if is_rename(mask) {
            WatchKind::Rename
        } else {
            WatchKind::Change
        };
        Some(
            if record.name.len() == 0 {
                Report::Own(kind)
            } else {
                Report::Named(kind)
            },
        )
    }
}

/// What the first `n` watches of `active` receive, in that order.
pub open spec fn deliveries(
    entries: Seq<Option<Watch>>,
    active: Seq<usize>,
    record: RecordView,
    mask: u32,
    n: int,
) -> Seq<Delivery>
    decreases n,
{
    if n <= 0 {
        Seq::empty()
    } else {
        let before = deliveries(entries, active, record, mask, n - 1);
        let slot = active[n - 1];
        match entries[slot as int] {
            Some(w) => match report_for(w, record, mask) {
                Some(report) => before.push(Delivery { slot, report }),
                None => before,
            },
            None => before,
        }
    }
}

/// A watch after a record: a number that the system gave up is forgotten, so that it
/// matches nothing when it is used again.
pub open spec fn forgotten(w: Watch, record: RecordView, mask: u32) -> Watch {
    if mask & IN_Q_OVERFLOW == 0 && w.wd == record.wd && mask & IN_IGNORED != 0 {
        Watch { wd: GONE, ..w }
    } else {
        w
    }
}

/// The list without `value`, whose place the last member takes.
pub open spec fn swapped_out(list: Seq<usize>, value: usize) -> Seq<usize> {
    match list.index_of_first(value) {
        Some(k) => list.update(k, list.last()).drop_last(),
        None => list,
    }
}

/// What the host found when it looked at the storage of a queued watch.
#[derive(Clone, Copy, Debug, PartialEq, Eq, Structural)]
pub enum Found {
    /// Nothing is stored.
    Empty,
    /// Something is stored and the pool has no buffer.
    NoBuffer,
    /// A buffer was filled; `more` is left behind it.
    Batch { lease: Lease, overflow: bool, more: bool },
}

/// What became of the oldest queued watch.
#[derive(Debug)]
pub enum Served<D> {
    /// It has nothing to tell.
    Nothing,
    /// It keeps its place until a buffer returns.
    Waits,
    /// It completed.
    Event(Event<D>),
}

/// The watches as plain mathematics.
#[verifier::ext_equal]
pub struct Model {
    pub entries: Seq<Option<Watch>>,
    /// Occupied slots.
    pub active: Seq<usize>,
    /// The watch of each running subscription.
    pub ops: Seq<Option<Handle>>,
    /// Watches that wait for a buffer, oldest first.
    pub ready: Seq<Handle>,
    /// Cancellations that wait for their acknowledgement.
    pub cancelled: Seq<OpId>,
}

impl Model {
    /// `h` names an open watch.
    pub open spec fn live(self, h: Handle) -> bool {
        &&& h.spec_index() < self.entries.len()
        &&& self.entries[h.spec_index()] is Some
        &&& self.entries[h.spec_index()]->0.handle == h
    }

    /// The watch of a live handle.
    pub open spec fn at(self, h: Handle) -> Watch {
        self.entries[h.spec_index()]->0
    }

    /// Slot, subscription and queue of slot `s` agree.
    pub open spec fn slot_ok(self, s: int) -> bool {
        match self.entries[s] {
            None => !self.active.contains(s as usize),
            Some(w) => {
                &&& w.handle.spec_index() == s
                &&& self.active.contains(s as usize)
                &&& w.queued == self.ready.contains(w.handle)
                &&& match w.op {
                    Some(op) => op.spec_index() < self.ops.len() && self.ops[op.spec_index()]
                        == Some(w.handle),
                    None => true,
                }
            },
        }
    }

    /// A subscription belongs to a live watch that knows it.
    pub open spec fn op_ok(self, i: int) -> bool {
        match self.ops[i] {
            None => true,
            Some(h) => self.live(h) && (match self.at(h).op {
                Some(op) => op.spec_index() == i,
                None => false,
            }),
        }
    }

    /// Watches, subscriptions and queue agree.
    pub open spec fn valid(self) -> bool {
        &&& self.entries.len() <= usize::MAX
        &&& self.active.no_duplicates()
        &&& self.ready.no_duplicates()
        &&& forall|k: int|
            0 <= k < self.active.len() ==> (#[trigger] self.active[k]) < self.entries.len()
        &&& forall|k: int| 0 <= k < self.ready.len() ==> self.live(#[trigger] self.ready[k])
        &&& forall|s: int| 0 <= s < self.entries.len() ==> #[trigger] self.slot_ok(s)
        &&& forall|i: int| 0 <= i < self.ops.len() ==> #[trigger] self.op_ok(i)
    }

    /// Whether a watch can open under `h`.
    pub open spec fn vacant(self, h: Handle) -> bool {
        h.spec_index() < self.entries.len() && self.entries[h.spec_index()] is None
    }

    /// A watch opened.
    pub open spec fn started(self, h: Handle, wd: u32) -> Model {
        Model {
            entries: self.entries.update(
                h.spec_index(),
                Some(Watch { handle: h, op: None, queued: false, wd }),
            ),
            active: self.active.push(h.spec_index() as usize),
            ..self
        }
    }

    /// Whether `op` can subscribe to `h`.
    pub open spec fn takes(self, h: Handle, op: OpId) -> bool {
        &&& self.live(h)
        &&& self.at(h).op is None
        &&& op.spec_index() < self.ops.len()
        &&& self.ops[op.spec_index()] is None
    }

    /// `op` subscribed.
    pub open spec fn subscribed(self, h: Handle, op: OpId) -> Model {
        Model {
            entries: self.entries.update(
                h.spec_index(),
                Some(Watch { op: Some(op), ..self.at(h) }),
            ),
            ops: self.ops.update(op.spec_index(), Some(h)),
            ..self
        }
    }

    /// Whether `op` is a running subscription.
    pub open spec fn runs(self, op: OpId) -> bool {
        &&& op.spec_index() < self.ops.len()
        &&& self.ops[op.spec_index()] is Some
        &&& self.live(self.ops[op.spec_index()]->0)
        &&& self.at(self.ops[op.spec_index()]->0).op == Some(op)
    }

    /// A running subscription was cancelled. Its acknowledgement is owed.
    pub open spec fn unsubscribed(self, op: OpId) -> Model {
        let h = self.ops[op.spec_index()]->0;
        Model {
            entries: self.entries.update(h.spec_index(), Some(Watch { op: None, ..self.at(h) })),
            ops: self.ops.update(op.spec_index(), None),
            cancelled: self.cancelled.push(op),
            ..self
        }
    }

    /// A watch has something stored: it queues, once.
    pub open spec fn stored(self, slot: int) -> Model {
        match self.entries[slot] {
            Some(w) => if w.op is Some && !w.queued {
                Model {
                    entries: self.entries.update(slot, Some(Watch { queued: true, ..w })),
                    ready: self.ready.push(w.handle),
                    ..self
                }
            } else {
                self
            },
            None => self,
        }
    }

    /// The oldest queued watch was looked at.
    pub open spec fn served(self, found: Found) -> Model {
        let h = self.ready[0];
        let w = self.at(h);
        let idle = Model {
            entries: self.entries.update(h.spec_index(), Some(Watch { queued: false, ..w })),
            ready: self.ready.drop_first(),
            ..self
        };
        if w.op is None {
            idle
        } else {
            match found {
                Found::Empty => idle,
                Found::NoBuffer => self,
                Found::Batch { more, .. } => if more {
                    Model { ready: self.ready.drop_first().push(h), ..self }
                } else {
                    idle
                },
            }
        }
    }

    /// A watch closed.
    pub open spec fn released(self, h: Handle) -> Model {
        Model {
            entries: self.entries.update(h.spec_index(), None),
            active: swapped_out(self.active, h.spec_index() as usize),
            ready: self.ready.remove_value(h),
            ..self
        }
    }

    /// Another open watch than `h` has the number `wd`.
    pub open spec fn shared(self, h: Handle, wd: u32) -> bool {
        exists|s: int|
            0 <= s < self.entries.len() && s != h.spec_index() && (#[trigger] self.entries[s])
                is Some && self.entries[s]->0.wd == wd
    }
}

/// The watches of one loop.
#[derive(Debug)]
pub struct Watches {
    entries: Vec<Option<Watch>>,
    active: Vec<usize>,
    ops: Vec<Option<Handle>>,
    ready: VecDeque<Handle>,
    cancelled: VecDeque<OpId>,
}

impl View for Watches {
    type V = Model;

    closed spec fn view(&self) -> Model {
        Model {
            entries: self.entries@,
            active: self.active@,
            ops: self.ops@,
            ready: self.ready@,
            cancelled: self.cancelled@,
        }
    }
}

/// What a completed batch tells its subscriber.
pub open spec fn batch_event<D>(op: OpId, lease: Lease, overflow: bool) -> Event<D> {
    Event { op, terminal: false, result: Ok(Outcome::Watch { events: lease, overflow }) }
}

impl Watches {
    /// No watch, with room for so many watches and subscriptions.
    pub fn new(handles: usize, operations: usize) -> (watches: Self)
        ensures
            watches@.valid(),
            watches@.entries == Seq::new(handles as nat, |i: int| None::<Watch>),
            watches@.ops == Seq::new(operations as nat, |i: int| None::<Handle>),
            watches@.active == Seq::<usize>::empty(),
            watches@.ready == Seq::<Handle>::empty(),
            watches@.cancelled == Seq::<OpId>::empty(),
    {
        let mut entries: Vec<Option<Watch>> = Vec::new();
        let mut i: usize = 0;
        while i < handles
            invariant
                i <= handles,
                entries@ == Seq::new(i as nat, |i: int| None::<Watch>),
            decreases handles - i,
        {
            entries.push(None);
            assert(entries@ =~= Seq::new((i + 1) as nat, |i: int| None::<Watch>));
            i = i + 1;
        }
        let mut ops: Vec<Option<Handle>> = Vec::new();
        let mut j: usize = 0;
        while j < operations
            invariant
                j <= operations,
                ops@ == Seq::new(j as nat, |i: int| None::<Handle>),
            decreases operations - j,
        {
            ops.push(None);
            assert(ops@ =~= Seq::new((j + 1) as nat, |i: int| None::<Handle>));
            j = j + 1;
        }
        Watches {
            entries,
            active: Vec::new(),
            ops,
            ready: VecDeque::new(),
            cancelled: VecDeque::new(),
        }
    }

    /// Whether `h` names an open watch.
    pub fn contains(&self, h: Handle) -> (found: bool)
        ensures
            found == self@.live(h),
    {
        let i = h.index();
        if i >= self.entries.len() {
            return false;
        }
        match self.entries[i] {
            Some(w) => w.handle == h,
            None => false,
        }
    }

    /// The open watch that a readiness report under `key` is about, and whether it has a
    /// subscription.
    pub fn claim(&self, key: u64) -> (found: Option<(usize, bool)>)
        requires
            self@.valid(),
        ensures
            match found {
                Some((slot, subscribed)) => slot < self@.entries.len() && (
                match self@.entries[slot as int] {
                    Some(w) => w.handle.key == key && subscribed == (w.op is Some),
                    None => false,
                }),
                None => forall|s: int|
                    0 <= s < self@.entries.len() ==> (match #[trigger] self@.entries[s] {
                        Some(w) => w.handle.key != key,
                        None => true,
                    }),
            },
    {
        let slot: usize = (Handle { owner: 0, key }).index();
        if slot < self.entries.len() {
            if let Some(w) = self.entries[slot] {
                if w.handle.key == key {
                    return Some((slot, w.op.is_some()));
                }
            }
        }
        proof {
            assert forall|s: int| 0 <= s < self@.entries.len() implies (
            match #[trigger] self@.entries[s] {
                Some(w) => w.handle.key != key,
                None => true,
            }) by {
                assert(self@.slot_ok(s));
            }
        }
        None
    }

    /// Whether a watch can open under `h`, before the system is asked for one.
    pub fn vacant(&self, h: Handle) -> (room: Result<(), Error>)
        ensures
            match room {
                Ok(_) => self@.vacant(h),
                Err(e) => !self@.vacant(h) && e == Error::plain(ErrorKind::InvalidInput),
            },
    {
        let i = h.index();
        if i >= self.entries.len() || self.entries[i].is_some() {
            return Err(invalid());
        }
        Ok(())
    }

    /// Open the watch that the system reports under `wd`.
    pub fn start(&mut self, h: Handle, wd: u32) -> (done: Result<(), Error>)
        requires
            old(self)@.valid(),
        ensures
            final(self)@.valid(),
            match done {
                Ok(_) => old(self)@.vacant(h) && final(self)@ == old(self)@.started(h, wd),
                Err(e) => !old(self)@.vacant(h) && e == Error::plain(
                    ErrorKind::InvalidInput,
                ) && final(self)@ == old(self)@,
            },
    {
        let ghost before = self@;
        self.vacant(h)?;
        let i = h.index();
        self.entries.set(i, Some(Watch { handle: h, op: None, queued: false, wd }));
        self.active.push(i);
        proof {
            assert(self@ =~= before.started(h, wd));
            lemma_started(before, h, wd);
        }
        Ok(())
    }

    /// Subscribe. A watch has one subscription at a time.
    pub fn submit(&mut self, request: &Request) -> (done: Result<(), Error>)
        requires
            old(self)@.valid(),
        ensures
            final(self)@.valid(),
            match done {
                Ok(_) => request.operation is WatchFs && old(self)@.takes(
                    request.handle,
                    request.op,
                ) && final(self)@ == old(self)@.subscribed(request.handle, request.op),
                Err(e) => !(request.operation is WatchFs && old(self)@.takes(
                    request.handle,
                    request.op,
                )) && e == Error::plain(ErrorKind::InvalidInput) && final(self)@
                    == old(self)@,
            },
    {
        let ghost before = self@;
        let h = request.handle;
        let op = request.op;
        match request.operation {
            Operation::WatchFs => {},
            _ => {
                return Err(invalid());
            },
        }
        if !self.contains(h) || op.index() >= self.ops.len() || self.ops[op.index()].is_some() {
            return Err(invalid());
        }
        let i = h.index();
        let Some(w) = self.entries[i] else {
            return Err(invalid());
        };
        if w.op.is_some() {
            return Err(invalid());
        }
        self.entries.set(i, Some(Watch { op: Some(op), ..w }));
        self.ops.set(op.index(), Some(h));
        proof {
            assert(self@ =~= before.subscribed(h, op));
            lemma_subscribed(before, h, op);
        }
        Ok(())
    }

    /// Cancel a subscription: what is stored for it is to be dropped, and nothing more is
    /// reported to it but the acknowledgement. Tells whether it was running.
    pub fn cancel(&mut self, op: OpId) -> (found: bool)
        requires
            old(self)@.valid(),
        ensures
            final(self)@.valid(),
            found == old(self)@.runs(op),
            final(self)@ == (if found {
                old(self)@.unsubscribed(op)
            } else {
                old(self)@
            }),
    {
        let ghost before = self@;
        if op.index() >= self.ops.len() {
            return false;
        }
        let Some(h) = self.ops[op.index()] else {
            return false;
        };
        proof {
            assert(before.op_ok(op.spec_index()));
        }
        let i = h.index();
        let Some(w) = self.entries[i] else {
            return false;
        };
        if w.op != Some(op) {
            return false;
        }
        self.entries.set(i, Some(Watch { op: None, ..w }));
        self.ops.set(op.index(), None);
        self.cancelled.push_back(op);
        proof {
            assert(self@ =~= before.unsubscribed(op));
            lemma_unsubscribed(before, op);
        }
        true
    }

    /// What one record means to the open watches, in the order of the active list: where one was
    /// closed, the last of the list took its place.
    pub fn dispatch(&mut self, record: &Record) -> (out: Vec<Delivery>)
        requires
            old(self)@.valid(),
        ensures
            final(self)@.valid(),
            out@ == deliveries(
                old(self)@.entries,
                old(self)@.active,
                record@,
                record.mask,
                old(self)@.active.len() as int,
            ),
            final(self)@ == (Model {
                entries: old(self)@.entries.map_values(
                    |e: Option<Watch>|
                        match e {
                            Some(w) => Some(forgotten(w, record@, record.mask)),
                            None => None,
                        },
                ),
                ..old(self)@
            }),
    {
        let ghost before = self@;
        let mut out: Vec<Delivery> = Vec::new();
        let mut k: usize = 0;
        let n: usize = self.active.len();
        while k < n
            invariant
                k <= n,
                n == before.active.len(),
                before.valid(),
                self@.active == before.active,
                self@.ops == before.ops,
                self@.ready == before.ready,
                self@.cancelled == before.cancelled,
                self@.entries.len() == before.entries.len(),
                forall|s: int|
                    0 <= s < before.entries.len() ==> #[trigger] self@.entries[s] == (match before.entries[s] {
                        Some(w) => if before.active.take(k as int).contains(s as usize) {
                            Some(forgotten(w, record@, record.mask))
                        } else {
                            Some(w)
                        },
                        None => None,
                    }),
                out@ == deliveries(
                    before.entries,
                    before.active,
                    record@,
                    record.mask,
                    k as int,
                ),
            decreases n - k,
        {
            let i = self.active[k];
            let ghost done = before.active.take(k as int);
            proof {
                assert(before.active[k as int] == i);
                assert(!done.contains(i)) by {
                    if done.contains(i) {
                        let j = choose|j: int| 0 <= j < done.len() && done[j] == i;
                        assert(before.active[j] == i);
                    }
                }
                assert(self@.entries[i as int] == before.entries[i as int]);
                assert(before.active.take(k + 1) =~= done.push(i));
                lemma_push_contains(done, i);
            }
            if let Some(w) = self.entries[i] {
                if record.mask & IN_Q_OVERFLOW != 0 {
                    out.push(Delivery { slot: i, report: Report::Lost });
                } else if w.wd != record.wd {
                } else if record.mask & IN_IGNORED != 0 {
                    self.entries.set(i, Some(Watch { wd: GONE, ..w }));
                } else if w.op.is_some() {
                    let kind = kind_of(record.mask);
                    let report = if record.name.len() == 0 {
                        Report::Own(kind)
                    } else {
                        Report::Named(kind)
                    };
                    out.push(Delivery { slot: i, report });
                }
            }
            k = k + 1;
        }
        proof {
            let after = self@;
            assert(before.active.take(n as int) =~= before.active);
            let change = |e: Option<Watch>|
                match e {
                    Some(w) => Some(forgotten(w, record@, record.mask)),
                    None => None,
                };
            assert forall|s: int| 0 <= s < before.entries.len() implies after.entries[s] == change(
                before.entries[s],
            ) by {
                assert(before.slot_ok(s));
            }
            assert(after.entries =~= before.entries.map_values(change));
            assert forall|j: int| 0 <= j < after.ready.len() implies after.live(
                #[trigger] after.ready[j],
            ) by {
                assert(before.live(before.ready[j]));
            }
            assert forall|s: int| 0 <= s < after.entries.len() implies #[trigger] after.slot_ok(
                s,
            ) by {
                assert(before.slot_ok(s));
            }
            assert forall|j: int| 0 <= j < after.ops.len() implies #[trigger] after.op_ok(j) by {
                assert(before.op_ok(j));
            }
        }
        out
    }

    /// The storage of the watch in `slot` holds something (`pending`), or nothing after all.
    /// A subscribed watch queues for a buffer, once.
    pub fn filled(&mut self, slot: usize, pending: bool)
        requires
            old(self)@.valid(),
            slot < old(self)@.entries.len(),
        ensures
            final(self)@.valid(),
            final(self)@ == (if pending {
                old(self)@.stored(slot as int)
            } else {
                old(self)@
            }),
    {
        let ghost before = self@;
        proof {
            assert(before.slot_ok(slot as int));
        }
        if let Some(w) = self.entries[slot] {
            if pending && w.op.is_some() && !w.queued {
                self.entries.set(slot, Some(Watch { queued: true, ..w }));
                self.ready.push_back(w.handle);
                proof {
                    assert(self@ =~= before.stored(slot as int));
                    lemma_stored(before, slot as int);
                }
            }
        }
    }

    /// The next cancellation to acknowledge.
    pub fn acknowledge<D>(&mut self) -> (event: Option<Event<D>>)
        requires
            old(self)@.valid(),
        ensures
            final(self)@.valid(),
            match event {
                Some(e) => old(self)@.cancelled.len() > 0 && e == cancelled_event::<D>(
                    old(self)@.cancelled[0],
                ) && final(self)@ == (Model {
                    cancelled: old(self)@.cancelled.drop_first(),
                    ..old(self)@
                }),
                None => old(self)@.cancelled.len() == 0 && final(self)@ == old(self)@,
            },
    {
        let ghost before = self@;
        match self.cancelled.pop_front() {
            Some(op) => {
                proof {
                    let after = self@;
                    assert(after =~= Model {
                        cancelled: before.cancelled.drop_first(),
                        ..before
                    });
                    lemma_same(before, after);
                }
                Some(Event { op, terminal: true, result: Ok(Outcome::Cancelled) })
            },
            None => None,
        }
    }

    /// Watches that wait for a buffer.
    pub fn waiting(&self) -> (n: usize)
        ensures
            n == self@.ready.len(),
    {
        self.ready.len()
    }

    /// The oldest watch that waits for a buffer, and its subscription.
    pub fn next(&self) -> (next: Option<(Handle, Option<OpId>)>)
        requires
            self@.valid(),
        ensures
            match next {
                Some((h, op)) => self@.ready.len() > 0 && h == self@.ready[0] && op == self@.at(
                    h,
                ).op,
                None => self@.ready.len() == 0,
            },
    {
        if self.ready.len() == 0 {
            return None;
        }
        let h = self.ready[0];
        proof {
            assert(self@.live(self@.ready[0]));
        }
        match self.entries[h.index()] {
            Some(w) => Some((h, w.op)),
            None => None,
        }
    }

    /// Serve the oldest watch that waits for a buffer with what the host found in its
    /// storage. One without a subscription leaves the queue; one that has more to tell goes
    /// behind the others.
    pub fn serve<D>(&mut self, found: Found) -> (served: Served<D>)
        requires
            old(self)@.valid(),
            old(self)@.ready.len() > 0,
        ensures
            final(self)@.valid(),
            final(self)@ == old(self)@.served(found),
            match (old(self)@.at(old(self)@.ready[0]).op, found) {
                (Some(op), Found::Batch { lease, overflow, .. }) => served == Served::<D>::Event(
                    batch_event(op, lease, overflow),
                ),
                (Some(_), Found::NoBuffer) => served == Served::<D>::Waits,
                _ => served == Served::<D>::Nothing,
            },
    {
        let ghost before = self@;
        let h = self.ready[0];
        let i = h.index();
        proof {
            assert(before.live(before.ready[0]));
            assert(before.slot_ok(i as int));
            lemma_pop(before.ready);
        }
        let Some(w) = self.entries[i] else {
            return Served::Nothing;
        };
        let mut event: Option<Event<D>> = None;
        let mut more_left: bool = false;
        if let Some(op) = w.op {
            match found {
                Found::NoBuffer => {
                    return Served::Waits;
                },
                Found::Empty => {},
                Found::Batch { lease, overflow, more } => {
                    event = Some(
                        Event {
                            op,
                            terminal: false,
                            result: Ok(Outcome::Watch { events: lease, overflow }),
                        },
                    );
                    more_left = more;
                },
            }
        }
        self.ready.pop_front();
        if more_left {
            self.ready.push_back(h);
        } else {
            self.entries.set(i, Some(Watch { queued: false, ..w }));
        }
        proof {
            assert(self@ =~= before.served(found));
            lemma_served(before, found);
        }
        match event {
            Some(e) => Served::Event(e),
            None => Served::Nothing,
        }
    }

    /// Whether a poll would do anything without waiting. `readable` tells that the change
    /// source has records, `available` that the pool has a buffer.
    pub fn has_work(&self, readable: bool, available: bool) -> (work: bool)
        ensures
            work == (readable || self@.cancelled.len() > 0 || (self@.ready.len() > 0
                && available)),
    {
        readable || self.cancelled.len() > 0 || (self.ready.len() > 0 && available)
    }

    /// Close a watch whose subscription ended. Yields the number to give back to the
    /// system: no other watch shares it and the system still knows it.
    pub fn release(&mut self, h: Handle) -> (unused: Option<u32>)
        requires
            old(self)@.valid(),
            old(self)@.live(h) ==> old(self)@.at(h).op is None,
        ensures
            final(self)@.valid(),
            !old(self)@.live(h) ==> unused is None && final(self)@ == old(self)@,
            old(self)@.live(h) ==> {
                let wd = old(self)@.at(h).wd;
                &&& final(self)@ == old(self)@.released(h)
                &&& unused == (if wd < 0x8000_0000 && !old(self)@.shared(h, wd) {
                    Some(wd)
                } else {
                    None
                })
            },
    {
        let ghost before = self@;
        if !self.contains(h) {
            return None;
        }
        let i = h.index();
        let Some(w) = self.entries[i] else {
            return None;
        };
        proof {
            assert(before.slot_ok(i as int));
            lemma_remove_value(before.ready, h);
        }
        self.entries.set(i, None);
        self.forget(i);
        if w.queued {
            remove_handle(&mut self.ready, h);
        }
        let ghost after = self@;
        proof {
            assert(after =~= before.released(h));
            lemma_released(before, h);
        }
        if w.wd >= 0x8000_0000 || self.has_number(w.wd) {
            proof {
                if w.wd < 0x8000_0000 {
                    let s = choose|s: int|
                        0 <= s < after.entries.len() && (#[trigger] after.entries[s]) is Some
                            && after.entries[s]->0.wd == w.wd;
                    assert(before.entries[s] is Some);
                    assert(before.shared(h, w.wd));
                }
            }
            return None;
        }
        proof {
            if before.shared(h, w.wd) {
                let s = choose|s: int|
                    0 <= s < before.entries.len() && s != h.spec_index() && (
                    #[trigger] before.entries[s]) is Some && before.entries[s]->0.wd == w.wd;
                assert(after.entries[s] is Some);
            }
        }
        Some(w.wd)
    }

    /// Take slot `i` out of the occupied ones.
    fn forget(&mut self, i: usize)
        requires
            old(self)@.active.no_duplicates(),
        ensures
            final(self)@ == (Model {
                active: swapped_out(old(self)@.active, i),
                ..old(self)@
            }),
            final(self)@.active.no_duplicates(),
            forall|x: usize|
                #[trigger] final(self)@.active.contains(x) <==> old(self)@.active.contains(x) && x
                    != i,
    {
        let ghost before = self@.active;
        let n: usize = self.active.len();
        let mut k: usize = 0;
        while k < n && self.active[k] != i
            invariant
                k <= n,
                n == before.len(),
                self@ == old(self)@,
                self.active@ == before,
                before == old(self)@.active,
                forall|j: int| 0 <= j < k ==> before[j] != i,
            decreases n - k,
        {
            k = k + 1;
        }
        proof {
            before.index_of_first_ensures(i);
        }
        if k < n {
            self.active.swap_remove(k);
            proof {
                assert(before.contains(before[k as int]));
                assert(before.index_of_first(i) == Some(k as int));
                assert(self.active@ =~= before.update(k as int, before.last()).drop_last());
            }
        }
        proof {
            lemma_swapped_out(before, i);
            assert(self@ =~= Model { active: swapped_out(before, i), ..old(self)@ });
        }
    }

    /// Whether an open watch has the number `wd`.
    fn has_number(&self, wd: u32) -> (found: bool)
        requires
            self@.valid(),
        ensures
            found == exists|s: int|
                0 <= s < self@.entries.len() && (#[trigger] self@.entries[s]) is Some
                    && self@.entries[s]->0.wd == wd,
    {
        let mut k: usize = 0;
        while k < self.active.len()
            invariant
                k <= self.active@.len(),
                self@.valid(),
                forall|j: int|
                    0 <= j < k ==> (match self@.entries[(#[trigger] self@.active[j]) as int] {
                        Some(w) => w.wd != wd,
                        None => true,
                    }),
            decreases self.active@.len() - k,
        {
            let i = self.active[k];
            assert(self@.active[k as int] == i);
            if let Some(w) = self.entries[i] {
                if w.wd == wd {
                    assert(self@.entries[i as int] is Some);
                    return true;
                }
            }
            k = k + 1;
        }
        proof {
            assert forall|s: int|
                0 <= s < self@.entries.len() && (#[trigger] self@.entries[s])
                    is Some implies self@.entries[s]->0.wd != wd by {
                assert(self@.slot_ok(s));
                let j = choose|j: int| 0 <= j < self@.active.len() && self@.active[j] == s as usize;
                assert(self@.active[j] == s as usize);
            }
        }
        false
    }
}

proof fn lemma_push_contains(list: Seq<usize>, value: usize)
    ensures
        forall|x: usize| #[trigger] list.push(value).contains(x) <==> list.contains(x) || x == value,
{
    let more = list.push(value);
    assert forall|x: usize| #[trigger] more.contains(x) <==> list.contains(x) || x == value by {
        assert(more[list.len() as int] == value);
        if list.contains(x) {
            let k = choose|k: int| 0 <= k < list.len() && list[k] == x;
            assert(more[k] == x);
        }
        if more.contains(x) && x != value {
            let k = choose|k: int| 0 <= k < more.len() && more[k] == x;
            assert(list[k] == x);
        }
    }
}

/// Changing what is known of one live watch keeps the queued ones live.
proof fn lemma_touched(before: Model, after: Model, h: Handle)
    requires
        before.valid(),
        before.live(h),
        after.live(h),
        after.ready == before.ready,
        after.entries == before.entries.update(h.spec_index(), after.entries[h.spec_index()]),
    ensures
        forall|k: int| 0 <= k < after.ready.len() ==> after.live(#[trigger] after.ready[k]),
{
    assert forall|k: int| 0 <= k < after.ready.len() implies after.live(
        #[trigger] after.ready[k],
    ) by {
        assert(before.live(before.ready[k]));
    }
}

/// Acknowledgements do not touch watches.
pub proof fn lemma_same(before: Model, after: Model)
    requires
        before.valid(),
        after == (Model { cancelled: after.cancelled, ..before }),
    ensures
        after.valid(),
{
    assert forall|k: int| 0 <= k < after.ready.len() implies after.live(
        #[trigger] after.ready[k],
    ) by {
        assert(before.live(before.ready[k]));
    }
    assert forall|s: int| 0 <= s < after.entries.len() implies #[trigger] after.slot_ok(s) by {
        assert(before.slot_ok(s));
    }
    assert forall|j: int| 0 <= j < after.ops.len() implies #[trigger] after.op_ok(j) by {
        assert(before.op_ok(j));
    }
}

/// A watch that opens in a free slot.
pub proof fn lemma_started(before: Model, h: Handle, wd: u32)
    requires
        before.valid(),
        before.vacant(h),
    ensures
        before.started(h, wd).valid(),
{
    let after = before.started(h, wd);
    let i = h.spec_index() as usize;
    assert(before.slot_ok(h.spec_index()));
    lemma_push(before.active, i);
    assert forall|k: int| 0 <= k < after.ready.len() implies after.live(
        #[trigger] after.ready[k],
    ) by {
        assert(before.live(before.ready[k]));
    }
    assert(!before.ready.contains(h)) by {
        if before.ready.contains(h) {
            let k = choose|k: int| 0 <= k < before.ready.len() && before.ready[k] == h;
            assert(before.live(before.ready[k]));
        }
    }
    assert forall|s: int| 0 <= s < after.entries.len() implies #[trigger] after.slot_ok(
        s,
    ) by {
        assert(before.slot_ok(s));
        assert(after.active.contains(s as usize) <==> before.active.contains(s as usize)
            || s as usize == i);
    }
    assert forall|j: int| 0 <= j < after.ops.len() implies #[trigger] after.op_ok(j) by {
        assert(before.op_ok(j));
    }
}

/// A subscription that starts.
pub proof fn lemma_subscribed(before: Model, h: Handle, op: OpId)
    requires
        before.valid(),
        before.takes(h, op),
    ensures
        before.subscribed(h, op).valid(),
{
    let after = before.subscribed(h, op);
    lemma_touched(before, after, h);
    assert forall|s: int| 0 <= s < after.entries.len() implies #[trigger] after.slot_ok(
        s,
    ) by {
        assert(before.slot_ok(s));
    }
    assert forall|j: int| 0 <= j < after.ops.len() implies #[trigger] after.op_ok(j) by {
        assert(before.op_ok(j));
    }
}

/// A subscription that is cancelled.
pub proof fn lemma_unsubscribed(before: Model, op: OpId)
    requires
        before.valid(),
        before.runs(op),
    ensures
        before.unsubscribed(op).valid(),
{
    let after = before.unsubscribed(op);
    let h = before.ops[op.spec_index()]->0;
    lemma_touched(before, after, h);
    assert forall|s: int| 0 <= s < after.entries.len() implies #[trigger] after.slot_ok(
        s,
    ) by {
        assert(before.slot_ok(s));
        if s != h.spec_index() && before.entries[s] is Some {
            assert(before.op_ok(op.spec_index()));
        }
    }
    assert forall|j: int| 0 <= j < after.ops.len() implies #[trigger] after.op_ok(j) by {
        assert(before.op_ok(j));
    }
}

/// A watch that queues.
pub proof fn lemma_stored(before: Model, slot: int)
    requires
        before.valid(),
        0 <= slot < before.entries.len(),
    ensures
        before.stored(slot).valid(),
{
    let after = before.stored(slot);
    assert(before.slot_ok(slot));
    if let Some(w) = before.entries[slot] {
        if w.op is Some && !w.queued {
            lemma_push(before.ready, w.handle);
            assert forall|k: int| 0 <= k < after.ready.len() implies after.live(
                #[trigger] after.ready[k],
            ) by {
                if k < before.ready.len() {
                    assert(before.live(before.ready[k]));
                }
            }
            assert forall|s: int| 0 <= s < after.entries.len() implies #[trigger] after.slot_ok(
                s,
            ) by {
                assert(before.slot_ok(s));
                if after.entries[s] is Some {
                    let other = after.entries[s]->0.handle;
                    assert(after.ready.contains(other) <==> before.ready.contains(other)
                        || other == w.handle);
                }
            }
            assert forall|j: int| 0 <= j < after.ops.len() implies #[trigger] after.op_ok(
                j,
            ) by {
                assert(before.op_ok(j));
            }
        }
    }
}

/// A watch that was looked at.
pub proof fn lemma_served(before: Model, found: Found)
    requires
        before.valid(),
        before.ready.len() > 0,
    ensures
        before.served(found).valid(),
{
    let after = before.served(found);
    let h = before.ready[0];
    let i = h.spec_index();
    assert(before.live(before.ready[0]));
    assert(before.slot_ok(i));
    lemma_pop(before.ready);
    lemma_push(before.ready.drop_first(), h);
    assert forall|k: int| 0 <= k < after.ready.len() implies after.live(
        #[trigger] after.ready[k],
    ) by {
        assert(after.ready.contains(after.ready[k]));
        assert(before.ready.contains(after.ready[k]));
        let j = choose|j: int|
            0 <= j < before.ready.len() && before.ready[j] == after.ready[k];
        assert(before.live(before.ready[j]));
    }
    assert forall|s: int| 0 <= s < after.entries.len() implies #[trigger] after.slot_ok(
        s,
    ) by {
        assert(before.slot_ok(s));
        if after.entries[s] is Some {
            let other = after.entries[s]->0.handle;
            assert(before.ready.drop_first().contains(other) <==> before.ready.contains(
                other,
            ) && other != h);
        }
    }
    assert forall|j: int| 0 <= j < after.ops.len() implies #[trigger] after.op_ok(j) by {
        assert(before.op_ok(j));
    }
}

/// A watch that closes.
pub proof fn lemma_released(before: Model, h: Handle)
    requires
        before.valid(),
        before.live(h),
        before.at(h).op is None,
    ensures
        before.released(h).valid(),
{
    let after = before.released(h);
    let i = h.spec_index() as usize;
    assert(before.slot_ok(h.spec_index()));
    lemma_remove_value(before.ready, h);
    lemma_swapped_out(before.active, i);
    assert forall|k: int| 0 <= k < after.ready.len() implies after.live(
        #[trigger] after.ready[k],
    ) by {
        assert(after.ready.contains(after.ready[k]));
        let j = choose|j: int|
            0 <= j < before.ready.len() && before.ready[j] == after.ready[k];
        assert(before.live(before.ready[j]));
    }
    assert forall|s: int| 0 <= s < after.entries.len() implies #[trigger] after.slot_ok(
        s,
    ) by {
        assert(before.slot_ok(s));
        assert(after.active.contains(s as usize) <==> before.active.contains(s as usize)
            && s as usize != i);
        if after.entries[s] is Some {
            let other = after.entries[s]->0.handle;
            assert(after.ready.contains(other) <==> before.ready.contains(other) && other
                != h);
        }
    }
    assert forall|j: int| 0 <= j < after.ops.len() implies #[trigger] after.op_ok(j) by {
        assert(before.op_ok(j));
    }
    assert forall|k: int| 0 <= k < after.active.len() implies (#[trigger] after.active[k])
        < after.entries.len() by {
        assert(after.active.contains(after.active[k]));
        let j = choose|j: int|
            0 <= j < before.active.len() && before.active[j] == after.active[k];
    }
}

/// Taking a value out by putting the last one in its place.
proof fn lemma_swapped_out(before: Seq<usize>, i: usize)
    requires
        before.no_duplicates(),
    ensures
        swapped_out(before, i).no_duplicates(),
        forall|x: usize|
            #[trigger] swapped_out(before, i).contains(x) <==> before.contains(x) && x != i,
{
    let after = swapped_out(before, i);
    let n = before.len() as int;
    before.index_of_first_ensures(i);
    if before.contains(i) {
        let k = before.index_of_first(i)->0;
        assert forall|x: usize| #[trigger] after.contains(x) <==> before.contains(x) && x
            != i by {
            if after.contains(x) {
                let j = choose|j: int| 0 <= j < after.len() && after[j] == x;
                if j == k {
                    assert(before[n - 1] == x);
                } else {
                    assert(before[j] == x);
                }
            }
            if before.contains(x) && x != i {
                let j = choose|j: int| 0 <= j < before.len() && before[j] == x;
                if j == n - 1 {
                    assert(after[k] == x);
                } else {
                    assert(after[j] == x);
                }
            }
        }
        assert forall|a: int, b: int|
            0 <= a < after.len() && 0 <= b < after.len() && a != b implies after[a]
            != after[b] by {
            let from_a = if a == k { n - 1 } else { a };
            let from_b = if b == k { n - 1 } else { b };
            assert(before[from_a] != before[from_b]);
        }
    }
}

/// What became of reading the change source.
#[derive(Clone, Copy, Debug, PartialEq, Eq, Structural)]
pub enum Read {
    /// Records arrived.
    Records,
    /// Interrupted: read again.
    Again,
    /// Nothing is left.
    Drained,
    /// Reading failed: every watch has lost changes, and nothing is left.
    Lost,
}

/// Judge a read of the change source.
pub fn read_outcome(result: Result<usize, Error>, interrupted: i32, again: i32) -> (read: Read)
    ensures
        read == (match result {
            Ok(_) => Read::Records,
            Err(e) => if e.os == Some(interrupted) {
                Read::Again
            } else if e.os == Some(again) {
                Read::Drained
            } else {
                Read::Lost
            },
        }),
{
    match result {
        Ok(_) => Read::Records,
        Err(e) => if e.os == Some(interrupted) {
            Read::Again
        } else if e.os == Some(again) {
            Read::Drained
        } else {
            Read::Lost
        },
    }
}

/// Where the changes of a path come from.
#[derive(Clone, Copy, Debug, PartialEq, Eq, Structural)]
pub enum Source {
    /// The loop's change queue.
    Queue,
    /// A descriptor of the file itself.
    Node,
    /// A stream of directory events.
    Stream,
}

/// Choose the source of a watch. Only streams reach below a directory.
pub fn source_of(queue: bool, streams: bool, directory: bool, recursive: bool) -> (source: Result<
    Source,
    Error,
>)
    ensures
        source == (if !queue && streams && directory {
            Ok(Source::Stream)
        } else if recursive {
            Err(Error::plain(ErrorKind::Unsupported))
        } else if queue {
            Ok(Source::Queue)
        } else {
            Ok(Source::Node)
        }),
{
    if !queue && streams && directory {
        return Ok(Source::Stream);
    }
    if recursive {
        return Err(unsupported());
    }
    if queue {
        Ok(Source::Queue)
    } else {
        Ok(Source::Node)
    }
}

/// Flags of a report about one file.
#[derive(Clone, Copy, Debug, PartialEq, Eq, Structural)]
pub struct NodeFlags {
    /// Written, grown, or attributes changed.
    pub content: u32,
    /// Renamed, deleted or revoked.
    pub identity: u32,
}

/// What the flags of a report about one file add to its storage, in order.
pub open spec fn node_changes(flags: u32, known: NodeFlags) -> Seq<WatchKind> {
    (if flags & known.content != 0 {
        seq![WatchKind::Change]
    } else {
        Seq::empty()
    }) + (if flags & known.identity != 0 {
        seq![WatchKind::Rename]
    } else {
        Seq::empty()
    })
}

/// What the flags of a report about one file add to its storage.
pub fn node_reports(flags: u32, known: NodeFlags) -> (kinds: Vec<WatchKind>)
    ensures
        kinds@ == node_changes(flags, known),
{
    let mut kinds: Vec<WatchKind> = Vec::new();
    if flags & known.content != 0 {
        kinds.push(WatchKind::Change);
    }
    if flags & known.identity != 0 {
        kinds.push(WatchKind::Rename);
    }
    assert(kinds@ =~= node_changes(flags, known));
    kinds
}

/// A cancelled subscription owes exactly one acknowledgement, and no batch completes it:
/// whatever is served later carries another subscription.
pub proof fn law_cancelled_watch_is_silent(m: Model, op: OpId, h: Handle)
    requires
        m.valid(),
        m.runs(op),
        m.live(h),
    ensures
        m.unsubscribed(op).cancelled == m.cancelled.push(op),
        m.unsubscribed(op).at(h).op != Some(op),
        !m.unsubscribed(op).runs(op),
{
    let owner = m.ops[op.spec_index()]->0;
    assert(m.op_ok(op.spec_index()));
    if h != owner && m.at(h).op == Some(op) {
        assert(m.slot_ok(h.spec_index()));
    }
}

/// A watch queues once, however often changes are stored for it.
pub proof fn law_storing_twice_is_storing_once(m: Model, slot: int)
    requires
        0 <= slot < m.entries.len(),
    ensures
        m.stored(slot).stored(slot) == m.stored(slot),
{
}

/// Without a buffer nothing is lost: the watch keeps its place and its subscription.
pub proof fn law_exhausted_pool_keeps_the_queue(m: Model)
    requires
        m.valid(),
        m.ready.len() > 0,
        m.at(m.ready[0]).op is Some,
    ensures
        m.served(Found::NoBuffer) == m,
{
}

/// A watch with more to tell goes behind all others: none of them is passed over.
pub proof fn law_busy_watch_goes_last(m: Model, lease: Lease, overflow: bool, k: int)
    requires
        m.valid(),
        m.ready.len() > 0,
        m.at(m.ready[0]).op is Some,
        0 < k < m.ready.len(),
    ensures
        m.served(Found::Batch { lease, overflow, more: true }).ready[k - 1] == m.ready[k],
        m.served(Found::Batch { lease, overflow, more: true }).ready.last() == m.ready[0],
{
}

/// A number that the system gave up is matched by no later record of a change.
pub proof fn law_forgotten_number_matches_nothing(w: Watch, gone: RecordView, later: RecordView, m1: u32, m2: u32)
    requires
        w.wd == gone.wd,
        m1 & IN_Q_OVERFLOW == 0,
        m1 & IN_IGNORED != 0,
        m2 & IN_Q_OVERFLOW == 0,
        later.wd != GONE,
    ensures
        report_for(forgotten(w, gone, m1), later, m2) is None,
{
}

proof fn lemma_delivered(
    entries: Seq<Option<Watch>>,
    active: Seq<usize>,
    record: RecordView,
    mask: u32,
    n: int,
    d: Delivery,
)
    requires
        0 <= n <= active.len(),
    ensures
        deliveries(entries, active, record, mask, n).contains(d) <==> active.take(n).contains(
            d.slot,
        ) && entries[d.slot as int] is Some && report_for(
            entries[d.slot as int]->0,
            record,
            mask,
        ) == Some(d.report),
    decreases n,
{
    let all = deliveries(entries, active, record, mask, n);
    if n > 0 {
        lemma_delivered(entries, active, record, mask, n - 1, d);
        let before = deliveries(entries, active, record, mask, n - 1);
        let slot = active[n - 1];
        assert(active.take(n) =~= active.take(n - 1).push(slot));
        assert(active.take(n)[n - 1] == slot);
        if active.take(n - 1).contains(d.slot) {
            let front = active.take(n - 1);
            let k = choose|k: int| 0 <= k < front.len() && front[k] == d.slot;
            assert(active.take(n)[k] == d.slot);
        }
        if active.take(n).contains(d.slot) && d.slot != slot {
            let whole = active.take(n);
            let k = choose|k: int| 0 <= k < whole.len() && whole[k] == d.slot;
            assert(active.take(n - 1)[k] == d.slot);
        }
        if all != before {
            let last = all[before.len() as int];
            assert(all == before.push(last));
            if all.contains(d) && d != last {
                let k = choose|k: int| 0 <= k < all.len() && all[k] == d;
                assert(before[k] == d);
            }
            if before.contains(d) {
                let k = choose|k: int| 0 <= k < before.len() && before[k] == d;
                assert(all[k] == d);
            }
        }
    } else {
        assert(active.take(0) =~= Seq::empty());
    }
}

/// What a record of the system tells, and whom. A record that some were lost tells every open
/// watch just that. Any other tells the subscribed watches of its number, unless it is the one
/// by which the system gives the number up: of a change where it tells of nothing but content
/// (0x2) and attributes (0x4), of a rename otherwise, whether it carries a name or not; and under
/// the name of the watch itself exactly where it carries none.
pub proof fn law_records_tell_what_changed(
    m: Model,
    record: RecordView,
    mask: u32,
    slot: usize,
    report: Report,
)
    requires
        m.valid(),
        slot < m.entries.len(),
    ensures
        ({
            let told = deliveries(m.entries, m.active, record, mask, m.active.len() as int);
            let w = m.entries[slot as int];
            let change = mask & 0xffff_fff9u32 == 0;
            &&& mask & 0x4000u32 != 0 ==> (told.contains(Delivery { slot, report }) <==> w is Some
                && report is Lost)
            &&& mask & 0x4000u32 == 0 ==> (told.contains(Delivery { slot, report }) <==> {
                &&& w is Some
                &&& w->0.op is Some
                &&& w->0.wd == record.wd
                &&& mask & 0x8000u32 == 0
                &&& if record.name.len() == 0 {
                    report == Report::Own(
                        if change {
                            WatchKind::Change
                        } else {
                            WatchKind::Rename
                        },
                    )
                } else {
                    report == Report::Named(
                        if change {
                            WatchKind::Change
                        } else {
                            WatchKind::Rename
                        },
                    )
                }
            })
        }),
{
    assert(!(0x4u32 | 0x2u32) == 0xffff_fff9u32) by (bit_vector);
    assert(m.slot_ok(slot as int));
    assert(m.active.take(m.active.len() as int) =~= m.active);
    lemma_delivered(
        m.entries,
        m.active,
        record,
        mask,
        m.active.len() as int,
        Delivery { slot, report },
    );
}

/// A new watch is about the number that the system gave it, and nobody has subscribed to it yet; a
/// subscription is under its full identity, and changes nothing else of the watch.
pub proof fn law_subscription_is_bound(m: Model, h: Handle, wd: u32, op: OpId)
    requires
        m.valid(),
        m.vacant(h),
        op.spec_index() < m.ops.len(),
        m.ops[op.spec_index()] is None,
    ensures
        ({
            let n = m.started(h, wd);
            let k = n.subscribed(h, op);
            &&& n.live(h) && n.at(h).wd == wd && n.at(h).op is None && !n.at(h).queued
            &&& n.active.contains(h.spec_index() as usize)
            &&& k.runs(op)
            &&& k.at(h) == (Watch { op: Some(op), ..n.at(h) })
            &&& k.ready == m.ready && k.cancelled == m.cancelled
            &&& forall|s: int|
                0 <= s < m.entries.len() && s != h.spec_index() ==> #[trigger] k.entries[s]
                    == m.entries[s]
        }),
{
    let n = m.started(h, wd);
    assert(n.active[m.active.len() as int] == h.spec_index() as usize);
}

/// A change that is stored for a subscribed watch puts it in line, behind those that are; one that
/// nobody subscribed to stays where it is.
pub proof fn law_changed_watch_is_in_line(m: Model, h: Handle)
    requires
        m.valid(),
        m.live(h),
    ensures
        ({
            let n = m.stored(h.spec_index());
            &&& m.at(h).op is Some ==> n.ready.contains(h) && n.at(h).queued
            &&& m.at(h).op is Some && !m.at(h).queued ==> n.ready == m.ready.push(h)
            &&& m.at(h).op is None ==> n == m
            &&& n.at(h).op == m.at(h).op && n.at(h).wd == m.at(h).wd
            &&& n.active == m.active && n.ops == m.ops && n.cancelled == m.cancelled
        }),
{
    assert(m.slot_ok(h.spec_index()));
    if m.at(h).op is Some && !m.at(h).queued {
        let n = m.stored(h.spec_index());
        assert(n.ready[m.ready.len() as int] == h);
    }
}

/// A watch that told everything it had leaves the line, and so does one that nobody subscribes to
/// any more. A batch is told under its subscription, with its buffer, and is not the last.
pub proof fn law_served_watch_leaves_the_line<D>(
    m: Model,
    lease: Lease,
    overflow: bool,
    found: Found,
    op: OpId,
)
    requires
        m.valid(),
        m.ready.len() > 0,
    ensures
        ({
            let h = m.ready[0];
            let done = m.served(Found::Batch { lease, overflow, more: false });
            let gone = m.served(found);
            &&& done.ready == m.ready.drop_first() && !done.at(h).queued
            &&& m.served(Found::Empty).ready == m.ready.drop_first()
            &&& m.at(h).op is None ==> gone.ready == m.ready.drop_first() && !gone.at(h).queued
            &&& done.at(h).op == m.at(h).op && done.at(h).wd == m.at(h).wd
            &&& batch_event::<D>(op, lease, overflow).op == op
            &&& !batch_event::<D>(op, lease, overflow).terminal
            &&& batch_event::<D>(op, lease, overflow).result == Ok::<Outcome<D>, Error>(
                Outcome::Watch { events: lease, overflow },
            )
        }),
{
}

/// A released watch is gone: from its slot, from those that records are told to, and from the line.
pub proof fn law_released_watch_is_gone(m: Model, h: Handle)
    requires
        m.valid(),
        m.live(h),
    ensures
        ({
            let n = m.released(h);
            &&& !n.live(h)
            &&& n.entries[h.spec_index()] is None
            &&& !n.active.contains(h.spec_index() as usize)
            &&& !n.ready.contains(h)
            &&& forall|s: int|
                0 <= s < m.entries.len() && s != h.spec_index() ==> #[trigger] n.entries[s]
                    == m.entries[s]
        }),
{
    let s = h.spec_index() as usize;
    assert(m.slot_ok(h.spec_index()));
    m.active.index_of_first_ensures(s);
    let k = m.active.index_of_first(s)->0;
    let rest = m.released(h).active;
    if rest.contains(s) {
        let j = choose|j: int| 0 <= j < rest.len() && rest[j] == s;
        if j == k {
            assert(m.active[m.active.len() - 1] == s);
            assert(m.active[k] == s);
        } else {
            assert(m.active[j] == s);
            assert(m.active[k] == s);
        }
    }
    crate::queues::lemma_remove_value(m.ready, h);
}

/// What a watched file tells is told by its flags: its content first, then its name.
pub proof fn law_node_flags_tell_what_changed(flags: u32, known: NodeFlags)
    ensures
        ({
            let told = node_changes(flags, known);
            &&& told.contains(WatchKind::Change) <==> flags & known.content != 0
            &&& told.contains(WatchKind::Rename) <==> flags & known.identity != 0
            &&& told.len() <= 2
            &&& told.len() == 2 ==> told[0] == WatchKind::Change && told[1] == WatchKind::Rename
        }),
{
    let told = node_changes(flags, known);
    if flags & known.content != 0 {
        assert(told[0] == WatchKind::Change);
    }
    if flags & known.identity != 0 {
        assert(told[told.len() - 1] == WatchKind::Rename);
    }
}

} // verus!
