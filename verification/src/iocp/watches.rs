//! The watches of one loop. Each keeps one kernel request in flight; its storage goes only
//! after the kernel gave the last request back.
use crate::iocp::codes::ERROR_NOT_FOUND;
use crate::queues::{lemma_pop, lemma_push, lemma_remove_value, remove_handle};
use crate::types::{invalid, Error, ErrorKind, Event, Handle, Lease, OpId, Operation, Outcome, Request};
use crate::unix::watch::{batch_event, Found, Served};
use std::collections::VecDeque;
use vstd::prelude::*;

verus! {

/// One watch.
#[derive(Clone, Copy, Debug, PartialEq, Eq, Structural)]
pub struct Watch {
    pub handle: Handle,
    /// The port key of its packets, never used for another watch.
    pub key: usize,
    /// Where the kernel keeps its request.
    pub request: usize,
    /// Its subscription.
    pub op: Option<OpId>,
    /// The kernel has its request.
    pub armed: bool,
    pub cancelling: bool,
    /// It waits for a buffer.
    pub queued: bool,
}

/// A released watch whose last request the kernel still has.
#[derive(Clone, Copy, Debug, PartialEq, Eq, Structural)]
pub struct Retired {
    pub key: usize,
    pub request: usize,
}

/// A subscription that ended, cancelled or with an error.
#[derive(Clone, Copy, Debug, PartialEq, Eq, Structural)]
pub struct Ended {
    pub op: OpId,
    pub error: Option<Error>,
}

/// What a packet asks of the host.
#[derive(Clone, Copy, Debug, PartialEq, Eq, Structural)]
pub enum Completed {
    /// It belongs to no watch.
    Foreign,
    /// The storage of the released watch with this key may go.
    Freed,
    /// Nothing is left to do.
    Done,
    /// Store what the request of the watch in this slot tells, and arm it again.
    Store(usize),
}

/// What a cancellation asks of the host first.
#[derive(Clone, Copy, Debug, PartialEq, Eq, Structural)]
pub enum Cancel {
    /// No such subscription.
    Unknown,
    /// Nothing: it is being cancelled, or the kernel has no request.
    Plain,
    /// Cancel the kernel request of the watch in this slot.
    Native(usize),
}

/// The completion of a subscription that ended.
pub open spec fn end_event<D>(ended: Ended) -> Event<D> {
    Event {
        op: ended.op,
        terminal: true,
        result: match ended.error {
            None => Ok(Outcome::Cancelled),
            Some(e) => Err(e),
        },
    }
}

/// The watches as plain mathematics.
#[verifier::ext_equal]
pub struct Model {
    pub entries: Seq<Option<Watch>>,
    pub retired: Seq<Retired>,
    /// The watch of each running subscription.
    pub ops: Seq<Option<Handle>>,
    /// Watches that wait for a buffer, oldest first.
    pub ready: Seq<Handle>,
    /// Subscriptions that ended and were not reported yet.
    pub finished: Seq<Ended>,
}

impl Model {
    /// `h` names an open watch.
    pub open spec fn live(self, h: Handle) -> bool {
        &&& h.spec_index() < self.entries.len()
        &&& self.entries[h.spec_index()] is Some
        &&& self.entries[h.spec_index()]->0.handle == h
    }

    /// The watch of a live handle.
    pub open spec fn at(self, h: Handle) -> Watch {
        self.entries[h.spec_index()]->0
    }

    /// Slot, subscription and queue of slot `s` agree.
    pub open spec fn slot_ok(self, s: int) -> bool {
        match self.entries[s] {
            None => true,
            Some(w) => {
                &&& w.handle.spec_index() == s
                &&& w.queued == self.ready.contains(w.handle)
                &&& w.cancelling && w.op is Some ==> w.armed
                &&& match w.op {
                    Some(op) => op.spec_index() < self.ops.len() && self.ops[op.spec_index()]
                        == Some(w.handle),
                    None => true,
                }
            },
        }
    }

    /// A subscription belongs to a live watch that knows it.
    pub open spec fn op_ok(self, i: int) -> bool {
        match self.ops[i] {
            None => true,
            Some(h) => self.live(h) && (match self.at(h).op {
                Some(op) => op.spec_index() == i,
                None => false,
            }),
        }
    }

    /// Slot `s` holds a watch with this key.
    pub open spec fn keyed(self, s: int, key: usize) -> bool {
        self.entries[s] is Some && self.entries[s]->0.key == key
    }

    /// A watch with this key is open, or retired.
    pub open spec fn used(self, key: usize) -> bool {
        ||| exists|s: int| 0 <= s < self.entries.len() && #[trigger] self.keyed(s, key)
        ||| self.retires(key)
    }

    /// A retired watch has this key.
    pub open spec fn retires(self, key: usize) -> bool {
        exists|k: int| 0 <= k < self.retired.len() && (#[trigger] self.retired[k]).key == key
    }

    /// No key belongs to two watches.
    pub open spec fn keys_apart(self) -> bool {
        &&& forall|s: int, t: int, key: usize|
            0 <= s < self.entries.len() && 0 <= t < self.entries.len() && #[trigger] self.keyed(
                s,
                key,
            ) && #[trigger] self.keyed(t, key) ==> s == t
        &&& forall|s: int, key: usize|
            0 <= s < self.entries.len() && #[trigger] self.keyed(s, key) ==> !self.retires(key)
        &&& forall|j: int, k: int|
            0 <= j < self.retired.len() && 0 <= k < self.retired.len() && (
            #[trigger] self.retired[j]).key == (#[trigger] self.retired[k]).key ==> j == k
    }

    /// Watches, subscriptions, queue and keys agree.
    pub open spec fn valid(self) -> bool {
        &&& self.ready.no_duplicates()
        &&& self.keys_apart()
        &&& forall|k: int| 0 <= k < self.ready.len() ==> self.live(#[trigger] self.ready[k])
        &&& forall|s: int| 0 <= s < self.entries.len() ==> #[trigger] self.slot_ok(s)
        &&& forall|i: int| 0 <= i < self.ops.len() ==> #[trigger] self.op_ok(i)
    }

    /// Whether a watch can open under `h`.
    pub open spec fn vacant(self, h: Handle) -> bool {
        h.spec_index() < self.entries.len() && self.entries[h.spec_index()] is None
    }

    /// The model with another state of the watch in slot `s`.
    pub open spec fn with(self, s: int, w: Watch) -> Model {
        Model { entries: self.entries.update(s, Some(w)), ..self }
    }

    /// A watch opened; the kernel has its first request.
    pub open spec fn started(self, h: Handle, key: usize, request: usize) -> Model {
        self.with(
            h.spec_index(),
            Watch {
                handle: h,
                key,
                request,
                op: None,
                armed: true,
                cancelling: false,
                queued: false,
            },
        )
    }

    /// Whether `op` can subscribe to `h`.
    pub open spec fn takes(self, h: Handle, op: OpId) -> bool {
        &&& self.live(h)
        &&& self.at(h).op is None
        &&& op.spec_index() < self.ops.len()
        &&& self.ops[op.spec_index()] is None
    }

    /// A watch with a subscription has something stored: it queues, once.
    pub open spec fn stored(self, s: int) -> Model {
        match self.entries[s] {
            Some(w) => if w.op is Some && !w.queued {
                Model {
                    ready: self.ready.push(w.handle),
                    ..self.with(s, Watch { queued: true, ..w })
                }
            } else {
                self
            },
            None => self,
        }
    }

    /// `op` subscribed, and the kernel has a request for it; what was stored before is owed
    /// to it.
    pub open spec fn subscribed(self, h: Handle, op: OpId, pending: bool) -> Model {
        let bound = Model {
            ops: self.ops.update(op.spec_index(), Some(h)),
            ..self.with(h.spec_index(), Watch { op: Some(op), armed: true, cancelling: false, ..self.at(h) })
        };
        if pending {
            bound.stored(h.spec_index())
        } else {
            bound
        }
    }

    /// `op` subscribed and ended at once, since the kernel took no request for it.
    pub open spec fn stillborn(self, op: OpId, error: Error) -> Model {
        Model { finished: self.finished.push(Ended { op, error: Some(error) }), ..self }
    }

    /// Whether `op` is a running subscription.
    pub open spec fn runs(self, op: OpId) -> bool {
        &&& op.spec_index() < self.ops.len()
        &&& self.ops[op.spec_index()] is Some
        &&& self.live(self.ops[op.spec_index()]->0)
        &&& self.at(self.ops[op.spec_index()]->0).op == Some(op)
    }

    /// The subscription of the watch in slot `s` ended; another one may follow.
    pub open spec fn ended(self, s: int, error: Option<Error>) -> Model {
        let w = self.entries[s]->0;
        match w.op {
            Some(op) => Model {
                ops: self.ops.update(op.spec_index(), None),
                finished: self.finished.push(Ended { op, error }),
                ..self.with(s, Watch { op: None, cancelling: false, ..w })
            },
            None => self.with(s, Watch { cancelling: false, ..w }),
        }
    }

    /// A running subscription is being cancelled. It ends when the kernel has no request.
    pub open spec fn cancelled(self, op: OpId) -> Model {
        let h = self.ops[op.spec_index()]->0;
        let w = self.at(h);
        if w.cancelling {
            self
        } else if w.armed {
            self.with(h.spec_index(), Watch { cancelling: true, ..w })
        } else {
            self.ended(h.spec_index(), None)
        }
    }

    /// The kernel gave the request of the watch in slot `s` back.
    pub open spec fn returned(self, s: int) -> Model {
        self.with(s, Watch { armed: false, ..self.entries[s]->0 })
    }

    /// The oldest queued watch was looked at.
    pub open spec fn served(self, found: Found) -> Model {
        let h = self.ready[0];
        let w = self.at(h);
        let idle = Model {
            ready: self.ready.drop_first(),
            ..self.with(h.spec_index(), Watch { queued: false, ..w })
        };
        if w.op is None || w.cancelling {
            idle
        } else {
            match found {
                Found::Empty => idle,
                Found::NoBuffer => self,
                Found::Batch { more, .. } => if more {
                    Model { ready: self.ready.drop_first().push(h), ..self }
                } else {
                    idle
                },
            }
        }
    }

    /// A watch closed. One whose request the kernel still has is retired.
    pub open spec fn released(self, h: Handle) -> Model {
        let w = self.at(h);
        Model {
            entries: self.entries.update(h.spec_index(), None),
            ops: match w.op {
                Some(op) => self.ops.update(op.spec_index(), None),
                None => self.ops,
            },
            ready: self.ready.remove_value(h),
            retired: if w.armed {
                self.retired.push(Retired { key: w.key, request: w.request })
            } else {
                self.retired
            },
            ..self
        }
    }

    /// Whether the kernel still has a request of some watch.
    pub open spec fn pending(self) -> bool {
        ||| self.retired.len() > 0
        ||| exists|s: int|
            0 <= s < self.entries.len() && (#[trigger] self.entries[s]) is Some
                && self.entries[s]->0.armed
    }
}

/// The watches of one loop.
#[derive(Debug)]
pub struct Watches {
    entries: Vec<Option<Watch>>,
    retired: Vec<Retired>,
    ops: Vec<Option<Handle>>,
    ready: VecDeque<Handle>,
    finished: VecDeque<Ended>,
}

impl View for Watches {
    type V = Model;

    closed spec fn view(&self) -> Model {
        Model {
            entries: self.entries@,
            retired: self.retired@,
            ops: self.ops@,
            ready: self.ready@,
            finished: self.finished@,
        }
    }
}

/// A change of the watch in slot `s` that keeps its identity, its subscription and its place
/// in the queue.
pub proof fn lemma_marked(before: Model, after: Model, s: int)
    requires
        before.valid(),
        0 <= s < before.entries.len(),
        before.entries[s] is Some,
        after.entries[s] is Some,
        after == (Model { finished: after.finished, ..before.with(s, after.entries[s]->0) }),
        ({
            let w = before.entries[s]->0;
            let v = after.entries[s]->0;
            &&& v.handle == w.handle && v.key == w.key && v.op == w.op && v.queued == w.queued
            &&& v.cancelling && v.op is Some ==> v.armed
        }),
    ensures
        after.valid(),
{
    lemma_keys(before, after, s);
    assert forall|k: int| 0 <= k < after.ready.len() implies after.live(
        #[trigger] after.ready[k],
    ) by {
        assert(before.live(before.ready[k]));
    }
    assert forall|t: int| 0 <= t < after.entries.len() implies #[trigger] after.slot_ok(t) by {
        assert(before.slot_ok(t));
    }
    assert forall|j: int| 0 <= j < after.ops.len() implies #[trigger] after.op_ok(j) by {
        assert(before.op_ok(j));
    }
}

/// Keys stay apart where a watch keeps its key.
proof fn lemma_keys(before: Model, after: Model, s: int)
    requires
        before.keys_apart(),
        0 <= s < before.entries.len(),
        before.entries[s] is Some,
        after.entries[s] is Some,
        after.entries[s]->0.key == before.entries[s]->0.key,
        after.entries == before.entries.update(s, after.entries[s]),
        after.retired == before.retired,
    ensures
        after.keys_apart(),
{
    assert forall|t: int, key: usize| 0 <= t < after.entries.len() implies #[trigger] after.keyed(
        t,
        key,
    ) == before.keyed(t, key) by {}
    assert forall|key: usize| #[trigger] after.retires(key) == before.retires(key) by {}
}

/// A stored change queues the watch.
pub proof fn lemma_stored(before: Model, s: int)
    requires
        before.valid(),
        0 <= s < before.entries.len(),
    ensures
        before.stored(s).valid(),
{
    let after = before.stored(s);
    assert(before.slot_ok(s));
    if let Some(w) = before.entries[s] {
        if w.op is Some && !w.queued {
            lemma_push(before.ready, w.handle);
            lemma_keys(before, after, s);
            assert forall|k: int| 0 <= k < after.ready.len() implies after.live(
                #[trigger] after.ready[k],
            ) by {
                if k < before.ready.len() {
                    assert(before.live(before.ready[k]));
                }
            }
            assert forall|t: int| 0 <= t < after.entries.len() implies #[trigger] after.slot_ok(
                t,
            ) by {
                assert(before.slot_ok(t));
                if after.entries[t] is Some {
                    let other = after.entries[t]->0.handle;
                    assert(after.ready.contains(other) <==> before.ready.contains(other) || other
                        == w.handle);
                }
            }
            assert forall|j: int| 0 <= j < after.ops.len() implies #[trigger] after.op_ok(j) by {
                assert(before.op_ok(j));
            }
        }
    }
}

/// Ends that wait to be told are beside the rest.
pub proof fn lemma_finished(before: Model, after: Model)
    requires
        before.valid(),
        after == (Model { finished: after.finished, ..before }),
    ensures
        after.valid(),
{
    assert forall|k: int| 0 <= k < after.ready.len() implies after.live(
        #[trigger] after.ready[k],
    ) by {
        assert(before.live(before.ready[k]));
    }
    assert forall|s: int, t: int, key: usize|
        0 <= s < after.entries.len() && 0 <= t < after.entries.len() && #[trigger] after.keyed(
            s,
            key,
        ) && #[trigger] after.keyed(t, key) implies s == t by {
        assert(before.keyed(s, key) && before.keyed(t, key));
    }
    assert forall|s: int, key: usize|
        0 <= s < after.entries.len() && #[trigger] after.keyed(s, key) implies !after.retires(
        key,
    ) by {
        assert(before.keyed(s, key));
        assert(!before.retires(key));
    }
    assert forall|s: int| 0 <= s < after.entries.len() implies #[trigger] after.slot_ok(s) by {
        assert(before.slot_ok(s));
    }
    assert forall|j: int| 0 <= j < after.ops.len() implies #[trigger] after.op_ok(j) by {
        assert(before.op_ok(j));
    }
}

/// A watch that opens under a free slot and a free key.
pub proof fn lemma_started(before: Model, h: Handle, key: usize, request: usize)
    requires
        before.valid(),
        before.vacant(h),
        !before.used(key),
    ensures
        before.started(h, key, request).valid(),
{
    let after = before.started(h, key, request);
    let i = h.spec_index();
    assert forall|k: int| 0 <= k < after.ready.len() implies after.live(
        #[trigger] after.ready[k],
    ) by {
        assert(before.live(before.ready[k]));
    }
    assert(!before.ready.contains(h)) by {
        if before.ready.contains(h) {
            let k = choose|k: int| 0 <= k < before.ready.len() && before.ready[k] == h;
            assert(before.live(before.ready[k]));
        }
    }
    assert forall|s: int| 0 <= s < after.entries.len() implies #[trigger] after.slot_ok(
        s,
    ) by {
        assert(before.slot_ok(s));
    }
    assert forall|j: int| 0 <= j < after.ops.len() implies #[trigger] after.op_ok(j) by {
        assert(before.op_ok(j));
    }
    assert forall|t: int, k: usize|
        0 <= t < after.entries.len() implies #[trigger] after.keyed(t, k) == (if t == i {
        k == key
    } else {
        before.keyed(t, k)
    }) by {}
    assert(after.retired =~= before.retired);
    assert forall|k: usize| #[trigger] after.retires(k) == before.retires(k) by {
        assert(after.retired == before.retired);
    }
}

/// A subscription that starts.
pub proof fn lemma_subscribed(before: Model, h: Handle, op: OpId)
    requires
        before.valid(),
        before.takes(h, op),
    ensures
        before.subscribed(h, op, false).valid(),
{
    let bound = before.subscribed(h, op, false);
    let i = h.spec_index();
    assert(bound.entries =~= before.entries.update(i, bound.entries[i]));
    lemma_keys(before, bound, i);
    assert forall|k: int| 0 <= k < bound.ready.len() implies bound.live(
        #[trigger] bound.ready[k],
    ) by {
        assert(before.live(before.ready[k]));
    }
    assert forall|s: int| 0 <= s < bound.entries.len() implies #[trigger] bound.slot_ok(
        s,
    ) by {
        assert(before.slot_ok(s));
    }
    assert forall|j: int| 0 <= j < bound.ops.len() implies #[trigger] bound.op_ok(j) by {
        assert(before.op_ok(j));
    }
}

/// A watch that was looked at.
pub proof fn lemma_served(before: Model, found: Found)
    requires
        before.valid(),
        before.ready.len() > 0,
    ensures
        before.served(found).valid(),
{
    let after = before.served(found);
    let h = before.ready[0];
    let i = h.spec_index();
    assert(before.live(before.ready[0]));
    assert(before.slot_ok(i));
    lemma_pop(before.ready);
    lemma_push(before.ready.drop_first(), h);
    assert(after.entries =~= before.entries.update(i, after.entries[i]));
    lemma_keys(before, after, i);
    assert forall|k: int| 0 <= k < after.ready.len() implies after.live(
        #[trigger] after.ready[k],
    ) by {
        assert(after.ready.contains(after.ready[k]));
        assert(before.ready.contains(after.ready[k]));
        let j = choose|j: int|
            0 <= j < before.ready.len() && before.ready[j] == after.ready[k];
        assert(before.live(before.ready[j]));
    }
    assert forall|s: int| 0 <= s < after.entries.len() implies #[trigger] after.slot_ok(
        s,
    ) by {
        assert(before.slot_ok(s));
        if after.entries[s] is Some {
            let other = after.entries[s]->0.handle;
            assert(before.ready.drop_first().contains(other) <==> before.ready.contains(
                other,
            ) && other != h);
        }
    }
    assert forall|j: int| 0 <= j < after.ops.len() implies #[trigger] after.op_ok(j) by {
        assert(before.op_ok(j));
    }
}

/// A watch that closes.
pub proof fn lemma_released(before: Model, h: Handle)
    requires
        before.valid(),
        before.live(h),
    ensures
        before.released(h).valid(),
{
    let after = before.released(h);
    assert(before.slot_ok(h.spec_index()));
    lemma_remove_value(before.ready, h);
    assert forall|k: int| 0 <= k < after.ready.len() implies after.live(
        #[trigger] after.ready[k],
    ) by {
        assert(after.ready.contains(after.ready[k]));
        let j = choose|j: int|
            0 <= j < before.ready.len() && before.ready[j] == after.ready[k];
        assert(before.live(before.ready[j]));
    }
    assert forall|s: int| 0 <= s < after.entries.len() implies #[trigger] after.slot_ok(
        s,
    ) by {
        assert(before.slot_ok(s));
        if after.entries[s] is Some {
            let other = after.entries[s]->0.handle;
            assert(after.ready.contains(other) <==> before.ready.contains(other) && other
                != h);
        }
    }
    assert forall|j: int| 0 <= j < after.ops.len() implies #[trigger] after.op_ok(j) by {
        assert(before.op_ok(j));
    }
    lemma_released_keys(before, h);
}

/// The model in which a subscription ends: the kernel may have given the request back.
pub open spec fn ending(m: Model, s: int, returned: bool) -> Model {
    if returned {
        m.returned(s)
    } else {
        m
    }
}

/// A subscription that ends leaves the rest as it was.
pub proof fn lemma_ended(before: Model, s: int, returned: bool, error: Option<Error>)
    requires
        before.valid(),
        0 <= s < before.entries.len(),
        before.entries[s] is Some,
    ensures
        ending(before, s, returned).ended(s, error).valid(),
{
    let after = ending(before, s, returned).ended(s, error);
    assert(before.slot_ok(s));
    assert(after.entries =~= before.entries.update(s, after.entries[s]));
    lemma_keys(before, after, s);
    assert forall|k: int| 0 <= k < after.ready.len() implies after.live(
        #[trigger] after.ready[k],
    ) by {
        assert(before.live(before.ready[k]));
    }
    assert forall|t: int| 0 <= t < after.entries.len() implies #[trigger] after.slot_ok(t) by {
        assert(before.slot_ok(t));
        if t != s && before.entries[t] is Some && before.entries[t]->0.op is Some {
            assert(before.ops[before.entries[t]->0.op->0.spec_index()] == Some(
                before.entries[t]->0.handle,
            ));
        }
    }
    assert forall|j: int| 0 <= j < after.ops.len() implies #[trigger] after.op_ok(j) by {
        assert(before.op_ok(j));
    }
}

impl Watches {
    /// No watch, with room for so many watches and subscriptions.
    pub fn new(handles: usize, operations: usize) -> (watches: Self)
        ensures
            watches@.valid(),
            watches@.entries == Seq::new(handles as nat, |i: int| None::<Watch>),
            watches@.retired == Seq::<Retired>::empty(),
            watches@.ops == Seq::new(operations as nat, |i: int| None::<Handle>),
            watches@.ready == Seq::<Handle>::empty(),
            watches@.finished == Seq::<Ended>::empty(),
    {
        let mut entries: Vec<Option<Watch>> = Vec::new();
        let mut i: usize = 0;
        while i < handles
            invariant
                i <= handles,
                entries@ == Seq::new(i as nat, |i: int| None::<Watch>),
            decreases handles - i,
        {
            entries.push(None);
            assert(entries@ =~= Seq::new((i + 1) as nat, |i: int| None::<Watch>));
            i = i + 1;
        }
        let mut ops: Vec<Option<Handle>> = Vec::new();
        let mut j: usize = 0;
        while j < operations
            invariant
                j <= operations,
                ops@ == Seq::new(j as nat, |i: int| None::<Handle>),
            decreases operations - j,
        {
            ops.push(None);
            assert(ops@ =~= Seq::new((j + 1) as nat, |i: int| None::<Handle>));
            j = j + 1;
        }
        Watches {
            entries,
            retired: Vec::new(),
            ops,
            ready: VecDeque::new(),
            finished: VecDeque::new(),
        }
    }

    /// Whether `h` names an open watch.
    pub fn contains(&self, h: Handle) -> (found: bool)
        ensures
            found == self@.live(h),
    {
        let i = h.index();
        if i >= self.entries.len() {
            return false;
        }
        match self.entries[i] {
            Some(w) => w.handle == h,
            None => false,
        }
    }

    /// Whether a watch can open under `h`, before the system is asked for one.
    pub fn vacant(&self, h: Handle) -> (room: Result<(), Error>)
        ensures
            match room {
                Ok(_) => self@.vacant(h),
                Err(e) => !self@.vacant(h) && e == Error::plain(ErrorKind::InvalidInput),
            },
    {
        let i = h.index();
        if i >= self.entries.len() || self.entries[i].is_some() {
            return Err(invalid());
        }
        Ok(())
    }

    /// Open a watch whose first request the kernel has. Its key was never used before.
    pub fn start(&mut self, h: Handle, key: usize, request: usize) -> (done: Result<(), Error>)
        requires
            old(self)@.valid(),
            !old(self)@.used(key),
        ensures
            final(self)@.valid(),
            match done {
                Ok(_) => old(self)@.vacant(h) && final(self)@ == old(self)@.started(
                    h,
                    key,
                    request,
                ),
                Err(e) => !old(self)@.vacant(h) && e == Error::plain(ErrorKind::InvalidInput)
                    && final(self)@ == old(self)@,
            },
    {
        let ghost before = self@;
        self.vacant(h)?;
        let i = h.index();
        self.entries.set(
            i,
            Some(
                Watch {
                    handle: h,
                    key,
                    request,
                    op: None,
                    armed: true,
                    cancelling: false,
                    queued: false,
                },
            ),
        );
        proof {
            assert(self@ =~= before.started(h, key, request));
            lemma_started(before, h, key, request);
        }
        Ok(())
    }

    /// Whether the kernel has to be given a request before `h` is subscribed to: the last one
    /// came back when an earlier subscription ended.
    pub fn needs_request(&self, h: Handle) -> (needs: bool)
        ensures
            needs == (self@.live(h) && self@.at(h).op is None && !self@.at(h).armed),
    {
        if !self.contains(h) {
            return false;
        }
        match self.entries[h.index()] {
            Some(w) => w.op.is_none() && !w.armed,
            None => false,
        }
    }

    /// Subscribe. `armed` tells how a request that was needed went to the kernel: without one
    /// the subscription ends with that error. `pending` tells that something was stored before.
    pub fn submit(&mut self, request: &Request, armed: Result<(), Error>, pending: bool) -> (done:
        Result<(), Error>)
        requires
            old(self)@.valid(),
        ensures
            final(self)@.valid(),
            done is Err ==> final(self)@ == old(self)@,
            if !(request.operation is WatchFs && old(self)@.takes(request.handle, request.op)) {
                done == Err::<(), Error>(Error::plain(ErrorKind::InvalidInput))
            } else if !old(self)@.at(request.handle).armed && armed is Err {
                done is Ok && final(self)@ == old(self)@.stillborn(request.op, armed->Err_0)
            } else {
                done is Ok && final(self)@ == old(self)@.subscribed(
                    request.handle,
                    request.op,
                    pending,
                )
            },
    {
        let ghost before = self@;
        let h = request.handle;
        let op = request.op;
        match request.operation {
            Operation::WatchFs => {},
            _ => {
                return Err(invalid());
            },
        }
        if op.index() >= self.ops.len() || self.ops[op.index()].is_some() || !self.contains(h) {
            return Err(invalid());
        }
        let i = h.index();
        let Some(w) = self.entries[i] else {
            return Err(invalid());
        };
        if w.op.is_some() {
            return Err(invalid());
        }
        if !w.armed {
            if let Err(e) = armed {
                self.finished.push_back(Ended { op, error: Some(e) });
                proof {
                    assert(self@ =~= before.stillborn(op, e));
                    lemma_finished(before, self@);
                }
                return Ok(());
            }
        }
        self.entries.set(i, Some(Watch { op: Some(op), armed: true, cancelling: false, ..w }));
        self.ops.set(op.index(), Some(h));
        let ghost bound = self@;
        proof {
            assert(bound =~= before.subscribed(h, op, false));
            lemma_subscribed(before, h, op);
        }
        if pending {
            self.store(i);
        }
        Ok(())
    }

    /// The watch in slot `i` has something stored.
    fn store(&mut self, i: usize)
        requires
            old(self)@.valid(),
            i < old(self)@.entries.len(),
        ensures
            final(self)@.valid(),
            final(self)@ == old(self)@.stored(i as int),
    {
        let ghost before = self@;
        proof {
            lemma_stored(before, i as int);
        }
        if let Some(w) = self.entries[i] {
            if w.op.is_some() && !w.queued {
                self.entries.set(i, Some(Watch { queued: true, ..w }));
                self.ready.push_back(w.handle);
            }
        }
        assert(self@ =~= before.stored(i as int));
    }

    /// The subscription of the watch in slot `i` ended; `returned` tells that the kernel gave
    /// the request back with that.
    fn end(&mut self, i: usize, returned: bool, error: Option<Error>)
        requires
            old(self)@.valid(),
            i < old(self)@.entries.len(),
            old(self)@.entries[i as int] is Some,
        ensures
            final(self)@.valid(),
            final(self)@ == ending(old(self)@, i as int, returned).ended(i as int, error),
    {
        let ghost before = self@;
        proof {
            lemma_ended(before, i as int, returned, error);
            assert(before.slot_ok(i as int));
        }
        if let Some(w) = self.entries[i] {
            let armed = w.armed && !returned;
            self.entries.set(i, Some(Watch { op: None, cancelling: false, armed, ..w }));
            if let Some(op) = w.op {
                self.ops.set(op.index(), None);
                self.finished.push_back(Ended { op, error });
            }
        }
        assert(self@ =~= ending(before, i as int, returned).ended(i as int, error));
    }

    /// What cancelling `op` asks of the host first.
    pub fn cancel_target(&self, op: OpId) -> (cancel: Cancel)
        requires
            self@.valid(),
        ensures
            cancel == (if !self@.runs(op) {
                Cancel::Unknown
            } else {
                let h = self@.ops[op.spec_index()]->0;
                if self@.at(h).cancelling || !self@.at(h).armed {
                    Cancel::Plain
                } else {
                    Cancel::Native(h.spec_index() as usize)
                }
            }),
    {
        if op.index() >= self.ops.len() {
            return Cancel::Unknown;
        }
        let Some(h) = self.ops[op.index()] else {
            return Cancel::Unknown;
        };
        proof {
            assert(self@.op_ok(op.spec_index()));
        }
        let Some(w) = self.entries[h.index()] else {
            return Cancel::Unknown;
        };
        if w.op != Some(op) {
            return Cancel::Unknown;
        }
        if w.cancelling || !w.armed {
            Cancel::Plain
        } else {
            Cancel::Native(h.index())
        }
    }

    /// Begin to cancel `op`. `native` is what the kernel said to it, where it was asked: a
    /// request that it no longer finds is on its way back. What is stored for the
    /// subscription is to be dropped.
    pub fn cancel(&mut self, op: OpId, native: Result<(), Error>) -> (found: Result<bool, Error>)
        requires
            old(self)@.valid(),
        ensures
            final(self)@.valid(),
            match found {
                Err(e) => native == Err::<(), Error>(e) && e.os != Some(ERROR_NOT_FOUND)
                    && old(self)@.runs(op) && !old(self)@.at(
                    old(self)@.ops[op.spec_index()]->0,
                ).cancelling && old(self)@.at(old(self)@.ops[op.spec_index()]->0).armed
                    && final(self)@ == old(self)@,
                Ok(running) => running == old(self)@.runs(op) && final(self)@ == (if running {
                    old(self)@.cancelled(op)
                } else {
                    old(self)@
                }) && (running && !old(self)@.at(old(self)@.ops[op.spec_index()]->0).cancelling
                    && old(self)@.at(old(self)@.ops[op.spec_index()]->0).armed ==> (
                match native {
                    Err(e) => e.os == Some(ERROR_NOT_FOUND),
                    Ok(_) => true,
                })),
            },
    {
        let ghost before = self@;
        match self.cancel_target(op) {
            Cancel::Unknown => {
                return Ok(false);
            },
            Cancel::Plain => {},
            Cancel::Native(_) => {
                if let Err(e) = native {
                    if e.os != Some(ERROR_NOT_FOUND) {
                        return Err(e);
                    }
                }
            },
        }
        proof {
            assert(before.op_ok(op.spec_index()));
        }
        let Some(h) = self.ops[op.index()] else {
            return Ok(false);
        };
        let i = h.index();
        if let Some(w) = self.entries[i] {
            if !w.cancelling {
                if w.armed {
                    self.entries.set(i, Some(Watch { cancelling: true, ..w }));
                    proof {
                        lemma_marked(before, self@, i as int);
                        assert(self@ =~= before.with(i as int, Watch { cancelling: true, ..w }));
                    }
                } else {
                    self.end(i, false, None);
                }
            }
        }
        Ok(true)
    }

    /// The place of a retired watch with this key.
    fn retired_at(&self, key: usize) -> (place: Option<usize>)
        ensures
            match place {
                Some(k) => k < self@.retired.len() && self@.retired[k as int].key == key,
                None => !self@.retires(key),
            },
    {
        let mut k: usize = 0;
        while k < self.retired.len()
            invariant
                k <= self.retired@.len(),
                forall|j: int| 0 <= j < k ==> (#[trigger] self.retired@[j]).key != key,
            decreases self.retired@.len() - k,
        {
            if self.retired[k].key == key {
                return Some(k);
            }
            k = k + 1;
        }
        None
    }

    /// The slot of the open watch with this key.
    fn slot_of(&self, key: usize) -> (slot: Option<usize>)
        ensures
            match slot {
                Some(s) => s < self@.entries.len() && self@.keyed(s as int, key),
                None => forall|s: int|
                    0 <= s < self@.entries.len() ==> !#[trigger] self@.keyed(s, key),
            },
    {
        let mut s: usize = 0;
        while s < self.entries.len()
            invariant
                s <= self.entries@.len(),
                forall|t: int| 0 <= t < s ==> !#[trigger] self@.keyed(t, key),
            decreases self.entries@.len() - s,
        {
            if let Some(w) = self.entries[s] {
                if w.key == key {
                    assert(self@.keyed(s as int, key));
                    return Some(s);
                }
            }
            s = s + 1;
        }
        None
    }

    /// Apply a packet with this key about this request. `failed` is the error that it
    /// carries. A packet about another request than the expected one is refused.
    pub fn completed(&mut self, key: usize, request: usize, failed: Option<Error>) -> (out: Result<
        Completed,
        Error,
    >)
        requires
            old(self)@.valid(),
        ensures
            final(self)@.valid(),
            match out {
                Err(e) => e == Error::plain(ErrorKind::InvalidInput) && final(self)@ == old(self)@
                    && ((exists|k: int|
                    0 <= k < old(self)@.retired.len() && (#[trigger] old(self)@.retired[k]).key
                        == key && old(self)@.retired[k].request != request) || (exists|s: int|
                    0 <= s < old(self)@.entries.len() && #[trigger] old(self)@.keyed(s, key) && (
                    !old(self)@.entries[s]->0.armed || old(self)@.entries[s]->0.request
                        != request))),
                Ok(Completed::Foreign) => !old(self)@.used(key) && final(self)@ == old(self)@,
                Ok(Completed::Freed) => exists|k: int|
                    0 <= k < old(self)@.retired.len() && #[trigger] old(self)@.retired[k]
                        == (Retired { key, request }) && final(self)@ == (Model {
                        retired: old(self)@.retired.update(
                            k,
                            old(self)@.retired.last(),
                        ).drop_last(),
                        ..old(self)@
                    }),
                Ok(Completed::Done) => exists|s: int|
                    0 <= s < old(self)@.entries.len() && #[trigger] old(self)@.keyed(s, key)
                        && old(self)@.entries[s]->0.armed && old(self)@.entries[s]->0.request
                        == request && if old(self)@.entries[s]->0.cancelling {
                        final(self)@ == old(self)@.returned(s).ended(s, None)
                    } else {
                        failed is Some && final(self)@ == old(self)@.returned(s).ended(s, failed)
                    },
                Ok(Completed::Store(slot)) => slot < old(self)@.entries.len() && old(self)@.keyed(
                    slot as int,
                    key,
                ) && old(self)@.entries[slot as int]->0.armed && old(self)@.entries[slot as int]->0.request
                    == request && !old(self)@.entries[slot as int]->0.cancelling && failed is None
                    && final(self)@ == old(self)@.returned(slot as int),
            },
    {
        let ghost before = self@;
        if let Some(k) = self.retired_at(key) {
            if self.retired[k].request != request {
                assert(before.retired[k as int].request != request);
                return Err(invalid());
            }
            self.retired.swap_remove(k);
            proof {
                let after = self@;
                assert(before.retired[k as int] == (Retired { key, request }));
                let kept = before.retired.update(k as int, before.retired.last()).drop_last();
                assert(after =~= Model { retired: kept, ..before });
                lemma_unretired(before, after, k as int);
            }
            return Ok(Completed::Freed);
        }
        let Some(s) = self.slot_of(key) else {
            return Ok(Completed::Foreign);
        };
        let Some(w) = self.entries[s] else {
            return Ok(Completed::Foreign);
        };
        if !w.armed || w.request != request {
            return Err(invalid());
        }
        if w.cancelling {
            self.end(s, true, None);
            return Ok(Completed::Done);
        }
        if failed.is_some() {
            self.end(s, true, failed);
            return Ok(Completed::Done);
        }
        self.entries.set(s, Some(Watch { armed: false, ..w }));
        proof {
            lemma_marked(before, self@, s as int);
            assert(self@ =~= before.returned(s as int));
        }
        Ok(Completed::Store(s))
    }

    /// The request of the watch in slot `s` was issued again, or could not be; `pending`
    /// tells that something is stored.
    pub fn rearmed(&mut self, s: usize, result: Result<(), Error>, pending: bool)
        requires
            old(self)@.valid(),
            s < old(self)@.entries.len(),
            old(self)@.entries[s as int] is Some,
            !old(self)@.entries[s as int]->0.armed,
        ensures
            final(self)@.valid(),
            final(self)@ == (match result {
                Err(e) => old(self)@.ended(s as int, Some(e)),
                Ok(_) => {
                    let armed = old(self)@.with(
                        s as int,
                        Watch { armed: true, ..old(self)@.entries[s as int]->0 },
                    );
                    if pending {
                        armed.stored(s as int)
                    } else {
                        armed
                    }
                },
            }),
    {
        let ghost before = self@;
        match result {
            Err(e) => {
                self.end(s, false, Some(e));
            },
            Ok(_) => {
                if let Some(w) = self.entries[s] {
                    self.entries.set(s, Some(Watch { armed: true, ..w }));
                    proof {
                        lemma_marked(before, self@, s as int);
                        assert(self@ =~= before.with(s as int, Watch { armed: true, ..w }));
                    }
                    if pending {
                        self.store(s);
                    }
                }
            },
        }
    }

    /// Whether a poll would do anything without waiting; `available` tells that the pool has
    /// a buffer.
    pub fn has_work(&self, available: bool) -> (work: bool)
        ensures
            work == (self@.finished.len() > 0 || (self@.ready.len() > 0 && available)),
    {
        self.finished.len() > 0 || (self.ready.len() > 0 && available)
    }

    /// The next subscription that ended.
    pub fn take_ended<D>(&mut self) -> (event: Option<Event<D>>)
        requires
            old(self)@.valid(),
        ensures
            final(self)@.valid(),
            match event {
                Some(e) => old(self)@.finished.len() > 0 && e == end_event::<D>(
                    old(self)@.finished[0],
                ) && final(self)@ == (Model {
                    finished: old(self)@.finished.drop_first(),
                    ..old(self)@
                }),
                None => old(self)@.finished.len() == 0 && final(self)@ == old(self)@,
            },
    {
        let ghost before = self@;
        match self.finished.pop_front() {
            Some(ended) => {
                proof {
                    assert(self@ =~= Model { finished: before.finished.drop_first(), ..before });
                    lemma_finished(before, self@);
                }
                Some(
                    Event {
                        op: ended.op,
                        terminal: true,
                        result: match ended.error {
                            None => Ok(Outcome::Cancelled),
                            Some(e) => Err(e),
                        },
                    },
                )
            },
            None => None,
        }
    }

    /// Watches that wait for a buffer.
    pub fn waiting(&self) -> (n: usize)
        ensures
            n == self@.ready.len(),
    {
        self.ready.len()
    }

    /// The oldest watch that waits for a buffer.
    pub fn next(&self) -> (next: Option<Handle>)
        ensures
            next == (if self@.ready.len() > 0 {
                Some(self@.ready[0])
            } else {
                None
            }),
    {
        if self.ready.len() == 0 {
            None
        } else {
            Some(self.ready[0])
        }
    }

    /// Serve the oldest watch that waits for a buffer with what the host found in its
    /// storage. One without a running subscription leaves the queue; one that has more to
    /// tell goes behind the others.
    pub fn serve<D>(&mut self, found: Found) -> (served: Served<D>)
        requires
            old(self)@.valid(),
            old(self)@.ready.len() > 0,
        ensures
            final(self)@.valid(),
            final(self)@ == old(self)@.served(found),
            ({
                let w = old(self)@.at(old(self)@.ready[0]);
                match (w.op, found) {
                    (Some(op), Found::Batch { lease, overflow, .. }) => served == if w.cancelling {
                        Served::<D>::Nothing
                    } else {
                        Served::<D>::Event(batch_event(op, lease, overflow))
                    },
                    (Some(_), Found::NoBuffer) => served == if w.cancelling {
                        Served::<D>::Nothing
                    } else {
                        Served::<D>::Waits
                    },
                    _ => served == Served::<D>::Nothing,
                }
            }),
    {
        let ghost before = self@;
        let h = self.ready[0];
        let i = h.index();
        proof {
            assert(before.live(before.ready[0]));
            assert(before.slot_ok(i as int));
            lemma_pop(before.ready);
        }
        let Some(w) = self.entries[i] else {
            return Served::Nothing;
        };
        let mut event: Option<Event<D>> = None;
        let mut more_left: bool = false;
        if let Some(op) = w.op {
            if !w.cancelling {
                match found {
                    Found::NoBuffer => {
                        return Served::Waits;
                    },
                    Found::Empty => {},
                    Found::Batch { lease, overflow, more } => {
                        event = Some(
                            Event {
                                op,
                                terminal: false,
                                result: Ok(Outcome::Watch { events: lease, overflow }),
                            },
                        );
                        more_left = more;
                    },
                }
            }
        }
        self.ready.pop_front();
        if more_left {
            self.ready.push_back(h);
        } else {
            self.entries.set(i, Some(Watch { queued: false, ..w }));
        }
        proof {
            assert(self@ =~= before.served(found));
            lemma_served(before, found);
        }
        match event {
            Some(e) => Served::Event(e),
            None => Served::Nothing,
        }
    }

    /// Close a watch. Tells whether the kernel still has its request: it is to be
    /// cancelled, and the storage stays until its packet comes.
    pub fn release(&mut self, h: Handle) -> (retired: bool)
        requires
            old(self)@.valid(),
        ensures
            final(self)@.valid(),
            retired == (old(self)@.live(h) && old(self)@.at(h).armed),
            final(self)@ == (if old(self)@.live(h) {
                old(self)@.released(h)
            } else {
                old(self)@
            }),
    {
        let ghost before = self@;
        if !self.contains(h) {
            return false;
        }
        let i = h.index();
        let Some(w) = self.entries[i] else {
            return false;
        };
        proof {
            assert(before.slot_ok(i as int));
            lemma_remove_value(before.ready, h);
        }
        self.entries.set(i, None);
        if w.queued {
            remove_handle(&mut self.ready, h);
        }
        if let Some(op) = w.op {
            self.ops.set(op.index(), None);
        }
        if w.armed {
            self.retired.push(Retired { key: w.key, request: w.request });
        }
        proof {
            assert(self@ =~= before.released(h));
            lemma_released(before, h);
        }
        w.armed
    }

    /// The loop goes: every request that the kernel has is being cancelled.
    pub fn shutdown(&mut self)
        requires
            old(self)@.valid(),
        ensures
            final(self)@.valid(),
            final(self)@ == (Model {
                entries: old(self)@.entries.map_values(
                    |e: Option<Watch>|
                        match e {
                            Some(w) => Some(Watch { cancelling: w.cancelling || w.armed, ..w }),
                            None => None,
                        },
                ),
                ..old(self)@
            }),
    {
        let ghost before = self@;
        let ghost mark = |e: Option<Watch>|
            match e {
                Some(w) => Some(Watch { cancelling: w.cancelling || w.armed, ..w }),
                None => None,
            };
        let n: usize = self.entries.len();
        let mut s: usize = 0;
        while s < n
            invariant
                s <= n,
                n == before.entries.len(),
                self@.valid(),
                mark == (|e: Option<Watch>|
                    match e {
                        Some(w) => Some(Watch { cancelling: w.cancelling || w.armed, ..w }),
                        None => None,
                    }),
                self@.entries.len() == n,
                self@ == (Model { entries: self@.entries, ..before }),
                forall|t: int| 0 <= t < s ==> #[trigger] self@.entries[t] == mark(before.entries[t]),
                forall|t: int| s <= t < n ==> #[trigger] self@.entries[t] == before.entries[t],
            decreases n - s,
        {
            let ghost now = self@;
            if let Some(w) = self.entries[s] {
                proof {
                    assert(now.slot_ok(s as int));
                }
                let cancelling = w.cancelling || w.armed;
                self.entries.set(s, Some(Watch { cancelling, ..w }));
                proof {
                    lemma_marked(now, self@, s as int);
                }
            }
            s = s + 1;
        }
        assert(self@.entries =~= before.entries.map_values(mark));
    }

    /// Whether the kernel still has a request of some watch.
    pub fn pending(&self) -> (yes: bool)
        ensures
            yes == self@.pending(),
    {
        if self.retired.len() > 0 {
            return true;
        }
        let mut s: usize = 0;
        while s < self.entries.len()
            invariant
                s <= self.entries@.len(),
                forall|t: int|
                    0 <= t < s ==> !((#[trigger] self.entries@[t]) is Some
                        && self.entries@[t]->0.armed),
            decreases self.entries@.len() - s,
        {
            if let Some(w) = self.entries[s] {
                if w.armed {
                    assert(self@.entries[s as int] is Some);
                    return true;
                }
            }
            s = s + 1;
        }
        false
    }
}

/// Freeing a retired watch keeps the keys apart.
proof fn lemma_unretired(before: Model, after: Model, k: int)
    requires
        before.valid(),
        0 <= k < before.retired.len(),
        after == (Model {
            retired: before.retired.update(k, before.retired.last()).drop_last(),
            ..before
        }),
    ensures
        after.valid(),
{
    let n = before.retired.len();
    assert forall|j: int| 0 <= j < after.retired.len() implies #[trigger] after.retired[j]
        == before.retired[if j == k {
        n - 1
    } else {
        j
    }] by {}
    assert forall|key: usize| #[trigger] after.retires(key) implies before.retires(key) by {
        let j = choose|j: int| 0 <= j < after.retired.len() && (#[trigger] after.retired[j]).key
            == key;
        let from = if j == k { n - 1 } else { j };
        assert(before.retired[from].key == key);
    }
    assert forall|i: int, j: int|
        0 <= i < after.retired.len() && 0 <= j < after.retired.len() && (
        #[trigger] after.retired[i]).key == (#[trigger] after.retired[j]).key implies i == j by {
        let from_i = if i == k { n - 1 } else { i };
        let from_j = if j == k { n - 1 } else { j };
        assert(before.retired[from_i].key == before.retired[from_j].key);
    }
    assert forall|t: int, key: usize| 0 <= t < after.entries.len() implies #[trigger] after.keyed(
        t,
        key,
    ) == before.keyed(t, key) by {}
    assert forall|j: int| 0 <= j < after.ready.len() implies after.live(
        #[trigger] after.ready[j],
    ) by {
        assert(before.live(before.ready[j]));
    }
    assert forall|t: int| 0 <= t < after.entries.len() implies #[trigger] after.slot_ok(t) by {
        assert(before.slot_ok(t));
    }
    assert forall|j: int| 0 <= j < after.ops.len() implies #[trigger] after.op_ok(j) by {
        assert(before.op_ok(j));
    }
}

/// Retiring a watch keeps the keys apart.
proof fn lemma_released_keys(before: Model, h: Handle)
    requires
        before.valid(),
        before.live(h),
    ensures
        before.released(h).keys_apart(),
{
    let after = before.released(h);
    let w = before.at(h);
    let i = h.spec_index();
    assert(before.keyed(i, w.key));
    assert forall|t: int, key: usize| 0 <= t < after.entries.len() implies #[trigger] after.keyed(
        t,
        key,
    ) == (t != i && before.keyed(t, key)) by {}
    assert forall|key: usize| #[trigger] after.retires(key) implies before.retires(key) || (w.armed
        && key == w.key) by {
        let j = choose|j: int| 0 <= j < after.retired.len() && (#[trigger] after.retired[j]).key
            == key;
        if j < before.retired.len() {
            assert(before.retired[j].key == key);
        }
    }
    assert forall|j: int, k: int|
        0 <= j < after.retired.len() && 0 <= k < after.retired.len() && (
        #[trigger] after.retired[j]).key == (#[trigger] after.retired[k]).key implies j == k by {
        let n = before.retired.len();
        if j < n && k < n {
            assert(before.retired[j].key == before.retired[k].key);
        } else if j < n {
            assert(before.retired[j].key == w.key);
            assert(before.retires(w.key));
        } else if k < n {
            assert(before.retired[k].key == w.key);
            assert(before.retires(w.key));
        }
    }
}

/// A released watch is not forgotten while the kernel has its request.
pub proof fn law_storage_outlives_the_request(m: Model, h: Handle)
    requires
        m.valid(),
        m.live(h),
        m.at(h).armed,
    ensures
        m.released(h).retires(m.at(h).key),
        m.released(h).pending(),
{
    let after = m.released(h);
    assert(after.retired[m.retired.len() as int].key == m.at(h).key);
}

/// A cancelled subscription ends with its acknowledgement alone: no batch is handed to it,
/// and its end is queued once the kernel has no request.
pub proof fn law_cancelled_watch_is_silent(m: Model, op: OpId)
    requires
        m.valid(),
        m.runs(op),
        !m.at(m.ops[op.spec_index()]->0).cancelling,
        m.at(m.ops[op.spec_index()]->0).armed,
    ensures
        ({
            let s = m.ops[op.spec_index()]->0.spec_index();
            let after = m.cancelled(op);
            &&& after.entries[s]->0.cancelling
            &&& after.finished == m.finished
            &&& after.returned(s).ended(s, None).finished == m.finished.push(
                Ended { op, error: None },
            )
            &&& !after.returned(s).ended(s, None).runs(op)
        }),
{
}

/// Every subscription that is cancelled ends: at once where the kernel has no request, and
/// with the packet of its request otherwise, whatever that packet says. What it ends with is
/// owed to the host.
pub proof fn law_cancelled_subscription_ends(m: Model, op: OpId)
    requires
        m.valid(),
        m.runs(op),
    ensures
        ({
            let s = m.ops[op.spec_index()]->0.spec_index();
            let after = m.cancelled(op);
            let done = if after.entries[s]->0.armed {
                after.returned(s).ended(s, None)
            } else {
                after
            };
            &&& after.entries[s]->0.armed ==> after.entries[s]->0.cancelling && after.finished
                == m.finished
            &&& done.finished == m.finished.push(Ended { op, error: None })
            &&& !done.runs(op)
            &&& !done.entries[s]->0.cancelling
        }),
{
    let h = m.ops[op.spec_index()]->0;
    assert(m.slot_ok(h.spec_index()));
}

/// A watch whose subscription ended takes another one, which starts afresh: the kernel has a
/// request for it and nothing of the earlier cancellation is left.
pub proof fn law_subscription_starts_afresh(m: Model, h: Handle, op: OpId, pending: bool)
    requires
        m.valid(),
        m.takes(h, op),
    ensures
        m.subscribed(h, op, pending).runs(op),
        m.subscribed(h, op, pending).at(h).armed,
        !m.subscribed(h, op, pending).at(h).cancelling,
{
}

/// A second cancellation changes nothing.
pub proof fn law_cancelling_twice_is_cancelling_once(m: Model, op: OpId)
    requires
        m.valid(),
        m.runs(op),
        m.at(m.ops[op.spec_index()]->0).armed,
    ensures
        m.cancelled(op).cancelled(op) == m.cancelled(op),
{
}

/// How a subscription ended is told once and for the last time: as cancelled, or with its error.
pub proof fn law_ends_are_told_as_they_are<D>(ended: Ended)
    ensures
        end_event::<D>(ended).op == ended.op,
        end_event::<D>(ended).terminal,
        ended.error is None ==> end_event::<D>(ended).result == Ok::<Outcome<D>, Error>(
            Outcome::Cancelled,
        ),
        ended.error is Some ==> end_event::<D>(ended).result == Err::<Outcome<D>, Error>(
            ended.error->0,
        ),
{
}

/// A subscription is under its full identity, its request is with the kernel, and what was told
/// before it is not lost: the watch is in line then.
pub proof fn law_subscription_is_bound(m: Model, h: Handle, op: OpId, pending: bool)
    requires
        m.valid(),
        m.takes(h, op),
    ensures
        ({
            let n = m.subscribed(h, op, pending);
            &&& n.runs(op)
            &&& n.at(h).op == Some(op) && n.at(h).armed && !n.at(h).cancelling
            &&& n.at(h).key == m.at(h).key && n.at(h).request == m.at(h).request
            &&& pending ==> n.ready.contains(h)
            &&& !pending ==> n.ready == m.ready
            &&& n.finished == m.finished && n.retired == m.retired
        }),
{
    assert(m.slot_ok(h.spec_index()));
    let n = m.subscribed(h, op, pending);
    if pending && !m.at(h).queued {
        assert(n.ready[m.ready.len() as int] == h);
    }
}

/// A change that is stored for a subscribed watch puts it in line, behind those that are; one that
/// nobody subscribed to stays where it is.
pub proof fn law_changed_watch_is_in_line(m: Model, h: Handle)
    requires
        m.valid(),
        m.live(h),
    ensures
        ({
            let n = m.stored(h.spec_index());
            &&& m.at(h).op is Some ==> n.ready.contains(h) && n.at(h).queued
            &&& m.at(h).op is Some && !m.at(h).queued ==> n.ready == m.ready.push(h)
            &&& m.at(h).op is None ==> n == m
            &&& n.at(h).op == m.at(h).op && n.at(h).armed == m.at(h).armed
        }),
{
    assert(m.slot_ok(h.spec_index()));
    if m.at(h).op is Some && !m.at(h).queued {
        let n = m.stored(h.spec_index());
        assert(n.ready[m.ready.len() as int] == h);
    }
}

/// A watch that has more to tell goes behind all others, one that told everything leaves the line,
/// and one without a buffer keeps its place.
pub proof fn law_served_watch_leaves_the_line(m: Model, lease: Lease, overflow: bool, found: Found)
    requires
        m.valid(),
        m.ready.len() > 0,
    ensures
        ({
            let h = m.ready[0];
            let open = m.at(h).op is Some && !m.at(h).cancelling;
            let more = m.served(Found::Batch { lease, overflow, more: true });
            let done = m.served(Found::Batch { lease, overflow, more: false });
            &&& open ==> more.ready == m.ready.drop_first().push(h)
            &&& open ==> m.served(Found::NoBuffer) == m
            &&& done.ready == m.ready.drop_first() && !done.at(h).queued
            &&& m.served(Found::Empty).ready == m.ready.drop_first()
            &&& !open ==> m.served(found).ready == m.ready.drop_first()
            &&& done.at(h).op == m.at(h).op && done.at(h).armed == m.at(h).armed
        }),
{
}

/// A released watch is gone from its slot, from its subscription and from the line. Its storage
/// stays for as long as the kernel has its request, and no longer.
pub proof fn law_released_watch_is_gone(m: Model, h: Handle)
    requires
        m.valid(),
        m.live(h),
    ensures
        ({
            let w = m.at(h);
            let n = m.released(h);
            &&& !n.live(h)
            &&& !n.ready.contains(h)
            &&& w.op is Some ==> !n.runs(w.op->0)
            &&& w.armed ==> n.retired == m.retired.push(Retired { key: w.key, request: w.request })
            &&& !w.armed ==> n.retired == m.retired
        }),
{
    assert(m.slot_ok(h.spec_index()));
    crate::queues::lemma_remove_value(m.ready, h);
}

/// A subscription whose request could not be made is told its error, behind what is told before, and
/// leaves the watch as it was. One that ended is told why, and the watch can be subscribed to again.
pub proof fn law_failed_subscription_is_told(m: Model, op: OpId, error: Error, h: Handle, why: Option<Error>)
    requires
        m.valid(),
        m.live(h),
    ensures
        m.stillborn(op, error).finished == m.finished.push(Ended { op, error: Some(error) }),
        m.stillborn(op, error).entries == m.entries && m.stillborn(op, error).ops == m.ops,
        m.at(h).op is Some ==> {
            let own = m.at(h).op->0;
            let n = m.ended(h.spec_index(), why);
            &&& n.finished == m.finished.push(Ended { op: own, error: why })
            &&& n.ops[own.spec_index()] is None
            &&& n.at(h).op is None && !n.at(h).cancelling && n.at(h).armed == m.at(h).armed
        },
        m.at(h).op is None ==> m.ended(h.spec_index(), why).finished == m.finished,
        !m.returned(h.spec_index()).at(h).armed,
        m.returned(h.spec_index()).at(h).op == m.at(h).op,
{
    assert(m.slot_ok(h.spec_index()));
}

} // verus!
