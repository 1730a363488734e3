//! The completion engine of readiness backends. Each direction of a resource has
//! a first-in first-out queue of operations; readiness stays cached until a call
//! would have blocked.
use crate::lanes::{lane_of, Lanes};
use crate::payload::{lemma_payload_nonnegative, payload, Attempt};
use crate::queues::{lemma_pop, lemma_push, lemma_remove_value, remove_handle};
use crate::types::{
    cancelled_event, invalid, unsupported, Completions, Direction, Error, ErrorKind, Event, Handle,
    OpId, Operation, Outcome, ReadBuf, Request, SLOT_SPAN,
};
use crate::readiness::io::{
    answers, conclude, concluded, in_bounds, interruption, is_interruption, needs, plan, Call,
    Kind, Pending, Progress, Reply, Resource, Rules,
};
use std::collections::VecDeque;
use vstd::prelude::*;

verus! {

/// Where a pass over the ready queue stands.
#[derive(Clone, Copy, Debug, PartialEq, Eq, Structural)]
pub enum Phase {
    /// Between handles.
    Idle,
    /// About to look at one direction of a handle.
    Lane { handle: Handle, direction: Direction },
    /// The host performs the call of the operation in `slot`.
    Running { handle: Handle, direction: Direction, slot: usize },
}

/// What a pass wants from the host.
#[derive(Clone, Copy, Debug, PartialEq, Eq, Structural)]
pub enum Step {
    /// Ask again.
    Again,
    /// Perform the call of this operation and report its reply.
    Execute { handle: Handle, direction: Direction, slot: usize },
    /// The pass is over.
    Done,
}

/// The engine as plain mathematics: queues are sequences.
#[verifier::ext_equal]
pub struct Model {
    pub resources: Seq<Option<Resource>>,
    pub ops: Seq<Option<Pending>>,
    /// Two queues of operation slots for each resource slot: input, then output.
    pub lanes: Seq<Seq<usize>>,
    pub ready: Seq<Handle>,
    pub cancelled: Seq<OpId>,
    pub phase: Phase,
}

/// The queue a request belongs to.
pub open spec fn home(request: Request) -> int {
    lane_of(request.handle, request.operation.spec_direction())
}

/// What stands in a slot for something that was given up elsewhere, until that is told. It is
/// no operation of a resource.
pub open spec fn given_up(op: OpId) -> Pending {
    Pending {
        request: Request { op, handle: Handle { owner: 0, key: 0 }, operation: Operation::Shutdown },
        offset: 0,
        flushing: false,
        cancelled: true,
    }
}

impl Model {
    /// The slot of `h` holds exactly this generation of it.
    pub open spec fn live(self, h: Handle) -> bool {
        &&& h.spec_index() < self.resources.len()
        &&& self.resources[h.spec_index()] matches Some(r) && r.handle == h
    }

    /// The slot of `op` holds exactly this generation of it.
    pub open spec fn holds(self, op: OpId) -> bool {
        &&& op.spec_index() < self.ops.len()
        &&& self.ops[op.spec_index()] matches Some(p) && p.request.op == op
    }

    /// Some operation of the resource in slot `s` can be tried now.
    pub open spec fn runnable(self, s: int) -> bool {
        self.resources[s] matches Some(r) && {
            ||| r.ready_in && self.lanes[2 * s].len() > 0
            ||| r.ready_out && self.lanes[2 * s + 1].len() > 0
        }
    }

    /// A pass is in the middle of this handle.
    pub open spec fn busy(self, h: Handle) -> bool {
        match self.phase {
            Phase::Idle => false,
            Phase::Lane { handle, .. } => handle == h,
            Phase::Running { handle, .. } => handle == h,
        }
    }

    /// An empty slot has empty queues. An occupied one is queued whenever it can
    /// make progress, so no readiness is lost; only `spare` may still miss that.
    pub open spec fn slot_ok(self, s: int, spare: Option<Handle>) -> bool {
        match self.resources[s] {
            None => self.lanes[2 * s].len() == 0 && self.lanes[2 * s + 1].len() == 0,
            Some(r) => {
                &&& r.handle.spec_index() == s
                &&& r.queued ==> self.ready.contains(r.handle)
                &&& self.runnable(s) && !self.busy(r.handle) && spare != Some(r.handle)
                    ==> r.queued
            },
        }
    }

    /// An operation waits in its own queue, or for its cancellation acknowledgement.
    pub open spec fn op_ok(self, i: int) -> bool {
        self.ops[i] matches Some(p) ==> {
            &&& p.request.op.spec_index() == i
            &&& in_bounds(p)
            &&& if p.cancelled {
                self.cancelled.contains(p.request.op)
            } else {
                &&& self.live(p.request.handle)
                &&& self.lanes[home(p.request)].contains(i as usize)
            }
        }
    }

    /// Every queue entry is a waiting operation of that queue.
    pub open spec fn entry_ok(self, l: int, k: int) -> bool {
        let i = self.lanes[l][k] as int;
        &&& i < self.ops.len()
        &&& self.ops[i] matches Some(p) && !p.cancelled && home(p.request) == l
    }

    /// Every queued handle is live and knows that it is queued.
    pub open spec fn ready_ok(self, k: int) -> bool {
        &&& self.live(self.ready[k])
        &&& self.resources[self.ready[k].spec_index()]->0.queued
    }

    /// Every owed acknowledgement belongs to an operation that is still held.
    pub open spec fn owed_ok(self, k: int) -> bool {
        &&& self.holds(self.cancelled[k])
        &&& self.ops[self.cancelled[k].spec_index()]->0.cancelled
    }

    pub open spec fn phase_ok(self) -> bool {
        match self.phase {
            Phase::Idle => true,
            Phase::Lane { handle, .. } => self.live(handle)
                && !self.resources[handle.spec_index()]->0.queued,
            Phase::Running { handle, direction, slot } => {
                let lane = self.lanes[lane_of(handle, direction)];
                &&& self.live(handle)
                &&& !self.resources[handle.spec_index()]->0.queued
                &&& lane.len() > 0 && lane[0] == slot
            },
        }
    }

    /// What every operation of the engine keeps.
    pub open spec fn valid(self) -> bool {
        self.valid_but(None)
    }

    /// A valid engine, but that `spare` may still have to be scheduled.
    pub open spec fn valid_but(self, spare: Option<Handle>) -> bool {
        &&& self.lanes.len() == 2 * self.resources.len()
        &&& self.ready.no_duplicates()
        &&& self.cancelled.no_duplicates()
        &&& forall|l: int| 0 <= l < self.lanes.len() ==> (#[trigger] self.lanes[l]).no_duplicates()
        &&& forall|s: int| 0 <= s < self.resources.len() ==> #[trigger] self.slot_ok(s, spare)
        &&& forall|i: int| 0 <= i < self.ops.len() ==> #[trigger] self.op_ok(i)
        &&& forall|l: int, k: int|
            0 <= l < self.lanes.len() && 0 <= k < self.lanes[l].len() ==> #[trigger] self.entry_ok(
                l,
                k,
            )
        &&& forall|k: int| 0 <= k < self.ready.len() ==> #[trigger] self.ready_ok(k)
        &&& forall|k: int| 0 <= k < self.cancelled.len() ==> #[trigger] self.owed_ok(k)
        &&& self.phase_ok()
    }

    /// Queue a handle that can make progress and is not queued yet.
    pub open spec fn scheduled(self, h: Handle) -> Model {
        let s = h.spec_index();
        if self.live(h) && !self.resources[s]->0.queued && self.runnable(s) {
            Model {
                resources: self.resources.update(
                    s,
                    Some(Resource { queued: true, ..self.resources[s]->0 }),
                ),
                ready: self.ready.push(h),
                ..self
            }
        } else {
            self
        }
    }

    /// A new resource, assumed ready until a call says otherwise.
    pub open spec fn installed(self, h: Handle, kind: Kind, connect: bool) -> Model {
        Model {
            resources: self.resources.update(
                h.spec_index(),
                Some(
                    Resource {
                        handle: h,
                        kind,
                        connect,
                        connecting: false,
                        ready_in: true,
                        ready_out: true,
                        queued: false,
                    },
                ),
            ),
            ..self
        }
    }

    /// A new operation at the end of its queue.
    pub open spec fn submitted(self, request: Request) -> Model {
        let i = request.op.spec_index();
        let l = home(request);
        Model {
            ops: self.ops.update(i, Some(Pending { request, offset: 0, flushing: false, cancelled: false })),
            lanes: self.lanes.update(l, self.lanes[l].push(i as usize)),
            ..self
        }.scheduled(request.handle)
    }

    /// The resources once an operation left its queue. Where the host reports what was started,
    /// nothing more is reported of the oldest one: its direction is tried again, for the next.
    pub open spec fn retried(self, op: OpId, rules: Rules) -> Seq<Option<Resource>> {
        let request = self.ops[op.spec_index()]->0.request;
        let s = request.handle.spec_index();
        if rules is Async && self.lanes[home(request)][0] == op.spec_index() {
            self.resources.update(
                s,
                Some(self.resources[s]->0.refreshed(request.operation.spec_direction())),
            )
        } else {
            self.resources
        }
    }

    /// An operation taken out of its queue and owed an acknowledgement.
    pub open spec fn withdrawn(self, op: OpId, rules: Rules) -> Model {
        let i = op.spec_index();
        let p = self.ops[i]->0;
        let l = home(p.request);
        Model {
            resources: self.retried(op, rules),
            ops: self.ops.update(i, Some(Pending { cancelled: true, ..p })),
            lanes: self.lanes.update(l, self.lanes[l].remove_value(i as usize)),
            cancelled: self.cancelled.push(op),
            ..self
        }.scheduled(p.request.handle)
    }

    /// An acknowledgement is owed to something that was given up elsewhere.
    pub open spec fn indebted(self, op: OpId) -> Model {
        Model {
            ops: self.ops.update(op.spec_index(), Some(given_up(op))),
            cancelled: self.cancelled.push(op),
            ..self
        }
    }

    /// The oldest acknowledgement delivered.
    pub open spec fn acknowledged(self) -> Model {
        Model {
            ops: self.ops.update(self.cancelled[0].spec_index(), None),
            cancelled: self.cancelled.drop_first(),
            ..self
        }
    }

    /// The `n` oldest acknowledgements delivered.
    pub open spec fn drained(self, n: nat) -> Model
        decreases n,
    {
        if n == 0 {
            self
        } else {
            self.drained((n - 1) as nat).acknowledged()
        }
    }

    /// A native readiness report for the generation that `key` names.
    pub open spec fn marked(self, key: u64, read: bool, write: bool) -> Model {
        let s = (key % SLOT_SPAN) as int;
        if s < self.resources.len() && (self.resources[s] matches Some(r) && r.handle.key == key) {
            let r = self.resources[s]->0;
            Model {
                resources: self.resources.update(
                    s,
                    Some(
                        Resource {
                            ready_in: r.ready_in || read,
                            ready_out: r.ready_out || write,
                            ..r
                        },
                    ),
                ),
                ..self
            }.scheduled(r.handle)
        } else {
            self
        }
    }

    /// The directions with operations of the first `n` slots.
    pub open spec fn interests(self, n: int) -> Seq<(Handle, Direction)>
        decreases n,
    {
        if n <= 0 {
            Seq::empty()
        } else {
            let before = self.interests(n - 1);
            match self.resources[n - 1] {
                Some(r) => before + (if self.lanes[2 * (n - 1)].len() > 0 {
                    seq![(r.handle, Direction::In)]
                } else {
                    Seq::empty()
                }) + (if self.lanes[2 * (n - 1) + 1].len() > 0 {
                    seq![(r.handle, Direction::Out)]
                } else {
                    Seq::empty()
                }),
                None => before,
            }
        }
    }

    /// A resource gone from its slot and from the ready queue.
    pub open spec fn removed(self, h: Handle) -> Model {
        Model {
            resources: self.resources.update(h.spec_index(), None),
            ready: self.ready.remove_value(h),
            ..self
        }
    }

    /// The oldest ready handle becomes the one that a pass works on.
    pub open spec fn popped(self) -> Model {
        let h = self.ready[0];
        let s = h.spec_index();
        Model {
            resources: self.resources.update(
                s,
                Some(Resource { queued: false, ..self.resources[s]->0 }),
            ),
            ready: self.ready.drop_first(),
            phase: Phase::Lane { handle: h, direction: Direction::In },
            ..self
        }
    }

    /// Done with one direction of a handle: the other one follows, then the handle
    /// is queued again if it can still make progress.
    pub open spec fn passed(self, h: Handle, d: Direction) -> Model {
        match d {
            Direction::In => Model {
                phase: Phase::Lane { handle: h, direction: Direction::Out },
                ..self
            },
            Direction::Out => Model { phase: Phase::Idle, ..self }.scheduled(h),
        }
    }

    /// One step of a pass with `budget` handles and `room` for a completion left.
    pub open spec fn advanced(self, budget: nat, room: bool) -> (Model, nat, Step) {
        match self.phase {
            Phase::Idle => if budget == 0 || !room || self.ready.len() == 0 {
                (self, budget, Step::Done)
            } else {
                (self.popped(), (budget - 1) as nat, Step::Again)
            },
            Phase::Lane { handle, direction } => {
                let lane = self.lanes[lane_of(handle, direction)];
                let r = self.resources[handle.spec_index()]->0;
                if room && r.spec_ready(direction) && lane.len() > 0 {
                    let slot = lane[0];
                    (
                        Model { phase: Phase::Running { handle, direction, slot }, ..self },
                        budget,
                        Step::Execute { handle, direction, slot },
                    )
                } else {
                    (self.passed(handle, direction), budget, Step::Again)
                }
            },
            Phase::Running { .. } => (self, budget, Step::Done),
        }
    }

    /// The engine and the completion after the running operation was answered.
    pub open spec fn settled<D>(self, reply: Reply<D>, rules: Rules) -> (Model, Option<Event<D>>) {
        match self.phase {
            Phase::Running { handle, direction, slot } => {
                let s = handle.spec_index();
                let i = slot as int;
                let p = self.ops[i]->0;
                let l = lane_of(handle, direction);
                let (r, progress, attempt) = concluded(self.resources[s]->0, p, reply, rules);
                let kept = Model {
                    resources: self.resources.update(s, Some(r)),
                    ops: self.ops.update(i, Some(moved(p, progress))),
                    ..self
                };
                let ended = Model {
                    resources: self.resources.update(s, Some(r)),
                    ops: self.ops.update(i, None),
                    lanes: self.lanes.update(l, self.lanes[l].remove_value(slot)),
                    ..self
                };
                match verdict(attempt, p.request.op, rules) {
                    Verdict::Report(event) => if event.terminal {
                        (ended.passed(handle, direction), Some(event))
                    } else {
                        (kept.passed(handle, direction), Some(event))
                    },
                    Verdict::Keep => (kept.passed(handle, direction), None),
                    Verdict::Block => (
                        Model {
                            resources: self.resources.update(s, Some(r.blocked(direction))),
                            ..kept
                        }.passed(handle, direction),
                        None,
                    ),
                }
            },
            _ => (self, None),
        }
    }
}

/// Scheduling the one handle that may have missed it restores validity.
proof fn lemma_scheduled(m: Model, h: Handle)
    requires
        m.valid_but(Some(h)),
        !m.busy(h),
    ensures
        m.scheduled(h).valid(),
{
    let n = m.scheduled(h);
    let s = h.spec_index();
    if n != m {
        assert(!m.ready.contains(h)) by {
            if m.ready.contains(h) {
                let k = choose|k: int| 0 <= k < m.ready.len() && m.ready[k] == h;
                assert(m.ready_ok(k));
            }
        }
        lemma_push(m.ready, h);
        assert forall|t: int| 0 <= t < n.resources.len() implies #[trigger] n.slot_ok(t, None) by {
            assert(m.slot_ok(t, Some(h)));
            if t == s {
                assert(n.ready.contains(h));
            }
        }
        assert forall|i: int| 0 <= i < n.ops.len() implies #[trigger] n.op_ok(i) by {
            assert(m.op_ok(i));
        }
        assert forall|l: int, k: int|
            0 <= l < n.lanes.len() && 0 <= k < n.lanes[l].len() implies #[trigger] n.entry_ok(
            l,
            k,
        ) by {
            assert(m.entry_ok(l, k));
        }
        assert forall|k: int| 0 <= k < n.ready.len() implies #[trigger] n.ready_ok(k) by {
            if k < m.ready.len() {
                assert(m.ready_ok(k));
            }
        }
        assert forall|k: int| 0 <= k < n.cancelled.len() implies #[trigger] n.owed_ok(k) by {
            assert(m.owed_ok(k));
        }
    } else {
        assert forall|t: int| 0 <= t < n.resources.len() implies #[trigger] n.slot_ok(t, None) by {
            assert(m.slot_ok(t, Some(h)));
        }
    }
}

/// A fresh resource in a free slot keeps the engine valid.
pub(crate) proof fn lemma_installed(m: Model, h: Handle, kind: Kind, connect: bool)
    requires
        m.valid(),
        m.phase == Phase::Idle,
        h.spec_index() < m.resources.len(),
        m.resources[h.spec_index()] is None,
    ensures
        m.installed(h, kind, connect).valid(),
{
    let n = m.installed(h, kind, connect);
    let s = h.spec_index();
    assert(m.slot_ok(s, None));
    assert forall|t: int| 0 <= t < n.resources.len() implies #[trigger] n.slot_ok(t, None) by {
        assert(m.slot_ok(t, None));
    }
    assert forall|i: int| 0 <= i < n.ops.len() implies #[trigger] n.op_ok(i) by {
        assert(m.op_ok(i));
    }
    assert forall|l: int, k: int|
        0 <= l < n.lanes.len() && 0 <= k < n.lanes[l].len() implies #[trigger] n.entry_ok(l, k) by {
        assert(m.entry_ok(l, k));
    }
    assert forall|k: int| 0 <= k < n.ready.len() implies #[trigger] n.ready_ok(k) by {
        assert(m.ready_ok(k));
    }
    assert forall|k: int| 0 <= k < n.cancelled.len() implies #[trigger] n.owed_ok(k) by {
        assert(m.owed_ok(k));
    }
}

/// A free operation slot stands in no queue and is owed nothing.
pub proof fn law_free_slot_is_silent(m: Model, i: int)
    requires
        m.valid(),
        0 <= i < m.ops.len(),
        m.ops[i] is None,
    ensures
        forall|l: int|
            0 <= l < m.lanes.len() ==> !(#[trigger] m.lanes[l]).contains(i as usize) || i
                > usize::MAX,
        forall|op: OpId| #[trigger] m.cancelled.contains(op) ==> op.spec_index() != i,
{
    assert forall|l: int| 0 <= l < m.lanes.len() implies !(#[trigger] m.lanes[l]).contains(
        i as usize,
    ) || i > usize::MAX by {
        if m.lanes[l].contains(i as usize) && i <= usize::MAX {
            let k = choose|k: int| 0 <= k < m.lanes[l].len() && m.lanes[l][k] == i as usize;
            assert(m.entry_ok(l, k));
        }
    }
    assert forall|op: OpId| #[trigger] m.cancelled.contains(op) implies op.spec_index() != i by {
        let k = choose|k: int| 0 <= k < m.cancelled.len() && m.cancelled[k] == op;
        assert(m.owed_ok(k));
    }
}

/// Accepting a request keeps the engine valid.
pub(crate) proof fn lemma_submitted(m: Model, request: Request)
    requires
        m.valid(),
        m.phase == Phase::Idle,
        m.live(request.handle),
        request.op.spec_index() < m.ops.len(),
        m.ops.len() <= usize::MAX,
        m.ops[request.op.spec_index()] is None,
        in_bounds(Pending { request, offset: 0, flushing: false, cancelled: false }),
    ensures
        m.submitted(request).valid(),
{
    let i = request.op.spec_index();
    let l = home(request);
    let h = request.handle;
    let n = Model {
        ops: m.ops.update(i, Some(Pending { request, offset: 0, flushing: false, cancelled: false })),
        lanes: m.lanes.update(l, m.lanes[l].push(i as usize)),
        ..m
    };
    law_free_slot_is_silent(m, i);
    assert(!m.lanes[l].contains(i as usize));
    lemma_push(m.lanes[l], i as usize);
    assert forall|t: int| 0 <= t < n.resources.len() implies #[trigger] n.slot_ok(t, Some(h)) by {
        assert(m.slot_ok(t, None));
    }
    assert forall|j: int| 0 <= j < n.ops.len() implies #[trigger] n.op_ok(j) by {
        assert(m.op_ok(j));
        if j == i {
            assert(n.lanes[l].contains(i as usize));
        }
    }
    assert forall|a: int, k: int|
        0 <= a < n.lanes.len() && 0 <= k < n.lanes[a].len() implies #[trigger] n.entry_ok(a, k) by {
        if a != l || k < m.lanes[l].len() {
            assert(m.entry_ok(a, k));
            assert(m.lanes[a].contains(m.lanes[a][k]));
        }
    }
    assert forall|k: int| 0 <= k < n.ready.len() implies #[trigger] n.ready_ok(k) by {
        assert(m.ready_ok(k));
    }
    assert forall|k: int| 0 <= k < n.cancelled.len() implies #[trigger] n.owed_ok(k) by {
        assert(m.owed_ok(k));
        assert(m.cancelled.contains(m.cancelled[k]));
    }
    lemma_scheduled(n, h);
}

/// Withdrawing a waiting operation keeps the engine valid.
pub(crate) proof fn lemma_withdrawn(m: Model, op: OpId, rules: Rules)
    requires
        m.valid(),
        m.phase == Phase::Idle,
        m.ops.len() <= usize::MAX,
        m.holds(op),
        !m.ops[op.spec_index()]->0.cancelled,
    ensures
        m.withdrawn(op, rules).valid(),
        m.lanes[home(m.ops[op.spec_index()]->0.request)].contains(op.spec_index() as usize),
{
    let i = op.spec_index();
    assert(m.op_ok(i));
    let p = m.ops[i]->0;
    let l = home(p.request);
    let h = p.request.handle;
    let n = Model {
        resources: m.retried(op, rules),
        ops: m.ops.update(i, Some(Pending { cancelled: true, ..p })),
        lanes: m.lanes.update(l, m.lanes[l].remove_value(i as usize)),
        cancelled: m.cancelled.push(op),
        ..m
    };
    lemma_remove_value(m.lanes[l], i as usize);
    assert(!m.cancelled.contains(op)) by {
        if m.cancelled.contains(op) {
            let k = choose|k: int| 0 <= k < m.cancelled.len() && m.cancelled[k] == op;
            assert(m.owed_ok(k));
        }
    }
    lemma_push(m.cancelled, op);
    assert forall|t: int| 0 <= t < n.resources.len() implies #[trigger] n.slot_ok(t, Some(h)) by {
        assert(m.slot_ok(t, None));
    }
    assert forall|j: int| 0 <= j < n.ops.len() implies #[trigger] n.op_ok(j) by {
        assert(m.op_ok(j));
        if j == i {
            assert(n.cancelled.contains(op));
        } else if m.ops[j] is Some {
            let q = m.ops[j]->0;
            if !q.cancelled && home(q.request) == l {
                assert(n.lanes[l].contains(j as usize));
            }
        }
    }
    assert forall|a: int, k: int|
        0 <= a < n.lanes.len() && 0 <= k < n.lanes[a].len() implies #[trigger] n.entry_ok(a, k) by {
        let x = n.lanes[a][k];
        assert(n.lanes[a].contains(x));
        assert(m.lanes[a].contains(x));
        let kk = choose|kk: int| 0 <= kk < m.lanes[a].len() && m.lanes[a][kk] == x;
        assert(m.entry_ok(a, kk));
    }
    assert forall|k: int| 0 <= k < n.ready.len() implies #[trigger] n.ready_ok(k) by {
        assert(m.ready_ok(k));
    }
    assert forall|k: int| 0 <= k < n.cancelled.len() implies #[trigger] n.owed_ok(k) by {
        if k < m.cancelled.len() {
            assert(m.owed_ok(k));
        }
    }
    lemma_scheduled(n, h);
}

/// An acknowledgement for something else keeps the engine valid.
pub(crate) proof fn lemma_indebted(m: Model, op: OpId)
    requires
        m.valid(),
        op.spec_index() < m.ops.len(),
        m.ops[op.spec_index()] is None,
    ensures
        m.indebted(op).valid(),
{
    let n = m.indebted(op);
    let i = op.spec_index();
    assert(!m.cancelled.contains(op)) by {
        if m.cancelled.contains(op) {
            let k = choose|k: int| 0 <= k < m.cancelled.len() && m.cancelled[k] == op;
            assert(m.owed_ok(k));
        }
    }
    lemma_push(m.cancelled, op);
    assert forall|t: int| 0 <= t < n.resources.len() implies #[trigger] n.slot_ok(t, None) by {
        assert(m.slot_ok(t, None));
    }
    assert forall|j: int| 0 <= j < n.ops.len() implies #[trigger] n.op_ok(j) by {
        assert(m.op_ok(j));
        if j != i && m.ops[j] is Some && m.ops[j]->0.cancelled {
            assert(n.cancelled.contains(m.ops[j]->0.request.op));
        }
    }
    assert forall|a: int, k: int|
        0 <= a < n.lanes.len() && 0 <= k < n.lanes[a].len() implies #[trigger] n.entry_ok(a, k) by {
        assert(m.entry_ok(a, k));
    }
    assert forall|k: int| 0 <= k < n.ready.len() implies #[trigger] n.ready_ok(k) by {
        assert(m.ready_ok(k));
    }
    assert forall|k: int| 0 <= k < n.cancelled.len() implies #[trigger] n.owed_ok(k) by {
        if k < m.cancelled.len() {
            assert(m.owed_ok(k));
        }
    }
}

/// Delivering an acknowledgement keeps the engine valid.
pub(crate) proof fn lemma_acknowledged(m: Model)
    requires
        m.valid(),
        m.cancelled.len() > 0,
    ensures
        m.acknowledged().valid(),
{
    let n = m.acknowledged();
    let op = m.cancelled[0];
    let i = op.spec_index();
    assert(m.owed_ok(0));
    lemma_pop(m.cancelled);
    assert forall|t: int| 0 <= t < n.resources.len() implies #[trigger] n.slot_ok(t, None) by {
        assert(m.slot_ok(t, None));
    }
    assert forall|j: int| 0 <= j < n.ops.len() implies #[trigger] n.op_ok(j) by {
        assert(m.op_ok(j));
        assert(m.op_ok(i));
    }
    assert forall|a: int, k: int|
        0 <= a < n.lanes.len() && 0 <= k < n.lanes[a].len() implies #[trigger] n.entry_ok(a, k) by {
        assert(m.entry_ok(a, k));
    }
    assert forall|k: int| 0 <= k < n.ready.len() implies #[trigger] n.ready_ok(k) by {
        assert(m.ready_ok(k));
    }
    assert forall|k: int| 0 <= k < n.cancelled.len() implies #[trigger] n.owed_ok(k) by {
        assert(m.owed_ok(k + 1));
        assert(m.cancelled[k + 1] != m.cancelled[0]);
        assert(m.op_ok(i));
    }
}

/// Changing nothing of a live resource but its readiness and connection state
/// leaves at most that resource to be scheduled.
proof fn lemma_refreshed(m: Model, h: Handle, r: Resource)
    requires
        m.valid(),
        m.live(h),
        r.handle == h,
        r.queued == m.resources[h.spec_index()]->0.queued,
    ensures
        (Model { resources: m.resources.update(h.spec_index(), Some(r)), ..m }).valid_but(Some(h)),
{
    let s = h.spec_index();
    let n = Model { resources: m.resources.update(s, Some(r)), ..m };
    assert forall|t: int| 0 <= t < n.resources.len() implies #[trigger] n.slot_ok(t, Some(h)) by {
        assert(m.slot_ok(t, None));
    }
    assert forall|j: int| 0 <= j < n.ops.len() implies #[trigger] n.op_ok(j) by {
        assert(m.op_ok(j));
    }
    assert forall|a: int, k: int|
        0 <= a < n.lanes.len() && 0 <= k < n.lanes[a].len() implies #[trigger] n.entry_ok(a, k) by {
        assert(m.entry_ok(a, k));
    }
    assert forall|k: int| 0 <= k < n.ready.len() implies #[trigger] n.ready_ok(k) by {
        assert(m.ready_ok(k));
    }
    assert forall|k: int| 0 <= k < n.cancelled.len() implies #[trigger] n.owed_ok(k) by {
        assert(m.owed_ok(k));
    }
}

/// A readiness report keeps the engine valid.
pub(crate) proof fn lemma_marked(m: Model, key: u64, read: bool, write: bool)
    requires
        m.valid(),
        m.phase == Phase::Idle,
    ensures
        m.marked(key, read, write).valid(),
{
    let s = (key % SLOT_SPAN) as int;
    if s < m.resources.len() && (m.resources[s] matches Some(r) && r.handle.key == key) {
        assert(m.slot_ok(s, None));
        let r = m.resources[s]->0;
        let q = Resource { ready_in: r.ready_in || read, ready_out: r.ready_out || write, ..r };
        lemma_refreshed(m, r.handle, q);
        lemma_scheduled(Model { resources: m.resources.update(s, Some(q)), ..m }, r.handle);
    }
}

/// Removing a resource without waiting operations keeps the engine valid.
pub(crate) proof fn lemma_removed(m: Model, h: Handle)
    requires
        m.valid(),
        m.phase == Phase::Idle,
        m.live(h),
        m.lanes[2 * h.spec_index()].len() == 0,
        m.lanes[2 * h.spec_index() + 1].len() == 0,
    ensures
        m.removed(h).valid(),
{
    let n = m.removed(h);
    let s = h.spec_index();
    lemma_remove_value(m.ready, h);
    assert forall|t: int| 0 <= t < n.resources.len() implies #[trigger] n.slot_ok(t, None) by {
        assert(m.slot_ok(t, None));
    }
    assert forall|j: int| 0 <= j < n.ops.len() implies #[trigger] n.op_ok(j) by {
        assert(m.op_ok(j));
    }
    assert forall|a: int, k: int|
        0 <= a < n.lanes.len() && 0 <= k < n.lanes[a].len() implies #[trigger] n.entry_ok(a, k) by {
        assert(m.entry_ok(a, k));
    }
    assert forall|k: int| 0 <= k < n.ready.len() implies #[trigger] n.ready_ok(k) by {
        let x = n.ready[k];
        assert(n.ready.contains(x));
        let kk = choose|kk: int| 0 <= kk < m.ready.len() && m.ready[kk] == x;
        assert(m.ready_ok(kk));
    }
    assert forall|k: int| 0 <= k < n.cancelled.len() implies #[trigger] n.owed_ok(k) by {
        assert(m.owed_ok(k));
    }
}

/// Picking up the oldest ready handle keeps the engine valid.
pub(crate) proof fn lemma_popped(m: Model)
    requires
        m.valid(),
        m.phase == Phase::Idle,
        m.ready.len() > 0,
    ensures
        m.popped().valid(),
{
    let n = m.popped();
    let h = m.ready[0];
    let s = h.spec_index();
    assert(m.ready_ok(0));
    lemma_pop(m.ready);
    assert forall|t: int| 0 <= t < n.resources.len() implies #[trigger] n.slot_ok(t, None) by {
        assert(m.slot_ok(t, None));
    }
    assert forall|j: int| 0 <= j < n.ops.len() implies #[trigger] n.op_ok(j) by {
        assert(m.op_ok(j));
    }
    assert forall|a: int, k: int|
        0 <= a < n.lanes.len() && 0 <= k < n.lanes[a].len() implies #[trigger] n.entry_ok(a, k) by {
        assert(m.entry_ok(a, k));
    }
    assert forall|k: int| 0 <= k < n.ready.len() implies #[trigger] n.ready_ok(k) by {
        assert(m.ready_ok(k + 1));
        assert(m.ready[k + 1] != m.ready[0]);
    }
    assert forall|k: int| 0 <= k < n.cancelled.len() implies #[trigger] n.owed_ok(k) by {
        assert(m.owed_ok(k));
    }
}

/// Leaving a direction of the handle in hand keeps the engine valid.
pub(crate) proof fn lemma_passed(m: Model, h: Handle, d: Direction)
    requires
        m.valid_but(Some(h)),
        m.busy(h),
        m.live(h),
        !m.resources[h.spec_index()]->0.queued,
    ensures
        m.passed(h, d).valid(),
{
    let n = match d {
        Direction::In => Model {
            phase: Phase::Lane { handle: h, direction: Direction::Out },
            ..m
        },
        Direction::Out => Model { phase: Phase::Idle, ..m },
    };
    assert forall|t: int| 0 <= t < n.resources.len() implies #[trigger] n.slot_ok(t, Some(h)) by {
        assert(m.slot_ok(t, Some(h)));
    }
    assert forall|j: int| 0 <= j < n.ops.len() implies #[trigger] n.op_ok(j) by {
        assert(m.op_ok(j));
    }
    assert forall|a: int, k: int|
        0 <= a < n.lanes.len() && 0 <= k < n.lanes[a].len() implies #[trigger] n.entry_ok(a, k) by {
        assert(m.entry_ok(a, k));
    }
    assert forall|k: int| 0 <= k < n.ready.len() implies #[trigger] n.ready_ok(k) by {
        assert(m.ready_ok(k));
    }
    assert forall|k: int| 0 <= k < n.cancelled.len() implies #[trigger] n.owed_ok(k) by {
        assert(m.owed_ok(k));
    }
    match d {
        Direction::In => {
            assert forall|t: int| 0 <= t < n.resources.len() implies #[trigger] n.slot_ok(
                t,
                None,
            ) by {
                assert(n.slot_ok(t, Some(h)));
            }
        },
        Direction::Out => {
            lemma_scheduled(n, h);
        },
    }
}

/// Progress of the running operation keeps the engine valid.
pub(crate) proof fn lemma_kept(
    m: Model,
    h: Handle,
    d: Direction,
    slot: usize,
    r: Resource,
    progress: Progress,
)
    requires
        m.valid(),
        m.phase == (Phase::Running { handle: h, direction: d, slot }),
        r.handle == h,
        !r.queued,
        in_bounds(moved(m.ops[slot as int]->0, progress)),
    ensures
        slot < m.ops.len(),
        m.ops[slot as int] is Some,
        (Model {
            resources: m.resources.update(h.spec_index(), Some(r)),
            ops: m.ops.update(slot as int, Some(moved(m.ops[slot as int]->0, progress))),
            ..m
        }).valid_but(Some(h)),
{
    let i = slot as int;
    let l = lane_of(h, d);
    assert(m.entry_ok(l, 0));
    let p = m.ops[i]->0;
    lemma_refreshed(m, h, r);
    let a = Model { resources: m.resources.update(h.spec_index(), Some(r)), ..m };
    let n = Model { ops: m.ops.update(i, Some(moved(p, progress))), ..a };
    assert forall|t: int| 0 <= t < n.resources.len() implies #[trigger] n.slot_ok(t, Some(h)) by {
        assert(a.slot_ok(t, Some(h)));
    }
    assert forall|j: int| 0 <= j < n.ops.len() implies #[trigger] n.op_ok(j) by {
        assert(a.op_ok(j));
    }
    assert forall|b: int, k: int|
        0 <= b < n.lanes.len() && 0 <= k < n.lanes[b].len() implies #[trigger] n.entry_ok(b, k) by {
        assert(a.entry_ok(b, k));
    }
    assert forall|k: int| 0 <= k < n.ready.len() implies #[trigger] n.ready_ok(k) by {
        assert(a.ready_ok(k));
    }
    assert forall|k: int| 0 <= k < n.cancelled.len() implies #[trigger] n.owed_ok(k) by {
        assert(a.owed_ok(k));
    }
}

/// Ending the running operation keeps the engine valid.
proof fn lemma_ended(m: Model, h: Handle, d: Direction, slot: usize, r: Resource)
    requires
        m.valid(),
        m.phase == (Phase::Running { handle: h, direction: d, slot }),
        r.handle == h,
        !r.queued,
    ensures
        ({
            let l = lane_of(h, d);
            let n = Model {
                resources: m.resources.update(h.spec_index(), Some(r)),
                ops: m.ops.update(slot as int, None),
                lanes: m.lanes.update(l, m.lanes[l].remove_value(slot)),
                phase: Phase::Lane { handle: h, direction: d },
                ..m
            };
            n.valid_but(Some(h))
        }),
{
    let i = slot as int;
    let l = lane_of(h, d);
    assert(m.entry_ok(l, 0));
    lemma_refreshed(m, h, r);
    let a = Model { resources: m.resources.update(h.spec_index(), Some(r)), ..m };
    lemma_remove_value(m.lanes[l], slot);
    let n = Model {
        ops: m.ops.update(i, None),
        lanes: m.lanes.update(l, m.lanes[l].remove_value(slot)),
        phase: Phase::Lane { handle: h, direction: d },
        ..a
    };
    assert forall|t: int| 0 <= t < n.resources.len() implies #[trigger] n.slot_ok(t, Some(h)) by {
        assert(a.slot_ok(t, Some(h)));
    }
    assert forall|j: int| 0 <= j < n.ops.len() implies #[trigger] n.op_ok(j) by {
        assert(a.op_ok(j));
        if j != i && a.ops[j] is Some {
            let q = a.ops[j]->0;
            if !q.cancelled && home(q.request) == l {
                assert(n.lanes[l].contains(j as usize));
            }
        }
    }
    assert forall|b: int, k: int|
        0 <= b < n.lanes.len() && 0 <= k < n.lanes[b].len() implies #[trigger] n.entry_ok(b, k) by {
        let x = n.lanes[b][k];
        assert(n.lanes[b].contains(x));
        assert(m.lanes[b].contains(x));
        let kk = choose|kk: int| 0 <= kk < m.lanes[b].len() && m.lanes[b][kk] == x;
        assert(a.entry_ok(b, kk));
    }
    assert forall|k: int| 0 <= k < n.ready.len() implies #[trigger] n.ready_ok(k) by {
        assert(a.ready_ok(k));
    }
    assert forall|k: int| 0 <= k < n.cancelled.len() implies #[trigger] n.owed_ok(k) by {
        assert(a.owed_ok(k));
    }
}

/// A live handle without operations has empty queues.
pub proof fn law_no_operation_no_queue(m: Model, h: Handle)
    requires
        m.valid(),
        m.live(h),
        forall|i: int|
            0 <= i < m.ops.len() && (#[trigger] m.ops[i]) is Some && !m.ops[i]->0.cancelled
                ==> m.ops[i]->0.request.handle != h,
    ensures
        m.lanes[2 * h.spec_index()].len() == 0,
        m.lanes[2 * h.spec_index() + 1].len() == 0,
{
    let s = h.spec_index();
    assert forall|l: int| 2 * s <= l <= 2 * s + 1 implies (#[trigger] m.lanes[l]).len() == 0 by {
        if m.lanes[l].len() > 0 {
            assert(m.entry_ok(l, 0));
            let i = m.lanes[l][0] as int;
            assert(m.op_ok(i));
            let p = m.ops[i]->0;
            assert(m.live(p.request.handle));
        }
    }
}

/// A valid engine is valid whatever is spared.
pub(crate) proof fn lemma_spared(m: Model, h: Handle)
    requires
        m.valid(),
    ensures
        m.valid_but(Some(h)),
{
    assert forall|t: int| 0 <= t < m.resources.len() implies #[trigger] m.slot_ok(t, Some(h)) by {
        assert(m.slot_ok(t, None));
    }
}

/// Starting the oldest operation of a direction keeps the engine valid.
pub(crate) proof fn lemma_started(m: Model, h: Handle, d: Direction, slot: usize)
    requires
        m.valid(),
        m.phase == (Phase::Lane { handle: h, direction: d }),
        m.lanes[lane_of(h, d)].len() > 0,
        m.lanes[lane_of(h, d)][0] == slot,
    ensures
        (Model { phase: Phase::Running { handle: h, direction: d, slot }, ..m }).valid(),
{
    let n = Model { phase: Phase::Running { handle: h, direction: d, slot }, ..m };
    assert forall|t: int| 0 <= t < n.resources.len() implies #[trigger] n.slot_ok(t, None) by {
        assert(m.slot_ok(t, None));
    }
    assert forall|j: int| 0 <= j < n.ops.len() implies #[trigger] n.op_ok(j) by {
        assert(m.op_ok(j));
    }
    assert forall|a: int, k: int|
        0 <= a < n.lanes.len() && 0 <= k < n.lanes[a].len() implies #[trigger] n.entry_ok(a, k) by {
        assert(m.entry_ok(a, k));
    }
    assert forall|k: int| 0 <= k < n.ready.len() implies #[trigger] n.ready_ok(k) by {
        assert(m.ready_ok(k));
    }
    assert forall|k: int| 0 <= k < n.cancelled.len() implies #[trigger] n.owed_ok(k) by {
        assert(m.owed_ok(k));
    }
}

/// A reply never changes which resource it is about.
pub(crate) proof fn lemma_concluded_identity<D>(r: Resource, p: Pending, reply: Reply<D>, rules: Rules)
    ensures
        concluded(r, p, reply, rules).0.handle == r.handle,
        concluded(r, p, reply, rules).0.queued == r.queued,
{
}

/// Leaving the direction whose running operation just ended keeps the engine valid.
pub(crate) proof fn lemma_after_end(m: Model, h: Handle, d: Direction, slot: usize, r: Resource)
    requires
        m.valid(),
        m.phase == (Phase::Running { handle: h, direction: d, slot }),
        r.handle == h,
        !r.queued,
    ensures
        ({
            let l = lane_of(h, d);
            (Model {
                resources: m.resources.update(h.spec_index(), Some(r)),
                ops: m.ops.update(slot as int, None),
                lanes: m.lanes.update(l, m.lanes[l].remove_value(slot)),
                ..m
            }).passed(h, d).valid()
        }),
{
    let l = lane_of(h, d);
    lemma_ended(m, h, d, slot, r);
    let n = Model {
        resources: m.resources.update(h.spec_index(), Some(r)),
        ops: m.ops.update(slot as int, None),
        lanes: m.lanes.update(l, m.lanes[l].remove_value(slot)),
        phase: Phase::Lane { handle: h, direction: d },
        ..m
    };
    lemma_passed(n, h, d);
    let e = Model { phase: m.phase, ..n };
    assert(e.passed(h, d) == n.passed(h, d));
}

/// An operation that got so far.
pub open spec fn moved(p: Pending, progress: Progress) -> Pending {
    Pending { offset: progress.offset, flushing: progress.flushing, ..p }
}

/// What an attempt means for the queue it came from.
pub enum Verdict<D> {
    /// A completion; a terminal one ends the operation.
    Report(Event<D>),
    /// Nothing yet; the operation stays where it is.
    Keep,
    /// The direction blocks until the system says otherwise.
    Block,
}

/// Would-block clears the cached readiness, an interruption means nothing, and any
/// other failure ends the operation.
pub open spec fn verdict<D>(attempt: Attempt<D>, op: OpId, rules: Rules) -> Verdict<D> {
    match attempt {
        Ok(Some((outcome, terminal))) => Verdict::Report(
            Event { op, terminal, result: Ok(outcome) },
        ),
        Ok(None) => Verdict::Keep,
        Err(e) => if e.kind == ErrorKind::WouldBlock {
            Verdict::Block
        } else if is_interruption(e, rules) {
            Verdict::Keep
        } else {
            Verdict::Report(Event { op, terminal: true, result: Err(e) })
        },
    }
}

/// Operations that components have no import for.
pub open spec fn foreign(rules: Rules, op: Operation) -> bool {
    match rules {
        Rules::Native { .. } => false,
        Rules::Component => op is ProcessExit || op is WatchSignal || op is SendHandle || op
            is RecvHandle,
        Rules::Async => op is ProcessExit || op is WatchSignal || op is WatchFs || op is SendHandle
            || op is RecvHandle,
    }
}

/// Whether components have no import for an operation.
pub fn is_foreign(rules: Rules, op: &Operation) -> (yes: bool)
    ensures
        yes == foreign(rules, *op),
{
    match rules {
        Rules::Native { .. } => false,
        _ => match op {
            Operation::ProcessExit => true,
            Operation::WatchSignal => true,
            Operation::WatchFs => rules == Rules::Async,
            Operation::SendHandle(_) => true,
            Operation::RecvHandle => true,
            _ => false,
        },
    }
}

/// Which operations a kind of transport takes.
pub open spec fn takes(rules: Rules, kind: Kind, connect: bool, op: Operation) -> bool {
    match rules {
        Rules::Native { .. } => takes_native(kind, connect, op),
        _ => takes_import(kind, connect, op),
    }
}

/// Which operations a transport of a component takes.
pub open spec fn takes_import(kind: Kind, connect: bool, op: Operation) -> bool {
    match op {
        Operation::Accept { .. } => kind == Kind::Listener,
        Operation::RecvFrom(_) | Operation::SendTo { .. } => kind == Kind::Udp,
        Operation::Connect => kind == Kind::Tcp && connect,
        Operation::Read { .. } => kind == Kind::Tcp || kind == Kind::Stdin,
        Operation::Write(_) | Operation::Writev(_) | Operation::Shutdown => kind == Kind::Tcp
            || kind == Kind::Stdout,
        _ => false,
    }
}

/// Which operations a kind of descriptor takes.
pub open spec fn takes_native(kind: Kind, connect: bool, op: Operation) -> bool {
    match op {
        Operation::Accept { .. } => kind == Kind::Listener || kind == Kind::PipeListener,
        Operation::SendHandle(_) | Operation::RecvHandle => kind == Kind::Pipe,
        Operation::RecvFrom(_) | Operation::SendTo { .. } => kind == Kind::Udp,
        Operation::Connect => (kind == Kind::Tcp || kind == Kind::Pipe) && connect,
        _ => kind == Kind::Tcp || kind == Kind::Pipe || kind == Kind::Stream || kind == Kind::File,
    }
}

/// Which operations a kind of transport takes.
pub fn accepts(rules: Rules, kind: Kind, connect: bool, op: &Operation) -> (valid: bool)
    ensures
        valid == takes(rules, kind, connect, *op),
{
    match rules {
        Rules::Native { .. } => accepts_native(kind, connect, op),
        _ => match op {
            Operation::Accept { .. } => kind == Kind::Listener,
            Operation::RecvFrom(_) => kind == Kind::Udp,
            Operation::SendTo { .. } => kind == Kind::Udp,
            Operation::Connect => kind == Kind::Tcp && connect,
            Operation::Read { .. } => kind == Kind::Tcp || kind == Kind::Stdin,
            Operation::Write(_) => kind == Kind::Tcp || kind == Kind::Stdout,
            Operation::Writev(_) => kind == Kind::Tcp || kind == Kind::Stdout,
            Operation::Shutdown => kind == Kind::Tcp || kind == Kind::Stdout,
            _ => false,
        },
    }
}

fn accepts_native(kind: Kind, connect: bool, op: &Operation) -> (valid: bool)
    ensures
        valid == takes_native(kind, connect, *op),
{
    match op {
        Operation::Accept { .. } => kind == Kind::Listener || kind == Kind::PipeListener,
        Operation::SendHandle(_) => kind == Kind::Pipe,
        Operation::RecvHandle => kind == Kind::Pipe,
        Operation::RecvFrom(_) => kind == Kind::Udp,
        Operation::SendTo { .. } => kind == Kind::Udp,
        Operation::Connect => (kind == Kind::Tcp || kind == Kind::Pipe) && connect,
        _ => kind == Kind::Tcp || kind == Kind::Pipe || kind == Kind::Stream || kind == Kind::File,
    }
}

/// Transports that another process can receive.
pub open spec fn transferable(kind: Kind) -> bool {
    kind != Kind::Stream && kind != Kind::File
}

/// Why a request is refused, if it is.
pub open spec fn refusal(m: Model, request: Request, rules: Rules) -> Option<Error> {
    let h = request.handle;
    let i = request.op.spec_index();
    let r = m.resources[h.spec_index()]->0;
    if foreign(rules, request.operation) {
        Some(Error::plain(ErrorKind::Unsupported))
    } else if !m.live(h) {
        Some(Error::plain(ErrorKind::NotFound))
    } else if request.operation is Shutdown && (r.kind == Kind::Stream || r.kind == Kind::File) {
        Some(Error::plain(ErrorKind::Unsupported))
    } else if r.kind == Kind::File {
        None
    } else if !takes(rules, r.kind, r.connect, request.operation) || i >= m.ops.len()
        || m.ops[i] is Some {
        Some(Error::plain(ErrorKind::InvalidInput))
    } else if request.operation matches Operation::Read { buf: ReadBuf::Provided(0), .. } {
        Some(Error::plain(ErrorKind::InvalidInput))
    } else if let Operation::SendHandle(source) = request.operation {
        if !m.live(source) {
            Some(Error::plain(ErrorKind::NotFound))
        } else if !transferable(m.resources[source.spec_index()]->0.kind) {
            Some(Error::plain(ErrorKind::Unsupported))
        } else {
            None
        }
    } else {
        None
    }
}

/// The completion engine of a readiness backend.
pub struct Engine {
    resources: Vec<Option<Resource>>,
    ops: Vec<Option<Pending>>,
    lanes: Lanes,
    ready: VecDeque<Handle>,
    cancelled: VecDeque<OpId>,
    phase: Phase,
    rules: Rules,
}

impl View for Engine {
    type V = Model;

    closed spec fn view(&self) -> Model {
        Model {
            resources: self.resources@,
            ops: self.ops@,
            lanes: self.lanes@,
            ready: self.ready@,
            cancelled: self.cancelled@,
            phase: self.phase,
        }
    }
}

impl Engine {
    /// Whose calls this engine makes.
    pub closed spec fn rules(&self) -> Rules {
        self.rules
    }

    /// The linked queues spell out the model, and the model is valid.
    pub closed spec fn wf(&self) -> bool {
        &&& self.lanes.wf()
        &&& self.lanes.slots() == self.ops@.len()
        &&& 2 * self.resources@.len() <= usize::MAX
        &&& self@.valid()
    }

    /// What is true of valid tables is true of every table that calls lead to.
    pub proof fn law_tables_are_valid(&self)
        requires
            self.wf(),
        ensures
            self@.valid(),
    {
    }

    /// Room for `handles` resources and `operations` operations.
    pub fn new(handles: usize, operations: usize, rules: Rules) -> (engine: Self)
        requires
            2 * handles <= usize::MAX,
        ensures
            engine.wf(),
            engine.rules() == rules,
            engine@.resources == Seq::new(handles as nat, |s: int| None::<Resource>),
            engine@.ops == Seq::new(operations as nat, |i: int| None::<Pending>),
            engine@.lanes == Seq::new((2 * handles) as nat, |l: int| Seq::<usize>::empty()),
            engine@.ready == Seq::<Handle>::empty(),
            engine@.cancelled == Seq::<OpId>::empty(),
            engine@.phase == Phase::Idle,
    {
        let mut resources: Vec<Option<Resource>> = Vec::new();
        let mut ops: Vec<Option<Pending>> = Vec::new();
        let mut s: usize = 0;
        while s < handles
            invariant
                s <= handles,
                resources@ == Seq::new(s as nat, |s: int| None::<Resource>),
            decreases handles - s,
        {
            resources.push(None);
            s = s + 1;
        }
        let mut i: usize = 0;
        while i < operations
            invariant
                i <= operations,
                ops@ == Seq::new(i as nat, |i: int| None::<Pending>),
            decreases operations - i,
        {
            ops.push(None);
            i = i + 1;
        }
        Engine {
            resources,
            ops,
            lanes: Lanes::new(2 * handles, operations),
            ready: VecDeque::new(),
            cancelled: VecDeque::new(),
            phase: Phase::Idle,
            rules,
        }
    }

    /// The resource behind exactly this handle.
    pub fn get(&self, h: Handle) -> (found: Result<Resource, Error>)
        ensures
            found == (if self@.live(h) {
                Ok(self@.resources[h.spec_index()]->0)
            } else {
                Err(Error::plain(ErrorKind::NotFound))
            }),
    {
        let s: usize = h.index();
        if s < self.resources.len() {
            if let Some(r) = self.resources[s] {
                if r.handle == h {
                    return Ok(r);
                }
            }
        }
        Err(Error::new(ErrorKind::NotFound))
    }

    fn lane(&self, h: Handle, d: Direction) -> (l: usize)
        requires
            2 * self.resources@.len() <= usize::MAX,
            h.spec_index() < self.resources@.len(),
        ensures
            l == lane_of(h, d),
            l < 2 * self.resources@.len(),
    {
        match d {
            Direction::In => 2 * h.index(),
            Direction::Out => 2 * h.index() + 1,
        }
    }

    /// Whether one direction of a resource could be tried now.
    fn can_run(&self, r: &Resource, d: Direction) -> (can: bool)
        requires
            self.lanes.wf(),
            self.lanes@.len() == 2 * self.resources@.len(),
            2 * self.resources@.len() <= usize::MAX,
            r.handle.spec_index() < self.resources@.len(),
        ensures
            can == (r.spec_ready(d) && self@.lanes[lane_of(r.handle, d)].len() > 0),
    {
        r.ready(d) && self.lanes.head(self.lane(r.handle, d)).is_some()
    }

    /// Queue a handle that can make progress, unless it already is.
    fn schedule(&mut self, h: Handle)
        requires
            old(self).lanes.wf(),
            old(self).lanes@.len() == 2 * old(self).resources@.len(),
            2 * old(self).resources@.len() <= usize::MAX,
        ensures
            final(self)@ == old(self)@.scheduled(h),
            final(self).lanes == old(self).lanes,
            final(self).rules == old(self).rules,
    {
        if let Ok(r) = self.get(h) {
            if !r.queued && (self.can_run(&r, Direction::In) || self.can_run(&r, Direction::Out)) {
                let s: usize = h.index();
                self.resources[s] = Some(Resource { queued: true, ..r });
                self.ready.push_back(h);
            }
        }
    }

    /// Bind a resource to a free slot.
    pub fn install(&mut self, h: Handle, kind: Kind, connect: bool) -> (done: Result<(), Error>)
        requires
            old(self).wf(),
            old(self)@.phase == Phase::Idle,
        ensures
            final(self).wf(),
            final(self).rules() == old(self).rules(),
            if h.spec_index() < old(self)@.resources.len()
                && old(self)@.resources[h.spec_index()] is None {
                done is Ok && final(self)@ == old(self)@.installed(h, kind, connect)
            } else {
                done == Err::<(), Error>(Error::plain(ErrorKind::InvalidInput)) && final(self)@
                    == old(self)@
            },
    {
        let s: usize = h.index();
        if s >= self.resources.len() || self.resources[s].is_some() {
            return Err(invalid());
        }
        proof {
            lemma_installed(self@, h, kind, connect);
        }
        self.resources[s] = Some(
            Resource {
                handle: h,
                kind,
                connect,
                connecting: false,
                ready_in: true,
                ready_out: true,
                queued: false,
            },
        );
        Ok(())
    }

    /// Accept a request at the end of its queue. A regular file has no readiness:
    /// its request comes back, for the worker that serves files.
    pub fn submit(&mut self, request: Request) -> (done: Result<Option<Request>, Error>)
        requires
            old(self).wf(),
            old(self)@.phase == Phase::Idle,
            payload(request.operation) <= usize::MAX,
        ensures
            final(self).wf(),
            final(self).rules() == old(self).rules(),
            match refusal(old(self)@, request, old(self).rules()) {
                Some(e) => done == Err::<Option<Request>, Error>(e) && final(self)@ == old(self)@,
                None => if old(self)@.resources[request.handle.spec_index()]->0.kind == Kind::File {
                    done == Ok::<Option<Request>, Error>(Some(request)) && final(self)@
                        == old(self)@
                } else {
                    done == Ok::<Option<Request>, Error>(None) && final(self)@
                        == old(self)@.submitted(request)
                },
            },
    {
        let h = request.handle;
        if is_foreign(self.rules, &request.operation) {
            return Err(unsupported());
        }
        let r = match self.get(h) {
            Ok(r) => r,
            Err(e) => {
                return Err(e);
            },
        };
        if matches!(request.operation, Operation::Shutdown) && (r.kind == Kind::Stream || r.kind
            == Kind::File) {
            return Err(unsupported());
        }
        if r.kind == Kind::File {
            return Ok(Some(request));
        }
        let i: usize = request.op.index();
        if !accepts(self.rules, r.kind, r.connect, &request.operation) || i >= self.ops.len()
            || self.ops[i].is_some() {
            return Err(invalid());
        }
        if let Operation::Read { buf, .. } = &request.operation {
            if let ReadBuf::Provided(len) = buf {
                if *len == 0 {
                    return Err(invalid());
                }
            }
        }
        if let Operation::SendHandle(source) = &request.operation {
            match self.get(*source) {
                Err(e) => {
                    return Err(e);
                },
                Ok(from) => {
                    if from.kind == Kind::Stream || from.kind == Kind::File {
                        return Err(unsupported());
                    }
                },
            }
        }
        let l: usize = self.lane(h, request.operation.direction());
        proof {
            lemma_payload_nonnegative(request.operation);
            lemma_submitted(self@, request);
            law_free_slot_is_silent(self@, i as int);
        }
        self.lanes.push(l, i);
        self.ops[i] = Some(Pending { request, offset: 0, flushing: false, cancelled: false });
        self.schedule(h);
        Ok(None)
    }

    /// Start cancelling an operation. Its acknowledgement follows exactly once, however
    /// often cancellation is asked for.
    pub fn cancel(&mut self, op: OpId) -> (done: Result<(), Error>)
        requires
            old(self).wf(),
            old(self)@.phase == Phase::Idle,
        ensures
            final(self).wf(),
            final(self).rules() == old(self).rules(),
            if !old(self)@.holds(op) {
                done == Err::<(), Error>(Error::plain(ErrorKind::NotFound)) && final(self)@
                    == old(self)@
            } else if old(self)@.ops[op.spec_index()]->0.cancelled {
                done is Ok && final(self)@ == old(self)@
            } else {
                done is Ok && final(self)@ == old(self)@.withdrawn(op, old(self).rules())
            },
    {
        let i: usize = op.index();
        if i >= self.ops.len() {
            return Err(Error::new(ErrorKind::NotFound));
        }
        let (h, d) = match &self.ops[i] {
            None => {
                return Err(Error::new(ErrorKind::NotFound));
            },
            Some(p) => {
                if p.request.op != op {
                    return Err(Error::new(ErrorKind::NotFound));
                }
                if p.cancelled {
                    return Ok(());
                }
                (p.request.handle, p.request.operation.direction())
            },
        };
        proof {
            lemma_withdrawn(self@, op, self.rules());
            assert(self@.op_ok(i as int));
        }
        let l: usize = self.lane(h, d);
        if self.rules == Rules::Async && self.lanes.head(l) == Some(i) {
            let s: usize = h.index();
            if let Some(r) = self.resources[s] {
                self.resources[s] = Some(
                    match d {
                        Direction::In => Resource { ready_in: true, ..r },
                        Direction::Out => Resource { ready_out: true, ..r },
                    },
                );
            }
        }
        self.lanes.unlink(l, i);
        let ghost was = self.ops@;
        let taken = self.ops[i].take();
        if let Some(p) = taken {
            self.ops[i] = Some(Pending { cancelled: true, ..p });
        }
        assert(self.ops@ =~= was.update(i as int, Some(Pending { cancelled: true, ..was[i as int]->0 })));
        self.cancelled.push_back(op);
        self.schedule(h);
        Ok(())
    }

    /// Owe the acknowledgement of something that was given up elsewhere, such as a lookup. It
    /// follows those that are owed already.
    pub fn owe(&mut self, op: OpId)
        requires
            old(self).wf(),
            op.spec_index() < old(self)@.ops.len(),
            old(self)@.ops[op.spec_index()] is None,
        ensures
            final(self).wf(),
            final(self).rules() == old(self).rules(),
            final(self)@ == old(self)@.indebted(op),
    {
        proof {
            lemma_indebted(self@, op);
        }
        self.ops[op.index()] = Some(
            Pending {
                request: Request {
                    op,
                    handle: Handle { owner: 0, key: 0 },
                    operation: Operation::Shutdown,
                },
                offset: 0,
                flushing: false,
                cancelled: true,
            },
        );
        self.cancelled.push_back(op);
    }

    /// Deliver owed acknowledgements, oldest first, while there is room.
    pub fn drain_cancelled<D>(&mut self, events: &mut Completions<D>)
        requires
            old(self).wf(),
        ensures
            final(self).wf(),
            final(self).rules() == old(self).rules(),
            final(events).capacity() == old(events).capacity(),
            ({
                let owed = old(self)@.cancelled;
                let room = old(events).capacity() - old(events)@.len();
                let n = if owed.len() <= room { owed.len() as int } else { room };
                &&& final(self)@ == old(self)@.drained(n as nat)
                &&& final(events)@ == old(events)@ + owed.take(n).map_values(
                    |op: OpId| cancelled_event::<D>(op),
                )
            }),
    {
        let ghost before = self@;
        let ghost owed = self@.cancelled;
        let ghost mut n: nat = 0;
        let ghost shown = |op: OpId| cancelled_event::<D>(op);
        let start: usize = events.len();
        assert(events@ =~= old(events)@ + owed.take(0).map_values(shown));
        while events.has_room() && self.cancelled.len() > 0
            invariant
                self.wf(),
                self.rules() == old(self).rules(),
                before == old(self)@,
                owed == before.cancelled,
                n <= owed.len(),
                self@ == before.drained(n),
                self@.cancelled == owed.skip(n as int),
                events.capacity() == old(events).capacity(),
                events@.len() == old(events)@.len() + n,
                events@ == old(events)@ + owed.take(n as int).map_values(shown),
                events@.len() <= events.capacity(),
                shown == (|op: OpId| cancelled_event::<D>(op)),
            decreases owed.len() - n,
        {
            let ghost current = self@;
            if let Some(op) = self.cancelled.pop_front() {
                proof {
                    assert(current.owed_ok(0));
                    lemma_acknowledged(current);
                    assert(op == owed[n as int]);
                    assert(owed.take(n as int + 1) =~= owed.take(n as int).push(op));
                    assert(owed.take(n as int + 1).map_values(shown) =~= owed.take(
                        n as int,
                    ).map_values(shown).push(cancelled_event(op)));
                }
                let i: usize = op.index();
                self.ops[i] = None;
                events.push(Event { op, terminal: true, result: Ok(Outcome::Cancelled) });
                proof {
                    n = n + 1;
                    assert(self@ =~= current.acknowledged());
                    assert(owed.skip(n as int) =~= owed.skip(n as int - 1).drop_first());
                }
            }
        }
    }

    /// Note that a descriptor became ready. A report for an older generation of the
    /// slot changes nothing.
    pub fn mark_ready(&mut self, key: u64, read: bool, write: bool)
        requires
            old(self).wf(),
            old(self)@.phase == Phase::Idle,
        ensures
            final(self).wf(),
            final(self).rules() == old(self).rules(),
            final(self)@ == old(self)@.marked(key, read, write),
    {
        proof {
            lemma_marked(self@, key, read, write);
        }
        let s: usize = (key % SLOT_SPAN) as usize;
        if s >= self.resources.len() {
            return ;
        }
        if let Some(r) = self.resources[s] {
            if r.handle.key == key {
                self.resources[s] = Some(
                    Resource { ready_in: r.ready_in || read, ready_out: r.ready_out || write, ..r },
                );
                self.schedule(r.handle);
            }
        }
    }

    /// Whether an operation is held and not cancelled.
    pub fn runs(&self, op: OpId) -> (yes: bool)
        ensures
            yes == (self@.holds(op) && !self@.ops[op.spec_index()]->0.cancelled),
    {
        let i: usize = op.index();
        if i >= self.ops.len() {
            return false;
        }
        match &self.ops[i] {
            Some(p) => p.request.op == op && !p.cancelled,
            None => false,
        }
    }

    /// The directions with operations, in slot order: what a wait is about.
    pub fn interests(&self) -> (out: Vec<(Handle, Direction)>)
        requires
            self.wf(),
        ensures
            out@ == self@.interests(self@.resources.len() as int),
    {
        let mut out: Vec<(Handle, Direction)> = Vec::new();
        let n: usize = self.resources.len();
        let mut s: usize = 0;
        while s < n
            invariant
                s <= n,
                n == self@.resources.len(),
                self.wf(),
                out@ == self@.interests(s as int),
            decreases n - s,
        {
            if let Some(r) = self.resources[s] {
                if self.lanes.head(2 * s).is_some() {
                    out.push((r.handle, Direction::In));
                }
                if self.lanes.head(2 * s + 1).is_some() {
                    out.push((r.handle, Direction::Out));
                }
            }
            assert(out@ =~= self@.interests(s + 1));
            s = s + 1;
        }
        out
    }

    /// Whether a completion is owed or an operation can be tried now.
    pub fn has_work(&self) -> (work: bool)
        ensures
            work == (self@.ready.len() > 0 || self@.cancelled.len() > 0),
    {
        self.ready.len() > 0 || self.cancelled.len() > 0
    }

    /// Forget a closed resource. Its operations have all ended, or are owed nothing but their
    /// acknowledgement.
    pub fn release(&mut self, h: Handle)
        requires
            old(self).wf(),
            old(self)@.phase == Phase::Idle,
            forall|i: int|
                0 <= i < old(self)@.ops.len() && (#[trigger] old(self)@.ops[i]) is Some
                    && !old(self)@.ops[i]->0.cancelled ==> old(self)@.ops[i]->0.request.handle
                    != h,
        ensures
            final(self).wf(),
            final(self).rules() == old(self).rules(),
            final(self)@ == (if old(self)@.live(h) {
                old(self)@.removed(h)
            } else {
                old(self)@
            }),
    {
        if self.get(h).is_ok() {
            proof {
                law_no_operation_no_queue(self@, h);
                lemma_removed(self@, h);
            }
            let s: usize = h.index();
            remove_handle(&mut self.ready, h);
            self.resources[s] = None;
        }
    }

    /// Give a quiescent resource back to its owner. Components keep theirs.
    pub fn detach(&mut self, h: Handle) -> (taken: Result<Resource, Error>)
        requires
            old(self).wf(),
            old(self)@.phase == Phase::Idle,
        ensures
            final(self).wf(),
            final(self).rules() == old(self).rules(),
            ({
                let s = h.spec_index();
                if !(old(self).rules() is Native) {
                    taken == Err::<Resource, Error>(Error::plain(ErrorKind::Unsupported))
                        && final(self)@ == old(self)@
                } else if !old(self)@.live(h) {
                    taken == Err::<Resource, Error>(Error::plain(ErrorKind::NotFound))
                        && final(self)@ == old(self)@
                } else if old(self)@.lanes[2 * s].len() > 0 || old(self)@.lanes[2 * s + 1].len()
                    > 0 {
                    taken == Err::<Resource, Error>(Error::plain(ErrorKind::WouldBlock))
                        && final(self)@ == old(self)@
                } else {
                    taken == Ok::<Resource, Error>(old(self)@.resources[s]->0) && final(self)@
                        == old(self)@.removed(h)
                }
            }),
    {
        match self.rules {
            Rules::Native { .. } => {},
            _ => {
                return Err(unsupported());
            },
        }
        let r = match self.get(h) {
            Ok(r) => r,
            Err(e) => {
                return Err(e);
            },
        };
        if self.lanes.head(self.lane(h, Direction::In)).is_some() || self.lanes.head(
            self.lane(h, Direction::Out),
        ).is_some() {
            return Err(Error::new(ErrorKind::WouldBlock));
        }
        proof {
            lemma_removed(self@, h);
        }
        let s: usize = h.index();
        remove_handle(&mut self.ready, h);
        self.resources[s] = None;
        Ok(r)
    }

    /// Leave one direction of the handle that a pass works on.
    fn pass(&mut self, h: Handle, d: Direction)
        requires
            old(self).lanes.wf(),
            old(self).lanes@.len() == 2 * old(self).resources@.len(),
            2 * old(self).resources@.len() <= usize::MAX,
        ensures
            final(self)@ == old(self)@.passed(h, d),
            final(self).lanes == old(self).lanes,
            final(self).rules == old(self).rules,
    {
        match d {
            Direction::In => {
                self.phase = Phase::Lane { handle: h, direction: Direction::Out };
            },
            Direction::Out => {
                self.phase = Phase::Idle;
                self.schedule(h);
            },
        }
    }

    /// Take one step of a pass over the ready queue. `budget` counts the handles that
    /// the pass may still pick up, `room` tells whether a completion fits.
    pub fn advance(&mut self, budget: &mut usize, room: bool) -> (step: Step)
        requires
            old(self).wf(),
            !(old(self)@.phase is Running),
        ensures
            final(self).wf(),
            final(self).rules() == old(self).rules(),
            (final(self)@, *final(budget) as nat, step) == old(self)@.advanced(
                *old(budget) as nat,
                room,
            ),
    {
        match self.phase {
            Phase::Idle => {
                if *budget == 0 || !room {
                    return Step::Done;
                }
                proof {
                    if self@.ready.len() > 0 {
                        lemma_popped(self@);
                        assert(self@.ready_ok(0));
                    }
                }
                match self.ready.pop_front() {
                    None => Step::Done,
                    Some(h) => {
                        let s: usize = h.index();
                        if let Some(r) = self.resources[s] {
                            self.resources[s] = Some(Resource { queued: false, ..r });
                        }
                        self.phase = Phase::Lane { handle: h, direction: Direction::In };
                        *budget = *budget - 1;
                        Step::Again
                    },
                }
            },
            Phase::Lane { handle, direction } => {
                let ghost before = self@;
                if room {
                    if let Some(r) = self.resources[handle.index()] {
                        if r.ready(direction) {
                            let l: usize = self.lane(handle, direction);
                            if let Some(slot) = self.lanes.head(l) {
                                self.phase = Phase::Running { handle, direction, slot };
                                proof {
                                    lemma_started(before, handle, direction, slot);
                                }
                                return Step::Execute { handle, direction, slot };
                            }
                        }
                    }
                }
                proof {
                    lemma_spared(before, handle);
                    lemma_passed(before, handle, direction);
                }
                self.pass(handle, direction);
                Step::Again
            },
            Phase::Running { .. } => Step::Done,
        }
    }

    /// The call that the running operation needs.
    pub fn running_call(&self) -> (call: Option<Call>)
        requires
            self.wf(),
        ensures
            match self@.phase {
                Phase::Running { handle, slot, .. } => call is Some && needs(
                    self@.resources[handle.spec_index()]->0,
                    self@.ops[slot as int]->0,
                    self.rules(),
                    call->0,
                ),
                _ => call is None,
            },
    {
        match self.phase {
            Phase::Running { handle, direction, slot } => {
                proof {
                    assert(self@.entry_ok(lane_of(handle, direction), 0));
                    assert(self@.op_ok(slot as int));
                }
                match (&self.resources[handle.index()], &self.ops[slot]) {
                    (Some(r), Some(p)) => Some(plan(r, p, self.rules)),
                    _ => None,
                }
            },
            _ => None,
        }
    }

    /// Apply the reply to the running operation, and report the completion it brings.
    pub fn settle<D>(&mut self, reply: Reply<D>) -> (event: Option<Event<D>>)
        requires
            old(self).wf(),
            match old(self)@.phase {
                Phase::Running { handle, slot, .. } => answers(
                    old(self)@.resources[handle.spec_index()]->0,
                    old(self)@.ops[slot as int]->0,
                    old(self).rules(),
                    reply,
                ),
                _ => false,
            },
        ensures
            final(self).wf(),
            final(self).rules() == old(self).rules(),
            (final(self)@, event) == old(self)@.settled(reply, old(self).rules()),
            !(final(self)@.phase is Running),
    {
        let ghost before = self@;
        if let Phase::Running { handle, direction, slot } = self.phase {
            proof {
                assert(before.entry_ok(lane_of(handle, direction), 0));
                assert(before.op_ok(slot as int));
            }
            let s: usize = handle.index();
            let l: usize = self.lane(handle, direction);
            let rules = self.rules;
            let held = self.resources[s];
            let taken = self.ops[slot].take();
            if let (Some(mut r), Some(mut p)) = (held, taken) {
                let ghost p0 = p;
                let attempt = conclude(&mut r, &mut p, reply, rules);
                let op = p.request.op;
                let ghost progress = Progress { offset: p.offset, flushing: p.flushing };
                proof {
                    lemma_concluded_identity(before.resources[s as int]->0, p0, reply, rules);
                    lemma_kept(before, handle, direction, slot, r, progress);
                    lemma_ended(before, handle, direction, slot, r);
                    assert(p == moved(p0, progress));
                }
                match attempt {
                    Ok(Some((outcome, terminal))) => {
                        self.resources[s] = Some(r);
                        if terminal {
                            self.lanes.unlink(l, slot);
                            proof {
                                lemma_after_end(before, handle, direction, slot, r);
                            }
                        } else {
                            self.ops[slot] = Some(p);
                            proof {
                                assert(self@ =~= Model {
                                    resources: before.resources.update(s as int, Some(r)),
                                    ops: before.ops.update(slot as int, Some(p)),
                                    ..before
                                });
                                lemma_passed(self@, handle, direction);
                            }
                        }
                        self.pass(handle, direction);
                        Some(Event { op, terminal, result: Ok(outcome) })
                    },
                    Ok(None) => {
                        self.resources[s] = Some(r);
                        self.ops[slot] = Some(p);
                        proof {
                            assert(self@ =~= Model {
                                resources: before.resources.update(s as int, Some(r)),
                                ops: before.ops.update(slot as int, Some(p)),
                                ..before
                            });
                            lemma_passed(self@, handle, direction);
                        }
                        self.pass(handle, direction);
                        None
                    },
                    Err(e) => {
                        if e.kind == ErrorKind::WouldBlock {
                            let blocked = match direction {
                                Direction::In => Resource { ready_in: false, ..r },
                                Direction::Out => Resource { ready_out: false, ..r },
                            };
                            self.resources[s] = Some(blocked);
                            proof {
                                lemma_kept(before, handle, direction, slot, blocked, progress);
                            }
                            self.ops[slot] = Some(p);
                            proof {
                                assert(self@ =~= Model {
                                    resources: before.resources.update(s as int, Some(blocked)),
                                    ops: before.ops.update(slot as int, Some(p)),
                                    ..before
                                });
                                lemma_passed(self@, handle, direction);
                            }
                            self.pass(handle, direction);
                            None
                        } else if interruption(&e, rules) {
                            self.resources[s] = Some(r);
                            self.ops[slot] = Some(p);
                            proof {
                                assert(self@ =~= Model {
                                    resources: before.resources.update(s as int, Some(r)),
                                    ops: before.ops.update(slot as int, Some(p)),
                                    ..before
                                });
                                lemma_passed(self@, handle, direction);
                            }
                            self.pass(handle, direction);
                            None
                        } else {
                            self.resources[s] = Some(r);
                            self.lanes.unlink(l, slot);
                            proof {
                                lemma_after_end(before, handle, direction, slot, r);
                            }
                            self.pass(handle, direction);
                            Some(Event { op, terminal: true, result: Err(e) })
                        }
                    },
                }
            } else {
                assert(false);
                None
            }
        } else {
            assert(false);
            None
        }
    }
}

} // verus!
