//! The completion engine over a port. The kernel owns an operation from its native
//! call until its packet; everything else about it is decided here.
use crate::iocp::attach::{attach, attached};
use crate::iocp::io::{
    absorb, absorbed, accepts, answers, carries, execute, executed, fits, fresh, in_bounds, plan,
    takes, Call, Job, Kind, Reply, Resource, Stage,
};
use crate::lanes::{lane_of, Lanes};
use crate::payload::{lemma_payload_nonnegative, payload, Attempt};
use crate::queues::{lemma_pop, lemma_push, lemma_remove_value, remove_op};
use crate::turn::{route, route_of, Keys, Route};
use crate::types::{
    invalid, unsupported, Direction, Error, ErrorKind, Event, Handle, Lease, OpId, Operation,
    Outcome, Request,
};
use std::collections::VecDeque;
use vstd::prelude::*;

verus! {

/// What a pass wants from the host.
#[derive(Debug)]
pub enum Step<D> {
    /// Ask again.
    Again,
    /// Append this completion and ask again.
    Report(Event<D>),
    /// Perform the call of the operation in this slot and report its reply.
    Execute(usize),
    /// The pass is over.
    Done,
}

/// The engine as plain mathematics: queues are sequences.
#[verifier::ext_equal]
pub struct Model {
    pub resources: Seq<Option<Resource>>,
    pub ops: Seq<Option<Job>>,
    /// Two queues of operation slots for each resource slot: input, then output.
    pub lanes: Seq<Seq<usize>>,
    /// Operations that can be run now.
    pub ready: Seq<usize>,
    /// Operations that wait for a pool buffer.
    pub pool: Seq<OpId>,
    /// The operation whose call the host performs.
    pub running: Option<usize>,
}

/// The queue of a request: worker handles have a single one.
pub open spec fn home(kind: Kind, request: Request) -> int {
    if kind == Kind::Sync {
        2 * request.handle.spec_index()
    } else {
        lane_of(request.handle, request.operation.spec_direction())
    }
}

impl Model {
    /// The slot of `h` holds exactly this generation of it.
    pub open spec fn live(self, h: Handle) -> bool {
        &&& h.spec_index() < self.resources.len()
        &&& self.resources[h.spec_index()] matches Some(r) && r.handle == h
    }

    /// The slot of `op` holds exactly this generation of it.
    pub open spec fn holds(self, op: OpId) -> bool {
        &&& op.spec_index() < self.ops.len()
        &&& self.ops[op.spec_index()] matches Some(p) && p.request.op == op
    }

    /// The queue that a request belongs to on its live resource.
    pub open spec fn lane(self, request: Request) -> int {
        home(self.resources[request.handle.spec_index()]->0.kind, request)
    }

    pub open spec fn slot_ok(self, s: int) -> bool {
        match self.resources[s] {
            None => self.lanes[2 * s].len() == 0 && self.lanes[2 * s + 1].len() == 0,
            Some(r) => r.handle.spec_index() == s,
        }
    }

    /// An operation is in its queue, is accounted for wherever it waits, and moves
    /// on once it is cancelled; only `spare` may still miss the last.
    pub open spec fn op_ok(self, i: int, spare: Option<int>) -> bool {
        self.ops[i] matches Some(p) ==> {
            &&& p.request.op.spec_index() == i
            &&& in_bounds(p)
            &&& fits(p)
            &&& self.live(p.request.handle)
            &&& self.lanes[self.lane(p.request)].contains(i as usize)
            &&& p.queued ==> self.ready.contains(i as usize) && !p.waiting && !p.pool_wait
            &&& p.waiting ==> !p.pool_wait && p.completion is None
            &&& p.pool_wait ==> self.pool.contains(p.request.op) && !p.cancelled
            &&& self.running == Some(i as usize) ==> !p.queued && !p.waiting && !p.pool_wait
                && !p.cancelled && p.completion is None
            &&& p.cancelled && spare != Some(i) ==> p.queued || p.waiting
        }
    }

    /// The oldest operation of every queue is on its way.
    pub open spec fn head_ok(self, l: int, spare: Option<int>) -> bool {
        self.lanes[l].len() > 0 ==> {
            let i = self.lanes[l][0];
            let p = self.ops[i as int]->0;
            ||| p.queued
            ||| p.waiting
            ||| p.pool_wait
            ||| self.running == Some(i)
            ||| spare == Some(i as int)
        }
    }

    pub open spec fn entry_ok(self, l: int, k: int) -> bool {
        let i = self.lanes[l][k] as int;
        &&& i < self.ops.len()
        &&& self.ops[i] matches Some(p) && self.lane(p.request) == l
    }

    pub open spec fn ready_ok(self, k: int) -> bool {
        let i = self.ready[k] as int;
        &&& i < self.ops.len()
        &&& self.ops[i] matches Some(p) && p.queued
    }

    pub open spec fn pool_ok(self, k: int) -> bool {
        &&& self.holds(self.pool[k])
        &&& self.ops[self.pool[k].spec_index()]->0.pool_wait
    }

    /// What every operation of the engine keeps.
    pub open spec fn valid(self) -> bool {
        self.valid_but(None)
    }

    /// A valid engine, but that the operation `spare` may still have to be scheduled.
    pub open spec fn valid_but(self, spare: Option<int>) -> bool {
        &&& self.ops.len() <= usize::MAX
        &&& self.lanes.len() == 2 * self.resources.len()
        &&& self.ready.no_duplicates()
        &&& self.pool.no_duplicates()
        &&& forall|l: int| 0 <= l < self.lanes.len() ==> (#[trigger] self.lanes[l]).no_duplicates()
        &&& forall|s: int| 0 <= s < self.resources.len() ==> #[trigger] self.slot_ok(s)
        &&& forall|i: int| 0 <= i < self.ops.len() ==> #[trigger] self.op_ok(i, spare)
        &&& forall|l: int| 0 <= l < self.lanes.len() ==> #[trigger] self.head_ok(l, spare)
        &&& forall|l: int, k: int|
            0 <= l < self.lanes.len() && 0 <= k < self.lanes[l].len() ==> #[trigger] self.entry_ok(
                l,
                k,
            )
        &&& forall|k: int| 0 <= k < self.ready.len() ==> #[trigger] self.ready_ok(k)
        &&& forall|k: int| 0 <= k < self.pool.len() ==> #[trigger] self.pool_ok(k)
        &&& self.running matches Some(i) ==> i < self.ops.len() && self.ops[i as int] is Some
    }

    /// Queue an operation that neither the kernel nor the pool holds back.
    pub open spec fn scheduled(self, i: int) -> Model {
        if 0 <= i < self.ops.len() && (self.ops[i] matches Some(p) && !p.queued && !p.waiting
            && !p.pool_wait) {
            Model {
                ops: self.ops.update(i, Some(Job { queued: true, ..self.ops[i]->0 })),
                ready: self.ready.push(i as usize),
                ..self
            }
        } else {
            self
        }
    }

    pub open spec fn installed(self, r: Resource) -> Model {
        Model { resources: self.resources.update(r.handle.spec_index(), Some(r)), ..self }
    }

    /// A new operation at the end of its queue; the first one of a queue starts.
    pub open spec fn submitted(self, request: Request) -> Model {
        let i = request.op.spec_index();
        let l = self.lane(request);
        let n = Model {
            ops: self.ops.update(i, Some(fresh(request))),
            lanes: self.lanes.update(l, self.lanes[l].push(i as usize)),
            ..self
        };
        if self.lanes[l].len() == 0 {
            n.scheduled(i)
        } else {
            n
        }
    }

    /// An operation that ended, and the oldest one left in its queue scheduled.
    pub open spec fn unlinked(self, i: int) -> Model {
        let l = self.lane(self.ops[i]->0.request);
        let rest = self.lanes[l].remove_value(i as usize);
        let n = Model {
            ops: self.ops.update(i, None),
            lanes: self.lanes.update(l, rest),
            running: None,
            ..self
        };
        if rest.len() > 0 {
            n.scheduled(rest[0] as int)
        } else {
            n
        }
    }

    /// An operation marked as cancelled. One that the kernel holds waits for its
    /// packet; any other is run to its end.
    pub open spec fn withdrawn(self, op: OpId) -> Model {
        if self.holds(op) {
            let i = op.spec_index();
            Model {
                ops: self.ops.update(
                    i,
                    Some(Job { cancelled: true, pool_wait: false, ..self.ops[i]->0 }),
                ),
                pool: self.pool.remove_value(op),
                ..self
            }.scheduled(i)
        } else {
            self
        }
    }

    /// The operation that waited longest for a pool buffer runs again.
    pub open spec fn woken_one(self) -> Model {
        let i = self.pool[0].spec_index();
        Model {
            ops: self.ops.update(i, Some(Job { pool_wait: false, ..self.ops[i]->0 })),
            pool: self.pool.drop_first(),
            ..self
        }.scheduled(i)
    }

    /// The `n` operations that waited longest run again.
    pub open spec fn woken(self, n: nat) -> Model
        decreases n,
    {
        if n == 0 {
            self
        } else {
            self.woken((n - 1) as nat).woken_one()
        }
    }

    /// The kernel gave an operation back.
    pub open spec fn completed(self, i: int, result: Result<u32, Error>) -> Model {
        Model {
            ops: self.ops.update(
                i,
                Some(Job { waiting: false, completion: Some(result), ..self.ops[i]->0 }),
            ),
            ..self
        }.scheduled(i)
    }

    /// A packet about slot `i` came this way.
    pub open spec fn arrived(self, to: Route, i: int, outcome: Result<u32, Error>) -> (
        Model,
        Result<Arrived, Error>,
    ) {
        match to {
            Route::Worker => match self.ops[i] {
                Some(p) => (
                    self,
                    Ok(Arrived::Worker { slot: i as usize, handle: p.request.handle }),
                ),
                None => (self, Err(Error::plain(ErrorKind::InvalidInput))),
            },
            Route::Bridge => (self, Ok(Arrived::Bridge(i as usize))),
            _ => if self.ops[i] is Some && self.ops[i]->0.waiting {
                (self.completed(i, outcome), Ok(Arrived::Nothing))
            } else {
                (self, Err(Error::plain(ErrorKind::InvalidInput)))
            },
        }
    }

    /// A resource gone from its slot.
    pub open spec fn removed(self, h: Handle) -> Model {
        Model { resources: self.resources.update(h.spec_index(), None), ..self }
    }

    /// An operation that goes on: it waits for the pool, for the kernel, or runs again.
    pub open spec fn parked(self, i: int, p: Job) -> Model {
        let n = Model {
            ops: self.ops.update(i, Some(p)),
            pool: if p.pool_wait {
                self.pool.push(p.request.op)
            } else {
                self.pool
            },
            running: None,
            ..self
        };
        n.scheduled(i)
    }

    /// The engine and the completion after an attempt of operation `i`, now `p`.
    pub open spec fn judged<D>(self, i: int, p: Job, attempt: Attempt<D>) -> (
        Model,
        Option<Event<D>>,
    ) {
        let op = self.ops[i]->0.request.op;
        match attempt {
            Err(e) => (self.unlinked(i), Some(Event { op, terminal: true, result: Err(e) })),
            Ok(Some((outcome, terminal))) => {
                let event = Event { op, terminal, result: Ok(outcome) };
                if terminal {
                    (self.unlinked(i), Some(event))
                } else {
                    (
                        self.parked(i, Job { stage: Stage::Start, completion: None, ..p }),
                        Some(event),
                    )
                }
            },
            Ok(None) => (self.parked(i, p), None),
        }
    }

    /// The oldest ready operation picked up.
    pub open spec fn popped(self) -> Model {
        let i = self.ready[0] as int;
        Model {
            ops: self.ops.update(i, Some(Job { queued: false, ..self.ops[i]->0 })),
            ready: self.ready.drop_first(),
            ..self
        }
    }

    /// One step of a pass with `budget` operations and `room` for a completion left.
    pub open spec fn advanced<D>(self, budget: nat, room: bool) -> (Model, nat, Step<D>) {
        if budget == 0 || !room || self.ready.len() == 0 {
            (self, budget, Step::Done)
        } else {
            let i = self.ready[0] as int;
            let n = self.popped();
            let p = n.ops[i]->0;
            let left = (budget - 1) as nat;
            if p.cancelled {
                (
                    n.unlinked(i),
                    left,
                    Step::Report(
                        Event {
                            op: p.request.op,
                            terminal: true,
                            result: Ok(Outcome::Cancelled),
                        },
                    ),
                )
            } else {
                let kind = self.resources[p.request.handle.spec_index()]->0.kind;
                let (q, attempt) = absorbed::<D>(kind, p);
                match attempt {
                    None => (
                        Model {
                            ops: n.ops.update(i, Some(q)),
                            running: Some(i as usize),
                            ..n
                        },
                        left,
                        Step::Execute(i as usize),
                    ),
                    Some(attempt) => {
                        let (m, event) = n.judged(i, q, attempt);
                        (
                            m,
                            left,
                            match event {
                                Some(event) => Step::Report(event),
                                None => Step::Again,
                            },
                        )
                    },
                }
            }
        }
    }

    /// The engine and the completion after the running operation was answered.
    pub open spec fn settled<D>(self, reply: Reply<D>) -> (Model, Option<Event<D>>) {
        match self.running {
            Some(i) => {
                let p = self.ops[i as int]->0;
                let r = self.resources[p.request.handle.spec_index()]->0;
                let (q, attempt) = executed(r, p, reply);
                self.judged(i as int, q, attempt)
            },
            None => (self, None),
        }
    }
}

/// Scheduling the one operation that may have missed it restores validity.
proof fn lemma_scheduled(m: Model, i: int)
    requires
        m.valid_but(Some(i)),
        0 <= i < m.ops.len(),
        m.ops[i] is Some,
        m.running != Some(i as usize),
    ensures
        m.scheduled(i).valid(),
{
    let n = m.scheduled(i);
    assert(m.op_ok(i, Some(i)));
    if n != m {
        assert(!m.ready.contains(i as usize)) by {
            if m.ready.contains(i as usize) {
                let k = choose|k: int| 0 <= k < m.ready.len() && m.ready[k] == i as usize;
                assert(m.ready_ok(k));
            }
        }
        lemma_push(m.ready, i as usize);
        assert(n.ready.contains(i as usize));
    }
    assert forall|s: int| 0 <= s < n.resources.len() implies #[trigger] n.slot_ok(s) by {
        assert(m.slot_ok(s));
    }
    assert forall|j: int| 0 <= j < n.ops.len() implies #[trigger] n.op_ok(j, None) by {
        assert(m.op_ok(j, Some(i)));
    }
    assert forall|l: int| 0 <= l < n.lanes.len() implies #[trigger] n.head_ok(l, None) by {
        assert(m.head_ok(l, Some(i)));
        if m.lanes[l].len() > 0 {
            assert(m.entry_ok(l, 0));
        }
    }
    assert forall|l: int, k: int|
        0 <= l < n.lanes.len() && 0 <= k < n.lanes[l].len() implies #[trigger] n.entry_ok(l, k) by {
        assert(m.entry_ok(l, k));
    }
    assert forall|k: int| 0 <= k < n.ready.len() implies #[trigger] n.ready_ok(k) by {
        if k < m.ready.len() {
            assert(m.ready_ok(k));
        }
    }
    assert forall|k: int| 0 <= k < n.pool.len() implies #[trigger] n.pool_ok(k) by {
        assert(m.pool_ok(k));
    }
}

/// A valid engine is valid whatever is spared.
pub(crate) proof fn lemma_spared(m: Model, i: int)
    requires
        m.valid(),
    ensures
        m.valid_but(Some(i)),
{
    assert forall|j: int| 0 <= j < m.ops.len() implies #[trigger] m.op_ok(j, Some(i)) by {
        assert(m.op_ok(j, None));
    }
    assert forall|l: int| 0 <= l < m.lanes.len() implies #[trigger] m.head_ok(l, Some(i)) by {
        assert(m.head_ok(l, None));
    }
}

/// A free operation slot stands in no queue at all.
pub proof fn law_free_slot_is_silent(m: Model, i: int)
    requires
        m.valid(),
        0 <= i < m.ops.len(),
        m.ops[i] is None,
    ensures
        forall|l: int| 0 <= l < m.lanes.len() ==> !(#[trigger] m.lanes[l]).contains(i as usize),
        !m.ready.contains(i as usize),
        forall|op: OpId| #[trigger] m.pool.contains(op) ==> op.spec_index() != i,
{
    assert forall|l: int| 0 <= l < m.lanes.len() implies !(#[trigger] m.lanes[l]).contains(
        i as usize,
    ) by {
        if m.lanes[l].contains(i as usize) {
            let k = choose|k: int| 0 <= k < m.lanes[l].len() && m.lanes[l][k] == i as usize;
            assert(m.entry_ok(l, k));
        }
    }
    if m.ready.contains(i as usize) {
        let k = choose|k: int| 0 <= k < m.ready.len() && m.ready[k] == i as usize;
        assert(m.ready_ok(k));
    }
    assert forall|op: OpId| #[trigger] m.pool.contains(op) implies op.spec_index() != i by {
        let k = choose|k: int| 0 <= k < m.pool.len() && m.pool[k] == op;
        assert(m.pool_ok(k));
    }
}

/// Binding a free slot keeps the engine valid.
pub(crate) proof fn lemma_installed(m: Model, r: Resource)
    requires
        m.valid(),
        r.handle.spec_index() < m.resources.len(),
        m.resources[r.handle.spec_index()] is None,
    ensures
        m.installed(r).valid(),
{
    let n = m.installed(r);
    assert forall|s: int| 0 <= s < n.resources.len() implies #[trigger] n.slot_ok(s) by {
        assert(m.slot_ok(s));
    }
    assert forall|j: int| 0 <= j < n.ops.len() implies #[trigger] n.op_ok(j, None) by {
        assert(m.op_ok(j, None));
    }
    assert forall|l: int| 0 <= l < n.lanes.len() implies #[trigger] n.head_ok(l, None) by {
        assert(m.head_ok(l, None));
    }
    assert forall|l: int, k: int|
        0 <= l < n.lanes.len() && 0 <= k < n.lanes[l].len() implies #[trigger] n.entry_ok(l, k) by {
        assert(m.entry_ok(l, k));
        let i = m.lanes[l][k] as int;
        assert(m.op_ok(i, None));
    }
    assert forall|k: int| 0 <= k < n.ready.len() implies #[trigger] n.ready_ok(k) by {
        assert(m.ready_ok(k));
    }
    assert forall|k: int| 0 <= k < n.pool.len() implies #[trigger] n.pool_ok(k) by {
        assert(m.pool_ok(k));
    }
}

/// Accepting a request keeps the engine valid.
pub(crate) proof fn lemma_submitted(m: Model, request: Request)
    requires
        m.valid(),
        m.running is None,
        m.live(request.handle),
        request.op.spec_index() < m.ops.len(),
        m.ops[request.op.spec_index()] is None,
        in_bounds(fresh(request)),
    ensures
        m.submitted(request).valid(),
{
    let i = request.op.spec_index();
    let l = m.lane(request);
    let n = Model {
        ops: m.ops.update(i, Some(fresh(request))),
        lanes: m.lanes.update(l, m.lanes[l].push(i as usize)),
        ..m
    };
    law_free_slot_is_silent(m, i);
    assert(!m.lanes[l].contains(i as usize));
    lemma_push(m.lanes[l], i as usize);
    assert forall|s: int| 0 <= s < n.resources.len() implies #[trigger] n.slot_ok(s) by {
        assert(m.slot_ok(s));
    }
    assert forall|j: int| 0 <= j < n.ops.len() implies #[trigger] n.op_ok(j, Some(i)) by {
        assert(m.op_ok(j, None));
        if j == i {
            assert(n.lanes[l].contains(i as usize));
        }
    }
    assert forall|a: int| 0 <= a < n.lanes.len() implies #[trigger] n.head_ok(a, Some(i)) by {
        assert(m.head_ok(a, None));
        if m.lanes[a].len() > 0 {
            assert(m.entry_ok(a, 0));
            assert(m.lanes[a].contains(m.lanes[a][0]));
        }
    }
    assert forall|a: int, k: int|
        0 <= a < n.lanes.len() && 0 <= k < n.lanes[a].len() implies #[trigger] n.entry_ok(a, k) by {
        if a != l || k < m.lanes[l].len() {
            assert(m.entry_ok(a, k));
            assert(m.lanes[a].contains(m.lanes[a][k]));
        }
    }
    assert forall|k: int| 0 <= k < n.ready.len() implies #[trigger] n.ready_ok(k) by {
        assert(m.ready_ok(k));
        assert(m.ready.contains(m.ready[k]));
    }
    assert forall|k: int| 0 <= k < n.pool.len() implies #[trigger] n.pool_ok(k) by {
        assert(m.pool_ok(k));
        assert(m.pool.contains(m.pool[k]));
    }
    lemma_scheduled(n, i);
    if m.lanes[l].len() > 0 {
        assert forall|j: int| 0 <= j < n.ops.len() implies #[trigger] n.op_ok(j, None) by {
            assert(n.op_ok(j, Some(i)));
        }
        assert forall|a: int| 0 <= a < n.lanes.len() implies #[trigger] n.head_ok(a, None) by {
            assert(m.head_ok(a, None));
            if m.lanes[a].len() > 0 {
                assert(m.entry_ok(a, 0));
                assert(m.lanes[a].contains(m.lanes[a][0]));
                assert(n.lanes[a][0] == m.lanes[a][0]);
            }
        }
    }
}

/// Picking up the oldest ready operation leaves at most that one to be scheduled.
pub(crate) proof fn lemma_popped(m: Model)
    requires
        m.valid(),
        m.running is None,
        m.ready.len() > 0,
    ensures
        m.ready[0] < m.ops.len(),
        m.ops[m.ready[0] as int] is Some,
        m.popped().valid_but(Some(m.ready[0] as int)),
        !m.popped().ops[m.ready[0] as int]->0.waiting,
        !m.popped().ops[m.ready[0] as int]->0.pool_wait,
{
    let n = m.popped();
    let i = m.ready[0] as int;
    assert(m.ready_ok(0));
    assert(m.op_ok(i, None));
    lemma_pop(m.ready);
    assert forall|s: int| 0 <= s < n.resources.len() implies #[trigger] n.slot_ok(s) by {
        assert(m.slot_ok(s));
    }
    assert forall|j: int| 0 <= j < n.ops.len() implies #[trigger] n.op_ok(j, Some(i)) by {
        assert(m.op_ok(j, None));
    }
    assert forall|l: int| 0 <= l < n.lanes.len() implies #[trigger] n.head_ok(l, Some(i)) by {
        assert(m.head_ok(l, None));
        if m.lanes[l].len() > 0 {
            assert(m.entry_ok(l, 0));
        }
    }
    assert forall|l: int, k: int|
        0 <= l < n.lanes.len() && 0 <= k < n.lanes[l].len() implies #[trigger] n.entry_ok(l, k) by {
        assert(m.entry_ok(l, k));
    }
    assert forall|k: int| 0 <= k < n.ready.len() implies #[trigger] n.ready_ok(k) by {
        assert(m.ready_ok(k + 1));
        assert(m.ready[k + 1] != m.ready[0]);
    }
    assert forall|k: int| 0 <= k < n.pool.len() implies #[trigger] n.pool_ok(k) by {
        assert(m.pool_ok(k));
    }
}

/// Ending an operation keeps the engine valid.
pub(crate) proof fn lemma_unlinked(m: Model, i: int)
    requires
        m.valid_but(Some(i)),
        0 <= i < m.ops.len(),
        m.ops[i] is Some,
        !m.ops[i]->0.queued,
        !m.ops[i]->0.pool_wait,
        m.running is None || m.running == Some(i as usize),
    ensures
        m.unlinked(i).valid(),
        m.lanes[m.lane(m.ops[i]->0.request)].contains(i as usize),
{
    assert(m.op_ok(i, Some(i)));
    let p = m.ops[i]->0;
    let l = m.lane(p.request);
    let rest = m.lanes[l].remove_value(i as usize);
    lemma_remove_value(m.lanes[l], i as usize);
    let n = Model {
        ops: m.ops.update(i, None),
        lanes: m.lanes.update(l, rest),
        running: None,
        ..m
    };
    let spare = if rest.len() > 0 {
        Some(rest[0] as int)
    } else {
        None
    };
    assert forall|s: int| 0 <= s < n.resources.len() implies #[trigger] n.slot_ok(s) by {
        assert(m.slot_ok(s));
    }
    assert forall|a: int, k: int|
        0 <= a < n.lanes.len() && 0 <= k < n.lanes[a].len() implies #[trigger] n.entry_ok(a, k) by {
        let x = n.lanes[a][k];
        assert(n.lanes[a].contains(x));
        assert(m.lanes[a].contains(x));
        let kk = choose|kk: int| 0 <= kk < m.lanes[a].len() && m.lanes[a][kk] == x;
        assert(m.entry_ok(a, kk));
    }
    assert forall|j: int| 0 <= j < n.ops.len() implies #[trigger] n.op_ok(j, spare) by {
        assert(m.op_ok(j, Some(i)));
        if j != i && m.ops[j] is Some {
            let q = m.ops[j]->0;
            if m.lane(q.request) == l {
                assert(n.lanes[l].contains(j as usize));
            }
        }
    }
    assert forall|a: int| 0 <= a < n.lanes.len() implies #[trigger] n.head_ok(a, spare) by {
        assert(m.head_ok(a, Some(i)));
        if a != l && m.lanes[a].len() > 0 {
            assert(m.entry_ok(a, 0));
        }
    }
    assert forall|k: int| 0 <= k < n.ready.len() implies #[trigger] n.ready_ok(k) by {
        assert(m.ready_ok(k));
    }
    assert forall|k: int| 0 <= k < n.pool.len() implies #[trigger] n.pool_ok(k) by {
        assert(m.pool_ok(k));
    }
    if rest.len() > 0 {
        assert(n.entry_ok(l, 0));
        lemma_scheduled(n, rest[0] as int);
    }
}

/// What an operation that goes on looks like.
pub open spec fn goes_on(p: Job, q: Job) -> bool {
    &&& q.request == p.request
    &&& in_bounds(q)
    &&& fits(q)
    &&& !q.queued
    &&& !q.cancelled
    &&& q.waiting ==> !q.pool_wait && q.completion is None
}

/// An operation that goes on keeps the engine valid.
proof fn lemma_parked(m: Model, i: int, q: Job)
    requires
        m.valid_but(Some(i)),
        0 <= i < m.ops.len(),
        m.ops[i] is Some,
        !m.ops[i]->0.queued,
        !m.ops[i]->0.pool_wait,
        m.running is None || m.running == Some(i as usize),
        goes_on(m.ops[i]->0, q),
    ensures
        m.parked(i, q).valid(),
{
    assert(m.op_ok(i, Some(i)));
    let p = m.ops[i]->0;
    let op = p.request.op;
    assert(!m.pool.contains(op)) by {
        if m.pool.contains(op) {
            let k = choose|k: int| 0 <= k < m.pool.len() && m.pool[k] == op;
            assert(m.pool_ok(k));
        }
    }
    lemma_push(m.pool, op);
    let n = Model {
        ops: m.ops.update(i, Some(q)),
        pool: if q.pool_wait {
            m.pool.push(op)
        } else {
            m.pool
        },
        running: None,
        ..m
    };
    assert forall|s: int| 0 <= s < n.resources.len() implies #[trigger] n.slot_ok(s) by {
        assert(m.slot_ok(s));
    }
    assert forall|a: int, k: int|
        0 <= a < n.lanes.len() && 0 <= k < n.lanes[a].len() implies #[trigger] n.entry_ok(a, k) by {
        assert(m.entry_ok(a, k));
    }
    assert forall|j: int| 0 <= j < n.ops.len() implies #[trigger] n.op_ok(j, Some(i)) by {
        assert(m.op_ok(j, Some(i)));
    }
    assert forall|a: int| 0 <= a < n.lanes.len() implies #[trigger] n.head_ok(a, Some(i)) by {
        assert(m.head_ok(a, Some(i)));
        if m.lanes[a].len() > 0 {
            assert(m.entry_ok(a, 0));
        }
    }
    assert forall|k: int| 0 <= k < n.ready.len() implies #[trigger] n.ready_ok(k) by {
        assert(m.ready_ok(k));
    }
    assert forall|k: int| 0 <= k < n.pool.len() implies #[trigger] n.pool_ok(k) by {
        if k < m.pool.len() {
            assert(m.pool_ok(k));
        }
    }
    lemma_scheduled(n, i);
}

/// Judging an attempt keeps the engine valid.
pub(crate) proof fn lemma_judged<D>(m: Model, i: int, q: Job, attempt: Attempt<D>)
    requires
        m.valid_but(Some(i)),
        0 <= i < m.ops.len(),
        m.ops[i] is Some,
        !m.ops[i]->0.queued,
        !m.ops[i]->0.pool_wait,
        m.running is None || m.running == Some(i as usize),
        goes_on(m.ops[i]->0, q),
    ensures
        m.judged(i, q, attempt).0.valid(),
        m.lanes[m.lane(m.ops[i]->0.request)].contains(i as usize),
{
    lemma_unlinked(m, i);
    lemma_parked(m, i, q);
    let again = Job { stage: Stage::Start, completion: None, ..q };
    lemma_parked(m, i, again);
}

/// Handing an operation to the host keeps the engine valid.
pub(crate) proof fn lemma_started(m: Model, i: int, q: Job)
    requires
        m.valid_but(Some(i)),
        m.running is None,
        0 <= i < m.ops.len(),
        m.ops[i] is Some,
        !m.ops[i]->0.queued,
        !m.ops[i]->0.pool_wait,
        goes_on(m.ops[i]->0, q),
        !q.waiting,
        !q.pool_wait,
        q.completion is None,
    ensures
        (Model { ops: m.ops.update(i, Some(q)), running: Some(i as usize), ..m }).valid(),
{
    assert(m.op_ok(i, Some(i)));
    let n = Model { ops: m.ops.update(i, Some(q)), running: Some(i as usize), ..m };
    assert forall|s: int| 0 <= s < n.resources.len() implies #[trigger] n.slot_ok(s) by {
        assert(m.slot_ok(s));
    }
    assert forall|a: int, k: int|
        0 <= a < n.lanes.len() && 0 <= k < n.lanes[a].len() implies #[trigger] n.entry_ok(a, k) by {
        assert(m.entry_ok(a, k));
    }
    assert forall|j: int| 0 <= j < n.ops.len() implies #[trigger] n.op_ok(j, None) by {
        assert(m.op_ok(j, Some(i)));
    }
    assert forall|a: int| 0 <= a < n.lanes.len() implies #[trigger] n.head_ok(a, None) by {
        assert(m.head_ok(a, Some(i)));
        if m.lanes[a].len() > 0 {
            assert(m.entry_ok(a, 0));
        }
    }
    assert forall|k: int| 0 <= k < n.ready.len() implies #[trigger] n.ready_ok(k) by {
        assert(m.ready_ok(k));
    }
    assert forall|k: int| 0 <= k < n.pool.len() implies #[trigger] n.pool_ok(k) by {
        assert(m.pool_ok(k));
    }
}

/// Changing one operation in place leaves at most that one to be scheduled. It left
/// the pool's queue if it was there.
proof fn lemma_touched(m: Model, i: int, q: Job)
    requires
        m.valid(),
        m.running is None,
        0 <= i < m.ops.len(),
        m.ops[i] is Some,
        q.request == m.ops[i]->0.request,
        in_bounds(q),
        fits(q),
        q.queued == m.ops[i]->0.queued,
        q.waiting ==> m.ops[i]->0.waiting,
        !q.pool_wait,
        q.waiting ==> q.completion is None,
    ensures
        (Model {
            ops: m.ops.update(i, Some(q)),
            pool: m.pool.remove_value(q.request.op),
            ..m
        }).valid_but(Some(i)),
{
    assert(m.op_ok(i, None));
    let op = q.request.op;
    lemma_remove_value(m.pool, op);
    let n = Model { ops: m.ops.update(i, Some(q)), pool: m.pool.remove_value(op), ..m };
    assert forall|s: int| 0 <= s < n.resources.len() implies #[trigger] n.slot_ok(s) by {
        assert(m.slot_ok(s));
    }
    assert forall|a: int, k: int|
        0 <= a < n.lanes.len() && 0 <= k < n.lanes[a].len() implies #[trigger] n.entry_ok(a, k) by {
        assert(m.entry_ok(a, k));
    }
    assert forall|j: int| 0 <= j < n.ops.len() implies #[trigger] n.op_ok(j, Some(i)) by {
        assert(m.op_ok(j, None));
    }
    assert forall|a: int| 0 <= a < n.lanes.len() implies #[trigger] n.head_ok(a, Some(i)) by {
        assert(m.head_ok(a, None));
        if m.lanes[a].len() > 0 {
            assert(m.entry_ok(a, 0));
        }
    }
    assert forall|k: int| 0 <= k < n.ready.len() implies #[trigger] n.ready_ok(k) by {
        assert(m.ready_ok(k));
    }
    assert forall|k: int| 0 <= k < n.pool.len() implies #[trigger] n.pool_ok(k) by {
        let x = n.pool[k];
        assert(n.pool.contains(x));
        let kk = choose|kk: int| 0 <= kk < m.pool.len() && m.pool[kk] == x;
        assert(m.pool_ok(kk));
    }
}

/// Cancelling keeps the engine valid.
pub(crate) proof fn lemma_withdrawn(m: Model, op: OpId)
    requires
        m.valid(),
        m.running is None,
    ensures
        m.withdrawn(op).valid(),
{
    if m.holds(op) {
        let i = op.spec_index();
        assert(m.op_ok(i, None));
        let q = Job { cancelled: true, pool_wait: false, ..m.ops[i]->0 };
        lemma_touched(m, i, q);
        lemma_scheduled(
            Model { ops: m.ops.update(i, Some(q)), pool: m.pool.remove_value(op), ..m },
            i,
        );
    }
}

/// Waking a pool waiter keeps the engine valid.
pub(crate) proof fn lemma_woken_one(m: Model)
    requires
        m.valid(),
        m.running is None,
        m.pool.len() > 0,
    ensures
        m.woken_one().valid(),
        m.woken_one().running is None,
        m.holds(m.pool[0]),
{
    let op = m.pool[0];
    let i = op.spec_index();
    assert(m.pool_ok(0));
    assert(m.op_ok(i, None));
    let q = Job { pool_wait: false, ..m.ops[i]->0 };
    lemma_touched(m, i, q);
    lemma_remove_value(m.pool, op);
    lemma_scheduled(
        Model { ops: m.ops.update(i, Some(q)), pool: m.pool.drop_first(), ..m },
        i,
    );
}

/// A packet for a waiting operation keeps the engine valid.
pub(crate) proof fn lemma_completed(m: Model, i: int, result: Result<u32, Error>)
    requires
        m.valid(),
        m.running is None,
        0 <= i < m.ops.len(),
        m.ops[i] is Some,
        m.ops[i]->0.waiting,
        fits(Job { waiting: false, completion: Some(result), ..m.ops[i]->0 }),
    ensures
        m.completed(i, result).valid(),
{
    assert(m.op_ok(i, None));
    let p = m.ops[i]->0;
    let q = Job { waiting: false, completion: Some(result), ..p };
    lemma_touched(m, i, q);
    assert(!m.pool.contains(p.request.op)) by {
        if m.pool.contains(p.request.op) {
            let k = choose|k: int| 0 <= k < m.pool.len() && m.pool[k] == p.request.op;
            assert(m.pool_ok(k));
        }
    }
    lemma_remove_value(m.pool, p.request.op);
    lemma_scheduled(Model { ops: m.ops.update(i, Some(q)), ..m }, i);
}

/// Removing a resource without operations keeps the engine valid.
pub(crate) proof fn lemma_removed(m: Model, h: Handle)
    requires
        m.valid(),
        m.running is None,
        m.live(h),
        m.lanes[2 * h.spec_index()].len() == 0,
        m.lanes[2 * h.spec_index() + 1].len() == 0,
    ensures
        m.removed(h).valid(),
{
    let n = m.removed(h);
    assert forall|s: int| 0 <= s < n.resources.len() implies #[trigger] n.slot_ok(s) by {
        assert(m.slot_ok(s));
    }
    assert forall|j: int| 0 <= j < n.ops.len() implies #[trigger] n.op_ok(j, None) by {
        assert(m.op_ok(j, None));
    }
    assert forall|l: int| 0 <= l < n.lanes.len() implies #[trigger] n.head_ok(l, None) by {
        assert(m.head_ok(l, None));
    }
    assert forall|l: int, k: int|
        0 <= l < n.lanes.len() && 0 <= k < n.lanes[l].len() implies #[trigger] n.entry_ok(l, k) by {
        assert(m.entry_ok(l, k));
        assert(m.op_ok(m.lanes[l][k] as int, None));
    }
    assert forall|k: int| 0 <= k < n.ready.len() implies #[trigger] n.ready_ok(k) by {
        assert(m.ready_ok(k));
    }
    assert forall|k: int| 0 <= k < n.pool.len() implies #[trigger] n.pool_ok(k) by {
        assert(m.pool_ok(k));
    }
}

/// Whether a handle is a socket.
pub open spec fn is_socket(kind: Kind) -> bool {
    kind == Kind::Tcp || kind == Kind::Listener || kind == Kind::Udp
}

/// Why a request is refused, if it is.
pub open spec fn refusal(m: Model, request: Request) -> Option<Error> {
    let i = request.op.spec_index();
    if !m.live(request.handle) {
        Some(Error::plain(ErrorKind::NotFound))
    } else if !takes(m.resources[request.handle.spec_index()]->0.kind, request.operation) {
        Some(Error::plain(ErrorKind::Unsupported))
    } else if request.operation is SendHandle && !m.live(request.operation->SendHandle_0) {
        Some(Error::plain(ErrorKind::NotFound))
    } else if request.operation is SendHandle && !is_socket(
        m.resources[request.operation->SendHandle_0.spec_index()]->0.kind,
    ) {
        Some(Error::plain(ErrorKind::Unsupported))
    } else if i >= m.ops.len() || m.ops[i] is Some {
        Some(Error::plain(ErrorKind::InvalidInput))
    } else {
        None
    }
}

/// A packet of the port.
#[derive(Clone, Copy, Debug, PartialEq, Eq, Structural)]
pub struct Entry {
    pub key: usize,
    /// The address of the kernel storage that it is about.
    pub overlapped: usize,
    pub bytes: u32,
    /// Negative for a failure.
    pub status: i32,
    /// That failure as an error.
    pub error: Error,
}

impl Entry {
    /// How the call of a native packet ended.
    pub open spec fn outcome(self) -> Result<u32, Error> {
        if self.status < 0 {
            Err(self.error)
        } else {
            Ok(self.bytes)
        }
    }
}

/// What a packet asks of the host.
#[derive(Clone, Copy, Debug, PartialEq, Eq, Structural)]
pub enum Arrived {
    Nothing,
    /// The timer's packet with this generation was dequeued.
    Timer(usize),
    /// Take the result of the worker of this handle, and complete the slot with it.
    Worker { slot: usize, handle: Handle },
    /// Take the result of the slot's waited event, and complete the slot with it.
    Bridge(usize),
}

/// Where the kernel storage of a slot lies.
pub open spec fn storage(base: usize, stride: usize, slot: int) -> int {
    base + slot * stride
}

/// The slot that a kernel packet is about: packets name kernel storage by address,
/// and the storage of slot `k` lies `k` strides above its base.
pub fn slot_of(address: usize, base: usize, stride: usize, slots: usize) -> (slot: Result<
    usize,
    Error,
>)
    requires
        stride > 0,
    ensures
        match slot {
            Ok(k) => k < slots && address == storage(base, stride, k as int),
            Err(e) => e == Error::plain(ErrorKind::InvalidInput) && forall|k: int|
                0 <= k < slots ==> address != #[trigger] storage(base, stride, k),
        },
{
    match address.checked_sub(base) {
        None => {
            assert forall|k: int| 0 <= k < slots implies address != #[trigger] storage(
                base,
                stride,
                k,
            ) by {
                assert(k * stride >= 0) by (nonlinear_arith)
                    requires
                        k >= 0,
                        stride > 0,
                ;
            }
            Err(invalid())
        },
        Some(offset) => {
            let k: usize = offset / stride;
            assert(offset == stride * (offset / stride) + offset % stride) by (nonlinear_arith)
                requires
                    stride > 0,
            ;
            assert(stride * k == k * stride) by (nonlinear_arith);
            if offset % stride != 0 || k >= slots {
                assert forall|j: int| 0 <= j < slots implies address != #[trigger] storage(
                    base,
                    stride,
                    j,
                ) by {
                    if offset == j * stride {
                        assert(j * stride / (stride as int) == j && j * stride % (stride as int)
                            == 0) by (nonlinear_arith)
                            requires
                                stride > 0,
                                j >= 0,
                        ;
                    }
                }
                return Err(invalid());
            }
            Ok(k)
        },
    }
}

/// The completion engine over a port.
pub struct Iocp {
    resources: Vec<Option<Resource>>,
    ops: Vec<Option<Job>>,
    lanes: Lanes,
    ready: VecDeque<usize>,
    pool: VecDeque<OpId>,
    running: Option<usize>,
}

impl View for Iocp {
    type V = Model;

    closed spec fn view(&self) -> Model {
        Model {
            resources: self.resources@,
            ops: self.ops@,
            lanes: self.lanes@,
            ready: self.ready@,
            pool: self.pool@,
            running: self.running,
        }
    }
}

impl Iocp {
    /// The linked queues spell out the model, and the model is valid.
    pub closed spec fn wf(&self) -> bool {
        &&& self.lanes.wf()
        &&& self.lanes.slots() == self.ops@.len()
        &&& 2 * self.resources@.len() <= usize::MAX
        &&& self@.valid()
    }

    /// What is true of valid tables is true of every table that calls lead to.
    pub proof fn law_tables_are_valid(&self)
        requires
            self.wf(),
        ensures
            self@.valid(),
    {
    }

    /// Room for `handles` resources and `operations` operations.
    pub fn new(handles: usize, operations: usize) -> (engine: Self)
        requires
            2 * handles <= usize::MAX,
        ensures
            engine.wf(),
            engine@.resources == Seq::new(handles as nat, |s: int| None::<Resource>),
            engine@.ops == Seq::new(operations as nat, |i: int| None::<Job>),
            engine@.lanes == Seq::new((2 * handles) as nat, |l: int| Seq::<usize>::empty()),
            engine@.ready == Seq::<usize>::empty(),
            engine@.pool == Seq::<OpId>::empty(),
            engine@.running is None,
    {
        let mut resources: Vec<Option<Resource>> = Vec::new();
        let mut ops: Vec<Option<Job>> = Vec::new();
        let mut s: usize = 0;
        while s < handles
            invariant
                s <= handles,
                resources@ == Seq::new(s as nat, |s: int| None::<Resource>),
            decreases handles - s,
        {
            resources.push(None);
            s = s + 1;
        }
        let mut i: usize = 0;
        while i < operations
            invariant
                i <= operations,
                ops@ == Seq::new(i as nat, |i: int| None::<Job>),
            decreases operations - i,
        {
            ops.push(None);
            i = i + 1;
        }
        Iocp {
            resources,
            ops,
            lanes: Lanes::new(2 * handles, operations),
            ready: VecDeque::new(),
            pool: VecDeque::new(),
            running: None,
        }
    }

    /// The resource behind exactly this handle.
    pub fn get(&self, h: Handle) -> (found: Result<Resource, Error>)
        ensures
            found == (if self@.live(h) {
                Ok(self@.resources[h.spec_index()]->0)
            } else {
                Err(Error::plain(ErrorKind::NotFound))
            }),
    {
        let s: usize = h.index();
        if s < self.resources.len() {
            if let Some(r) = self.resources[s] {
                if r.handle == h {
                    return Ok(r);
                }
            }
        }
        Err(Error::new(ErrorKind::NotFound))
    }

    /// Whether the slot of `h` is free to bind.
    pub fn vacant(&self, h: Handle) -> (free: bool)
        ensures
            free == (h.spec_index() < self@.resources.len() && self@.resources[h.spec_index()]
                is None),
    {
        let s: usize = h.index();
        s < self.resources.len() && self.resources[s].is_none()
    }

    /// Bind a resource to a free slot, on the port with this identity. `associated` is how
    /// associating it went, where that was due.
    pub fn install(&mut self, r: Resource, port: u64, associated: Result<bool, Error>) -> (done:
        Result<(), Error>)
        requires
            old(self).wf(),
        ensures
            final(self).wf(),
            if r.handle.spec_index() < old(self)@.resources.len()
                && old(self)@.resources[r.handle.spec_index()] is None {
                match attached(r, port, associated) {
                    Ok(bound) => done is Ok && final(self)@ == old(self)@.installed(bound),
                    Err(e) => done == Err::<(), Error>(e) && final(self)@ == old(self)@,
                }
            } else {
                done == Err::<(), Error>(Error::plain(ErrorKind::InvalidInput)) && final(self)@
                    == old(self)@
            },
    {
        if !self.vacant(r.handle) {
            return Err(invalid());
        }
        let bound = match attach(r, port, associated) {
            Ok(bound) => bound,
            Err(e) => {
                return Err(e);
            },
        };
        proof {
            lemma_installed(self@, bound);
        }
        let s: usize = bound.handle.index();
        self.resources[s] = Some(bound);
        Ok(())
    }

    /// Queue an operation that neither the kernel nor the pool holds back.
    fn schedule(&mut self, i: usize)
        requires
            i < old(self).ops@.len(),
        ensures
            final(self)@ == old(self)@.scheduled(i as int),
            final(self).lanes == old(self).lanes,
            final(self).resources == old(self).resources,
    {
        let ghost before = self.ops@;
        let mut push = false;
        match &mut self.ops[i] {
            Some(p) => {
                if !p.queued && !p.waiting && !p.pool_wait {
                    p.queued = true;
                    push = true;
                }
            },
            None => {},
        }
        if push {
            assert(self.ops@ =~= before.update(
                i as int,
                Some(Job { queued: true, ..before[i as int]->0 }),
            ));
            self.ready.push_back(i);
        } else {
            assert(self.ops@ =~= before);
        }
    }

    fn lane(&self, kind: Kind, h: Handle, d: Direction) -> (l: usize)
        requires
            2 * self.resources@.len() <= usize::MAX,
            h.spec_index() < self.resources@.len(),
        ensures
            l == (if kind == Kind::Sync {
                2 * h.spec_index()
            } else {
                lane_of(h, d)
            }),
            l < 2 * self.resources@.len(),
    {
        if kind == Kind::Sync {
            return 2 * h.index();
        }
        match d {
            Direction::In => 2 * h.index(),
            Direction::Out => 2 * h.index() + 1,
        }
    }

    /// Accept a request at the end of its queue.
    pub fn submit(&mut self, request: Request) -> (done: Result<(), Error>)
        requires
            old(self).wf(),
            old(self)@.running is None,
            payload(request.operation) <= usize::MAX,
        ensures
            final(self).wf(),
            match refusal(old(self)@, request) {
                Some(e) => done == Err::<(), Error>(e) && final(self)@ == old(self)@,
                None => done is Ok && final(self)@ == old(self)@.submitted(request),
            },
    {
        let h = request.handle;
        let kind = match self.get(h) {
            Ok(r) => r.kind,
            Err(e) => {
                return Err(e);
            },
        };
        if !accepts(kind, &request.operation) {
            return Err(unsupported());
        }
        if let Operation::SendHandle(source) = &request.operation {
            match self.get(*source) {
                Err(e) => {
                    return Err(e);
                },
                Ok(from) => {
                    if from.kind != Kind::Tcp && from.kind != Kind::Listener && from.kind
                        != Kind::Udp {
                        return Err(unsupported());
                    }
                },
            }
        }
        let i: usize = request.op.index();
        if i >= self.ops.len() || self.ops[i].is_some() {
            return Err(invalid());
        }
        let l: usize = self.lane(kind, h, request.operation.direction());
        let first = self.lanes.head(l).is_none();
        proof {
            lemma_payload_nonnegative(request.operation);
            lemma_submitted(self@, request);
            law_free_slot_is_silent(self@, i as int);
        }
        self.lanes.push(l, i);
        self.ops[i] = Some(
            Job {
                request,
                stage: Stage::Start,
                waiting: false,
                queued: false,
                pool_wait: false,
                cancelled: false,
                completion: None,
                offset: 0,
                count: 0,
                lease: None,
            },
        );
        if first {
            self.schedule(i);
        }
        Ok(())
    }

    /// The slot that a native cancellation has to name before `cancel`, if the kernel
    /// holds the operation.
    pub fn cancel_target(&self, op: OpId) -> (slot: Option<usize>)
        ensures
            slot == (if self@.holds(op) && self@.ops[op.spec_index()]->0.waiting {
                Some(op.spec_index() as usize)
            } else {
                None
            }),
    {
        let i: usize = op.index();
        if i < self.ops.len() {
            if let Some(p) = &self.ops[i] {
                if p.request.op == op && p.waiting {
                    return Some(i);
                }
            }
        }
        None
    }

    /// Mark an operation as cancelled. `native` is the reply of the native cancellation,
    /// or success where none was needed. That the kernel no longer knows the operation
    /// is no failure: its packet is on its way.
    pub fn cancel(&mut self, op: OpId, native: Result<(), Error>) -> (done: Result<(), Error>)
        requires
            old(self).wf(),
            old(self)@.running is None,
        ensures
            final(self).wf(),
            if old(self)@.holds(op) && old(self)@.ops[op.spec_index()]->0.waiting && (
            native matches Err(e) && e.os != Some(crate::iocp::codes::ERROR_NOT_FOUND)) {
                done == native && final(self)@ == old(self)@
            } else {
                done is Ok && final(self)@ == old(self)@.withdrawn(op)
            },
    {
        let i: usize = op.index();
        if i >= self.ops.len() {
            return Ok(());
        }
        let waiting = match &self.ops[i] {
            None => {
                return Ok(());
            },
            Some(p) => {
                if p.request.op != op {
                    return Ok(());
                }
                p.waiting
            },
        };
        if waiting {
            if let Err(e) = native {
                if e.os != Some(crate::iocp::codes::ERROR_NOT_FOUND) {
                    return Err(e);
                }
            }
        }
        proof {
            lemma_withdrawn(self@, op);
        }
        let ghost before = self.ops@;
        let ghost pool = self.pool@;
        match &mut self.ops[i] {
            Some(p) => {
                p.cancelled = true;
                p.pool_wait = false;
            },
            None => {},
        }
        assert(self.ops@ =~= before.update(
            i as int,
            Some(Job { cancelled: true, pool_wait: false, ..before[i as int]->0 }),
        ));
        remove_op(&mut self.pool, op);
        self.schedule(i);
        Ok(())
    }

    /// Run everything again that waited for a pool buffer, longest first.
    pub fn wake_pool(&mut self)
        requires
            old(self).wf(),
            old(self)@.running is None,
        ensures
            final(self).wf(),
            final(self)@ == old(self)@.woken(old(self)@.pool.len()),
            final(self)@.running is None,
            final(self)@.pool.len() == 0,
    {
        let ghost before = self@;
        let ghost mut n: nat = 0;
        while self.pool.len() > 0
            invariant
                self.wf(),
                self@.running is None,
                before == old(self)@,
                n + self@.pool.len() == before.pool.len(),
                self@ == before.woken(n),
            decreases self@.pool.len(),
        {
            let ghost current = self@;
            proof {
                lemma_woken_one(current);
            }
            if let Some(op) = self.pool.pop_front() {
                let i: usize = op.index();
                let ghost was = self.ops@;
                match &mut self.ops[i] {
                    Some(p) => {
                        p.pool_wait = false;
                    },
                    None => {},
                }
                assert(self.ops@ =~= was.update(
                    i as int,
                    Some(Job { pool_wait: false, ..was[i as int]->0 }),
                ));
                self.schedule(i);
                proof {
                    n = n + 1;
                    assert(self@ == current.woken_one());
                }
            }
        }
    }

    /// A packet for the operation in `slot` arrived. A packet that no waiting operation
    /// expects is refused.
    pub fn complete(&mut self, slot: usize, result: Result<u32, Error>) -> (done: Result<
        (),
        Error,
    >)
        requires
            old(self).wf(),
            old(self)@.running is None,
            slot < old(self)@.ops.len() ==> (old(self)@.ops[slot as int] matches Some(p) ==> fits(
                Job { waiting: false, completion: Some(result), ..p },
            )),
        ensures
            final(self).wf(),
            final(self)@.running is None,
            if slot < old(self)@.ops.len() && (old(self)@.ops[slot as int] matches Some(p)
                && p.waiting) {
                done is Ok && final(self)@ == old(self)@.completed(slot as int, result)
            } else {
                done == Err::<(), Error>(Error::plain(ErrorKind::InvalidInput)) && final(self)@
                    == old(self)@
            },
    {
        if slot >= self.ops.len() {
            return Err(invalid());
        }
        let ghost before = self.ops@;
        let waiting = match &self.ops[slot] {
            Some(p) => p.waiting,
            None => false,
        };
        if !waiting {
            return Err(invalid());
        }
        proof {
            lemma_completed(self@, slot as int, result);
        }
        match &mut self.ops[slot] {
            Some(p) => {
                p.waiting = false;
                p.completion = Some(result);
            },
            None => {},
        }
        assert(self.ops@ =~= before.update(
            slot as int,
            Some(Job { waiting: false, completion: Some(result), ..before[slot as int]->0 }),
        ));
        self.schedule(slot);
        Ok(())
    }

    /// Take a packet. The kernel storage of slot `k` lies `k` strides above `base`. A packet
    /// that names no storage is refused, and so is one that nobody waits for.
    pub fn entry(&mut self, entry: Entry, keys: Keys, base: usize, stride: usize) -> (arrived:
        Result<Arrived, Error>)
        requires
            old(self).wf(),
            old(self)@.running is None,
            stride > 0,
            forall|k: int|
                0 <= k < old(self)@.ops.len() && entry.overlapped == #[trigger] storage(
                    base,
                    stride,
                    k,
                ) ==> (old(self)@.ops[k] matches Some(p) ==> fits(
                    Job { waiting: false, completion: Some(entry.outcome()), ..p },
                )),
        ensures
            final(self).wf(),
            final(self)@.running is None,
            match route_of(entry.key, keys) {
                Route::Wake => arrived == Ok::<Arrived, Error>(Arrived::Nothing) && final(self)@
                    == old(self)@,
                Route::Timer => arrived == Ok::<Arrived, Error>(Arrived::Timer(entry.overlapped))
                    && final(self)@ == old(self)@,
                to => {
                    &&& (forall|k: int|
                        0 <= k < old(self)@.ops.len() ==> entry.overlapped != #[trigger] storage(
                            base,
                            stride,
                            k,
                        )) ==> arrived == Err::<Arrived, Error>(
                        Error::plain(ErrorKind::InvalidInput),
                    ) && final(self)@ == old(self)@
                    &&& forall|k: int|
                        0 <= k < old(self)@.ops.len() && entry.overlapped == #[trigger] storage(
                            base,
                            stride,
                            k,
                        ) ==> (final(self)@, arrived) == old(self)@.arrived(to, k, entry.outcome())
                },
            },
    {
        let to = route(entry.key, keys);
        match to {
            Route::Wake => {
                return Ok(Arrived::Nothing);
            },
            Route::Timer => {
                return Ok(Arrived::Timer(entry.overlapped));
            },
            _ => {},
        }
        let slot: usize = match slot_of(entry.overlapped, base, stride, self.ops.len()) {
            Ok(slot) => slot,
            Err(e) => {
                return Err(e);
            },
        };
        proof {
            assert forall|k: int|
                0 <= k < self@.ops.len() && entry.overlapped == #[trigger] storage(
                    base,
                    stride,
                    k,
                ) implies k == slot by {
                assert(k == slot) by (nonlinear_arith)
                    requires
                        base + k * stride == base + slot * stride,
                        stride > 0,
                ;
            }
        }
        match to {
            Route::Worker => match &self.ops[slot] {
                Some(p) => Ok(Arrived::Worker { slot, handle: p.request.handle }),
                None => Err(invalid()),
            },
            Route::Bridge => Ok(Arrived::Bridge(slot)),
            _ => {
                let result: Result<u32, Error> = if entry.status < 0 {
                    Err(entry.error)
                } else {
                    Ok(entry.bytes)
                };
                match self.complete(slot, result) {
                    Ok(_) => Ok(Arrived::Nothing),
                    Err(e) => Err(e),
                }
            },
        }
    }

    /// Whether an operation can be run now, given whether the pool has a buffer.
    pub fn has_work(&self, available: bool) -> (work: bool)
        ensures
            work == (self@.ready.len() > 0 || available && self@.pool.len() > 0),
    {
        self.ready.len() > 0 || (available && self.pool.len() > 0)
    }

    /// Operations that one pass picks up at most.
    pub fn budget(&self) -> (n: usize)
        ensures
            n == self@.ready.len(),
    {
        self.ready.len()
    }

    /// End the operation in slot `i`, which lies in lane `l`.
    fn unlink(&mut self, l: usize, i: usize)
        requires
            old(self).lanes.wf(),
            old(self).lanes@.len() == 2 * old(self).resources@.len(),
            old(self).lanes.slots() == old(self).ops@.len(),
            i < old(self).ops@.len(),
            old(self).ops@[i as int] is Some,
            l == old(self)@.lane(old(self)@.ops[i as int]->0.request),
            l < old(self).lanes@.len(),
            old(self).lanes@[l as int].contains(i),
        ensures
            final(self)@ == old(self)@.unlinked(i as int),
            final(self).lanes.wf(),
            final(self).lanes.slots() == old(self).lanes.slots(),
            final(self).resources == old(self).resources,
    {
        self.lanes.unlink(l, i);
        self.ops[i] = None;
        self.running = None;
        if let Some(next) = self.lanes.head(l) {
            proof {
                self.lanes.law_in_range(l as int, 0);
            }
            self.schedule(next);
        }
    }

    /// Let the operation in slot `i` go on as `p`.
    fn park(&mut self, i: usize, p: Job)
        requires
            i < old(self).ops@.len(),
        ensures
            final(self)@ == old(self)@.parked(i as int, p),
            final(self).lanes == old(self).lanes,
            final(self).resources == old(self).resources,
    {
        if p.pool_wait {
            self.pool.push_back(p.request.op);
        }
        self.ops[i] = Some(p);
        self.running = None;
        self.schedule(i);
    }

    /// The pool buffer that an operation has.
    pub fn lease(&self, op: OpId) -> (lease: Option<Lease>)
        ensures
            lease == (if self@.holds(op) {
                self@.ops[op.spec_index()]->0.lease
            } else {
                None
            }),
    {
        let i: usize = op.index();
        if i >= self.ops.len() {
            return None;
        }
        match &self.ops[i] {
            Some(p) => if p.request.op == op {
                p.lease
            } else {
                None
            },
            None => None,
        }
    }

    /// Take one step of a pass over the ready operations.
    pub fn advance<D>(&mut self, budget: &mut usize, room: bool) -> (step: Step<D>)
        requires
            old(self).wf(),
            old(self)@.running is None,
        ensures
            final(self).wf(),
            (final(self)@, *final(budget) as nat, step) == old(self)@.advanced::<D>(
                *old(budget) as nat,
                room,
            ),
    {
        let ghost before = self@;
        if *budget == 0 || !room {
            return Step::Done;
        }
        let i: usize = match self.ready.pop_front() {
            None => {
                return Step::Done;
            },
            Some(i) => i,
        };
        proof {
            lemma_popped(before);
            assert(before.op_ok(i as int, None));
            assert(before.popped().op_ok(i as int, Some(i as int)));
        }
        *budget = *budget - 1;
        let ghost popped = before.popped();
        let taken = self.ops[i].take();
        match taken {
            None => {
                assert(false);
                Step::Again
            },
            Some(mut p) => {
                let ghost p0 = popped.ops[i as int]->0;
                p.queued = false;
                assert(p == p0);
                let op = p.request.op;
                let h = p.request.handle;
                let kind = match self.resources[h.index()] {
                    Some(r) => r.kind,
                    None => Kind::Sync,
                };
                let l: usize = self.lane(kind, h, p.request.operation.direction());
                if p.cancelled {
                    self.ops[i] = Some(p);
                    proof {
                        assert(self@ =~= popped);
                        lemma_unlinked(popped, i as int);
                    }
                    self.unlink(l, i);
                    return Step::Report(
                        Event { op, terminal: true, result: Ok(Outcome::Cancelled) },
                    );
                }
                let attempt = absorb::<D>(kind, &mut p);
                proof {
                    lemma_absorbed_flags::<D>(kind, p0);
                }
                let ghost q = p;
                match attempt {
                    None => {
                        self.ops[i] = Some(p);
                        self.running = Some(i);
                        proof {
                            lemma_started(popped, i as int, q);
                            assert(self@ =~= (Model {
                                ops: popped.ops.update(i as int, Some(q)),
                                running: Some(i),
                                ..popped
                            }));
                        }
                        Step::Execute(i)
                    },
                    Some(attempt) => {
                        proof {
                            lemma_judged(popped, i as int, q, attempt);
                            assert(self@ =~= (Model {
                                ops: popped.ops.update(i as int, None),
                                ..popped
                            }));
                        }
                        let step = self.judge(l, i, Ghost(popped), p, attempt);
                        match step {
                            Some(event) => Step::Report(event),
                            None => Step::Again,
                        }
                    },
                }
            },
        }
    }

    /// Act on an attempt of an operation that was taken out of its slot.
    fn judge<D>(
        &mut self,
        l: usize,
        i: usize,
        Ghost(popped): Ghost<Model>,
        p: Job,
        attempt: Attempt<D>,
    ) -> (event: Option<Event<D>>)
        requires
            old(self).lanes.wf(),
            old(self).lanes@.len() == 2 * old(self).resources@.len(),
            old(self).lanes.slots() == old(self).ops@.len(),
            i < old(self).ops@.len(),
            popped.ops.len() == old(self).ops@.len(),
            popped.ops[i as int] is Some,
            old(self)@ == (Model { ops: popped.ops.update(i as int, None), ..popped }),
            p.request == popped.ops[i as int]->0.request,
            l == popped.lane(p.request),
            l < old(self).lanes@.len(),
            old(self).lanes@[l as int].contains(i),
        ensures
            (final(self)@, event) == popped.judged(i as int, p, attempt),
            final(self).lanes.wf(),
            final(self).lanes.slots() == old(self).lanes.slots(),
            final(self).resources == old(self).resources,
    {
        let op = p.request.op;
        match attempt {
            Err(e) => {
                self.ops[i] = Some(p);
                self.unlink(l, i);
                assert(self@ =~= popped.unlinked(i as int));
                Some(Event { op, terminal: true, result: Err(e) })
            },
            Ok(Some((outcome, terminal))) => {
                if terminal {
                    self.ops[i] = Some(p);
                    self.unlink(l, i);
                    assert(self@ =~= popped.unlinked(i as int));
                } else {
                    let ghost q = Job { stage: Stage::Start, completion: None, ..p };
                    self.park(i, Job { stage: Stage::Start, completion: None, ..p });
                    assert(self@ =~= popped.parked(i as int, q));
                }
                Some(Event { op, terminal, result: Ok(outcome) })
            },
            Ok(None) => {
                let ghost q = p;
                self.park(i, p);
                assert(self@ =~= popped.parked(i as int, q));
                None
            },
        }
    }

    /// The call that the running operation needs.
    pub fn running_call(&self) -> (call: Option<Call>)
        requires
            self.wf(),
        ensures
            match self@.running {
                Some(i) => call is Some && carries(
                    self@.resources[self@.ops[i as int]->0.request.handle.spec_index()]->0,
                    self@.ops[i as int]->0,
                    call->0,
                ),
                None => call is None,
            },
    {
        match self.running {
            Some(i) => {
                proof {
                    assert(self@.op_ok(i as int, None));
                }
                match &self.ops[i] {
                    Some(p) => match &self.resources[p.request.handle.index()] {
                        Some(r) => Some(plan(r, p)),
                        None => None,
                    },
                    None => None,
                }
            },
            None => None,
        }
    }

    /// Apply the reply to the running operation, and report the completion it brings.
    pub fn settle<D>(&mut self, reply: Reply<D>) -> (event: Option<Event<D>>)
        requires
            old(self).wf(),
            old(self)@.running matches Some(i) && answers(
                old(self)@.resources[old(
                    self,
                )@.ops[i as int]->0.request.handle.spec_index()]->0,
                old(self)@.ops[i as int]->0,
                reply,
            ),
        ensures
            final(self).wf(),
            (final(self)@, event) == old(self)@.settled(reply),
            final(self)@.running is None,
    {
        let ghost before = self@;
        if let Some(i) = self.running {
            proof {
                assert(before.op_ok(i as int, None));
                lemma_spared(before, i as int);
            }
            let taken = self.ops[i].take();
            if let Some(mut p) = taken {
                let h = p.request.handle;
                let d = p.request.operation.direction();
                if let Some(r) = self.resources[h.index()] {
                    let ghost p0 = p;
                    let l: usize = self.lane(r.kind, h, d);
                    let attempt = execute(&r, &mut p, reply);
                    proof {
                        lemma_executed_flags(r, p0, reply);
                        lemma_judged(before, i as int, p, attempt);
                        assert(self@ =~= (Model { ops: before.ops.update(i as int, None), ..before }));
                    }
                    return self.judge(l, i, Ghost(before), p, attempt);
                }
            }
        }
        assert(false);
        None
    }

    /// Forget a closed resource. Its operations have all ended.
    pub fn release(&mut self, h: Handle)
        requires
            old(self).wf(),
            old(self)@.running is None,
            forall|i: int|
                0 <= i < old(self)@.ops.len() && (#[trigger] old(self)@.ops[i]) is Some
                    ==> old(self)@.ops[i]->0.request.handle != h,
        ensures
            final(self).wf(),
            final(self)@ == (if old(self)@.live(h) {
                old(self)@.removed(h)
            } else {
                old(self)@
            }),
    {
        if self.get(h).is_ok() {
            proof {
                lemma_no_operation_no_queue(self@, h);
                lemma_removed(self@, h);
            }
            let s: usize = h.index();
            self.resources[s] = None;
        }
    }

    /// Give a quiescent resource back to its owner. It keeps its port. The instances behind a
    /// pipe listener stay.
    pub fn detach(&mut self, h: Handle) -> (taken: Result<Resource, Error>)
        requires
            old(self).wf(),
            old(self)@.running is None,
        ensures
            final(self).wf(),
            ({
                let s = h.spec_index();
                let r = old(self)@.resources[s]->0;
                if !old(self)@.live(h) {
                    taken == Err::<Resource, Error>(Error::plain(ErrorKind::NotFound))
                        && final(self)@ == old(self)@
                } else if r.kind == Kind::PipeListener {
                    taken == Err::<Resource, Error>(Error::plain(ErrorKind::Unsupported))
                        && final(self)@ == old(self)@
                } else if old(self)@.lanes[2 * s].len() > 0 || old(self)@.lanes[2 * s + 1].len()
                    > 0 {
                    taken == Err::<Resource, Error>(Error::plain(ErrorKind::WouldBlock))
                        && final(self)@ == old(self)@
                } else {
                    taken == Ok::<Resource, Error>(r) && final(self)@
                        == old(self)@.removed(h)
                }
            }),
    {
        let r = match self.get(h) {
            Ok(r) => r,
            Err(e) => {
                return Err(e);
            },
        };
        if r.kind == Kind::PipeListener {
            return Err(unsupported());
        }
        let first: usize = 2 * h.index();
        if self.lanes.head(first).is_some() || self.lanes.head(first + 1).is_some() {
            return Err(Error::new(ErrorKind::WouldBlock));
        }
        proof {
            lemma_removed(self@, h);
        }
        let s: usize = h.index();
        self.resources[s] = None;
        Ok(r)
    }
}

/// A live handle without operations has empty queues.
proof fn lemma_no_operation_no_queue(m: Model, h: Handle)
    requires
        m.valid(),
        m.live(h),
        forall|i: int|
            0 <= i < m.ops.len() && (#[trigger] m.ops[i]) is Some ==> m.ops[i]->0.request.handle
                != h,
    ensures
        m.lanes[2 * h.spec_index()].len() == 0,
        m.lanes[2 * h.spec_index() + 1].len() == 0,
{
    let s = h.spec_index();
    assert forall|l: int| 2 * s <= l <= 2 * s + 1 implies (#[trigger] m.lanes[l]).len() == 0 by {
        if m.lanes[l].len() > 0 {
            assert(m.entry_ok(l, 0));
            let i = m.lanes[l][0] as int;
            assert(m.op_ok(i, None));
            assert(m.live(m.ops[i]->0.request.handle));
        }
    }
}

/// Absorbing a completion never parks an operation.
pub(crate) proof fn lemma_absorbed_flags<D>(kind: Kind, p: Job)
    requires
        in_bounds(p),
        fits(p),
        !p.queued,
        !p.waiting,
        !p.pool_wait,
        !p.cancelled,
    ensures
        goes_on(p, absorbed::<D>(kind, p).0),
        !absorbed::<D>(kind, p).0.waiting,
        !absorbed::<D>(kind, p).0.pool_wait,
        absorbed::<D>(kind, p).0.completion is None,
{
}

/// A reply leaves an operation with the kernel, with the pool, or with the engine.
pub(crate) proof fn lemma_executed_flags<D>(r: Resource, p: Job, reply: Reply<D>)
    requires
        in_bounds(p),
        !p.queued,
        !p.waiting,
        !p.pool_wait,
        !p.cancelled,
        p.completion is None,
        answers(r, p, reply),
    ensures
        goes_on(p, executed(r, p, reply).0),
{
}

} // verus!
