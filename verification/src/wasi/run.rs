//! A run over the file-system requests of a loop: acknowledgements first, then the requests
//! that can run, one by one, as long as there is room to tell of them.
use crate::counting::{count, lemma_count_one, lemma_count_sum, lemma_owing_first, owing};
use crate::queues::{lemma_pop, lemma_push, lemma_remove_value};
use crate::types::{cancelled_event, Error, Event, Handle, Lease, OpId, Outcome};
use crate::wasi::files::{
    lemma_apart, lemma_cancelled, lemma_dropped, lemma_marked, lemma_objects, lemma_submitted,
    lemma_woken, Files, Model, Pending,
};
use crate::wasi::requests::{needs_buffer, servable, FsOutput, FsRequest, Object};
use vstd::prelude::*;

verus! {

/// What a run does next.
pub enum Step<D> {
    /// Tell of an acknowledged cancellation.
    Tell(Event<D>),
    /// Run this request, with a buffer if it needs one, and complete it.
    Run(Pending),
    /// Nothing more.
    End,
}

/// What is told of a request that ran. A failed one gives its buffer back.
pub open spec fn completion<D>(
    op: OpId,
    result: Result<FsOutput, Error>,
    lease: Option<Lease>,
) -> Event<D> {
    Event {
        op,
        terminal: true,
        result: match result {
            Ok(output) => Ok(Outcome::Fs { output, lease }),
            Err(e) => Err(e),
        },
    }
}

impl Model {
    /// The oldest cancellation was acknowledged.
    pub open spec fn acknowledged(self) -> Model {
        Model { cancelled: self.cancelled.drop_first(), ..self }
    }

    /// The oldest request that can run needs a buffer.
    pub open spec fn hungry(self) -> bool {
        self.ready.len() > 0 && self.ops[self.ready[0] as int]->0.pooled
    }

    /// Without a buffer, requests that need one make way for the next.
    pub open spec fn yielded(self, available: bool) -> Model
        decreases self.ready.len(),
    {
        if !available && self.hungry() {
            self.parked().yielded(available)
        } else {
            self
        }
    }

    /// One step of a run, which has `begun` with the requests or is still acknowledging.
    /// Requests that wait for a buffer come back once, behind those that can run.
    pub open spec fn advanced<D>(self, begun: bool, room: bool, available: bool) -> (
        Model,
        bool,
        Step<D>,
    ) {
        if !begun && room && self.cancelled.len() > 0 {
            (self.acknowledged(), false, Step::Tell(cancelled_event(self.cancelled[0])))
        } else {
            let m = if !begun && available {
                self.all_woken()
            } else {
                self
            };
            let n = m.yielded(available);
            if !room {
                (m, true, Step::End)
            } else if n.ready.len() == 0 {
                (n, true, Step::End)
            } else {
                (n, true, Step::Run(n.ops[n.ready[0] as int]->0))
            }
        }
    }

    /// The oldest request that can run ran, and left this behind for its handle.
    pub open spec fn completed(self, object: Option<Object>) -> Model {
        Model {
            objects: match self.ops[self.ready[0] as int]->0.handle {
                Some(h) => self.objects.update(h.spec_index(), object),
                None => self.objects,
            },
            ..self.finished()
        }
    }
}

impl Files {
    /// Take one step of a run. `room` tells that one more completion fits, `available` that
    /// the pool has a buffer.
    pub fn advance<D>(&mut self, begun: &mut bool, room: bool, available: bool) -> (step: Step<D>)
        requires
            old(self).wf(),
        ensures
            final(self).wf(),
            (final(self)@, *final(begun), step) == old(self)@.advanced::<D>(
                *old(begun),
                room,
                available,
            ),
    {
        if !*begun {
            if room {
                if let Some(event) = self.acknowledge() {
                    return Step::Tell(event);
                }
            }
            if available {
                self.wake();
            }
            *begun = true;
        }
        if !room {
            return Step::End;
        }
        let ghost m = self@;
        loop
            invariant
                self.wf(),
                room,
                *begun,
                self@.yielded(available) == m.yielded(available),
                m == (if !*old(begun) && available {
                    old(self)@.all_woken()
                } else {
                    old(self)@
                }),
                *old(begun) || old(self)@.cancelled.len() == 0,
            decreases self@.ready.len(),
        {
            match self.next() {
                None => {
                    return Step::End;
                },
                Some((p, pooled)) => {
                    if available || !pooled {
                        return Step::Run(p);
                    }
                    self.park();
                },
            }
        }
    }

    /// The request that a run gave ran: `object` is what its handle stands for now.
    pub fn complete<D>(
        &mut self,
        object: Option<Object>,
        result: Result<FsOutput, Error>,
        lease: Option<Lease>,
    ) -> (event: Event<D>)
        requires
            old(self).wf(),
            old(self)@.ready.len() > 0,
        ensures
            final(self).wf(),
            final(self)@ == old(self)@.completed(object),
            event == completion::<D>(
                old(self)@.ops[old(self)@.ready[0] as int]->0.op,
                result,
                lease,
            ),
    {
        let ghost before = self@;
        proof {
            self.law_tables_are_valid();
            lemma_front(before);
        }
        if let Some((p, _)) = self.next() {
            if let Some(h) = p.handle {
                self.set_object(h, object);
            }
        }
        let op = self.finish();
        assert(self@ =~= before.completed(object));
        let told = match result {
            Ok(output) => Ok(Outcome::Fs { output, lease }),
            Err(e) => Err(e),
        };
        Event { op, terminal: true, result: told }
    }
}

/// The oldest request that can run is one, and its handle is in range.
proof fn lemma_front(m: Model)
    requires
        m.valid(),
        m.ready.len() > 0,
    ensures
        m.ready[0] < m.ops.len(),
        m.ops[m.ready[0] as int] is Some,
        m.first(m.ready[0] as int),
        m.ops[m.ready[0] as int]->0.op.spec_index() == m.ready[0],
        match m.ops[m.ready[0] as int]->0.handle {
            Some(h) => h.spec_index() < m.objects.len(),
            None => true,
        },
{
    let i = m.ready[0] as int;
    assert(m.ready.contains(m.ready[0]));
    assert(m.queue_ok(i));
    assert(m.base_ok(i));
}

/// Only where requests are queued differs, not what is asked for.
pub open spec fn alike(m: Model, n: Model) -> bool {
    &&& n.objects == m.objects
    &&& n.lanes == m.lanes
    &&& n.cancelled == m.cancelled
    &&& n.ops.len() == m.ops.len()
    &&& forall|i: int|
        0 <= i < m.ops.len() ==> match #[trigger] m.ops[i] {
            Some(p) => n.ops[i] is Some && n.ops[i]->0.op == p.op && n.ops[i]->0.handle == p.handle
                && n.ops[i]->0.pooled == p.pooled,
            None => n.ops[i] is None,
        }
}

proof fn lemma_alike(m: Model, n: Model, k: Model)
    requires
        alike(m, n),
        alike(n, k),
    ensures
        alike(m, k),
{
    assert forall|i: int| 0 <= i < m.ops.len() implies match #[trigger] m.ops[i] {
        Some(p) => k.ops[i] is Some && k.ops[i]->0.op == p.op && k.ops[i]->0.handle == p.handle
            && k.ops[i]->0.pooled == p.pooled,
        None => k.ops[i] is None,
    } by {
        assert(n.ops[i] is Some <==> m.ops[i] is Some);
    }
}

proof fn lemma_yielded(m: Model, available: bool)
    requires
        m.valid(),
    ensures
        m.yielded(available).valid(),
        alike(m, m.yielded(available)),
        !available ==> !m.yielded(available).hungry(),
    decreases m.ready.len(),
{
    if !available && m.hungry() {
        let i = m.ready[0];
        lemma_front(m);
        assert(m.ready.contains(i));
        assert(m.queue_ok(i as int));
        lemma_pop(m.ready);
        lemma_push(m.waiting, i);
        lemma_marked(m, m.parked(), i as int);
        lemma_yielded(m.parked(), available);
        lemma_alike(m, m.parked(), m.yielded(available));
    }
}

proof fn lemma_all_woken(m: Model)
    requires
        m.valid(),
    ensures
        m.all_woken().valid(),
        alike(m, m.all_woken()),
    decreases m.waiting.len(),
{
    if m.waiting.len() > 0 {
        lemma_woken(m);
        lemma_all_woken(m.woken());
        lemma_alike(m, m.woken(), m.all_woken());
    }
}

/// What a step leaves behind, before the request that it gives has run.
proof fn lemma_advanced<D>(m: Model, begun: bool, room: bool, available: bool)
    requires
        m.valid(),
    ensures
        ({
            let (n, b, step) = m.advanced::<D>(begun, room, available);
            &&& n.valid()
            &&& alike(if step is Tell { m.acknowledged() } else { m }, n)
            &&& step is Tell <==> !begun && room && m.cancelled.len() > 0
            &&& step is Run ==> n.ready.len() > 0 && (available || !n.hungry())
            &&& step is End && room ==> n.ready.len() == 0
        }),
{
    if !begun && room && m.cancelled.len() > 0 {
        lemma_cancelled(m, m.acknowledged());
    } else {
        let woken = if !begun && available {
            m.all_woken()
        } else {
            m
        };
        lemma_all_woken(m);
        lemma_yielded(woken, available);
        lemma_alike(m, woken, woken.yielded(available));
    }
}

/// What a completed request leaves behind: its lane goes on with the next one.
proof fn lemma_completed(m: Model, object: Option<Object>)
    requires
        m.valid(),
        m.ready.len() > 0,
    ensures
        m.completed(object).valid(),
        m.completed(object).objects.len() == m.objects.len(),
        m.completed(object).ops == m.ops.update(m.ready[0] as int, None),
        m.completed(object).cancelled == m.cancelled,
        forall|l: int|
            0 <= l < m.lanes.len() ==> m.completed(object).lanes[l] == if m.ops[m.ready[0] as int]->0.handle
                matches Some(h) && h.spec_index() == l {
                (#[trigger] m.lanes[l]).drop_first()
            } else {
                m.lanes[l]
            },
{
    let i = m.ready[0];
    lemma_front(m);
    assert(m.queue_ok(i as int));
    lemma_apart(m, i as int);
    lemma_remove_value(m.ready, i);
    lemma_remove_value(m.waiting, i);
    let apart = Model { ready: m.ready.drop_first(), ..m };
    assert(apart =~= Model {
        ready: m.ready.remove_value(i),
        waiting: m.waiting.remove_value(i),
        ..m
    });
    lemma_dropped(apart, i as int);
    lemma_objects(m.finished(), m.completed(object));
    if let Some(h) = m.ops[i as int]->0.handle {
        let lane = m.lanes[h.spec_index()];
        assert(lane.contains(i));
        lane.index_of_first_ensures(i);
        assert(lane.remove_value(i) =~= lane.drop_first());
    }
}

/// Terminal completions that a name is still owed.
pub open spec fn owed(m: Model, op: OpId) -> nat {
    owing(m.cancelled, op) + if m.holds(op) {
        1nat
    } else {
        0
    }
}

/// One thing that is done to the requests.
pub enum Action {
    Submit { op: OpId, handle: Option<Handle>, request: FsRequest },
    Cancel(OpId),
    Release(Handle),
    Advance { begun: bool, room: bool, available: bool },
    Complete { object: Option<Object>, result: Result<FsOutput, Error>, lease: Option<Lease> },
}

/// The action is taken, not refused.
pub open spec fn allowed(m: Model, action: Action) -> bool {
    match action {
        Action::Submit { op, handle, request } => servable(request) && m.takes(op, handle, request),
        Action::Cancel(op) => m.holds(op),
        Action::Release(h) => h.spec_index() < m.objects.len(),
        Action::Advance { .. } => true,
        Action::Complete { .. } => m.ready.len() > 0,
    }
}

/// The requests after an action, and the completions that it brought.
pub open spec fn applied<D>(m: Model, action: Action) -> (Model, Seq<Event<D>>) {
    match action {
        Action::Submit { op, handle, request } => (
            m.submitted(op, handle, needs_buffer(request)),
            Seq::empty(),
        ),
        Action::Cancel(op) => (m.withdrawn(op), Seq::empty()),
        Action::Release(h) => (
            Model { objects: m.objects.update(h.spec_index(), None), ..m },
            Seq::empty(),
        ),
        Action::Advance { begun, room, available } => {
            let (n, _, step) = m.advanced::<D>(begun, room, available);
            (
                n,
                match step {
                    Step::Tell(e) => seq![e],
                    _ => Seq::empty(),
                },
            )
        },
        Action::Complete { object, result, lease } => (
            m.completed(object),
            seq![completion(m.ops[m.ready[0] as int]->0.op, result, lease)],
        ),
    }
}

/// The action submits a request under this name.
pub open spec fn submits(action: Action, op: OpId) -> bool {
    action is Submit && action->op == op
}

proof fn lemma_withdrawn(m: Model, o: OpId)
    requires
        m.valid(),
        m.holds(o),
    ensures
        m.withdrawn(o).valid(),
        m.withdrawn(o).objects.len() == m.objects.len(),
        m.withdrawn(o).ops == m.ops.update(o.spec_index(), None),
        m.withdrawn(o).cancelled == m.cancelled.push(o),
{
    let i = o.spec_index();
    lemma_apart(m, i);
    let apart = Model {
        ready: m.ready.remove_value(i as usize),
        waiting: m.waiting.remove_value(i as usize),
        ..m
    };
    lemma_dropped(apart, i);
    lemma_cancelled(apart.dropped(i), m.withdrawn(o));
}

/// No completion is lost and none comes twice: what an action tells of a name and what the
/// name is owed afterwards is what it was owed before. All of it is terminal.
pub proof fn law_completions_are_conserved<D>(m: Model, action: Action, op: OpId)
    requires
        m.valid(),
        allowed(m, action),
        !submits(action, op),
    ensures
        applied::<D>(m, action).0.valid(),
        applied::<D>(m, action).0.objects.len() == m.objects.len(),
        applied::<D>(m, action).0.ops.len() == m.ops.len(),
        count(applied::<D>(m, action).1, op, true) + owed(applied::<D>(m, action).0, op) == owed(
            m,
            op,
        ),
        forall|k: int|
            0 <= k < applied::<D>(m, action).1.len() ==> (#[trigger] applied::<D>(
                m,
                action,
            ).1[k]).terminal,
{
    let (n, events) = applied::<D>(m, action);
    assert(count(Seq::<Event<D>>::empty(), op, true) == 0);
    match action {
        Action::Submit { op: o, handle, request } => {
            lemma_submitted(m, o, handle, needs_buffer(request));
        },
        Action::Cancel(o) => {
            lemma_withdrawn(m, o);
            assert(m.cancelled.push(o).drop_last() =~= m.cancelled);
        },
        Action::Release(h) => {
            lemma_objects(m, n);
        },
        Action::Advance { begun, room, available } => {
            lemma_advanced::<D>(m, begun, room, available);
            let (_, _, step) = m.advanced::<D>(begun, room, available);
            if step is Tell {
                lemma_owing_first(m.cancelled, op);
                lemma_count_one(cancelled_event::<D>(m.cancelled[0]), op, true);
            }
            let base = if step is Tell {
                m.acknowledged()
            } else {
                m
            };
            assert(base.holds(op) == n.holds(op)) by {
                if op.spec_index() < m.ops.len() {
                    assert(base.ops[op.spec_index()] is Some <==> n.ops[op.spec_index()] is Some);
                }
            }
        },
        Action::Complete { object, result, lease } => {
            lemma_front(m);
            lemma_completed(m, object);
            let i = m.ready[0] as int;
            lemma_count_one(completion::<D>(m.ops[i]->0.op, result, lease), op, true);
        },
    }
}

/// The requests after the first `n` actions.
pub open spec fn after<D>(m: Model, actions: Seq<Action>, n: int) -> Model
    decreases n,
{
    if n <= 0 {
        m
    } else {
        applied::<D>(after::<D>(m, actions, n - 1), actions[n - 1]).0
    }
}

/// The completions of the first `n` actions, in order.
pub open spec fn completions<D>(m: Model, actions: Seq<Action>, n: int) -> Seq<Event<D>>
    decreases n,
{
    if n <= 0 {
        Seq::empty()
    } else {
        completions::<D>(m, actions, n - 1) + applied::<D>(
            after::<D>(m, actions, n - 1),
            actions[n - 1],
        ).1
    }
}

/// An accepted request brings exactly one terminal completion, whether it runs or is
/// cancelled: none while it is held or its acknowledgement is owed, and one from then on.
pub proof fn law_one_terminal_completion_per_request<D>(
    m: Model,
    actions: Seq<Action>,
    op: OpId,
    n: int,
)
    requires
        m.valid(),
        m.holds(op),
        owing(m.cancelled, op) == 0,
        0 <= n <= actions.len(),
        forall|k: int| 0 <= k < n ==> allowed(#[trigger] after::<D>(m, actions, k), actions[k]),
        forall|k: int| 0 <= k < n ==> !submits(#[trigger] actions[k], op),
    ensures
        after::<D>(m, actions, n).valid(),
        count(completions::<D>(m, actions, n), op, true) + owed(after::<D>(m, actions, n), op) == 1,
    decreases n,
{
    if n > 0 {
        law_one_terminal_completion_per_request::<D>(m, actions, op, n - 1);
        let before = after::<D>(m, actions, n - 1);
        law_completions_are_conserved::<D>(before, actions[n - 1], op);
        lemma_count_sum(
            completions::<D>(m, actions, n - 1),
            applied::<D>(before, actions[n - 1]).1,
            op,
            true,
        );
    }
}

/// What a run meets when so many completions are there: whether the pool has a buffer, and how
/// the request that runs then ends.
pub struct Meets {
    pub available: bool,
    pub object: Option<Object>,
    pub result: Result<FsOutput, Error>,
    pub lease: Option<Lease>,
}

/// The requests and the completions after a run.
pub open spec fn run<D>(
    m: Model,
    begun: bool,
    events: Seq<Event<D>>,
    capacity: nat,
    meets: spec_fn(nat) -> Meets,
) -> (Model, Seq<Event<D>>)
    decreases capacity - events.len(),
{
    let room = events.len() < capacity;
    let met = meets(events.len());
    let (n, b, step) = m.advanced::<D>(begun, room, met.available);
    if !room {
        (n, events)
    } else {
        match step {
            Step::Tell(e) => run(n, b, events.push(e), capacity, meets),
            Step::Run(p) => run(
                n.completed(met.object),
                b,
                events.push(completion(p.op, met.result, met.lease)),
                capacity,
                meets,
            ),
            Step::End => (n, events),
        }
    }
}

/// `rest` is `all` without some of its first members.
pub open spec fn remains(rest: Seq<usize>, all: Seq<usize>) -> bool {
    rest.len() <= all.len() && rest == all.subrange(all.len() - rest.len(), all.len() as int)
}

/// A run keeps what was told before and fills no more than its capacity; all it adds is
/// terminal, one completion for each name that is not owed one any more. It stops when the
/// capacity is reached or nothing can run: what is left then waits for a buffer, or for an
/// older request of its handle. On each handle the oldest requests ran.
pub proof fn law_run_is_bounded_and_in_order<D>(
    m: Model,
    begun: bool,
    events: Seq<Event<D>>,
    capacity: nat,
    meets: spec_fn(nat) -> Meets,
    op: OpId,
)
    requires
        m.valid(),
        events.len() <= capacity,
    ensures
        ({
            let (n, told) = run(m, begun, events, capacity, meets);
            &&& n.valid()
            &&& events.len() <= told.len() <= capacity
            &&& told.take(events.len() as int) == events
            &&& forall|k: int|
                events.len() <= k < told.len() ==> (#[trigger] told[k]).terminal
            &&& count(told, op, true) + owed(n, op) == count(events, op, true) + owed(m, op)
            &&& told.len() == capacity || n.ready.len() == 0
            &&& n.lanes.len() == m.lanes.len()
            &&& forall|l: int|
                0 <= l < m.lanes.len() ==> remains(#[trigger] n.lanes[l], m.lanes[l])
        }),
    decreases capacity - events.len(),
{
    let room = events.len() < capacity;
    let met = meets(events.len());
    let advance = Action::Advance { begun, room, available: met.available };
    let (n, b, step) = m.advanced::<D>(begun, room, met.available);
    lemma_advanced::<D>(m, begun, room, met.available);
    law_completions_are_conserved::<D>(m, advance, op);
    assert(count(Seq::<Event<D>>::empty(), op, true) == 0);
    if room {
        match step {
            Step::Tell(e) => {
                law_run_is_bounded_and_in_order(n, b, events.push(e), capacity, meets, op);
                lemma_told(events, e, run(n, b, events.push(e), capacity, meets).1, op);
            },
            Step::Run(p) => {
                let e = completion::<D>(p.op, met.result, met.lease);
                let after = n.completed(met.object);
                lemma_completed(n, met.object);
                law_completions_are_conserved::<D>(
                    n,
                    Action::Complete {
                        object: met.object,
                        result: met.result,
                        lease: met.lease,
                    },
                    op,
                );
                law_run_is_bounded_and_in_order(after, b, events.push(e), capacity, meets, op);
                let (last, told) = run(after, b, events.push(e), capacity, meets);
                lemma_told(events, e, told, op);
                assert forall|l: int| 0 <= l < m.lanes.len() implies remains(
                    #[trigger] last.lanes[l],
                    m.lanes[l],
                ) by {
                    assert(remains(last.lanes[l], after.lanes[l]));
                    lemma_front(n);
                    lemma_remains(last.lanes[l], after.lanes[l], m.lanes[l]);
                }
            },
            Step::End => {},
        }
    }
    if !room || step is End {
        assert(events.take(events.len() as int) =~= events);
        assert forall|l: int| 0 <= l < m.lanes.len() implies remains(
            #[trigger] n.lanes[l],
            m.lanes[l],
        ) by {
            assert(m.lanes[l].subrange(0, m.lanes[l].len() as int) =~= m.lanes[l]);
        }
    }
}

proof fn lemma_told<D>(events: Seq<Event<D>>, e: Event<D>, told: Seq<Event<D>>, op: OpId)
    requires
        e.terminal,
        events.len() < told.len(),
        told.take((events.len() + 1) as int) == events.push(e),
    ensures
        told.take(events.len() as int) == events,
        told[events.len() as int] == e,
        count(events.push(e), op, true) == count(events, op, true) + count(seq![e], op, true),
{
    let n = events.len() as int;
    assert(told.take(n + 1)[n] == e);
    assert(told.take(n) =~= told.take(n + 1).take(n));
    assert(events.push(e).take(n) =~= events);
    assert(events.push(e) =~= events + seq![e]);
    lemma_count_sum(events, seq![e], op, true);
}

proof fn lemma_remains(rest: Seq<usize>, middle: Seq<usize>, all: Seq<usize>)
    requires
        remains(rest, middle),
        middle == all || (all.len() > 0 && middle == all.drop_first()),
    ensures
        remains(rest, all),
{
    assert(rest =~= all.subrange(all.len() - rest.len(), all.len() as int));
}

/// Acknowledgements come first: a run that starts tells as many of the owed ones as fit, in
/// their order, before any request runs.
pub proof fn law_acknowledgements_come_first<D>(
    m: Model,
    events: Seq<Event<D>>,
    capacity: nat,
    meets: spec_fn(nat) -> Meets,
    k: int,
)
    requires
        m.valid(),
        events.len() <= capacity,
        0 <= k < m.cancelled.len(),
        events.len() + k < capacity,
    ensures
        ({
            let (n, told) = run(m, false, events, capacity, meets);
            &&& told.len() > events.len() + k
            &&& told[events.len() + k] == cancelled_event::<D>(m.cancelled[k])
        }),
    decreases k,
{
    let e = cancelled_event::<D>(m.cancelled[0]);
    let n = m.acknowledged();
    lemma_cancelled(m, n);
    if k > 0 {
        law_acknowledgements_come_first(n, events.push(e), capacity, meets, k - 1);
    } else {
        law_run_is_bounded_and_in_order(n, false, events.push(e), capacity, meets, m.cancelled[0]);
        let told = run(n, false, events.push(e), capacity, meets).1;
        assert(told.take((events.len() + 1) as int)[events.len() as int] == e);
    }
}

/// Without a buffer a request that needs one stays, however much else runs.
pub proof fn law_request_waits_for_its_buffer<D>(
    m: Model,
    begun: bool,
    events: Seq<Event<D>>,
    capacity: nat,
    meets: spec_fn(nat) -> Meets,
    op: OpId,
)
    requires
        m.valid(),
        events.len() <= capacity,
        m.holds(op),
        m.ops[op.spec_index()]->0.pooled,
        forall|n: nat| !(#[trigger] meets(n)).available,
    ensures
        run(m, begun, events, capacity, meets).0.holds(op),
    decreases capacity - events.len(),
{
    let room = events.len() < capacity;
    let met = meets(events.len());
    let (n, b, step) = m.advanced::<D>(begun, room, met.available);
    lemma_advanced::<D>(m, begun, room, met.available);
    let base = if step is Tell {
        m.acknowledged()
    } else {
        m
    };
    assert(base.ops[op.spec_index()] is Some);
    if room {
        match step {
            Step::Tell(e) => {
                law_request_waits_for_its_buffer(n, b, events.push(e), capacity, meets, op);
            },
            Step::Run(p) => {
                lemma_front(n);
                lemma_completed(n, met.object);
                law_request_waits_for_its_buffer(
                    n.completed(met.object),
                    b,
                    events.push(completion(p.op, met.result, met.lease)),
                    capacity,
                    meets,
                    op,
                );
            },
            Step::End => {},
        }
    }
}

/// A request that ran is told once and for the last time, as it ran: what it brought, with the buffer
/// that is in, or why it failed.
pub proof fn law_results_are_told_as_they_are<D>(
    op: OpId,
    result: Result<FsOutput, Error>,
    lease: Option<Lease>,
)
    ensures
        ({
            let e = completion::<D>(op, result, lease);
            &&& e.op == op
            &&& e.terminal
            &&& match e.result {
                Ok(outcome) => outcome is Fs && result == Ok::<FsOutput, Error>(outcome->output)
                    && outcome->Fs_lease == lease,
                Err(error) => result == Err::<FsOutput, Error>(error),
            }
        }),
{
}

/// What a request left of its handle is what the handle stands for next, and no other handle changes.
pub proof fn law_handles_keep_what_ran(m: Model, object: Option<Object>, s: int)
    requires
        m.valid(),
        m.ready.len() > 0,
        m.ready[0] < m.ops.len(),
        m.ops[m.ready[0] as int] is Some,
        0 <= s < m.objects.len(),
    ensures
        ({
            let h = m.ops[m.ready[0] as int]->0.handle;
            let n = m.completed(object);
            &&& h is Some && h->0.spec_index() == s ==> n.objects[s] == object
            &&& h is None || h->0.spec_index() != s ==> n.objects[s] == m.objects[s]
            &&& n.ops[m.ready[0] as int] is None
        }),
{
    assert(m.base_ok(m.ready[0] as int));
}

} // verus!
