//! Whole runs of the engine: whatever is done to it, in whatever order, an accepted request
//! brings exactly one terminal completion.
use crate::counting::{count, lemma_count_one, lemma_count_sum, lemma_terminal_is_counted};
use crate::iocp::attach::attached;
use crate::iocp::engine::{
    lemma_absorbed_flags, lemma_completed, lemma_executed_flags, lemma_installed, lemma_judged,
    lemma_popped, lemma_removed, lemma_spared, lemma_started, lemma_submitted, lemma_unlinked,
    lemma_withdrawn, lemma_woken_one, refusal, Model, Step,
};
use crate::iocp::io::{absorbed, answers, executed, fits, fresh, in_bounds, Job, Reply, Resource};
use crate::payload::{lemma_payload_nonnegative, payload};
use crate::types::{Error, Event, Handle, OpId, Request};
use vstd::prelude::*;

verus! {

/// One thing that is done to an engine.
pub enum Action<D> {
    Install { resource: Resource, port: u64, associated: Result<bool, Error> },
    Submit(Request),
    Cancel(OpId),
    /// A buffer came back for the operation that waited longest.
    Wake,
    /// The kernel gave the operation in a slot back.
    Complete { slot: usize, result: Result<u32, Error> },
    /// Release or detach.
    Remove(Handle),
    Advance { budget: nat, room: bool },
    Settle(Reply<D>),
}

/// The action is taken, not refused.
pub open spec fn allowed<D>(m: Model, action: Action<D>) -> bool {
    match action {
        Action::Install { resource, port, associated } => resource.handle.spec_index()
            < m.resources.len() && m.resources[resource.handle.spec_index()] is None && attached(
            resource,
            port,
            associated,
        ) is Ok,
        Action::Submit(request) => m.running is None && refusal(m, request) is None && payload(
            request.operation,
        ) <= usize::MAX,
        Action::Cancel(_) => m.running is None,
        Action::Wake => m.running is None && m.pool.len() > 0,
        Action::Complete { slot, result } => {
            &&& m.running is None
            &&& slot < m.ops.len()
            &&& m.ops[slot as int] is Some
            &&& m.ops[slot as int]->0.waiting
            &&& fits(Job { waiting: false, completion: Some(result), ..m.ops[slot as int]->0 })
        },
        Action::Remove(h) => {
            &&& m.running is None
            &&& m.live(h)
            &&& m.lanes[2 * h.spec_index()].len() == 0
            &&& m.lanes[2 * h.spec_index() + 1].len() == 0
        },
        Action::Advance { .. } => m.running is None,
        Action::Settle(reply) => match m.running {
            Some(i) => answers(
                m.resources[m.ops[i as int]->0.request.handle.spec_index()]->0,
                m.ops[i as int]->0,
                reply,
            ),
            None => false,
        },
    }
}

/// The engine after an action, and the completions that it brought.
pub open spec fn applied<D>(m: Model, action: Action<D>) -> (Model, Seq<Event<D>>) {
    match action {
        Action::Install { resource, port, associated } => (
            m.installed(attached(resource, port, associated)->Ok_0),
            Seq::empty(),
        ),
        Action::Submit(request) => (m.submitted(request), Seq::empty()),
        Action::Cancel(op) => (m.withdrawn(op), Seq::empty()),
        Action::Wake => (m.woken_one(), Seq::empty()),
        Action::Complete { slot, result } => (m.completed(slot as int, result), Seq::empty()),
        Action::Remove(h) => (m.removed(h), Seq::empty()),
        Action::Advance { budget, room } => {
            let (n, _, step) = m.advanced::<D>(budget, room);
            (
                n,
                match step {
                    Step::Report(e) => seq![e],
                    _ => Seq::empty(),
                },
            )
        },
        Action::Settle(reply) => {
            let (n, event) = m.settled(reply);
            (
                n,
                match event {
                    Some(e) => seq![e],
                    None => Seq::empty(),
                },
            )
        },
    }
}

/// The engine after the first `n` actions.
pub open spec fn after<D>(m: Model, actions: Seq<Action<D>>, n: int) -> Model
    decreases n,
{
    if n <= 0 {
        m
    } else {
        applied(after(m, actions, n - 1), actions[n - 1]).0
    }
}

/// The completions of the first `n` actions, in order.
pub open spec fn completions<D>(m: Model, actions: Seq<Action<D>>, n: int) -> Seq<Event<D>>
    decreases n,
{
    if n <= 0 {
        Seq::empty()
    } else {
        completions(m, actions, n - 1) + applied(after(m, actions, n - 1), actions[n - 1]).1
    }
}

/// Every one of the first `n` actions is taken.
pub open spec fn runs<D>(m: Model, actions: Seq<Action<D>>, n: int) -> bool {
    forall|k: int| 0 <= k < n ==> allowed(#[trigger] after(m, actions, k), actions[k])
}

/// The action submits a request under this name.
pub open spec fn submits<D>(action: Action<D>, op: OpId) -> bool {
    action is Submit && action->Submit_0.op == op
}

/// A judged attempt brings a terminal completion exactly if it frees the slot.
proof fn lemma_judged_once<D>(m: Model, i: int, q: Job, attempt: crate::payload::Attempt<D>, op: OpId)
    requires
        0 <= i < m.ops.len(),
        m.ops[i] is Some,
        q.request == m.ops[i]->0.request,
        m.ops[i]->0.request.op.spec_index() == i,
    ensures
        ({
            let (n, event) = m.judged(i, q, attempt);
            let mine = m.ops[i]->0.request.op == op;
            &&& n.ops.len() == m.ops.len()
            &&& event is Some ==> event->0.op == m.ops[i]->0.request.op
            &&& n.holds(op) == (m.holds(op) && !(mine && event is Some && event->0.terminal))
            &&& mine ==> m.holds(op)
        }),
{
}

/// A step of a pass keeps the engine valid, and ends no request but the one that it reports.
proof fn lemma_advanced<D>(m: Model, budget: nat, room: bool, op: OpId)
    requires
        m.valid(),
        m.running is None,
    ensures
        ({
            let (n, _, step) = m.advanced::<D>(budget, room);
            let reported = step is Report && step->Report_0.op == op;
            &&& n.valid()
            &&& n.ops.len() == m.ops.len()
            &&& reported ==> m.holds(op)
            &&& n.holds(op) == (m.holds(op) && !(reported && step->Report_0.terminal))
        }),
{
    if budget > 0 && room && m.ready.len() > 0 {
        lemma_popped(m);
        let i = m.ready[0] as int;
        let n = m.popped();
        let p = n.ops[i]->0;
        assert(m.op_ok(i, None));
        assert(n.op_ok(i, Some(i)));
        assert(n.holds(op) == m.holds(op));
        if p.cancelled {
            lemma_unlinked(n, i);
        } else {
            let kind = m.resources[p.request.handle.spec_index()]->0.kind;
            lemma_absorbed_flags::<D>(kind, p);
            let (q, attempt) = absorbed::<D>(kind, p);
            match attempt {
                None => {
                    lemma_started(n, i, q);
                },
                Some(attempt) => {
                    lemma_judged(n, i, q, attempt);
                    lemma_judged_once(n, i, q, attempt, op);
                },
            }
        }
    }
}

/// A reply keeps the engine valid, and ends no request but the one that it reports.
proof fn lemma_settled<D>(m: Model, reply: Reply<D>, op: OpId)
    requires
        m.valid(),
        allowed(m, Action::Settle(reply)),
    ensures
        ({
            let (n, event) = m.settled(reply);
            let reported = event is Some && event->0.op == op;
            &&& n.valid()
            &&& n.ops.len() == m.ops.len()
            &&& reported ==> m.holds(op)
            &&& n.holds(op) == (m.holds(op) && !(reported && event->0.terminal))
        }),
{
    let i = m.running->0 as int;
    assert(m.op_ok(i, None));
    let p = m.ops[i]->0;
    let r = m.resources[p.request.handle.spec_index()]->0;
    lemma_executed_flags(r, p, reply);
    let (q, attempt) = executed(r, p, reply);
    lemma_spared(m, i);
    lemma_judged(m, i, q, attempt);
    lemma_judged_once(m, i, q, attempt, op);
}

/// Every action keeps the engine valid. A request that was held is held afterwards, or the
/// action brought its one terminal completion; one that was not held brings nothing, and
/// only submitting it makes it held.
pub proof fn law_action_ends_a_request_once<D>(m: Model, action: Action<D>, op: OpId)
    requires
        m.valid(),
        allowed(m, action),
    ensures
        applied(m, action).0.valid(),
        applied(m, action).0.ops.len() == m.ops.len(),
        m.holds(op) ==> count(applied(m, action).1, op, true) == if applied(m, action).0.holds(
            op,
        ) {
            0nat
        } else {
            1
        },
        !m.holds(op) ==> count(applied(m, action).1, op, false) == 0,
        !m.holds(op) && applied(m, action).0.holds(op) ==> submits(action, op),
{
    let (n, events) = applied(m, action);
    assert(count(Seq::<Event<D>>::empty(), op, true) == 0);
    assert(count(Seq::<Event<D>>::empty(), op, false) == 0);
    match action {
        Action::Install { resource, port, associated } => {
            lemma_installed(m, attached(resource, port, associated)->Ok_0);
        },
        Action::Submit(request) => {
            lemma_payload_nonnegative(request.operation);
            assert(in_bounds(fresh(request)));
            lemma_submitted(m, request);
        },
        Action::Cancel(o) => {
            lemma_withdrawn(m, o);
        },
        Action::Wake => {
            lemma_woken_one(m);
        },
        Action::Complete { slot, result } => {
            lemma_completed(m, slot as int, result);
        },
        Action::Remove(h) => {
            lemma_removed(m, h);
        },
        Action::Advance { budget, room } => {
            lemma_advanced::<D>(m, budget, room, op);
            if let Step::Report(e) = m.advanced::<D>(budget, room).2 {
                lemma_count_one(e, op, true);
                lemma_count_one(e, op, false);
            }
        },
        Action::Settle(reply) => {
            lemma_settled(m, reply, op);
            if let Some(e) = m.settled(reply).1 {
                lemma_count_one(e, op, true);
                lemma_count_one(e, op, false);
            }
        },
    }
}

/// Every accepted request brings one terminal completion: however the engine is used from
/// then on, the completions of the request hold none that is terminal while it is held, and
/// exactly one once it is not.
pub proof fn law_one_terminal_completion_per_request<D>(
    m: Model,
    actions: Seq<Action<D>>,
    op: OpId,
    n: int,
)
    requires
        m.valid(),
        m.holds(op),
        0 <= n <= actions.len(),
        runs(m, actions, n),
        forall|k: int| 0 <= k < n ==> !submits(#[trigger] actions[k], op),
    ensures
        after(m, actions, n).valid(),
        count(completions(m, actions, n), op, true) == if after(m, actions, n).holds(op) {
            0nat
        } else {
            1
        },
    decreases n,
{
    if n > 0 {
        law_one_terminal_completion_per_request(m, actions, op, n - 1);
        let before = after(m, actions, n - 1);
        law_action_ends_a_request_once(before, actions[n - 1], op);
        let new = applied(before, actions[n - 1]).1;
        lemma_count_sum(completions(m, actions, n - 1), new, op, true);
        lemma_terminal_is_counted(new, op);
    }
}

/// After its terminal completion nothing comes under the name of a request.
pub proof fn law_nothing_follows_the_terminal_completion<D>(
    m: Model,
    actions: Seq<Action<D>>,
    op: OpId,
    n: int,
)
    requires
        m.valid(),
        !m.holds(op),
        0 <= n <= actions.len(),
        runs(m, actions, n),
        forall|k: int| 0 <= k < n ==> !submits(#[trigger] actions[k], op),
    ensures
        after(m, actions, n).valid(),
        !after(m, actions, n).holds(op),
        count(completions(m, actions, n), op, false) == 0,
    decreases n,
{
    if n > 0 {
        law_nothing_follows_the_terminal_completion(m, actions, op, n - 1);
        let before = after(m, actions, n - 1);
        law_action_ends_a_request_once(before, actions[n - 1], op);
        lemma_count_sum(
            completions(m, actions, n - 1),
            applied(before, actions[n - 1]).1,
            op,
            false,
        );
    }
}

} // verus!
