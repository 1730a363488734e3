//! Whole runs of the engine: whatever is done to it, in whatever order, an accepted request
//! brings exactly one terminal completion.
use crate::counting::{count, lemma_count_one, lemma_count_sum, lemma_terminal_is_counted};
use crate::lanes::lane_of;
use crate::payload::{lemma_payload_nonnegative, payload};
use crate::readiness::engine::{
    lemma_acknowledged, lemma_after_end, lemma_concluded_identity, lemma_indebted, lemma_installed,
    lemma_kept,
    lemma_marked, lemma_passed, lemma_popped, lemma_removed, lemma_spared, lemma_started,
    lemma_submitted, lemma_withdrawn, moved, refusal, Model, Phase,
};
use crate::readiness::io::{
    answers, concluded, in_bounds, lemma_first_left, Kind, Pending, Reply, Rules,
};
use crate::types::{cancelled_event, Event, Handle, OpId, Request};
use vstd::prelude::*;

verus! {

/// One thing that is done to an engine.
pub enum Action<D> {
    Install { handle: Handle, kind: Kind, connect: bool },
    Submit(Request),
    Cancel(OpId),
    /// Owe the acknowledgement of something that was given up elsewhere.
    Owe(OpId),
    /// Deliver the oldest owed acknowledgement.
    Acknowledge,
    Mark { key: u64, read: bool, write: bool },
    /// Release or detach.
    Remove(Handle),
    Advance { budget: nat, room: bool },
    Settle(Reply<D>),
}

/// The action is taken, not refused.
pub open spec fn allowed<D>(m: Model, action: Action<D>, rules: Rules) -> bool {
    match action {
        Action::Install { handle, .. } => m.phase == Phase::Idle && handle.spec_index()
            < m.resources.len() && m.resources[handle.spec_index()] is None,
        Action::Submit(request) => {
            &&& m.phase == Phase::Idle
            &&& refusal(m, request, rules) is None
            &&& m.resources[request.handle.spec_index()]->0.kind != Kind::File
            &&& payload(request.operation) <= usize::MAX
        },
        Action::Cancel(op) => m.phase == Phase::Idle && m.holds(op)
            && !m.ops[op.spec_index()]->0.cancelled,
        Action::Owe(op) => op.spec_index() < m.ops.len() && m.ops[op.spec_index()] is None,
        Action::Acknowledge => m.cancelled.len() > 0,
        Action::Mark { .. } => m.phase == Phase::Idle,
        Action::Remove(h) => {
            &&& m.phase == Phase::Idle
            &&& m.live(h)
            &&& m.lanes[2 * h.spec_index()].len() == 0
            &&& m.lanes[2 * h.spec_index() + 1].len() == 0
        },
        Action::Advance { .. } => !(m.phase is Running),
        Action::Settle(reply) => match m.phase {
            Phase::Running { handle, slot, .. } => answers(
                m.resources[handle.spec_index()]->0,
                m.ops[slot as int]->0,
                rules,
                reply,
            ),
            _ => false,
        },
    }
}

/// The engine after an action, and the completions that it brought.
pub open spec fn applied<D>(m: Model, action: Action<D>, rules: Rules) -> (Model, Seq<Event<D>>) {
    match action {
        Action::Install { handle, kind, connect } => (
            m.installed(handle, kind, connect),
            Seq::empty(),
        ),
        Action::Submit(request) => (m.submitted(request), Seq::empty()),
        Action::Cancel(op) => (m.withdrawn(op, rules), Seq::empty()),
        Action::Owe(op) => (m.indebted(op), Seq::empty()),
        Action::Acknowledge => (m.acknowledged(), seq![cancelled_event(m.cancelled[0])]),
        Action::Mark { key, read, write } => (m.marked(key, read, write), Seq::empty()),
        Action::Remove(h) => (m.removed(h), Seq::empty()),
        Action::Advance { budget, room } => (m.advanced(budget, room).0, Seq::empty()),
        Action::Settle(reply) => {
            let (n, event) = m.settled(reply, rules);
            (
                n,
                match event {
                    Some(e) => seq![e],
                    None => Seq::empty(),
                },
            )
        },
    }
}

/// The engine after the first `n` actions.
pub open spec fn after<D>(m: Model, actions: Seq<Action<D>>, rules: Rules, n: int) -> Model
    decreases n,
{
    if n <= 0 {
        m
    } else {
        applied(after(m, actions, rules, n - 1), actions[n - 1], rules).0
    }
}

/// The completions of the first `n` actions, in order.
pub open spec fn completions<D>(m: Model, actions: Seq<Action<D>>, rules: Rules, n: int) -> Seq<
    Event<D>,
>
    decreases n,
{
    if n <= 0 {
        Seq::empty()
    } else {
        completions(m, actions, rules, n - 1) + applied(
            after(m, actions, rules, n - 1),
            actions[n - 1],
            rules,
        ).1
    }
}

/// Every one of the first `n` actions is taken.
pub open spec fn runs<D>(m: Model, actions: Seq<Action<D>>, rules: Rules, n: int) -> bool {
    forall|k: int|
        0 <= k < n ==> allowed(
            #[trigger] after(m, actions, rules, k),
            actions[k],
            rules,
        )
}

/// The action brings something under this name.
pub open spec fn submits<D>(action: Action<D>, op: OpId) -> bool {
    match action {
        Action::Submit(request) => request.op == op,
        Action::Owe(other) => other == op,
        _ => false,
    }
}

/// Progress stays within the payload.
proof fn lemma_moved_in_bounds<D>(m: Model, reply: Reply<D>, rules: Rules)
    requires
        m.valid(),
        allowed(m, Action::Settle(reply), rules),
    ensures
        ({
            let p = m.ops[m.phase->slot as int]->0;
            let r = m.resources[m.phase->Running_handle.spec_index()]->0;
            in_bounds(moved(p, concluded(r, p, reply, rules).1))
        }),
{
    let (handle, direction, slot) = (
        m.phase->Running_handle,
        m.phase->Running_direction,
        m.phase->slot,
    );
    assert(m.entry_ok(lane_of(handle, direction), 0));
    assert(m.op_ok(slot as int));
    let p = m.ops[slot as int]->0;
    let op = p.request.operation;
    if op is Write || op is Writev {
        lemma_first_left(op, p.offset as int);
    }
}

/// A reply keeps the engine valid.
proof fn lemma_settled<D>(m: Model, reply: Reply<D>, rules: Rules)
    requires
        m.valid(),
        allowed(m, Action::Settle(reply), rules),
    ensures
        m.settled(reply, rules).0.valid(),
{
    let (handle, direction, slot) = (
        m.phase->Running_handle,
        m.phase->Running_direction,
        m.phase->slot,
    );
    assert(m.entry_ok(lane_of(handle, direction), 0));
    let s = handle.spec_index();
    let p = m.ops[slot as int]->0;
    let (r, progress, attempt) = concluded(m.resources[s]->0, p, reply, rules);
    lemma_concluded_identity(m.resources[s]->0, p, reply, rules);
    lemma_moved_in_bounds(m, reply, rules);
    lemma_kept(m, handle, direction, slot, r, progress);
    lemma_kept(m, handle, direction, slot, r.blocked(direction), progress);
    let kept = Model {
        resources: m.resources.update(s, Some(r)),
        ops: m.ops.update(slot as int, Some(moved(p, progress))),
        ..m
    };
    let blocked = Model {
        resources: m.resources.update(s, Some(r.blocked(direction))),
        ..kept
    };
    lemma_passed(kept, handle, direction);
    lemma_passed(blocked, handle, direction);
    lemma_after_end(m, handle, direction, slot, r);
}

/// A step of a pass keeps the engine valid.
proof fn lemma_advanced(m: Model, budget: nat, room: bool)
    requires
        m.valid(),
    ensures
        m.advanced(budget, room).0.valid(),
{
    match m.phase {
        Phase::Idle => {
            if m.ready.len() > 0 {
                lemma_popped(m);
            }
        },
        Phase::Lane { handle, direction } => {
            let lane = m.lanes[lane_of(handle, direction)];
            if lane.len() > 0 {
                lemma_started(m, handle, direction, lane[0]);
            }
            lemma_spared(m, handle);
            lemma_passed(m, handle, direction);
        },
        Phase::Running { .. } => {},
    }
}

/// Every action keeps the engine valid. A request that was held is held afterwards, or the
/// action brought its one terminal completion; one that was not held brings nothing, and
/// only submitting it makes it held.
pub proof fn law_action_ends_a_request_once<D>(m: Model, action: Action<D>, rules: Rules, op: OpId)
    requires
        m.valid(),
        m.ops.len() <= usize::MAX,
        allowed(m, action, rules),
    ensures
        applied(m, action, rules).0.valid(),
        applied(m, action, rules).0.ops.len() == m.ops.len(),
        m.holds(op) ==> count(applied(m, action, rules).1, op, true) == if applied(
            m,
            action,
            rules,
        ).0.holds(op) {
            0nat
        } else {
            1
        },
        !m.holds(op) ==> count(applied(m, action, rules).1, op, false) == 0,
        !m.holds(op) && applied(m, action, rules).0.holds(op) ==> submits(action, op),
{
    let (n, events) = applied(m, action, rules);
    assert(count(Seq::<Event<D>>::empty(), op, true) == 0);
    assert(count(Seq::<Event<D>>::empty(), op, false) == 0);
    match action {
        Action::Install { handle, kind, connect } => {
            lemma_installed(m, handle, kind, connect);
        },
        Action::Submit(request) => {
            lemma_payload_nonnegative(request.operation);
            assert(in_bounds(
                Pending { request, offset: 0, flushing: false, cancelled: false },
            ));
            lemma_submitted(m, request);
        },
        Action::Cancel(o) => {
            lemma_withdrawn(m, o, rules);
        },
        Action::Owe(o) => {
            lemma_indebted(m, o);
        },
        Action::Acknowledge => {
            lemma_acknowledged(m);
            assert(m.owed_ok(0));
            lemma_count_one(cancelled_event::<D>(m.cancelled[0]), op, true);
            lemma_count_one(cancelled_event::<D>(m.cancelled[0]), op, false);
        },
        Action::Mark { key, read, write } => {
            lemma_marked(m, key, read, write);
        },
        Action::Remove(h) => {
            lemma_removed(m, h);
        },
        Action::Advance { budget, room } => {
            lemma_advanced(m, budget, room);
        },
        Action::Settle(reply) => {
            lemma_settled(m, reply, rules);
            let slot = m.phase->slot as int;
            assert(m.entry_ok(lane_of(m.phase->Running_handle, m.phase->Running_direction), 0));
            assert(m.op_ok(slot));
            if let Some(e) = m.settled(reply, rules).1 {
                lemma_count_one(e, op, true);
                lemma_count_one(e, op, false);
            }
        },
    }
}

/// Every accepted request brings one terminal completion: however the engine is used from
/// then on, the completions of the request hold none that is terminal while it is held, and
/// exactly one once it is not.
pub proof fn law_one_terminal_completion_per_request<D>(
    m: Model,
    actions: Seq<Action<D>>,
    rules: Rules,
    op: OpId,
    n: int,
)
    requires
        m.valid(),
        m.ops.len() <= usize::MAX,
        m.holds(op),
        0 <= n <= actions.len(),
        runs(m, actions, rules, n),
        forall|k: int| 0 <= k < n ==> !submits(#[trigger] actions[k], op),
    ensures
        after(m, actions, rules, n).valid(),
        after(m, actions, rules, n).ops.len() == m.ops.len(),
        count(completions(m, actions, rules, n), op, true) == if after(
            m,
            actions,
            rules,
            n,
        ).holds(op) {
            0nat
        } else {
            1
        },
    decreases n,
{
    if n > 0 {
        law_one_terminal_completion_per_request(m, actions, rules, op, n - 1);
        let before = after(m, actions, rules, n - 1);
        let events = completions(m, actions, rules, n - 1);
        law_action_ends_a_request_once(before, actions[n - 1], rules, op);
        let new = applied(before, actions[n - 1], rules).1;
        lemma_count_sum(events, new, op, true);
        lemma_terminal_is_counted(new, op);
    }
}

/// After its terminal completion nothing comes under the name of a request.
pub proof fn law_nothing_follows_the_terminal_completion<D>(
    m: Model,
    actions: Seq<Action<D>>,
    rules: Rules,
    op: OpId,
    n: int,
)
    requires
        m.valid(),
        m.ops.len() <= usize::MAX,
        !m.holds(op),
        0 <= n <= actions.len(),
        runs(m, actions, rules, n),
        forall|k: int| 0 <= k < n ==> !submits(#[trigger] actions[k], op),
    ensures
        after(m, actions, rules, n).valid(),
        after(m, actions, rules, n).ops.len() == m.ops.len(),
        !after(m, actions, rules, n).holds(op),
        count(completions(m, actions, rules, n), op, false) == 0,
    decreases n,
{
    if n > 0 {
        law_nothing_follows_the_terminal_completion(m, actions, rules, op, n - 1);
        let before = after(m, actions, rules, n - 1);
        law_action_ends_a_request_once(before, actions[n - 1], rules, op);
        lemma_count_sum(
            completions(m, actions, rules, n - 1),
            applied(before, actions[n - 1], rules).1,
            op,
            false,
        );
    }
}

} // verus!
