//! Whole runs of the watches: a subscription brings batches while it runs, and exactly one
//! terminal completion once it ended.
use crate::counting::{count, lemma_count_one, lemma_count_sum, lemma_owing_first, owing};
use crate::iocp::watches::{
    end_event, lemma_ended, lemma_finished, lemma_marked, lemma_released, lemma_served, lemma_started,
    lemma_stored, lemma_subscribed, Ended, Model, Watch,
};
use crate::types::{Error, Event, Handle, OpId};
use crate::unix::watch::{batch_event, Found};
use vstd::prelude::*;

verus! {

/// One thing that is done to the watches.
pub enum Action {
    Start { handle: Handle, key: usize, request: usize },
    Submit { handle: Handle, op: OpId, pending: bool },
    /// Subscribe without a request that the kernel takes.
    Fail { handle: Handle, op: OpId, error: Error },
    Cancel(OpId),
    /// The kernel gave the request of this watch back, perhaps with an error.
    Return { slot: int, failed: Option<Error> },
    /// The request of this watch was issued again, or could not be.
    Rearm { slot: int, result: Result<(), Error>, pending: bool },
    /// Deliver the oldest end.
    Take,
    Serve(Found),
    Release(Handle),
    /// The loop goes.
    Shutdown,
}

/// The action is taken, not refused.
pub open spec fn allowed(m: Model, action: Action) -> bool {
    match action {
        Action::Start { handle, key, .. } => m.vacant(handle) && !m.used(key),
        Action::Submit { handle, op, .. } => m.takes(handle, op),
        Action::Fail { handle, op, .. } => m.takes(handle, op),
        Action::Cancel(op) => m.runs(op),
        Action::Return { slot, .. } => 0 <= slot < m.entries.len() && m.entries[slot] is Some
            && m.entries[slot]->0.armed,
        Action::Rearm { slot, .. } => 0 <= slot < m.entries.len() && m.entries[slot] is Some
            && !m.entries[slot]->0.armed,
        Action::Take => m.finished.len() > 0,
        Action::Serve(_) => m.ready.len() > 0,
        Action::Release(h) => m.live(h) && m.at(h).op is None,
        Action::Shutdown => true,
    }
}

/// The watches of a loop that goes: every request that the kernel has is being cancelled.
pub open spec fn leaving(m: Model) -> Model {
    Model {
        entries: m.entries.map_values(
            |e: Option<Watch>|
                match e {
                    Some(w) => Some(Watch { cancelling: w.cancelling || w.armed, ..w }),
                    None => None,
                },
        ),
        ..m
    }
}

proof fn lemma_leaving(m: Model)
    requires
        m.valid(),
    ensures
        leaving(m).valid(),
{
    let n = leaving(m);
    assert forall|t: int, key: usize| 0 <= t < n.entries.len() implies #[trigger] n.keyed(t, key)
        == m.keyed(t, key) by {}
    assert(n.retired == m.retired);
    assert forall|key: usize| #[trigger] n.retires(key) == m.retires(key) by {
        assert(n.retired == m.retired);
    }
    assert forall|j: int| 0 <= j < n.ready.len() implies n.live(#[trigger] n.ready[j]) by {
        assert(m.live(m.ready[j]));
    }
    assert forall|s: int| 0 <= s < n.entries.len() implies #[trigger] n.slot_ok(s) by {
        assert(m.slot_ok(s));
    }
    assert forall|j: int| 0 <= j < n.ops.len() implies #[trigger] n.op_ok(j) by {
        assert(m.op_ok(j));
    }
}

/// The watches after an action, and the completions that it brought.
pub open spec fn applied<D>(m: Model, action: Action) -> (Model, Seq<Event<D>>) {
    match action {
        Action::Start { handle, key, request } => (m.started(handle, key, request), Seq::empty()),
        Action::Submit { handle, op, pending } => (m.subscribed(handle, op, pending), Seq::empty()),
        Action::Fail { op, error, .. } => (m.stillborn(op, error), Seq::empty()),
        Action::Cancel(op) => (m.cancelled(op), Seq::empty()),
        Action::Return { slot, failed } => (
            if m.entries[slot]->0.cancelling {
                m.returned(slot).ended(slot, None)
            } else if failed is Some {
                m.returned(slot).ended(slot, failed)
            } else {
                m.returned(slot)
            },
            Seq::empty(),
        ),
        Action::Rearm { slot, result, pending } => (
            match result {
                Err(e) => m.ended(slot, Some(e)),
                Ok(_) => {
                    let armed = m.with(slot, Watch { armed: true, ..m.entries[slot]->0 });
                    if pending {
                        armed.stored(slot)
                    } else {
                        armed
                    }
                },
            },
            Seq::empty(),
        ),
        Action::Take => (
            Model { finished: m.finished.drop_first(), ..m },
            seq![end_event(m.finished[0])],
        ),
        Action::Serve(found) => (
            m.served(found),
            match (m.at(m.ready[0]).op, found) {
                (Some(op), Found::Batch { lease, overflow, .. }) => if m.at(
                    m.ready[0],
                ).cancelling {
                    Seq::empty()
                } else {
                    seq![batch_event(op, lease, overflow)]
                },
                _ => Seq::empty(),
            },
        ),
        Action::Release(h) => (m.released(h), Seq::empty()),
        Action::Shutdown => (leaving(m), Seq::empty()),
    }
}

/// The action subscribes under this name.
pub open spec fn submits(action: Action, op: OpId) -> bool {
    match action {
        Action::Submit { op: other, .. } => other == op,
        Action::Fail { op: other, .. } => other == op,
        _ => false,
    }
}

/// Whose ends wait to be told.
pub open spec fn names(finished: Seq<Ended>) -> Seq<OpId> {
    finished.map_values(|e: Ended| e.op)
}

/// Terminal completions that a name is still owed.
pub open spec fn owed(m: Model, op: OpId) -> nat {
    owing(names(m.finished), op) + if m.runs(op) {
        1nat
    } else {
        0
    }
}

/// An end that is added is owed to its name, and to no other.
proof fn lemma_owed(finished: Seq<Ended>, ended: Ended, op: OpId)
    ensures
        owing(names(finished.push(ended)), op) == owing(names(finished), op) + if ended.op == op {
            1nat
        } else {
            0
        },
{
    assert(names(finished.push(ended)).drop_last() =~= names(finished));
    assert(names(finished.push(ended)).last() == ended.op);
}

/// Every action keeps the watches valid.
proof fn lemma_applied<D>(m: Model, action: Action)
    requires
        m.valid(),
        allowed(m, action),
    ensures
        applied::<D>(m, action).0.valid(),
{
    let n = applied::<D>(m, action).0;
    match action {
        Action::Start { handle, key, request } => {
            lemma_started(m, handle, key, request);
        },
        Action::Submit { handle, op, pending } => {
            lemma_subscribed(m, handle, op);
            lemma_stored(m.subscribed(handle, op, false), handle.spec_index());
        },
        Action::Fail { .. } => {
            lemma_finished(m, n);
        },
        Action::Cancel(op) => {
            let s = m.ops[op.spec_index()]->0.spec_index();
            assert(m.op_ok(op.spec_index()));
            if !m.entries[s]->0.cancelling {
                if m.entries[s]->0.armed {
                    lemma_marked(m, n, s);
                } else {
                    lemma_ended(m, s, false, None);
                }
            }
        },
        Action::Return { slot, failed } => {
            if m.entries[slot]->0.cancelling {
                lemma_ended(m, slot, true, None);
            } else if failed is Some {
                lemma_ended(m, slot, true, failed);
            } else {
                lemma_marked(m, n, slot);
            }
        },
        Action::Rearm { slot, result, .. } => match result {
            Err(e) => {
                lemma_ended(m, slot, false, Some(e));
            },
            Ok(_) => {
                let armed = m.with(slot, Watch { armed: true, ..m.entries[slot]->0 });
                lemma_marked(m, armed, slot);
                lemma_stored(armed, slot);
            },
        },
        Action::Take => {
            lemma_finished(m, n);
        },
        Action::Serve(found) => {
            lemma_served(m, found);
        },
        Action::Release(h) => {
            lemma_released(m, h);
        },
        Action::Shutdown => {
            lemma_leaving(m);
        },
    }
}

/// An action keeps the watches valid. No terminal completion is lost and none comes twice: what
/// an action tells of a name and what the name is owed afterwards is what it was owed before.
/// What is not terminal is a batch of a running subscription.
pub proof fn law_completions_are_conserved<D>(m: Model, action: Action, op: OpId)
    requires
        m.valid(),
        allowed(m, action),
        !submits(action, op),
    ensures
        applied::<D>(m, action).0.valid(),
        count(applied::<D>(m, action).1, op, true) + owed(applied::<D>(m, action).0, op) == owed(
            m,
            op,
        ),
        forall|k: int|
            0 <= k < applied::<D>(m, action).1.len() && !(#[trigger] applied::<D>(
                m,
                action,
            ).1[k]).terminal ==> applied::<D>(m, action).1[k].result is Ok && applied::<D>(
                m,
                action,
            ).1[k].result->Ok_0 is Watch && m.runs(applied::<D>(m, action).1[k].op),
{
    let (n, events) = applied::<D>(m, action);
    lemma_applied::<D>(m, action);
    assert(count(Seq::<Event<D>>::empty(), op, true) == 0);
    if op.spec_index() < m.ops.len() {
        assert(m.op_ok(op.spec_index()));
        if m.ops[op.spec_index()] is Some {
            assert(m.slot_ok(m.ops[op.spec_index()]->0.spec_index()));
        }
    }
    if events.len() > 0 {
        lemma_count_one(events[0], op, true);
        assert(events =~= seq![events[0]]);
    }
    match action {
        Action::Cancel(other) => {
            assert(m.op_ok(other.spec_index()));
            lemma_owed(m.finished, Ended { op: other, error: None }, op);
        },
        Action::Return { slot, failed } => {
            assert(m.slot_ok(slot));
            if let Some(other) = m.entries[slot]->0.op {
                lemma_owed(m.finished, Ended { op: other, error: None }, op);
                lemma_owed(m.finished, Ended { op: other, error: failed }, op);
            }
        },
        Action::Rearm { slot, result, .. } => {
            assert(m.slot_ok(slot));
            if let Some(other) = m.entries[slot]->0.op {
                if let Err(e) = result {
                    lemma_owed(m.finished, Ended { op: other, error: Some(e) }, op);
                }
            }
        },
        Action::Fail { op: other, error, .. } => {
            lemma_owed(m.finished, Ended { op: other, error: Some(error) }, op);
        },
        Action::Take => {
            lemma_owing_first(names(m.finished), op);
            assert(names(m.finished).drop_first() =~= names(m.finished.drop_first()));
        },
        Action::Submit { handle, .. } => {
            assert(m.slot_ok(handle.spec_index()));
        },
        Action::Serve(_) => {
            assert(m.live(m.ready[0]));
            assert(m.slot_ok(m.ready[0].spec_index()));
        },
        Action::Release(h) => {
            assert(m.slot_ok(h.spec_index()));
        },
        _ => {},
    }
}

/// The watches after the first `n` actions.
pub open spec fn after<D>(m: Model, actions: Seq<Action>, n: int) -> Model
    decreases n,
{
    if n <= 0 {
        m
    } else {
        applied::<D>(after::<D>(m, actions, n - 1), actions[n - 1]).0
    }
}

/// The completions of the first `n` actions, in order.
pub open spec fn completions<D>(m: Model, actions: Seq<Action>, n: int) -> Seq<Event<D>>
    decreases n,
{
    if n <= 0 {
        Seq::empty()
    } else {
        completions::<D>(m, actions, n - 1) + applied::<D>(
            after::<D>(m, actions, n - 1),
            actions[n - 1],
        ).1
    }
}

/// A subscription brings one terminal completion: none while it runs or its end waits to be
/// told, and exactly one from then on.
pub proof fn law_one_terminal_completion_per_subscription<D>(
    m: Model,
    actions: Seq<Action>,
    op: OpId,
    n: int,
)
    requires
        m.valid(),
        m.runs(op),
        owing(names(m.finished), op) == 0,
        0 <= n <= actions.len(),
        forall|k: int| 0 <= k < n ==> allowed(#[trigger] after::<D>(m, actions, k), actions[k]),
        forall|k: int| 0 <= k < n ==> !submits(#[trigger] actions[k], op),
    ensures
        after::<D>(m, actions, n).valid(),
        count(completions::<D>(m, actions, n), op, true) + owed(after::<D>(m, actions, n), op) == 1,
    decreases n,
{
    if n > 0 {
        law_one_terminal_completion_per_subscription::<D>(m, actions, op, n - 1);
        let before = after::<D>(m, actions, n - 1);
        law_completions_are_conserved::<D>(before, actions[n - 1], op);
        lemma_count_sum(
            completions::<D>(m, actions, n - 1),
            applied::<D>(before, actions[n - 1]).1,
            op,
            true,
        );
    }
}

} // verus!
