//! Whole runs of the watches: a subscription brings batches while it runs, and exactly one
//! terminal completion once it is cancelled.
use crate::counting::{count, lemma_count_one, lemma_count_sum, lemma_owing_first, owing};
use crate::types::{cancelled_event, Event, Handle, OpId};
use crate::unix::inotify::RecordView;
use crate::unix::watch::{
    batch_event, forgotten, lemma_released, lemma_same, lemma_served, lemma_started, lemma_stored,
    lemma_subscribed, lemma_unsubscribed, Found, Model, Watch,
};
use vstd::prelude::*;

verus! {

/// One thing that is done to the watches.
pub enum Action {
    Start { handle: Handle, wd: u32 },
    Submit { handle: Handle, op: OpId },
    Cancel(OpId),
    /// The system told of a change: it may have given a watch up.
    Record { record: RecordView, mask: u32 },
    /// The storage of this watch holds something.
    Fill(int),
    /// Deliver the oldest owed acknowledgement.
    Acknowledge,
    Serve(Found),
    Release(Handle),
}

/// The action is taken, not refused.
pub open spec fn allowed(m: Model, action: Action) -> bool {
    match action {
        Action::Start { handle, .. } => m.vacant(handle),
        Action::Submit { handle, op } => m.takes(handle, op),
        Action::Cancel(op) => m.runs(op),
        Action::Record { .. } => true,
        Action::Fill(slot) => 0 <= slot < m.entries.len(),
        Action::Acknowledge => m.cancelled.len() > 0,
        Action::Serve(_) => m.ready.len() > 0,
        Action::Release(h) => m.live(h) && m.at(h).op is None,
    }
}

/// The watches after a record.
pub open spec fn recorded(m: Model, record: RecordView, mask: u32) -> Model {
    Model {
        entries: m.entries.map_values(
            |e: Option<Watch>|
                match e {
                    Some(w) => Some(forgotten(w, record, mask)),
                    None => None,
                },
        ),
        ..m
    }
}

proof fn lemma_recorded(m: Model, record: RecordView, mask: u32)
    requires
        m.valid(),
    ensures
        recorded(m, record, mask).valid(),
{
    let n = recorded(m, record, mask);
    assert forall|j: int| 0 <= j < n.ready.len() implies n.live(#[trigger] n.ready[j]) by {
        assert(m.live(m.ready[j]));
    }
    assert forall|s: int| 0 <= s < n.entries.len() implies #[trigger] n.slot_ok(s) by {
        assert(m.slot_ok(s));
    }
    assert forall|j: int| 0 <= j < n.ops.len() implies #[trigger] n.op_ok(j) by {
        assert(m.op_ok(j));
    }
}

/// The watches after an action, and the completions that it brought.
pub open spec fn applied<D>(m: Model, action: Action) -> (Model, Seq<Event<D>>) {
    match action {
        Action::Start { handle, wd } => (m.started(handle, wd), Seq::empty()),
        Action::Submit { handle, op } => (m.subscribed(handle, op), Seq::empty()),
        Action::Cancel(op) => (m.unsubscribed(op), Seq::empty()),
        Action::Record { record, mask } => (recorded(m, record, mask), Seq::empty()),
        Action::Fill(slot) => (m.stored(slot), Seq::empty()),
        Action::Acknowledge => (
            Model { cancelled: m.cancelled.drop_first(), ..m },
            seq![cancelled_event(m.cancelled[0])],
        ),
        Action::Serve(found) => (
            m.served(found),
            match (m.at(m.ready[0]).op, found) {
                (Some(op), Found::Batch { lease, overflow, .. }) => seq![
                    batch_event(op, lease, overflow),
                ],
                _ => Seq::empty(),
            },
        ),
        Action::Release(h) => (m.released(h), Seq::empty()),
    }
}

/// The action subscribes under this name.
pub open spec fn submits(action: Action, op: OpId) -> bool {
    action is Submit && action->op == op
}

/// Terminal completions that a name is still owed.
pub open spec fn owed(m: Model, op: OpId) -> nat {
    owing(m.cancelled, op) + if m.runs(op) {
        1nat
    } else {
        0
    }
}

/// An action keeps the watches valid. No terminal completion is lost and none comes twice: what
/// an action tells of a name and what the name is owed afterwards is what it was owed before.
/// What is not terminal is a batch of a running subscription.
pub proof fn law_completions_are_conserved<D>(m: Model, action: Action, op: OpId)
    requires
        m.valid(),
        allowed(m, action),
        !submits(action, op),
    ensures
        applied::<D>(m, action).0.valid(),
        count(applied::<D>(m, action).1, op, true) + owed(applied::<D>(m, action).0, op) == owed(
            m,
            op,
        ),
        forall|k: int|
            0 <= k < applied::<D>(m, action).1.len() && !(#[trigger] applied::<D>(
                m,
                action,
            ).1[k]).terminal ==> applied::<D>(m, action).1[k].result is Ok && applied::<D>(
                m,
                action,
            ).1[k].result->Ok_0 is Watch && m.runs(applied::<D>(m, action).1[k].op),
{
    let (n, events) = applied::<D>(m, action);
    assert(count(Seq::<Event<D>>::empty(), op, true) == 0);
    if op.spec_index() < m.ops.len() {
        assert(m.op_ok(op.spec_index()));
    }
    if events.len() > 0 {
        lemma_count_one(events[0], op, true);
        assert(events =~= seq![events[0]]);
    }
    match action {
        Action::Start { handle, wd } => {
            lemma_started(m, handle, wd);
        },
        Action::Cancel(other) => {
            lemma_unsubscribed(m, other);
            assert(m.op_ok(other.spec_index()));
            assert(m.cancelled.push(other).drop_last() =~= m.cancelled);
        },
        Action::Record { record, mask } => {
            lemma_recorded(m, record, mask);
        },
        Action::Acknowledge => {
            lemma_same(m, n);
            lemma_owing_first(m.cancelled, op);
        },
        Action::Submit { handle, op: other } => {
            lemma_subscribed(m, handle, other);
            assert(m.slot_ok(handle.spec_index()));
        },
        Action::Serve(found) => {
            lemma_served(m, found);
            assert(m.live(m.ready[0]));
            assert(m.slot_ok(m.ready[0].spec_index()));
        },
        Action::Release(h) => {
            lemma_released(m, h);
            assert(m.slot_ok(h.spec_index()));
        },
        Action::Fill(slot) => {
            lemma_stored(m, slot);
            assert(m.slot_ok(slot));
        },
    }
}

/// The watches after the first `n` actions.
pub open spec fn after<D>(m: Model, actions: Seq<Action>, n: int) -> Model
    decreases n,
{
    if n <= 0 {
        m
    } else {
        applied::<D>(after::<D>(m, actions, n - 1), actions[n - 1]).0
    }
}

/// The completions of the first `n` actions, in order.
pub open spec fn completions<D>(m: Model, actions: Seq<Action>, n: int) -> Seq<Event<D>>
    decreases n,
{
    if n <= 0 {
        Seq::empty()
    } else {
        completions::<D>(m, actions, n - 1) + applied::<D>(
            after::<D>(m, actions, n - 1),
            actions[n - 1],
        ).1
    }
}

/// A subscription brings one terminal completion: none while it runs or its acknowledgement is
/// owed, and exactly one from then on.
pub proof fn law_one_terminal_completion_per_subscription<D>(
    m: Model,
    actions: Seq<Action>,
    op: OpId,
    n: int,
)
    requires
        m.valid(),
        m.runs(op),
        owing(m.cancelled, op) == 0,
        0 <= n <= actions.len(),
        forall|k: int| 0 <= k < n ==> allowed(#[trigger] after::<D>(m, actions, k), actions[k]),
        forall|k: int| 0 <= k < n ==> !submits(#[trigger] actions[k], op),
    ensures
        after::<D>(m, actions, n).valid(),
        count(completions::<D>(m, actions, n), op, true) + owed(after::<D>(m, actions, n), op) == 1,
    decreases n,
{
    if n > 0 {
        law_one_terminal_completion_per_subscription::<D>(m, actions, op, n - 1);
        let before = after::<D>(m, actions, n - 1);
        law_completions_are_conserved::<D>(before, actions[n - 1], op);
        lemma_count_sum(
            completions::<D>(m, actions, n - 1),
            applied::<D>(before, actions[n - 1]).1,
            op,
            true,
        );
    }
}

} // verus!
