//! Whole runs of the services: whatever is done to them, in whatever order, a watch brings
//! exactly one terminal completion.
use crate::counting::{count, lemma_count_one, lemma_count_sum};
use crate::types::{Error, Event, ExitStatus, Handle, OpId, Request};
use crate::unix::ready_queue::{lemma_published, published};
use crate::unix::services::{
    lemma_credit_removed, lemma_served, reaped, watches, Entry, Model, Service, Step,
};
use vstd::prelude::*;

verus! {

/// One thing that is done to the services.
pub enum Action {
    Bind { handle: Handle, service: Service },
    Submit { request: Request, signalled: bool },
    Cancel(OpId),
    Publish(Handle),
    Advance { budget: nat, room: bool },
    /// The subscription in hand had a signal, or not.
    Signal(bool),
    /// The child in hand was looked at.
    Look(Result<Option<ExitStatus>, Error>),
    /// The child of a closing handle was looked at.
    Close { handle: Handle, waited: Result<Option<ExitStatus>, Error> },
    Release(Handle),
}

/// The action is taken, not refused.
pub open spec fn allowed(m: Model, action: Action) -> bool {
    match action {
        Action::Bind { handle, .. } => {
            &&& m.serving is None
            &&& handle.spec_index() < m.entries.len()
            &&& m.entries[handle.spec_index()] is None
            &&& own_credit(m, handle)
        },
        Action::Submit { request, .. } => {
            &&& m.serving is None
            &&& m.live(request.handle)
            &&& m.entries[request.handle.spec_index()]->0.op is None
            &&& watches(m.entries[request.handle.spec_index()]->0.service, request.operation)
            &&& request.op.spec_index() < m.operations.len()
            &&& m.operations[request.op.spec_index()] is None
        },
        Action::Cancel(op) => m.serving is None && m.watching(op),
        Action::Publish(h) => h.spec_index() < m.entries.len() && (m.entries[h.spec_index()] is Some
            ==> m.live(h)),
        Action::Advance { .. } => m.serving is None,
        Action::Signal(_) => m.serving is Some && m.entries[m.serving->0.spec_index()]->0.service
            is Signal && !m.entries[m.serving->0.spec_index()]->0.cancelled,
        Action::Look(_) => m.serving is Some && m.entries[m.serving->0.spec_index()]->0.service
            is Child,
        Action::Close { handle, .. } => m.serving is None && m.live(handle)
            && m.entries[handle.spec_index()]->0.service is Child,
        Action::Release(h) => m.serving is None && m.live(h) && m.entries[h.spec_index()]->0.op
            is None && own_credit(m, h),
    }
}

/// A credit that is there for the slot of `h` is its own.
pub open spec fn own_credit(m: Model, h: Handle) -> bool {
    forall|k: int|
        0 <= k < m.ready.len() && (#[trigger] m.ready[k]).spec_index() == h.spec_index()
            ==> m.ready[k] == h
}

/// The completions of a step or of an answer.
pub open spec fn told<D>(event: Option<Event<D>>) -> Seq<Event<D>> {
    match event {
        Some(e) => seq![e],
        None => Seq::empty(),
    }
}

/// The services after an action, and the completions that it brought.
pub open spec fn applied<D>(m: Model, action: Action) -> (Model, Seq<Event<D>>) {
    match action {
        Action::Bind { handle, service } => (m.bound(handle, service), Seq::empty()),
        Action::Submit { request, signalled } => (m.submitted(request, signalled), Seq::empty()),
        Action::Cancel(op) => (m.withdrawn(op), Seq::empty()),
        Action::Publish(h) => (Model { ready: published(m.ready, h), ..m }, Seq::empty()),
        Action::Advance { budget, room } => {
            let (n, _, step) = m.advanced::<D>(budget, room);
            (
                n,
                match step {
                    Step::Report(e) => seq![e],
                    _ => Seq::empty(),
                },
            )
        },
        Action::Signal(took) => {
            let (n, event) = m.signalled::<D>(took);
            (n, told(event))
        },
        Action::Look(waited) => {
            let (n, event) = m.looked::<D>(waited);
            (n, told(event))
        },
        Action::Close { handle, waited } => {
            let e = m.entries[handle.spec_index()]->0;
            let (after, found) = reaped(e.service->Child_0, waited);
            let n = m.with(Entry { service: Service::Child(after), ..e });
            (
                if found is Ok && found->Ok_0 is Some {
                    Model { ready: published(n.ready, handle), ..n }
                } else {
                    n
                },
                Seq::empty(),
            )
        },
        Action::Release(h) => (m.removed(h), Seq::empty()),
    }
}

/// The action submits a watch under this name.
pub open spec fn submits(action: Action, op: OpId) -> bool {
    action is Submit && action->request.op == op
}

/// Every action keeps the services valid.
proof fn lemma_applied<D>(m: Model, action: Action)
    requires
        m.valid(),
        allowed(m, action),
    ensures
        applied::<D>(m, action).0.valid(),
{
    let n = applied::<D>(m, action).0;
    match action {
        Action::Submit { request, .. } => {
            lemma_published(m.ready, request.handle);
            assert(m.entry_ok(request.handle.spec_index()));
        },
        Action::Cancel(op) => {
            assert(m.operation_ok(op.spec_index()));
            lemma_published(m.ready, m.operations[op.spec_index()]->0);
        },
        Action::Publish(h) => {
            lemma_published(m.ready, h);
        },
        Action::Close { handle, .. } => {
            lemma_published(m.ready, handle);
        },
        Action::Look(_) => {
            assert(m.entry_ok(m.serving->0.spec_index()));
        },
        Action::Release(h) => {
            lemma_credit_removed(m.ready, h);
            assert(m.ready.no_duplicates()) by {
                assert forall|j: int, k: int|
                    0 <= j < m.ready.len() && 0 <= k < m.ready.len() && j != k implies m.ready[j]
                    != m.ready[k] by {
                    assert(m.ready[j].spec_index() != m.ready[k].spec_index());
                }
            }
            crate::queues::lemma_remove_value(m.ready, h);
            m.ready.index_of_first_ensures(h);
        },
        _ => {},
    }
    if action is Advance {
        let popped = Model { ready: m.ready.drop_first(), ..m };
        if action->budget > 0 && action->room && m.ready.len() > 0 {
            assert forall|j: int, k: int|
                0 <= j < popped.ready.len() && 0 <= k < popped.ready.len() && j != k implies (
            #[trigger] popped.ready[j]).spec_index() != (
            #[trigger] popped.ready[k]).spec_index() by {
                assert(m.ready[j + 1].spec_index() != m.ready[k + 1].spec_index());
            }
            lemma_served(m, popped, n, m.ready[0]);
        }
    } else {
        assert forall|k: int| 0 <= k < n.ready.len() implies #[trigger] n.credit_ok(k) by {
            if action is Release {
                let x = n.ready[k];
                assert(n.ready.contains(x));
                let kk = choose|kk: int| 0 <= kk < m.ready.len() && m.ready[kk] == x;
                assert(m.credit_ok(kk));
            } else if k < m.ready.len() {
                assert(m.credit_ok(k));
            }
        }
        assert forall|t: int| 0 <= t < n.entries.len() implies #[trigger] n.entry_ok(t) by {
            assert(m.entry_ok(t));
        }
        assert forall|j: int| 0 <= j < n.operations.len() implies #[trigger] n.operation_ok(j) by {
            assert(m.operation_ok(j));
        }
    }
}

/// An action keeps the services valid. A watch goes on, or the action brought its one terminal
/// completion; what is not watched brings nothing. Only signals come more than once.
pub proof fn law_action_ends_a_watch_once<D>(m: Model, action: Action, op: OpId)
    requires
        m.valid(),
        allowed(m, action),
        !submits(action, op),
    ensures
        applied::<D>(m, action).0.valid(),
        m.watching(op) ==> count(applied::<D>(m, action).1, op, true) == if applied::<D>(
            m,
            action,
        ).0.watching(op) {
            0nat
        } else {
            1
        },
        !m.watching(op) ==> !applied::<D>(m, action).0.watching(op) && count(
            applied::<D>(m, action).1,
            op,
            false,
        ) == 0,
        forall|k: int|
            0 <= k < applied::<D>(m, action).1.len() && !(#[trigger] applied::<D>(
                m,
                action,
            ).1[k]).terminal ==> applied::<D>(m, action).1[k].result is Ok && applied::<D>(
                m,
                action,
            ).1[k].result->Ok_0 is Signal,
{
    let (n, events) = applied::<D>(m, action);
    lemma_applied::<D>(m, action);
    assert(count(Seq::<Event<D>>::empty(), op, true) == 0);
    assert(count(Seq::<Event<D>>::empty(), op, false) == 0);
    if op.spec_index() < m.operations.len() {
        assert(m.operation_ok(op.spec_index()));
    }
    if events.len() > 0 {
        lemma_count_one(events[0], op, true);
        lemma_count_one(events[0], op, false);
        assert(events =~= seq![events[0]]);
    }
    match action {
        Action::Submit { request, .. } => {
            assert(m.entry_ok(request.handle.spec_index()));
        },
        Action::Advance { budget, room } => {
            if m.ready.len() > 0 {
                assert(m.credit_ok(0));
                assert(m.entry_ok(m.ready[0].spec_index()));
            }
        },
        Action::Signal(_) => {
            assert(m.entry_ok(m.serving->0.spec_index()));
        },
        Action::Look(_) => {
            assert(m.entry_ok(m.serving->0.spec_index()));
        },
        Action::Cancel(other) => {
            assert(m.operation_ok(other.spec_index()));
        },
        Action::Release(h) => {
            assert(m.entry_ok(h.spec_index()));
        },
        _ => {},
    }
}

/// The services after the first `n` actions.
pub open spec fn after<D>(m: Model, actions: Seq<Action>, n: int) -> Model
    decreases n,
{
    if n <= 0 {
        m
    } else {
        applied::<D>(after::<D>(m, actions, n - 1), actions[n - 1]).0
    }
}

/// The completions of the first `n` actions, in order.
pub open spec fn completions<D>(m: Model, actions: Seq<Action>, n: int) -> Seq<Event<D>>
    decreases n,
{
    if n <= 0 {
        Seq::empty()
    } else {
        completions::<D>(m, actions, n - 1) + applied::<D>(
            after::<D>(m, actions, n - 1),
            actions[n - 1],
        ).1
    }
}

/// A watch brings one terminal completion: none while it goes on, exactly one once it does not,
/// whatever is done in between, closing its handle and cancelling it among it.
pub proof fn law_one_terminal_completion_per_watch<D>(
    m: Model,
    actions: Seq<Action>,
    op: OpId,
    n: int,
)
    requires
        m.valid(),
        m.watching(op),
        0 <= n <= actions.len(),
        forall|k: int| 0 <= k < n ==> allowed(#[trigger] after::<D>(m, actions, k), actions[k]),
        forall|k: int| 0 <= k < n ==> !submits(#[trigger] actions[k], op),
    ensures
        after::<D>(m, actions, n).valid(),
        count(completions::<D>(m, actions, n), op, true) == if after::<D>(m, actions, n).watching(
            op,
        ) {
            0nat
        } else {
            1
        },
    decreases n,
{
    if n > 0 {
        law_one_terminal_completion_per_watch::<D>(m, actions, op, n - 1);
        let before = after::<D>(m, actions, n - 1);
        law_action_ends_a_watch_once::<D>(before, actions[n - 1], op);
        let new = applied::<D>(before, actions[n - 1]).1;
        crate::counting::lemma_terminal_is_counted(new, op);
        lemma_count_sum(completions::<D>(m, actions, n - 1), new, op, true);
    }
}

} // verus!
