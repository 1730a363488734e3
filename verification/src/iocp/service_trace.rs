//! Whole runs of the services: whatever is done to them, in whatever order, a watch brings
//! exactly one terminal completion.
use crate::counting::{count, lemma_count_one, lemma_count_sum};
use crate::iocp::services::{first_watch, is_watched, live, watches, Entry, Service};
use crate::types::{Event, ExitStatus, Handle, OpId, Outcome, Request};
use vstd::prelude::*;

verus! {

/// One thing that is done to the services.
pub enum Action {
    Bind { handle: Handle, service: Service },
    Submit(Request),
    Cancel { op: OpId, slot: int },
    /// The child of this handle is being closed.
    Close(Handle),
    /// A pass looks at this slot.
    Advance(int),
    /// The child in this slot was looked at.
    Status { slot: int, found: Option<ExitStatus> },
    /// The subscription in this slot had a signal, or not.
    Signal { slot: int, took: bool },
    Release(Handle),
}

/// The watched slot that a pass has in hand.
pub open spec fn in_hand(entries: Seq<Option<Entry>>, slot: int) -> bool {
    0 <= slot < entries.len() && is_watched(entries[slot]) && !entries[slot]->0.cancelled
}

/// The action is taken, not refused.
pub open spec fn allowed(entries: Seq<Option<Entry>>, action: Action) -> bool {
    match action {
        Action::Bind { handle, .. } => handle.spec_index() < entries.len()
            && entries[handle.spec_index()] is None,
        Action::Submit(request) => {
            &&& live(entries, request.handle)
            &&& entries[request.handle.spec_index()]->0.op is None
            &&& watches(entries[request.handle.spec_index()]->0.service, request.operation)
        },
        Action::Cancel { op, slot } => first_watch(entries, op, slot),
        Action::Close(h) => live(entries, h) && entries[h.spec_index()]->0.service is Child,
        Action::Advance(slot) => 0 <= slot < entries.len(),
        Action::Status { slot, .. } => in_hand(entries, slot),
        Action::Signal { slot, .. } => in_hand(entries, slot) && entries[slot]->0.service is Signal,
        Action::Release(h) => live(entries, h) && entries[h.spec_index()]->0.op is None,
    }
}

/// The services after an action, and the completions that it brought.
pub open spec fn applied<D>(entries: Seq<Option<Entry>>, action: Action) -> (
    Seq<Option<Entry>>,
    Seq<Event<D>>,
) {
    match action {
        Action::Bind { handle, service } => (
            entries.update(
                handle.spec_index(),
                Some(Entry { handle, service, op: None, cancelled: false, closing: false }),
            ),
            Seq::empty(),
        ),
        Action::Submit(request) => (
            entries.update(
                request.handle.spec_index(),
                Some(
                    Entry {
                        op: Some(request.op),
                        cancelled: false,
                        ..entries[request.handle.spec_index()]->0
                    },
                ),
            ),
            Seq::empty(),
        ),
        Action::Cancel { slot, .. } => (
            entries.update(
                slot,
                Some(Entry { cancelled: !entries[slot]->0.closing, ..entries[slot]->0 }),
            ),
            Seq::empty(),
        ),
        Action::Close(h) => (
            entries.update(
                h.spec_index(),
                Some(Entry { closing: true, cancelled: false, ..entries[h.spec_index()]->0 }),
            ),
            Seq::empty(),
        ),
        Action::Advance(slot) => if is_watched(entries[slot]) && entries[slot]->0.cancelled {
            (
                entries.update(slot, Some(Entry { op: None, ..entries[slot]->0 })),
                seq![
                    Event {
                        op: entries[slot]->0.op->0,
                        terminal: true,
                        result: Ok(Outcome::Cancelled),
                    },
                ],
            )
        } else {
            (entries, Seq::empty())
        },
        Action::Status { slot, found } => match found {
            None => (entries, Seq::empty()),
            Some(status) => (
                entries.update(slot, Some(Entry { op: None, ..entries[slot]->0 })),
                seq![
                    Event {
                        op: entries[slot]->0.op->0,
                        terminal: true,
                        result: Ok(
                            if entries[slot]->0.closing {
                                Outcome::Cancelled
                            } else {
                                Outcome::Exited(status)
                            },
                        ),
                    },
                ],
            ),
        },
        Action::Signal { slot, took } => (
            entries,
            if took {
                seq![
                    Event {
                        op: entries[slot]->0.op->0,
                        terminal: false,
                        result: Ok(Outcome::Signal(entries[slot]->0.service->Signal_0)),
                    },
                ]
            } else {
                Seq::empty()
            },
        ),
        Action::Release(h) => (entries.update(h.spec_index(), None), Seq::empty()),
    }
}

/// The action submits a watch under this name.
pub open spec fn submits(action: Action, op: OpId) -> bool {
    action is Submit && action->Submit_0.op == op
}

/// The slot is watched under this name.
pub open spec fn watched_by(slot: Option<Entry>, op: OpId) -> nat {
    match slot {
        Some(e) => if e.op == Some(op) {
            1
        } else {
            0
        },
        None => 0,
    }
}

/// Terminal completions that a name is still owed: one for each slot that it watches.
pub open spec fn owed(entries: Seq<Option<Entry>>, op: OpId) -> nat
    decreases entries.len(),
{
    if entries.len() == 0 {
        0
    } else {
        owed(entries.drop_last(), op) + watched_by(entries.last(), op)
    }
}

proof fn lemma_owed_update(entries: Seq<Option<Entry>>, s: int, slot: Option<Entry>, op: OpId)
    requires
        0 <= s < entries.len(),
    ensures
        owed(entries.update(s, slot), op) + watched_by(entries[s], op) == owed(entries, op)
            + watched_by(slot, op),
    decreases entries.len(),
{
    let after = entries.update(s, slot);
    if s == entries.len() - 1 {
        assert(after.drop_last() =~= entries.drop_last());
    } else {
        lemma_owed_update(entries.drop_last(), s, slot, op);
        assert(after.drop_last() =~= entries.drop_last().update(s, slot));
    }
}

/// No terminal completion is lost and none comes twice: what an action tells of a name and what
/// the name is owed afterwards is what it was owed before. Only signals come more than once.
pub proof fn law_completions_are_conserved<D>(entries: Seq<Option<Entry>>, action: Action, op: OpId)
    requires
        allowed(entries, action),
        !submits(action, op),
    ensures
        count(applied::<D>(entries, action).1, op, true) + owed(
            applied::<D>(entries, action).0,
            op,
        ) == owed(entries, op),
        forall|k: int|
            0 <= k < applied::<D>(entries, action).1.len() && !(#[trigger] applied::<D>(
                entries,
                action,
            ).1[k]).terminal ==> applied::<D>(entries, action).1[k].result is Ok && applied::<D>(
                entries,
                action,
            ).1[k].result->Ok_0 is Signal,
{
    let (after, events) = applied::<D>(entries, action);
    assert(count(Seq::<Event<D>>::empty(), op, true) == 0);
    if events.len() > 0 {
        lemma_count_one(events[0], op, true);
        assert(events =~= seq![events[0]]);
    }
    let s = match action {
        Action::Bind { handle, .. } => handle.spec_index(),
        Action::Submit(request) => request.handle.spec_index(),
        Action::Cancel { slot, .. } => slot,
        Action::Close(h) => h.spec_index(),
        Action::Advance(slot) => slot,
        Action::Status { slot, .. } => slot,
        Action::Signal { slot, .. } => slot,
        Action::Release(h) => h.spec_index(),
    };
    lemma_owed_update(entries, s, after[s], op);
    assert(after =~= entries.update(s, after[s]));
}

/// The services after the first `n` actions.
pub open spec fn after<D>(entries: Seq<Option<Entry>>, actions: Seq<Action>, n: int) -> Seq<
    Option<Entry>,
>
    decreases n,
{
    if n <= 0 {
        entries
    } else {
        applied::<D>(after::<D>(entries, actions, n - 1), actions[n - 1]).0
    }
}

/// The completions of the first `n` actions, in order.
pub open spec fn completions<D>(entries: Seq<Option<Entry>>, actions: Seq<Action>, n: int) -> Seq<
    Event<D>,
>
    decreases n,
{
    if n <= 0 {
        Seq::empty()
    } else {
        completions::<D>(entries, actions, n - 1) + applied::<D>(
            after::<D>(entries, actions, n - 1),
            actions[n - 1],
        ).1
    }
}

/// A watch brings one terminal completion: none while a service is watched under its name, and
/// exactly one from then on, whatever is done in between, closing its handle and cancelling it
/// among it.
pub proof fn law_one_terminal_completion_per_watch<D>(
    entries: Seq<Option<Entry>>,
    actions: Seq<Action>,
    op: OpId,
    n: int,
)
    requires
        owed(entries, op) == 1,
        0 <= n <= actions.len(),
        forall|k: int|
            0 <= k < n ==> allowed(#[trigger] after::<D>(entries, actions, k), actions[k]),
        forall|k: int| 0 <= k < n ==> !submits(#[trigger] actions[k], op),
    ensures
        count(completions::<D>(entries, actions, n), op, true) + owed(
            after::<D>(entries, actions, n),
            op,
        ) == 1,
    decreases n,
{
    if n > 0 {
        law_one_terminal_completion_per_watch::<D>(entries, actions, op, n - 1);
        let before = after::<D>(entries, actions, n - 1);
        law_completions_are_conserved::<D>(before, actions[n - 1], op);
        lemma_count_sum(
            completions::<D>(entries, actions, n - 1),
            applied::<D>(before, actions[n - 1]).1,
            op,
            true,
        );
    }
}

} // verus!
