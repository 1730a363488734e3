//! Lookups beside the operations of an engine: they share its slots and its queue of
//! acknowledgements, so that a lookup, too, brings exactly one terminal completion.
use crate::counting::{count, lemma_count_one, lemma_count_sum};
use crate::readiness::engine::{Engine, Model, Phase};
use crate::readiness::io::Rules;
use crate::readiness::trace;
use crate::types::{Error, ErrorKind, Event, OpId, Outcome};
use crate::wasi::lookups::{answered, is_ready, runs, Answer, Lookups, LookupView};
use vstd::prelude::*;

verus! {

/// No slot belongs to a lookup and to an operation.
pub open spec fn apart(m: Model, slots: Seq<Option<LookupView>>) -> bool {
    &&& slots.len() == m.ops.len()
    &&& forall|i: int| 0 <= i < slots.len() ==> #[trigger] apart_at(m, slots, i)
}

pub open spec fn apart_at(m: Model, slots: Seq<Option<LookupView>>, i: int) -> bool {
    slots[i] is Some ==> m.ops[i] is None && slots[i]->0.op.spec_index() == i
}

/// Cancel a lookup or an operation. A lookup is dropped at once; its acknowledgement is owed
/// behind those that are owed already.
pub fn cancel(engine: &mut Engine, lookups: &mut Lookups, op: OpId) -> (done: Result<(), Error>)
    requires
        old(engine).wf(),
        old(engine)@.phase == Phase::Idle,
        apart(old(engine)@, old(lookups)@),
    ensures
        final(engine).wf(),
        final(engine).rules() == old(engine).rules(),
        if runs(old(lookups)@, op) {
            &&& done is Ok
            &&& final(lookups)@ == old(lookups)@.update(op.spec_index(), None)
            &&& final(engine)@ == old(engine)@.indebted(op)
        } else {
            &&& final(lookups)@ == old(lookups)@
            &&& if !old(engine)@.holds(op) {
                done == Err::<(), Error>(Error::plain(ErrorKind::NotFound)) && final(engine)@
                    == old(engine)@
            } else if old(engine)@.ops[op.spec_index()]->0.cancelled {
                done is Ok && final(engine)@ == old(engine)@
            } else {
                done is Ok && final(engine)@ == old(engine)@.withdrawn(op, old(engine).rules())
            }
        },
{
    proof {
        if runs(lookups@, op) {
            assert(apart_at(engine@, lookups@, op.spec_index()));
        }
    }
    if lookups.cancel(op) {
        engine.owe(op);
        return Ok(());
    }
    engine.cancel(op)
}

/// Whether a turn would do anything without waiting.
pub fn has_work(engine: &Engine, lookups: &Lookups) -> (work: bool)
    ensures
        work == (engine@.ready.len() > 0 || engine@.cancelled.len() > 0 || exists|i: int|
            0 <= i < lookups@.len() && #[trigger] is_ready(lookups@, i)),
{
    match lookups.next_ready(0) {
        Some(i) => {
            assert(is_ready(lookups@, i as int));
            true
        },
        None => engine.has_work(),
    }
}

/// One thing that is done to the engine and the lookups.
pub enum Action<D> {
    Plain(trace::Action<D>),
    Start { op: OpId, port: u16 },
    /// Cancel a lookup.
    Cancel(OpId),
    Mark(int),
    /// The resolver answered; `event` is what is told of it, if the lookup ended.
    Answer { slot: int, answer: Answer, event: Option<Event<D>> },
}

/// What is told of an answer: the end of the lookup, once.
pub open spec fn tells<D>(l: LookupView, answer: Answer, event: Option<Event<D>>) -> bool {
    match answer {
        Answer::Address(_) | Answer::Blocked => event is None,
        Answer::Failed(e) => event == Some(
            Event::<D> { op: l.op, terminal: true, result: Err(e) },
        ),
        Answer::End => event matches Some(e) && e.op == l.op && e.terminal && match e.result {
            Ok(Outcome::Resolved(found)) => found@ == l.addresses && found@.len() > 0,
            Err(e) => l.addresses.len() == 0 && e == Error::plain(ErrorKind::NotFound),
            _ => false,
        },
    }
}

/// The action is taken, not refused.
pub open spec fn allowed<D>(
    m: Model,
    slots: Seq<Option<LookupView>>,
    action: Action<D>,
    rules: Rules,
) -> bool {
    match action {
        Action::Plain(plain) => trace::allowed(m, plain, rules) && match plain {
            trace::Action::Submit(request) => slots[request.op.spec_index()] is None,
            trace::Action::Owe(_) => false,
            _ => true,
        },
        Action::Start { op, .. } => op.spec_index() < slots.len() && slots[op.spec_index()] is None
            && m.ops[op.spec_index()] is None,
        Action::Cancel(op) => runs(slots, op),
        Action::Mark(slot) => 0 <= slot < slots.len() && slots[slot] is Some,
        Action::Answer { slot, answer, event } => 0 <= slot < slots.len() && slots[slot] is Some
            && tells(slots[slot]->0, answer, event),
    }
}

/// The engine, the lookups and the completions after an action.
pub open spec fn applied<D>(
    m: Model,
    slots: Seq<Option<LookupView>>,
    action: Action<D>,
    rules: Rules,
) -> (Model, Seq<Option<LookupView>>, Seq<Event<D>>) {
    match action {
        Action::Plain(plain) => {
            let (n, events) = trace::applied(m, plain, rules);
            (n, slots, events)
        },
        Action::Start { op, port } => (
            m,
            slots.update(
                op.spec_index(),
                Some(LookupView { op, port, addresses: Seq::empty(), ready: true }),
            ),
            Seq::empty(),
        ),
        Action::Cancel(op) => (m.indebted(op), slots.update(op.spec_index(), None), Seq::empty()),
        Action::Mark(slot) => (
            m,
            slots.update(slot, Some(LookupView { ready: true, ..slots[slot]->0 })),
            Seq::empty(),
        ),
        Action::Answer { slot, answer, event } => (
            m,
            slots.update(slot, answered(slots[slot]->0, answer)),
            match event {
                Some(e) => seq![e],
                None => Seq::empty(),
            },
        ),
    }
}

/// The action brings something under this name.
pub open spec fn submits<D>(action: Action<D>, op: OpId) -> bool {
    match action {
        Action::Plain(plain) => trace::submits(plain, op),
        Action::Start { op: other, .. } => other == op,
        _ => false,
    }
}

/// A lookup runs under this name, or the engine holds it.
pub open spec fn present(m: Model, slots: Seq<Option<LookupView>>, op: OpId) -> bool {
    runs(slots, op) || m.holds(op)
}

/// Every action keeps lookups and operations apart and the engine valid. What was there under a
/// name is there afterwards, or the action brought its one terminal completion.
pub proof fn law_action_ends_a_lookup_once<D>(
    m: Model,
    slots: Seq<Option<LookupView>>,
    action: Action<D>,
    rules: Rules,
    op: OpId,
)
    requires
        m.valid(),
        m.ops.len() <= usize::MAX,
        apart(m, slots),
        allowed(m, slots, action, rules),
        !submits(action, op),
    ensures
        ({
            let (n, after, events) = applied(m, slots, action, rules);
            &&& n.valid()
            &&& n.ops.len() == m.ops.len()
            &&& apart(n, after)
            &&& present(m, slots, op) ==> count(events, op, true) == if present(n, after, op) {
                0nat
            } else {
                1
            }
            &&& !present(m, slots, op) ==> !present(n, after, op) && count(events, op, true) == 0
        }),
{
    let (n, after, events) = applied(m, slots, action, rules);
    assert(count(Seq::<Event<D>>::empty(), op, true) == 0);
    if op.spec_index() < slots.len() {
        assert(apart_at(m, slots, op.spec_index()));
    }
    match action {
        Action::Plain(plain) => {
            trace::law_action_ends_a_request_once(m, plain, rules, op);
            crate::counting::lemma_terminal_is_counted(events, op);
            if !m.holds(op) {
                assert(!n.holds(op));
            }
            lemma_slots_stay_free(m, plain, rules);
        },
        Action::Cancel(o) => {
            assert(apart_at(m, slots, o.spec_index()));
            trace::law_action_ends_a_request_once(m, trace::Action::<D>::Owe(o), rules, op);
        },
        Action::Answer { slot, event, .. } => {
            assert(apart_at(m, slots, slot));
            if let Some(e) = event {
                lemma_count_one(e, op, true);
            }
        },
        _ => {},
    }
    assert forall|i: int| 0 <= i < after.len() implies #[trigger] apart_at(n, after, i) by {
        assert(apart_at(m, slots, i));
    }
}

/// Nothing but submitting fills a free slot of the engine.
proof fn lemma_slots_stay_free<D>(m: Model, action: trace::Action<D>, rules: Rules)
    requires
        m.valid(),
        m.ops.len() <= usize::MAX,
        trace::allowed(m, action, rules),
        !(action is Owe),
    ensures
        trace::applied(m, action, rules).0.ops.len() == m.ops.len(),
        forall|i: int|
            0 <= i < m.ops.len() && m.ops[i] is None && !(action is Submit
                && action->Submit_0.op.spec_index() == i) ==> (#[trigger] trace::applied(
                m,
                action,
                rules,
            ).0.ops[i]) is None,
{
    let op = OpId { owner: 0, key: 0 };
    trace::law_action_ends_a_request_once(m, action, rules, op);
    if action is Acknowledge {
        assert(m.owed_ok(0));
    }
    if action is Settle {
        assert(m.entry_ok(
            crate::lanes::lane_of(m.phase->Running_handle, m.phase->Running_direction),
            0,
        ));
    }
}

/// The engine and the lookups after the first `n` actions.
pub open spec fn after<D>(
    m: Model,
    slots: Seq<Option<LookupView>>,
    actions: Seq<Action<D>>,
    rules: Rules,
    n: int,
) -> (Model, Seq<Option<LookupView>>)
    decreases n,
{
    if n <= 0 {
        (m, slots)
    } else {
        let (k, s) = after(m, slots, actions, rules, n - 1);
        let run = applied(k, s, actions[n - 1], rules);
        (run.0, run.1)
    }
}

/// The completions of the first `n` actions, in order.
pub open spec fn completions<D>(
    m: Model,
    slots: Seq<Option<LookupView>>,
    actions: Seq<Action<D>>,
    rules: Rules,
    n: int,
) -> Seq<Event<D>>
    decreases n,
{
    if n <= 0 {
        Seq::empty()
    } else {
        let (k, s) = after(m, slots, actions, rules, n - 1);
        completions(m, slots, actions, rules, n - 1) + applied(k, s, actions[n - 1], rules).2
    }
}

/// A lookup that was started brings exactly one terminal completion, with its addresses, its
/// failure or its cancellation: none while it runs or its acknowledgement is owed, and one from
/// then on.
pub proof fn law_one_terminal_completion_per_lookup<D>(
    m: Model,
    slots: Seq<Option<LookupView>>,
    actions: Seq<Action<D>>,
    rules: Rules,
    op: OpId,
    n: int,
)
    requires
        m.valid(),
        m.ops.len() <= usize::MAX,
        apart(m, slots),
        runs(slots, op),
        0 <= n <= actions.len(),
        forall|k: int|
            0 <= k < n ==> allowed(
                (#[trigger] after(m, slots, actions, rules, k)).0,
                after(m, slots, actions, rules, k).1,
                actions[k],
                rules,
            ),
        forall|k: int| 0 <= k < n ==> !submits(#[trigger] actions[k], op),
    ensures
        ({
            let (end, left) = after(m, slots, actions, rules, n);
            &&& end.valid()
            &&& end.ops.len() == m.ops.len()
            &&& apart(end, left)
            &&& count(completions(m, slots, actions, rules, n), op, true) == if present(
                end,
                left,
                op,
            ) {
                0nat
            } else {
                1
            }
        }),
    decreases n,
{
    if n > 0 {
        law_one_terminal_completion_per_lookup(m, slots, actions, rules, op, n - 1);
        let (k, s) = after(m, slots, actions, rules, n - 1);
        law_action_ends_a_lookup_once(k, s, actions[n - 1], rules, op);
        lemma_count_sum(
            completions(m, slots, actions, rules, n - 1),
            applied(k, s, actions[n - 1], rules).2,
            op,
            true,
        );
    }
}

} // verus!
