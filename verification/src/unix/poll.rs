//! One poll of the readiness backend as a whole: its stages, one after the other, on all that a
//! loop holds.
use crate::counting::{count, lemma_count_one, lemma_count_sum};
use crate::readiness::engine as sockets;
use crate::readiness::io::{Reply, Rules};
use crate::readiness::trace;
use crate::turn::{follows, law_one_wait, left, skips, starts_with, waits, Backend, Stage};
use crate::types::{
    cancelled_event, Direction, Error, Event, ExitStatus, Handle, Lease, OpId, Operation, Outcome,
    SLOT_SPAN,
};
use crate::unix::files;
use crate::unix::files::{collected, completion, Finished};
use crate::unix::service_trace;
use crate::unix::services;
use crate::unix::watch;
use crate::unix::watch::Found;
use crate::unix::watch_trace;
use vstd::prelude::*;

verus! {

/// All that a loop holds.
pub struct Parts {
    pub sockets: sockets::Model,
    pub services: services::Model,
    pub watches: watch::Model,
    pub files: files::Model,
    /// What the workers are done with, oldest first.
    pub results: Seq<Finished>,
}

/// What a step meets: each stage looks at what is its own.
pub struct Meets<D> {
    pub took: bool,
    pub waited: Result<Option<ExitStatus>, Error>,
    pub found: Found,
    pub reply: Reply<D>,
}

/// What the wait brought: readiness under keys, and signals for services.
pub struct Woken {
    pub keys: Seq<(u64, bool, bool)>,
    pub credits: Seq<Handle>,
}

impl Parts {
    /// Every part is valid, and no step is half done.
    pub open spec fn valid(self) -> bool {
        &&& self.sockets.valid()
        &&& self.sockets.ops.len() <= usize::MAX
        &&& !(self.sockets.phase is Running)
        &&& self.services.valid()
        &&& self.services.serving is None
        &&& self.watches.valid()
        &&& self.files.leases.len() == self.files.active.len()
    }

    /// Terminal completions that a name is still owed.
    pub open spec fn owed(self, op: OpId) -> nat {
        let socket = if self.sockets.holds(op) {
            1nat
        } else {
            0
        };
        let service = if self.services.watching(op) {
            1nat
        } else {
            0
        };
        let file = if self.files.runs(op) {
            1nat
        } else {
            0
        };
        socket + service + file + watch_trace::owed(self.watches, op)
    }

    /// Something can be done without waiting. `readable` tells that changes wait to be read,
    /// `available` that the pool has a buffer.
    pub open spec fn has_work(self, readable: bool, available: bool) -> bool {
        ||| self.sockets.ready.len() > 0
        ||| self.sockets.cancelled.len() > 0
        ||| self.services.ready.len() > 0
        ||| readable
        ||| self.watches.cancelled.len() > 0
        ||| self.watches.ready.len() > 0 && available
        ||| self.results.len() > 0
    }
}

/// The oldest result of a worker is told.
pub open spec fn file_step<D>(p: Parts) -> (Parts, Seq<Event<D>>) {
    if p.results.len() == 0 || !p.files.runs(p.results[0].op) {
        (p, Seq::empty())
    } else {
        let Finished { op, result } = p.results[0];
        (
            Parts {
                files: p.files.delivered(op),
                results: p.results.drop_first(),
                ..p
            },
            seq![completion(op, p.files.leases[op.spec_index()], result)],
        )
    }
}

/// The oldest credit of a service is looked at.
pub open spec fn service_step<D>(p: Parts, room: bool, meets: Meets<D>) -> (Parts, Seq<Event<D>>) {
    let advance = service_trace::Action::Advance { budget: 1, room };
    let (n, told) = service_trace::applied::<D>(p.services, advance);
    if n.serving is None {
        (Parts { services: n, ..p }, told)
    } else {
        let look = if n.entries[n.serving->0.spec_index()]->0.service is Child {
            service_trace::Action::Look(meets.waited)
        } else {
            service_trace::Action::Signal(meets.took)
        };
        let (k, more) = service_trace::applied::<D>(n, look);
        (Parts { services: k, ..p }, more)
    }
}

/// An owed acknowledgement of a watch is told, or the oldest watch that waits is looked at.
pub open spec fn watch_step<D>(p: Parts, meets: Meets<D>) -> (Parts, Seq<Event<D>>) {
    let action = if p.watches.cancelled.len() > 0 {
        watch_trace::Action::Acknowledge
    } else {
        watch_trace::Action::Serve(meets.found)
    };
    if p.watches.cancelled.len() == 0 && p.watches.ready.len() == 0 {
        (p, Seq::empty())
    } else {
        let (n, told) = watch_trace::applied::<D>(p.watches, action);
        (Parts { watches: n, ..p }, told)
    }
}

/// An operation is tried, where one can be. A reply that does not answer is none.
pub open spec fn socket_step<D>(p: Parts, room: bool, meets: Meets<D>, rules: Rules) -> (
    Parts,
    Seq<Event<D>>,
) {
    let n = p.sockets.advanced(1, room).0;
    if !(n.phase is Running) {
        (Parts { sockets: n, ..p }, Seq::empty())
    } else if trace::allowed(n, trace::Action::Settle(meets.reply), rules) {
        let (k, told) = trace::applied(n, trace::Action::Settle(meets.reply), rules);
        (Parts { sockets: k, ..p }, told)
    } else {
        (p, Seq::empty())
    }
}

/// One step of a stage. Without room nothing is taken that would have to be told.
pub open spec fn step<D>(p: Parts, stage: Stage, room: bool, meets: Meets<D>, rules: Rules) -> (
    Parts,
    Seq<Event<D>>,
) {
    match stage {
        Stage::Cancelled => if room && p.sockets.cancelled.len() > 0 {
            let (n, told) = trace::applied::<D>(p.sockets, trace::Action::Acknowledge, rules);
            (Parts { sockets: n, ..p }, told)
        } else {
            (p, Seq::empty())
        },
        Stage::Files { .. } => if room {
            file_step(p)
        } else {
            (p, Seq::empty())
        },
        Stage::Services { .. } => service_step(p, room, meets),
        Stage::Watches { .. } => if room {
            watch_step(p, meets)
        } else {
            (p, Seq::empty())
        },
        Stage::Run { .. } => socket_step(p, room, meets, rules),
        _ => (p, Seq::empty()),
    }
}

/// So many steps of a stage; `meets` tells what each one meets.
pub open spec fn steps<D>(
    p: Parts,
    stage: Stage,
    events: Seq<Event<D>>,
    capacity: nat,
    n: nat,
    meets: spec_fn(Stage, nat) -> Meets<D>,
    rules: Rules,
) -> (Parts, Seq<Event<D>>)
    decreases n,
{
    if n == 0 {
        (p, events)
    } else {
        let (q, so_far) = steps(p, stage, events, capacity, (n - 1) as nat, meets, rules);
        let (k, told) = step(
            q,
            stage,
            so_far.len() < capacity,
            meets(stage, (n - 1) as nat),
            rules,
        );
        (k, so_far + told)
    }
}

/// Readiness that the wait brought.
pub open spec fn marked(m: sockets::Model, keys: Seq<(u64, bool, bool)>, n: int) -> sockets::Model
    decreases n,
{
    if n <= 0 {
        m
    } else {
        let (key, read, write) = keys[n - 1];
        marked(m, keys, n - 1).marked(key, read, write)
    }
}

/// Signals that the wait brought, for services that are there.
pub open spec fn credited(m: services::Model, credits: Seq<Handle>, n: int) -> services::Model
    decreases n,
{
    if n <= 0 {
        m
    } else {
        let so_far = credited(m, credits, n - 1);
        if so_far.live(credits[n - 1]) {
            service_trace::applied::<int>(
                so_far,
                service_trace::Action::Publish(credits[n - 1]),
            ).0
        } else {
            so_far
        }
    }
}

/// What came of a poll.
pub struct Turn<D> {
    pub parts: Parts,
    pub events: Seq<Event<D>>,
    pub waits: nat,
    /// When it waited there was nothing to do and nothing to tell.
    pub idle: bool,
}

/// How a host goes through a poll.
pub struct Host<D> {
    /// Steps that each stage takes.
    pub count: spec_fn(Stage) -> nat,
    pub meets: spec_fn(Stage, nat) -> Meets<D>,
    pub woken: Woken,
    pub readable: bool,
    pub available: bool,
}

/// A poll from `stage` on.
pub open spec fn polled<D>(
    p: Parts,
    stage: Stage,
    events: Seq<Event<D>>,
    capacity: nat,
    host: Host<D>,
    rules: Rules,
) -> Turn<D>
    decreases left(stage),
{
    if stage is Done {
        Turn { parts: p, events, waits: 0, idle: true }
    } else if stage is Wait {
        let woken = Parts {
            sockets: if p.sockets.phase is Idle {
                marked(p.sockets, host.woken.keys, host.woken.keys.len() as int)
            } else {
                p.sockets
            },
            services: credited(p.services, host.woken.credits, host.woken.credits.len() as int),
            ..p
        };
        let rest = polled(
            woken,
            follows(Backend::Readiness, stage, false),
            events,
            capacity,
            host,
            rules,
        );
        Turn {
            waits: rest.waits + 1,
            idle: rest.idle && events.len() == 0 && capacity > 0 && !p.has_work(
                host.readable,
                host.available,
            ),
            ..rest
        }
    } else {
        let (q, more) = steps(
            p,
            stage,
            events,
            capacity,
            (host.count)(stage),
            host.meets,
            rules,
        );
        let skip = skips(
            Backend::Readiness,
            q.has_work(host.readable, host.available),
            0,
            more.len(),
            capacity,
        );
        polled(q, follows(Backend::Readiness, stage, skip), more, capacity, host, rules)
    }
}

/// A step keeps every part valid, tells one completion at most and none without room, and none
/// is lost: what it tells of a name and what the name is owed afterwards is what it was owed.
proof fn lemma_step<D>(p: Parts, stage: Stage, room: bool, meets: Meets<D>, rules: Rules, op: OpId)
    requires
        p.valid(),
    ensures
        ({
            let (q, told) = step(p, stage, room, meets, rules);
            &&& q.valid()
            &&& told.len() <= 1
            &&& !room ==> told.len() == 0
            &&& count(told, op, true) + q.owed(op) == p.owed(op)
        }),
{
    let (q, told) = step(p, stage, room, meets, rules);
    assert(count(Seq::<Event<D>>::empty(), op, true) == 0);
    match stage {
        Stage::Cancelled => {
            if room && p.sockets.cancelled.len() > 0 {
                lemma_socket::<D>(p.sockets, trace::Action::Acknowledge, rules, op);
            }
        },
        Stage::Files { .. } => {
            if room && told.len() > 0 {
                lemma_count_one(told[0], op, true);
                assert(told =~= seq![told[0]]);
            }
        },
        Stage::Services { .. } => {
            let advance = service_trace::Action::Advance { budget: 1, room };
            let (n, first) = service_trace::applied::<D>(p.services, advance);
            lemma_service::<D>(p.services, advance, op);
            if n.serving is Some {
                let h = n.serving->0;
                assert(n.entry_ok(h.spec_index()));
                let look = if n.entries[h.spec_index()]->0.service is Child {
                    service_trace::Action::Look(meets.waited)
                } else {
                    service_trace::Action::Signal(meets.took)
                };
                lemma_service::<D>(n, look, op);
            }
        },
        Stage::Watches { .. } => {
            let action = if p.watches.cancelled.len() > 0 {
                watch_trace::Action::Acknowledge
            } else {
                watch_trace::Action::Serve(meets.found)
            };
            if p.watches.cancelled.len() > 0 || p.watches.ready.len() > 0 {
                watch_trace::law_completions_are_conserved::<D>(p.watches, action, op);
            }
        },
        Stage::Run { .. } => {
            let n = p.sockets.advanced(1, room).0;
            lemma_socket::<D>(p.sockets, trace::Action::Advance { budget: 1, room }, rules, op);
            let settle = trace::Action::Settle(meets.reply);
            if n.phase is Running && trace::allowed(n, settle, rules) {
                lemma_socket(n, settle, rules, op);
            }
        },
        _ => {},
    }
}

proof fn lemma_socket<D>(m: sockets::Model, action: trace::Action<D>, rules: Rules, op: OpId)
    requires
        m.valid(),
        m.ops.len() <= usize::MAX,
        trace::allowed(m, action, rules),
        !trace::submits(action, op),
    ensures
        ({
            let (n, told) = trace::applied(m, action, rules);
            &&& n.valid()
            &&& n.ops.len() == m.ops.len()
            &&& count(told, op, true) + (if n.holds(op) {
                1nat
            } else {
                0
            }) == if m.holds(op) {
                1nat
            } else {
                0
            }
        }),
{
    trace::law_action_ends_a_request_once(m, action, rules, op);
    crate::counting::lemma_terminal_is_counted(trace::applied(m, action, rules).1, op);
}

proof fn lemma_service<D>(m: services::Model, action: service_trace::Action, op: OpId)
    requires
        m.valid(),
        service_trace::allowed(m, action),
        !service_trace::submits(action, op),
    ensures
        ({
            let (n, told) = service_trace::applied::<D>(m, action);
            &&& n.valid()
            &&& count(told, op, true) + (if n.watching(op) {
                1nat
            } else {
                0
            }) == if m.watching(op) {
                1nat
            } else {
                0
            }
        }),
{
    service_trace::law_action_ends_a_watch_once::<D>(m, action, op);
    crate::counting::lemma_terminal_is_counted(service_trace::applied::<D>(m, action).1, op);
}

proof fn lemma_steps<D>(
    p: Parts,
    stage: Stage,
    events: Seq<Event<D>>,
    capacity: nat,
    n: nat,
    meets: spec_fn(Stage, nat) -> Meets<D>,
    rules: Rules,
    op: OpId,
)
    requires
        p.valid(),
        events.len() <= capacity,
    ensures
        ({
            let (q, more) = steps(p, stage, events, capacity, n, meets, rules);
            &&& q.valid()
            &&& more.len() <= capacity
            &&& starts_with(more, events)
            &&& count(more, op, true) + q.owed(op) == count(events, op, true) + p.owed(op)
        }),
    decreases n,
{
    if n == 0 {
        assert(events.take(events.len() as int) =~= events);
    } else {
        lemma_steps(p, stage, events, capacity, (n - 1) as nat, meets, rules, op);
        let (q, so_far) = steps(p, stage, events, capacity, (n - 1) as nat, meets, rules);
        let met = meets(stage, (n - 1) as nat);
        let room = so_far.len() < capacity;
        lemma_step(q, stage, room, met, rules, op);
        let told = step(q, stage, room, met, rules).1;
        lemma_count_sum(so_far, told, op, true);
        assert((so_far + told).take(events.len() as int) =~= so_far.take(events.len() as int));
    }
}

proof fn lemma_marked(m: sockets::Model, keys: Seq<(u64, bool, bool)>, n: int, op: OpId)
    requires
        m.valid(),
        m.ops.len() <= usize::MAX,
        m.phase is Idle,
        0 <= n <= keys.len(),
    ensures
        marked(m, keys, n).valid(),
        marked(m, keys, n).phase is Idle,
        marked(m, keys, n).ops == m.ops,
        marked(m, keys, n).holds(op) == m.holds(op),
    decreases n,
{
    if n > 0 {
        lemma_marked(m, keys, n - 1, op);
        let (key, read, write) = keys[n - 1];
        sockets::lemma_marked(marked(m, keys, n - 1), key, read, write);
    }
}

proof fn lemma_credited(m: services::Model, credits: Seq<Handle>, n: int, op: OpId)
    requires
        m.valid(),
        m.serving is None,
        0 <= n <= credits.len(),
    ensures
        credited(m, credits, n).valid(),
        credited(m, credits, n).serving is None,
        credited(m, credits, n).watching(op) == m.watching(op),
    decreases n,
{
    if n > 0 {
        lemma_credited(m, credits, n - 1, op);
        let so_far = credited(m, credits, n - 1);
        if so_far.live(credits[n - 1]) {
            service_trace::law_action_ends_a_watch_once::<int>(
                so_far,
                service_trace::Action::Publish(credits[n - 1]),
                op,
            );
        }
    }
}

/// A poll never has more completions than its capacity and keeps the earlier ones as they were.
/// It makes at most one wait, and none while anything can be done or told, or nothing could be
/// told of what the wait brings. Work that does not fit is kept: every name has been told one
/// terminal completion for each that it is not owed any more, and no other.
pub proof fn law_poll_is_bounded<D>(
    p: Parts,
    stage: Stage,
    events: Seq<Event<D>>,
    capacity: nat,
    host: Host<D>,
    rules: Rules,
    op: OpId,
)
    requires
        p.valid(),
        events.len() <= capacity,
        stage is Wait ==> events.len() == 0 && capacity > 0 && !p.has_work(
            host.readable,
            host.available,
        ),
    ensures
        ({
            let turn = polled(p, stage, events, capacity, host, rules);
            &&& turn.parts.valid()
            &&& turn.events.len() <= capacity
            &&& starts_with(turn.events, events)
            &&& turn.waits + waits(stage) <= 1
            &&& turn.waits > 0 ==> turn.idle
            &&& count(turn.events, op, true) + turn.parts.owed(op) == count(events, op, true)
                + p.owed(op)
        }),
    decreases left(stage),
{
    law_one_wait(Backend::Readiness, stage, false);
    if stage is Done {
        assert(events.take(events.len() as int) =~= events);
    } else if stage is Wait {
        if p.sockets.phase is Idle {
            lemma_marked(p.sockets, host.woken.keys, host.woken.keys.len() as int, op);
        }
        lemma_credited(p.services, host.woken.credits, host.woken.credits.len() as int, op);
        let woken = Parts {
            sockets: if p.sockets.phase is Idle {
                marked(p.sockets, host.woken.keys, host.woken.keys.len() as int)
            } else {
                p.sockets
            },
            services: credited(p.services, host.woken.credits, host.woken.credits.len() as int),
            ..p
        };
        law_poll_is_bounded(
            woken,
            follows(Backend::Readiness, stage, false),
            events,
            capacity,
            host,
            rules,
            op,
        );
        lemma_no_wait_is_idle(
            woken,
            follows(Backend::Readiness, stage, false),
            events,
            capacity,
            host,
            rules,
        );
    } else {
        let n = (host.count)(stage);
        lemma_steps(p, stage, events, capacity, n, host.meets, rules, op);
        let (q, more) = steps(p, stage, events, capacity, n, host.meets, rules);
        let skip = skips(
            Backend::Readiness,
            q.has_work(host.readable, host.available),
            0,
            more.len(),
            capacity,
        );
        law_one_wait(Backend::Readiness, stage, skip);
        law_poll_is_bounded(
            q,
            follows(Backend::Readiness, stage, skip),
            more,
            capacity,
            host,
            rules,
            op,
        );
        let turn = polled(p, stage, events, capacity, host, rules);
        assert(turn.events.take(events.len() as int) =~= turn.events.take(
            more.len() as int,
        ).take(events.len() as int));
    }
}

/// After its wait a poll does not wait again.
proof fn lemma_no_wait_is_idle<D>(
    p: Parts,
    stage: Stage,
    events: Seq<Event<D>>,
    capacity: nat,
    host: Host<D>,
    rules: Rules,
)
    requires
        waits(stage) == 1,
    ensures
        polled(p, stage, events, capacity, host, rules).waits == 0,
        polled(p, stage, events, capacity, host, rules).idle,
    decreases left(stage),
{
    if !(stage is Done) {
        let (q, more) = steps(
            p,
            stage,
            events,
            capacity,
            (host.count)(stage),
            host.meets,
            rules,
        );
        let skip = skips(
            Backend::Readiness,
            q.has_work(host.readable, host.available),
            0,
            more.len(),
            capacity,
        );
        law_one_wait(Backend::Readiness, stage, skip);
        lemma_no_wait_is_idle(
            q,
            follows(Backend::Readiness, stage, skip),
            more,
            capacity,
            host,
            rules,
        );
    }
}

/// The first stage is what draining the acknowledgements of the engine does: with a step for
/// each that fits, the engine and the completions are those of its contract.
pub proof fn law_first_stage_drains_acknowledgements<D>(
    p: Parts,
    events: Seq<Event<D>>,
    capacity: nat,
    n: nat,
    meets: spec_fn(Stage, nat) -> Meets<D>,
    rules: Rules,
)
    requires
        p.valid(),
        events.len() + n <= capacity,
        n <= p.sockets.cancelled.len(),
    ensures
        ({
            let (q, more) = steps(p, Stage::Cancelled, events, capacity, n, meets, rules);
            &&& q == (Parts { sockets: p.sockets.drained(n), ..p })
            &&& q.sockets.cancelled == p.sockets.cancelled.skip(n as int)
            &&& more == events + p.sockets.cancelled.take(n as int).map_values(
                |op: OpId| cancelled_event::<D>(op),
            )
        }),
    decreases n,
{
    let owed = p.sockets.cancelled;
    let shown = |op: OpId| cancelled_event::<D>(op);
    if n == 0 {
        assert(owed.skip(0) =~= owed);
        assert(events + owed.take(0).map_values(shown) =~= events);
    } else {
        let k = (n - 1) as nat;
        law_first_stage_drains_acknowledgements(p, events, capacity, k, meets, rules);
        let (q, more) = steps(p, Stage::Cancelled, events, capacity, k, meets, rules);
        assert(owed.skip(k as int)[0] == owed[k as int]);
        assert(owed.skip(k as int).drop_first() =~= owed.skip(n as int));
        assert(owed.take(n as int) =~= owed.take(k as int).push(owed[k as int]));
        assert(more + seq![cancelled_event::<D>(owed[k as int])] =~= events + owed.take(
            n as int,
        ).map_values(shown));
    }
}

/// The results belong to jobs that run, each to its own.
pub open spec fn results_run(p: Parts) -> bool {
    &&& forall|k: int| 0 <= k < p.results.len() ==> p.files.runs((#[trigger] p.results[k]).op)
    &&& forall|j: int, k: int|
        0 <= j < k < p.results.len() ==> (#[trigger] p.results[j]).op.spec_index() != (
        #[trigger] p.results[k]).op.spec_index()
}

/// The second stage is what telling the results of the workers does: with a step for each that
/// fits, the jobs and the completions are those of its contract.
pub proof fn law_second_stage_tells_results<D>(
    p: Parts,
    waited: bool,
    events: Seq<Event<D>>,
    capacity: nat,
    n: nat,
    meets: spec_fn(Stage, nat) -> Meets<D>,
    rules: Rules,
)
    requires
        p.valid(),
        results_run(p),
        events.len() + n <= capacity,
        n <= p.results.len(),
    ensures
        ({
            let (q, more) = steps(p, Stage::Files { waited }, events, capacity, n, meets, rules);
            let (m, told, _) = collected::<D>(p.files, p.results, n as int);
            &&& q == (Parts { files: m, results: p.results.skip(n as int), ..p })
            &&& more == events + told
            &&& told.len() == n
            &&& m.active.len() == p.files.active.len()
            &&& forall|i: int|
                0 <= i < p.files.active.len() && (forall|k: int|
                    0 <= k < n ==> (#[trigger] p.results[k]).op.spec_index() != i)
                    ==> #[trigger] m.active[i] == p.files.active[i]
        }),
    decreases n,
{
    if n == 0 {
        assert(p.results.skip(0) =~= p.results);
        assert(events + collected::<D>(p.files, p.results, 0).1 =~= events);
    } else {
        let k = (n - 1) as nat;
        law_second_stage_tells_results(p, waited, events, capacity, k, meets, rules);
        let (q, more) = steps(p, Stage::Files { waited }, events, capacity, k, meets, rules);
        let (m, told, _) = collected::<D>(p.files, p.results, k as int);
        let r = p.results[k as int];
        assert(p.files.runs(r.op));
        assert(p.results.skip(k as int)[0] == r);
        assert(p.results.skip(k as int).drop_first() =~= p.results.skip(n as int));
        assert(m.active[r.op.spec_index()] == p.files.active[r.op.spec_index()]);
        let event = completion::<D>(r.op, m.leases[r.op.spec_index()], r.result);
        assert(more + seq![event] =~= events + told.push(event));
        let last = collected::<D>(p.files, p.results, n as int).0;
        assert forall|i: int|
            0 <= i < p.files.active.len() && (forall|j: int|
                0 <= j < n ==> (#[trigger] p.results[j]).op.spec_index()
                    != i) implies #[trigger] last.active[i] == p.files.active[i] by {
            assert(p.results[k as int].op.spec_index() != i);
            assert(m.active[i] == p.files.active[i]);
        }
    }
}

/// The stages of files, services and watches leave the sockets alone, and tell one completion a
/// step at most.
proof fn lemma_other_stages<D>(
    p: Parts,
    stage: Stage,
    events: Seq<Event<D>>,
    capacity: nat,
    n: nat,
    meets: spec_fn(Stage, nat) -> Meets<D>,
    rules: Rules,
)
    requires
        p.valid(),
        events.len() <= capacity,
        stage is Files || stage is Services || stage is Watches,
    ensures
        ({
            let (q, more) = steps(p, stage, events, capacity, n, meets, rules);
            &&& q.sockets == p.sockets
            &&& more.len() <= events.len() + n
        }),
    decreases n,
{
    if n > 0 {
        let op = OpId { owner: 0, key: 0 };
        lemma_other_stages(p, stage, events, capacity, (n - 1) as nat, meets, rules);
        lemma_steps(p, stage, events, capacity, (n - 1) as nat, meets, rules, op);
        let (q, so_far) = steps(p, stage, events, capacity, (n - 1) as nat, meets, rules);
        lemma_step(
            q,
            stage,
            so_far.len() < capacity,
            meets(stage, (n - 1) as nat),
            rules,
            op,
        );
    }
}

/// What a step told stays told.
proof fn lemma_steps_go_on<D>(
    p: Parts,
    stage: Stage,
    events: Seq<Event<D>>,
    capacity: nat,
    k: nat,
    n: nat,
    meets: spec_fn(Stage, nat) -> Meets<D>,
    rules: Rules,
)
    requires
        p.valid(),
        events.len() <= capacity,
        k <= n,
    ensures
        starts_with(
            steps(p, stage, events, capacity, n, meets, rules).1,
            steps(p, stage, events, capacity, k, meets, rules).1,
        ),
    decreases n - k,
{
    let early = steps(p, stage, events, capacity, k, meets, rules).1;
    if k == n {
        assert(early.take(early.len() as int) =~= early);
    } else {
        lemma_steps_go_on(p, stage, events, capacity, k, (n - 1) as nat, meets, rules);
        let (q, so_far) = steps(p, stage, events, capacity, (n - 1) as nat, meets, rules);
        let told = step(
            q,
            stage,
            so_far.len() < capacity,
            meets(stage, (n - 1) as nat),
            rules,
        ).1;
        assert((so_far + told).take(early.len() as int) =~= so_far.take(early.len() as int));
    }
}

/// Bytes that come while a turn waits are read in that turn. The wait reports the descriptor of
/// a socket whose oldest operation on that side is a read; the call of the read then returns `n`
/// bytes. Among the completions of the turn is the one of that read, with its bytes.
pub proof fn law_what_the_wait_brings_is_read_in_the_turn<D>(
    p: Parts,
    key: u64,
    write: bool,
    capacity: nat,
    host: Host<D>,
    rules: Rules,
    n: usize,
    lease: Option<Lease>,
)
    requires
        p.valid(),
        rules is Native,
        p.sockets.phase is Idle,
        !p.has_work(host.readable, host.available),
        host.woken.keys == seq![(key, true, write)],
        ({
            let s = (key % SLOT_SPAN) as int;
            &&& s < p.sockets.resources.len()
            &&& p.sockets.resources[s] is Some
            &&& p.sockets.resources[s]->0.handle.key == key
            &&& p.sockets.lanes[2 * s].len() > 0
            &&& p.sockets.ops[p.sockets.lanes[2 * s][0] as int]->0.request.operation is Read
        }),
        (host.count)(Stage::Files { waited: true }) + (host.count)(
            Stage::Services { waited: true },
        ) + (host.count)(Stage::Watches { waited: true }) < capacity,
        (host.count)(Stage::Run { waited: true }) >= 2,
        (host.meets)(Stage::Run { waited: true }, 1).reply == (Reply::<D>::Bytes { n, lease }),
        n > 0,
    ensures
        ({
            let s = (key % SLOT_SPAN) as int;
            let read = p.sockets.ops[p.sockets.lanes[2 * s][0] as int]->0.request;
            let turn = polled(p, Stage::Wait, Seq::empty(), capacity, host, rules);
            exists|i: int|
                0 <= i < turn.events.len() && {
                    let e = #[trigger] turn.events[i];
                    &&& e.op == read.op
                    &&& e.result == Ok::<Outcome<D>, Error>(Outcome::Read { n, lease })
                    &&& e.terminal == !(read.operation matches Operation::Read {
                        multishot: true,
                        ..
                    })
                }
        }),
{
    let op = OpId { owner: 0, key: 0 };
    let s = (key % SLOT_SPAN) as int;
    lemma_credited(p.services, host.woken.credits, host.woken.credits.len() as int, op);
    lemma_woken_read::<D>(p.sockets, key, write, rules, n, lease);
    let m1 = p.sockets.marked(key, true, write);
    assert(marked(p.sockets, host.woken.keys, 1) == m1) by {
        reveal_with_fuel(marked, 2);
    }
    let woken = Parts {
        sockets: m1,
        services: credited(p.services, host.woken.credits, host.woken.credits.len() as int),
        ..p
    };
    let none = Seq::<Event<D>>::empty();
    let a = Stage::Files { waited: true };
    let b = Stage::Services { waited: true };
    let c = Stage::Watches { waited: true };
    let d = Stage::Run { waited: true };
    lemma_steps(woken, a, none, capacity, (host.count)(a), host.meets, rules, op);
    lemma_other_stages(woken, a, none, capacity, (host.count)(a), host.meets, rules);
    let (q1, e1) = steps(woken, a, none, capacity, (host.count)(a), host.meets, rules);
    lemma_steps(q1, b, e1, capacity, (host.count)(b), host.meets, rules, op);
    lemma_other_stages(q1, b, e1, capacity, (host.count)(b), host.meets, rules);
    let (q2, e2) = steps(q1, b, e1, capacity, (host.count)(b), host.meets, rules);
    lemma_steps(q2, c, e2, capacity, (host.count)(c), host.meets, rules, op);
    lemma_other_stages(q2, c, e2, capacity, (host.count)(c), host.meets, rules);
    let (q3, e3) = steps(q2, c, e2, capacity, (host.count)(c), host.meets, rules);
    let m3 = m1.popped().advanced(1, true).0;
    let event = m3.settled(Reply::<D>::Bytes { n, lease }, rules).1->0;
    lemma_two_steps(q3, e3, capacity, host, rules, n, lease);
    let last = steps(q3, d, e3, capacity, (host.count)(d), host.meets, rules);
    lemma_after_wait(p, woken, capacity, host, rules);
    assert(polled(p, Stage::Wait, none, capacity, host, rules).events[e3.len() as int] == event);
}

/// A read whose descriptor is reported is tried, and what it got is told.
proof fn lemma_woken_read<D>(
    m: sockets::Model,
    key: u64,
    write: bool,
    rules: Rules,
    n: usize,
    lease: Option<Lease>,
)
    requires
        m.valid(),
        m.ops.len() <= usize::MAX,
        m.phase is Idle,
        m.ready.len() == 0,
        rules is Native,
        n > 0,
        ({
            let s = (key % SLOT_SPAN) as int;
            &&& s < m.resources.len()
            &&& m.resources[s] is Some
            &&& m.resources[s]->0.handle.key == key
            &&& m.lanes[2 * s].len() > 0
            &&& m.ops[m.lanes[2 * s][0] as int]->0.request.operation is Read
        }),
    ensures
        ({
            let s = (key % SLOT_SPAN) as int;
            let read = m.ops[m.lanes[2 * s][0] as int]->0.request;
            let m1 = m.marked(key, true, write);
            let m3 = m1.popped().advanced(1, true).0;
            let (k, told) = m3.settled(Reply::<D>::Bytes { n, lease }, rules);
            &&& m1.valid()
            &&& m1.phase is Idle
            &&& m1.ops == m.ops
            &&& m1.ready.len() > 0
            &&& m3.phase is Running
            &&& trace::allowed(m3, trace::Action::Settle(Reply::<D>::Bytes { n, lease }), rules)
            &&& told is Some
            &&& told->0.op == read.op
            &&& told->0.result == Ok::<Outcome<D>, Error>(Outcome::Read { n, lease })
            &&& told->0.terminal == !(read.operation matches Operation::Read {
                multishot: true,
                ..
            })
        }),
{
    let s = (key % SLOT_SPAN) as int;
    let h = m.resources[s]->0.handle;
    let slot = m.lanes[2 * s][0];
    sockets::lemma_marked(m, key, true, write);
    let m1 = m.marked(key, true, write);
    assert(m.slot_ok(s, None));
    assert(m1.slot_ok(s, None));
    assert(m.entry_ok(2 * s, 0));
    assert(m.op_ok(slot as int));
    assert(m1.ready =~= seq![h]);
    let m2 = m1.popped();
    assert(m2.resources[s]->0.ready_in);
    assert(m2.lanes == m.lanes);
    let m3 = m2.advanced(1, true).0;
    assert(m3.phase == (sockets::Phase::Running { handle: h, direction: Direction::In, slot }));
}

/// The first step of the run picks the handle up, the second tries its oldest read.
proof fn lemma_two_steps<D>(
    p: Parts,
    events: Seq<Event<D>>,
    capacity: nat,
    host: Host<D>,
    rules: Rules,
    n: usize,
    lease: Option<Lease>,
)
    requires
        p.valid(),
        p.sockets.phase is Idle,
        p.sockets.ready.len() > 0,
        events.len() < capacity,
        (host.count)(Stage::Run { waited: true }) >= 2,
        (host.meets)(Stage::Run { waited: true }, 1).reply == (Reply::<D>::Bytes { n, lease }),
        ({
            let m3 = p.sockets.popped().advanced(1, true).0;
            let reply = Reply::<D>::Bytes { n, lease };
            &&& m3.phase is Running
            &&& trace::allowed(m3, trace::Action::Settle(reply), rules)
            &&& m3.settled(reply, rules).1 is Some
        }),
    ensures
        ({
            let d = Stage::Run { waited: true };
            let m3 = p.sockets.popped().advanced(1, true).0;
            let last = steps(p, d, events, capacity, (host.count)(d), host.meets, rules).1;
            &&& last.len() > events.len()
            &&& last[events.len() as int] == m3.settled(Reply::<D>::Bytes { n, lease }, rules).1->0
        }),
{
    let d = Stage::Run { waited: true };
    let m3 = p.sockets.popped().advanced(1, true).0;
    let event = m3.settled(Reply::<D>::Bytes { n, lease }, rules).1->0;
    let f0 = steps(p, d, events, capacity, 0, host.meets, rules);
    assert(f0 == (p, events));
    let f1 = steps(p, d, events, capacity, 1, host.meets, rules);
    assert(f1.0.sockets == p.sockets.popped());
    assert(f1.1 =~= events);
    let f2 = steps(p, d, events, capacity, 2, host.meets, rules);
    assert(f2.1 =~= events.push(event));
    lemma_steps_go_on(p, d, events, capacity, 2, (host.count)(d), host.meets, rules);
    let last = steps(p, d, events, capacity, (host.count)(d), host.meets, rules).1;
    assert(last.take(f2.1.len() as int)[events.len() as int] == event);
}

/// What follows the wait: files, services, watches, and then the sockets.
proof fn lemma_after_wait<D>(p: Parts, woken: Parts, capacity: nat, host: Host<D>, rules: Rules)
    requires
        p.sockets.phase is Idle,
        woken == (Parts {
            sockets: marked(p.sockets, host.woken.keys, host.woken.keys.len() as int),
            services: credited(p.services, host.woken.credits, host.woken.credits.len() as int),
            ..p
        }),
    ensures
        ({
            let none = Seq::<Event<D>>::empty();
            let a = Stage::Files { waited: true };
            let b = Stage::Services { waited: true };
            let c = Stage::Watches { waited: true };
            let d = Stage::Run { waited: true };
            let (q1, e1) = steps(woken, a, none, capacity, (host.count)(a), host.meets, rules);
            let (q2, e2) = steps(q1, b, e1, capacity, (host.count)(b), host.meets, rules);
            let (q3, e3) = steps(q2, c, e2, capacity, (host.count)(c), host.meets, rules);
            let last = steps(q3, d, e3, capacity, (host.count)(d), host.meets, rules);
            polled(p, Stage::Wait, none, capacity, host, rules).events == last.1
        }),
{
    let none = Seq::<Event<D>>::empty();
    let a = Stage::Files { waited: true };
    let b = Stage::Services { waited: true };
    let c = Stage::Watches { waited: true };
    let d = Stage::Run { waited: true };
    let (q1, e1) = steps(woken, a, none, capacity, (host.count)(a), host.meets, rules);
    let (q2, e2) = steps(q1, b, e1, capacity, (host.count)(b), host.meets, rules);
    let (q3, e3) = steps(q2, c, e2, capacity, (host.count)(c), host.meets, rules);
    let (q4, e4) = steps(q3, d, e3, capacity, (host.count)(d), host.meets, rules);
    let z = Stage::Done { waited: true };
    assert(polled(q4, z, e4, capacity, host, rules).events == e4);
    assert(polled(q3, d, e3, capacity, host, rules).events == e4);
    assert(polled(q2, c, e2, capacity, host, rules).events == e4);
    assert(polled(q1, b, e1, capacity, host, rules).events == e4);
    assert(polled(woken, a, none, capacity, host, rules).events == e4);
}

} // verus!
