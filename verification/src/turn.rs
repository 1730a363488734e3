//! The order of one turn, and its single wait.
use crate::types::{invalid, Error, ErrorKind, PollInfo, Span};
use vstd::prelude::*;

verus! {

/// How a backend works.
#[derive(Clone, Copy, Debug, PartialEq, Eq, Structural)]
pub enum Backend {
    /// The system tells what is ready.
    Readiness,
    /// The host polls for what is ready.
    Polling,
    /// The host acknowledges what was started.
    Async,
    /// A port hands out what completed.
    Port,
}

/// What a backend does next in a turn. `waited` tells the pass before the wait from the one
/// after it.
#[derive(Clone, Copy, Debug, PartialEq, Eq, Structural)]
pub enum Stage {
    /// Deliver owed cancellation acknowledgements.
    Cancelled,
    Files { waited: bool },
    Services { waited: bool },
    Watches { waited: bool },
    /// Perform operations that can go on.
    Run { waited: bool },
    /// Look after name lookups.
    Lookups { waited: bool },
    /// Block in the system, with the exact timeout.
    Wait,
    Done { waited: bool },
}

/// Where a turn begins.
pub open spec fn begins(backend: Backend) -> Stage {
    if backend is Port {
        Stage::Services { waited: false }
    } else {
        Stage::Cancelled
    }
}

/// The end of a pass: the first one leads to the wait, unless the turn may not block any more.
pub open spec fn passes(waited: bool, skip: bool) -> Stage {
    if waited || skip {
        Stage::Done { waited }
    } else {
        Stage::Wait
    }
}

/// The stage after `stage`; `skip` tells whether the turn may not block any more. A stage that
/// the backend does not have ends the turn.
pub open spec fn follows(backend: Backend, stage: Stage, skip: bool) -> Stage {
    match (backend, stage) {
        (_, Stage::Done { waited }) => Stage::Done { waited },
        (Backend::Readiness, Stage::Cancelled) => Stage::Files { waited: false },
        (Backend::Readiness, Stage::Files { waited }) => Stage::Services { waited },
        (Backend::Readiness, Stage::Services { waited }) => Stage::Watches { waited },
        (Backend::Readiness, Stage::Watches { waited }) => Stage::Run { waited },
        (Backend::Readiness, Stage::Run { waited }) => passes(waited, skip),
        (Backend::Readiness, Stage::Wait) => Stage::Files { waited: true },
        (Backend::Polling, Stage::Cancelled) => Stage::Run { waited: false },
        (Backend::Polling, Stage::Run { waited }) => Stage::Lookups { waited },
        (Backend::Polling, Stage::Lookups { waited }) => passes(waited, skip),
        (Backend::Polling, Stage::Wait) => Stage::Run { waited: true },
        (Backend::Async, Stage::Cancelled) => Stage::Files { waited: false },
        (Backend::Async, Stage::Files { waited }) => Stage::Run { waited },
        (Backend::Async, Stage::Run { waited }) => passes(waited, skip),
        (Backend::Async, Stage::Wait) => Stage::Run { waited: true },
        (Backend::Port, Stage::Services { waited }) => Stage::Run { waited },
        (Backend::Port, Stage::Run { waited }) => passes(waited, skip),
        (Backend::Port, Stage::Wait) => Stage::Services { waited: true },
        (_, stage) => Stage::Done { waited: waits(stage) == 1 },
    }
}

/// How many stages are left at most.
pub open spec fn left(stage: Stage) -> int {
    match stage {
        Stage::Cancelled => 12,
        Stage::Files { waited: false } => 11,
        Stage::Services { waited: false } => 10,
        Stage::Watches { waited: false } => 9,
        Stage::Run { waited: false } => 8,
        Stage::Lookups { waited: false } => 7,
        Stage::Wait => 6,
        Stage::Files { waited: true } => 5,
        Stage::Services { waited: true } => 4,
        Stage::Watches { waited: true } => 3,
        Stage::Run { waited: true } => 2,
        Stage::Lookups { waited: true } => 1,
        Stage::Done { .. } => 0,
    }
}

/// Waits that a turn in this stage has made.
pub open spec fn waits(stage: Stage) -> int {
    match stage {
        Stage::Cancelled | Stage::Wait => 0,
        Stage::Files { waited } | Stage::Services { waited } | Stage::Watches { waited }
        | Stage::Run { waited } | Stage::Lookups { waited } | Stage::Done { waited } => if waited {
            1
        } else {
            0
        },
    }
}

/// A turn ends, it waits at most once, and it does not wait once it may not.
pub proof fn law_one_wait(backend: Backend, stage: Stage, skip: bool)
    ensures
        !(stage is Done) ==> left(follows(backend, stage, skip)) < left(stage),
        waits(follows(backend, stage, skip)) == waits(stage) + if stage is Wait {
            1int
        } else {
            0
        },
        0 <= waits(stage) <= 1,
        skip ==> !(follows(backend, stage, skip) is Wait),
{
}

/// The stages of a turn from `stage` on; `skip` tells after which the turn may not block.
pub open spec fn path(backend: Backend, stage: Stage, skip: spec_fn(Stage) -> bool) -> Seq<Stage>
    decreases left(stage),
{
    if stage is Done {
        seq![stage]
    } else {
        seq![stage] + path(backend, follows(backend, stage, skip(stage)), skip)
    }
}

/// `first` comes before `second`.
pub open spec fn precedes(stages: Seq<Stage>, first: Stage, second: Stage) -> bool {
    exists|i: int, j: int|
        0 <= i < j < stages.len() && #[trigger] stages[i] == first && #[trigger] stages[j] == second
}

/// What a backend looks after in the pass before the wait.
pub open spec fn looks_after(backend: Backend, stage: Stage) -> bool {
    match stage {
        Stage::Cancelled => !(backend is Port),
        Stage::Files { waited } => !waited && (backend is Readiness || backend is Async),
        Stage::Services { waited } => !waited && (backend is Readiness || backend is Port),
        Stage::Watches { waited } => !waited && backend is Readiness,
        Stage::Lookups { waited } => !waited && backend is Polling,
        Stage::Run { waited } => !waited,
        _ => false,
    }
}

/// What it looks after again once the wait brought something. What only its own turn can bring
/// forward, acknowledgements and the files of a component, is not among it.
pub open spec fn looks_again(backend: Backend, stage: Stage) -> bool {
    match stage {
        Stage::Files { waited } => waited && backend is Readiness,
        Stage::Services { waited } => waited && (backend is Readiness || backend is Port),
        Stage::Watches { waited } => waited && backend is Readiness,
        Stage::Lookups { waited } => waited && backend is Polling,
        Stage::Run { waited } => waited,
        _ => false,
    }
}

/// A turn delivers what is owed and runs what can go on before it may wait, and runs what the
/// wait made ready before it is done: everything that the backend looks after comes before the
/// wait, or before the end where the turn may not block, and again between the wait and the end.
/// It waits unless it was told after its first pass that it may not.
pub proof fn law_turn_runs_before_and_after_its_wait(backend: Backend, skip: spec_fn(Stage) -> bool)
    ensures
        ({
            let stages = path(backend, begins(backend), skip);
            let waited = stages.contains(Stage::Wait);
            &&& stages.len() > 0
            &&& stages[stages.len() - 1] == (Stage::Done { waited })
            &&& forall|s: Stage| #[trigger]
                looks_after(backend, s) ==> if waited {
                    precedes(stages, s, Stage::Wait)
                } else {
                    precedes(stages, s, Stage::Done { waited })
                }
            &&& waited ==> forall|s: Stage| #[trigger]
                looks_again(backend, s) ==> precedes(stages, Stage::Wait, s) && precedes(
                    stages,
                    s,
                    Stage::Done { waited },
                )
            &&& (forall|s: Stage| !#[trigger] skip(s)) ==> waited
            &&& (forall|s: Stage| #[trigger] skip(s)) ==> !waited
            &&& precedes(stages, Stage::Cancelled, Stage::Run { waited: false }) || backend is Port
        }),
{
    reveal_with_fuel(path, 13);
    let stages = path(backend, begins(backend), skip);
    let run = Stage::Run { waited: false };
    let off: Stage = if backend is Polling {
        Stage::Lookups { waited: false }
    } else {
        run
    };
    let w = !skip(off);
    let done = Stage::Done { waited: w };
    let head: Seq<Stage> = match backend {
        Backend::Readiness => seq![
            Stage::Cancelled,
            Stage::Files { waited: false },
            Stage::Services { waited: false },
            Stage::Watches { waited: false },
            run,
        ],
        Backend::Polling => seq![Stage::Cancelled, run, off],
        Backend::Async => seq![Stage::Cancelled, Stage::Files { waited: false }, run],
        Backend::Port => seq![Stage::Services { waited: false }, run],
    };
    let again = Stage::Run { waited: true };
    let tail: Seq<Stage> = match backend {
        Backend::Readiness => seq![
            Stage::Files { waited: true },
            Stage::Services { waited: true },
            Stage::Watches { waited: true },
            again,
        ],
        Backend::Polling => seq![again, Stage::Lookups { waited: true }],
        Backend::Async => seq![again],
        Backend::Port => seq![Stage::Services { waited: true }, again],
    };
    let n = head.len() as int;
    if w {
        assert(stages =~= head + seq![Stage::Wait] + tail + seq![done]);
        assert(stages[n] == Stage::Wait);
        assert(stages.contains(Stage::Wait));
        assert forall|s: Stage| #[trigger] looks_after(backend, s) implies precedes(
            stages,
            s,
            Stage::Wait,
        ) by {
            let i = choose|i: int| 0 <= i < n && #[trigger] head[i] == s;
            lemma_listed(head, s, backend, false);
            assert(stages[i] == s && stages[n] == Stage::Wait);
        }
        assert forall|s: Stage| #[trigger] looks_again(backend, s) implies precedes(
            stages,
            Stage::Wait,
            s,
        ) && precedes(stages, s, done) by {
            lemma_listed(tail, s, backend, true);
            let i = choose|i: int| 0 <= i < tail.len() && #[trigger] tail[i] == s;
            assert(stages[n + 1 + i] == s);
            assert(stages[n] == Stage::Wait);
            assert(stages[stages.len() - 1] == done);
        }
        assert(!skip(off));
    } else {
        assert(stages =~= head + seq![done]);
        assert(!stages.contains(Stage::Wait));
        assert forall|s: Stage| #[trigger] looks_after(backend, s) implies precedes(
            stages,
            s,
            done,
        ) by {
            lemma_listed(head, s, backend, false);
            let i = choose|i: int| 0 <= i < n && #[trigger] head[i] == s;
            assert(stages[i] == s && stages[n] == done);
        }
        assert(skip(off));
    }
    if !(backend is Port) {
        let i = if backend is Readiness {
            4int
        } else if backend is Polling {
            1
        } else {
            2
        };
        assert(stages[0] == Stage::Cancelled && stages[i] == run);
    }
}

/// The lists of a pass hold what the backend looks after.
proof fn lemma_listed(list: Seq<Stage>, s: Stage, backend: Backend, waited: bool)
    requires
        if waited {
            looks_again(backend, s)
        } else {
            looks_after(backend, s)
        },
        match backend {
            Backend::Readiness => list == if waited {
                seq![
                    Stage::Files { waited },
                    Stage::Services { waited },
                    Stage::Watches { waited },
                    Stage::Run { waited },
                ]
            } else {
                seq![
                    Stage::Cancelled,
                    Stage::Files { waited },
                    Stage::Services { waited },
                    Stage::Watches { waited },
                    Stage::Run { waited },
                ]
            },
            Backend::Polling => list == if waited {
                seq![Stage::Run { waited }, Stage::Lookups { waited }]
            } else {
                seq![Stage::Cancelled, Stage::Run { waited }, Stage::Lookups { waited }]
            },
            Backend::Async => list == if waited {
                seq![Stage::Run { waited }]
            } else {
                seq![Stage::Cancelled, Stage::Files { waited }, Stage::Run { waited }]
            },
            Backend::Port => list == seq![Stage::Services { waited }, Stage::Run { waited }],
        },
    ensures
        exists|i: int| 0 <= i < list.len() && #[trigger] list[i] == s,
{
    assert(list.len() > 0);
    assert(list[0] == list[0]);
    if list.len() > 1 {
        assert(list[1] == list[1]);
    }
    if list.len() > 2 {
        assert(list[2] == list[2]);
    }
    if list.len() > 3 {
        assert(list[3] == list[3]);
    }
    if list.len() > 4 {
        assert(list[4] == list[4]);
    }
}

/// Where a turn begins.
pub fn begin(backend: Backend) -> (stage: Stage)
    ensures
        stage == begins(backend),
{
    match backend {
        Backend::Port => Stage::Services { waited: false },
        _ => Stage::Cancelled,
    }
}

fn pass(waited: bool, skip: bool) -> (after: Stage)
    ensures
        after == passes(waited, skip),
{
    if waited || skip {
        Stage::Done { waited }
    } else {
        Stage::Wait
    }
}

/// The next stage of a turn.
pub fn next(backend: Backend, stage: Stage, skip: bool) -> (after: Stage)
    ensures
        after == follows(backend, stage, skip),
{
    match (backend, stage) {
        (_, Stage::Done { waited }) => Stage::Done { waited },
        (Backend::Readiness, Stage::Cancelled) => Stage::Files { waited: false },
        (Backend::Readiness, Stage::Files { waited }) => Stage::Services { waited },
        (Backend::Readiness, Stage::Services { waited }) => Stage::Watches { waited },
        (Backend::Readiness, Stage::Watches { waited }) => Stage::Run { waited },
        (Backend::Readiness, Stage::Run { waited }) => pass(waited, skip),
        (Backend::Readiness, Stage::Wait) => Stage::Files { waited: true },
        (Backend::Polling, Stage::Cancelled) => Stage::Run { waited: false },
        (Backend::Polling, Stage::Run { waited }) => Stage::Lookups { waited },
        (Backend::Polling, Stage::Lookups { waited }) => pass(waited, skip),
        (Backend::Polling, Stage::Wait) => Stage::Run { waited: true },
        (Backend::Async, Stage::Cancelled) => Stage::Files { waited: false },
        (Backend::Async, Stage::Files { waited }) => Stage::Run { waited },
        (Backend::Async, Stage::Run { waited }) => pass(waited, skip),
        (Backend::Async, Stage::Wait) => Stage::Run { waited: true },
        (Backend::Port, Stage::Services { waited }) => Stage::Run { waited },
        (Backend::Port, Stage::Run { waited }) => pass(waited, skip),
        (Backend::Port, Stage::Wait) => Stage::Services { waited: true },
        (_, Stage::Cancelled) => Stage::Done { waited: false },
        (_, Stage::Files { waited }) => Stage::Done { waited },
        (_, Stage::Services { waited }) => Stage::Done { waited },
        (_, Stage::Watches { waited }) => Stage::Done { waited },
        (_, Stage::Lookups { waited }) => Stage::Done { waited },
    }
}

/// The turn returns without its wait: queued work, or a completion, would make blocking wrong,
/// and a full buffer leaves no room for the result. The turn of a port may start with
/// completions of an earlier one.
pub open spec fn skips(backend: Backend, work: bool, before: nat, completions: nat, capacity: nat) -> bool {
    ||| work
    ||| completions == capacity
    ||| completions != if backend is Port {
        before
    } else {
        0
    }
}

/// A turn blocks exactly when it has nothing to do, nothing new to tell, and room to tell what
/// the wait brings.
pub proof fn law_turn_blocks_when_it_is_idle(
    backend: Backend,
    work: bool,
    before: nat,
    completions: nat,
    capacity: nat,
)
    requires
        before <= completions <= capacity,
    ensures
        !skips(backend, work, before, completions, capacity) <==> {
            &&& !work
            &&& completions < capacity
            &&& backend is Port ==> completions == before
            &&& !(backend is Port) ==> completions == 0
        },
{
}

/// What came of a turn.
pub struct Polled<E> {
    pub events: Seq<E>,
    pub waits: nat,
    /// What there was when it waited.
    pub waited_with: Seq<E>,
}

/// A turn from `stage` on. `does` tells what each stage adds to the completions so far, and
/// whether work is queued afterwards; `before` counts those of earlier turns.
pub open spec fn polled<E>(
    backend: Backend,
    stage: Stage,
    before: nat,
    events: Seq<E>,
    capacity: nat,
    does: spec_fn(Stage, Seq<E>) -> (Seq<E>, bool),
) -> Polled<E>
    decreases left(stage),
{
    if stage is Done {
        Polled { events, waits: 0, waited_with: events }
    } else if stage is Wait {
        let rest = polled(
            backend,
            follows(backend, stage, false),
            before,
            events,
            capacity,
            does,
        );
        Polled { waits: rest.waits + 1, waited_with: events, ..rest }
    } else {
        let (added, work) = does(stage, events);
        let more = events + added;
        polled(
            backend,
            follows(backend, stage, skips(backend, work, before, more.len(), capacity)),
            before,
            more,
            capacity,
            does,
        )
    }
}

/// `events` are the first of `all`.
pub open spec fn starts_with<E>(all: Seq<E>, events: Seq<E>) -> bool {
    events.len() <= all.len() && all.take(events.len() as int) == events
}

/// A turn may block with these completions, of which the first `before` are old.
pub open spec fn calm(backend: Backend, before: nat, completions: nat, capacity: nat) -> bool {
    completions < capacity && completions == if backend is Port {
        before
    } else {
        0
    }
}

/// A turn makes at most one wait, and its output is bounded. With stages that add no more
/// than there is room for, a turn never has more completions than its capacity and keeps the
/// earlier ones as they were. It waits only if no stage before the wait brought anything, there
/// is room for what the wait brings, and, but on a port, the turn began with nothing.
pub proof fn law_turn_is_bounded<E>(
    backend: Backend,
    stage: Stage,
    before: nat,
    events: Seq<E>,
    capacity: nat,
    does: spec_fn(Stage, Seq<E>) -> (Seq<E>, bool),
)
    requires
        before <= events.len() <= capacity,
        stage is Wait ==> calm(backend, before, events.len(), capacity),
        forall|at: Stage, so_far: Seq<E>|
            so_far.len() <= capacity ==> so_far.len() + (#[trigger] does(at, so_far)).0.len()
                <= capacity,
    ensures
        ({
            let turn = polled(backend, stage, before, events, capacity, does);
            &&& turn.events.len() <= capacity
            &&& starts_with(turn.events, events)
            &&& turn.waits + waits(stage) <= 1
            &&& turn.waits > 0 ==> {
                &&& calm(backend, before, turn.waited_with.len(), capacity)
                &&& starts_with(turn.waited_with, events)
                &&& before == events.len() ==> turn.waited_with == events
                &&& starts_with(turn.events, turn.waited_with)
            }
        }),
    decreases left(stage),
{
    law_one_wait(backend, stage, false);
    if stage is Done {
        assert(events.take(events.len() as int) =~= events);
    } else if stage is Wait {
        law_turn_is_bounded(
            backend,
            follows(backend, stage, false),
            before,
            events,
            capacity,
            does,
        );
        assert(events.take(events.len() as int) =~= events);
    } else {
        let (added, work) = does(stage, events);
        let more = events + added;
        let skip = skips(backend, work, before, more.len(), capacity);
        law_one_wait(backend, stage, skip);
        law_turn_is_bounded(
            backend,
            follows(backend, stage, skip),
            before,
            more,
            capacity,
            does,
        );
        let turn = polled(backend, stage, before, events, capacity, does);
        assert(more.take(events.len() as int) =~= events);
        assert(turn.events.take(events.len() as int) =~= turn.events.take(
            more.len() as int,
        ).take(events.len() as int));
        if turn.waits > 0 {
            assert(turn.waited_with.take(events.len() as int) =~= turn.waited_with.take(
                more.len() as int,
            ).take(events.len() as int));
            if before == events.len() {
                assert(turn.waited_with.take(events.len() as int) =~= turn.waited_with);
            }
        }
    }
}

/// Whether a readiness turn returns without its wait: queued work or a completion
/// would make blocking wrong, and a full buffer leaves no room for the result. An
/// attempt that merely would have blocked keeps the wait and its exact timeout.
pub fn skip_wait(has_work: bool, completions: usize, capacity: usize) -> (skip: bool)
    ensures
        forall|before: nat|
            skip == #[trigger] skips(
                Backend::Readiness,
                has_work,
                before,
                completions as nat,
                capacity as nat,
            ),
        skip == (has_work || completions != 0 || completions == capacity),
{
    has_work || completions != 0 || completions == capacity
}

/// The same for a port, whose turn may start with completions of an earlier one.
pub fn skip_port_wait(before: usize, completions: usize, capacity: usize, ready: bool) -> (skip:
    bool)
    ensures
        skip == skips(Backend::Port, ready, before as nat, completions as nat, capacity as nat),
        skip == (completions != before || completions == capacity || ready),
{
    completions != before || completions == capacity || ready
}

/// How a port waits: a positive timeout arms the exact timer and waits without one of
/// its own; anything else is passed on.
pub fn port_timeout(timeout: Option<Span>) -> (plan: (Option<Span>, Option<Span>))
    ensures
        plan == (if timeout matches Some(delay) && delay.total_nanos() != 0 {
            (timeout, None)
        } else {
            (None, timeout)
        }),
{
    match timeout {
        Some(delay) => if delay.is_zero() {
            (None, timeout)
        } else {
            (timeout, None)
        },
        None => (None, None),
    }
}

/// Account for one port wait that returned packets with these keys. The private packet
/// of the deadline timer is no native work; a wait that returned nothing saw none either.
pub fn port_wait_info(keys: &Vec<usize>, timer: usize) -> (info: PollInfo)
    ensures
        info.waits == 1,
        info.discovery_polls == 0,
        info.zero_event_waits == (if forall|k: int|
            0 <= k < keys@.len() ==> keys@[k] == timer {
            1u32
        } else {
            0u32
        }),
{
    let mut only_timer = true;
    let mut i: usize = 0;
    while i < keys.len()
        invariant
            i <= keys@.len(),
            only_timer == (forall|k: int| 0 <= k < i ==> keys@[k] == timer),
        decreases keys@.len() - i,
    {
        if keys[i] != timer {
            only_timer = false;
        }
        i = i + 1;
    }
    PollInfo::waited(only_timer)
}

/// Completion keys with a meaning of their own; every other key names native work.
#[derive(Clone, Copy, Debug, PartialEq, Eq, Structural)]
pub struct Keys {
    pub wake: usize,
    pub timer: usize,
    pub bridge: usize,
    pub worker: usize,
}

/// What a port packet is about.
#[derive(Clone, Copy, Debug, PartialEq, Eq, Structural)]
pub enum Route {
    /// A notification carries nothing.
    Wake,
    /// The deadline timer's packet was dequeued.
    Timer,
    /// A worker thread finished a transfer.
    Worker,
    /// The waited event of a routed handle fired.
    Bridge,
    /// An overlapped transfer ended.
    Native,
}

/// What a packet with this key is about.
pub open spec fn route_of(key: usize, keys: Keys) -> Route {
    if key == keys.wake {
        Route::Wake
    } else if key == keys.timer {
        Route::Timer
    } else if key == keys.worker {
        Route::Worker
    } else if key == keys.bridge {
        Route::Bridge
    } else {
        Route::Native
    }
}

/// Tell packets apart by their key.
pub fn route(key: usize, keys: Keys) -> (to: Route)
    ensures
        to == route_of(key, keys),
{
    if key == keys.wake {
        Route::Wake
    } else if key == keys.timer {
        Route::Timer
    } else if key == keys.worker {
        Route::Worker
    } else if key == keys.bridge {
        Route::Bridge
    } else {
        Route::Native
    }
}

/// When a turn may block.
#[derive(Clone, Copy, Debug, PartialEq, Eq, Structural)]
pub enum Timeout {
    Now,
    Forever,
    /// Until a monotonic time in nanoseconds.
    Until(u64),
}

/// A backend whose wait belongs to the host, or that may not block at all, takes
/// turns that do not wait.
pub fn validate_timeout(external: bool, timeout: Timeout) -> (valid: Result<(), Error>)
    ensures
        valid == (if external && timeout != Timeout::Now {
            Err(Error::plain(ErrorKind::InvalidInput))
        } else {
            Ok(())
        }),
{
    if external && timeout != Timeout::Now {
        return Err(invalid());
    }
    Ok(())
}

/// A packet is about what its key says: where all keys with a meaning are apart, each names one
/// thing and any other key names native work.
pub proof fn law_packets_go_where_they_belong(keys: Keys, key: usize)
    requires
        keys.wake != keys.timer,
        keys.wake != keys.worker,
        keys.wake != keys.bridge,
        keys.timer != keys.worker,
        keys.timer != keys.bridge,
        keys.worker != keys.bridge,
    ensures
        route_of(key, keys) is Wake <==> key == keys.wake,
        route_of(key, keys) is Timer <==> key == keys.timer,
        route_of(key, keys) is Worker <==> key == keys.worker,
        route_of(key, keys) is Bridge <==> key == keys.bridge,
        route_of(key, keys) is Native <==> key != keys.wake && key != keys.timer && key
            != keys.worker && key != keys.bridge,
{
}

} // verus!
