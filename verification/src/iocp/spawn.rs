//! The calls that start a process, in their order.
use crate::iocp::process::{
    creation_flags, extra_pipe, flags_of, jobs, stdio_pipe, validate, Direction, Spec,
};
use crate::types::{invalid, ChildFd, ChildFdSource, Error, ErrorKind, Handle, ProcessStdio};
use vstd::prelude::*;

verus! {

/// One call.
#[derive(Clone, Copy, Debug, PartialEq, Eq, Structural)]
pub enum Step {
    /// Find the program.
    Resolve,
    /// Inherit a standard stream of the host.
    Inherit(usize),
    /// The null device as a standard stream, for reading or for writing.
    Null { stream: usize, read: bool },
    /// A duplicate of an open transport as a standard stream.
    Share { shared: usize, source: Handle },
    /// A pipe as a standard stream.
    Pipe { piped: usize, direction: Direction },
    /// The null device as an extra descriptor.
    ExtraNull(usize),
    /// A duplicate of an open transport as an extra descriptor.
    ExtraShare { extra: usize, from: Handle },
    /// A pipe as an extra descriptor.
    ExtraPipe { end: usize, way: Direction },
    /// List the handles that are inherited.
    Attributes,
    /// Write the descriptor table.
    Table,
    CommandLine,
    Environment,
    Directory,
    /// Make a job for the process and its descendants.
    OwnJob,
    /// Make, once, the job that ends with the host.
    LifetimeJob,
    /// Create the process, suspended.
    Create(u32),
    JoinLifetime,
    JoinOwn,
    WatchExit,
}

/// How a standard stream is made.
pub open spec fn stream_step(i: int, stdio: ProcessStdio) -> Step {
    match stdio {
        ProcessStdio::Inherit => Step::Inherit(i as usize),
        ProcessStdio::Null => Step::Null { stream: i as usize, read: i == 0 },
        ProcessStdio::Handle(source) => Step::Share { shared: i as usize, source },
        ProcessStdio::Pipe => Step::Pipe {
            piped: i as usize,
            direction: if i == 0 {
                Direction::ParentWrites
            } else {
                Direction::ParentReads
            },
        },
    }
}

/// How an extra descriptor is made.
pub open spec fn extra_step(k: int, source: ChildFdSource) -> Step {
    match source {
        ChildFdSource::Null => Step::ExtraNull(k as usize),
        ChildFdSource::Handle(from) => Step::ExtraShare { extra: k as usize, from },
        ChildFdSource::Pipe => Step::ExtraPipe { end: k as usize, way: Direction::ParentReads },
        ChildFdSource::Duplex => Step::ExtraPipe { end: k as usize, way: Direction::Duplex },
    }
}

/// The number of descriptor `k` is a standard one, or that of an earlier one.
pub open spec fn is_taken(extra: Seq<ChildFd>, k: int) -> bool {
    extra[k].number < 3 || exists|j: int|
        0 <= j < k && (#[trigger] extra[j]).number == extra[k].number
}

/// The first descriptor whose number is taken, or `n`.
pub open spec fn first_taken(extra: Seq<ChildFd>, n: int) -> int
    decreases n,
{
    if n <= 0 {
        0
    } else {
        let before = first_taken(extra, n - 1);
        if before < n - 1 || is_taken(extra, n - 1) {
            if before < n - 1 {
                before
            } else {
                n - 1
            }
        } else {
            n
        }
    }
}

/// The first `n` extra descriptors are made.
pub open spec fn extras(extra: Seq<ChildFd>, n: int) -> Seq<Step> {
    Seq::new(n as nat, |k: int| extra_step(k, extra[k].source))
}

/// What comes before the extra descriptors.
pub open spec fn opening(process: Spec) -> Seq<Step> {
    seq![
        Step::Resolve,
        stream_step(0, process.stdin),
        stream_step(1, process.stdout),
        stream_step(2, process.stderr),
    ]
}

/// What comes behind the extra descriptors.
pub open spec fn closing(process: Spec) -> Seq<Step> {
    seq![
        Step::Attributes,
        Step::Table,
        Step::CommandLine,
        Step::Environment,
        Step::Directory,
    ] + (if process.new_process_group || process.detached {
        seq![Step::OwnJob]
    } else {
        Seq::empty()
    }) + (if !process.detached {
        seq![Step::LifetimeJob]
    } else {
        Seq::empty()
    }) + seq![Step::Create(flags_of(process))] + (if !process.detached {
        seq![Step::JoinLifetime]
    } else {
        Seq::empty()
    }) + (if process.new_process_group || process.detached {
        seq![Step::JoinOwn]
    } else {
        Seq::empty()
    }) + seq![Step::WatchExit]
}

/// The calls that start a process, and the error that follows them where it is refused.
pub open spec fn planned(process: Spec, extra: Seq<ChildFd>) -> (Seq<Step>, Option<Error>) {
    let n = extra.len() as int;
    let bad = first_taken(extra, n);
    if process.uid || process.gid || process.empty_program || process.controlling_terminal {
        (Seq::empty(), Some(Error::plain(ErrorKind::Unsupported)))
    } else if bad < n {
        (
            opening(process) + extras(extra, bad + 1),
            Some(Error::plain(ErrorKind::InvalidInput)),
        )
    } else {
        (opening(process) + extras(extra, n) + closing(process), None)
    }
}

/// Calls in order, and the error that follows them.
#[derive(Debug)]
pub struct Plan {
    pub steps: Vec<Step>,
    pub error: Option<Error>,
}

fn make_stream(i: usize, stdio: ProcessStdio) -> (step: Step)
    ensures
        step == stream_step(i as int, stdio),
{
    match stdio {
        ProcessStdio::Inherit => Step::Inherit(i),
        ProcessStdio::Null => Step::Null { stream: i, read: i == 0 },
        ProcessStdio::Handle(source) => Step::Share { shared: i, source },
        ProcessStdio::Pipe => Step::Pipe { piped: i, direction: stdio_pipe(i) },
    }
}

fn make_extra(k: usize, source: ChildFdSource) -> (step: Step)
    ensures
        step == extra_step(k as int, source),
{
    match source {
        ChildFdSource::Null => Step::ExtraNull(k),
        ChildFdSource::Handle(from) => Step::ExtraShare { extra: k, from },
        _ => match extra_pipe(source) {
            Some(way) => Step::ExtraPipe { end: k, way },
            None => Step::ExtraNull(k),
        },
    }
}

fn taken(extra: &Vec<ChildFd>, k: usize) -> (yes: bool)
    requires
        k < extra@.len(),
    ensures
        yes == is_taken(extra@, k as int),
{
    if extra[k].number < 3 {
        return true;
    }
    let mut j: usize = 0;
    while j < k
        invariant
            j <= k < extra@.len(),
            forall|i: int| 0 <= i < j ==> (#[trigger] extra@[i]).number != extra@[k as int].number,
        decreases k - j,
    {
        if extra[j].number == extra[k].number {
            assert(extra@[j as int].number == extra@[k as int].number);
            return true;
        }
        j = j + 1;
    }
    false
}

fn add_closing(steps: &mut Vec<Step>, process: &Spec)
    ensures
        final(steps)@ == old(steps)@ + closing(*process),
{
    let ghost before = steps@;
    let (own, lifetime) = jobs(process);
    steps.push(Step::Attributes);
    steps.push(Step::Table);
    steps.push(Step::CommandLine);
    steps.push(Step::Environment);
    steps.push(Step::Directory);
    if own {
        steps.push(Step::OwnJob);
    }
    if lifetime {
        steps.push(Step::LifetimeJob);
    }
    steps.push(Step::Create(creation_flags(process)));
    if lifetime {
        steps.push(Step::JoinLifetime);
    }
    if own {
        steps.push(Step::JoinOwn);
    }
    steps.push(Step::WatchExit);
    assert(steps@ =~= before + closing(*process));
}

/// The calls that start a process.
pub fn plan(process: &Spec, extra: &Vec<ChildFd>) -> (plan: Plan)
    ensures
        (plan.steps@, plan.error) == planned(*process, extra@),
{
    let mut steps: Vec<Step> = Vec::new();
    if let Err(e) = validate(process) {
        assert(steps@ =~= Seq::empty());
        return Plan { steps, error: Some(e) };
    }
    steps.push(Step::Resolve);
    steps.push(make_stream(0, process.stdin));
    steps.push(make_stream(1, process.stdout));
    steps.push(make_stream(2, process.stderr));
    assert(steps@ =~= opening(*process));
    let n: usize = extra.len();
    let mut k: usize = 0;
    assert(opening(*process) + extras(extra@, 0) =~= opening(*process));
    while k < n
        invariant
            k <= n,
            n == extra@.len(),
            !(process.uid || process.gid || process.empty_program || process.controlling_terminal),
            first_taken(extra@, k as int) == k,
            steps@ == opening(*process) + extras(extra@, k as int),
        decreases n - k,
    {
        steps.push(make_extra(k, extra[k].source));
        assert(steps@ =~= opening(*process) + extras(extra@, k + 1));
        if taken(extra, k) {
            proof {
                assert(first_taken(extra@, k + 1) == k);
                lemma_first_taken(extra@, k + 1, n as int);
            }
            return Plan { steps, error: Some(invalid()) };
        }
        k = k + 1;
    }
    add_closing(&mut steps, process);
    Plan { steps, error: None }
}

/// Once a taken number was found, it stays the first.
proof fn lemma_first_taken(extra: Seq<ChildFd>, k: int, n: int)
    requires
        0 < k <= n,
        first_taken(extra, k) < k,
    ensures
        first_taken(extra, n) == first_taken(extra, k),
    decreases n,
{
    if n > k {
        lemma_first_taken(extra, k, n - 1);
    }
}

/// A process is created before anything is done to it, and everything that has to hold
/// before it runs is done while it is suspended: the plan ends with its exit watch.
pub proof fn law_exit_watch_is_last(process: Spec, extra: Seq<ChildFd>)
    requires
        planned(process, extra).1 is None,
    ensures
        planned(process, extra).0.len() > 0,
        planned(process, extra).0.last() == Step::WatchExit,
        planned(process, extra).0.contains(Step::Create(flags_of(process))),
{
    let steps = planned(process, extra).0;
    let first = opening(process) + extras(extra, extra.len() as int);
    let at = first.len() + 5 + (if process.new_process_group || process.detached {
        1int
    } else {
        0
    }) + (if !process.detached {
        1int
    } else {
        0
    });
    assert(steps[at] == Step::Create(flags_of(process)));
}

/// Which standard stream of a process is which.
pub open spec fn stream_of(process: Spec, i: int) -> ProcessStdio {
    if i == 0 {
        process.stdin
    } else if i == 1 {
        process.stdout
    } else {
        process.stderr
    }
}

/// Where the calls of a plan stand: the streams, the extra descriptors, then the rest.
proof fn lemma_places(process: Spec, extra: Seq<ChildFd>)
    requires
        planned(process, extra).1 is None,
    ensures
        ({
            let steps = planned(process, extra).0;
            let n = extra.len() as int;
            &&& steps == opening(process) + extras(extra, n) + closing(process)
            &&& steps.len() == 4 + n + closing(process).len()
            &&& steps[0] == Step::Resolve
            &&& forall|i: int|
                0 <= i < 3 ==> #[trigger] steps[1 + i] == stream_step(i, stream_of(process, i))
            &&& forall|k: int|
                0 <= k < n ==> #[trigger] steps[4 + k] == extra_step(k, extra[k].source)
            &&& forall|k: int|
                0 <= k < closing(process).len() ==> #[trigger] steps[4 + n + k] == closing(
                    process,
                )[k]
        }),
{
    let steps = planned(process, extra).0;
    assert forall|i: int| 0 <= i < 3 implies #[trigger] steps[1 + i] == stream_step(
        i,
        stream_of(process, i),
    ) by {
        if i == 0 {
        } else if i == 1 {
        } else {
            assert(i == 2);
        }
    }
}

/// What comes behind the extra descriptors, call by call.
proof fn lemma_closing(process: Spec, step: Step)
    ensures
        closing(process).contains(step) <==> match step {
            Step::Attributes
            | Step::Table
            | Step::CommandLine
            | Step::Environment
            | Step::Directory
            | Step::WatchExit => true,
            Step::OwnJob | Step::JoinOwn => process.new_process_group || process.detached,
            Step::LifetimeJob | Step::JoinLifetime => !process.detached,
            Step::Create(flags) => flags == flags_of(process),
            _ => false,
        },
{
    let last = closing(process);
    let own = process.new_process_group || process.detached;
    assert(last.contains(last[0]) && last.contains(last[1]) && last.contains(last[2])
        && last.contains(last[3]) && last.contains(last[4]) && last.contains(last[5])
        && last.contains(last[6]) && last.contains(last[7]) && last.contains(last[8]));
    if own && !process.detached {
        assert(last.contains(last[9]) && last.contains(last[10]));
    }
}

/// Every stream and every extra descriptor of a new process is made once from its own source, in
/// the direction it is used in, and everything else that starts it is done as it was asked for.
pub proof fn law_plan_binds_every_stream_to_its_own_end(
    process: Spec,
    extra: Seq<ChildFd>,
    step: Step,
)
    requires
        planned(process, extra).1 is None,
        extra.len() <= usize::MAX,
    ensures
        planned(process, extra).0.contains(step) <==> match step {
            Step::Inherit(i) => i < 3 && stream_of(process, i as int) is Inherit,
            Step::Null { stream, read } => stream < 3 && stream_of(process, stream as int) is Null
                && (read <==> stream == 0),
            Step::Share { shared, source } => shared < 3 && stream_of(process, shared as int)
                == ProcessStdio::Handle(source),
            Step::Pipe { piped, direction } => piped < 3 && stream_of(process, piped as int)
                is Pipe && direction == (if piped == 0 {
                Direction::ParentWrites
            } else {
                Direction::ParentReads
            }),
            Step::ExtraNull(k) => k < extra.len() && extra[k as int].source is Null,
            Step::ExtraShare { extra: k, from } => k < extra.len() && extra[k as int].source
                == ChildFdSource::Handle(from),
            Step::ExtraPipe { end, way } => {
                &&& end < extra.len()
                &&& way == Direction::ParentReads && extra[end as int].source is Pipe || way
                    == Direction::Duplex && extra[end as int].source is Duplex
            },
            Step::OwnJob | Step::JoinOwn => process.new_process_group || process.detached,
            Step::LifetimeJob | Step::JoinLifetime => !process.detached,
            Step::Create(flags) => flags == flags_of(process),
            _ => true,
        },
{
    let steps = planned(process, extra).0;
    let n = extra.len() as int;
    lemma_places(process, extra);
    lemma_closing(process, step);
    assert(steps.contains(steps[0]));
    assert forall|i: int| 0 <= i < 3 implies steps.contains(
        #[trigger] stream_step(i, stream_of(process, i)),
    ) by {
        assert(steps[1 + i] == stream_step(i, stream_of(process, i)));
    }
    assert forall|k: int| 0 <= k < n implies steps.contains(
        #[trigger] extra_step(k, extra[k].source),
    ) by {
        assert(steps[4 + k] == extra_step(k, extra[k].source));
    }
    if closing(process).contains(step) {
        let last = closing(process);
        let k = choose|k: int| 0 <= k < last.len() && last[k] == step;
        assert(steps[4 + n + k] == step);
    }
    if steps.contains(step) {
        let at = choose|at: int| 0 <= at < steps.len() && steps[at] == step;
        if 1 <= at < 4 {
            assert(steps[1 + (at - 1)] == stream_step(at - 1, stream_of(process, at - 1)));
        } else if 4 <= at < 4 + n {
            assert(steps[4 + (at - 4)] == extra_step(at - 4, extra[at - 4].source));
        } else if at >= 4 + n {
            assert(steps[4 + n + (at - 4 - n)] == closing(process)[at - 4 - n]);
            assert(closing(process).contains(step));
        }
    }
    match step {
        Step::Inherit(i) => {
            assert(i < 3 ==> steps.contains(stream_step(i as int, stream_of(process, i as int))));
        },
        Step::Null { stream: i, .. } => {
            assert(i < 3 ==> steps.contains(stream_step(i as int, stream_of(process, i as int))));
        },
        Step::Share { shared: i, .. } => {
            assert(i < 3 ==> steps.contains(stream_step(i as int, stream_of(process, i as int))));
        },
        Step::Pipe { piped: i, .. } => {
            assert(i < 3 ==> steps.contains(stream_step(i as int, stream_of(process, i as int))));
        },
        Step::ExtraNull(k) => {
            assert(k < n ==> steps.contains(extra_step(k as int, extra[k as int].source)));
        },
        Step::ExtraShare { extra: k, .. } => {
            assert(k < n ==> steps.contains(extra_step(k as int, extra[k as int].source)));
        },
        Step::ExtraPipe { end: k, .. } => {
            assert(k < n ==> steps.contains(extra_step(k as int, extra[k as int].source)));
        },
        _ => {},
    }
}

/// How far a call is on the way to a process that runs: its program is found, its descriptors are
/// made, they are listed, its jobs are made, it is created, it joins its jobs, it is watched.
pub open spec fn rank(step: Step) -> int {
    match step {
        Step::Resolve => 0,
        Step::Inherit(_) | Step::Null { .. } | Step::Share { .. } | Step::Pipe { .. } => 1,
        Step::ExtraNull(_) | Step::ExtraShare { .. } | Step::ExtraPipe { .. } => 2,
        Step::Attributes | Step::Table | Step::CommandLine | Step::Environment
        | Step::Directory => 3,
        Step::OwnJob | Step::LifetimeJob => 4,
        Step::Create(_) => 5,
        Step::JoinLifetime | Step::JoinOwn => 6,
        Step::WatchExit => 7,
    }
}

/// Everything a process needs is there before it is created, and what is done to it comes behind.
pub proof fn law_process_is_created_in_the_middle(process: Spec, extra: Seq<ChildFd>, i: int, j: int)
    requires
        planned(process, extra).1 is None,
        0 <= i < j < planned(process, extra).0.len(),
    ensures
        rank(planned(process, extra).0[i]) <= rank(planned(process, extra).0[j]),
{
    let steps = planned(process, extra).0;
    let n = extra.len() as int;
    lemma_places(process, extra);
    if 1 <= i < 4 {
        assert(steps[1 + (i - 1)] == stream_step(i - 1, stream_of(process, i - 1)));
    } else if 4 <= i < 4 + n {
        assert(steps[4 + (i - 4)] == extra_step(i - 4, extra[i - 4].source));
    } else if i >= 4 + n {
        assert(steps[4 + n + (i - 4 - n)] == closing(process)[i - 4 - n]);
    }
    if 1 <= j < 4 {
        assert(steps[1 + (j - 1)] == stream_step(j - 1, stream_of(process, j - 1)));
    } else if 4 <= j < 4 + n {
        assert(steps[4 + (j - 4)] == extra_step(j - 4, extra[j - 4].source));
    } else if j >= 4 + n {
        assert(steps[4 + n + (j - 4 - n)] == closing(process)[j - 4 - n]);
    }
}

/// The first taken number is taken, and none before it is.
proof fn lemma_first(extra: Seq<ChildFd>, n: int)
    requires
        0 <= n <= extra.len(),
    ensures
        0 <= first_taken(extra, n) <= n,
        first_taken(extra, n) < n ==> is_taken(extra, first_taken(extra, n)),
        forall|k: int| 0 <= k < first_taken(extra, n) ==> !#[trigger] is_taken(extra, k),
    decreases n,
{
    if n > 0 {
        lemma_first(extra, n - 1);
    }
}

/// A process is refused for what this system cannot give it before any call is made, and for an
/// extra descriptor whose number is a standard one or used twice; for nothing else.
pub proof fn law_processes_are_refused(process: Spec, extra: Seq<ChildFd>)
    ensures
        ({
            let (steps, error) = planned(process, extra);
            let foreign = process.uid || process.gid || process.empty_program
                || process.controlling_terminal;
            let apart = (forall|k: int|
                0 <= k < extra.len() ==> (#[trigger] extra[k]).number >= 3) && (forall|
                j: int,
                k: int,
            |
                0 <= j < k < extra.len() ==> (#[trigger] extra[j]).number != (
                #[trigger] extra[k]).number);
            &&& foreign ==> steps.len() == 0 && error == Some(
                Error::plain(ErrorKind::Unsupported),
            )
            &&& !foreign && apart ==> error is None
            &&& !foreign && !apart ==> error == Some(Error::plain(ErrorKind::InvalidInput))
                && !steps.contains(Step::Create(flags_of(process)))
        }),
{
    let n = extra.len() as int;
    lemma_first(extra, n);
    let bad = first_taken(extra, n);
    let (steps, error) = planned(process, extra);
    let foreign = process.uid || process.gid || process.empty_program
        || process.controlling_terminal;
    if bad >= n {
        assert forall|k: int| 0 <= k < n implies (#[trigger] extra[k]).number >= 3 by {
            assert(!is_taken(extra, k));
        }
        assert forall|j: int, k: int| 0 <= j < k < n implies (#[trigger] extra[j]).number != (
        #[trigger] extra[k]).number by {
            assert(!is_taken(extra, k));
        }
    } else if !foreign {
        assert(is_taken(extra, bad));
        let create = Step::Create(flags_of(process));
        if steps.contains(create) {
            let at = choose|at: int| 0 <= at < steps.len() && steps[at] == create;
            if at < 4 {
                assert(steps[at] == opening(process)[at]);
            } else {
                assert(steps[at] == extra_step(at - 4, extra[at - 4].source));
            }
        }
    }
}

} // verus!
