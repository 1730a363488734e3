//! The calls that start a child and adopt what its parent keeps, in their order.
use crate::types::{
    invalid, ChildFd, ChildFdSource, Error, ErrorKind, Handle, ProcessStdio,
};
use crate::unix::process::{checked_floor, given_back, highest, lemma_highest, make, rollback, Make};
use crate::unix::services::ChildState;
use vstd::prelude::*;

verus! {

/// One call.
#[derive(Clone, Copy, Debug, PartialEq, Eq, Structural)]
pub enum Step {
    /// Duplicate an open transport as a standard stream.
    Share { stream: usize, source: Handle },
    /// Make the child end of an extra descriptor.
    Make { extra: usize, from: Make },
    /// Move it to the floor or above.
    Lift { lifted: usize, floor: i32 },
    /// Hold the free numbers that the child will use.
    Reserve,
    /// Have the child run its hooks.
    Hook,
    Start,
    /// Register the child; whether it leads a group.
    Watch { group: bool },
    /// Classify and install the parent's end of a standard stream.
    AdoptStream { pipe: usize, under: Handle },
    /// Install the parent's end of an extra descriptor: a local connection as it is, a pipe
    /// classified.
    AdoptExtra { end: usize, handle: Handle, connection: bool },
}

/// What the calls depend on.
#[derive(Clone, Copy, Debug, PartialEq, Eq, Structural)]
pub struct Spec {
    pub detached: bool,
    pub new_process_group: bool,
    pub controlling_terminal: bool,
    pub stdin: ProcessStdio,
    pub stdout: ProcessStdio,
    pub stderr: ProcessStdio,
}

/// The stream with this number.
pub open spec fn stream(process: Spec, i: int) -> ProcessStdio {
    if i == 0 {
        process.stdin
    } else if i == 1 {
        process.stdout
    } else {
        process.stderr
    }
}

/// The first `n` standard streams that are duplicates.
pub open spec fn shares(process: Spec, n: int) -> Seq<Step>
    decreases n,
{
    if n <= 0 {
        Seq::empty()
    } else {
        match stream(process, n - 1) {
            ProcessStdio::Handle(source) => shares(process, n - 1).push(
                Step::Share { stream: (n - 1) as usize, source },
            ),
            _ => shares(process, n - 1),
        }
    }
}

/// What an extra descriptor is made from.
pub open spec fn made_from(source: ChildFdSource) -> Make {
    match source {
        ChildFdSource::Null => Make::Null,
        ChildFdSource::Pipe => Make::OneWay,
        ChildFdSource::Duplex => Make::Pair,
        ChildFdSource::Handle(h) => Make::Duplicate(h),
    }
}

/// The first `n` extra descriptors are made and lifted.
pub open spec fn makes(extra: Seq<ChildFd>, floor: i32, n: int) -> Seq<Step>
    decreases n,
{
    if n <= 0 {
        Seq::empty()
    } else {
        makes(extra, floor, n - 1) + seq![
            Step::Make { extra: (n - 1) as usize, from: made_from(extra[n - 1].source) },
            Step::Lift { lifted: (n - 1) as usize, floor },
        ]
    }
}

/// The parent's ends of the first `n` standard streams.
pub open spec fn stream_ends(process: Spec, pipes: Seq<Option<Handle>>, n: int) -> Seq<Step>
    decreases n,
{
    if n <= 0 {
        Seq::empty()
    } else {
        let before = stream_ends(process, pipes, n - 1);
        match (pipes[n - 1], stream(process, n - 1)) {
            (Some(under), ProcessStdio::Pipe) => before.push(
                Step::AdoptStream { pipe: (n - 1) as usize, under },
            ),
            _ => before,
        }
    }
}

/// The parent's ends of the first `n` extra descriptors.
pub open spec fn extra_ends(extra: Seq<ChildFd>, handles: Seq<Option<Handle>>, n: int) -> Seq<Step>
    decreases n,
{
    if n <= 0 {
        Seq::empty()
    } else {
        let before = extra_ends(extra, handles, n - 1);
        match (handles[n - 1], extra[n - 1].source) {
            (Some(handle), ChildFdSource::Pipe) => before.push(
                Step::AdoptExtra { end: (n - 1) as usize, handle, connection: false },
            ),
            (Some(handle), ChildFdSource::Duplex) => before.push(
                Step::AdoptExtra { end: (n - 1) as usize, handle, connection: true },
            ),
            _ => before,
        }
    }
}

/// The shorter of two lists.
pub open spec fn shorter(a: int, b: int) -> int {
    if a < b {
        a
    } else {
        b
    }
}

/// What starts a child, once its extra descriptors are in place.
pub open spec fn launch(process: Spec, extra: Seq<ChildFd>) -> Seq<Step> {
    (if extra.len() > 0 {
        seq![Step::Reserve]
    } else {
        Seq::empty()
    }) + (if process.detached || process.controlling_terminal || extra.len() > 0 {
        seq![Step::Hook]
    } else {
        Seq::empty()
    }) + seq![Step::Start, Step::Watch { group: process.new_process_group || process.detached }]
}

/// The calls that start and adopt a child, and the error that follows them where it is
/// refused.
pub open spec fn planned(
    process: Spec,
    extra: Seq<ChildFd>,
    pipes: Seq<Option<Handle>>,
    handles: Seq<Option<Handle>>,
) -> (Seq<Step>, Option<Error>) {
    if process.controlling_terminal && !process.detached {
        (Seq::empty(), Some(Error::plain(ErrorKind::InvalidInput)))
    } else if highest(extra) >= i32::MAX {
        (shares(process, 3), Some(Error::plain(ErrorKind::InvalidInput)))
    } else {
        (
            shares(process, 3) + makes(
                extra,
                (highest(extra) + 1) as i32,
                extra.len() as int,
            ) + launch(process, extra) + stream_ends(process, pipes, 3) + extra_ends(
                extra,
                handles,
                shorter(extra.len() as int, handles.len() as int),
            ),
            None,
        )
    }
}

/// Calls in order, and the error that follows them.
#[derive(Debug)]
pub struct Plan {
    pub steps: Vec<Step>,
    pub error: Option<Error>,
}

fn nth(process: &Spec, i: usize) -> (stdio: ProcessStdio)
    ensures
        stdio == stream(*process, i as int),
{
    if i == 0 {
        process.stdin
    } else if i == 1 {
        process.stdout
    } else {
        process.stderr
    }
}

fn add_shares(steps: &mut Vec<Step>, process: &Spec)
    ensures
        final(steps)@ == old(steps)@ + shares(*process, 3),
{
    let ghost before = steps@;
    let mut i: usize = 0;
    assert(before + shares(*process, 0) =~= before);
    while i < 3
        invariant
            i <= 3,
            before == old(steps)@,
            steps@ == before + shares(*process, i as int),
        decreases 3 - i,
    {
        if let ProcessStdio::Handle(source) = nth(process, i) {
            steps.push(Step::Share { stream: i, source });
        }
        assert(steps@ =~= before + shares(*process, i + 1));
        i = i + 1;
    }
}

fn add_makes(steps: &mut Vec<Step>, extra: &Vec<ChildFd>, floor: i32)
    ensures
        final(steps)@ == old(steps)@ + makes(extra@, floor, extra@.len() as int),
{
    let ghost before = steps@;
    let mut k: usize = 0;
    assert(before + makes(extra@, floor, 0) =~= before);
    while k < extra.len()
        invariant
            k <= extra@.len(),
            before == old(steps)@,
            steps@ == before + makes(extra@, floor, k as int),
        decreases extra@.len() - k,
    {
        let (from, _) = make(extra[k].source);
        steps.push(Step::Make { extra: k, from });
        steps.push(Step::Lift { lifted: k, floor });
        assert(steps@ =~= before + makes(extra@, floor, k + 1));
        k = k + 1;
    }
}

fn add_launch(steps: &mut Vec<Step>, process: &Spec, extra: &Vec<ChildFd>)
    ensures
        final(steps)@ == old(steps)@ + launch(*process, extra@),
{
    let ghost before = steps@;
    let some: bool = extra.len() > 0;
    if some {
        steps.push(Step::Reserve);
    }
    if process.detached || process.controlling_terminal || some {
        steps.push(Step::Hook);
    }
    steps.push(Step::Start);
    steps.push(Step::Watch { group: process.new_process_group || process.detached });
    assert(steps@ =~= before + launch(*process, extra@));
}

fn add_stream_ends(steps: &mut Vec<Step>, process: &Spec, pipes: &Vec<Option<Handle>>)
    requires
        pipes@.len() == 3,
    ensures
        final(steps)@ == old(steps)@ + stream_ends(*process, pipes@, 3),
{
    let ghost before = steps@;
    let mut i: usize = 0;
    assert(before + stream_ends(*process, pipes@, 0) =~= before);
    while i < 3
        invariant
            i <= 3,
            pipes@.len() == 3,
            before == old(steps)@,
            steps@ == before + stream_ends(*process, pipes@, i as int),
        decreases 3 - i,
    {
        if let (Some(under), ProcessStdio::Pipe) = (pipes[i], nth(process, i)) {
            steps.push(Step::AdoptStream { pipe: i, under });
        }
        assert(steps@ =~= before + stream_ends(*process, pipes@, i + 1));
        i = i + 1;
    }
}

fn add_extra_ends(steps: &mut Vec<Step>, extra: &Vec<ChildFd>, handles: &Vec<Option<Handle>>)
    ensures
        final(steps)@ == old(steps)@ + extra_ends(
            extra@,
            handles@,
            shorter(extra@.len() as int, handles@.len() as int),
        ),
{
    let ghost before = steps@;
    let mut k: usize = 0;
    assert(before + extra_ends(extra@, handles@, 0) =~= before);
    while k < extra.len() && k < handles.len()
        invariant
            k <= extra@.len(),
            k <= handles@.len(),
            before == old(steps)@,
            steps@ == before + extra_ends(extra@, handles@, k as int),
        decreases extra@.len() - k,
    {
        if let (Some(handle), (_, Some(connection))) = (handles[k], make(extra[k].source)) {
            steps.push(Step::AdoptExtra { end: k, handle, connection });
        }
        assert(steps@ =~= before + extra_ends(extra@, handles@, k + 1));
        k = k + 1;
    }
}

/// The calls that start a child and adopt what its parent keeps. `pipes` are the handles for
/// the standard streams, `handles` those for the extra descriptors.
pub fn plan(
    process: &Spec,
    extra: &Vec<ChildFd>,
    pipes: &Vec<Option<Handle>>,
    handles: &Vec<Option<Handle>>,
) -> (plan: Plan)
    requires
        pipes@.len() == 3,
    ensures
        (plan.steps@, plan.error) == planned(*process, extra@, pipes@, handles@),
{
    let mut steps: Vec<Step> = Vec::new();
    if process.controlling_terminal && !process.detached {
        assert(steps@ =~= Seq::empty());
        return Plan { steps, error: Some(invalid()) };
    }
    add_shares(&mut steps, process);
    assert(steps@ =~= shares(*process, 3));
    let floor = match checked_floor(extra) {
        Ok(floor) => floor,
        Err(e) => {
            return Plan { steps, error: Some(e) };
        },
    };
    add_makes(&mut steps, extra, floor);
    add_launch(&mut steps, process, extra);
    add_stream_ends(&mut steps, process, pipes);
    add_extra_ends(&mut steps, extra, handles);
    Plan { steps, error: None }
}

/// A child with extra descriptors starts only after the numbers it will use are held.
pub proof fn law_numbers_are_held_before_the_start(
    process: Spec,
    extra: Seq<ChildFd>,
    pipes: Seq<Option<Handle>>,
    handles: Seq<Option<Handle>>,
)
    requires
        planned(process, extra, pipes, handles).1 is None,
        extra.len() > 0,
    ensures
        exists|i: int, j: int|
            0 <= i < j < planned(process, extra, pipes, handles).0.len() && #[trigger] planned(
                process,
                extra,
                pipes,
                handles,
            ).0[i] == Step::Reserve && #[trigger] planned(process, extra, pipes, handles).0[j]
                == Step::Start,
{
    let steps = planned(process, extra, pipes, handles).0;
    let front = shares(process, 3) + makes(
        extra,
        (highest(extra) + 1) as i32,
        extra.len() as int,
    );
    let i = front.len() as int;
    assert(launch(process, extra)[0] == Step::Reserve);
    assert(launch(process, extra)[2] == Step::Start);
    assert(steps[i] == Step::Reserve);
    assert(steps[i + 2] == Step::Start);
}

proof fn lemma_stream_ends(process: Spec, pipes: Seq<Option<Handle>>, n: int, step: Step)
    requires
        pipes.len() == 3,
        0 <= n <= 3,
    ensures
        stream_ends(process, pipes, n).contains(step) <==> (step matches Step::AdoptStream {
            pipe,
            under,
        } && pipe < n && pipes[pipe as int] == Some(under) && (if pipe == 0 {
            process.stdin
        } else if pipe == 1 {
            process.stdout
        } else {
            process.stderr
        }) == ProcessStdio::Pipe),
        stream_ends(process, pipes, n).no_duplicates(),
        forall|k: int|
            0 <= k < stream_ends(process, pipes, n).len() ==> (#[trigger] stream_ends(
                process,
                pipes,
                n,
            )[k]) is AdoptStream && stream_ends(process, pipes, n)[k]->pipe < n,
    decreases n,
{
    if n > 0 {
        lemma_stream_ends(process, pipes, n - 1, step);
        let before = stream_ends(process, pipes, n - 1);
        let all = stream_ends(process, pipes, n);
        if all != before {
            let last = Step::AdoptStream { pipe: (n - 1) as usize, under: pipes[n - 1]->0 };
            assert(all == before.push(last));
            assert(all[before.len() as int] == last);
            if step != last && all.contains(step) {
                let k = choose|k: int| 0 <= k < all.len() && all[k] == step;
                assert(before[k] == step);
            }
            if before.contains(step) {
                let k = choose|k: int| 0 <= k < before.len() && before[k] == step;
                assert(all[k] == step);
            }
        }
    }
}

proof fn lemma_shares(process: Spec, n: int, step: Step)
    requires
        0 <= n <= 3,
    ensures
        shares(process, n).contains(step) <==> (step matches Step::Share { stream, source }
            && stream < n && (if stream == 0 {
            process.stdin
        } else if stream == 1 {
            process.stdout
        } else {
            process.stderr
        }) == ProcessStdio::Handle(source)),
    decreases n,
{
    if n > 0 {
        lemma_shares(process, n - 1, step);
        let before = shares(process, n - 1);
        let all = shares(process, n);
        if all != before {
            let last = all[before.len() as int];
            assert(all == before.push(last));
            if step != last && all.contains(step) {
                let k = choose|k: int| 0 <= k < all.len() && all[k] == step;
                assert(before[k] == step);
            }
            if before.contains(step) {
                let k = choose|k: int| 0 <= k < before.len() && before[k] == step;
                assert(all[k] == step);
            }
        }
    }
}

proof fn lemma_makes(extra: Seq<ChildFd>, floor: i32, n: int, step: Step)
    requires
        0 <= n <= extra.len() <= usize::MAX,
    ensures
        makes(extra, floor, n).contains(step) <==> match step {
            Step::Make { extra: k, from } => k < n && match extra[k as int].source {
                ChildFdSource::Null => from == Make::Null,
                ChildFdSource::Pipe => from == Make::OneWay,
                ChildFdSource::Duplex => from == Make::Pair,
                ChildFdSource::Handle(h) => from == Make::Duplicate(h),
            },
            Step::Lift { lifted, floor: to } => lifted < n && to == floor,
            _ => false,
        },
    decreases n,
{
    if n > 0 {
        lemma_makes(extra, floor, n - 1, step);
        let before = makes(extra, floor, n - 1);
        let all = makes(extra, floor, n);
        let m = before.len() as int;
        let a = all[m];
        let b = all[m + 1];
        assert(all =~= before.push(a).push(b));
        if all.contains(step) && step != a && step != b {
            let k = choose|k: int| 0 <= k < all.len() && all[k] == step;
            assert(before[k] == step);
        }
        if before.contains(step) {
            let k = choose|k: int| 0 <= k < before.len() && before[k] == step;
            assert(all[k] == step);
        }
    }
}

proof fn lemma_extra_ends(extra: Seq<ChildFd>, handles: Seq<Option<Handle>>, n: int, step: Step)
    requires
        0 <= n <= extra.len() <= usize::MAX,
        n <= handles.len(),
    ensures
        extra_ends(extra, handles, n).contains(step) <==> (step matches Step::AdoptExtra {
            end,
            handle,
            connection,
        } && end < n && handles[end as int] == Some(handle) && match extra[end as int].source {
            ChildFdSource::Pipe => !connection,
            ChildFdSource::Duplex => connection,
            _ => false,
        }),
    decreases n,
{
    if n > 0 {
        lemma_extra_ends(extra, handles, n - 1, step);
        let before = extra_ends(extra, handles, n - 1);
        let all = extra_ends(extra, handles, n);
        if all != before {
            let last = all[before.len() as int];
            assert(all == before.push(last));
            if step != last && all.contains(step) {
                let k = choose|k: int| 0 <= k < all.len() && all[k] == step;
                assert(before[k] == step);
            }
            if before.contains(step) {
                let k = choose|k: int| 0 <= k < before.len() && before[k] == step;
                assert(all[k] == step);
            }
        }
    }
}

proof fn lemma_in_sum(a: Seq<Step>, b: Seq<Step>, step: Step)
    ensures
        (a + b).contains(step) <==> a.contains(step) || b.contains(step),
{
    if a.contains(step) {
        let k = choose|k: int| 0 <= k < a.len() && a[k] == step;
        assert((a + b)[k] == step);
    }
    if b.contains(step) {
        let k = choose|k: int| 0 <= k < b.len() && b[k] == step;
        assert((a + b)[a.len() + k] == step);
    }
    if (a + b).contains(step) {
        let k = choose|k: int| 0 <= k < (a + b).len() && (a + b)[k] == step;
        if k < a.len() {
            assert(a[k] == step);
        } else {
            assert(b[k - a.len()] == step);
        }
    }
}

proof fn lemma_launch(process: Spec, extra: Seq<ChildFd>, step: Step)
    ensures
        launch(process, extra).contains(step) <==> match step {
            Step::Reserve => extra.len() > 0,
            Step::Hook => process.detached || process.controlling_terminal || extra.len() > 0,
            Step::Start => true,
            Step::Watch { group } => group == (process.new_process_group || process.detached),
            _ => false,
        },
{
    let some = extra.len() > 0;
    let hooked = process.detached || process.controlling_terminal || some;
    let a = if some {
        seq![Step::Reserve]
    } else {
        Seq::empty()
    };
    let b = if hooked {
        seq![Step::Hook]
    } else {
        Seq::empty()
    };
    let c = seq![
        Step::Start,
        Step::Watch { group: process.new_process_group || process.detached },
    ];
    lemma_in_sum(a, b, step);
    lemma_in_sum(a + b, c, step);
    assert(launch(process, extra) =~= a + b + c);
    assert(c[0] == Step::Start);
    assert(c[1] == Step::Watch { group: process.new_process_group || process.detached });
    if some {
        assert(a[0] == Step::Reserve);
    }
    if hooked {
        assert(b[0] == Step::Hook);
    }
}

/// A plan does what was asked for and nothing else. Standard input, output and error are 0, 1
/// and 2: one that shares a transport is made from that transport, and one that is piped leaves
/// its own end with the parent, under the handle that was given for it. Every extra descriptor
/// is made from what was asked for; a pipe and a connection leave their own end under the handle
/// that was given for it. The child is started and watched, for its group where it has one.
pub proof fn law_plan_binds_every_stream_to_its_own_end(
    process: Spec,
    extra: Seq<ChildFd>,
    pipes: Seq<Option<Handle>>,
    handles: Seq<Option<Handle>>,
    step: Step,
)
    requires
        pipes.len() == 3,
        extra.len() <= usize::MAX,
        planned(process, extra, pipes, handles).1 is None,
    ensures
        planned(process, extra, pipes, handles).0.contains(step) <==> match step {
            Step::Share { stream, source } => {
                ||| stream == 0 && process.stdin == ProcessStdio::Handle(source)
                ||| stream == 1 && process.stdout == ProcessStdio::Handle(source)
                ||| stream == 2 && process.stderr == ProcessStdio::Handle(source)
            },
            Step::AdoptStream { pipe, under } => {
                ||| pipe == 0 && pipes[0] == Some(under) && process.stdin == ProcessStdio::Pipe
                ||| pipe == 1 && pipes[1] == Some(under) && process.stdout == ProcessStdio::Pipe
                ||| pipe == 2 && pipes[2] == Some(under) && process.stderr == ProcessStdio::Pipe
            },
            Step::Make { extra: k, from } => k < extra.len() && match extra[k as int].source {
                ChildFdSource::Null => from == Make::Null,
                ChildFdSource::Pipe => from == Make::OneWay,
                ChildFdSource::Duplex => from == Make::Pair,
                ChildFdSource::Handle(h) => from == Make::Duplicate(h),
            },
            Step::Lift { lifted, floor } => lifted < extra.len() && floor == highest(extra) + 1,
            Step::AdoptExtra { end, handle, connection } => {
                &&& end < extra.len()
                &&& end < handles.len()
                &&& handles[end as int] == Some(handle)
                &&& match extra[end as int].source {
                    ChildFdSource::Pipe => !connection,
                    ChildFdSource::Duplex => connection,
                    _ => false,
                }
            },
            Step::Reserve => extra.len() > 0,
            Step::Hook => process.detached || process.controlling_terminal || extra.len() > 0,
            Step::Start => true,
            Step::Watch { group } => group == (process.new_process_group || process.detached),
        },
{
    let floor = (highest(extra) + 1) as i32;
    let a = shares(process, 3);
    let b = makes(extra, floor, extra.len() as int);
    let c = launch(process, extra);
    let d = stream_ends(process, pipes, 3);
    let n = shorter(extra.len() as int, handles.len() as int);
    let e = extra_ends(extra, handles, n);
    lemma_shares(process, 3, step);
    lemma_makes(extra, floor, extra.len() as int, step);
    lemma_launch(process, extra, step);
    lemma_stream_ends(process, pipes, 3, step);
    lemma_extra_ends(extra, handles, n, step);
    lemma_in_sum(a, b, step);
    lemma_in_sum(a + b, c, step);
    lemma_in_sum(a + b + c, d, step);
    lemma_in_sum(a + b + c + d, e, step);
    lemma_highest_nonnegative(extra);
}

/// There is no number below the standard ones to stay above.
proof fn lemma_highest_nonnegative(extra: Seq<ChildFd>)
    ensures
        highest(extra) >= 0,
    decreases extra.len(),
{
    if extra.len() > 0 {
        lemma_highest_nonnegative(extra.drop_last());
    }
}

/// No descriptor that is made stands in the way of a number that the child will use: all are
/// lifted above the highest of them.
pub proof fn law_lifted_above_every_number(
    process: Spec,
    extra: Seq<ChildFd>,
    pipes: Seq<Option<Handle>>,
    handles: Seq<Option<Handle>>,
    lifted: usize,
    floor: i32,
    k: int,
)
    requires
        pipes.len() == 3,
        extra.len() <= usize::MAX,
        planned(process, extra, pipes, handles).1 is None,
        planned(process, extra, pipes, handles).0.contains(Step::Lift { lifted, floor }),
        0 <= k < extra.len(),
    ensures
        floor > extra[k].number,
{
    law_plan_binds_every_stream_to_its_own_end(
        process,
        extra,
        pipes,
        handles,
        Step::Lift { lifted, floor },
    );
    lemma_highest(extra, k);
}

/// No two standard streams are bound to the same end, and each is bound once.
pub proof fn law_every_end_is_adopted_once(
    process: Spec,
    pipes: Seq<Option<Handle>>,
    i: int,
    j: int,
)
    requires
        pipes.len() == 3,
        0 <= i < j < stream_ends(process, pipes, 3).len(),
    ensures
        stream_ends(process, pipes, 3)[i]->pipe < stream_ends(process, pipes, 3)[j]->pipe,
{
    lemma_ends_ascend(process, pipes, 3, i, j);
}

proof fn lemma_ends_ascend(process: Spec, pipes: Seq<Option<Handle>>, n: int, i: int, j: int)
    requires
        pipes.len() == 3,
        0 <= n <= 3,
        0 <= i < j < stream_ends(process, pipes, n).len(),
    ensures
        stream_ends(process, pipes, n)[i]->pipe < stream_ends(process, pipes, n)[j]->pipe,
    decreases n,
{
    if n > 0 {
        let before = stream_ends(process, pipes, n - 1);
        lemma_stream_ends(process, pipes, n - 1, Step::Start);
        if j < before.len() {
            lemma_ends_ascend(process, pipes, n - 1, i, j);
        }
    }
}

/// The child is started before it is watched and before any end is adopted, and after all that
/// is made for it.
pub proof fn law_child_starts_in_the_middle(
    process: Spec,
    extra: Seq<ChildFd>,
    pipes: Seq<Option<Handle>>,
    handles: Seq<Option<Handle>>,
    i: int,
    j: int,
)
    requires
        pipes.len() == 3,
        extra.len() <= usize::MAX,
        planned(process, extra, pipes, handles).1 is None,
        0 <= i < planned(process, extra, pipes, handles).0.len(),
        0 <= j < planned(process, extra, pipes, handles).0.len(),
        planned(process, extra, pipes, handles).0[i] == Step::Start,
    ensures
        ({
            let step = planned(process, extra, pipes, handles).0[j];
            &&& step is Share || step is Make || step is Lift || step is Reserve || step is Hook
                ==> j < i
            &&& step is Watch || step is AdoptStream || step is AdoptExtra ==> i < j
        }),
{
    let steps = planned(process, extra, pipes, handles).0;
    let floor = (highest(extra) + 1) as i32;
    let a = shares(process, 3);
    let b = makes(extra, floor, extra.len() as int);
    let c = launch(process, extra);
    let d = stream_ends(process, pipes, 3);
    let n = shorter(extra.len() as int, handles.len() as int);
    let e = extra_ends(extra, handles, n);
    assert(steps =~= a + b + c + d + e);
    assert forall|k: int| 0 <= k < steps.len() implies {
        &&& k < a.len() + b.len() ==> steps[k] is Share || steps[k] is Make || steps[k] is Lift
        &&& k >= a.len() + b.len() + c.len() ==> steps[k] is AdoptStream || steps[k] is AdoptExtra
    } by {
        if k < a.len() {
            assert(a.contains(a[k]));
            lemma_shares(process, 3, a[k]);
            assert(steps[k] == a[k]);
        } else if k < a.len() + b.len() {
            let x = b[k - a.len()];
            assert(b.contains(x));
            lemma_makes(extra, floor, extra.len() as int, x);
            assert(steps[k] == x);
        } else if k >= a.len() + b.len() + c.len() {
            let at = k - a.len() - b.len() - c.len();
            if at < d.len() {
                assert(d.contains(d[at]));
                lemma_stream_ends(process, pipes, 3, d[at]);
                assert(steps[k] == d[at]);
            } else {
                assert(e.contains(e[at - d.len()]));
                lemma_extra_ends(extra, handles, n, e[at - d.len()]);
                assert(steps[k] == e[at - d.len()]);
            }
        }
    }
    assert(c[c.len() - 2] == Step::Start);
}

/// What a failed call leaves to undo.
#[derive(Clone, Copy, Debug, PartialEq, Eq, Structural)]
pub enum Undo {
    /// Nothing: no child was started, and the descriptors made so far go with their owners.
    Nothing,
    /// The child runs: it is killed and waited for, and every handle is given back.
    Child,
}

/// The child runs when this call is made.
pub open spec fn undo_of(step: Step) -> Undo {
    match step {
        Step::Watch { .. } | Step::AdoptStream { .. } | Step::AdoptExtra { .. } => Undo::Child,
        _ => Undo::Nothing,
    }
}

/// What to undo when this call failed.
pub fn on_failure(step: &Step) -> (undo: Undo)
    ensures
        undo == undo_of(*step),
{
    match step {
        Step::Watch { .. } | Step::AdoptStream { .. } | Step::AdoptExtra { .. } => Undo::Child,
        _ => Undo::Nothing,
    }
}

/// What is done about a failed call: whom to kill before the child is waited for, and which
/// handles are given back then.
#[derive(Debug)]
pub struct Cleanup {
    pub kill: Option<i32>,
    pub release: Vec<Handle>,
}

/// Undo what a failed call left. A child that was reaped meanwhile is not killed.
pub fn cleanup(
    step: &Step,
    h: Handle,
    pipes: &Vec<Option<Handle>>,
    handles: &Vec<Option<Handle>>,
    child: &ChildState,
    pid: i32,
) -> (cleanup: Cleanup)
    requires
        pid > 0,
    ensures
        match undo_of(*step) {
            Undo::Nothing => cleanup.kill is None && cleanup.release@ == Seq::<Handle>::empty(),
            Undo::Child => cleanup.kill == child.spec_drop_target(pid) && cleanup.release@
                == given_back(h, pipes@, handles@),
        },
{
    match on_failure(step) {
        Undo::Nothing => Cleanup { kill: None, release: Vec::new() },
        Undo::Child => Cleanup {
            kill: child.drop_target(pid),
            release: rollback(h, pipes, handles),
        },
    }
}

proof fn lemma_fronts(process: Spec, extra: Seq<ChildFd>, floor: i32, n: int)
    ensures
        forall|i: int|
            0 <= i < shares(process, n).len() ==> undo_of(#[trigger] shares(process, n)[i])
                == Undo::Nothing && shares(process, n)[i] != Step::Start,
        forall|i: int|
            0 <= i < makes(extra, floor, n).len() ==> undo_of(#[trigger] makes(extra, floor, n)[i])
                == Undo::Nothing && makes(extra, floor, n)[i] != Step::Start,
    decreases n,
{
    if n > 0 {
        lemma_fronts(process, extra, floor, n - 1);
    }
}

proof fn lemma_ends(
    process: Spec,
    extra: Seq<ChildFd>,
    pipes: Seq<Option<Handle>>,
    handles: Seq<Option<Handle>>,
    n: int,
)
    ensures
        forall|i: int|
            0 <= i < stream_ends(process, pipes, n).len() ==> undo_of(
                #[trigger] stream_ends(process, pipes, n)[i],
            ) == Undo::Child,
        forall|i: int|
            0 <= i < extra_ends(extra, handles, n).len() ==> undo_of(
                #[trigger] extra_ends(extra, handles, n)[i],
            ) == Undo::Child,
    decreases n,
{
    if n > 0 {
        lemma_ends(process, extra, pipes, handles, n - 1);
    }
}

/// A failed call undoes the child exactly when the child was started before it.
pub proof fn law_started_child_is_undone(
    process: Spec,
    extra: Seq<ChildFd>,
    pipes: Seq<Option<Handle>>,
    handles: Seq<Option<Handle>>,
    i: int,
)
    requires
        0 <= i < planned(process, extra, pipes, handles).0.len(),
    ensures
        undo_of(planned(process, extra, pipes, handles).0[i]) == Undo::Child <==> planned(
            process,
            extra,
            pipes,
            handles,
        ).0.take(i).contains(Step::Start),
{
    let steps = planned(process, extra, pipes, handles).0;
    let floor = (highest(extra) + 1) as i32;
    lemma_fronts(process, extra, floor, 3);
    lemma_fronts(process, extra, floor, extra.len() as int);
    let before = steps.take(i);
    if planned(process, extra, pipes, handles).1 is None {
        let n = shorter(extra.len() as int, handles.len() as int);
        lemma_ends(process, extra, pipes, handles, 3);
        lemma_ends(process, extra, pipes, handles, n);
        let a = shares(process, 3);
        let b = makes(extra, floor, extra.len() as int);
        let c = launch(process, extra);
        let d = stream_ends(process, pipes, 3);
        let at = a.len() + b.len() + c.len() - 2;
        assert(steps[at] == Step::Start) by {
            assert(c[c.len() - 2] == Step::Start);
        }
        if i > at {
            assert(before[at] == Step::Start);
            if i == at + 1 {
                assert(steps[i] == c[c.len() - 1]);
            } else if i < at + 2 + d.len() {
                assert(steps[i] == d[i - at - 2]);
            } else {
                assert(steps[i] == extra_ends(extra, handles, n)[i - at - 2 - d.len()]);
            }
        } else {
            assert forall|j: int| 0 <= j <= i implies undo_of(#[trigger] steps[j]) == Undo::Nothing
                && (j < at ==> steps[j] != Step::Start) by {
                if j < a.len() {
                    assert(steps[j] == a[j]);
                } else if j < a.len() + b.len() {
                    assert(steps[j] == b[j - a.len()]);
                } else {
                    assert(steps[j] == c[j - a.len() - b.len()]);
                }
            }
            if before.contains(Step::Start) {
                let j = choose|j: int| 0 <= j < before.len() && before[j] == Step::Start;
                assert(steps[j] == Step::Start);
            }
        }
    } else {
        assert(steps[i] == shares(process, 3)[i]);
        if before.contains(Step::Start) {
            let j = choose|j: int| 0 <= j < before.len() && before[j] == Step::Start;
            assert(shares(process, 3)[j] == Step::Start);
        }
    }
}

/// A child is refused only for a terminal without a session of its own, before anything is made,
/// and for a number that no descriptor can be lifted above.
pub proof fn law_children_are_refused(
    process: Spec,
    extra: Seq<ChildFd>,
    pipes: Seq<Option<Handle>>,
    handles: Seq<Option<Handle>>,
)
    ensures
        ({
            let (steps, error) = planned(process, extra, pipes, handles);
            let alone = process.controlling_terminal && !process.detached;
            let high = exists|k: int|
                0 <= k < extra.len() && (#[trigger] extra[k]).number >= 0x7fff_ffff;
            &&& error is Some <==> alone || high
            &&& error is Some ==> error->0 == Error::plain(ErrorKind::InvalidInput)
            &&& error is Some ==> !steps.contains(Step::Start)
            &&& alone ==> steps.len() == 0
        }),
{
    crate::unix::process::law_floor_is_no_higher_than_needed(extra);
    let (steps, error) = planned(process, extra, pipes, handles);
    if highest(extra) >= 0x7fff_ffff {
        let k = choose|k: int| 0 <= k < extra.len() && (#[trigger] extra[k]).number == highest(extra);
        assert(extra[k].number >= 0x7fff_ffff);
    }
    if error is Some && steps.contains(Step::Start) {
        lemma_shares_only(process, 3, Step::Start);
    }
}

/// Only shared streams are duplicated.
proof fn lemma_shares_only(process: Spec, n: int, step: Step)
    requires
        0 <= n,
        shares(process, n).contains(step),
    ensures
        step is Share,
    decreases n,
{
    let all = shares(process, n);
    let k = choose|k: int| 0 <= k < all.len() && all[k] == step;
    if n > 0 {
        let before = shares(process, n - 1);
        if k < before.len() {
            assert(before[k] == step);
            lemma_shares_only(process, n - 1, step);
        }
    }
}

} // verus!
