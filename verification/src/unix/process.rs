//! What a child is given: its descriptors at their numbers, its session and terminal, and
//! what its parent keeps of them.
use crate::types::{
    invalid, ChildFd, ChildFdSource, Error, ErrorKind, Handle,
};
use vstd::prelude::*;

verus! {

/// Refuse to start a child that the system would reap by itself, and a terminal for one
/// that does not lead a session.
pub fn validate(
    child_signal_ignored: bool,
    no_wait: bool,
    controlling_terminal: bool,
    detached: bool,
) -> (valid: Result<(), Error>)
    ensures
        match valid {
            Ok(_) => !child_signal_ignored && !no_wait && (controlling_terminal ==> detached),
            Err(e) => (child_signal_ignored || no_wait || (controlling_terminal && !detached))
                && e == Error::plain(ErrorKind::InvalidInput),
        },
{
    if child_signal_ignored || no_wait || (controlling_terminal && !detached) {
        return Err(invalid());
    }
    Ok(())
}

/// Whether a child joins a new group when it starts, and whether it leads one in the end. A
/// session leader leads a group anyway.
pub fn groups(detached: bool, new_process_group: bool) -> (plan: (bool, bool))
    ensures
        plan.0 == (!detached && new_process_group),
        plan.1 == (new_process_group || detached),
        plan.1 == (plan.0 || detached),
{
    (!detached && new_process_group, new_process_group || detached)
}

/// The largest number that is asked for, or zero.
pub open spec fn highest(extra: Seq<ChildFd>) -> int
    decreases extra.len(),
{
    if extra.len() == 0 {
        0
    } else {
        let before = highest(extra.drop_last());
        if extra.last().number > before {
            extra.last().number as int
        } else {
            before
        }
    }
}

/// Every number asked for is at most the highest.
pub proof fn lemma_highest(extra: Seq<ChildFd>, i: int)
    requires
        0 <= i < extra.len(),
    ensures
        extra[i].number <= highest(extra),
    decreases extra.len(),
{
    if i < extra.len() - 1 {
        lemma_highest(extra.drop_last(), i);
        assert(extra.drop_last()[i] == extra[i]);
    }
}

/// The lowest number above every one that is asked for.
pub fn checked_floor(extra: &Vec<ChildFd>) -> (floor: Result<i32, Error>)
    ensures
        match floor {
            Ok(n) => n == highest(extra@) + 1,
            Err(e) => highest(extra@) >= i32::MAX && e == Error::plain(ErrorKind::InvalidInput),
        },
{
    let mut top: u32 = 0;
    let mut i: usize = 0;
    assert(extra@.take(0) =~= Seq::empty());
    while i < extra.len()
        invariant
            i <= extra@.len(),
            top == highest(extra@.take(i as int)),
        decreases extra@.len() - i,
    {
        proof {
            assert(extra@.take(i + 1).drop_last() =~= extra@.take(i as int));
            assert(extra@.take(i + 1).last() == extra@[i as int]);
        }
        if extra[i].number > top {
            top = extra[i].number;
        }
        i = i + 1;
    }
    assert(extra@.take(i as int) =~= extra@);
    if top >= 0x7fff_ffff {
        return Err(invalid());
    }
    Ok(top as i32 + 1)
}

/// Whether a descriptor has to move up before the child is made.
pub fn needs_lift(fd: i32, floor: i32) -> (moves: bool)
    ensures
        moves == (fd < floor),
{
    fd < floor
}

/// Judge a look at a number that the child will use: `true` where it is free and is to be
/// held until the child exists.
pub fn must_hold(look: Result<(), Error>, bad_descriptor: i32) -> (hold: Result<bool, Error>)
    ensures
        hold == (match look {
            Ok(_) => Ok(false),
            Err(e) => if e.os == Some(bad_descriptor) {
                Ok(true)
            } else {
                Err(e)
            },
        }),
{
    match look {
        Ok(_) => Ok(false),
        Err(e) => if e.os == Some(bad_descriptor) {
            Ok(true)
        } else {
            Err(e)
        },
    }
}

/// Numbers in use, once the free ones among `targets` are held.
pub open spec fn held(used: Set<int>, targets: Seq<int>) -> Set<int> {
    used.union(targets.to_set())
}

/// While the free numbers are held, whatever the system opens lands on none that the child
/// will use: an error report of a failed start is not overwritten.
pub proof fn law_new_descriptor_is_no_target(used: Set<int>, targets: Seq<int>, new: int, i: int)
    requires
        !held(used, targets).contains(new),
        0 <= i < targets.len(),
    ensures
        new != targets[i],
{
    assert(targets.to_set().contains(targets[i]));
}

/// One thing that a child does before it runs its program.
#[derive(Clone, Copy, Debug, PartialEq, Eq, Structural)]
pub enum Hook {
    /// Lead a new session.
    Session,
    /// Take the terminal of its input.
    Terminal,
    /// Put a descriptor at its number.
    Place { source: i32, target: i32 },
}

/// The first `n` descriptors to put in place.
pub open spec fn places(sources: Seq<i32>, extra: Seq<ChildFd>, n: int) -> Seq<Hook> {
    Seq::new(
        n as nat,
        |i: int| Hook::Place { source: sources[i], target: extra[i].number as i32 },
    )
}

/// Everything that a child does before it runs its program.
pub open spec fn hooks(detached: bool, terminal: bool, sources: Seq<i32>, extra: Seq<ChildFd>) -> Seq<
    Hook,
> {
    (if detached {
        seq![Hook::Session]
    } else {
        Seq::empty()
    }) + (if terminal {
        seq![Hook::Terminal]
    } else {
        Seq::empty()
    }) + places(sources, extra, extra.len() as int)
}

/// What a child does before it runs its program. `sources` are the descriptors behind
/// `extra`, all at or above the floor.
pub fn plan_hooks(detached: bool, terminal: bool, sources: &Vec<i32>, extra: &Vec<ChildFd>) -> (out:
    Vec<Hook>)
    requires
        sources@.len() == extra@.len(),
        highest(extra@) < i32::MAX,
    ensures
        out@ == hooks(detached, terminal, sources@, extra@),
{
    let mut out: Vec<Hook> = Vec::new();
    if detached {
        out.push(Hook::Session);
    }
    if terminal {
        out.push(Hook::Terminal);
    }
    let ghost first = out@;
    let mut i: usize = 0;
    assert(first + places(sources@, extra@, 0) =~= first);
    while i < extra.len()
        invariant
            i <= extra@.len(),
            sources@.len() == extra@.len(),
            highest(extra@) < i32::MAX,
            out@ == first + places(sources@, extra@, i as int),
        decreases extra@.len() - i,
    {
        proof {
            lemma_highest(extra@, i as int);
        }
        out.push(Hook::Place { source: sources[i], target: extra[i].number as i32 });
        assert(out@ =~= first + places(sources@, extra@, i + 1));
        i = i + 1;
    }
    assert(out@ =~= hooks(detached, terminal, sources@, extra@));
    out
}

/// The descriptors of a process after it put the first `n` in place.
pub open spec fn placed(
    table: Map<int, int>,
    sources: Seq<i32>,
    extra: Seq<ChildFd>,
    n: int,
) -> Map<int, int>
    decreases n,
{
    if n <= 0 {
        table
    } else {
        let before = placed(table, sources, extra, n - 1);
        before.insert(extra[n - 1].number as int, before[sources[n - 1] as int])
    }
}

/// No number is asked for twice.
pub open spec fn apart(extra: Seq<ChildFd>) -> bool {
    forall|i: int, j: int|
        0 <= i < extra.len() && 0 <= j < extra.len() && i != j ==> (#[trigger] extra[i]).number
            != (#[trigger] extra[j]).number
}

/// With every source above every number, no placement destroys a source of another one:
/// whatever their order, each number gets what was meant for it.
pub proof fn law_placements_do_not_disturb_each_other(
    table: Map<int, int>,
    sources: Seq<i32>,
    extra: Seq<ChildFd>,
    floor: int,
    i: int,
)
    requires
        sources.len() == extra.len(),
        apart(extra),
        floor == highest(extra) + 1,
        forall|k: int| 0 <= k < sources.len() ==> (#[trigger] sources[k]) >= floor,
        0 <= i < extra.len(),
    ensures
        placed(table, sources, extra, extra.len() as int)[extra[i].number as int]
            == table[sources[i] as int],
{
    lemma_placed(table, sources, extra, floor, extra.len() as int, i);
}

proof fn lemma_placed(
    table: Map<int, int>,
    sources: Seq<i32>,
    extra: Seq<ChildFd>,
    floor: int,
    n: int,
    i: int,
)
    requires
        sources.len() == extra.len(),
        apart(extra),
        floor == highest(extra) + 1,
        forall|k: int| 0 <= k < sources.len() ==> (#[trigger] sources[k]) >= floor,
        0 <= n <= extra.len(),
        0 <= i < extra.len(),
    ensures
        forall|d: int| d >= floor ==> #[trigger] placed(table, sources, extra, n)[d] == table[d],
        i < n ==> placed(table, sources, extra, n)[extra[i].number as int]
            == table[sources[i] as int],
    decreases n,
{
    if n > 0 {
        lemma_placed(table, sources, extra, floor, n - 1, i);
        lemma_highest(extra, n - 1);
        let before = placed(table, sources, extra, n - 1);
        assert(before[sources[n - 1] as int] == table[sources[n - 1] as int]);
    }
}

/// What the child end of an extra descriptor is made from.
#[derive(Clone, Copy, Debug, PartialEq, Eq, Structural)]
pub enum Make {
    Null,
    /// A pipe that the child writes.
    OneWay,
    /// A connected pair.
    Pair,
    /// A duplicate of an open transport.
    Duplicate(Handle),
}

/// What the child end of an extra descriptor is made from, and what its parent keeps: a
/// pair's own end is a local connection, a pipe end is classified.
pub fn make(source: ChildFdSource) -> (made: (Make, Option<bool>))
    ensures
        made == (match source {
            ChildFdSource::Null => (Make::Null, None),
            ChildFdSource::Pipe => (Make::OneWay, Some(false)),
            ChildFdSource::Duplex => (Make::Pair, Some(true)),
            ChildFdSource::Handle(h) => (Make::Duplicate(h), None),
        }),
{
    match source {
        ChildFdSource::Null => (Make::Null, None),
        ChildFdSource::Pipe => (Make::OneWay, Some(false)),
        ChildFdSource::Duplex => (Make::Pair, Some(true)),
        ChildFdSource::Handle(h) => (Make::Duplicate(h), None),
    }
}

/// The handles that are given back when a started child could not be adopted: its own, then
/// its streams, then its extra descriptors.
pub open spec fn given_back(h: Handle, pipes: Seq<Option<Handle>>, extra: Seq<Option<Handle>>) -> Seq<
    Handle,
> {
    seq![h] + present(pipes) + present(extra)
}

/// The handles that are there, in order.
pub open spec fn present(handles: Seq<Option<Handle>>) -> Seq<Handle>
    decreases handles.len(),
{
    if handles.len() == 0 {
        Seq::empty()
    } else {
        match handles.last() {
            Some(h) => present(handles.drop_last()).push(h),
            None => present(handles.drop_last()),
        }
    }
}

fn add_present(out: &mut Vec<Handle>, handles: &Vec<Option<Handle>>)
    ensures
        final(out)@ == old(out)@ + present(handles@),
{
    let ghost first = out@;
    let mut i: usize = 0;
    assert(handles@.take(0) =~= Seq::empty());
    assert(first + present(handles@.take(0)) =~= first);
    while i < handles.len()
        invariant
            i <= handles@.len(),
            first == old(out)@,
            out@ == first + present(handles@.take(i as int)),
        decreases handles@.len() - i,
    {
        proof {
            assert(handles@.take(i + 1).drop_last() =~= handles@.take(i as int));
            assert(handles@.take(i + 1).last() == handles@[i as int]);
        }
        if let Some(h) = handles[i] {
            out.push(h);
            assert(out@ =~= first + present(handles@.take(i + 1)));
        }
        i = i + 1;
    }
    assert(handles@.take(i as int) =~= handles@);
}

/// The handles to give back when a started child could not be adopted.
pub fn rollback(h: Handle, pipes: &Vec<Option<Handle>>, extra: &Vec<Option<Handle>>) -> (out: Vec<
    Handle,
>)
    ensures
        out@ == given_back(h, pipes@, extra@),
{
    let mut out: Vec<Handle> = Vec::new();
    out.push(h);
    add_present(&mut out, pipes);
    add_present(&mut out, extra);
    assert(out@ =~= given_back(h, pipes@, extra@));
    out
}

/// The floor is the lowest number above every one that is asked for: some descriptor is asked for
/// just below it, or none is asked for above zero.
pub proof fn law_floor_is_no_higher_than_needed(extra: Seq<ChildFd>)
    ensures
        forall|i: int| 0 <= i < extra.len() ==> (#[trigger] extra[i]).number < highest(extra) + 1,
        highest(extra) == 0 || exists|i: int|
            0 <= i < extra.len() && (#[trigger] extra[i]).number == highest(extra),
    decreases extra.len(),
{
    assert forall|i: int| 0 <= i < extra.len() implies (#[trigger] extra[i]).number < highest(extra)
        + 1 by {
        lemma_highest(extra, i);
    }
    if extra.len() > 0 {
        let front = extra.drop_last();
        law_floor_is_no_higher_than_needed(front);
        if extra.last().number > highest(front) {
            assert(extra[extra.len() - 1].number == highest(extra));
        } else if highest(front) != 0 {
            let i = choose|i: int|
                0 <= i < front.len() && (#[trigger] front[i]).number == highest(front);
            assert(extra[i].number == highest(extra));
        }
    }
}

/// A child leads a session exactly when it is detached, before it does anything else, takes a
/// terminal exactly when it was given one, and then puts each descriptor at the number that was
/// asked for it, once and in order.
pub proof fn law_child_prepares_itself(
    detached: bool,
    terminal: bool,
    sources: Seq<i32>,
    extra: Seq<ChildFd>,
)
    requires
        sources.len() == extra.len(),
        forall|i: int| 0 <= i < extra.len() ==> (#[trigger] extra[i]).number <= i32::MAX,
    ensures
        ({
            let all = hooks(detached, terminal, sources, extra);
            let first = (if detached {
                1int
            } else {
                0
            }) + (if terminal {
                1int
            } else {
                0
            });
            &&& all.len() == first + extra.len()
            &&& detached ==> all[0] == Hook::Session
            &&& terminal ==> all[first - 1] == Hook::Terminal
            &&& all.contains(Hook::Session) <==> detached
            &&& all.contains(Hook::Terminal) <==> terminal
            &&& forall|i: int|
                0 <= i < extra.len() ==> (#[trigger] all[first + i]) is Place && all[first
                    + i]->source == sources[i] && all[first + i]->target == extra[i].number
        }),
{
    let all = hooks(detached, terminal, sources, extra);
    if detached {
        assert(all[0] == Hook::Session);
    }
    if terminal {
        assert(all[if detached {
            1int
        } else {
            0
        }] == Hook::Terminal);
    }
}

proof fn lemma_present(handles: Seq<Option<Handle>>, h: Handle)
    ensures
        present(handles).contains(h) <==> handles.contains(Some(h)),
        present(handles).len() <= handles.len(),
    decreases handles.len(),
{
    if handles.len() > 0 {
        let front = handles.drop_last();
        lemma_present(front, h);
        assert(handles =~= front.push(handles.last()));
        if front.contains(Some(h)) {
            let i = choose|i: int| 0 <= i < front.len() && front[i] == Some(h);
            assert(handles[i] == Some(h));
        }
        if handles.last() == Some(h) {
            assert(handles[handles.len() - 1] == Some(h));
            assert(present(handles)[present(front).len() as int] == h);
        }
        if present(front).contains(h) {
            let i = choose|i: int| 0 <= i < present(front).len() && present(front)[i] == h;
            assert(present(handles)[i] == h);
        }
        if handles.contains(Some(h)) && handles.last() != Some(h) {
            let i = choose|i: int| 0 <= i < handles.len() && handles[i] == Some(h);
            assert(front[i] == Some(h));
        }
        if present(handles).contains(h) && handles.last() != Some(h) {
            let i = choose|i: int| 0 <= i < present(handles).len() && present(handles)[i] == h;
            assert(present(front)[i] == h);
        }
    }
}

/// What a child that could not be adopted was given is given back: its own handle first, and every
/// stream and descriptor that was there, and nothing else.
pub proof fn law_everything_is_given_back(
    h: Handle,
    pipes: Seq<Option<Handle>>,
    extra: Seq<Option<Handle>>,
    other: Handle,
)
    ensures
        given_back(h, pipes, extra)[0] == h,
        given_back(h, pipes, extra).contains(other) <==> other == h || pipes.contains(Some(other))
            || extra.contains(Some(other)),
        given_back(h, pipes, extra).len() <= 1 + pipes.len() + extra.len(),
{
    lemma_present(pipes, other);
    lemma_present(extra, other);
    let all = given_back(h, pipes, extra);
    assert(all[0] == h);
    if present(pipes).contains(other) {
        let i = choose|i: int| 0 <= i < present(pipes).len() && present(pipes)[i] == other;
        assert(all[1 + i] == other);
    }
    if present(extra).contains(other) {
        let i = choose|i: int| 0 <= i < present(extra).len() && present(extra)[i] == other;
        assert(all[1 + present(pipes).len() + i] == other);
    }
    if all.contains(other) && other != h {
        let i = choose|i: int| 0 <= i < all.len() && all[i] == other;
        if i < 1 + present(pipes).len() {
            assert(present(pipes)[i - 1] == other);
        } else {
            assert(present(extra)[i - 1 - present(pipes).len()] == other);
        }
    }
}

} // verus!
