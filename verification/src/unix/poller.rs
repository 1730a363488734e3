//! The readiness queue of the system: what its events mean, how a timeout is handed to it,
//! and how a wait is counted.
use crate::types::{Error, ErrorKind, PollInfo, Span};
use vstd::prelude::*;

verus! {

/// The key of the notifier's counter.
pub const WAKE_KEY: u64 = 0;

/// The key of the private timer that stands in for a precise timeout.
pub const TIMER_KEY: u64 = 0xffff_ffff_ffff_ffff;

pub const EPOLLIN: u32 = 0x1;

pub const EPOLLOUT: u32 = 0x4;

pub const EPOLLERR: u32 = 0x8;

pub const EPOLLHUP: u32 = 0x10;

pub const EPOLLRDHUP: u32 = 0x2000;

/// Readiness of one registration.
#[derive(Clone, Copy, Debug, PartialEq, Eq, Structural)]
pub struct Ready {
    pub key: u64,
    pub read: bool,
    pub write: bool,
    /// What happened to a watched file; zero otherwise.
    pub vnode: u32,
}

/// A time as the system takes it.
#[derive(Clone, Copy, Debug, PartialEq, Eq, Structural)]
pub struct TimeSpec {
    pub sec: i64,
    pub nsec: i64,
}

/// A span as the system takes it; more seconds than it can hold become the most it can.
pub open spec fn system_time(span: Span) -> TimeSpec {
    TimeSpec {
        sec: if span.secs > i64::MAX {
            i64::MAX
        } else {
            span.secs as i64
        },
        nsec: span.nanos as i64,
    }
}

/// A span as the system takes it.
pub fn timespec(span: Span) -> (time: TimeSpec)
    ensures
        time == system_time(span),
{
    TimeSpec {
        sec: if span.secs > 0x7fff_ffff_ffff_ffff {
            0x7fff_ffff_ffff_ffff
        } else {
            span.secs as i64
        },
        nsec: span.nanos as i64,
    }
}

/// How a wait is handed to the system.
#[derive(Clone, Copy, Debug, PartialEq, Eq, Structural)]
pub enum WaitPlan {
    /// One call with this timeout; without one it blocks.
    Precise { timeout: Option<TimeSpec> },
    /// Set the private timer first, no time disarms it; then one call that blocks, or does
    /// not.
    Timer { arm: TimeSpec, block: bool },
}

/// One call makes the wait, whatever the system offers.
pub open spec fn wait_plan(timer: bool, timeout: Option<Span>) -> WaitPlan {
    if timer {
        WaitPlan::Timer {
            arm: match timeout {
                Some(span) => system_time(span),
                None => TimeSpec { sec: 0, nsec: 0 },
            },
            block: match timeout {
                Some(span) => span.total_nanos() != 0,
                None => true,
            },
        }
    } else {
        WaitPlan::Precise {
            timeout: match timeout {
                Some(span) => Some(system_time(span)),
                None => None,
            },
        }
    }
}

/// How a wait is handed to the system. `timer` tells that a private timer stands in for a
/// precise timeout.
pub fn plan_wait(timer: bool, timeout: Option<Span>) -> (plan: WaitPlan)
    ensures
        plan == wait_plan(timer, timeout),
{
    if timer {
        match timeout {
            Some(span) => WaitPlan::Timer { arm: timespec(span), block: !span.is_zero() },
            None => WaitPlan::Timer { arm: TimeSpec { sec: 0, nsec: 0 }, block: true },
        }
    } else {
        match timeout {
            Some(span) => WaitPlan::Precise { timeout: Some(timespec(span)) },
            None => WaitPlan::Precise { timeout: None },
        }
    }
}

/// A call that blocks has either a timer that ends it or no deadline.
pub proof fn law_bounded_wait_is_ended(timeout: Option<Span>)
    ensures
        match wait_plan(true, timeout) {
            WaitPlan::Timer { arm, block } => {
                &&& block && timeout is Some ==> arm.sec > 0 || arm.nsec > 0
                &&& timeout is None ==> block && arm == (TimeSpec { sec: 0, nsec: 0 })
                &&& !block ==> timeout is Some && timeout->0.total_nanos() == 0
            },
            _ => false,
        },
{
}

/// An event of the system: the key of its registration and its flags.
#[derive(Clone, Copy, Debug, PartialEq, Eq, Structural)]
pub struct NativeEvent {
    pub key: u64,
    pub flags: u32,
}

/// What one event means. An error or a hang-up is for both directions.
pub open spec fn readiness(e: NativeEvent) -> Ready {
    Ready {
        key: e.key,
        read: e.flags & (EPOLLIN | EPOLLHUP | EPOLLRDHUP | EPOLLERR) != 0,
        write: e.flags & (EPOLLOUT | EPOLLHUP | EPOLLERR) != 0,
        vnode: 0,
    }
}

/// An event of a registration, not of the notifier or of the timer.
pub open spec fn is_user(e: NativeEvent) -> bool {
    e.key != WAKE_KEY && e.key != TIMER_KEY
}

/// Readiness of the first `n` events, in order.
pub open spec fn ready_of(events: Seq<NativeEvent>, n: int) -> Seq<Ready>
    decreases n,
{
    if n <= 0 {
        Seq::empty()
    } else if is_user(events[n - 1]) {
        ready_of(events, n - 1).push(readiness(events[n - 1]))
    } else {
        ready_of(events, n - 1)
    }
}

/// Some event has this key.
pub open spec fn has_key(events: Seq<NativeEvent>, key: u64) -> bool {
    exists|i: int| 0 <= i < events.len() && (#[trigger] events[i]).key == key
}

/// What a wait brought.
#[derive(Debug)]
pub struct Woken {
    pub ready: Vec<Ready>,
    /// Drain the notifier's counter.
    pub wake: bool,
    /// Drain the timer's counter.
    pub timer: bool,
    pub info: PollInfo,
}

/// The timer only implements the timeout: its expiry alone is an empty wait. The notifier
/// is work, though nothing is ready.
pub open spec fn only_timer(events: Seq<NativeEvent>) -> bool {
    forall|i: int| 0 <= i < events.len() ==> (#[trigger] events[i]).key == TIMER_KEY
}

/// Read the events of a wait.
pub fn decode(events: &Vec<NativeEvent>) -> (woken: Woken)
    ensures
        woken.ready@ == ready_of(events@, events@.len() as int),
        woken.wake == has_key(events@, WAKE_KEY),
        woken.timer == has_key(events@, TIMER_KEY),
        woken.info == (PollInfo {
            waits: 1,
            discovery_polls: 0,
            zero_event_waits: if only_timer(events@) {
                1u32
            } else {
                0u32
            },
        }),
{
    let mut ready: Vec<Ready> = Vec::new();
    let mut wake: bool = false;
    let mut timer: bool = false;
    let mut native: bool = false;
    let mut i: usize = 0;
    while i < events.len()
        invariant
            i <= events@.len(),
            ready@ == ready_of(events@, i as int),
            wake == has_key(events@.take(i as int), WAKE_KEY),
            timer == has_key(events@.take(i as int), TIMER_KEY),
            native == !only_timer(events@.take(i as int)),
        decreases events@.len() - i,
    {
        let e = events[i];
        let ghost seen = events@.take(i as int);
        proof {
            let more = events@.take(i + 1);
            assert(more =~= seen.push(e));
            lemma_seen(seen, e);
        }
        if e.key != TIMER_KEY {
            native = true;
        }
        if e.key == WAKE_KEY {
            wake = true;
        } else if e.key == TIMER_KEY {
            timer = true;
        } else {
            ready.push(
                Ready {
                    key: e.key,
                    read: e.flags & (EPOLLIN | EPOLLHUP | EPOLLRDHUP | EPOLLERR) != 0,
                    write: e.flags & (EPOLLOUT | EPOLLHUP | EPOLLERR) != 0,
                    vnode: 0,
                },
            );
        }
        i = i + 1;
    }
    assert(events@.take(i as int) =~= events@);
    Woken { ready, wake, timer, info: PollInfo::waited(!native) }
}

proof fn lemma_seen(seen: Seq<NativeEvent>, e: NativeEvent)
    ensures
        forall|key: u64|
            #[trigger] has_key(seen.push(e), key) <==> has_key(seen, key) || e.key == key,
        only_timer(seen.push(e)) <==> only_timer(seen) && e.key == TIMER_KEY,
{
    let more = seen.push(e);
    let n = seen.len() as int;
    assert(more[n] == e);
    assert forall|key: u64| #[trigger] has_key(more, key) <==> has_key(seen, key) || e.key
        == key by {
        if has_key(seen, key) {
            let i = choose|i: int| 0 <= i < seen.len() && (#[trigger] seen[i]).key == key;
            assert(more[i].key == key);
        }
        if has_key(more, key) && e.key != key {
            let i = choose|i: int| 0 <= i < more.len() && (#[trigger] more[i]).key == key;
            assert(seen[i].key == key);
        }
    }
    if only_timer(more) {
        assert forall|i: int| 0 <= i < seen.len() implies (#[trigger] seen[i]).key
            == TIMER_KEY by {
            assert(more[i].key == TIMER_KEY);
        }
    }
}

/// Readiness of a registration, or a notification, is never an empty wait.
pub proof fn law_work_is_not_an_empty_wait(events: Seq<NativeEvent>, i: int)
    requires
        0 <= i < events.len(),
        events[i].key != TIMER_KEY,
    ensures
        !only_timer(events),
{
}

/// What a wait that failed means: an interruption is an empty wait.
pub fn failed_wait(error: Error) -> (info: Result<PollInfo, Error>)
    ensures
        info == (if error.kind is Interrupted {
            Ok(PollInfo { waits: 1, discovery_polls: 0, zero_event_waits: 1 })
        } else {
            Err(error)
        }),
{
    match error.kind {
        ErrorKind::Interrupted => Ok(PollInfo::waited(true)),
        _ => Err(error),
    }
}

/// What to do after a call on the notifier's or timer's counter.
#[derive(Clone, Copy, Debug, PartialEq, Eq)]
pub enum Counter {
    Again,
    Done,
    Failed(Error),
}

/// Judge a call that raises the counter: one that is full is readable already.
pub fn raised(result: Result<(), Error>) -> (next: Counter)
    ensures
        next == (match result {
            Ok(_) => Counter::Done,
            Err(e) => match e.kind {
                ErrorKind::WouldBlock => Counter::Done,
                ErrorKind::Interrupted => Counter::Again,
                _ => Counter::Failed(e),
            },
        }),
{
    match result {
        Ok(_) => Counter::Done,
        Err(e) => match e.kind {
            ErrorKind::WouldBlock => Counter::Done,
            ErrorKind::Interrupted => Counter::Again,
            _ => Counter::Failed(e),
        },
    }
}

/// Judge a call that reads the counter: it is read until nothing is left.
pub fn drained(result: Result<(), Error>) -> (next: Counter)
    ensures
        next == (match result {
            Ok(_) => Counter::Again,
            Err(e) => match e.kind {
                ErrorKind::WouldBlock => Counter::Done,
                ErrorKind::Interrupted => Counter::Again,
                _ => Counter::Failed(e),
            },
        }),
{
    match result {
        Ok(_) => Counter::Again,
        Err(e) => match e.kind {
            ErrorKind::WouldBlock => Counter::Done,
            ErrorKind::Interrupted => Counter::Again,
            _ => Counter::Failed(e),
        },
    }
}

/// Judge the probe for a precise wait: without it a private timer is needed.
pub fn needs_timer(probe: Result<(), Error>, forced: bool, no_call: i32) -> (timer: Result<
    bool,
    Error,
>)
    ensures
        timer == (match probe {
            Ok(_) => Ok(forced),
            Err(e) => if e.os == Some(no_call) {
                Ok(true)
            } else {
                Err(e)
            },
        }),
{
    match probe {
        Ok(_) => Ok(forced),
        Err(e) => if e.os == Some(no_call) {
            Ok(true)
        } else {
            Err(e)
        },
    }
}

/// What a kernel queue reports an event for.
#[derive(Clone, Copy, Debug, PartialEq, Eq, Structural)]
pub enum Filter {
    Read,
    Write,
    /// The notifier.
    User,
    Process,
    Vnode,
}

/// An event of a kernel queue.
#[derive(Clone, Copy, Debug, PartialEq, Eq, Structural)]
pub struct KernelEvent {
    pub filter: Filter,
    pub key: u64,
    pub fflags: u32,
}

/// Readiness of the first `n` events; notifications are none.
pub open spec fn kernel_ready(events: Seq<KernelEvent>, n: int) -> Seq<Ready>
    decreases n,
{
    if n <= 0 {
        Seq::empty()
    } else {
        let e = events[n - 1];
        let before = kernel_ready(events, n - 1);
        if e.filter is User {
            before
        } else {
            before.push(
                Ready {
                    key: e.key,
                    read: e.filter is Read,
                    write: e.filter is Write,
                    vnode: if e.filter is Vnode {
                        e.fflags
                    } else {
                        0
                    },
                },
            )
        }
    }
}

/// Read the events of a kernel queue; `zero_timeout` tells that the call only looked.
pub fn decode_kernel(events: &Vec<KernelEvent>, zero_timeout: bool) -> (out: (
    Vec<Ready>,
    PollInfo,
))
    ensures
        out.0@ == kernel_ready(events@, events@.len() as int),
        out.1 == (PollInfo {
            waits: if zero_timeout {
                0
            } else {
                1
            },
            discovery_polls: if zero_timeout {
                1
            } else {
                0
            },
            zero_event_waits: if events@.len() == 0 {
                1
            } else {
                0
            },
        }),
{
    let mut ready: Vec<Ready> = Vec::new();
    let mut i: usize = 0;
    while i < events.len()
        invariant
            i <= events@.len(),
            ready@ == kernel_ready(events@, i as int),
        decreases events@.len() - i,
    {
        let e = events[i];
        if e.filter != Filter::User {
            ready.push(
                Ready {
                    key: e.key,
                    read: e.filter == Filter::Read,
                    write: e.filter == Filter::Write,
                    vnode: if e.filter == Filter::Vnode {
                        e.fflags
                    } else {
                        0
                    },
                },
            );
        }
        i = i + 1;
    }
    (ready, PollInfo::native(zero_timeout, events.len() == 0))
}

/// The directions that a descriptor opened with this access mode is registered for.
pub fn directions(mode: u32, accmode: u32, read_only: u32, write_only: u32) -> (both: (bool, bool))
    requires
        read_only != write_only,
    ensures
        both.0 == (mode & accmode != write_only),
        both.1 == (mode & accmode != read_only),
        both.0 || both.1,
{
    (mode & accmode != write_only, mode & accmode != read_only)
}

/// Judge the removal of one direction: one that the kernel no longer knows is gone.
pub fn removed(result: Result<(), Error>, not_found: i32) -> (done: Result<(), Error>)
    ensures
        match result {
            Ok(_) => done is Ok,
            Err(e) => if e.os == Some(not_found) {
                done is Ok
            } else {
                done == Err::<(), Error>(e)
            },
        },
{
    match result {
        Ok(_) => Ok(()),
        Err(e) => if e.os == Some(not_found) {
            Ok(())
        } else {
            Err(e)
        },
    }
}

/// What an event means stands in its flags, one by one: input and a half-closed peer are for
/// reading, output is for writing, an error and a hang-up are for both, and nothing else is for
/// either. It is about the registration that it names.
pub proof fn law_flags_tell_what_is_ready(e: NativeEvent)
    ensures
        ({
            let r = readiness(e);
            let input = e.flags & 0x1u32 != 0;
            let output = e.flags & 0x4u32 != 0;
            let error = e.flags & 0x8u32 != 0;
            let hung_up = e.flags & 0x10u32 != 0;
            let half_closed = e.flags & 0x2000u32 != 0;
            &&& r.read <==> input || half_closed || error || hung_up
            &&& r.write <==> output || error || hung_up
            &&& r.key == e.key
            &&& r.vnode == 0
        }),
{
    let f = e.flags;
    assert((f & (0x1u32 | 0x10u32 | 0x2000u32 | 0x8u32) != 0) == (f & 0x1u32 != 0 || f & 0x2000u32
        != 0 || f & 0x8u32 != 0 || f & 0x10u32 != 0)) by (bit_vector);
    assert((f & (0x4u32 | 0x10u32 | 0x8u32) != 0) == (f & 0x4u32 != 0 || f & 0x8u32 != 0 || f
        & 0x10u32 != 0)) by (bit_vector);
}

/// Every event of a registration is told, in the order in which they came, and none of the
/// notifier or of the timer is.
pub proof fn law_events_are_told_in_order(events: Seq<NativeEvent>, n: int, i: int, j: int)
    requires
        0 <= i < j <= n <= events.len(),
        events[i].key != 0 && events[i].key != 0xffff_ffff_ffff_ffff,
    ensures
        exists|a: int| #[trigger]
            told_at(events, n, a) && ready_of(events, n)[a] == readiness(events[i]) && (j < n
                && events[j].key != 0 && events[j].key != 0xffff_ffff_ffff_ffff ==> exists|b: int|
                a < b && #[trigger] told_at(events, n, b) && ready_of(events, n)[b] == readiness(
                    events[j],
                )),
        ready_of(events, n).len() <= n,
        forall|a: int| #[trigger]
            told_at(events, n, a) ==> ready_of(events, n)[a].key != 0 && ready_of(events, n)[a].key
                != 0xffff_ffff_ffff_ffff,
{
    lemma_told(events, n, i);
    let a = ready_of(events, i).len() as int;
    assert(told_at(events, n, a));
    if j < n && events[j].key != 0 && events[j].key != 0xffff_ffff_ffff_ffff {
        lemma_told(events, n, j);
        lemma_told(events, j, i);
        let b = ready_of(events, j).len() as int;
        assert(a < b);
        assert(told_at(events, n, b));
    }
}

/// Something is told at this place.
pub open spec fn told_at(events: Seq<NativeEvent>, n: int, a: int) -> bool {
    0 <= a < ready_of(events, n).len()
}

/// What is told of an event stands behind what is told of those before it.
proof fn lemma_told(events: Seq<NativeEvent>, n: int, i: int)
    requires
        0 <= i < n <= events.len(),
    ensures
        events[i].key != 0 && events[i].key != 0xffff_ffff_ffff_ffff ==> ready_of(events, i).len()
            < ready_of(events, n).len() && ready_of(events, n)[ready_of(events, i).len() as int]
            == readiness(events[i]),
        ready_of(events, n).len() <= n,
        forall|a: int| #[trigger]
            told_at(events, n, a) ==> ready_of(events, n)[a].key != 0 && ready_of(events, n)[a].key
                != 0xffff_ffff_ffff_ffff,
    decreases n,
{
    let before = ready_of(events, n - 1);
    if i < n - 1 {
        lemma_told(events, n - 1, i);
    } else if n > 1 {
        lemma_told(events, n - 1, 0);
    }
    assert forall|a: int| #[trigger] told_at(events, n, a) implies ready_of(events, n)[a].key != 0
        && ready_of(events, n)[a].key != 0xffff_ffff_ffff_ffff by {
        if a < before.len() {
            assert(told_at(events, n - 1, a));
        }
    }
}

/// An event of a kernel queue is told behind those before it, for the direction of its filter: a
/// watched file tells what happened to it, and the notifier tells nothing.
pub proof fn law_kernel_events_are_told_in_order(events: Seq<KernelEvent>, n: int)
    requires
        0 < n <= events.len(),
    ensures
        ({
            let e = events[n - 1];
            let before = kernel_ready(events, n - 1);
            let now = kernel_ready(events, n);
            &&& e.filter is User ==> now == before
            &&& !(e.filter is User) ==> {
                &&& now.len() == before.len() + 1
                &&& now.drop_last() == before
                &&& now.last().key == e.key
                &&& now.last().read <==> e.filter is Read
                &&& now.last().write <==> e.filter is Write
                &&& e.filter is Vnode ==> now.last().vnode == e.fflags
                &&& !(e.filter is Vnode) ==> now.last().vnode == 0
            }
            &&& kernel_ready(events, 0).len() == 0
        }),
{
    if !(events[n - 1].filter is User) {
        assert(kernel_ready(events, n).drop_last() =~= kernel_ready(events, n - 1));
    }
}

/// A timeout is handed over as long as it is. Only one that the system cannot hold is cut, to the
/// most seconds it can; one that is no longer than another never waits longer.
pub proof fn law_timeouts_are_kept(a: Span, b: Span)
    ensures
        a.secs <= 0x7fff_ffff_ffff_ffff ==> system_time(a).sec * 1_000_000_000 + system_time(a).nsec
            == a.total_nanos(),
        a.secs > 0x7fff_ffff_ffff_ffff ==> system_time(a).sec == 0x7fff_ffff_ffff_ffff,
        system_time(a).nsec == a.nanos,
        a.secs <= b.secs ==> system_time(a).sec <= system_time(b).sec,
{
}

/// However the system waits, it is told the same: without a timeout to block until something
/// comes, with none left not to block, and otherwise to end when the time is over.
pub proof fn law_wait_lasts_as_asked(timer: bool, timeout: Option<Span>)
    ensures
        match wait_plan(timer, timeout) {
            WaitPlan::Precise { timeout: time } => {
                &&& !timer
                &&& time is None <==> timeout is None
                &&& timeout is Some ==> time == Some(system_time(timeout->0))
            },
            WaitPlan::Timer { arm, block } => {
                &&& timer
                &&& block <==> timeout is None || timeout->0.total_nanos() != 0
                &&& timeout is Some ==> arm == system_time(timeout->0)
                &&& timeout is None ==> arm.sec == 0 && arm.nsec == 0
            },
        },
{
}

/// A wait is empty when nothing came but the expiry of its own timer, and nothing else makes it so.
pub proof fn law_only_the_timer_is_no_work(events: Seq<NativeEvent>, key: u64)
    ensures
        only_timer(events) <==> forall|i: int|
            0 <= i < events.len() ==> (#[trigger] events[i]).key == 0xffff_ffff_ffff_ffff,
        has_key(events, key) <==> exists|i: int|
            0 <= i < events.len() && (#[trigger] events[i]).key == key,
        has_key(events, 0) ==> !only_timer(events),
{
}

} // verus!
