//! The polling backend: how transports are opened, what errors mean, and what a turn waits
//! for.
use crate::open::{Open, ReusePort, Stdio};
use crate::readiness::io::Kind;
use crate::types::{
    unsupported, Direction, Endpoint, Error, ErrorKind, Handle, PollInfo, Span, Wake,
};
use crate::wasi::options::validate_accept_defaults;
use vstd::prelude::*;

verus! {

/// The notifier of a loop that shares its thread with everything that could notify it.
#[derive(Clone, Copy, Debug, PartialEq, Eq, Structural)]
pub struct WasiWake;

impl Wake for WasiWake {
    /// Nothing waits while anyone could call this.
    fn wake(&self) -> (done: Result<(), Error>)
        ensures
            done is Ok,
    {
        Ok(())
    }

    /// No native call is ever made.
    fn syscall_count(&self) -> (calls: u64)
        ensures
            calls == 0,
    {
        0
    }
}

/// Errors of the socket interface.
#[derive(Clone, Copy, Debug, PartialEq, Eq, Structural)]
pub enum NetCode {
    WouldBlock,
    NotSupported,
    InvalidArgument,
    InvalidState,
    ConnectionRefused,
    ConnectionReset,
    ConnectionAborted,
    Timeout,
    OutOfMemory,
    NewSocketLimit,
    Other,
}

/// What an error of the socket interface means.
pub open spec fn net_kind(code: NetCode) -> ErrorKind {
    match code {
        NetCode::WouldBlock => ErrorKind::WouldBlock,
        NetCode::NotSupported => ErrorKind::Unsupported,
        NetCode::InvalidArgument | NetCode::InvalidState => ErrorKind::InvalidInput,
        NetCode::ConnectionRefused => ErrorKind::ConnectionRefused,
        NetCode::ConnectionReset | NetCode::ConnectionAborted => ErrorKind::ConnectionReset,
        NetCode::Timeout => ErrorKind::TimedOut,
        NetCode::OutOfMemory | NetCode::NewSocketLimit => ErrorKind::ResourceLimit,
        NetCode::Other => ErrorKind::Other,
    }
}

/// What an error of the socket interface means.
pub fn net_error(code: NetCode) -> (e: Error)
    ensures
        e == Error::plain(net_kind(code)),
{
    Error::new(
        match code {
            NetCode::WouldBlock => ErrorKind::WouldBlock,
            NetCode::NotSupported => ErrorKind::Unsupported,
            NetCode::InvalidArgument => ErrorKind::InvalidInput,
            NetCode::InvalidState => ErrorKind::InvalidInput,
            NetCode::ConnectionRefused => ErrorKind::ConnectionRefused,
            NetCode::ConnectionReset => ErrorKind::ConnectionReset,
            NetCode::ConnectionAborted => ErrorKind::ConnectionReset,
            NetCode::Timeout => ErrorKind::TimedOut,
            NetCode::OutOfMemory => ErrorKind::ResourceLimit,
            NetCode::NewSocketLimit => ErrorKind::ResourceLimit,
            NetCode::Other => ErrorKind::Other,
        },
    )
}

/// What an error of a stream means.
pub fn stream_error(closed: bool) -> (e: Error)
    ensures
        e == Error::plain(
            if closed {
                ErrorKind::BrokenPipe
            } else {
                ErrorKind::Other
            },
        ),
{
    if closed {
        Error::new(ErrorKind::BrokenPipe)
    } else {
        Error::new(ErrorKind::Other)
    }
}

/// Everything that a wait may be about at once: two directions of each handle, a lookup for
/// each operation, and the deadline.
pub fn poll_slots(handles: usize, operations: usize) -> (slots: Result<usize, Error>)
    ensures
        match slots {
            Ok(n) => n == 2 * handles + operations + 1,
            Err(e) => 2 * handles + operations + 1 > usize::MAX && e == Error::plain(
                ErrorKind::ResourceLimit,
            ),
        },
{
    match handles.checked_mul(2) {
        Some(n) => match n.checked_add(operations) {
            Some(n) => match n.checked_add(1) {
                Some(n) => Ok(n),
                None => Err(Error::new(ErrorKind::ResourceLimit)),
            },
            None => Err(Error::new(ErrorKind::ResourceLimit)),
        },
        None => Err(Error::new(ErrorKind::ResourceLimit)),
    }
}

/// One import. Binding and listening are finished at once: a host that defers them refuses.
#[derive(Clone, Copy, Debug, PartialEq, Eq)]
pub enum Step {
    CreateTcp { v6: bool },
    CreateUdp { v6: bool },
    Backlog(u64),
    StartBind(Endpoint),
    FinishBind,
    StartListen,
    FinishListen,
    /// The two streams of a datagram socket.
    Datagrams,
    /// The stream of a standard descriptor.
    Standard(u32),
}

/// What the opened transport becomes.
#[derive(Clone, Copy, Debug, PartialEq, Eq, Structural)]
pub struct Adopt {
    pub kind: Kind,
    /// The address is kept for the connect operation.
    pub connect: bool,
}

/// Imports in order, and what follows when all of them succeeded.
#[derive(Debug)]
pub struct Plan {
    pub steps: Vec<Step>,
    pub outcome: Result<Adopt, Error>,
}

/// How a transport is opened. There are no local transports, and addresses are not shared.
pub open spec fn planned(open: Open) -> (Seq<Step>, Result<Adopt, Error>) {
    let refused = (Seq::<Step>::empty(), Err(Error::plain(ErrorKind::Unsupported)));
    match open {
        Open::Pipe(_) | Open::PipeListener { .. } => refused,
        Open::Stdio(which) => (
            seq![Step::Standard(which.spec_number())],
            Ok(
                Adopt {
                    kind: if which is Stdin {
                        Kind::Stdin
                    } else {
                        Kind::Stdout
                    },
                    connect: false,
                },
            ),
        ),
        Open::Tcp { to, .. } => (
            seq![Step::CreateTcp { v6: to is V6 }],
            Ok(Adopt { kind: Kind::Tcp, connect: true }),
        ),
        Open::Listener { addr, opts } => if opts.reuse_port is Share
            || opts.accept_defaults.nodelay {
            refused
        } else {
            (
                seq![
                    Step::CreateTcp { v6: addr is V6 },
                    Step::Backlog(opts.backlog as u64),
                    Step::StartBind(addr),
                    Step::FinishBind,
                    Step::StartListen,
                    Step::FinishListen,
                ],
                Ok(Adopt { kind: Kind::Listener, connect: false }),
            )
        },
        Open::Udp { from, reuse_port } => if reuse_port is Share {
            refused
        } else {
            (
                seq![
                    Step::CreateUdp { v6: from is V6 },
                    Step::StartBind(from),
                    Step::FinishBind,
                    Step::Datagrams,
                ],
                Ok(Adopt { kind: Kind::Udp, connect: false }),
            )
        },
    }
}

fn v6(addr: &Endpoint) -> (yes: bool)
    ensures
        yes == (*addr is V6),
{
    match addr {
        Endpoint::V4 { .. } => false,
        Endpoint::V6 { .. } => true,
    }
}

/// How a transport is opened.
pub fn plan(open: &Open) -> (plan: Plan)
    ensures
        (plan.steps@, plan.outcome) == planned(*open),
{
    let mut steps: Vec<Step> = Vec::new();
    let outcome: Result<Adopt, Error> = match open {
        Open::Pipe(_) => Err(unsupported()),
        Open::PipeListener { .. } => Err(unsupported()),
        Open::Stdio(which) => {
            steps.push(Step::Standard(which.number()));
            let kind = match which {
                Stdio::Stdin => Kind::Stdin,
                _ => Kind::Stdout,
            };
            Ok(Adopt { kind, connect: false })
        },
        Open::Tcp { to, .. } => {
            steps.push(Step::CreateTcp { v6: v6(to) });
            Ok(Adopt { kind: Kind::Tcp, connect: true })
        },
        Open::Listener { addr, opts } => {
            if opts.reuse_port == ReusePort::Share {
                Err(unsupported())
            } else if let Err(e) = validate_accept_defaults(opts.accept_defaults) {
                Err(e)
            } else {
                steps.push(Step::CreateTcp { v6: v6(addr) });
                steps.push(Step::Backlog(opts.backlog as u64));
                steps.push(Step::StartBind(*addr));
                steps.push(Step::FinishBind);
                steps.push(Step::StartListen);
                steps.push(Step::FinishListen);
                Ok(Adopt { kind: Kind::Listener, connect: false })
            }
        },
        Open::Udp { from, reuse_port } => {
            if *reuse_port == ReusePort::Share {
                Err(unsupported())
            } else {
                steps.push(Step::CreateUdp { v6: v6(from) });
                steps.push(Step::StartBind(*from));
                steps.push(Step::FinishBind);
                steps.push(Step::Datagrams);
                Ok(Adopt { kind: Kind::Udp, connect: false })
            }
        },
    };
    assert(steps@ =~= planned(*open).0);
    Plan { steps, outcome }
}

/// Every transport that is opened takes the imports it is for, each with its own family, address,
/// backlog or descriptor, and no others.
pub proof fn law_open_makes_the_imports_it_is_for(open: Open, step: Step)
    requires
        planned(open).1 is Ok,
    ensures
        planned(open).0.contains(step) <==> match step {
            Step::CreateTcp { v6 } => match open {
                Open::Tcp { to, .. } => v6 <==> to is V6,
                Open::Listener { addr, .. } => v6 <==> addr is V6,
                _ => false,
            },
            Step::CreateUdp { v6 } => match open {
                Open::Udp { from, .. } => v6 <==> from is V6,
                _ => false,
            },
            Step::Backlog(n) => match open {
                Open::Listener { opts, .. } => n == opts.backlog,
                _ => false,
            },
            Step::StartBind(addr) => match open {
                Open::Listener { addr: own, .. } => addr == own,
                Open::Udp { from, .. } => addr == from,
                _ => false,
            },
            Step::FinishBind => open is Listener || open is Udp,
            Step::StartListen | Step::FinishListen => open is Listener,
            Step::Datagrams => open is Udp,
            Step::Standard(n) => match open {
                Open::Stdio(which) => n == match which {
                    Stdio::Stdin => 0u32,
                    Stdio::Stdout => 1u32,
                    Stdio::Stderr => 2u32,
                },
                _ => false,
            },
        },
{
    let steps = planned(open).0;
    assert(steps.len() > 0 && steps.contains(steps[0]));
    if steps.len() > 1 {
        assert(steps.contains(steps[1]));
        assert(steps.contains(steps[2]));
        assert(steps.contains(steps[3]));
    }
    if steps.len() > 4 {
        assert(steps.contains(steps[4]));
        assert(steps.contains(steps[5]));
    }
}

/// How far an import is on the way from a new socket to one that is waited on.
pub open spec fn rank(step: Step) -> int {
    match step {
        Step::CreateTcp { .. } | Step::CreateUdp { .. } | Step::Standard(_) => 0,
        Step::Backlog(_) => 1,
        Step::StartBind(_) => 2,
        Step::FinishBind => 3,
        Step::StartListen => 4,
        Step::FinishListen => 5,
        Step::Datagrams => 6,
    }
}

/// Each import comes once and in its turn: a socket is created, bound, and then put to use, and
/// what was started is finished before the next is started.
pub proof fn law_open_goes_step_by_step(open: Open)
    ensures
        ({
            let steps = planned(open).0;
            forall|i: int, j: int|
                0 <= i < j < steps.len() ==> rank(#[trigger] steps[i]) < rank(#[trigger] steps[j])
        }),
{
}

/// Local transports, shared addresses and listeners that would not delay are refused with no
/// import made. What is opened has the kind it was opened as, and connects later where it names
/// its peer.
pub proof fn law_open_is_refused_or_adopted(open: Open)
    ensures
        ({
            let (steps, outcome) = planned(open);
            &&& outcome is Err <==> match open {
                Open::Pipe(_) | Open::PipeListener { .. } => true,
                Open::Listener { opts, .. } => opts.reuse_port is Share
                    || opts.accept_defaults.nodelay,
                Open::Udp { reuse_port, .. } => reuse_port is Share,
                _ => false,
            }
            &&& outcome is Err ==> outcome->Err_0 == Error::plain(ErrorKind::Unsupported)
                && steps.len() == 0
            &&& outcome is Ok ==> {
                &&& outcome->Ok_0.connect <==> open is Tcp
                &&& outcome->Ok_0.kind == match open {
                    Open::Stdio(Stdio::Stdin) => Kind::Stdin,
                    Open::Stdio(_) => Kind::Stdout,
                    Open::Tcp { .. } => Kind::Tcp,
                    Open::Listener { .. } => Kind::Listener,
                    _ => Kind::Udp,
                }
            }
        }),
{
}

/// What something that a wait is about belongs to.
#[derive(Clone, Copy, Debug, PartialEq, Eq, Structural)]
pub enum PollOwner {
    Socket(Handle, Direction),
    Lookup(usize),
    Deadline,
}

/// Judge what a turn would wait for: with nothing, no one could ever end the wait.
pub fn check_wait(sockets: usize, lookups: usize, deadline: bool) -> (done: Result<(), Error>)
    ensures
        match done {
            Ok(_) => sockets > 0 || lookups > 0 || deadline,
            Err(e) => sockets == 0 && lookups == 0 && !deadline && e == Error::plain(
                ErrorKind::Unsupported,
            ),
        },
{
    if sockets == 0 && lookups == 0 && !deadline {
        return Err(unsupported());
    }
    Ok(())
}

/// Whom index `i` of a wait belongs to: sockets come first, then lookups, then the deadline.
pub fn owner(i: usize, sockets: &Vec<(Handle, Direction)>, lookups: &Vec<usize>) -> (owner: PollOwner)
    ensures
        owner == (if i < sockets@.len() {
            PollOwner::Socket(sockets@[i as int].0, sockets@[i as int].1)
        } else if i < sockets@.len() + lookups@.len() {
            PollOwner::Lookup(lookups@[i - sockets@.len()])
        } else {
            PollOwner::Deadline
        }),
{
    let first: usize = sockets.len();
    if i < first {
        PollOwner::Socket(sockets[i].0, sockets[i].1)
    } else if i - first < lookups.len() {
        PollOwner::Lookup(lookups[i - first])
    } else {
        PollOwner::Deadline
    }
}

/// Account for one wait that reported the pollables at these places; the first `sources` are
/// those of sockets and lookups, and the one behind them is the deadline. The deadline only
/// implements the timeout: alone it is an empty wait.
pub fn wait_info(reported: &Vec<usize>, sources: usize) -> (info: PollInfo)
    ensures
        info.waits == 1,
        info.discovery_polls == 0,
        info.zero_event_waits == (if forall|k: int|
            0 <= k < reported@.len() ==> reported@[k] >= sources {
            1u32
        } else {
            0u32
        }),
{
    let mut empty = true;
    let mut i: usize = 0;
    while i < reported.len()
        invariant
            i <= reported@.len(),
            empty == (forall|k: int| 0 <= k < i ==> reported@[k] >= sources),
        decreases reported@.len() - i,
    {
        if reported[i] < sources {
            empty = false;
        }
        i = i + 1;
    }
    PollInfo::waited(empty)
}

/// A timeout as the clock takes it; a longer one becomes the longest.
pub fn clock_nanos(timeout: Span) -> (nanos: u64)
    ensures
        nanos == (if timeout.total_nanos() > u64::MAX {
            u64::MAX as int
        } else {
            timeout.total_nanos()
        }),
{
    let n: u128 = timeout.as_nanos();
    if n > 0xffff_ffff_ffff_ffff {
        0xffff_ffff_ffff_ffff
    } else {
        n as u64
    }
}

/// What an error of the socket interface means, by what it means.
pub proof fn law_socket_errors_mean_what_they_mean(code: NetCode)
    ensures
        ({
            let kind = net_kind(code);
            &&& kind == ErrorKind::Unsupported <==> code is NotSupported
            &&& kind == ErrorKind::InvalidInput <==> code is InvalidArgument || code is InvalidState
            &&& kind == ErrorKind::ConnectionRefused <==> code is ConnectionRefused
            &&& kind == ErrorKind::ConnectionReset <==> code is ConnectionReset || code
                is ConnectionAborted
            &&& kind == ErrorKind::TimedOut <==> code is Timeout
            &&& kind == ErrorKind::WouldBlock <==> code is WouldBlock
            &&& kind == ErrorKind::ResourceLimit <==> code is OutOfMemory || code is NewSocketLimit
            &&& kind == ErrorKind::Other <==> code is Other
        }),
{
}

} // verus!
