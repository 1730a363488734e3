//! How transports are opened: the calls in their order, and what is refused between them.
use crate::open::{ListenOpts, Open, ReusePort, Stdio, TtyMode};
use crate::options::{accept_options, validate_accept_defaults, AcceptDefaults};
use crate::types::{invalid, Endpoint, Error, ErrorKind};
use crate::readiness::io::Kind;
use vstd::prelude::*;

verus! {

/// One call.
#[derive(Clone, Copy, Debug, PartialEq, Eq)]
pub enum Step {
    /// A configured socket for this address.
    Socket { addr: Endpoint, datagram: bool },
    /// A configured local stream socket.
    LocalSocket,
    /// A duplicate of a standard descriptor.
    Duplicate(u32),
    /// Let an address be bound that a dead connection still holds.
    ReuseAddress,
    /// Let live sockets share the address.
    SharePort,
    Bind(Endpoint),
    /// Bind to the name of the transport.
    BindName,
    Listen(i32),
    NoDelay,
}

/// What the opened descriptor becomes.
#[derive(Clone, Copy, Debug, PartialEq, Eq, Structural)]
pub struct Adopt {
    /// Its kind; without one it is classified.
    pub kind: Option<Kind>,
    /// A connection to make is kept for the connect operation.
    pub connect: bool,
    pub accept_defaults: AcceptDefaults,
}

/// Calls in order, and what follows when all of them succeeded.
#[derive(Debug)]
pub struct Plan {
    pub steps: Vec<Step>,
    pub outcome: Result<Adopt, Error>,
}

/// No option is set on accepted connections.
pub open spec fn no_defaults() -> AcceptDefaults {
    AcceptDefaults { nodelay: false, keep_alive: None }
}

/// A name that a local address can hold.
pub open spec fn name_ok(name: Seq<u8>, limit: int) -> bool {
    0 < name.len() < limit && !name.contains(0)
}

/// A local transport with this name.
pub open spec fn local_plan(name: Seq<u8>, listen: Option<ListenOpts>, limit: int) -> (
    Seq<Step>,
    Result<Adopt, Error>,
) {
    if listen is Some && accept_options(listen->0.accept_defaults).len() > 0 {
        (Seq::empty(), Err(Error::plain(ErrorKind::Unsupported)))
    } else if !name_ok(name, limit) {
        (Seq::empty(), Err(Error::plain(ErrorKind::InvalidInput)))
    } else {
        match listen {
            None => (
                seq![Step::LocalSocket],
                Ok(
                    Adopt {
                        kind: Some(Kind::Pipe),
                        connect: true,
                        accept_defaults: no_defaults(),
                    },
                ),
            ),
            Some(opts) => if opts.backlog > i32::MAX || opts.reuse_port is Share {
                (seq![Step::LocalSocket], Err(Error::plain(ErrorKind::InvalidInput)))
            } else {
                (
                    seq![Step::LocalSocket, Step::BindName, Step::Listen(opts.backlog as i32)],
                    Ok(
                        Adopt {
                            kind: Some(Kind::PipeListener),
                            connect: false,
                            accept_defaults: no_defaults(),
                        },
                    ),
                )
            },
        }
    }
}

/// A bound socket. A listener may take an address that only dead connections hold; a
/// datagram socket is exclusive unless it was asked to share.
pub open spec fn bound_steps(addr: Endpoint, listener: Option<i32>, reuse: ReusePort) -> Seq<Step> {
    seq![Step::Socket { addr, datagram: listener is None }] + (if listener is Some || reuse
        is Share {
        seq![Step::ReuseAddress]
    } else {
        Seq::empty()
    }) + (if reuse is Share {
        seq![Step::SharePort]
    } else {
        Seq::empty()
    }) + seq![Step::Bind(addr)] + (match listener {
        Some(backlog) => seq![Step::Listen(backlog)],
        None => Seq::empty(),
    })
}

/// How a transport is opened.
pub open spec fn planned(open: Open, limit: int) -> (Seq<Step>, Result<Adopt, Error>) {
    match open {
        Open::Pipe(name) => local_plan(name@, None, limit),
        Open::PipeListener { name, local } => local_plan(name@, Some(local), limit),
        Open::Stdio(which) => (
            seq![Step::Duplicate(which.spec_number())],
            Ok(Adopt { kind: None, connect: false, accept_defaults: no_defaults() }),
        ),
        Open::Tcp { to, nodelay } => (
            seq![Step::Socket { addr: to, datagram: false }] + (if nodelay {
                seq![Step::NoDelay]
            } else {
                Seq::empty()
            }),
            Ok(
                Adopt { kind: Some(Kind::Tcp), connect: true, accept_defaults: no_defaults() },
            ),
        ),
        Open::Listener { addr, opts } => if opts.backlog > i32::MAX {
            (Seq::empty(), Err(Error::plain(ErrorKind::InvalidInput)))
        } else {
            (
                bound_steps(addr, Some(opts.backlog as i32), opts.reuse_port),
                Ok(
                    Adopt {
                        kind: Some(Kind::Listener),
                        connect: false,
                        accept_defaults: opts.accept_defaults,
                    },
                ),
            )
        },
        Open::Udp { from, reuse_port } => (
            bound_steps(from, None, reuse_port),
            Ok(
                Adopt { kind: Some(Kind::Udp), connect: false, accept_defaults: no_defaults() },
            ),
        ),
    }
}

/// Check a name against the longest that fits with its terminator.
pub fn check_name(name: &Vec<u8>, limit: usize) -> (done: Result<(), Error>)
    ensures
        match done {
            Ok(_) => name_ok(name@, limit as int),
            Err(e) => !name_ok(name@, limit as int) && e == Error::plain(
                ErrorKind::InvalidInput,
            ),
        },
{
    if name.len() == 0 || name.len() >= limit {
        return Err(invalid());
    }
    let mut i: usize = 0;
    while i < name.len()
        invariant
            i <= name@.len(),
            forall|k: int| 0 <= k < i ==> name@[k] != 0,
        decreases name@.len() - i,
    {
        if name[i] == 0 {
            assert(name@.contains(0));
            return Err(invalid());
        }
        i = i + 1;
    }
    Ok(())
}

/// The length of a local address: what stands before the name, the name, its terminator.
pub fn local_length(name: &Vec<u8>, offset: usize, limit: usize) -> (len: usize)
    requires
        name_ok(name@, limit as int),
        offset + limit <= usize::MAX,
    ensures
        len == offset + name@.len() + 1,
        len <= offset + limit,
{
    offset + name.len() + 1
}

fn plan_local(name: &Vec<u8>, listen: Option<ListenOpts>, limit: usize) -> (plan: Plan)
    ensures
        (plan.steps@, plan.outcome) == local_plan(name@, listen, limit as int),
{
    let mut steps: Vec<Step> = Vec::new();
    let none = AcceptDefaults { nodelay: false, keep_alive: None };
    if let Some(opts) = listen {
        if let Err(e) = validate_accept_defaults(opts.accept_defaults, false) {
            assert(steps@ =~= Seq::empty());
            return Plan { steps, outcome: Err(e) };
        }
    }
    if let Err(e) = check_name(name, limit) {
        assert(steps@ =~= Seq::empty());
        return Plan { steps, outcome: Err(e) };
    }
    steps.push(Step::LocalSocket);
    let Some(opts) = listen else {
        assert(steps@ =~= seq![Step::LocalSocket]);
        return Plan {
            steps,
            outcome: Ok(
                Adopt { kind: Some(Kind::Pipe), connect: true, accept_defaults: none },
            ),
        };
    };
    if opts.backlog > 0x7fff_ffff || opts.reuse_port == ReusePort::Share {
        assert(steps@ =~= seq![Step::LocalSocket]);
        return Plan { steps, outcome: Err(invalid()) };
    }
    steps.push(Step::BindName);
    steps.push(Step::Listen(opts.backlog as i32));
    assert(steps@ =~= seq![
        Step::LocalSocket,
        Step::BindName,
        Step::Listen(opts.backlog as i32),
    ]);
    Plan {
        steps,
        outcome: Ok(
            Adopt { kind: Some(Kind::PipeListener), connect: false, accept_defaults: none },
        ),
    }
}

fn plan_bound(addr: Endpoint, listener: Option<i32>, reuse: ReusePort) -> (steps: Vec<Step>)
    ensures
        steps@ == bound_steps(addr, listener, reuse),
{
    let mut steps: Vec<Step> = Vec::new();
    steps.push(Step::Socket { addr, datagram: listener.is_none() });
    if listener.is_some() || reuse == ReusePort::Share {
        steps.push(Step::ReuseAddress);
    }
    if reuse == ReusePort::Share {
        steps.push(Step::SharePort);
    }
    steps.push(Step::Bind(addr));
    if let Some(backlog) = listener {
        steps.push(Step::Listen(backlog));
    }
    assert(steps@ =~= bound_steps(addr, listener, reuse));
    steps
}

/// How a transport is opened. `limit` is the room for a local name with its terminator.
pub fn plan(open: &Open, limit: usize) -> (plan: Plan)
    ensures
        (plan.steps@, plan.outcome) == planned(*open, limit as int),
{
    let none = AcceptDefaults { nodelay: false, keep_alive: None };
    match open {
        Open::Pipe(name) => plan_local(name, None, limit),
        Open::PipeListener { name, local } => plan_local(name, Some(*local), limit),
        Open::Stdio(which) => {
            let mut steps: Vec<Step> = Vec::new();
            steps.push(Step::Duplicate(which.number()));
            assert(steps@ =~= seq![Step::Duplicate(which.spec_number())]);
            Plan {
                steps,
                outcome: Ok(Adopt { kind: None, connect: false, accept_defaults: none }),
            }
        },
        Open::Tcp { to, nodelay } => {
            let mut steps: Vec<Step> = Vec::new();
            steps.push(Step::Socket { addr: *to, datagram: false });
            if *nodelay {
                steps.push(Step::NoDelay);
            }
            assert(steps@ =~= planned(*open, limit as int).0);
            Plan {
                steps,
                outcome: Ok(
                    Adopt { kind: Some(Kind::Tcp), connect: true, accept_defaults: none },
                ),
            }
        },
        Open::Listener { addr, opts } => {
            if opts.backlog > 0x7fff_ffff {
                let steps: Vec<Step> = Vec::new();
                assert(steps@ =~= Seq::empty());
                return Plan { steps, outcome: Err(invalid()) };
            }
            Plan {
                steps: plan_bound(*addr, Some(opts.backlog as i32), opts.reuse_port),
                outcome: Ok(
                    Adopt {
                        kind: Some(Kind::Listener),
                        connect: false,
                        accept_defaults: opts.accept_defaults,
                    },
                ),
            }
        },
        Open::Udp { from, reuse_port } => Plan {
            steps: plan_bound(*from, None, *reuse_port),
            outcome: Ok(
                Adopt { kind: Some(Kind::Udp), connect: false, accept_defaults: none },
            ),
        },
    }
}

/// A datagram socket that was not asked to share lets nobody else have its address.
pub proof fn law_default_datagram_bind_is_exclusive(from: Endpoint, limit: int)
    ensures
        ({
            let steps = planned(Open::Udp { from, reuse_port: ReusePort::No }, limit).0;
            !steps.contains(Step::ReuseAddress) && !steps.contains(Step::SharePort)
        }),
{
    let steps = planned(Open::Udp { from, reuse_port: ReusePort::No }, limit).0;
    assert(steps =~= seq![
        Step::Socket { addr: from, datagram: true },
        Step::Bind(from),
    ]);
}

/// Every transport that is opened takes the calls it is for, each with its own address, backlog or
/// descriptor, and no others.
pub proof fn law_open_makes_the_calls_it_is_for(open: Open, limit: int, step: Step)
    requires
        planned(open, limit).1 is Ok,
    ensures
        planned(open, limit).0.contains(step) <==> match step {
            Step::Socket { addr, datagram } => match open {
                Open::Tcp { to, .. } => addr == to && !datagram,
                Open::Listener { addr: own, .. } => addr == own && !datagram,
                Open::Udp { from, .. } => addr == from && datagram,
                _ => false,
            },
            Step::LocalSocket => open is Pipe || open is PipeListener,
            Step::Duplicate(n) => match open {
                Open::Stdio(which) => n == match which {
                    Stdio::Stdin => 0u32,
                    Stdio::Stdout => 1u32,
                    Stdio::Stderr => 2u32,
                },
                _ => false,
            },
            Step::ReuseAddress => match open {
                Open::Listener { .. } => true,
                Open::Udp { reuse_port, .. } => reuse_port is Share,
                _ => false,
            },
            Step::SharePort => match open {
                Open::Listener { opts, .. } => opts.reuse_port is Share,
                Open::Udp { reuse_port, .. } => reuse_port is Share,
                _ => false,
            },
            Step::Bind(addr) => match open {
                Open::Listener { addr: own, .. } => addr == own,
                Open::Udp { from, .. } => addr == from,
                _ => false,
            },
            Step::BindName => open is PipeListener,
            Step::Listen(backlog) => match open {
                Open::Listener { opts, .. } => backlog == opts.backlog,
                Open::PipeListener { local, .. } => backlog == local.backlog,
                _ => false,
            },
            Step::NoDelay => match open {
                Open::Tcp { nodelay, .. } => nodelay,
                _ => false,
            },
        },
{
    let steps = planned(open, limit).0;
    if steps.len() > 0 {
        assert(steps.contains(steps[0]));
    }
    if steps.len() > 1 {
        assert(steps.contains(steps[1]));
    }
    if steps.len() > 2 {
        assert(steps.contains(steps[2]));
    }
    if steps.len() > 3 {
        assert(steps.contains(steps[3]));
    }
    if steps.len() > 4 {
        assert(steps.contains(steps[4]));
    }
}

/// How far a call is on the way from a new descriptor to one that is waited on: it is made, it
/// is set up, it gets its address, it listens.
pub open spec fn rank(step: Step) -> int {
    match step {
        Step::Socket { .. } | Step::LocalSocket | Step::Duplicate(_) => 0,
        Step::ReuseAddress | Step::SharePort | Step::NoDelay => 1,
        Step::Bind(_) | Step::BindName => 2,
        Step::Listen(_) => 3,
    }
}

/// A descriptor is made first and once, set up before it gets its address, and has its address
/// before it listens.
pub proof fn law_open_goes_step_by_step(open: Open, limit: int)
    ensures
        ({
            let steps = planned(open, limit).0;
            &&& forall|i: int, j: int|
                0 <= i < j < steps.len() ==> rank(#[trigger] steps[i]) <= rank(#[trigger] steps[j])
            &&& forall|i: int|
                0 <= i < steps.len() ==> (rank(#[trigger] steps[i]) == 0 <==> i == 0)
            &&& planned(open, limit).1 is Ok ==> steps.len() > 0
        }),
{
}

/// A transport is refused when its name cannot be held, when its backlog is too long, and where
/// a local listener is to share its name or to set what only connections have. What is opened
/// has the kind it was opened as, connects later where it names its peer, and sets on accepted
/// connections what its listener asked for.
pub proof fn law_open_is_refused_or_adopted(open: Open, limit: int)
    ensures
        ({
            let outcome = planned(open, limit).1;
            let named = |name: Seq<u8>| 0 < name.len() < limit && !name.contains(0);
            &&& outcome is Ok <==> match open {
                Open::Pipe(name) => named(name@),
                Open::PipeListener { name, local } => {
                    &&& named(name@)
                    &&& local.backlog <= i32::MAX
                    &&& !(local.reuse_port is Share)
                    &&& !local.accept_defaults.nodelay
                    &&& local.accept_defaults.keep_alive is None
                },
                Open::Listener { opts, .. } => opts.backlog <= i32::MAX,
                _ => true,
            }
            &&& outcome is Err ==> outcome->Err_0 == Error::plain(
                if open is PipeListener && (open->local.accept_defaults.nodelay
                    || open->local.accept_defaults.keep_alive is Some) {
                    ErrorKind::Unsupported
                } else {
                    ErrorKind::InvalidInput
                },
            )
            &&& outcome is Ok ==> {
                let adopt = outcome->Ok_0;
                &&& adopt.kind == match open {
                    Open::Pipe(_) => Some(Kind::Pipe),
                    Open::PipeListener { .. } => Some(Kind::PipeListener),
                    Open::Stdio(_) => None,
                    Open::Tcp { .. } => Some(Kind::Tcp),
                    Open::Listener { .. } => Some(Kind::Listener),
                    Open::Udp { .. } => Some(Kind::Udp),
                }
                &&& adopt.connect <==> open is Tcp || open is Pipe
                &&& open is Listener ==> adopt.accept_defaults == open->opts.accept_defaults
                &&& !(open is Listener) ==> !adopt.accept_defaults.nodelay
                    && adopt.accept_defaults.keep_alive is None
            }
        }),
{
}

/// The local flags of a terminal in a mode: as it was found, or as raw mode left them, with
/// signal keys unless every key is data.
pub fn local_flags(original: u64, raw: u64, signal_keys: u64, mode: TtyMode) -> (flags: u64)
    ensures
        flags == (match mode {
            TtyMode::Normal => original,
            TtyMode::Raw => raw | signal_keys,
            TtyMode::Io => raw,
        }),
{
    match mode {
        TtyMode::Normal => original,
        TtyMode::Raw => raw | signal_keys,
        TtyMode::Io => raw,
    }
}

} // verus!
