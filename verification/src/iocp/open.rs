//! How transports are opened, which program a name means, and the modes of a console.
use crate::iocp::io::Kind;
use crate::iocp::watch::{folded, same, same_name};
use crate::open::{Open, ReusePort, Stdio, TtyMode, WindowSize};
use crate::options::{accept_options, validate_accept_defaults, AcceptDefaults};
use crate::types::{invalid, unsupported, Endpoint, Error, ErrorKind};
use vstd::prelude::*;

verus! {

/// One call.
#[derive(Clone, Copy, Debug, PartialEq, Eq)]
pub enum Step {
    Socket { v6: bool, datagram: bool },
    /// Nobody else may have the address.
    Exclusive,
    Bind(Endpoint),
    /// Any port of any interface.
    BindAny { v6: bool },
    /// Fail connections to this machine at once instead of trying again.
    FastLoopback,
    NoDelay,
    Listen(i32),
    /// Check the name of the pipe.
    PipeName,
    /// Make the first instance of the pipe.
    FirstInstance,
    ConnectPipe,
    /// A duplicate of a standard handle.
    Duplicate(u32),
}

/// What the opened handle becomes; without a kind it is classified.
#[derive(Clone, Copy, Debug, PartialEq, Eq, Structural)]
pub struct Adopt {
    pub kind: Option<Kind>,
    /// The address is kept for the connect operation.
    pub connect: bool,
    /// What is set on every connection that a listener accepts.
    pub accept_defaults: AcceptDefaults,
}

/// Nothing is set on accepted connections.
pub open spec fn no_defaults() -> AcceptDefaults {
    AcceptDefaults { nodelay: false, keep_alive: None }
}

/// Calls in order, and what follows when all of them succeeded.
#[derive(Debug)]
pub struct Plan {
    pub steps: Vec<Step>,
    pub outcome: Result<Adopt, Error>,
}

/// An IPv6 endpoint.
pub open spec fn is_v6(addr: Endpoint) -> bool {
    addr is V6
}

/// An address of this machine itself.
pub open spec fn is_loopback(addr: Endpoint) -> bool {
    match addr {
        Endpoint::V4 { ip, .. } => ip@[0] == 127,
        Endpoint::V6 { segments, .. } => {
            &&& forall|i: int| 0 <= i < 7 ==> segments@[i] == 0
            &&& segments@[7] == 1
        },
    }
}

/// The most connections that may wait.
pub open spec fn clamped(backlog: u32) -> i32 {
    if backlog > i32::MAX {
        i32::MAX
    } else {
        backlog as i32
    }
}

/// How a transport is opened. Addresses are never shared.
pub open spec fn planned(open: Open) -> (Seq<Step>, Result<Adopt, Error>) {
    let refused = (Seq::<Step>::empty(), Err(Error::plain(ErrorKind::Unsupported)));
    match open {
        Open::Tcp { to, nodelay } => (
            seq![Step::Socket { v6: is_v6(to), datagram: false }, Step::BindAny { v6: is_v6(to) }] + (
            if is_loopback(to) {
                seq![Step::FastLoopback]
            } else {
                Seq::empty()
            }) + (if nodelay {
                seq![Step::NoDelay]
            } else {
                Seq::empty()
            }),
            Ok(Adopt { kind: Some(Kind::Tcp), connect: true, accept_defaults: no_defaults() }),
        ),
        Open::Listener { addr, opts } => if opts.reuse_port is Share {
            refused
        } else {
            (
                seq![
                    Step::Socket { v6: is_v6(addr), datagram: false },
                    Step::Exclusive,
                    Step::Bind(addr),
                    Step::Listen(clamped(opts.backlog)),
                ],
                Ok(
                    Adopt {
                        kind: Some(Kind::Listener),
                        connect: false,
                        accept_defaults: opts.accept_defaults,
                    },
                ),
            )
        },
        Open::Udp { from, reuse_port } => if reuse_port is Share {
            refused
        } else {
            (
                seq![Step::Socket { v6: is_v6(from), datagram: true }, Step::Bind(from)],
                Ok(Adopt { kind: Some(Kind::Udp), connect: false, accept_defaults: no_defaults() }),
            )
        },
        Open::PipeListener { local, .. } => if accept_options(local.accept_defaults).len() > 0
            || local.reuse_port is Share {
            refused
        } else {
            (
                seq![Step::PipeName, Step::FirstInstance],
                Ok(Adopt { kind: Some(Kind::PipeListener), connect: false, accept_defaults: no_defaults() }),
            )
        },
        Open::Pipe(_) => (
            seq![Step::PipeName, Step::ConnectPipe],
            Ok(Adopt { kind: Some(Kind::Pipe), connect: false, accept_defaults: no_defaults() }),
        ),
        Open::Stdio(which) => (
            seq![Step::Duplicate(which.spec_number())],
            Ok(Adopt { kind: None, connect: false, accept_defaults: no_defaults() }),
        ),
    }
}

fn v6(addr: &Endpoint) -> (yes: bool)
    ensures
        yes == is_v6(*addr),
{
    match addr {
        Endpoint::V4 { .. } => false,
        Endpoint::V6 { .. } => true,
    }
}

fn loopback(addr: &Endpoint) -> (yes: bool)
    ensures
        yes == is_loopback(*addr),
{
    match addr {
        Endpoint::V4 { ip, .. } => ip[0] == 127,
        Endpoint::V6 { segments, .. } => {
            let mut i: usize = 0;
            while i < 7
                invariant
                    i <= 7,
                    *addr is V6,
                    addr->segments == *segments,
                    forall|k: int| 0 <= k < i ==> segments@[k] == 0,
                decreases 7 - i,
            {
                if segments[i] != 0 {
                    assert(segments@[i as int] != 0);
                    return false;
                }
                i = i + 1;
            }
            segments[7] == 1
        },
    }
}

/// How a transport is opened.
pub fn plan(open: &Open) -> (plan: Plan)
    ensures
        (plan.steps@, plan.outcome) == planned(*open),
{
    let mut steps: Vec<Step> = Vec::new();
    let none = AcceptDefaults { nodelay: false, keep_alive: None };
    let outcome: Result<Adopt, Error> = match open {
        Open::Tcp { to, nodelay } => {
            steps.push(Step::Socket { v6: v6(to), datagram: false });
            steps.push(Step::BindAny { v6: v6(to) });
            if loopback(to) {
                steps.push(Step::FastLoopback);
            }
            if *nodelay {
                steps.push(Step::NoDelay);
            }
            Ok(Adopt { kind: Some(Kind::Tcp), connect: true, accept_defaults: none })
        },
        Open::Listener { addr, opts } => {
            if opts.reuse_port == ReusePort::Share {
                Err(unsupported())
            } else {
                steps.push(Step::Socket { v6: v6(addr), datagram: false });
                steps.push(Step::Exclusive);
                steps.push(Step::Bind(*addr));
                steps.push(
                    Step::Listen(
                        if opts.backlog > 0x7fff_ffff {
                            0x7fff_ffff
                        } else {
                            opts.backlog as i32
                        },
                    ),
                );
                Ok(
                    Adopt {
                        kind: Some(Kind::Listener),
                        connect: false,
                        accept_defaults: opts.accept_defaults,
                    },
                )
            }
        },
        Open::Udp { from, reuse_port } => {
            if *reuse_port == ReusePort::Share {
                Err(unsupported())
            } else {
                steps.push(Step::Socket { v6: v6(from), datagram: true });
                steps.push(Step::Bind(*from));
                Ok(Adopt { kind: Some(Kind::Udp), connect: false, accept_defaults: none })
            }
        },
        Open::PipeListener { local, .. } => {
            if let Err(e) = validate_accept_defaults(local.accept_defaults, false) {
                Err(e)
            } else if local.reuse_port == ReusePort::Share {
                Err(unsupported())
            } else {
                steps.push(Step::PipeName);
                steps.push(Step::FirstInstance);
                Ok(Adopt { kind: Some(Kind::PipeListener), connect: false, accept_defaults: none })
            }
        },
        Open::Pipe(_) => {
            steps.push(Step::PipeName);
            steps.push(Step::ConnectPipe);
            Ok(Adopt { kind: Some(Kind::Pipe), connect: false, accept_defaults: none })
        },
        Open::Stdio(which) => {
            steps.push(Step::Duplicate(which.number()));
            Ok(Adopt { kind: None, connect: false, accept_defaults: none })
        },
    };
    assert(steps@ =~= planned(*open).0);
    Plan { steps, outcome }
}

/// A variable of a new process.
#[derive(Debug)]
pub struct Variable {
    pub key: Vec<u16>,
    pub value: Vec<u16>,
}

/// `PATH`.
pub open spec fn path_key() -> Seq<u16> {
    seq![80u16, 65, 84, 72]
}

/// The last variable that is a search path, whatever the case of its name.
pub open spec fn last_path(env: Seq<Variable>) -> Option<int>
    decreases env.len(),
{
    if env.len() == 0 {
        None
    } else if same(env.last().key@, path_key()) {
        Some(env.len() - 1)
    } else {
        last_path(env.drop_last())
    }
}

/// Where the search path of a new process is.
#[derive(Clone, Copy, Debug, PartialEq, Eq, Structural)]
pub enum SearchPath {
    /// The value of this variable.
    Own(usize),
    /// The host's own.
    Host,
    Nowhere,
}

/// Where the search path of a new process is: its own variable, and only with the host's
/// environment the host's.
pub fn search_path(env: &Vec<Variable>, clear: bool) -> (found: SearchPath)
    ensures
        match last_path(env@) {
            Some(i) => found == SearchPath::Own(i as usize),
            None => found == if clear {
                SearchPath::Nowhere
            } else {
                SearchPath::Host
            },
        },
{
    let mut key: Vec<u16> = Vec::new();
    key.push(80);
    key.push(65);
    key.push(84);
    key.push(72);
    assert(key@ =~= path_key());
    let mut i: usize = env.len();
    assert(env@.take(i as int) =~= env@);
    while i > 0
        invariant
            i <= env@.len(),
            key@ == path_key(),
            last_path(env@) == last_path(env@.take(i as int)),
        decreases i,
    {
        proof {
            assert(env@.take(i as int).last() == env@[i - 1]);
            assert(env@.take(i as int).drop_last() =~= env@.take(i - 1));
        }
        if same_name(&env[i - 1].key, &key) {
            return SearchPath::Own(i - 1);
        }
        i = i - 1;
    }
    if clear {
        SearchPath::Nowhere
    } else {
        SearchPath::Host
    }
}

/// What was found for a program in one directory.
#[derive(Clone, Copy, Debug, PartialEq, Eq, Structural)]
pub struct Probe {
    /// The name as it is, is a file.
    pub plain: bool,
    /// The name has an extension.
    pub extended: bool,
    /// The name with `exe` is a file.
    pub executable: bool,
}

/// The program is in this directory.
pub open spec fn hit(p: Probe) -> bool {
    p.plain || (!p.extended && p.executable)
}

/// The first directory that has the program, and whether it is found under `exe`. Without
/// one the name stays as it is.
pub fn resolve(probes: &Vec<Probe>) -> (found: Option<(usize, bool)>)
    ensures
        match found {
            Some((i, exe)) => {
                &&& i < probes@.len()
                &&& hit(probes@[i as int])
                &&& exe == !probes@[i as int].plain
                &&& forall|k: int| 0 <= k < i ==> !hit(#[trigger] probes@[k])
            },
            None => forall|k: int| 0 <= k < probes@.len() ==> !hit(#[trigger] probes@[k]),
        },
{
    let mut i: usize = 0;
    while i < probes.len()
        invariant
            i <= probes@.len(),
            forall|k: int| 0 <= k < i ==> !hit(#[trigger] probes@[k]),
        decreases probes@.len() - i,
    {
        let p = probes[i];
        if p.plain {
            return Some((i, false));
        }
        if !p.extended && p.executable {
            return Some((i, true));
        }
        i = i + 1;
    }
    None
}

/// An extension that the command interpreter would run: `bat` or `cmd`.
pub open spec fn is_batch(extension: Seq<u16>) -> bool {
    same(extension, seq![66u16, 65, 84]) || same(
        extension,
        seq![67u16, 77, 68],
    )
}

/// Refuse batch files: the interpreter reads arguments by other rules than those they are
/// quoted by.
pub fn check_extension(extension: &Option<Vec<u16>>) -> (done: Result<(), Error>)
    ensures
        match done {
            Ok(_) => extension is None || !is_batch(extension->0@),
            Err(e) => extension is Some && is_batch(extension->0@) && e == Error::plain(
                ErrorKind::InvalidInput,
            ),
        },
{
    let Some(text) = extension else {
        return Ok(());
    };
    let mut bat: Vec<u16> = Vec::new();
    bat.push(66);
    bat.push(65);
    bat.push(84);
    assert(bat@ =~= seq![66u16, 65, 84]);
    let mut interpreter: Vec<u16> = Vec::new();
    interpreter.push(67);
    interpreter.push(77);
    interpreter.push(68);
    assert(interpreter@ =~= seq![67u16, 77, 68]);
    if same_name(text, &bat) || same_name(text, &interpreter) {
        return Err(invalid());
    }
    Ok(())
}

pub const ENABLE_PROCESSED_INPUT: u32 = 0x1;

pub const ENABLE_LINE_INPUT: u32 = 0x2;

pub const ENABLE_ECHO_INPUT: u32 = 0x4;

pub const ENABLE_WINDOW_INPUT: u32 = 0x8;

pub const ENABLE_QUICK_EDIT_MODE: u32 = 0x40;

pub const ENABLE_EXTENDED_FLAGS: u32 = 0x80;

pub const ENABLE_VIRTUAL_TERMINAL_INPUT: u32 = 0x200;

pub const ENABLE_PROCESSED_OUTPUT: u32 = 0x1;

pub const ENABLE_VIRTUAL_TERMINAL_PROCESSING: u32 = 0x4;

/// A console that is read key by key.
pub open spec fn raw_input(original: u32) -> u32 {
    (original | ENABLE_WINDOW_INPUT | ENABLE_VIRTUAL_TERMINAL_INPUT | ENABLE_EXTENDED_FLAGS) & !(
    ENABLE_LINE_INPUT | ENABLE_ECHO_INPUT | ENABLE_QUICK_EDIT_MODE)
}

/// The flags of a console in a mode.
pub open spec fn console_flags(original: u32, input: bool, mode: TtyMode) -> u32 {
    match mode {
        TtyMode::Normal => original,
        TtyMode::Raw => if input {
            raw_input(original)
        } else {
            original | ENABLE_PROCESSED_OUTPUT | ENABLE_VIRTUAL_TERMINAL_PROCESSING
        },
        TtyMode::Io => if input {
            raw_input(original) & !ENABLE_PROCESSED_INPUT
        } else {
            original | ENABLE_PROCESSED_OUTPUT | ENABLE_VIRTUAL_TERMINAL_PROCESSING
        },
    }
}

/// The flags of a console in a mode; what is no console has none.
pub fn tty_flags(original: Option<u32>, input: bool, mode: TtyMode) -> (flags: Result<u32, Error>)
    ensures
        match flags {
            Ok(f) => original is Some && f == console_flags(original->0, input, mode),
            Err(e) => original is None && e == Error::plain(ErrorKind::Unsupported),
        },
{
    let Some(original) = original else {
        return Err(unsupported());
    };
    if mode == TtyMode::Normal {
        return Ok(original);
    }
    if !input {
        return Ok(original | ENABLE_PROCESSED_OUTPUT | ENABLE_VIRTUAL_TERMINAL_PROCESSING);
    }
    let mut flags: u32 = (original | ENABLE_WINDOW_INPUT | ENABLE_VIRTUAL_TERMINAL_INPUT
        | ENABLE_EXTENDED_FLAGS) & !(ENABLE_LINE_INPUT | ENABLE_ECHO_INPUT
        | ENABLE_QUICK_EDIT_MODE);
    if mode == TtyMode::Io {
        flags = flags & !ENABLE_PROCESSED_INPUT;
    }
    Ok(flags)
}

/// Leaving a mode brings back what was found. No other mode reads lines, echoes or selects text;
/// keys come as sequences and the window tells its size. Only where every key is data are the keys
/// of signals too, and every flag that no mode is about stays as it was found.
pub proof fn law_modes_are_left_as_found(original: u32, mode: TtyMode)
    ensures
        console_flags(original, true, TtyMode::Normal) == original,
        console_flags(original, false, TtyMode::Normal) == original,
        !(mode is Normal) ==> {
            let input = console_flags(original, true, mode);
            let output = console_flags(original, false, mode);
            &&& input & (0x2u32 | 0x4u32) == 0
            &&& input & 0x40u32 == 0
            &&& input & 0x8u32 == 0x8
            &&& input & 0x80u32 == 0x80
            &&& input & 0x200u32 == 0x200
            &&& input & 0x1u32 == (if mode is Io {
                0
            } else {
                original & 0x1u32
            })
            &&& input & !0x2cfu32 == original & !0x2cfu32
            &&& output & 0x5u32 == 0x5
            &&& output & !0x5u32 == original & !0x5u32
        },
{
    let raw = (original | 0x8u32 | 0x200u32 | 0x80u32) & !(0x2u32 | 0x4u32 | 0x40u32);
    let io = raw & !0x1u32;
    let output = original | 0x1u32 | 0x4u32;
    assert(raw & (0x2u32 | 0x4u32) == 0 && raw & 0x40u32 == 0 && raw & 0x8u32 == 0x8 && raw
        & 0x80u32 == 0x80 && raw & 0x200u32 == 0x200 && raw & 0x1u32 == original & 0x1u32 && raw
        & !0x2cfu32 == original & !0x2cfu32) by (bit_vector)
        requires
            raw == (original | 0x8u32 | 0x200u32 | 0x80u32) & !(0x2u32 | 0x4u32 | 0x40u32),
    ;
    assert(io & (0x2u32 | 0x4u32) == 0 && io & 0x40u32 == 0 && io & 0x8u32 == 0x8 && io & 0x80u32
        == 0x80 && io & 0x200u32 == 0x200 && io & 0x1u32 == 0 && io & !0x2cfu32 == original
        & !0x2cfu32 && output & 0x5u32 == 0x5 && output & !0x5u32 == original & !0x5u32)
        by (bit_vector)
        requires
            io == ((original | 0x8u32 | 0x200u32 | 0x80u32) & !(0x2u32 | 0x4u32 | 0x40u32))
                & !0x1u32,
            output == original | 0x1u32 | 0x4u32,
    ;
}

/// Every transport that is opened takes the calls it is for, each with its own family, address,
/// backlog or handle, and no others.
pub proof fn law_open_makes_the_calls_it_is_for(open: Open, step: Step)
    requires
        planned(open).1 is Ok,
    ensures
        planned(open).0.contains(step) <==> match step {
            Step::Socket { v6, datagram } => match open {
                Open::Tcp { to, .. } => (v6 <==> to is V6) && !datagram,
                Open::Listener { addr, .. } => (v6 <==> addr is V6) && !datagram,
                Open::Udp { from, .. } => (v6 <==> from is V6) && datagram,
                _ => false,
            },
            Step::Exclusive => open is Listener,
            Step::Bind(addr) => match open {
                Open::Listener { addr: own, .. } => addr == own,
                Open::Udp { from, .. } => addr == from,
                _ => false,
            },
            Step::BindAny { v6 } => match open {
                Open::Tcp { to, .. } => v6 <==> to is V6,
                _ => false,
            },
            Step::FastLoopback => match open {
                Open::Tcp { to, .. } => match to {
                    Endpoint::V4 { ip, .. } => ip@[0] == 127,
                    Endpoint::V6 { segments, .. } => {
                        &&& forall|i: int| 0 <= i < 7 ==> segments@[i] == 0
                        &&& segments@[7] == 1
                    },
                },
                _ => false,
            },
            Step::NoDelay => match open {
                Open::Tcp { nodelay, .. } => nodelay,
                _ => false,
            },
            Step::Listen(n) => match open {
                Open::Listener { opts, .. } => if opts.backlog <= 0x7fff_ffff {
                    n == opts.backlog
                } else {
                    n == 0x7fff_ffff
                },
                _ => false,
            },
            Step::PipeName => open is Pipe || open is PipeListener,
            Step::FirstInstance => open is PipeListener,
            Step::ConnectPipe => open is Pipe,
            Step::Duplicate(n) => match open {
                Open::Stdio(which) => n == match which {
                    Stdio::Stdin => 0u32,
                    Stdio::Stdout => 1u32,
                    Stdio::Stderr => 2u32,
                },
                _ => false,
            },
        },
{
    let steps = planned(open).0;
    assert(steps.len() > 0 && steps.contains(steps[0]));
    if steps.len() > 1 {
        assert(steps.contains(steps[1]));
    }
    if steps.len() > 2 {
        assert(steps.contains(steps[2]));
    }
    if steps.len() > 3 {
        assert(steps.contains(steps[3]));
    }
}

/// How far a call is on the way from a new handle to one that is waited on: it is made or named,
/// it is made exclusive, it gets its address, it is set up, it listens.
pub open spec fn rank(step: Step) -> int {
    match step {
        Step::Socket { .. } | Step::PipeName | Step::Duplicate(_) => 0,
        Step::Exclusive => 1,
        Step::Bind(_) | Step::BindAny { .. } | Step::FirstInstance | Step::ConnectPipe => 2,
        Step::FastLoopback | Step::NoDelay | Step::Listen(_) => 3,
    }
}

/// A handle is made first and once, is exclusive before it gets its address, and has its address
/// before it listens.
pub proof fn law_open_goes_step_by_step(open: Open)
    ensures
        ({
            let steps = planned(open).0;
            &&& forall|i: int, j: int|
                0 <= i < j < steps.len() ==> rank(#[trigger] steps[i]) <= rank(#[trigger] steps[j])
            &&& forall|i: int|
                0 <= i < steps.len() ==> (rank(#[trigger] steps[i]) == 0 <==> i == 0)
        }),
{
}

/// Only addresses that are to be shared, and local listeners that set what only connections have,
/// are refused. What is opened has the kind it was opened as, connects later where it names its
/// peer, and sets on accepted connections what its listener asked for.
pub proof fn law_open_is_refused_or_adopted(open: Open)
    ensures
        ({
            let outcome = planned(open).1;
            &&& outcome is Err <==> match open {
                Open::PipeListener { local, .. } => local.reuse_port is Share
                    || local.accept_defaults.nodelay || local.accept_defaults.keep_alive is Some,
                Open::Listener { opts, .. } => opts.reuse_port is Share,
                Open::Udp { reuse_port, .. } => reuse_port is Share,
                _ => false,
            }
            &&& outcome is Err ==> outcome->Err_0 == Error::plain(ErrorKind::Unsupported)
                && planned(open).0.len() == 0
            &&& outcome is Ok ==> {
                let adopt = outcome->Ok_0;
                &&& adopt.kind == match open {
                    Open::Pipe(_) => Some(Kind::Pipe),
                    Open::PipeListener { .. } => Some(Kind::PipeListener),
                    Open::Stdio(_) => None,
                    Open::Tcp { .. } => Some(Kind::Tcp),
                    Open::Listener { .. } => Some(Kind::Listener),
                    Open::Udp { .. } => Some(Kind::Udp),
                }
                &&& adopt.connect <==> open is Tcp
                &&& open is Listener ==> adopt.accept_defaults == open->opts.accept_defaults
                &&& !(open is Listener) ==> !adopt.accept_defaults.nodelay
                    && adopt.accept_defaults.keep_alive is None
            }
        }),
{
}

/// The search path of a new process is the last of its variables that is called so: none behind
/// it is, and where there is none, none is called so.
pub proof fn law_last_path_counts(env: Seq<Variable>)
    ensures
        ({
            let path = seq![80u16, 65, 84, 72];
            match last_path(env) {
                Some(i) => {
                    &&& 0 <= i < env.len()
                    &&& same(env[i].key@, path)
                    &&& forall|k: int| i < k < env.len() ==> !same(#[trigger] env[k].key@, path)
                },
                None => forall|k: int|
                    0 <= k < env.len() ==> !same(#[trigger] env[k].key@, path),
            }
        }),
    decreases env.len(),
{
    if env.len() > 0 && !same(env.last().key@, path_key()) {
        law_last_path_counts(env.drop_last());
        assert forall|k: int| 0 <= k < env.len() - 1 implies env[k] == #[trigger] env.drop_last()[k] by {}
        let path = seq![80u16, 65, 84, 72];
        let last = match last_path(env) {
            Some(i) => i,
            None => -1,
        };
        assert forall|k: int| last < k < env.len() implies !same(#[trigger] env[k].key@, path) by {
            if k < env.len() - 1 {
                assert(env.drop_last()[k].key@ == env[k].key@);
            }
        }
    }
}

/// A window of a console, by its edges.
#[derive(Clone, Copy, Debug, PartialEq, Eq, Structural)]
pub struct Window {
    pub left: i16,
    pub top: i16,
    pub right: i16,
    pub bottom: i16,
}

/// How far apart two edges are, both counted, as an unsigned number of the same width.
pub open spec fn extent_of(first: i16, last: i16) -> int {
    if last - first + 1 < 0 {
        last - first + 1 + 0x10000
    } else {
        last - first + 1
    }
}

fn extent(first: i16, last: i16) -> (n: u16)
    requires
        i16::MIN <= last - first < i16::MAX,
    ensures
        n == extent_of(first, last),
{
    let n: i32 = last as i32 - first as i32 + 1;
    if n < 0 {
        (n + 0x10000) as u16
    } else {
        n as u16
    }
}

/// The size of a window. Its edges belong to it.
pub fn window_size(window: Window) -> (size: WindowSize)
    requires
        i16::MIN <= window.right - window.left < i16::MAX,
        i16::MIN <= window.bottom - window.top < i16::MAX,
    ensures
        size.columns == extent_of(window.left, window.right),
        size.rows == extent_of(window.top, window.bottom),
{
    WindowSize {
        columns: extent(window.left, window.right),
        rows: extent(window.top, window.bottom),
    }
}

/// A program is found under its own name, and one without an extension under `exe` too.
pub proof fn law_programs_are_found(p: Probe)
    ensures
        hit(p) <==> p.plain || (p.executable && !p.extended),
{
}

/// Batch files are told by their extension, whatever the case of its letters.
pub proof fn law_batch_files_are_told(extension: Seq<u16>)
    ensures
        is_batch(extension) <==> extension.len() == 3 && {
            let letter = |i: int, c: int| extension[i] == c || extension[i] == c + 32;
            ||| letter(0, 66) && letter(1, 65) && letter(2, 84)
            ||| letter(0, 67) && letter(1, 77) && letter(2, 68)
        },
{
    let bat = seq![66u16, 65, 84];
    let shell = seq![67u16, 77, 68];
    if same(extension, bat) {
        assert(folded(extension[0]) == folded(bat[0]) && folded(extension[1]) == folded(bat[1])
            && folded(extension[2]) == folded(bat[2]));
    }
    if same(extension, shell) {
        assert(folded(extension[0]) == folded(shell[0]) && folded(extension[1]) == folded(shell[1])
            && folded(extension[2]) == folded(shell[2]));
    }
}

/// Both edges of a window belong to it, and its extent is counted as the system counts: around the
/// end of sixteen bits.
pub proof fn law_edges_belong_to_the_window(first: i16, last: i16)
    requires
        i16::MIN <= last - first < i16::MAX,
    ensures
        first <= last ==> extent_of(first, last) == last - first + 1,
        extent_of(first, first) == 1,
        last < first ==> extent_of(first, last) == (last - first + 1 + 0x1_0000) % 0x1_0000,
        0 <= extent_of(first, last) <= 0xffff,
{
}

} // verus!
