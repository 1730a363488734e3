//! Identities, errors, requests and completions shared by every backend.
use crate::wasi::requests::FsOutput;
use vstd::prelude::*;

verus! {

/// Slots that one loop can address: the low half of a key.
pub const SLOT_SPAN: u64 = 0x1_0000_0000;

/// A generational resource identity. The low 32 bits of `key` name a slot and the
/// high 32 bits count how often that slot was reused.
#[derive(Clone, Copy, Debug, PartialEq, Eq, Structural)]
pub struct Handle {
    /// The loop that issued this identity.
    pub owner: u64,
    /// Slot in the low half, generation in the high half.
    pub key: u64,
}

impl Handle {
    /// The slot this handle occupies.
    pub open spec fn spec_index(self) -> int {
        (self.key % SLOT_SPAN) as int
    }

    /// The slot this handle occupies.
    pub fn index(&self) -> (slot: usize)
        ensures
            slot == self.spec_index(),
            slot < SLOT_SPAN,
    {
        (self.key % SLOT_SPAN) as usize
    }

    /// How often the slot was reused before this handle was issued.
    pub fn generation(&self) -> (generation: u64)
        ensures
            generation == self.key / SLOT_SPAN,
    {
        self.key / SLOT_SPAN
    }

    /// The whole key, as native readiness events carry it.
    pub fn key(&self) -> (key: u64)
        ensures
            key == self.key,
    {
        self.key
    }
}

/// A generational operation identity, built like [`Handle`].
#[derive(Clone, Copy, Debug, PartialEq, Eq, Structural)]
pub struct OpId {
    /// The loop that issued this identity.
    pub owner: u64,
    /// Slot in the low half, generation in the high half.
    pub key: u64,
}

impl OpId {
    /// The slot this operation occupies.
    pub open spec fn spec_index(self) -> int {
        (self.key % SLOT_SPAN) as int
    }

    /// The slot this operation occupies.
    pub fn index(&self) -> (slot: usize)
        ensures
            slot == self.spec_index(),
            slot < SLOT_SPAN,
    {
        (self.key % SLOT_SPAN) as usize
    }
}

/// Two handles of one loop that share a slot and a generation are the same handle.
pub proof fn law_generation_separates_reused_slots(a: Handle, b: Handle)
    requires
        a.owner == b.owner,
        a.spec_index() == b.spec_index(),
    ensures
        a == b <==> a.key / SLOT_SPAN == b.key / SLOT_SPAN,
{
    assert(a.key == SLOT_SPAN * (a.key / SLOT_SPAN) + a.key % SLOT_SPAN) by (nonlinear_arith);
    assert(b.key == SLOT_SPAN * (b.key / SLOT_SPAN) + b.key % SLOT_SPAN) by (nonlinear_arith);
}

/// A key is its slot and, above it, how often that slot was used before: two that agree in both are
/// one key, for handles and for operations.
pub proof fn law_key_tells_slot_and_generation(handle: Handle, op: OpId)
    ensures
        0 <= handle.spec_index() < 4_294_967_296,
        handle.key == handle.spec_index() + 4_294_967_296 * (handle.key / SLOT_SPAN),
        0 <= op.spec_index() < 4_294_967_296,
        op.key == op.spec_index() + 4_294_967_296 * (op.key / SLOT_SPAN),
{
}

/// Portable classification of a failure.
#[derive(Clone, Copy, Debug, PartialEq, Eq, Structural)]
pub enum ErrorKind {
    AlreadyExists,
    BrokenPipe,
    Cancelled,
    ConnectionRefused,
    ConnectionReset,
    DirectoryNotEmpty,
    Interrupted,
    InvalidInput,
    IsADirectory,
    NotADirectory,
    NotFound,
    Other,
    PermissionDenied,
    ResourceLimit,
    TimedOut,
    Unsupported,
    WouldBlock,
}

/// A failure: its portable kind and the native code behind it, if there is one.
#[derive(Clone, Copy, Debug, PartialEq, Eq, Structural)]
pub struct Error {
    pub kind: ErrorKind,
    pub os: Option<i32>,
}

impl Error {
    /// A failure that no native code stands behind.
    pub open spec fn plain(kind: ErrorKind) -> Error {
        Error { kind, os: None }
    }

    /// A failure that no native code stands behind.
    pub fn new(kind: ErrorKind) -> (error: Error)
        ensures
            error == Error::plain(kind),
    {
        Error { kind, os: None }
    }
}

/// The request was malformed or met a slot in the wrong state.
pub fn invalid() -> (error: Error)
    ensures
        error == Error::plain(ErrorKind::InvalidInput),
{
    Error::new(ErrorKind::InvalidInput)
}

/// The resource has no such capability.
pub fn unsupported() -> (error: Error)
    ensures
        error == Error::plain(ErrorKind::Unsupported),
{
    Error::new(ErrorKind::Unsupported)
}

/// An IP endpoint.
#[derive(Clone, Copy, Debug, PartialEq, Eq)]
pub enum Endpoint {
    V4 { ip: [u8; 4], port: u16 },
    V6 { segments: [u16; 8], port: u16, flow: u32, scope: u32 },
}

/// Where a read puts its bytes: caller memory of a known size, or a pool buffer.
#[derive(Clone, Copy, Debug, PartialEq, Eq, Structural)]
pub enum ReadBuf {
    Provided(usize),
    Pooled,
}

/// A requested operation. Payload bytes stay with the host; the rules read lengths.
#[derive(Debug)]
pub enum Operation {
    /// Observe a process until its exit has been reaped.
    ProcessExit,
    /// Multishot subscription to a signal resource.
    WatchSignal,
    /// Multishot subscription to a file-system watch.
    WatchFs,
    /// Duplicate a transport into the receiving process.
    SendHandle(Handle),
    /// Receive one transport over a local stream.
    RecvHandle,
    /// Establish the connection configured when the stream was opened.
    Connect,
    /// Accept one connection, or keep accepting.
    Accept { multishot: bool },
    /// Read bytes once, or keep reading.
    Read { buf: ReadBuf, multishot: bool },
    /// Write one buffer of this length completely.
    Write(usize),
    /// Write the segments of these lengths completely and in order.
    Writev(Vec<usize>),
    /// Send one datagram of this length.
    SendTo { len: usize, to: Endpoint },
    /// Receive one datagram.
    RecvFrom(ReadBuf),
    /// Close the write side after the writes queued before it.
    Shutdown,
}

/// The two independent queues of a resource.
#[derive(Clone, Copy, Debug, PartialEq, Eq, Structural)]
pub enum Direction {
    In,
    Out,
}

impl Operation {
    /// Accepts and receives consume input; everything else produces output.
    pub open spec fn spec_direction(&self) -> Direction {
        match self {
            Operation::Accept { .. } | Operation::Read { .. } | Operation::RecvFrom(_)
            | Operation::RecvHandle => Direction::In,
            _ => Direction::Out,
        }
    }

    /// Accepts and receives consume input; everything else produces output.
    pub fn direction(&self) -> (direction: Direction)
        ensures
            direction == self.spec_direction(),
    {
        match self {
            Operation::Accept { .. } => Direction::In,
            Operation::Read { .. } => Direction::In,
            Operation::RecvFrom(_) => Direction::In,
            Operation::RecvHandle => Direction::In,
            _ => Direction::Out,
        }
    }
}

/// Connections, bytes, datagrams and handles that come are waited for in one direction, and what is
/// made, sent or ended is waited for in the other.
pub proof fn law_what_comes_is_input(op: Operation)
    ensures
        op is Accept || op is Read || op is RecvFrom || op is RecvHandle ==> op.spec_direction()
            == Direction::In,
        op is Connect || op is Write || op is Writev || op is SendTo || op is SendHandle || op
            is Shutdown ==> op.spec_direction() == Direction::Out,
{
}

/// One operation, keyed by its full generational identity.
#[derive(Debug)]
pub struct Request {
    pub op: OpId,
    pub handle: Handle,
    pub operation: Operation,
}

/// How a child ended.
#[derive(Clone, Copy, Debug, PartialEq, Eq, Structural)]
pub struct ExitStatus {
    pub code: Option<i32>,
    pub signal: Option<i32>,
}

/// Where a standard stream of the child comes from.
#[derive(Clone, Copy, Debug, PartialEq, Eq, Structural)]
pub enum ProcessStdio {
    Inherit,
    Null,
    Pipe,
    Handle(Handle),
}

/// Where an extra descriptor of the child comes from.
#[derive(Clone, Copy, Debug, PartialEq, Eq, Structural)]
pub enum ChildFdSource {
    Null,
    Pipe,
    Duplex,
    Handle(Handle),
}

/// An extra descriptor: its number in the child and its source.
#[derive(Clone, Copy, Debug, PartialEq, Eq, Structural)]
pub struct ChildFd {
    pub number: u32,
    pub source: ChildFdSource,
}

/// Portable signal names.
#[derive(Clone, Copy, Debug, PartialEq, Eq, Structural)]
pub enum Signal {
    Int,
    Term,
    Hup,
    Kill,
    Break,
    Chld,
    WinCh,
    Usr1,
    Usr2,
}

/// A pool buffer held by a completion.
#[derive(Clone, Copy, Debug, PartialEq, Eq, Structural)]
pub struct Lease {
    pub id: u64,
}

/// What an operation achieved. `D` is the host's owning transport.
#[derive(Debug)]
pub enum Outcome<D> {
    /// Reaped child termination.
    Exited(ExitStatus),
    /// Coalesced signal delivery.
    Signal(Signal),
    /// Changes of a watched path; `overflow` tells that some were lost.
    Watch { events: Lease, overflow: bool },
    /// Accepted local connection.
    PipeAccepted(D),
    /// Received transport ownership.
    HandleReceived(D),
    /// One transport was passed.
    HandleSent,
    /// The connection is established.
    Connected,
    /// An incoming connection with its peer.
    Accepted { transport: D, peer: Endpoint },
    /// Bytes arrived.
    Read { n: usize, lease: Option<Lease> },
    /// The readable stream ended.
    Eof,
    /// All bytes were written.
    Wrote(usize),
    /// One datagram arrived.
    RecvFrom { n: usize, from: Endpoint, lease: Option<Lease> },
    /// Addresses of a name.
    Resolved(Vec<Endpoint>),
    /// A file-system request ran.
    Fs { output: FsOutput, lease: Option<Lease> },
    /// The write side is closed.
    Shutdown,
    /// The operation was cancelled and touches no memory any more.
    Cancelled,
}

/// A completion. A terminal one is the last of its operation.
#[derive(Debug)]
pub struct Event<D> {
    pub op: OpId,
    pub terminal: bool,
    pub result: Result<Outcome<D>, Error>,
}

/// The terminal acknowledgement of a cancelled operation.
pub open spec fn cancelled_event<D>(op: OpId) -> Event<D> {
    Event { op, terminal: true, result: Ok(Outcome::Cancelled) }
}

/// Completions of one turn. It never grows past the room the host gave it.
#[derive(Debug)]
pub struct Completions<D> {
    items: Vec<Event<D>>,
    limit: usize,
}

impl<D> View for Completions<D> {
    type V = Seq<Event<D>>;

    closed spec fn view(&self) -> Seq<Event<D>> {
        self.items@
    }
}

impl<D> Completions<D> {
    /// The most completions this value holds.
    pub closed spec fn capacity(&self) -> nat {
        self.limit as nat
    }

    #[verifier::type_invariant]
    closed spec fn bounded(&self) -> bool {
        self.items@.len() <= self.limit
    }

    /// Nothing yet, with room for `limit` completions.
    pub fn with_capacity(limit: usize) -> (events: Self)
        ensures
            events@ == Seq::<Event<D>>::empty(),
            events.capacity() == limit,
    {
        Completions { items: Vec::new(), limit }
    }

    /// Completions appended so far.
    pub fn len(&self) -> (n: usize)
        ensures
            n == self@.len(),
            n <= self.capacity(),
    {
        proof {
            use_type_invariant(self);
        }
        self.items.len()
    }

    /// Whether another completion fits.
    pub fn has_room(&self) -> (room: bool)
        ensures
            room == (self@.len() < self.capacity()),
    {
        self.items.len() < self.limit
    }

    /// The completion at `i`.
    pub fn get(&self, i: usize) -> (event: Option<&Event<D>>)
        ensures
            match event {
                Some(e) => i < self@.len() && *e == self@[i as int],
                None => i >= self@.len(),
            },
    {
        if i < self.items.len() {
            Some(&self.items[i])
        } else {
            None
        }
    }

    /// Append one completion.
    pub fn push(&mut self, event: Event<D>)
        requires
            old(self)@.len() < old(self).capacity(),
        ensures
            final(self)@ == old(self)@.push(event),
            final(self).capacity() == old(self).capacity(),
    {
        let mut items: Vec<Event<D>> = Vec::new();
        core::mem::swap(&mut items, &mut self.items);
        items.push(event);
        self.items = items;
    }

    /// Take every completion out.
    pub fn take(&mut self) -> (items: Vec<Event<D>>)
        ensures
            items@ == old(self)@,
            final(self)@ == Seq::<Event<D>>::empty(),
            final(self).capacity() == old(self).capacity(),
    {
        let mut items: Vec<Event<D>> = Vec::new();
        core::mem::swap(&mut items, &mut self.items);
        items
    }
}

/// Instrumentation of one turn's wait.
#[derive(Clone, Copy, Debug, PartialEq, Eq, Structural)]
pub struct PollInfo {
    /// Blocking waits, at most one.
    pub waits: u32,
    /// Nonblocking looks at the native queue.
    pub discovery_polls: u32,
    /// Waits that saw neither native work nor a notification.
    pub zero_event_waits: u32,
}

impl Default for PollInfo {
    /// No wait took place.
    fn default() -> (info: Self)
        ensures
            info == (PollInfo { waits: 0, discovery_polls: 0, zero_event_waits: 0 }),
    {
        PollInfo { waits: 0, discovery_polls: 0, zero_event_waits: 0 }
    }
}

impl PollInfo {
    /// One native call: a zero timeout only discovers, any other one waits.
    pub fn native(zero_timeout: bool, empty: bool) -> (info: Self)
        ensures
            info.waits + info.discovery_polls == 1,
            info.discovery_polls == 1 <==> zero_timeout,
            info.zero_event_waits == (if empty { 1u32 } else { 0u32 }),
    {
        PollInfo {
            waits: if zero_timeout { 0 } else { 1 },
            discovery_polls: if zero_timeout { 1 } else { 0 },
            zero_event_waits: if empty { 1 } else { 0 },
        }
    }

    /// One call of the wait primitive, whatever its timeout was.
    pub fn waited(empty: bool) -> (info: Self)
        ensures
            info == (PollInfo {
                waits: 1,
                discovery_polls: 0,
                zero_event_waits: if empty { 1u32 } else { 0u32 },
            }),
    {
        PollInfo { waits: 1, discovery_polls: 0, zero_event_waits: if empty { 1 } else { 0 } }
    }
}

/// A length of time: whole seconds and the nanoseconds of the last, started one.
#[derive(Clone, Copy, Debug, PartialEq, Eq, Structural)]
pub struct Span {
    pub secs: u64,
    pub nanos: u32,
}

/// Nanoseconds in a second.
pub const NANOS: u32 = 1_000_000_000;

impl Span {
    /// The nanoseconds stay below a second.
    pub open spec fn wf(self) -> bool {
        self.nanos < NANOS
    }

    /// The length in nanoseconds.
    pub open spec fn total_nanos(self) -> int {
        self.secs * 1_000_000_000 + self.nanos
    }

    /// The length in nanoseconds.
    pub fn as_nanos(&self) -> (n: u128)
        ensures
            n == self.total_nanos(),
    {
        (self.secs as u128) * 1_000_000_000 + (self.nanos as u128)
    }

    /// Whether no time passes.
    pub fn is_zero(&self) -> (zero: bool)
        ensures
            zero == (self.total_nanos() == 0),
    {
        self.secs == 0 && self.nanos == 0
    }
}

/// Spans are ordered by their seconds, and by their nanoseconds where those are the same. A second
/// is a thousand million nanoseconds, and a nanosecond is one.
pub proof fn law_spans_are_ordered(a: Span, b: Span)
    requires
        a.wf(),
        b.wf(),
    ensures
        a.total_nanos() < b.total_nanos() <==> a.secs < b.secs || a.secs == b.secs && a.nanos
            < b.nanos,
        a.total_nanos() == b.total_nanos() <==> a == b,
        a.secs + 1 == b.secs && a.nanos == b.nanos ==> b.total_nanos() - a.total_nanos()
            == 1_000_000_000,
        a.secs == b.secs ==> b.total_nanos() - a.total_nanos() == b.nanos - a.nanos,
{
}

/// The endpoint that ends a parked wait from another thread.
pub trait Wake {
    /// End the native wait. Called only after the notifier observed a parked loop.
    fn wake(&self) -> Result<(), Error>;

    /// Native wake calls so far, failed ones included.
    fn syscall_count(&self) -> u64;
}

} // verus!
