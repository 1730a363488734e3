//! Which call an operation needs next, and what its reply means.
use crate::payload::{
    covered, law_remaining_is_exact, length, payload, remaining, segments, Attempt, Segment,
};
use crate::types::{
    invalid, unsupported, Direction, Endpoint, Error, ErrorKind, Handle, Lease, Operation, Outcome, ReadBuf,
    Request,
};
use vstd::prelude::*;

verus! {

/// What a descriptor is.
#[derive(Clone, Copy, Debug, PartialEq, Eq, Structural)]
pub enum Kind {
    Tcp,
    Pipe,
    PipeListener,
    Stream,
    File,
    Listener,
    Udp,
    /// Standard input of a component.
    Stdin,
    /// Standard output or error of a component.
    Stdout,
}

/// One registered descriptor.
#[derive(Clone, Copy, Debug, PartialEq, Eq, Structural)]
pub struct Resource {
    pub handle: Handle,
    pub kind: Kind,
    /// A connection target is still to be used.
    pub connect: bool,
    /// The connection was started and is not finished.
    pub connecting: bool,
    /// Reading may succeed: cached until a read says otherwise.
    pub ready_in: bool,
    /// Writing may succeed: cached until a write says otherwise.
    pub ready_out: bool,
    /// The handle stands in the ready queue.
    pub queued: bool,
}

impl Resource {
    /// The cached readiness of one direction.
    pub open spec fn spec_ready(self, d: Direction) -> bool {
        match d {
            Direction::In => self.ready_in,
            Direction::Out => self.ready_out,
        }
    }

    /// The cached readiness of one direction.
    pub fn ready(&self, d: Direction) -> (ready: bool)
        ensures
            ready == self.spec_ready(d),
    {
        match d {
            Direction::In => self.ready_in,
            Direction::Out => self.ready_out,
        }
    }

    /// The same resource with one direction known to block.
    pub open spec fn blocked(self, d: Direction) -> Resource {
        match d {
            Direction::In => Resource { ready_in: false, ..self },
            Direction::Out => Resource { ready_out: false, ..self },
        }
    }

    /// The same resource with one direction to be tried again.
    pub open spec fn refreshed(self, d: Direction) -> Resource {
        match d {
            Direction::In => Resource { ready_in: true, ..self },
            Direction::Out => Resource { ready_out: true, ..self },
        }
    }
}

/// One accepted operation.
#[derive(Debug)]
pub struct Pending {
    pub request: Request,
    /// Bytes already written.
    pub offset: usize,
    /// All bytes are written and the stream was asked to flush them.
    pub flushing: bool,
    /// Unlinked, and owed only its cancellation acknowledgement.
    pub cancelled: bool,
}

/// How far a writing operation is.
#[derive(Clone, Copy, Debug, PartialEq, Eq, Structural)]
pub struct Progress {
    pub offset: usize,
    pub flushing: bool,
}

/// Whose calls an engine makes.
#[derive(Clone, Copy, Debug, PartialEq, Eq, Structural)]
pub enum Rules {
    /// System calls, with the error numbers that steer an operation.
    Native { interrupted: i32, in_progress: i32 },
    /// Imports of a component that polls.
    Component,
    /// Asynchronous imports of a component. What each operation waits for is kept beside the
    /// engine, which is told how an attempt went.
    Async,
}

/// The call did nothing and can be made again.
pub open spec fn is_interruption(error: Error, rules: Rules) -> bool {
    match rules {
        Rules::Native { interrupted, .. } => error.os == Some(interrupted),
        _ => false,
    }
}

/// Whether a call did nothing and can be made again.
pub fn interruption(error: &Error, rules: Rules) -> (yes: bool)
    ensures
        yes == is_interruption(*error, rules),
{
    match rules {
        Rules::Native { interrupted, .. } => error.os == Some(interrupted),
        _ => false,
    }
}

/// The call an operation needs next.
#[derive(Debug)]
pub enum Call {
    /// None: the rules already decide.
    Settled,
    /// Start the configured connection.
    Connect,
    /// Ask the socket how its connection attempt ended.
    SocketStatus,
    /// Start the configured connection, and try to finish it.
    StartConnect,
    /// Try to finish the connection.
    FinishConnect,
    SendHandle,
    RecvHandle,
    AcceptPipe,
    Accept,
    Read(ReadBuf),
    RecvFrom(ReadBuf),
    /// Write bytes from `offset`; `plain` descriptors take no socket flags.
    Write { offset: usize, len: usize, plain: bool },
    Writev { segments: Vec<Segment>, plain: bool },
    SendTo { len: usize, to: Endpoint },
    Shutdown,
    /// Ask a stream how much it takes, then do what [`stream_step`] says. `first` is the part
    /// to go on with, `left` all that is left.
    Stream { first: Option<Segment>, left: usize, flushing: bool },
    /// Go on with what the operation waits for.
    Drive,
}

/// What the host reports of a call.
#[derive(Debug)]
pub enum Reply<D> {
    /// No call was needed.
    Nothing,
    /// The call failed.
    Failed(Error),
    /// The call succeeded and returned nothing of interest.
    Done,
    /// The pending error number of a socket, with its portable form.
    Status { code: i32, error: Error },
    /// Bytes transferred by a write.
    Count(usize),
    /// Bytes received, and the pool buffer they are in.
    Bytes { n: usize, lease: Option<Lease> },
    /// A datagram received, with its decoded sender.
    Datagram { n: usize, from: Result<Endpoint, Error>, lease: Option<Lease> },
    /// The pool had no buffer; nothing was called.
    NoBuffer,
    /// A connection with its peer.
    Accepted { transport: D, peer: Endpoint },
    /// A local connection, or a transport received over one.
    Transport(D),
    /// The connection was started; how finishing it went.
    Started(Result<(), Error>),
    /// A stream took so much at most; how writing and flushing went, where they were due.
    Streamed { permitted: usize, wrote: Result<(), Error>, flushed: Result<(), Error> },
    /// The other side ended the stream.
    Closed,
    /// How an asynchronous attempt went. One that has to wait would block.
    Driven { offset: usize, attempt: Attempt<D> },
}

/// What to do with a stream that takes so many bytes.
#[derive(Clone, Copy, Debug, PartialEq, Eq, Structural)]
pub enum StreamStep {
    /// Nothing: it takes none.
    Blocked,
    /// Nothing: what was written is flushed.
    Flushed,
    /// Write so many bytes of the first part, none is no write; then flush, or not.
    Write { n: usize, flush: bool },
}

/// Bytes of the first part that are left.
pub open spec fn first_left(op: Operation, offset: int) -> int {
    match op {
        Operation::Write(len) => len - offset,
        Operation::Writev(lens) => {
            let parts = remaining(lens@, 0, offset);
            if parts.len() == 0 {
                0
            } else {
                parts[0].len as int
            }
        },
        _ => 0,
    }
}

/// What is written of so many bytes.
pub open spec fn portion(left: int, permitted: int) -> int {
    if left < permitted {
        left
    } else {
        permitted
    }
}

/// What to do with a stream that takes so many bytes.
pub fn stream_step(first: Option<Segment>, left: usize, flushing: bool, permitted: usize) -> (step:
    StreamStep)
    requires
        match first {
            Some(part) => part.len <= left,
            None => true,
        },
    ensures
        step == (if permitted == 0 {
            StreamStep::Blocked
        } else if flushing {
            StreamStep::Flushed
        } else {
            let n = portion(
                match first {
                    Some(part) => part.len as int,
                    None => 0,
                },
                permitted as int,
            );
            StreamStep::Write { n: n as usize, flush: n == left }
        }),
{
    if permitted == 0 {
        return StreamStep::Blocked;
    }
    if flushing {
        return StreamStep::Flushed;
    }
    let part: usize = match first {
        Some(part) => part.len,
        None => 0,
    };
    let n: usize = if part < permitted {
        part
    } else {
        permitted
    };
    StreamStep::Write { n, flush: n == left }
}

/// The first part of what is left is no more than that.
pub proof fn lemma_first_left(op: Operation, offset: int)
    requires
        op is Write || op is Writev,
        0 <= offset <= payload(op) <= usize::MAX,
    ensures
        0 <= first_left(op, offset) <= payload(op) - offset,
        first_left(op, offset) == 0 ==> offset == payload(op),
{
    if let Operation::Writev(lens) = op {
        assert(lens@.take(0) =~= Seq::empty());
        law_remaining_is_exact(lens@, 0, offset);
        let parts = remaining(lens@, 0, offset);
        lemma_parts(lens@, 0, offset);
        if parts.len() > 0 {
            lemma_covered(parts.drop_first());
        }
    }
}

/// Parts are never empty.
pub proof fn lemma_parts(lens: Seq<usize>, from: int, skip: int)
    requires
        skip >= 0,
    ensures
        forall|k: int|
            0 <= k < remaining(lens, from, skip).len() ==> (#[trigger] remaining(
                lens,
                from,
                skip,
            )[k]).len > 0,
    decreases lens.len() - from,
{
    if 0 <= from < lens.len() {
        if skip >= lens[from] {
            lemma_parts(lens, from + 1, skip - lens[from]);
            assert(remaining(lens, from, skip) == remaining(lens, from + 1, skip - lens[from]));
        } else {
            lemma_parts(lens, from + 1, 0);
            let parts = remaining(lens, from, skip);
            let rest = remaining(lens, from + 1, 0);
            let part = Segment {
                index: from as usize,
                skip: skip as usize,
                len: (lens[from] - skip) as usize,
            };
            assert(parts == seq![part] + rest);
            assert forall|k: int| 0 <= k < parts.len() implies (#[trigger] parts[k]).len > 0 by {
                if k > 0 {
                    assert(parts[k] == rest[k - 1]);
                }
            }
        }
    }
}

proof fn lemma_covered(parts: Seq<Segment>)
    ensures
        covered(parts) >= 0,
    decreases parts.len(),
{
    if parts.len() > 0 {
        lemma_covered(parts.drop_first());
    }
}

/// An operation whose payload is addressable and not overrun by its progress.
pub open spec fn in_bounds(p: Pending) -> bool {
    &&& p.offset <= payload(p.request.operation) <= usize::MAX
    &&& p.flushing ==> p.offset == payload(p.request.operation)
}

/// Whether `call` is the one that `p` needs on `r`.
pub open spec fn needs(r: Resource, p: Pending, rules: Rules, call: Call) -> bool {
    match rules {
        Rules::Native { .. } => needs_native(r, p, call),
        Rules::Component => needs_import(r, p, call),
        Rules::Async => call is Drive,
    }
}

/// The import that a component needs.
pub open spec fn needs_import(r: Resource, p: Pending, call: Call) -> bool {
    match p.request.operation {
        Operation::Connect => if r.connecting {
            call is FinishConnect
        } else if r.connect {
            call is StartConnect
        } else {
            call is Settled
        },
        Operation::Accept { .. } => call is Accept,
        Operation::Read { buf, .. } => call == Call::Read(buf),
        Operation::RecvFrom(buf) => call == Call::RecvFrom(buf),
        Operation::Write(_) | Operation::Writev(_) => match call {
            Call::Stream { first, left, flushing } => {
                &&& flushing == p.flushing
                &&& left == payload(p.request.operation) - p.offset
                &&& match first {
                    Some(part) => part.len == first_left(p.request.operation, p.offset as int)
                        && part.len > 0 && match p.request.operation {
                        Operation::Writev(lens) => part == remaining(
                            lens@,
                            0,
                            p.offset as int,
                        )[0],
                        _ => part.index == 0 && part.skip == p.offset,
                    },
                    None => first_left(p.request.operation, p.offset as int) == 0,
                }
            },
            _ => false,
        },
        Operation::SendTo { len, to } => call == Call::SendTo { len, to },
        Operation::Shutdown => call is Shutdown,
        _ => call is Settled,
    }
}

/// The system call that a descriptor needs.
pub open spec fn needs_native(r: Resource, p: Pending, call: Call) -> bool {
    let plain = r.kind == Kind::Stream || r.kind == Kind::File;
    match p.request.operation {
        Operation::ProcessExit | Operation::WatchSignal | Operation::WatchFs => call is Settled,
        Operation::Connect => if r.connecting {
            call is SocketStatus
        } else if r.connect {
            call is Connect
        } else {
            call is Settled
        },
        Operation::SendHandle(_) => call is SendHandle,
        Operation::RecvHandle => call is RecvHandle,
        Operation::Accept { .. } => if r.kind == Kind::PipeListener {
            call is AcceptPipe
        } else {
            call is Accept
        },
        Operation::Read { buf, .. } => call == Call::Read(buf),
        Operation::RecvFrom(buf) => call == Call::RecvFrom(buf),
        Operation::Write(len) => if p.offset == len {
            call is Settled
        } else {
            call == Call::Write { offset: p.offset, len: (len - p.offset) as usize, plain }
        },
        Operation::Writev(lens) => {
            let parts = remaining(lens@, 0, p.offset as int);
            if parts.len() == 0 {
                call is Settled
            } else {
                call matches Call::Writev { segments, plain: flag } && segments@ == parts && flag
                    == plain
            }
        },
        Operation::SendTo { len, to } => call == Call::SendTo { len, to },
        Operation::Shutdown => call is Shutdown,
    }
}

/// Choose the call that `p` needs next on `r`.
pub fn plan(r: &Resource, p: &Pending, rules: Rules) -> (call: Call)
    requires
        in_bounds(*p),
    ensures
        needs(*r, *p, rules, call),
{
    match rules {
        Rules::Native { .. } => plan_native(r, p),
        Rules::Component => plan_import(r, p),
        Rules::Async => Call::Drive,
    }
}

fn plan_import(r: &Resource, p: &Pending) -> (call: Call)
    requires
        in_bounds(*p),
    ensures
        needs_import(*r, *p, call),
{
    match &p.request.operation {
        Operation::Connect => if r.connecting {
            Call::FinishConnect
        } else if r.connect {
            Call::StartConnect
        } else {
            Call::Settled
        },
        Operation::Accept { .. } => Call::Accept,
        Operation::Read { buf, .. } => Call::Read(*buf),
        Operation::RecvFrom(buf) => Call::RecvFrom(*buf),
        Operation::Write(len) => {
            let left: usize = *len - p.offset;
            let first = if left == 0 {
                None
            } else {
                Some(Segment { index: 0, skip: p.offset, len: left })
            };
            Call::Stream { first, left, flushing: p.flushing }
        },
        Operation::Writev(lens) => {
            let parts = segments(lens, p.offset);
            proof {
                lemma_first_left(p.request.operation, p.offset as int);
                lemma_parts(lens@, 0, p.offset as int);
            }
            let first = if parts.len() == 0 {
                None
            } else {
                Some(parts[0])
            };
            Call::Stream { first, left: length(lens) - p.offset, flushing: p.flushing }
        },
        Operation::SendTo { len, to } => Call::SendTo { len: *len, to: *to },
        Operation::Shutdown => Call::Shutdown,
        _ => Call::Settled,
    }
}

fn plan_native(r: &Resource, p: &Pending) -> (call: Call)
    requires
        in_bounds(*p),
    ensures
        needs_native(*r, *p, call),
{
    let plain = r.kind == Kind::Stream || r.kind == Kind::File;
    match &p.request.operation {
        Operation::ProcessExit => Call::Settled,
        Operation::WatchSignal => Call::Settled,
        Operation::WatchFs => Call::Settled,
        Operation::Connect => if r.connecting {
            Call::SocketStatus
        } else if r.connect {
            Call::Connect
        } else {
            Call::Settled
        },
        Operation::SendHandle(_) => Call::SendHandle,
        Operation::RecvHandle => Call::RecvHandle,
        Operation::Accept { .. } => if r.kind == Kind::PipeListener {
            Call::AcceptPipe
        } else {
            Call::Accept
        },
        Operation::Read { buf, .. } => Call::Read(*buf),
        Operation::RecvFrom(buf) => Call::RecvFrom(*buf),
        Operation::Write(len) => if p.offset == *len {
            Call::Settled
        } else {
            Call::Write { offset: p.offset, len: *len - p.offset, plain }
        },
        Operation::Writev(lens) => {
            let parts = segments(lens, p.offset);
            if parts.len() == 0 {
                Call::Settled
            } else {
                Call::Writev { segments: parts, plain }
            }
        },
        Operation::SendTo { len, to } => Call::SendTo { len: *len, to: *to },
        Operation::Shutdown => Call::Shutdown,
    }
}

/// Whether `reply` can answer the call that `p` needs on `r`.
pub open spec fn answers<D>(r: Resource, p: Pending, rules: Rules, reply: Reply<D>) -> bool {
    match rules {
        Rules::Native { .. } => answers_native(r, p, reply),
        Rules::Component => answers_import(r, p, reply),
        Rules::Async => answers_driven(p, reply),
    }
}

/// An attempt that tells nothing, fails, or completes its operation: with an outcome of that
/// operation, for the last time unless it was asked for many, and a write only with all of it.
pub open spec fn completes<D>(op: Operation, attempt: Attempt<D>) -> bool {
    match attempt {
        Ok(Some((outcome, terminal))) => match (op, outcome) {
            (Operation::Connect, Outcome::Connected) => terminal,
            (Operation::Accept { multishot }, Outcome::Accepted { .. }) => terminal != multishot,
            (Operation::Read { multishot, .. }, Outcome::Read { n, .. }) => n > 0 && terminal
                != multishot,
            (Operation::Read { .. }, Outcome::Eof) => terminal,
            (Operation::Write(_), Outcome::Wrote(n)) => terminal && n == payload(op),
            (Operation::Writev(_), Outcome::Wrote(n)) => terminal && n == payload(op),
            (Operation::SendTo { .. }, Outcome::Wrote(n)) => terminal && n == payload(op),
            (Operation::Shutdown, Outcome::Shutdown) => terminal,
            (Operation::RecvFrom(_), Outcome::RecvFrom { .. }) => terminal,
            _ => false,
        },
        _ => true,
    }
}

/// Whether `reply` can tell how an asynchronous attempt went: no more is written than there
/// is, and what completes is the operation.
pub open spec fn answers_driven<D>(p: Pending, reply: Reply<D>) -> bool {
    match reply {
        Reply::Driven { offset, attempt } => {
            &&& p.offset <= offset <= payload(p.request.operation)
            &&& !p.flushing
            &&& completes(p.request.operation, attempt)
        },
        _ => false,
    }
}

/// Whether `reply` can come from an import.
pub open spec fn answers_import<D>(r: Resource, p: Pending, reply: Reply<D>) -> bool {
    match p.request.operation {
        Operation::Connect => if r.connecting {
            reply is Failed || reply is Done
        } else if r.connect {
            reply is Failed || reply is Started
        } else {
            reply is Nothing
        },
        Operation::Accept { .. } => reply is Failed || reply is Accepted,
        Operation::Read { .. } => reply is Failed || reply is NoBuffer || reply is Bytes || reply
            is Closed,
        Operation::RecvFrom(_) => reply is Failed || reply is NoBuffer || reply is Datagram,
        Operation::Write(_) | Operation::Writev(_) => reply is Failed || reply is Streamed,
        Operation::SendTo { .. } => reply is Failed || reply is Count,
        Operation::Shutdown => reply is Failed || reply is Done,
        _ => reply is Nothing,
    }
}

/// Whether `reply` can come from a system call.
pub open spec fn answers_native<D>(r: Resource, p: Pending, reply: Reply<D>) -> bool {
    match p.request.operation {
        Operation::ProcessExit | Operation::WatchSignal | Operation::WatchFs => reply is Nothing,
        Operation::Connect => if r.connecting {
            reply is Failed || reply is Status
        } else if r.connect {
            reply is Failed || reply is Done
        } else {
            reply is Nothing
        },
        Operation::SendHandle(_) | Operation::Shutdown => reply is Failed || reply is Done,
        Operation::RecvHandle => reply is Failed || reply is Transport,
        Operation::Accept { .. } => if r.kind == Kind::PipeListener {
            reply is Failed || reply is Transport
        } else {
            reply is Failed || reply is Accepted
        },
        Operation::Read { .. } => reply is Failed || reply is NoBuffer || reply is Bytes,
        Operation::RecvFrom(_) => reply is Failed || reply is NoBuffer || reply is Datagram,
        Operation::Write(_) | Operation::Writev(_) => if p.offset == payload(
            p.request.operation,
        ) {
            reply is Nothing
        } else {
            reply is Failed || (reply matches Reply::Count(n) && p.offset + n <= payload(
                p.request.operation,
            ))
        },
        Operation::SendTo { .. } => reply is Failed || reply is Count,
    }
}

/// Where the operation stood.
pub open spec fn before(p: Pending) -> Progress {
    Progress { offset: p.offset, flushing: p.flushing }
}

/// The resource, the operation's progress and the attempt after `reply`.
pub open spec fn concluded<D>(r: Resource, p: Pending, reply: Reply<D>, rules: Rules) -> (
    Resource,
    Progress,
    Attempt<D>,
) {
    match rules {
        Rules::Native { in_progress, .. } => {
            let (after, offset, attempt) = concluded_native(r, p, reply, in_progress);
            (after, Progress { offset, flushing: p.flushing }, attempt)
        },
        Rules::Component => concluded_import(r, p, reply),
        Rules::Async => match reply {
            Reply::Driven { offset, attempt } => (
                Resource { connect: r.connect && !is_connected(attempt), ..r },
                Progress { offset, flushing: p.flushing },
                attempt,
            ),
            _ => (r, before(p), Err(Error::plain(ErrorKind::Unsupported))),
        },
    }
}

/// The attempt established the connection.
pub open spec fn is_connected<D>(attempt: Attempt<D>) -> bool {
    match attempt {
        Ok(Some((outcome, _))) => outcome is Connected,
        _ => false,
    }
}

/// What a stream did with the bytes it was given. The write completes only after a flush
/// that the stream has finished.
pub open spec fn streamed<D>(
    p: Pending,
    permitted: usize,
    wrote: Result<(), Error>,
    flushed: Result<(), Error>,
) -> (Progress, Attempt<D>) {
    let n = portion(first_left(p.request.operation, p.offset as int), permitted as int);
    let done = Progress { offset: (p.offset + n) as usize, flushing: false };
    if permitted == 0 {
        (before(p), Err(Error::plain(ErrorKind::WouldBlock)))
    } else if p.flushing {
        (before(p), Ok(Some((Outcome::Wrote(p.offset), true))))
    } else if n > 0 && wrote is Err {
        (before(p), Err(wrote->Err_0))
    } else if p.offset + n != payload(p.request.operation) {
        (done, Ok(None))
    } else if flushed is Err {
        (done, Err(flushed->Err_0))
    } else {
        (Progress { flushing: true, ..done }, Ok(None))
    }
}

/// The resource, the operation's progress and the attempt after the reply of an import.
pub open spec fn concluded_import<D>(r: Resource, p: Pending, reply: Reply<D>) -> (
    Resource,
    Progress,
    Attempt<D>,
) {
    match (p.request.operation, reply) {
        (Operation::Connect, Reply::Started(finished)) => match finished {
            Ok(_) => (
                Resource { connecting: true, connect: false, ..r },
                before(p),
                Ok(Some((Outcome::Connected, true))),
            ),
            Err(e) => (Resource { connecting: true, ..r }, before(p), Err(e)),
        },
        (Operation::Connect, Reply::Done) => (
            Resource { connect: false, ..r },
            before(p),
            Ok(Some((Outcome::Connected, true))),
        ),
        (_, Reply::Failed(e)) => (r, before(p), Err(e)),
        (_, Reply::NoBuffer) => (r, before(p), Ok(None)),
        (Operation::Accept { multishot }, Reply::Accepted { transport, peer }) => (
            r,
            before(p),
            Ok(Some((Outcome::Accepted { transport, peer }, !multishot))),
        ),
        (Operation::Read { .. }, Reply::Closed) => (
            r,
            before(p),
            Ok(Some((Outcome::Eof, true))),
        ),
        (Operation::Read { multishot, .. }, Reply::Bytes { n, lease }) => (
            r,
            before(p),
            if n == 0 {
                Err(Error::plain(ErrorKind::WouldBlock))
            } else {
                Ok(Some((Outcome::Read { n, lease }, !multishot)))
            },
        ),
        (Operation::RecvFrom(_), Reply::Datagram { n, from, lease }) => (
            r,
            before(p),
            match from {
                Ok(from) => Ok(Some((Outcome::RecvFrom { n, from, lease }, true))),
                Err(e) => Err(e),
            },
        ),
        (Operation::Write(_), Reply::Streamed { permitted, wrote, flushed }) => {
            let (progress, attempt) = streamed(p, permitted, wrote, flushed);
            (r, progress, attempt)
        },
        (Operation::Writev(_), Reply::Streamed { permitted, wrote, flushed }) => {
            let (progress, attempt) = streamed(p, permitted, wrote, flushed);
            (r, progress, attempt)
        },
        (Operation::SendTo { .. }, Reply::Count(n)) => (
            r,
            before(p),
            Ok(Some((Outcome::Wrote(n), true))),
        ),
        (Operation::Shutdown, _) => (r, before(p), Ok(Some((Outcome::Shutdown, true)))),
        (Operation::Connect, _) => (r, before(p), Err(Error::plain(ErrorKind::InvalidInput))),
        _ => (r, before(p), Err(Error::plain(ErrorKind::Unsupported))),
    }
}

/// The resource, the bytes written and the attempt after the reply of a system call.
pub open spec fn concluded_native<D>(r: Resource, p: Pending, reply: Reply<D>, in_progress: i32) -> (
    Resource,
    usize,
    Attempt<D>,
) {
    let failed: Attempt<D> = Err(Error::plain(ErrorKind::InvalidInput));
    match (p.request.operation, reply) {
        (Operation::Connect, Reply::Failed(e)) => if !r.connecting && e.os == Some(
            in_progress,
        ) {
            (Resource { connecting: true, ready_out: false, ..r }, p.offset, Ok(None))
        } else {
            (r, p.offset, Err(e))
        },
        (Operation::Connect, Reply::Status { code, error }) if code != 0 => (
            r,
            p.offset,
            Err(error),
        ),
        (Operation::Connect, Reply::Done) | (Operation::Connect, Reply::Status { .. }) => (
            Resource { connect: false, ..r },
            p.offset,
            Ok(Some((Outcome::Connected, true))),
        ),
        (_, Reply::Failed(e)) => (r, p.offset, Err(e)),
        (_, Reply::NoBuffer) => (r, p.offset, Ok(None)),
        (Operation::SendHandle(_), _) => (r, p.offset, Ok(Some((Outcome::HandleSent, true)))),
        (Operation::Shutdown, _) => (r, p.offset, Ok(Some((Outcome::Shutdown, true)))),
        (Operation::RecvHandle, Reply::Transport(t)) => (
            r,
            p.offset,
            Ok(Some((Outcome::HandleReceived(t), true))),
        ),
        (Operation::Accept { multishot }, Reply::Transport(t)) => (
            r,
            p.offset,
            Ok(Some((Outcome::PipeAccepted(t), !multishot))),
        ),
        (Operation::Accept { multishot }, Reply::Accepted { transport, peer }) => (
            r,
            p.offset,
            Ok(Some((Outcome::Accepted { transport, peer }, !multishot))),
        ),
        (Operation::Read { multishot, .. }, Reply::Bytes { n, lease }) => (
            r,
            p.offset,
            if n == 0 {
                Ok(Some((Outcome::Eof, true)))
            } else {
                Ok(Some((Outcome::Read { n, lease }, !multishot)))
            },
        ),
        (Operation::RecvFrom(_), Reply::Datagram { n, from, lease }) => (
            r,
            p.offset,
            match from {
                Ok(from) => Ok(Some((Outcome::RecvFrom { n, from, lease }, true))),
                Err(e) => Err(e),
            },
        ),
        (Operation::SendTo { .. }, Reply::Count(n)) => (
            r,
            p.offset,
            Ok(Some((Outcome::Wrote(n), true))),
        ),
        (Operation::Write(_), Reply::Nothing) | (Operation::Writev(_), Reply::Nothing) => (
            r,
            p.offset,
            Ok(Some((Outcome::Wrote(p.offset), true))),
        ),
        (Operation::Write(_), Reply::Count(n)) | (Operation::Writev(_), Reply::Count(n)) => {
            let done = (p.offset + n) as usize;
            if n == 0 {
                (r, p.offset, Err(Error::plain(ErrorKind::BrokenPipe)))
            } else if done == payload(p.request.operation) {
                (r, done, Ok(Some((Outcome::Wrote(done), true))))
            } else {
                (r, done, Ok(None))
            }
        },
        _ => (r, p.offset, failed),
    }
}

/// A finished write reports the length of its payload, never a part of it.
pub proof fn law_write_completes_whole<D>(r: Resource, p: Pending, reply: Reply<D>, rules: Rules)
    requires
        p.request.operation is Write || p.request.operation is Writev,
        in_bounds(p),
        answers(r, p, rules, reply),
    ensures
        ({
            let (after, progress, attempt) = concluded(r, p, reply, rules);
            attempt matches Ok(Some(done)) ==> {
                &&& done.1
                &&& done.0 matches Outcome::Wrote(n) && n == payload(p.request.operation)
            }
        }),
{
}

fn progress<D>(offset: usize, len: usize, n: usize) -> (step: (usize, Attempt<D>))
    requires
        offset + n <= len,
    ensures
        step.0 == (if n == 0 { offset } else { (offset + n) as usize }),
        step.1 == (if n == 0 {
            Attempt::<D>::Err(Error::plain(ErrorKind::BrokenPipe))
        } else if offset + n == len {
            Ok(Some((Outcome::Wrote((offset + n) as usize), true)))
        } else {
            Ok(None)
        }),
{
    if n == 0 {
        return (offset, Err(Error::new(ErrorKind::BrokenPipe)));
    }
    let done: usize = offset + n;
    if done == len {
        (done, Ok(Some((Outcome::Wrote(done), true))))
    } else {
        (done, Ok(None))
    }
}

fn connected<D>(r: &mut Resource, reply: Reply<D>, in_progress: i32) -> (attempt: Attempt<D>)
    requires
        old(r).connecting ==> reply is Failed || reply is Status,
        !old(r).connecting && old(r).connect ==> reply is Failed || reply is Done,
        !old(r).connecting && !old(r).connect ==> reply is Nothing,
    ensures
        forall|p: Pending| #[trigger] concluded_native(*old(r), p, reply, in_progress) == (
            *final(r),
            p.offset,
            attempt,
        ) || !(p.request.operation is Connect),
{
    match reply {
        Reply::Failed(e) => {
            if !r.connecting && e.os == Some(in_progress) {
                r.connecting = true;
                r.ready_out = false;
                return Ok(None);
            }
            Err(e)
        },
        Reply::Status { code, error } => {
            if code != 0 {
                return Err(error);
            }
            r.connect = false;
            Ok(Some((Outcome::Connected, true)))
        },
        Reply::Done => {
            r.connect = false;
            Ok(Some((Outcome::Connected, true)))
        },
        _ => Err(invalid()),
    }
}

/// Apply a reply to the operation that asked for it.
pub fn conclude<D>(r: &mut Resource, p: &mut Pending, reply: Reply<D>, rules: Rules) -> (attempt:
    Attempt<D>)
    requires
        in_bounds(*old(p)),
        answers(*old(r), *old(p), rules, reply),
    ensures
        concluded(*old(r), *old(p), reply, rules) == (*final(r), before(*final(p)), attempt),
        final(p).request == old(p).request,
        final(p).cancelled == old(p).cancelled,
        in_bounds(*final(p)),
{
    match rules {
        Rules::Native { in_progress, .. } => conclude_native(r, p, reply, in_progress),
        Rules::Component => conclude_import(r, p, reply),
        Rules::Async => match reply {
            Reply::Driven { offset, attempt } => {
                let connected = match &attempt {
                    Ok(Some((Outcome::Connected, _))) => true,
                    _ => false,
                };
                if connected {
                    r.connect = false;
                }
                p.offset = offset;
                attempt
            },
            _ => Err(unsupported()),
        },
    }
}

fn stream_on<D>(
    p: &mut Pending,
    permitted: usize,
    wrote: Result<(), Error>,
    flushed: Result<(), Error>,
) -> (attempt: Attempt<D>)
    requires
        in_bounds(*old(p)),
        old(p).request.operation is Write || old(p).request.operation is Writev,
    ensures
        streamed::<D>(*old(p), permitted, wrote, flushed) == (before(*final(p)), attempt),
        final(p).request == old(p).request,
        final(p).cancelled == old(p).cancelled,
        in_bounds(*final(p)),
{
    proof {
        lemma_first_left(p.request.operation, p.offset as int);
    }
    if permitted == 0 {
        return Err(Error::new(ErrorKind::WouldBlock));
    }
    if p.flushing {
        return Ok(Some((Outcome::Wrote(p.offset), true)));
    }
    let (part, left): (usize, usize) = match &p.request.operation {
        Operation::Write(len) => (*len - p.offset, *len - p.offset),
        Operation::Writev(lens) => {
            let parts = segments(lens, p.offset);
            let part: usize = if parts.len() == 0 {
                0
            } else {
                parts[0].len
            };
            (part, length(lens) - p.offset)
        },
        _ => (0, 0),
    };
    let n: usize = if part < permitted {
        part
    } else {
        permitted
    };
    if n > 0 {
        if let Err(e) = wrote {
            return Err(e);
        }
    }
    p.offset = p.offset + n;
    if n != left {
        return Ok(None);
    }
    if let Err(e) = flushed {
        return Err(e);
    }
    p.flushing = true;
    Ok(None)
}

fn conclude_import<D>(r: &mut Resource, p: &mut Pending, reply: Reply<D>) -> (attempt: Attempt<D>)
    requires
        in_bounds(*old(p)),
        answers_import(*old(r), *old(p), reply),
    ensures
        concluded_import(*old(r), *old(p), reply) == (*final(r), before(*final(p)), attempt),
        final(p).request == old(p).request,
        final(p).cancelled == old(p).cancelled,
        in_bounds(*final(p)),
{
    if let Reply::Streamed { permitted, wrote, flushed } = reply {
        return stream_on(p, permitted, wrote, flushed);
    }
    match (&p.request.operation, reply) {
        (Operation::Connect, Reply::Started(finished)) => {
            r.connecting = true;
            match finished {
                Ok(_) => {
                    r.connect = false;
                    Ok(Some((Outcome::Connected, true)))
                },
                Err(e) => Err(e),
            }
        },
        (Operation::Connect, Reply::Done) => {
            r.connect = false;
            Ok(Some((Outcome::Connected, true)))
        },
        (_, Reply::Failed(e)) => Err(e),
        (_, Reply::NoBuffer) => Ok(None),
        (Operation::Accept { multishot }, Reply::Accepted { transport, peer }) => Ok(
            Some((Outcome::Accepted { transport, peer }, !*multishot)),
        ),
        (Operation::Read { .. }, Reply::Closed) => Ok(Some((Outcome::Eof, true))),
        (Operation::Read { multishot, .. }, Reply::Bytes { n, lease }) => if n == 0 {
            Err(Error::new(ErrorKind::WouldBlock))
        } else {
            Ok(Some((Outcome::Read { n, lease }, !*multishot)))
        },
        (Operation::RecvFrom(_), Reply::Datagram { n, from, lease }) => match from {
            Ok(from) => Ok(Some((Outcome::RecvFrom { n, from, lease }, true))),
            Err(e) => Err(e),
        },
        (Operation::SendTo { .. }, Reply::Count(n)) => Ok(Some((Outcome::Wrote(n), true))),
        (Operation::Shutdown, _) => Ok(Some((Outcome::Shutdown, true))),
        (Operation::Connect, _) => Err(invalid()),
        _ => Err(unsupported()),
    }
}

fn conclude_native<D>(r: &mut Resource, p: &mut Pending, reply: Reply<D>, in_progress: i32) -> (
    attempt: Attempt<D>)
    requires
        in_bounds(*old(p)),
        answers_native(*old(r), *old(p), reply),
    ensures
        concluded_native(*old(r), *old(p), reply, in_progress) == (
            *final(r),
            final(p).offset,
            attempt,
        ),
        final(p).request == old(p).request,
        final(p).flushing == old(p).flushing,
        final(p).cancelled == old(p).cancelled,
        in_bounds(*final(p)),
{
    let offset: usize = p.offset;
    let (after, attempt): (usize, Attempt<D>) = match (&p.request.operation, reply) {
        (Operation::Connect, reply) => (offset, connected(r, reply, in_progress)),
        (_, Reply::Failed(e)) => (offset, Err(e)),
        (_, Reply::NoBuffer) => (offset, Ok(None)),
        (Operation::SendHandle(_), _) => (offset, Ok(Some((Outcome::HandleSent, true)))),
        (Operation::Shutdown, _) => (offset, Ok(Some((Outcome::Shutdown, true)))),
        (Operation::RecvHandle, Reply::Transport(t)) => (
            offset,
            Ok(Some((Outcome::HandleReceived(t), true))),
        ),
        (Operation::Accept { multishot }, Reply::Transport(t)) => (
            offset,
            Ok(Some((Outcome::PipeAccepted(t), !*multishot))),
        ),
        (Operation::Accept { multishot }, Reply::Accepted { transport, peer }) => (
            offset,
            Ok(Some((Outcome::Accepted { transport, peer }, !*multishot))),
        ),
        (Operation::Read { multishot, .. }, Reply::Bytes { n, lease }) => (
            offset,
            if n == 0 {
                Ok(Some((Outcome::Eof, true)))
            } else {
                Ok(Some((Outcome::Read { n, lease }, !*multishot)))
            },
        ),
        (Operation::RecvFrom(_), Reply::Datagram { n, from, lease }) => (
            offset,
            match from {
                Ok(from) => Ok(Some((Outcome::RecvFrom { n, from, lease }, true))),
                Err(e) => Err(e),
            },
        ),
        (Operation::SendTo { .. }, Reply::Count(n)) => (offset, Ok(Some((Outcome::Wrote(n), true)))),
        (Operation::Write(_), Reply::Nothing) => (offset, Ok(Some((Outcome::Wrote(offset), true)))),
        (Operation::Writev(_), Reply::Nothing) => (offset, Ok(Some((Outcome::Wrote(offset), true)))),
        (Operation::Write(len), Reply::Count(n)) => progress(offset, *len, n),
        (Operation::Writev(lens), Reply::Count(n)) => progress(offset, length(lens), n),
        _ => (offset, Err(invalid())),
    };
    p.offset = after;
    attempt
}

} // verus!
