//! What a completion means for an operation, and which native call it needs next.
use crate::iocp::attach::Association;
use crate::iocp::codes::{ERROR_BROKEN_PIPE, ERROR_HANDLE_EOF, ERROR_IO_PENDING};
use crate::types::{
    invalid, unsupported, Endpoint, Error, ErrorKind, Handle, Lease, Operation, Outcome, ReadBuf,
    Request,
};
use crate::payload::{length, payload, remaining, segments, Attempt, Segment};
use vstd::prelude::*;

verus! {

/// What a native handle is.
#[derive(Clone, Copy, Debug, PartialEq, Eq, Structural)]
pub enum Kind {
    Tcp,
    Listener,
    Udp,
    Pipe,
    PipeListener,
    /// Served by worker threads: no overlapped operations.
    Sync,
}

/// Bytes of a control frame: a magic word and the description of a socket.
pub const FRAME: usize = 632;

/// The first word of a control frame.
pub const MAGIC: u32 = 0x314c_5457;

/// One bound native handle.
#[derive(Clone, Copy, Debug, PartialEq, Eq, Structural)]
pub struct Resource {
    pub handle: Handle,
    pub kind: Kind,
    /// The port of the handle.
    pub association: Association,
    /// Completions come through a waited event instead of the port.
    pub routed: bool,
    /// A synchronous success queues no packet.
    pub skip: bool,
    /// A connection target is configured.
    pub connect: bool,
}

/// How far an operation is.
#[derive(Clone, Copy, Debug, PartialEq, Eq, Structural)]
pub enum Stage {
    /// Its next native call has not been made.
    Start,
    /// A native transfer was started.
    Io,
    /// A zero-byte receive waits for data, holding no buffer.
    IdleRead,
}

/// One accepted operation.
#[derive(Debug)]
pub struct Job {
    pub request: Request,
    pub stage: Stage,
    /// The kernel owns it until its packet arrives.
    pub waiting: bool,
    /// It stands in the ready queue.
    pub queued: bool,
    /// It waits for a pool buffer.
    pub pool_wait: bool,
    /// Cancellation was asked for.
    pub cancelled: bool,
    /// What the last native transfer reported.
    pub completion: Option<Result<u32, Error>>,
    /// Bytes already transferred by a write or a control frame.
    pub offset: usize,
    /// Bytes of a datagram whose sender is still to be read.
    pub count: usize,
    /// The pool buffer of a pending read.
    pub lease: Option<Lease>,
}

/// A new operation.
pub open spec fn fresh(request: Request) -> Job {
    Job {
        request,
        stage: Stage::Start,
        waiting: false,
        queued: false,
        pool_wait: false,
        cancelled: false,
        completion: None,
        offset: 0,
        count: 0,
        lease: None,
    }
}

/// Bytes an operation moves in parts.
pub open spec fn extent(op: Operation) -> int {
    match op {
        Operation::SendHandle(_) | Operation::RecvHandle => FRAME as int,
        _ => payload(op),
    }
}

/// The parts moved so far lie inside the whole.
pub open spec fn in_bounds(p: Job) -> bool {
    p.offset <= extent(p.request.operation) <= usize::MAX
}

/// A transfer never reports more than was asked for.
pub open spec fn fits(p: Job) -> bool {
    match p.completion {
        Some(Ok(n)) => p.request.operation is Write || p.request.operation is Writev ==> p.offset
            + n <= extent(p.request.operation),
        _ => true,
    }
}

/// Whether a failed read is the end of its stream.
pub open spec fn is_eof(op: Operation, e: Error) -> bool {
    op is Read && (e.os == Some(ERROR_BROKEN_PIPE) || e.os == Some(ERROR_HANDLE_EOF))
}

/// Account for the last completion: the operation afterwards, and the attempt if no
/// native call is needed to judge it.
pub open spec fn absorbed<D>(kind: Kind, p: Job) -> (Job, Option<Attempt<D>>) {
    let q = Job { completion: None, ..p };
    match p.completion {
        None => (p, None),
        Some(Err(e)) => if is_eof(p.request.operation, e) {
            (q, Some(Ok(Some((Outcome::Eof, true)))))
        } else {
            (q, Some(Err(e)))
        },
        Some(Ok(n)) => match p.request.operation {
            Operation::SendHandle(_) | Operation::RecvHandle => if n == 0 || n > FRAME - p.offset {
                (q, Some(Err(Error::plain(ErrorKind::BrokenPipe))))
            } else if p.request.operation is SendHandle && p.offset + n == FRAME {
                (
                    Job { offset: (p.offset + n) as usize, ..q },
                    Some(Ok(Some((Outcome::HandleSent, true)))),
                )
            } else {
                (Job { offset: (p.offset + n) as usize, ..q }, None)
            },
            _ if p.stage == Stage::IdleRead => (q, None),
            Operation::Connect => if kind == Kind::Tcp {
                (q, None)
            } else {
                (q, Some(Ok(Some((Outcome::Connected, true)))))
            },
            Operation::Accept { .. } => (q, None),
            Operation::Read { multishot, .. } => if n == 0 {
                (q, Some(Ok(Some((Outcome::Eof, true)))))
            } else {
                (
                    Job { lease: None, ..q },
                    Some(Ok(Some((Outcome::Read { n: n as usize, lease: p.lease }, !multishot)))),
                )
            },
            Operation::RecvFrom(_) => (Job { count: n as usize, ..q }, None),
            Operation::SendTo { .. } => (q, Some(Ok(Some((Outcome::Wrote(n as usize), true))))),
            Operation::Write(_) | Operation::Writev(_) => {
                let len = payload(p.request.operation);
                let done = (p.offset + n) as usize;
                if n == 0 && p.offset != len {
                    (q, Some(Err(Error::plain(ErrorKind::BrokenPipe))))
                } else if done == len {
                    (Job { offset: done, ..q }, Some(Ok(Some((Outcome::Wrote(done), true)))))
                } else {
                    (Job { offset: done, stage: Stage::Start, ..q }, None)
                }
            },
            _ => (q, Some(Err(Error::plain(ErrorKind::Unsupported)))),
        },
    }
}

fn write_progress<D>(p: &mut Job, len: usize, n: usize) -> (attempt: Option<Attempt<D>>)
    requires
        old(p).offset + n <= len,
    ensures
        final(p).request == old(p).request,
        ({
            let done = (old(p).offset + n) as usize;
            if n == 0 && old(p).offset != len {
                *final(p) == *old(p) && attempt == Some(
                    Attempt::<D>::Err(Error::plain(ErrorKind::BrokenPipe)),
                )
            } else if done == len {
                *final(p) == (Job { offset: done, ..*old(p) }) && attempt == Some(
                    Attempt::<D>::Ok(Some((Outcome::Wrote(done), true))),
                )
            } else {
                *final(p) == (Job { offset: done, stage: Stage::Start, ..*old(p) }) && attempt
                    == None::<Attempt<D>>
            }
        }),
{
    if n == 0 && p.offset != len {
        return Some(Err(Error::new(ErrorKind::BrokenPipe)));
    }
    p.offset = p.offset + n;
    if p.offset == len {
        return Some(Ok(Some((Outcome::Wrote(p.offset), true))));
    }
    p.stage = Stage::Start;
    None
}

/// Account for the last completion of an operation.
pub fn absorb<D>(kind: Kind, p: &mut Job) -> (attempt: Option<Attempt<D>>)
    requires
        in_bounds(*old(p)),
        fits(*old(p)),
    ensures
        absorbed::<D>(kind, *old(p)) == (*final(p), attempt),
        in_bounds(*final(p)),
        final(p).completion is None,
{
    let completion = p.completion;
    p.completion = None;
    let n: usize = match completion {
        None => {
            return None;
        },
        Some(Err(e)) => {
            if matches!(p.request.operation, Operation::Read { .. }) && (e.os == Some(
                ERROR_BROKEN_PIPE,
            ) || e.os == Some(ERROR_HANDLE_EOF)) {
                return Some(Ok(Some((Outcome::Eof, true))));
            }
            return Some(Err(e));
        },
        Some(Ok(n)) => n as usize,
    };
    let send = matches!(p.request.operation, Operation::SendHandle(_));
    if send || matches!(p.request.operation, Operation::RecvHandle) {
        if n == 0 || n > FRAME - p.offset {
            return Some(Err(Error::new(ErrorKind::BrokenPipe)));
        }
        p.offset = p.offset + n;
        if send && p.offset == FRAME {
            return Some(Ok(Some((Outcome::HandleSent, true))));
        }
        return None;
    }
    if p.stage == Stage::IdleRead {
        return None;
    }
    let len: usize = match &p.request.operation {
        Operation::Connect => {
            return if kind == Kind::Tcp {
                None
            } else {
                Some(Ok(Some((Outcome::Connected, true))))
            };
        },
        Operation::Accept { .. } => {
            return None;
        },
        Operation::Read { multishot, .. } => {
            if n == 0 {
                return Some(Ok(Some((Outcome::Eof, true))));
            }
            let lease = p.lease;
            p.lease = None;
            return Some(Ok(Some((Outcome::Read { n, lease }, !*multishot))));
        },
        Operation::RecvFrom(_) => {
            p.count = n;
            return None;
        },
        Operation::SendTo { .. } => {
            return Some(Ok(Some((Outcome::Wrote(n), true))));
        },
        Operation::Write(len) => *len,
        Operation::Writev(lens) => length(lens),
        _ => {
            return Some(Err(unsupported()));
        },
    };
    write_progress(p, len, n)
}

/// The sort of native call that an operation needs once its completion is absorbed.
#[derive(Clone, Copy, Debug, PartialEq, Eq, Structural)]
pub enum Need {
    /// None: the rules already decide.
    Settled,
    /// Move the rest of a control frame.
    FrameIo,
    /// Rebuild the socket that a whole control frame describes.
    Frame,
    /// Fill a pool buffer from a socket that has data.
    ReadReady,
    /// Make a connected socket usable.
    UpdateConnect,
    /// Make an accepted socket usable, set on it what its listener sets, and name its peer.
    UpdateAccept,
    /// Hand over the accepted pipe.
    TakePipe,
    /// Decode the sender of a datagram.
    Sender,
    WorkerRead,
    WorkerWrite,
    Shutdown,
    /// Wait for data without holding a buffer.
    IdleRecv,
    Recv,
    Send,
    ConnectEx,
    AcceptEx,
    ConnectPipe,
}

/// Whether any byte of a write remains.
pub open spec fn unfinished(p: Job) -> bool {
    match p.request.operation {
        Operation::Write(len) => p.offset < len,
        Operation::Writev(lens) => remaining(lens@, 0, p.offset as int).len() > 0,
        _ => false,
    }
}

/// The sort of native call that `p` needs on `r`.
pub open spec fn need(r: Resource, p: Job) -> Need {
    let op = p.request.operation;
    match op {
        Operation::SendHandle(_) => Need::FrameIo,
        Operation::RecvHandle => if p.offset == FRAME {
            Need::Frame
        } else {
            Need::FrameIo
        },
        _ => match p.stage {
            Stage::IdleRead => Need::ReadReady,
            Stage::Io => match op {
                Operation::Connect => Need::UpdateConnect,
                Operation::Accept { .. } => if r.kind == Kind::Listener {
                    Need::UpdateAccept
                } else {
                    Need::TakePipe
                },
                Operation::RecvFrom(_) => Need::Sender,
                _ => Need::Settled,
            },
            Stage::Start => if r.kind == Kind::Sync {
                match op {
                    Operation::Write(_) | Operation::Writev(_) => if unfinished(p) {
                        Need::WorkerWrite
                    } else {
                        Need::Settled
                    },
                    Operation::Read { .. } | Operation::RecvFrom(_) => Need::WorkerRead,
                    _ => Need::Settled,
                }
            } else {
                match op {
                    Operation::Shutdown => if r.kind == Kind::Tcp {
                        Need::Shutdown
                    } else {
                        Need::Settled
                    },
                    Operation::Connect => if r.kind == Kind::Pipe || !r.connect {
                        Need::Settled
                    } else {
                        Need::ConnectEx
                    },
                    Operation::Read { buf: ReadBuf::Pooled, .. } if r.kind == Kind::Tcp =>
                        Need::IdleRecv,
                    Operation::Read { .. } | Operation::RecvFrom(_) => Need::Recv,
                    Operation::Write(_) | Operation::Writev(_) => if unfinished(p) {
                        Need::Send
                    } else {
                        Need::Settled
                    },
                    Operation::SendTo { .. } => Need::Send,
                    Operation::Accept { .. } => if r.kind == Kind::Listener {
                        Need::AcceptEx
                    } else if r.kind == Kind::PipeListener {
                        Need::ConnectPipe
                    } else {
                        Need::Settled
                    },
                    _ => Need::Settled,
                }
            },
        },
    }
}

/// The verdict where no call is needed.
pub open spec fn settled<D>(r: Resource, p: Job) -> Attempt<D> {
    match p.request.operation {
        Operation::Write(_) | Operation::Writev(_) => if p.stage == Stage::Start {
            Ok(Some((Outcome::Wrote(p.offset), true)))
        } else {
            Err(Error::plain(ErrorKind::Unsupported))
        },
        Operation::Connect => if r.kind == Kind::Pipe {
            Ok(Some((Outcome::Connected, true)))
        } else if r.kind != Kind::Sync {
            Err(Error::plain(ErrorKind::InvalidInput))
        } else {
            Err(Error::plain(ErrorKind::Unsupported))
        },
        _ => Err(Error::plain(ErrorKind::Unsupported)),
    }
}

/// The native call that an operation needs, with what it moves.
#[derive(Debug)]
pub enum Call {
    Settled,
    /// Move frame bytes from `offset`; the first call of a send also builds the frame.
    FrameIo { send: bool, offset: usize, first: bool },
    Frame,
    ReadReady,
    UpdateConnect,
    UpdateAccept,
    TakePipe,
    Sender,
    WorkerRead(ReadBuf),
    WorkerWrite(Segment),
    Shutdown,
    IdleRecv,
    Recv(ReadBuf),
    /// Send parts; a handle that is no socket takes the first one only.
    Send { parts: Vec<Segment>, to: Option<Endpoint> },
    ConnectEx,
    AcceptEx,
    ConnectPipe,
}

/// The parts a write still has to move.
pub open spec fn parts_of(p: Job) -> Seq<Segment> {
    match p.request.operation {
        Operation::Write(len) => if p.offset < len {
            seq![Segment { index: 0, skip: p.offset, len: (len - p.offset) as usize }]
        } else {
            Seq::empty()
        },
        Operation::Writev(lens) => remaining(lens@, 0, p.offset as int),
        Operation::SendTo { len, .. } => seq![Segment { index: 0, skip: 0, len }],
        _ => Seq::empty(),
    }
}

/// Whether `call` carries out `need(r, p)`.
pub open spec fn carries(r: Resource, p: Job, call: Call) -> bool {
    match need(r, p) {
        Need::Settled => call is Settled,
        Need::FrameIo => call == (Call::FrameIo {
            send: p.request.operation is SendHandle,
            offset: p.offset,
            first: p.stage == Stage::Start,
        }),
        Need::Frame => call is Frame,
        Need::ReadReady => call is ReadReady,
        Need::UpdateConnect => call is UpdateConnect,
        Need::UpdateAccept => call is UpdateAccept,
        Need::TakePipe => call is TakePipe,
        Need::Sender => call is Sender,
        Need::WorkerRead => match p.request.operation {
            Operation::Read { buf, .. } => call == Call::WorkerRead(buf),
            Operation::RecvFrom(buf) => call == Call::WorkerRead(buf),
            _ => false,
        },
        Need::WorkerWrite => call == Call::WorkerWrite(parts_of(p)[0]),
        Need::Shutdown => call is Shutdown,
        Need::IdleRecv => call is IdleRecv,
        Need::Recv => match p.request.operation {
            Operation::Read { buf, .. } => call == Call::Recv(buf),
            Operation::RecvFrom(buf) => call == Call::Recv(buf),
            _ => false,
        },
        Need::Send => call matches Call::Send { parts, to } && parts@ == parts_of(p) && to == (
        match p.request.operation {
            Operation::SendTo { to, .. } => Some(to),
            _ => None,
        }),
        Need::ConnectEx => call is ConnectEx,
        Need::AcceptEx => call is AcceptEx,
        Need::ConnectPipe => call is ConnectPipe,
    }
}

fn write_parts(p: &Job) -> (parts: Vec<Segment>)
    ensures
        parts@ == parts_of(*p),
{
    match &p.request.operation {
        Operation::Write(len) => {
            let mut parts: Vec<Segment> = Vec::new();
            if p.offset < *len {
                parts.push(Segment { index: 0, skip: p.offset, len: *len - p.offset });
            }
            assert(parts@ =~= parts_of(*p));
            parts
        },
        Operation::Writev(lens) => segments(lens, p.offset),
        Operation::SendTo { len, .. } => {
            let mut parts: Vec<Segment> = Vec::new();
            parts.push(Segment { index: 0, skip: 0, len: *len });
            assert(parts@ =~= parts_of(*p));
            parts
        },
        _ => {
            let parts: Vec<Segment> = Vec::new();
            assert(parts@ =~= parts_of(*p));
            parts
        },
    }
}

fn plan_start(r: &Resource, p: &Job) -> (call: Call)
    requires
        p.stage == Stage::Start,
        !(p.request.operation is SendHandle),
        !(p.request.operation is RecvHandle),
    ensures
        carries(*r, *p, call),
{
    match &p.request.operation {
        Operation::Write(_) | Operation::Writev(_) => {
            let parts = write_parts(p);
            if parts.len() == 0 {
                Call::Settled
            } else if r.kind == Kind::Sync {
                Call::WorkerWrite(parts[0])
            } else {
                Call::Send { parts, to: None }
            }
        },
        Operation::Read { buf, .. } => {
            if r.kind == Kind::Sync {
                Call::WorkerRead(*buf)
            } else if r.kind == Kind::Tcp && *buf == ReadBuf::Pooled {
                Call::IdleRecv
            } else {
                Call::Recv(*buf)
            }
        },
        Operation::RecvFrom(buf) => {
            if r.kind == Kind::Sync {
                Call::WorkerRead(*buf)
            } else {
                Call::Recv(*buf)
            }
        },
        Operation::SendTo { to, .. } => {
            if r.kind == Kind::Sync {
                Call::Settled
            } else {
                Call::Send { parts: write_parts(p), to: Some(*to) }
            }
        },
        Operation::Shutdown => if r.kind == Kind::Tcp {
            Call::Shutdown
        } else {
            Call::Settled
        },
        Operation::Connect => if r.kind == Kind::Sync || r.kind == Kind::Pipe || !r.connect {
            Call::Settled
        } else {
            Call::ConnectEx
        },
        Operation::Accept { .. } => if r.kind == Kind::Listener {
            Call::AcceptEx
        } else if r.kind == Kind::PipeListener {
            Call::ConnectPipe
        } else {
            Call::Settled
        },
        _ => Call::Settled,
    }
}

/// Choose the native call that `p` needs on `r`.
pub fn plan(r: &Resource, p: &Job) -> (call: Call)
    ensures
        carries(*r, *p, call),
{
    let send = matches!(p.request.operation, Operation::SendHandle(_));
    let receive = matches!(p.request.operation, Operation::RecvHandle);
    if receive && p.offset == FRAME {
        return Call::Frame;
    }
    if send || receive {
        return Call::FrameIo { send, offset: p.offset, first: p.stage == Stage::Start };
    }
    match p.stage {
        Stage::IdleRead => Call::ReadReady,
        Stage::Io => match &p.request.operation {
            Operation::Connect => Call::UpdateConnect,
            Operation::Accept { .. } => if r.kind == Kind::Listener {
                Call::UpdateAccept
            } else {
                Call::TakePipe
            },
            Operation::RecvFrom(_) => Call::Sender,
            _ => Call::Settled,
        },
        Stage::Start => plan_start(r, p),
    }
}

/// How much of a buffer one native call moves: its length is a 32-bit number.
pub fn native_len(len: usize) -> (n: u32)
    ensures
        n == (if len > u32::MAX {
            u32::MAX as int
        } else {
            len as int
        }),
{
    if len > 0xffff_ffff {
        0xffff_ffff
    } else {
        len as u32
    }
}

/// What the host reports of a native call.
#[derive(Debug)]
pub enum Reply<D> {
    /// No call was needed.
    Nothing,
    /// The call, or what prepares it, failed for good.
    Failed(Error),
    /// It succeeded and returned nothing of interest.
    Done,
    /// The pool had no buffer; nothing was called.
    NoBuffer,
    /// An overlapped call was made. `wait` tells how the wait of a routed handle
    /// was registered, `lease` names a pool buffer acquired for it.
    Submitted {
        success: bool,
        bytes: u32,
        error: Error,
        wait: Result<(), Error>,
        lease: Option<Lease>,
    },
    /// A client was connected before the call.
    PipeConnected,
    /// A worker took the transfer over.
    Started { lease: Option<Lease> },
    Accepted { transport: D, peer: Endpoint },
    Transport(D),
    Sender(Result<Endpoint, Error>),
    Bytes { n: usize, lease: Option<Lease> },
    Frame { magic: u32, socket: Result<D, Error> },
}

/// Whether `reply` can answer `need(r, p)`.
pub open spec fn answers<D>(r: Resource, p: Job, reply: Reply<D>) -> bool {
    match need(r, p) {
        Need::Settled => reply is Nothing,
        Need::Frame => reply is Failed || reply is Frame,
        Need::ReadReady => reply is Failed || reply is NoBuffer || reply is Bytes,
        Need::UpdateConnect | Need::Shutdown => reply is Failed || reply is Done,
        Need::UpdateAccept => reply is Failed || reply is Accepted,
        Need::TakePipe => reply is Failed || reply is Transport,
        Need::Sender => reply is Sender,
        Need::WorkerRead => reply is NoBuffer || reply is Started,
        Need::WorkerWrite => reply is Started,
        Need::FrameIo | Need::IdleRecv | Need::ConnectEx | Need::AcceptEx => reply is Failed
            || reply is Submitted,
        Need::Recv => reply is Failed || reply is NoBuffer || reply is Submitted,
        Need::Send => {
            ||| reply is Failed
            ||| (reply matches Reply::Submitted { bytes, .. } && p.offset + bytes <= extent(
                p.request.operation,
            ))
        },
        Need::ConnectPipe => reply is Failed || reply is PipeConnected || reply is Submitted,
    }
}

/// An overlapped call was made: the operation completes at once, waits for its
/// packet, or has failed.
pub open spec fn submitted<D>(
    r: Resource,
    p: Job,
    success: bool,
    bytes: u32,
    error: Error,
    wait: Result<(), Error>,
) -> (Job, Attempt<D>) {
    let p = Job {
        stage: if need(r, p) == Need::IdleRecv {
            Stage::IdleRead
        } else {
            Stage::Io
        },
        ..p
    };
    if success && (r.skip || r.routed) {
        (Job { completion: Some(Ok(bytes)), ..p }, Ok(None))
    } else if success || error.os == Some(ERROR_IO_PENDING) {
        if r.routed && wait is Err {
            (p, Err(wait->Err_0))
        } else {
            (Job { waiting: true, ..p }, Ok(None))
        }
    } else {
        (Job { completion: Some(Err(error)), ..p }, Ok(None))
    }
}

/// The operation and the attempt after `reply`.
pub open spec fn executed<D>(r: Resource, p: Job, reply: Reply<D>) -> (Job, Attempt<D>) {
    match reply {
        Reply::Nothing => (p, settled(r, p)),
        Reply::Failed(e) => if need(r, p) == Need::ReadReady && e.kind == ErrorKind::WouldBlock {
            (Job { stage: Stage::Start, ..p }, Ok(None))
        } else {
            (p, Err(e))
        },
        Reply::Done => if need(r, p) == Need::Shutdown {
            (p, Ok(Some((Outcome::Shutdown, true))))
        } else {
            (p, Ok(Some((Outcome::Connected, true))))
        },
        Reply::NoBuffer => if need(r, p) == Need::ReadReady {
            (Job { pool_wait: true, completion: Some(Ok(0)), ..p }, Ok(None))
        } else {
            (Job { pool_wait: true, ..p }, Ok(None))
        },
        Reply::Submitted { success, bytes, error, wait, lease } => submitted(
            r,
            Job {
                lease: if lease is Some {
                    lease
                } else {
                    p.lease
                },
                ..p
            },
            success,
            bytes,
            error,
            wait,
        ),
        Reply::PipeConnected => (
            Job { stage: Stage::Io, completion: Some(Ok(0)), ..p },
            Ok(None),
        ),
        Reply::Started { lease } => (
            Job {
                stage: Stage::Io,
                waiting: true,
                lease: if lease is Some {
                    lease
                } else {
                    p.lease
                },
                ..p
            },
            Ok(None),
        ),
        Reply::Accepted { transport, peer } => (
            p,
            Ok(
                Some(
                    (
                        Outcome::Accepted { transport, peer },
                        !(p.request.operation matches Operation::Accept { multishot: true }),
                    ),
                ),
            ),
        ),
        Reply::Transport(t) => (
            p,
            Ok(
                Some(
                    (
                        Outcome::PipeAccepted(t),
                        !(p.request.operation matches Operation::Accept { multishot: true }),
                    ),
                ),
            ),
        ),
        Reply::Sender(Err(e)) => (p, Err(e)),
        Reply::Sender(Ok(from)) => (
            Job { lease: None, ..p },
            Ok(Some((Outcome::RecvFrom { n: p.count, from, lease: p.lease }, true))),
        ),
        Reply::Bytes { n, lease } => if n == 0 {
            (p, Ok(Some((Outcome::Eof, true))))
        } else {
            (
                p,
                Ok(
                    Some(
                        (
                            Outcome::Read { n, lease },
                            !(p.request.operation matches Operation::Read {
                                multishot: true,
                                ..
                            }),
                        ),
                    ),
                ),
            )
        },
        Reply::Frame { magic, socket } => if magic != MAGIC {
            (p, Err(Error::plain(ErrorKind::InvalidInput)))
        } else {
            match socket {
                Ok(t) => (p, Ok(Some((Outcome::HandleReceived(t), true)))),
                Err(e) => (p, Err(e)),
            }
        },
    }
}

fn settle_now<D>(r: &Resource, p: &Job) -> (attempt: Attempt<D>)
    ensures
        attempt == settled::<D>(*r, *p),
{
    match &p.request.operation {
        Operation::Write(_) | Operation::Writev(_) => if p.stage == Stage::Start {
            Ok(Some((Outcome::Wrote(p.offset), true)))
        } else {
            Err(unsupported())
        },
        Operation::Connect => if r.kind == Kind::Pipe {
            Ok(Some((Outcome::Connected, true)))
        } else if r.kind != Kind::Sync {
            Err(invalid())
        } else {
            Err(unsupported())
        },
        _ => Err(unsupported()),
    }
}

fn submit_now<D>(
    r: &Resource,
    p: &mut Job,
    idle: bool,
    success: bool,
    bytes: u32,
    error: Error,
    wait: Result<(), Error>,
) -> (attempt: Attempt<D>)
    requires
        idle == (need(*r, *old(p)) == Need::IdleRecv),
    ensures
        submitted::<D>(*r, *old(p), success, bytes, error, wait) == (*final(p), attempt),
{
    p.stage = if idle {
        Stage::IdleRead
    } else {
        Stage::Io
    };
    if success && (r.skip || r.routed) {
        p.completion = Some(Ok(bytes));
    } else if success || error.os == Some(ERROR_IO_PENDING) {
        if r.routed {
            if let Err(e) = wait {
                return Err(e);
            }
        }
        p.waiting = true;
    } else {
        p.completion = Some(Err(error));
    }
    Ok(None)
}

/// Apply a reply to the operation that asked for it.
pub fn execute<D>(r: &Resource, p: &mut Job, reply: Reply<D>) -> (attempt: Attempt<D>)
    requires
        in_bounds(*old(p)),
        old(p).completion is None,
        answers(*r, *old(p), reply),
    ensures
        executed(*r, *old(p), reply) == (*final(p), attempt),
        in_bounds(*final(p)),
        fits(*final(p)),
{
    let once_accept = !matches!(p.request.operation, Operation::Accept { multishot: true });
    let once_read = !matches!(p.request.operation, Operation::Read { multishot: true, .. });
    match reply {
        Reply::Nothing => settle_now(r, p),
        Reply::Failed(e) => {
            if matches!(plan(r, p), Call::ReadReady) && e.kind == ErrorKind::WouldBlock {
                p.stage = Stage::Start;
                return Ok(None);
            }
            Err(e)
        },
        Reply::Done => {
            if matches!(plan(r, p), Call::Shutdown) {
                Ok(Some((Outcome::Shutdown, true)))
            } else {
                Ok(Some((Outcome::Connected, true)))
            }
        },
        Reply::NoBuffer => {
            if matches!(plan(r, p), Call::ReadReady) {
                p.completion = Some(Ok(0));
            }
            p.pool_wait = true;
            Ok(None)
        },
        Reply::Submitted { success, bytes, error, wait, lease } => {
            let idle = matches!(plan(r, p), Call::IdleRecv);
            if lease.is_some() {
                p.lease = lease;
            }
            submit_now(r, p, idle, success, bytes, error, wait)
        },
        Reply::PipeConnected => {
            p.stage = Stage::Io;
            p.completion = Some(Ok(0));
            Ok(None)
        },
        Reply::Started { lease } => {
            if lease.is_some() {
                p.lease = lease;
            }
            p.stage = Stage::Io;
            p.waiting = true;
            Ok(None)
        },
        Reply::Accepted { transport, peer } => Ok(
            Some((Outcome::Accepted { transport, peer }, once_accept)),
        ),
        Reply::Transport(t) => Ok(Some((Outcome::PipeAccepted(t), once_accept))),
        Reply::Sender(from) => match from {
            Err(e) => Err(e),
            Ok(from) => {
                let lease = p.lease;
                p.lease = None;
                Ok(Some((Outcome::RecvFrom { n: p.count, from, lease }, true)))
            },
        },
        Reply::Bytes { n, lease } => {
            if n == 0 {
                Ok(Some((Outcome::Eof, true)))
            } else {
                Ok(Some((Outcome::Read { n, lease }, once_read)))
            }
        },
        Reply::Frame { magic, socket } => {
            if magic != MAGIC {
                return Err(invalid());
            }
            match socket {
                Ok(t) => Ok(Some((Outcome::HandleReceived(t), true))),
                Err(e) => Err(e),
            }
        },
    }
}

/// A read that waits for data holds no pool buffer.
pub proof fn law_idle_read_holds_no_buffer(r: Resource, p: Job)
    requires
        r.kind == Kind::Tcp,
        p.stage == Stage::Start,
        p.request.operation matches Operation::Read { buf: ReadBuf::Pooled, .. },
    ensures
        need(r, p) == Need::IdleRecv,
{
}

/// A finished write reports the length of its payload, never a part of it.
pub proof fn law_write_completes_whole<D>(kind: Kind, p: Job)
    requires
        p.request.operation is Write || p.request.operation is Writev,
        in_bounds(p),
        fits(p),
        p.stage != Stage::IdleRead,
    ensures
        absorbed::<D>(kind, p).1 matches Some(Ok(Some(done))) ==> done.0
            matches Outcome::Wrote(n) && n == payload(p.request.operation) && done.1,
{
}

/// A whole control frame is moved before a handle counts as sent, however it was split.
pub proof fn law_frame_is_sent_whole<D>(kind: Kind, p: Job)
    requires
        p.request.operation is SendHandle,
        in_bounds(p),
    ensures
        absorbed::<D>(kind, p).1 matches Some(Ok(Some(done))) ==> absorbed::<D>(kind, p).0.offset
            == FRAME && done.0 is HandleSent,
{
}

/// Which operations a kind of handle takes.
pub open spec fn takes(kind: Kind, op: Operation) -> bool {
    match op {
        Operation::Connect => kind == Kind::Tcp || kind == Kind::Pipe,
        Operation::Accept { .. } => kind == Kind::Listener || kind == Kind::PipeListener,
        Operation::Read { .. } | Operation::Write(_) | Operation::Writev(_) => kind == Kind::Tcp
            || kind == Kind::Pipe || kind == Kind::Sync,
        Operation::SendTo { .. } | Operation::RecvFrom(_) => kind == Kind::Udp,
        Operation::Shutdown => kind == Kind::Tcp,
        Operation::SendHandle(_) | Operation::RecvHandle => kind == Kind::Pipe,
        _ => false,
    }
}

/// Which operations a kind of handle takes.
pub fn accepts(kind: Kind, op: &Operation) -> (valid: bool)
    ensures
        valid == takes(kind, *op),
{
    match op {
        Operation::Connect => kind == Kind::Tcp || kind == Kind::Pipe,
        Operation::Accept { .. } => kind == Kind::Listener || kind == Kind::PipeListener,
        Operation::Read { .. } | Operation::Write(_) | Operation::Writev(_) => kind == Kind::Tcp
            || kind == Kind::Pipe || kind == Kind::Sync,
        Operation::SendTo { .. } | Operation::RecvFrom(_) => kind == Kind::Udp,
        Operation::Shutdown => kind == Kind::Tcp,
        Operation::SendHandle(_) | Operation::RecvHandle => kind == Kind::Pipe,
        _ => false,
    }
}

} // verus!
