//! An attempt at an operation of the asynchronous backend: what an acknowledgement brought,
//! what the streams remember of it, and the call that comes next.
use crate::payload::{lemma_payload_nonnegative, payload, Attempt};
use crate::readiness::io::{answers_driven, in_bounds, Pending, Reply};
use crate::types::{Endpoint, Error, ErrorKind, Lease, Operation, Outcome};
use crate::wasi::p3::{
    after, follows, issue, issued, law_write_ends_whole, pauses, After, Finish, Issue, StreamState,
    Wait, WaitKind,
};
use vstd::prelude::*;

verus! {

/// What came with an acknowledgement, besides its code and its result.
pub enum Ack<D> {
    Nothing,
    /// The accepted socket with its peer, or why it was not taken over.
    Socket(Result<(D, Endpoint), Error>),
    /// The pool buffer that the bytes are in, where it is one.
    Lease(Option<Lease>),
    /// A datagram of so many bytes, and the room for it; there is none where the pool is out
    /// of buffers.
    Datagram { len: usize, from: Endpoint, room: Option<usize>, lease: Option<Lease> },
}

/// What an attempt came to.
pub enum Driven<D> {
    /// It ended so.
    Attempt(Attempt<D>),
    /// Make this call.
    Call(Issue),
}

/// The operation waits for such things.
pub open spec fn serves(op: Operation, kind: WaitKind) -> bool {
    match kind {
        WaitKind::Connect => op is Connect,
        WaitKind::Accept => op is Accept,
        WaitKind::Read | WaitKind::ReadDone => op is Read,
        WaitKind::Write => op is Write || op is Writev,
        WaitKind::WriteDone => op is Shutdown,
        WaitKind::Send => op is SendTo,
        WaitKind::Receive => op is RecvFrom,
    }
}

/// What an acknowledgement is like: it is one of the operation, an accept brings one socket,
/// no more is written than there is, and the streams are still there.
pub open spec fn acknowledges<D>(
    op: Operation,
    kind: WaitKind,
    code: u32,
    result: Result<(), Error>,
    offset: usize,
    ack: Ack<D>,
    s: StreamState,
) -> bool {
    &&& serves(op, kind)
    &&& match kind {
        WaitKind::Accept => code % 16 == 0 ==> code / 16 == 1 && ack is Socket,
        WaitKind::Read => s.open && (code / 16 > 0 ==> ack is Lease),
        WaitKind::ReadDone | WaitKind::WriteDone => s.open,
        WaitKind::Write => offset + code / 16 <= payload(op) <= usize::MAX,
        WaitKind::Send => offset == payload(op),
        WaitKind::Receive => result is Ok ==> ack is Datagram,
        WaitKind::Connect => true,
    }
}

/// A completion is not the last: the operation is asked for once and answered many times.
pub open spec fn repeats(op: Operation) -> bool {
    match op {
        Operation::Accept { multishot } => multishot,
        Operation::Read { multishot, .. } => multishot,
        _ => false,
    }
}

/// Streams of a new connection.
pub open spec fn connected_streams() -> StreamState {
    StreamState {
        open: true,
        writer: true,
        read_closed: false,
        read_result: None,
        write_result: None,
    }
}

/// The last completion.
pub open spec fn ends<D>(outcome: Outcome<D>) -> Driven<D> {
    Driven::Attempt(Ok(Some((outcome, true))))
}

/// What is told of an operation that is done without a call.
pub open spec fn settled<D>(op: Operation, offset: usize) -> Outcome<D> {
    match op {
        Operation::Read { .. } => Outcome::Eof,
        Operation::Shutdown => Outcome::Shutdown,
        _ => Outcome::Wrote(offset),
    }
}

/// The streams, the bytes that are dealt with, and what comes next of an operation that waits
/// for nothing. The writing end is dropped before its result is asked for, and a datagram is
/// sent as one.
pub open spec fn proceeds<D>(op: Operation, offset: usize, connect: bool, s: StreamState) -> (
    StreamState,
    usize,
    Driven<D>,
) {
    match issued(op, offset, connect, s) {
        Issue::Failed(e) => (s, offset, Driven::Attempt(Err(e))),
        Issue::Done => (s, offset, ends(settled(op, offset))),
        Issue::StartWriteDone => (
            StreamState { writer: false, ..s },
            offset,
            Driven::Call(Issue::StartWriteDone),
        ),
        Issue::StartSend => (s, payload(op) as usize, Driven::Call(Issue::StartSend)),
        call => (s, offset, Driven::Call(call)),
    }
}

/// What the streams remember of a result.
pub open spec fn remembered(kind: WaitKind, result: Result<(), Error>, s: StreamState) -> StreamState {
    match kind {
        WaitKind::ReadDone => StreamState { read_result: Some(result), ..s },
        WaitKind::WriteDone => StreamState { write_result: Some(result), ..s },
        _ => s,
    }
}

/// Bytes of a datagram that its buffer takes; the rest is lost.
pub open spec fn fitting(len: usize, room: usize) -> usize {
    if room < len {
        room
    } else {
        len
    }
}

/// The streams, the bytes that are dealt with, and what comes next after an acknowledgement.
pub open spec fn acked<D>(
    op: Operation,
    kind: WaitKind,
    code: u32,
    result: Result<(), Error>,
    offset: usize,
    ack: Ack<D>,
    s: StreamState,
) -> (StreamState, usize, Driven<D>) {
    match follows(kind, code, result, offset) {
        After::Failed(e) => (remembered(kind, result, s), offset, Driven::Attempt(Err(e))),
        After::Connected => (connected_streams(), offset, ends(Outcome::Connected)),
        After::Accepted => (
            s,
            offset,
            Driven::Attempt(
                match ack->Socket_0 {
                    Ok((transport, peer)) => Ok(
                        Some((Outcome::Accepted { transport, peer }, !repeats(op))),
                    ),
                    Err(e) => Err(e),
                },
            ),
        ),
        After::Read(n) => (
            s,
            offset,
            Driven::Attempt(Ok(Some((Outcome::Read { n, lease: ack->Lease_0 }, !repeats(op))))),
        ),
        After::Closed => (
            StreamState { read_closed: true, ..s },
            offset,
            Driven::Call(Issue::StartReadDone),
        ),
        After::Again(next) => proceeds(op, next, false, s),
        After::Eof => (remembered(kind, result, s), offset, ends(Outcome::Eof)),
        After::Shutdown => (remembered(kind, result, s), offset, ends(Outcome::Shutdown)),
        After::Sent => (s, offset, ends(Outcome::Wrote(offset))),
        After::Datagram => (
            s,
            offset,
            match ack->room {
                None => Driven::Attempt(Err(Error::plain(ErrorKind::ResourceLimit))),
                Some(room) => ends(
                    Outcome::RecvFrom {
                        n: fitting(ack->len, room),
                        from: ack->from,
                        lease: ack->Datagram_lease,
                    },
                ),
            },
        ),
    }
}

fn end<D>(outcome: Outcome<D>) -> (driven: Driven<D>)
    ensures
        driven == ends(outcome),
{
    Driven::Attempt(Ok(Some((outcome, true))))
}

fn multishot(op: &Operation) -> (yes: bool)
    ensures
        yes == repeats(*op),
{
    match op {
        Operation::Accept { multishot } => *multishot,
        Operation::Read { multishot, .. } => *multishot,
        _ => false,
    }
}

/// Go on with an operation that waits for nothing. `connect` tells that it has an address to
/// connect to.
pub fn proceed<D>(op: &Operation, offset: usize, connect: bool, s: &mut StreamState) -> (step: (
    usize,
    Driven<D>,
))
    ensures
        proceeds::<D>(*op, offset, connect, *old(s)) == (*final(s), step.0, step.1),
{
    match issue(op, offset, connect, s) {
        Issue::Failed(e) => (offset, Driven::Attempt(Err(e))),
        Issue::Done => match op {
            Operation::Read { .. } => (offset, end(Outcome::Eof)),
            Operation::Shutdown => (offset, end(Outcome::Shutdown)),
            _ => (offset, end(Outcome::Wrote(offset))),
        },
        Issue::StartWriteDone => {
            s.writer = false;
            (offset, Driven::Call(Issue::StartWriteDone))
        },
        Issue::StartSend => {
            let len: usize = match op {
                Operation::SendTo { len, .. } => *len,
                _ => offset,
            };
            (len, Driven::Call(Issue::StartSend))
        },
        call => (offset, Driven::Call(call)),
    }
}

/// Take an acknowledgement. A call that ended without a subtask was acknowledged at once.
pub fn acknowledged<D>(
    op: &Operation,
    kind: WaitKind,
    code: u32,
    result: Result<(), Error>,
    offset: usize,
    ack: Ack<D>,
    s: &mut StreamState,
) -> (step: (usize, Driven<D>))
    requires
        acknowledges(*op, kind, code, result, offset, ack, *old(s)),
    ensures
        acked(*op, kind, code, result, offset, ack, *old(s)) == (*final(s), step.0, step.1),
{
    match kind {
        WaitKind::ReadDone => {
            s.read_result = Some(result);
        },
        WaitKind::WriteDone => {
            s.write_result = Some(result);
        },
        _ => {},
    }
    match after(kind, code, result, offset) {
        After::Failed(e) => (offset, Driven::Attempt(Err(e))),
        After::Connected => {
            *s = StreamState {
                open: true,
                writer: true,
                read_closed: false,
                read_result: None,
                write_result: None,
            };
            (offset, end(Outcome::Connected))
        },
        After::Accepted => match ack {
            Ack::Socket(Ok((transport, peer))) => (
                offset,
                Driven::Attempt(Ok(Some((Outcome::Accepted { transport, peer }, !multishot(op))))),
            ),
            Ack::Socket(Err(e)) => (offset, Driven::Attempt(Err(e))),
            _ => (offset, Driven::Attempt(Ok(None))),
        },
        After::Read(n) => {
            let lease = match ack {
                Ack::Lease(lease) => lease,
                _ => None,
            };
            (offset, Driven::Attempt(Ok(Some((Outcome::Read { n, lease }, !multishot(op))))))
        },
        After::Closed => {
            s.read_closed = true;
            (offset, Driven::Call(Issue::StartReadDone))
        },
        After::Again(next) => proceed(op, next, false, s),
        After::Eof => (offset, end(Outcome::Eof)),
        After::Shutdown => (offset, end(Outcome::Shutdown)),
        After::Sent => (offset, end(Outcome::Wrote(offset))),
        After::Datagram => match ack {
            Ack::Datagram { len, from, room, lease } => match room {
                None => (offset, Driven::Attempt(Err(Error::new(ErrorKind::ResourceLimit)))),
                Some(room) => {
                    let n: usize = if room < len {
                        room
                    } else {
                        len
                    };
                    (offset, end(Outcome::RecvFrom { n, from, lease }))
                },
            },
            _ => (offset, Driven::Attempt(Ok(None))),
        },
    }
}

/// An attempt finds what its wait allows.
pub open spec fn attemptable<D>(
    op: Operation,
    finish: Finish,
    result: Result<(), Error>,
    offset: usize,
    ack: Ack<D>,
    s: StreamState,
) -> bool {
    match finish {
        Finish::Finished { kind, code, .. } => acknowledges(
            op,
            kind,
            code,
            result,
            offset,
            ack,
            s,
        ),
        _ => true,
    }
}

/// The streams, the bytes that are dealt with, and what an attempt came to.
pub open spec fn executed<D>(
    op: Operation,
    finish: Finish,
    result: Result<(), Error>,
    offset: usize,
    connect: bool,
    ack: Ack<D>,
    s: StreamState,
) -> (StreamState, usize, Driven<D>) {
    match finish {
        Finish::Waiting => (s, offset, Driven::Attempt(Ok(None))),
        Finish::Idle => proceeds(op, offset, connect, s),
        Finish::Finished { kind, code, .. } => acked(op, kind, code, result, offset, ack, s),
    }
}

/// One attempt at an operation. `finish` tells what has become of its wait, `result` and `ack`
/// what the host left for it.
pub fn execute<D>(
    op: &Operation,
    finish: Finish,
    result: Result<(), Error>,
    offset: usize,
    connect: bool,
    ack: Ack<D>,
    s: &mut StreamState,
) -> (step: (usize, Driven<D>))
    requires
        attemptable(*op, finish, result, offset, ack, *old(s)),
    ensures
        executed(*op, finish, result, offset, connect, ack, *old(s)) == (
            *final(s),
            step.0,
            step.1,
        ),
{
    match finish {
        Finish::Waiting => (offset, Driven::Attempt(Ok(None))),
        Finish::Idle => proceed(op, offset, connect, s),
        Finish::Finished { kind, code, .. } => acknowledged(op, kind, code, result, offset, ack, s),
    }
}

/// How an attempt went, with a wait that goes on or not.
pub open spec fn told<D>(driven: Driven<D>, paused: bool) -> Attempt<D> {
    let nothing: Attempt<D> = if paused {
        Err(Error::plain(ErrorKind::WouldBlock))
    } else {
        Ok(None)
    };
    match driven {
        Driven::Call(_) => nothing,
        Driven::Attempt(attempt) => match attempt {
            Ok(None) => nothing,
            _ => attempt,
        },
    }
}

/// How an attempt went, for the turn that made it. `wait` is what the operation waits for
/// after the call was made. One that waits, and to which nothing came yet, is not tried again
/// before something comes.
pub fn reply<D>(offset: usize, driven: Driven<D>, wait: &Option<Wait>) -> (reply: Reply<D>)
    ensures
        reply == (Reply::Driven {
            offset,
            attempt: told(driven, *wait is Some && (*wait)->0.code is None),
        }),
{
    let nothing: Attempt<D> = if pauses(wait) {
        Err(Error::new(ErrorKind::WouldBlock))
    } else {
        Ok(None)
    };
    let attempt = match driven {
        Driven::Call(_) => nothing,
        Driven::Attempt(Ok(None)) => nothing,
        Driven::Attempt(attempt) => attempt,
    };
    Reply::Driven { offset, attempt }
}

/// Whatever an attempt came to, it answers its operation: with an outcome of that operation,
/// for the last time unless it was asked for many, and a write only when all is written.
pub proof fn law_attempt_answers<D>(
    p: Pending,
    finish: Finish,
    result: Result<(), Error>,
    connect: bool,
    ack: Ack<D>,
    s: StreamState,
    paused: bool,
)
    requires
        in_bounds(p),
        !p.flushing,
        attemptable(p.request.operation, finish, result, p.offset, ack, s),
    ensures
        ({
            let run = executed(p.request.operation, finish, result, p.offset, connect, ack, s);
            answers_driven(p, Reply::Driven { offset: run.1, attempt: told(run.2, paused) })
        }),
{
    let op = p.request.operation;
    lemma_payload_nonnegative(op);
    if op is Write || op is Writev {
        law_write_ends_whole(op, p.offset, connect, s);
        if let Finish::Finished { kind, code, .. } = finish {
            law_write_ends_whole(op, (p.offset + code / 16) as usize, false, s);
        }
    }
}

/// A stream tells its end once it is known, and each time again: the attempt after it makes no
/// call and comes to the same.
pub proof fn law_end_is_told_again<D>(
    op: Operation,
    code: u32,
    result: Result<(), Error>,
    offset: usize,
    ack: Ack<D>,
    s: StreamState,
)
    requires
        op is Read || op is Shutdown,
        s.open,
    ensures
        ({
            let kind = if op is Read {
                WaitKind::ReadDone
            } else {
                WaitKind::WriteDone
            };
            let first = acked(op, kind, code, result, offset, ack, s);
            proceeds::<D>(op, offset, false, first.0) == first
        }),
{
}

} // verus!
