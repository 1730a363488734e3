//! The asynchronous backend: what an operation waits for, what its acknowledgement means,
//! and how a turn waits with a deadline.
use crate::open::{Open, ReusePort, Stdio};
use crate::payload::{payload, remaining, segments, Segment};
use crate::readiness::io::{lemma_first_left, lemma_parts, Kind};
use crate::types::{
    invalid, unsupported, Endpoint, Error, ErrorKind, Operation, PollInfo, Span,
};
use crate::wasi::abi::{Lifted, Text};
use crate::wasi::options::validate_accept_defaults;
use vstd::prelude::*;

verus! {

/// The code of a stream or future operation that goes on.
pub const BLOCKED: u32 = 0xffff_ffff;

/// The most bytes that a stream operation moves.
pub const MAX_STREAM: usize = 0x0fff_ffff;

/// The longest datagram.
pub const MAX_DATAGRAM: usize = 65535;

/// What an operation waits for.
#[derive(Clone, Copy, Debug, PartialEq, Eq, Structural)]
pub enum WaitKind {
    Connect,
    Accept,
    Read,
    Write,
    ReadDone,
    WriteDone,
    Send,
    Receive,
}

/// A subtask, not an operation on a stream or a future.
pub open spec fn subtask(kind: WaitKind) -> bool {
    kind is Connect || kind is Send || kind is Receive
}

/// Whether a wait is for a subtask.
pub fn is_subtask(kind: WaitKind) -> (yes: bool)
    ensures
        yes == subtask(kind),
{
    match kind {
        WaitKind::Connect => true,
        WaitKind::Send => true,
        WaitKind::Receive => true,
        _ => false,
    }
}

/// A wait of an operation: the waitable, and the code that came for it. The host may write
/// to the operation's memory until it is acknowledged.
#[derive(Clone, Copy, Debug, PartialEq, Eq, Structural)]
pub struct Wait {
    pub waitable: u32,
    pub kind: WaitKind,
    pub code: Option<u32>,
}

/// The code says that nothing is done yet.
pub open spec fn goes_on(kind: WaitKind, code: u32) -> bool {
    (subtask(kind) && code < 2) || code == BLOCKED
}

/// Begin a wait. Tells whether the waitable joins the set of those that a turn waits for.
pub fn start(kind: WaitKind, waitable: u32, code: u32) -> (begun: (Wait, bool))
    ensures
        begun.1 == goes_on(kind, code),
        begun.0 == (Wait {
            waitable,
            kind,
            code: if goes_on(kind, code) {
                None
            } else {
                Some(code)
            },
        }),
{
    if (is_subtask(kind) && code < 2) || code == BLOCKED {
        (Wait { waitable, kind, code: None }, true)
    } else {
        (Wait { waitable, kind, code: Some(code) }, false)
    }
}

/// What has become of a wait.
#[derive(Clone, Copy, Debug, PartialEq, Eq, Structural)]
pub enum Finish {
    /// The operation waits for nothing.
    Idle,
    /// It still waits.
    Waiting,
    /// It was acknowledged: leave the set, and drop the subtask, where told so.
    Finished { kind: WaitKind, code: u32, leave: bool, drop: bool },
}

/// The wait after a look at it, and what has become of it.
pub open spec fn finished(wait: Option<Wait>) -> (Option<Wait>, Finish) {
    match wait {
        None => (None, Finish::Idle),
        Some(w) => match w.code {
            None => (wait, Finish::Waiting),
            Some(code) => if subtask(w.kind) && code < 2 {
                (Some(Wait { code: None, ..w }), Finish::Waiting)
            } else {
                (
                    None,
                    Finish::Finished {
                        kind: w.kind,
                        code,
                        leave: w.waitable != 0,
                        drop: subtask(w.kind) && w.waitable != 0,
                    },
                )
            },
        },
    }
}

/// Look whether a wait was acknowledged.
pub fn finish_wait(wait: &mut Option<Wait>) -> (finish: Finish)
    ensures
        finished(*old(wait)) == (*final(wait), finish),
{
    match *wait {
        None => Finish::Idle,
        Some(w) => match w.code {
            None => Finish::Waiting,
            Some(code) => {
                if is_subtask(w.kind) && code < 2 {
                    *wait = Some(Wait { code: None, ..w });
                    return Finish::Waiting;
                }
                *wait = None;
                Finish::Finished {
                    kind: w.kind,
                    code,
                    leave: w.waitable != 0,
                    drop: is_subtask(w.kind) && w.waitable != 0,
                }
            },
        },
    }
}

/// Memory of an operation is its own again only after the host acknowledged it: a wait ends
/// with a code, and that of a subtask says that it returned or was cancelled.
pub proof fn law_wait_ends_acknowledged(wait: Option<Wait>)
    ensures
        match finished(wait).1 {
            Finish::Finished { kind, code, .. } => {
                &&& wait is Some
                &&& wait->0.code == Some(code)
                &&& wait->0.kind == kind
                &&& subtask(kind) ==> code >= 2
                &&& finished(wait).0 is None
            },
            Finish::Waiting => finished(wait).0 is Some,
            Finish::Idle => wait is None,
        },
{
}

/// Whether an operation that is not done clears the readiness of its direction: it waits,
/// and nothing came yet.
pub fn pauses(wait: &Option<Wait>) -> (yes: bool)
    ensures
        yes == (*wait is Some && (*wait)->0.code is None),
{
    match wait {
        Some(w) => w.code.is_none(),
        None => false,
    }
}

/// What follows an acknowledgement.
#[derive(Clone, Copy, Debug, PartialEq, Eq, Structural)]
pub enum After {
    Connected,
    /// Take the accepted socket over.
    Accepted,
    Read(usize),
    /// The stream ended: ask how.
    Closed,
    /// Make the next call, behind so many bytes.
    Again(usize),
    Eof,
    Shutdown,
    Sent,
    Datagram,
    Failed(Error),
}

/// A result, or that it failed.
pub open spec fn or_failed(result: Result<(), Error>, done: After) -> After {
    match result {
        Ok(_) => done,
        Err(e) => After::Failed(e),
    }
}

/// What follows an acknowledgement. `result` is what the host left for it, where it leaves
/// something.
pub open spec fn follows(kind: WaitKind, code: u32, result: Result<(), Error>, offset: usize) -> After {
    match kind {
        WaitKind::Connect => or_failed(result, After::Connected),
        WaitKind::Accept => if code % 16 != 0 {
            After::Failed(Error::plain(ErrorKind::Other))
        } else {
            After::Accepted
        },
        WaitKind::Read => if code / 16 > 0 {
            After::Read((code / 16) as usize)
        } else if code % 16 == 1 {
            After::Closed
        } else {
            After::Again(offset)
        },
        WaitKind::ReadDone => or_failed(result, After::Eof),
        WaitKind::Write => if code % 16 != 0 {
            After::Failed(Error::plain(ErrorKind::BrokenPipe))
        } else {
            After::Again((offset + code / 16) as usize)
        },
        WaitKind::WriteDone => or_failed(result, After::Shutdown),
        WaitKind::Send => or_failed(result, After::Sent),
        WaitKind::Receive => or_failed(result, After::Datagram),
    }
}

fn done_or(result: Result<(), Error>, done: After) -> (after: After)
    ensures
        after == or_failed(result, done),
{
    match result {
        Ok(_) => done,
        Err(e) => After::Failed(e),
    }
}

/// What follows an acknowledgement.
pub fn after(kind: WaitKind, code: u32, result: Result<(), Error>, offset: usize) -> (next: After)
    requires
        kind is Write ==> offset + code / 16 <= usize::MAX,
    ensures
        next == follows(kind, code, result, offset),
{
    match kind {
        WaitKind::Connect => done_or(result, After::Connected),
        WaitKind::Accept => if code % 16 != 0 {
            After::Failed(Error::new(ErrorKind::Other))
        } else {
            After::Accepted
        },
        WaitKind::Read => if code / 16 > 0 {
            After::Read((code / 16) as usize)
        } else if code % 16 == 1 {
            After::Closed
        } else {
            After::Again(offset)
        },
        WaitKind::ReadDone => done_or(result, After::Eof),
        WaitKind::Write => if code % 16 != 0 {
            After::Failed(Error::new(ErrorKind::BrokenPipe))
        } else {
            After::Again(offset + (code / 16) as usize)
        },
        WaitKind::WriteDone => done_or(result, After::Shutdown),
        WaitKind::Send => done_or(result, After::Sent),
        WaitKind::Receive => done_or(result, After::Datagram),
    }
}

/// The streams of a transport.
#[derive(Clone, Copy, Debug, PartialEq, Eq)]
pub struct StreamState {
    /// There are streams: it is connected, or standard.
    pub open: bool,
    /// The writing end was not dropped.
    pub writer: bool,
    /// The readable stream ended.
    pub read_closed: bool,
    /// How it ended, once that was asked.
    pub read_result: Option<Result<(), Error>>,
    /// How writing ended, once that was asked.
    pub write_result: Option<Result<(), Error>>,
}

/// What an operation does next.
#[derive(Clone, Copy, Debug, PartialEq, Eq, Structural)]
pub enum Issue {
    Failed(Error),
    /// It is done without a call.
    Done,
    StartConnect,
    StartAccept,
    /// With a buffer; a pool that has none is asked again.
    StartRead,
    /// Ask how the readable stream ended.
    StartReadDone,
    /// Write at most so many bytes of this part.
    StartWrite { part: Segment, len: usize },
    /// Drop the writing end and ask how writing ended.
    StartWriteDone,
    StartSend,
    StartReceive,
}

/// The part of a write that comes next.
pub open spec fn next_part(op: Operation, offset: usize) -> Option<Segment> {
    match op {
        Operation::Write(len) => if offset < len {
            Some(Segment { index: 0, skip: offset, len: (len - offset) as usize })
        } else {
            None
        },
        Operation::Writev(lens) => {
            let parts = remaining(lens@, 0, offset as int);
            if parts.len() == 0 {
                None
            } else {
                Some(parts[0])
            }
        },
        _ => None,
    }
}

/// At most what a stream moves at a time.
pub open spec fn clamped(len: usize) -> usize {
    if len < MAX_STREAM {
        len
    } else {
        MAX_STREAM
    }
}

/// What an operation does next.
pub open spec fn issued(op: Operation, offset: usize, connect: bool, s: StreamState) -> Issue {
    match op {
        Operation::Connect => if connect {
            Issue::StartConnect
        } else {
            Issue::Failed(Error::plain(ErrorKind::InvalidInput))
        },
        Operation::Accept { .. } => Issue::StartAccept,
        Operation::Read { .. } => if !s.open {
            Issue::Failed(Error::plain(ErrorKind::InvalidInput))
        } else {
            match s.read_result {
                Some(Ok(_)) => Issue::Done,
                Some(Err(e)) => Issue::Failed(e),
                None => if s.read_closed {
                    Issue::StartReadDone
                } else {
                    Issue::StartRead
                },
            }
        },
        Operation::Write(_) | Operation::Writev(_) => match next_part(op, offset) {
            None => Issue::Done,
            Some(part) => if !s.open {
                Issue::Failed(Error::plain(ErrorKind::InvalidInput))
            } else if !s.writer {
                Issue::Failed(Error::plain(ErrorKind::BrokenPipe))
            } else {
                Issue::StartWrite { part, len: clamped(part.len) }
            },
        },
        Operation::Shutdown => if !s.open {
            Issue::Failed(Error::plain(ErrorKind::InvalidInput))
        } else {
            match s.write_result {
                Some(Ok(_)) => Issue::Done,
                Some(Err(e)) => Issue::Failed(e),
                None => Issue::StartWriteDone,
            }
        },
        Operation::SendTo { len, .. } => if len > MAX_DATAGRAM {
            Issue::Failed(Error::plain(ErrorKind::InvalidInput))
        } else {
            Issue::StartSend
        },
        Operation::RecvFrom(_) => Issue::StartReceive,
        _ => Issue::Failed(Error::plain(ErrorKind::Unsupported)),
    }
}

fn part_of(op: &Operation, offset: usize) -> (part: Option<Segment>)
    ensures
        part == next_part(*op, offset),
{
    match op {
        Operation::Write(len) => if offset < *len {
            Some(Segment { index: 0, skip: offset, len: *len - offset })
        } else {
            None
        },
        Operation::Writev(lens) => {
            let parts = segments(lens, offset);
            if parts.len() == 0 {
                None
            } else {
                Some(parts[0])
            }
        },
        _ => None,
    }
}

fn issue_write(op: &Operation, offset: usize, s: &StreamState) -> (next: Issue)
    requires
        *op is Write || *op is Writev,
    ensures
        forall|connect: bool| next == #[trigger] issued(*op, offset, connect, *s),
{
    match part_of(op, offset) {
        None => Issue::Done,
        Some(part) => if !s.open {
            Issue::Failed(invalid())
        } else if !s.writer {
            Issue::Failed(Error::new(ErrorKind::BrokenPipe))
        } else {
            let len: usize = if part.len < MAX_STREAM {
                part.len
            } else {
                MAX_STREAM
            };
            Issue::StartWrite { part, len }
        },
    }
}

/// What an operation that waits for nothing does next. `connect` tells that it has an
/// address to connect to.
pub fn issue(op: &Operation, offset: usize, connect: bool, s: &StreamState) -> (next: Issue)
    ensures
        next == issued(*op, offset, connect, *s),
{
    match op {
        Operation::Connect => if connect {
            Issue::StartConnect
        } else {
            Issue::Failed(invalid())
        },
        Operation::Accept { .. } => Issue::StartAccept,
        Operation::Read { .. } => if !s.open {
            Issue::Failed(invalid())
        } else {
            match s.read_result {
                Some(Ok(_)) => Issue::Done,
                Some(Err(e)) => Issue::Failed(e),
                None => if s.read_closed {
                    Issue::StartReadDone
                } else {
                    Issue::StartRead
                },
            }
        },
        Operation::Write(_) => issue_write(op, offset, s),
        Operation::Writev(_) => issue_write(op, offset, s),
        Operation::Shutdown => if !s.open {
            Issue::Failed(invalid())
        } else {
            match s.write_result {
                Some(Ok(_)) => Issue::Done,
                Some(Err(e)) => Issue::Failed(e),
                None => Issue::StartWriteDone,
            }
        },
        Operation::SendTo { len, .. } => if *len > MAX_DATAGRAM {
            Issue::Failed(invalid())
        } else {
            Issue::StartSend
        },
        Operation::RecvFrom(_) => Issue::StartReceive,
        _ => Issue::Failed(unsupported()),
    }
}

/// Reading after the end of a stream tells the same again, and makes no call.
pub proof fn law_end_of_stream_stays(op: Operation, offset: usize, connect: bool, s: StreamState)
    requires
        op is Read,
        s.open,
        s.read_result is Some,
    ensures
        issued(op, offset, connect, s) == (match s.read_result->0 {
            Ok(_) => Issue::Done,
            Err(e) => Issue::Failed(e),
        }),
{
}

/// A write is done without a call only when all of it was written.
pub proof fn law_write_ends_whole(op: Operation, offset: usize, connect: bool, s: StreamState)
    requires
        op is Write || op is Writev,
        offset <= payload(op) <= usize::MAX,
    ensures
        issued(op, offset, connect, s) is Done <==> offset == payload(op),
{
    lemma_first_left(op, offset as int);
    if let Operation::Writev(lens) = op {
        lemma_parts(lens@, 0, offset as int);
    }
}

/// An asynchronous call as it returned: the subtask, and how far it is.
#[derive(Clone, Copy, Debug, PartialEq, Eq, Structural)]
pub struct Packed {
    pub task: u32,
    pub status: u32,
}

/// Take apart what an asynchronous call returned. Without a subtask it is done.
pub fn unpack(packed: u32) -> (call: Packed)
    ensures
        call.task == packed / 16,
        call.status == packed % 16,
{
    Packed { task: packed / 16, status: packed % 16 }
}

/// Give the code that came for a waitable to the operation that waits for it.
pub fn completed(waits: &mut Vec<Option<Wait>>, waitable: u32, code: u32) -> (slot: Option<usize>)
    ensures
        match slot {
            Some(i) => {
                &&& i < old(waits)@.len()
                &&& old(waits)@[i as int] is Some
                &&& old(waits)@[i as int]->0.waitable == waitable
                &&& forall|k: int|
                    0 <= k < i ==> !((#[trigger] old(waits)@[k]) is Some
                        && old(waits)@[k]->0.waitable == waitable)
                &&& final(waits)@ == old(waits)@.update(
                    i as int,
                    Some(Wait { code: Some(code), ..old(waits)@[i as int]->0 }),
                )
            },
            None => {
                &&& final(waits)@ == old(waits)@
                &&& forall|k: int|
                    0 <= k < old(waits)@.len() ==> !((#[trigger] old(waits)@[k]) is Some
                        && old(waits)@[k]->0.waitable == waitable)
            },
        },
{
    let ghost before = waits@;
    let mut i: usize = 0;
    while i < waits.len()
        invariant
            waits@ == before,
            before == old(waits)@,
            i <= before.len(),
            forall|k: int|
                0 <= k < i ==> !((#[trigger] before[k]) is Some && before[k]->0.waitable
                    == waitable),
        decreases before.len() - i,
    {
        if let Some(w) = waits[i] {
            if w.waitable == waitable {
                assert(before[i as int] is Some);
                waits.set(i, Some(Wait { code: Some(code), ..w }));
                return Some(i);
            }
        }
        i = i + 1;
    }
    None
}

/// What cancelling a wait does first: leave the set, and use the code that came, or cancel.
#[derive(Clone, Copy, Debug, PartialEq, Eq, Structural)]
pub struct Quiesce {
    pub leave: bool,
    /// The code to go on with; without one the call is cancelled and tells it.
    pub code: Option<u32>,
    pub drop: bool,
}

/// How what an operation waits for is stopped.
pub open spec fn stops(wait: Wait) -> Quiesce {
    Quiesce {
        leave: wait.waitable != 0,
        code: match wait.code {
            Some(code) => if subtask(wait.kind) && code < 2 {
                None
            } else {
                Some(code)
            },
            None => None,
        },
        drop: subtask(wait.kind) && wait.waitable != 0,
    }
}

/// Stop what an operation waits for.
pub fn quiesce(wait: Wait) -> (stop: Quiesce)
    ensures
        stop == stops(wait),
{
    let code = match wait.code {
        Some(code) => if is_subtask(wait.kind) && code < 2 {
            None
        } else {
            Some(code)
        },
        None => None,
    };
    Quiesce {
        leave: wait.waitable != 0,
        code,
        drop: is_subtask(wait.kind) && wait.waitable != 0,
    }
}

/// What a cancelled wait leaves behind, because the host was faster.
#[derive(Clone, Copy, Debug, PartialEq, Eq, Structural)]
pub enum Cleanup {
    Nothing,
    /// An accepted socket: drop it.
    DropSocket,
    /// A result: read it and forget it.
    DropResult,
    /// The readable stream ended: remember it.
    Closed,
    /// How reading ended: remember it.
    KeepReadResult,
    /// How writing ended: remember it.
    KeepWriteResult,
    /// A datagram, or an error in its place: give its memory back.
    DropDatagram,
}

/// What a cancelled wait leaves behind.
pub open spec fn left_behind(kind: WaitKind, code: u32) -> Cleanup {
    match kind {
        WaitKind::Accept => if code / 16 == 1 {
            Cleanup::DropSocket
        } else {
            Cleanup::Nothing
        },
        WaitKind::Connect | WaitKind::Send => if code == 2 {
            Cleanup::DropResult
        } else {
            Cleanup::Nothing
        },
        WaitKind::Read => if code % 16 == 1 {
            Cleanup::Closed
        } else {
            Cleanup::Nothing
        },
        WaitKind::ReadDone => if code % 16 == 0 {
            Cleanup::KeepReadResult
        } else {
            Cleanup::Nothing
        },
        WaitKind::WriteDone => if code % 16 == 0 {
            Cleanup::KeepWriteResult
        } else {
            Cleanup::Nothing
        },
        WaitKind::Receive => if code == 2 {
            Cleanup::DropDatagram
        } else {
            Cleanup::Nothing
        },
        WaitKind::Write => Cleanup::Nothing,
    }
}

/// What a cancelled wait leaves behind.
pub fn cleanup(kind: WaitKind, code: u32) -> (left: Cleanup)
    ensures
        left == left_behind(kind, code),
{
    match kind {
        WaitKind::Accept => if code / 16 == 1 {
            Cleanup::DropSocket
        } else {
            Cleanup::Nothing
        },
        WaitKind::Connect => if code == 2 {
            Cleanup::DropResult
        } else {
            Cleanup::Nothing
        },
        WaitKind::Send => if code == 2 {
            Cleanup::DropResult
        } else {
            Cleanup::Nothing
        },
        WaitKind::Read => if code % 16 == 1 {
            Cleanup::Closed
        } else {
            Cleanup::Nothing
        },
        WaitKind::ReadDone => if code % 16 == 0 {
            Cleanup::KeepReadResult
        } else {
            Cleanup::Nothing
        },
        WaitKind::WriteDone => if code % 16 == 0 {
            Cleanup::KeepWriteResult
        } else {
            Cleanup::Nothing
        },
        WaitKind::Receive => if code == 2 {
            Cleanup::DropDatagram
        } else {
            Cleanup::Nothing
        },
        WaitKind::Write => Cleanup::Nothing,
    }
}

/// When the deadline of a turn is: never before its time, and never past the end of time.
pub fn deadline_at(now: u64, timeout: Span) -> (at: u64)
    ensures
        at == (if now + timeout.total_nanos() > u64::MAX {
            u64::MAX as int
        } else {
            now + timeout.total_nanos()
        }),
{
    let nanos: u128 = timeout.as_nanos();
    if nanos > 0xffff_ffff_ffff_ffff - now as u128 {
        0xffff_ffff_ffff_ffff
    } else {
        now + nanos as u64
    }
}

/// Whether the subtask of a deadline joins the set of those that a turn waits for.
pub fn joins(deadline: Packed) -> (yes: bool)
    ensures
        yes == (deadline.task != 0 && deadline.status < 2),
{
    deadline.task != 0 && deadline.status < 2
}

/// How a turn waits.
#[derive(Clone, Copy, Debug, PartialEq, Eq, Structural)]
pub struct WaitPlan {
    pub blocking: bool,
    /// Let the host run before a look that does not block.
    pub yields: bool,
}

/// A turn may block: it has time, and its deadline has not passed already.
pub open spec fn may_block(timeout: Option<Span>, deadline: Option<Packed>) -> bool {
    &&& match timeout {
        Some(span) => span.total_nanos() != 0,
        None => true,
    }
    &&& match deadline {
        Some(d) => d.status < 2,
        None => true,
    }
}

/// How a turn waits. `waiting` tells that some operation waits: without one, and without a
/// deadline, nothing could ever end the wait.
pub fn plan_wait(timeout: Option<Span>, deadline: Option<Packed>, waiting: bool) -> (plan: Result<
    WaitPlan,
    Error,
>)
    ensures
        match plan {
            Ok(p) => {
                &&& deadline is Some || timeout is Some || waiting
                &&& p.blocking == may_block(timeout, deadline)
                &&& p.yields == (!may_block(timeout, deadline) && waiting)
            },
            Err(e) => deadline is None && timeout is None && !waiting && e == Error::plain(
                ErrorKind::Unsupported,
            ),
        },
{
    let timed = match timeout {
        Some(span) => !span.is_zero(),
        None => true,
    };
    let early = match deadline {
        Some(d) => d.status < 2,
        None => true,
    };
    let blocking: bool = timed && early;
    if deadline.is_none() && timeout.is_none() && !waiting {
        return Err(unsupported());
    }
    Ok(WaitPlan { blocking, yields: !blocking && waiting })
}

/// What came out of a wait: no event is kind zero.
#[derive(Clone, Copy, Debug, PartialEq, Eq, Structural)]
pub struct StepEvent {
    pub kind: u32,
    pub waitable: u32,
    pub code: u32,
}

/// What follows a wait.
#[derive(Clone, Copy, Debug, PartialEq, Eq, Structural)]
pub struct Waited {
    /// An operation's waitable reported.
    pub deliver: bool,
    /// The deadline's subtask leaves the set and is dropped.
    pub drop_deadline: bool,
    /// It is cancelled before.
    pub cancel_deadline: bool,
    pub info: PollInfo,
}

/// The event tells of the deadline.
pub open spec fn is_deadline(event: StepEvent, deadline: Option<Packed>) -> bool {
    event.kind != 0 && deadline is Some && deadline->0.task != 0 && event.waitable
        == deadline->0.task
}

/// What follows a wait. The deadline only implements the timeout: its event alone is an
/// empty wait, and it never outlives its turn.
pub fn waited(event: StepEvent, deadline: Option<Packed>, blocking: bool) -> (next: Waited)
    ensures
        next.deliver == (event.kind != 0 && !is_deadline(event, deadline)),
        next.drop_deadline == (deadline is Some && deadline->0.task != 0),
        next.cancel_deadline == (deadline is Some && deadline->0.task != 0 && deadline->0.status < 2
            && !(is_deadline(event, deadline) && event.code >= 2)),
        next.info == (PollInfo {
            waits: if blocking {
                1
            } else {
                0
            },
            discovery_polls: if blocking {
                0
            } else {
                1
            },
            zero_event_waits: if event.kind == 0 || is_deadline(event, deadline) {
                1
            } else {
                0
            },
        }),
{
    let (task, status): (u32, u32) = match deadline {
        Some(d) => (d.task, d.status),
        None => (0, 0),
    };
    let expired: bool = event.kind != 0 && task != 0 && event.waitable == task;
    Waited {
        deliver: event.kind != 0 && !expired,
        drop_deadline: task != 0,
        cancel_deadline: task != 0 && status < 2 && !(expired && event.code >= 2),
        info: PollInfo::native(!blocking, event.kind == 0 || expired),
    }
}

/// Errors of the socket interface.
#[derive(Clone, Copy, Debug, PartialEq, Eq, Structural)]
pub enum NetCode {
    NotSupported,
    InvalidArgument,
    InvalidState,
    ConnectionRefused,
    ConnectionReset,
    ConnectionAborted,
    ConnectionBroken,
    Timeout,
    OutOfMemory,
    Other,
}

/// What an error of the socket interface means.
pub open spec fn net_kind(code: NetCode) -> ErrorKind {
    match code {
        NetCode::NotSupported => ErrorKind::Unsupported,
        NetCode::InvalidArgument | NetCode::InvalidState => ErrorKind::InvalidInput,
        NetCode::ConnectionRefused => ErrorKind::ConnectionRefused,
        NetCode::ConnectionReset | NetCode::ConnectionAborted => ErrorKind::ConnectionReset,
        NetCode::ConnectionBroken => ErrorKind::BrokenPipe,
        NetCode::Timeout => ErrorKind::TimedOut,
        NetCode::OutOfMemory => ErrorKind::ResourceLimit,
        NetCode::Other => ErrorKind::Other,
    }
}

/// What an error of the socket interface means.
pub fn net_error(code: NetCode) -> (e: Error)
    ensures
        e == Error::plain(net_kind(code)),
{
    Error::new(
        match code {
            NetCode::NotSupported => ErrorKind::Unsupported,
            NetCode::InvalidArgument => ErrorKind::InvalidInput,
            NetCode::InvalidState => ErrorKind::InvalidInput,
            NetCode::ConnectionRefused => ErrorKind::ConnectionRefused,
            NetCode::ConnectionReset => ErrorKind::ConnectionReset,
            NetCode::ConnectionAborted => ErrorKind::ConnectionReset,
            NetCode::ConnectionBroken => ErrorKind::BrokenPipe,
            NetCode::Timeout => ErrorKind::TimedOut,
            NetCode::OutOfMemory => ErrorKind::ResourceLimit,
            NetCode::Other => ErrorKind::Other,
        },
    )
}

/// The error with this tag. Tags without a meaning of their own are other errors.
pub open spec fn tagged(tag: u32) -> NetCode {
    if tag == 1 {
        NetCode::NotSupported
    } else if tag == 2 {
        NetCode::InvalidArgument
    } else if tag == 3 {
        NetCode::OutOfMemory
    } else if tag == 4 {
        NetCode::Timeout
    } else if tag == 5 {
        NetCode::InvalidState
    } else if tag == 9 {
        NetCode::ConnectionRefused
    } else if tag == 10 {
        NetCode::ConnectionBroken
    } else if tag == 11 {
        NetCode::ConnectionReset
    } else if tag == 12 {
        NetCode::ConnectionAborted
    } else {
        NetCode::Other
    }
}

/// The tag of an error that may own text.
pub const OTHER_TAG: u32 = 14;

/// The error with this tag.
pub fn net_code(tag: u32) -> (code: NetCode)
    ensures
        code == tagged(tag),
{
    if tag == 1 {
        NetCode::NotSupported
    } else if tag == 2 {
        NetCode::InvalidArgument
    } else if tag == 3 {
        NetCode::OutOfMemory
    } else if tag == 4 {
        NetCode::Timeout
    } else if tag == 5 {
        NetCode::InvalidState
    } else if tag == 9 {
        NetCode::ConnectionRefused
    } else if tag == 10 {
        NetCode::ConnectionBroken
    } else if tag == 11 {
        NetCode::ConnectionReset
    } else if tag == 12 {
        NetCode::ConnectionAborted
    } else {
        NetCode::Other
    }
}

/// Read a socket result: a tag, the tag of the error, and the text that one without a name
/// may own, which is to be given back.
pub fn socket_result(area: [u32; 5]) -> (lifted: Lifted<()>)
    requires
        area@[0] % 256 <= 1,
        area@[0] % 256 == 1 ==> area@[1] % 256 <= OTHER_TAG,
    ensures
        match lifted.result {
            Ok(_) => area@[0] % 256 == 0,
            Err(e) => area@[0] % 256 == 1 && e == Error::plain(
                net_kind(tagged(area@[1] % 256)),
            ),
        },
        lifted.text == (if area@[0] % 256 == 1 && area@[1] % 256 == OTHER_TAG && area@[2] % 256
            == 1 {
            Some(Text { pointer: area@[3], len: area@[4] })
        } else {
            None
        }),
{
    if area[0] % 256 == 0 {
        return Lifted { result: Ok(()), text: None };
    }
    let tag: u32 = area[1] % 256;
    let text = if tag == OTHER_TAG && area[2] % 256 == 1 {
        Some(Text { pointer: area[3], len: area[4] })
    } else {
        None
    };
    Lifted { result: Err(net_error(net_code(tag))), text }
}

/// One import that opens something.
#[derive(Clone, Copy, Debug, PartialEq, Eq)]
pub enum Step {
    CreateTcp { v6: bool },
    CreateUdp { v6: bool },
    Backlog(u64),
    Bind(Endpoint),
    Listen,
    /// The stream of a standard descriptor.
    Standard(u32),
}

/// What the opened transport becomes.
#[derive(Clone, Copy, Debug, PartialEq, Eq, Structural)]
pub struct Adopt {
    pub kind: Kind,
    /// The address is kept for the connect operation.
    pub connect: bool,
    /// A datagram socket keeps storage for what it receives.
    pub reserve: bool,
}

/// Imports in order, and what follows when all of them succeeded.
#[derive(Debug)]
pub struct Plan {
    pub steps: Vec<Step>,
    pub outcome: Result<Adopt, Error>,
}

/// How a transport is opened. There are no local transports, and addresses are not shared.
pub open spec fn planned(open: Open) -> (Seq<Step>, Result<Adopt, Error>) {
    let refused = (Seq::<Step>::empty(), Err(Error::plain(ErrorKind::Unsupported)));
    match open {
        Open::Pipe(_) | Open::PipeListener { .. } => refused,
        Open::Stdio(which) => (
            seq![Step::Standard(which.spec_number())],
            Ok(
                Adopt {
                    kind: if which is Stdin {
                        Kind::Stdin
                    } else {
                        Kind::Stdout
                    },
                    connect: false,
                    reserve: false,
                },
            ),
        ),
        Open::Tcp { to, .. } => (
            seq![Step::CreateTcp { v6: to is V6 }],
            Ok(Adopt { kind: Kind::Tcp, connect: true, reserve: false }),
        ),
        Open::Listener { addr, opts } => if opts.reuse_port is Share
            || opts.accept_defaults.nodelay {
            refused
        } else {
            (
                seq![
                    Step::CreateTcp { v6: addr is V6 },
                    Step::Backlog(opts.backlog as u64),
                    Step::Bind(addr),
                    Step::Listen,
                ],
                Ok(Adopt { kind: Kind::Listener, connect: false, reserve: false }),
            )
        },
        Open::Udp { from, reuse_port } => if reuse_port is Share {
            refused
        } else {
            (
                seq![Step::CreateUdp { v6: from is V6 }, Step::Bind(from)],
                Ok(Adopt { kind: Kind::Udp, connect: false, reserve: true }),
            )
        },
    }
}

fn v6(addr: &Endpoint) -> (yes: bool)
    ensures
        yes == (*addr is V6),
{
    match addr {
        Endpoint::V4 { .. } => false,
        Endpoint::V6 { .. } => true,
    }
}

/// How a transport is opened.
pub fn plan(open: &Open) -> (plan: Plan)
    ensures
        (plan.steps@, plan.outcome) == planned(*open),
{
    let mut steps: Vec<Step> = Vec::new();
    let outcome: Result<Adopt, Error> = match open {
        Open::Pipe(_) => Err(unsupported()),
        Open::PipeListener { .. } => Err(unsupported()),
        Open::Stdio(which) => {
            steps.push(Step::Standard(which.number()));
            let kind = match which {
                Stdio::Stdin => Kind::Stdin,
                _ => Kind::Stdout,
            };
            Ok(Adopt { kind, connect: false, reserve: false })
        },
        Open::Tcp { to, .. } => {
            steps.push(Step::CreateTcp { v6: v6(to) });
            Ok(Adopt { kind: Kind::Tcp, connect: true, reserve: false })
        },
        Open::Listener { addr, opts } => {
            if opts.reuse_port == ReusePort::Share {
                Err(unsupported())
            } else if let Err(e) = validate_accept_defaults(opts.accept_defaults) {
                Err(e)
            } else {
                steps.push(Step::CreateTcp { v6: v6(addr) });
                steps.push(Step::Backlog(opts.backlog as u64));
                steps.push(Step::Bind(*addr));
                steps.push(Step::Listen);
                Ok(Adopt { kind: Kind::Listener, connect: false, reserve: false })
            }
        },
        Open::Udp { from, reuse_port } => {
            if *reuse_port == ReusePort::Share {
                Err(unsupported())
            } else {
                steps.push(Step::CreateUdp { v6: v6(from) });
                steps.push(Step::Bind(*from));
                Ok(Adopt { kind: Kind::Udp, connect: false, reserve: true })
            }
        },
    };
    assert(steps@ =~= planned(*open).0);
    Plan { steps, outcome }
}

/// Every transport that is opened takes the imports it is for, each with its own family, address,
/// backlog or descriptor, and no others.
pub proof fn law_open_makes_the_imports_it_is_for(open: Open, step: Step)
    requires
        planned(open).1 is Ok,
    ensures
        planned(open).0.contains(step) <==> match step {
            Step::CreateTcp { v6 } => match open {
                Open::Tcp { to, .. } => v6 <==> to is V6,
                Open::Listener { addr, .. } => v6 <==> addr is V6,
                _ => false,
            },
            Step::CreateUdp { v6 } => match open {
                Open::Udp { from, .. } => v6 <==> from is V6,
                _ => false,
            },
            Step::Backlog(n) => match open {
                Open::Listener { opts, .. } => n == opts.backlog,
                _ => false,
            },
            Step::Bind(addr) => match open {
                Open::Listener { addr: own, .. } => addr == own,
                Open::Udp { from, .. } => addr == from,
                _ => false,
            },
            Step::Listen => open is Listener,
            Step::Standard(n) => match open {
                Open::Stdio(which) => n == match which {
                    Stdio::Stdin => 0u32,
                    Stdio::Stdout => 1u32,
                    Stdio::Stderr => 2u32,
                },
                _ => false,
            },
        },
{
    let steps = planned(open).0;
    assert(steps.len() > 0 && steps.contains(steps[0]));
    if steps.len() > 1 {
        assert(steps.contains(steps[1]));
    }
    if steps.len() > 2 {
        assert(steps.contains(steps[2]));
        assert(steps.contains(steps[3]));
    }
}

/// How far an import is on the way from a new socket to one that is waited on.
pub open spec fn rank(step: Step) -> int {
    match step {
        Step::CreateTcp { .. } | Step::CreateUdp { .. } | Step::Standard(_) => 0,
        Step::Backlog(_) => 1,
        Step::Bind(_) => 2,
        Step::Listen => 3,
    }
}

/// Each import comes once and in its turn: a socket is created, bound, and then listens. Local
/// transports, shared addresses and listeners that would not delay are refused with no import
/// made. What is opened has the kind it was opened as, connects later where it names its peer, and
/// keeps storage where it receives datagrams.
pub proof fn law_open_goes_step_by_step(open: Open)
    ensures
        ({
            let (steps, outcome) = planned(open);
            &&& forall|i: int, j: int|
                0 <= i < j < steps.len() ==> rank(#[trigger] steps[i]) < rank(#[trigger] steps[j])
            &&& outcome is Err <==> match open {
                Open::Pipe(_) | Open::PipeListener { .. } => true,
                Open::Listener { opts, .. } => opts.reuse_port is Share
                    || opts.accept_defaults.nodelay,
                Open::Udp { reuse_port, .. } => reuse_port is Share,
                _ => false,
            }
            &&& outcome is Err ==> outcome->Err_0 == Error::plain(ErrorKind::Unsupported)
                && steps.len() == 0
            &&& outcome is Ok ==> {
                &&& outcome->Ok_0.connect <==> open is Tcp
                &&& outcome->Ok_0.reserve <==> open is Udp
                &&& outcome->Ok_0.kind == match open {
                    Open::Stdio(Stdio::Stdin) => Kind::Stdin,
                    Open::Stdio(_) => Kind::Stdout,
                    Open::Tcp { .. } => Kind::Tcp,
                    Open::Listener { .. } => Kind::Listener,
                    _ => Kind::Udp,
                }
            }
        }),
{
}

/// How writing into a new stream goes on after a step of it: how much is written by now, and
/// whether more is to be written.
pub fn stream_written(written: usize, total: usize, code: u32) -> (next: (usize, bool))
    requires
        written + code / 16 <= total,
    ensures
        next.0 == written + code / 16,
        next.1 == (code % 16 == 0 && next.0 < total),
{
    let now: usize = written + (code / 16) as usize;
    (now, code % 16 == 0 && now < total)
}

/// How reading a stream goes on after a step of it: how much was read by now, whether it
/// ended, and whether more is to be read.
pub fn stream_filled(filled: usize, total: usize, code: u32) -> (next: (usize, bool, bool))
    requires
        filled + code / 16 <= total,
    ensures
        next.0 == filled + code / 16,
        next.1 == (code % 16 != 0),
        next.2 == (code % 16 == 0 && next.0 < total),
{
    let now: usize = filled + (code / 16) as usize;
    (now, code % 16 != 0, code % 16 == 0 && now < total)
}

/// What an error of the socket interface means, by what it means.
pub proof fn law_socket_errors_mean_what_they_mean(code: NetCode)
    ensures
        ({
            let kind = net_kind(code);
            &&& kind == ErrorKind::Unsupported <==> code is NotSupported
            &&& kind == ErrorKind::InvalidInput <==> code is InvalidArgument || code is InvalidState
            &&& kind == ErrorKind::ConnectionRefused <==> code is ConnectionRefused
            &&& kind == ErrorKind::ConnectionReset <==> code is ConnectionReset || code
                is ConnectionAborted
            &&& kind == ErrorKind::TimedOut <==> code is Timeout
            &&& kind == ErrorKind::BrokenPipe <==> code is ConnectionBroken
            &&& kind == ErrorKind::ResourceLimit <==> code is OutOfMemory
            &&& kind == ErrorKind::Other <==> code is Other
        }),
{
}

/// Which tag tells which error; a tag without a meaning of its own tells of another one.
pub proof fn law_tags_tell_their_errors(tag: u32)
    ensures
        tagged(tag) is NotSupported <==> tag == 1,
        tagged(tag) is InvalidArgument <==> tag == 2,
        tagged(tag) is OutOfMemory <==> tag == 3,
        tagged(tag) is Timeout <==> tag == 4,
        tagged(tag) is InvalidState <==> tag == 5,
        tagged(tag) is ConnectionRefused <==> tag == 9,
        tagged(tag) is ConnectionBroken <==> tag == 10,
        tagged(tag) is ConnectionReset <==> tag == 11,
        tagged(tag) is ConnectionAborted <==> tag == 12,
        tagged(tag) is Other <==> tag == 0 || 6 <= tag <= 8 || tag > 12,
{
}

/// A turn may block unless it has no time at all or its deadline has passed. Only an event of the
/// deadline's own subtask tells of it.
pub proof fn law_turns_block_until_their_deadline(
    timeout: Option<Span>,
    deadline: Option<Packed>,
    event: StepEvent,
)
    ensures
        may_block(timeout, deadline) <==> !(timeout is Some && timeout->0.total_nanos() == 0) && !(
        deadline is Some && deadline->0.status >= 2),
        is_deadline(event, deadline) <==> deadline is Some && event.kind != 0 && event.waitable != 0
            && event.waitable == deadline->0.task,
{
}

} // verus!
