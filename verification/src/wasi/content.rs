//! What operations of the asynchronous backend are for: the bytes that writes move, the calls
//! that operations make, what is told of acknowledgements, and how a wait ends.
use crate::payload::{payload, remaining, Segment};
use crate::readiness::content::{
    carries as given, gathered, lemma_carries, lemma_places, lemma_remaining_content, many, seen,
    whole,
};
use crate::types::{Error, ErrorKind, Operation, Outcome};
use crate::wasi::cancel::{kept, leaves};
use crate::wasi::drive::{
    acked, acknowledges, executed, proceeds, serves, told, Ack, Driven,
};
use crate::wasi::p3::{
    finished, goes_on, issued, left_behind, stops, Cleanup, Finish, Issue, StreamState, Wait,
    WaitKind,
};
use vstd::prelude::*;

verus! {

/// The bytes that a call hands to the host.
pub open spec fn offered(call: Issue, bufs: Seq<Seq<u8>>) -> Seq<u8> {
    match call {
        Issue::StartWrite { part, len } => seen(bufs, part).take(len as int),
        _ => Seq::empty(),
    }
}

/// A call of a write hands over the bytes that come next, no more than a stream moves at a time,
/// and none is made only when none is left or the streams cannot take any.
pub proof fn law_write_hands_over_what_is_left(
    op: Operation,
    offset: usize,
    connect: bool,
    s: StreamState,
    bufs: Seq<Seq<u8>>,
)
    requires
        given(op, bufs),
        offset <= payload(op) <= usize::MAX,
    ensures
        ({
            let left = whole(bufs, 0).skip(offset as int);
            let call = issued(op, offset, connect, s);
            let part = offered(call, bufs);
            &&& left.len() == 0 <==> call is Done
            &&& left.len() > 0 && s.open && s.writer <==> call is StartWrite
            &&& left.len() > 0 && !s.open ==> call == Issue::Failed(
                Error::plain(ErrorKind::InvalidInput),
            )
            &&& left.len() > 0 && s.open && !s.writer ==> call == Issue::Failed(
                Error::plain(ErrorKind::BrokenPipe),
            )
            &&& part.len() <= left.len()
            &&& part == left.take(part.len() as int)
            &&& call is StartWrite ==> 0 < part.len() <= 0x0fff_ffff && part.len() == call->len
        }),
{
    let left = whole(bufs, 0).skip(offset as int);
    let call = issued(op, offset, connect, s);
    lemma_carries(op, bufs);
    if let Operation::Writev(lens) = op {
        lemma_remaining_content(bufs, lens@, 0, offset as int);
        lemma_places(bufs, lens@, 0, offset as int);
        crate::readiness::io::lemma_parts(lens@, 0, offset as int);
        let parts = remaining(lens@, 0, offset as int);
        if parts.len() > 0 {
            assert(gathered(bufs, parts) == seen(bufs, parts[0]) + gathered(
                bufs,
                parts.drop_first(),
            ));
            assert(seen(bufs, parts[0]).len() == parts[0].len);
            if let Issue::StartWrite { len, .. } = call {
                assert(left.take(len as int) =~= seen(bufs, parts[0]).take(len as int));
            }
        }
    }
    if let Operation::Write(len) = op {
        if offset < len {
            let part = Segment { index: 0, skip: offset, len: (len - offset) as usize };
            assert(seen(bufs, part) =~= left);
        }
    }
}

/// An acknowledgement of `n` bytes moves a write on by `n`; it is done when all of its payload
/// was moved, and told with its length. Where the reader is gone, the write fails.
pub proof fn law_write_goes_on_where_it_was<D>(
    op: Operation,
    code: u32,
    result: Result<(), Error>,
    offset: usize,
    ack: Ack<D>,
    s: StreamState,
    bufs: Seq<Seq<u8>>,
    n: nat,
)
    requires
        given(op, bufs),
        payload(op) <= usize::MAX,
        code / 16 == n,
        offset + n <= whole(bufs, 0).len(),
    ensures
        ({
            let (after, next, driven) = acked(op, WaitKind::Write, code, result, offset, ack, s);
            let all = whole(bufs, 0);
            &&& code % 16 != 0 ==> driven == Driven::<D>::Attempt(
                Err(Error::plain(ErrorKind::BrokenPipe)),
            )
            &&& code % 16 == 0 ==> {
                &&& next == offset + n
                &&& all.take(offset as int) + all.skip(offset as int).take(n as int) == all.take(
                    next as int,
                )
                &&& driven is Attempt && driven->Attempt_0 is Ok <==> next == all.len()
                &&& next == all.len() ==> driven == Driven::<D>::Attempt(
                    Ok(Some((Outcome::Wrote(all.len() as usize), true))),
                )
                &&& next < all.len() && s.open && s.writer ==> driven is Call
                    && driven->Call_0 is StartWrite
            }
            &&& after == s
        }),
{
    lemma_carries(op, bufs);
    let all = whole(bufs, 0);
    if code % 16 == 0 {
        let next = (offset + n) as usize;
        law_write_hands_over_what_is_left(op, next, false, s, bufs);
        assert(all.take(offset as int) + all.skip(offset as int).take(n as int) =~= all.take(
            next as int,
        ));
    }
}

/// How far a write is after the first `k` acknowledgements.
pub open spec fn written<D>(op: Operation, codes: Seq<u32>, s: StreamState, k: int) -> usize
    decreases k,
{
    if k <= 0 {
        0
    } else {
        acked::<D>(
            op,
            WaitKind::Write,
            codes[k - 1],
            Ok(()),
            written::<D>(op, codes, s, k - 1),
            Ack::Nothing,
            s,
        ).1
    }
}

/// What was moved in the first `k` calls: of each, what its acknowledgement told of it.
pub open spec fn received<D>(
    op: Operation,
    bufs: Seq<Seq<u8>>,
    codes: Seq<u32>,
    s: StreamState,
    k: int,
) -> Seq<u8>
    decreases k,
{
    if k <= 0 {
        Seq::empty()
    } else {
        received::<D>(op, bufs, codes, s, k - 1) + offered(
            issued(op, written::<D>(op, codes, s, k - 1), false, s),
            bufs,
        ).take((codes[k - 1] / 16) as int)
    }
}

/// Over any run of calls and acknowledgements what was moved of a write is the start of its
/// payload, each byte once and in order.
pub proof fn law_writes_move_their_payload<D>(
    op: Operation,
    bufs: Seq<Seq<u8>>,
    codes: Seq<u32>,
    s: StreamState,
    k: int,
)
    requires
        given(op, bufs),
        payload(op) <= usize::MAX,
        0 <= k <= codes.len(),
        forall|i: int|
            0 <= i < k ==> {
                let call = issued(op, written::<D>(op, codes, s, i), false, s);
                &&& (#[trigger] codes[i]) % 16 == 0
                &&& codes[i] / 16 <= offered(call, bufs).len()
            },
    ensures
        written::<D>(op, codes, s, k) <= whole(bufs, 0).len(),
        received::<D>(op, bufs, codes, s, k) == whole(bufs, 0).take(
            written::<D>(op, codes, s, k) as int,
        ),
    decreases k,
{
    let all = whole(bufs, 0);
    lemma_carries(op, bufs);
    if k == 0 {
        assert(all.take(0) =~= Seq::empty());
    } else {
        law_writes_move_their_payload::<D>(op, bufs, codes, s, k - 1);
        let offset = written::<D>(op, codes, s, k - 1);
        let code = codes[k - 1];
        law_write_hands_over_what_is_left(op, offset, false, s, bufs);
        let call = issued(op, offset, false, s);
        let n = (code / 16) as int;
        law_write_goes_on_where_it_was::<D>(
            op,
            code,
            Ok(()),
            offset,
            Ack::Nothing,
            s,
            bufs,
            n as nat,
        );
        assert(offered(call, bufs).take(n) =~= all.skip(offset as int).take(n));
    }
}

/// An operation that waits for nothing makes the call it is for, and no other operation does. A
/// read asks how its stream ended once it ended, a shutdown drops the writing end, and what is
/// known of the end of a stream needs no call.
pub proof fn law_operations_make_their_own_calls<D>(
    op: Operation,
    offset: usize,
    connect: bool,
    s: StreamState,
)
    ensures
        ({
            let call = issued(op, offset, connect, s);
            let (after, next, driven) = proceeds::<D>(op, offset, connect, s);
            &&& call is StartConnect <==> op is Connect && connect
            &&& call is StartAccept <==> op is Accept
            &&& call is StartRead <==> op is Read && s.open && s.read_result is None
                && !s.read_closed
            &&& call is StartReadDone <==> op is Read && s.open && s.read_result is None
                && s.read_closed
            &&& call is StartWriteDone <==> op is Shutdown && s.open && s.write_result is None
            &&& call is StartWrite ==> op is Write || op is Writev
            &&& call is StartSend <==> (op matches Operation::SendTo { len, .. } && len <= 65535)
            &&& call is StartReceive <==> op is RecvFrom
            &&& driven is Call <==> !(call is Failed) && !(call is Done)
            &&& driven is Call ==> driven->Call_0 == call
            &&& call is Failed ==> driven == Driven::<D>::Attempt(Err(call->Failed_0))
            &&& call is Done ==> driven == Driven::<D>::Attempt(
                Ok(
                    Some(
                        (
                            match op {
                                Operation::Read { .. } => Outcome::Eof,
                                Operation::Shutdown => Outcome::Shutdown,
                                _ => Outcome::Wrote(offset),
                            },
                            true,
                        ),
                    ),
                ),
            )
            &&& call is StartWriteDone ==> !after.writer
            &&& !(call is StartWriteDone) ==> after == s
            &&& next == (match op {
                Operation::SendTo { len, .. } => if len <= 65535 {
                    len
                } else {
                    offset
                },
                _ => offset,
            })
            &&& op is Connect && !connect || op is SendTo && call is Failed || (op is Read || op
                is Shutdown) && !s.open ==> call == Issue::Failed(
                Error::plain(ErrorKind::InvalidInput),
            )
        }),
{
}

/// What is told of an acknowledgement is what it says: bytes and datagrams with their count and
/// buffer, sockets with their peer, a failure as it is. A datagram is cut where its buffer ends.
pub proof fn law_acknowledgements_are_told_as_they_are<D>(
    op: Operation,
    kind: WaitKind,
    code: u32,
    result: Result<(), Error>,
    offset: usize,
    ack: Ack<D>,
    s: StreamState,
)
    requires
        acknowledges(op, kind, code, result, offset, ack, s),
    ensures
        ({
            let (after, next, driven) = acked(op, kind, code, result, offset, ack, s);
            let told = driven->Attempt_0;
            match kind {
                WaitKind::Connect => driven is Attempt && match result {
                    Ok(_) => told == Ok::<Option<(Outcome<D>, bool)>, Error>(
                        Some((Outcome::Connected, true)),
                    ) && after.open && after.writer && !after.read_closed && after.read_result
                        is None && after.write_result is None,
                    Err(e) => told == Err::<Option<(Outcome<D>, bool)>, Error>(e) && after == s,
                },
                WaitKind::Accept => driven is Attempt && {
                    &&& after == s
                    &&& code % 16 != 0 ==> told == Err::<Option<(Outcome<D>, bool)>, Error>(
                        Error::plain(ErrorKind::Other),
                    )
                    &&& code % 16 == 0 ==> match ack->Socket_0 {
                        Ok((transport, peer)) => told == Ok::<Option<(Outcome<D>, bool)>, Error>(
                            Some((Outcome::Accepted { transport, peer }, !many(op))),
                        ),
                        Err(e) => told == Err::<Option<(Outcome<D>, bool)>, Error>(e),
                    }
                },
                WaitKind::Read => if code >= 16 {
                    driven is Attempt && told == Ok::<Option<(Outcome<D>, bool)>, Error>(
                        Some(
                            (
                                Outcome::Read { n: (code / 16) as usize, lease: ack->Lease_0 },
                                !many(op),
                            ),
                        ),
                    ) && after == s
                } else if code == 1 {
                    driven == Driven::<D>::Call(Issue::StartReadDone) && after.read_closed
                } else {
                    (after, next, driven) == proceeds::<D>(op, offset, false, s)
                },
                WaitKind::Write => true,
                WaitKind::ReadDone => driven is Attempt && after.read_result == Some(result)
                    && after.write_result == s.write_result && match result {
                    Ok(_) => told == Ok::<Option<(Outcome<D>, bool)>, Error>(
                        Some((Outcome::Eof, true)),
                    ),
                    Err(e) => told == Err::<Option<(Outcome<D>, bool)>, Error>(e),
                },
                WaitKind::WriteDone => driven is Attempt && after.write_result == Some(result)
                    && after.read_result == s.read_result && match result {
                    Ok(_) => told == Ok::<Option<(Outcome<D>, bool)>, Error>(
                        Some((Outcome::Shutdown, true)),
                    ),
                    Err(e) => told == Err::<Option<(Outcome<D>, bool)>, Error>(e),
                },
                WaitKind::Send => driven is Attempt && after == s && match result {
                    Ok(_) => told == Ok::<Option<(Outcome<D>, bool)>, Error>(
                        Some((Outcome::Wrote(payload(op) as usize), true)),
                    ),
                    Err(e) => told == Err::<Option<(Outcome<D>, bool)>, Error>(e),
                },
                WaitKind::Receive => driven is Attempt && after == s && match result {
                    Ok(_) => match ack->room {
                        Some(room) => told is Ok && told->Ok_0 is Some && ({
                            let (outcome, last) = told->Ok_0->0;
                            &&& last
                            &&& outcome is RecvFrom
                            &&& outcome->RecvFrom_n <= room
                            &&& outcome->RecvFrom_n <= ack->len
                            &&& outcome->RecvFrom_n == room || outcome->RecvFrom_n == ack->len
                            &&& outcome->from == ack->from
                            &&& outcome->RecvFrom_lease == ack->Datagram_lease
                        }),
                        None => told == Err::<Option<(Outcome<D>, bool)>, Error>(
                            Error::plain(ErrorKind::ResourceLimit),
                        ),
                    },
                    Err(e) => told == Err::<Option<(Outcome<D>, bool)>, Error>(e),
                },
            }
        }),
{
}

/// An attempt at an operation that still waits does nothing; one at an operation that waits for
/// nothing makes its call; one whose wait was acknowledged tells of it.
pub proof fn law_attempts_follow_their_wait<D>(
    op: Operation,
    wait: Option<Wait>,
    result: Result<(), Error>,
    offset: usize,
    connect: bool,
    ack: Ack<D>,
    s: StreamState,
)
    ensures
        ({
            let finish = finished(wait).1;
            let run = executed(op, finish, result, offset, connect, ack, s);
            &&& wait is None ==> run == proceeds::<D>(op, offset, connect, s)
            &&& wait is Some && wait->0.code is Some && !goes_on(wait->0.kind, wait->0.code->0)
                ==> run == acked(op, wait->0.kind, wait->0.code->0, result, offset, ack, s)
            &&& wait is Some && wait->0.code is None ==> run == (
                s,
                offset,
                Driven::<D>::Attempt(Ok(None)),
            )
        }),
{
}

/// Only a subtask that is starting or started, and what is blocked, goes on. A wait ends with the
/// code that came for it, and whoever stops it first goes on with that same code, leaves the set
/// and drops the subtask just as if it had ended by itself.
pub proof fn law_stopping_is_ending(wait: Wait)
    ensures
        ({
            let task = wait.kind is Connect || wait.kind is Send || wait.kind is Receive;
            let stop = stops(wait);
            let end = finished(Some(wait)).1;
            &&& wait.code is Some ==> (goes_on(wait.kind, wait.code->0) <==> task && (
            wait.code->0 == 0 || wait.code->0 == 1) || wait.code->0 == 0xffff_ffff)
            &&& stop.code is Some <==> end is Finished
            &&& end is Finished <==> wait.code is Some && !(task && wait.code->0 < 2)
            &&& end is Finished ==> {
                &&& stop.code == Some(end->code)
                &&& end->code == wait.code->0
                &&& end->kind == wait.kind
                &&& stop.leave == end->leave
                &&& stop.drop == end->drop
            }
            &&& stop.leave <==> wait.waitable != 0
            &&& stop.drop <==> wait.waitable != 0 && task
        }),
{
}

/// What the host finished before it was stopped is not forgotten: an accepted socket and a
/// returned datagram or result are given back, and what became known of a stream's end is kept.
/// What it did not finish leaves nothing.
pub proof fn law_nothing_is_left_behind(kind: WaitKind, code: u32)
    ensures
        ({
            let left = left_behind(kind, code);
            let returned = code == 2;
            &&& left is DropSocket <==> kind is Accept && code / 16 == 1
            &&& left is DropResult <==> (kind is Connect || kind is Send) && returned
            &&& left is DropDatagram <==> kind is Receive && returned
            &&& left is Closed <==> kind is Read && code % 16 == 1
            &&& left is KeepReadResult <==> kind is ReadDone && code % 16 == 0
            &&& left is KeepWriteResult <==> kind is WriteDone && code % 16 == 0
            &&& leaves(None, code) is Nothing
        }),
{
}

/// What a stopped wait leaves behind is judged by the code that came before, if one had, and by
/// what stopping it told otherwise.
pub proof fn law_the_code_that_came_counts(wait: Wait, code: u32)
    ensures
        match finished(Some(wait)).1 {
            Finish::Finished { code: came, .. } => leaves(Some(wait), code) == left_behind(
                wait.kind,
                came,
            ),
            _ => leaves(Some(wait), code) == left_behind(wait.kind, code),
        },
{
}

/// Each operation waits only for what it is for.
pub proof fn law_waits_belong_to_their_operations(op: Operation, kind: WaitKind)
    requires
        serves(op, kind),
    ensures
        op is Connect <==> kind is Connect,
        op is Accept <==> kind is Accept,
        op is Read <==> kind is Read || kind is ReadDone,
        op is Write || op is Writev <==> kind is Write,
        op is Shutdown <==> kind is WriteDone,
        op is SendTo <==> kind is Send,
        op is RecvFrom <==> kind is Receive,
{
}

/// What became known of a stream before its operation was stopped is remembered, and nothing else of
/// it changes: that it ended, how reading ended, how writing ended.
pub proof fn law_streams_remember_what_was_left(
    left: Cleanup,
    result: Result<(), Error>,
    s: StreamState,
)
    ensures
        ({
            let after = kept(left, result, s);
            &&& after.open == s.open && after.writer == s.writer
            &&& after.read_closed <==> s.read_closed || left is Closed
            &&& left is KeepReadResult ==> after.read_result == Some(result)
            &&& !(left is KeepReadResult) ==> after.read_result == s.read_result
            &&& left is KeepWriteResult ==> after.write_result == Some(result)
            &&& !(left is KeepWriteResult) ==> after.write_result == s.write_result
        }),
{
}

/// An attempt that ended is told as it did. One that made a call, or found nothing yet, blocks its
/// direction while it waits for something that has not come, and is tried again otherwise.
pub proof fn law_attempts_that_wait_block<D>(driven: Driven<D>, paused: bool)
    ensures
        ({
            let nothing = driven is Call || driven->Attempt_0 == Ok::<
                Option<(Outcome<D>, bool)>,
                Error,
            >(None);
            &&& nothing && paused ==> told(driven, paused) == Err::<
                Option<(Outcome<D>, bool)>,
                Error,
            >(Error::plain(ErrorKind::WouldBlock))
            &&& nothing && !paused ==> told(driven, paused) == Ok::<
                Option<(Outcome<D>, bool)>,
                Error,
            >(None)
            &&& !nothing ==> told(driven, paused) == driven->Attempt_0
        }),
{
}

} // verus!
