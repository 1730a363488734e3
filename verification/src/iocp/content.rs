//! What the operations of a port are for: the bytes that writes move, the calls that operations
//! make, and what is told of their packets.
use crate::iocp::io::{
    absorbed, answers, carries, executed, in_bounds, Call, Job, Kind, Reply, Resource,
    Stage, FRAME,
};
use crate::payload::{payload, remaining, Segment};
use crate::readiness::content::{
    carries as given, gathered, lemma_carries, lemma_places, lemma_remaining_content, many, seen,
    whole,
};
use crate::types::{Error, ErrorKind, Operation, Outcome, ReadBuf};
use vstd::prelude::*;

verus! {

/// An attempt that tells `outcome`, the last one of its operation where `done`.
pub open spec fn finished<D>(outcome: Outcome<D>, done: bool) -> Result<
    Option<(Outcome<D>, bool)>,
    Error,
> {
    Ok(Some((outcome, done)))
}

/// The bytes that a call hands to the kernel.
pub open spec fn offered(call: Call, bufs: Seq<Seq<u8>>) -> Seq<u8> {
    match call {
        Call::WorkerWrite(part) => seen(bufs, part),
        Call::Send { parts, .. } => gathered(bufs, parts@),
        _ => Seq::empty(),
    }
}

/// A call of a write hands over the bytes that come next, and none is made only when none is
/// left: a worker gets those of the first buffer that is not done, the kernel all.
pub proof fn law_write_hands_over_what_is_left(
    r: Resource,
    p: Job,
    bufs: Seq<Seq<u8>>,
    call: Call,
)
    requires
        given(p.request.operation, bufs),
        in_bounds(p),
        payload(p.request.operation) <= usize::MAX,
        p.stage == Stage::Start,
        carries(r, p, call),
    ensures
        ({
            let left = whole(bufs, 0).skip(p.offset as int);
            let part = offered(call, bufs);
            &&& part.len() <= left.len()
            &&& part == left.take(part.len() as int)
            &&& left.len() > 0 ==> part.len() > 0
            &&& left.len() > 0 && r.kind != Kind::Sync ==> part == left && call is Send
            &&& left.len() > 0 && r.kind == Kind::Sync ==> call is WorkerWrite
            &&& left.len() == 0 ==> call is Settled
            &&& call matches Call::Send { to, .. } ==> to is None
        }),
{
    let op = p.request.operation;
    let left = whole(bufs, 0).skip(p.offset as int);
    lemma_carries(op, bufs);
    if let Operation::Writev(lens) = op {
        lemma_remaining_content(bufs, lens@, 0, p.offset as int);
        lemma_places(bufs, lens@, 0, p.offset as int);
        crate::readiness::io::lemma_parts(lens@, 0, p.offset as int);
        let parts = remaining(lens@, 0, p.offset as int);
        if parts.len() > 0 {
            assert(gathered(bufs, parts) == seen(bufs, parts[0]) + gathered(
                bufs,
                parts.drop_first(),
            ));
            assert(seen(bufs, parts[0]).len() == parts[0].len);
            assert(left.take(parts[0].len as int) =~= seen(bufs, parts[0]));
        }
    }
    if let Operation::Write(len) = op {
        if p.offset < len {
            let part = Segment { index: 0, skip: p.offset, len: (len - p.offset) as usize };
            assert(seen(bufs, part) =~= left);
            let one = seq![part];
            assert(one.drop_first() =~= Seq::empty());
            assert(gathered(bufs, one.drop_first()) =~= Seq::empty());
            assert(gathered(bufs, one) =~= seen(bufs, part));
            if let Call::Send { parts, .. } = call {
                assert(parts@ =~= one);
            }
        }
    }
    assert(left.take(left.len() as int) =~= left);
}

/// A packet that tells of `n` bytes moves a write on by `n`; it is done when all of its payload
/// was moved, and told with its length.
pub proof fn law_write_goes_on_where_it_was<D>(kind: Kind, p: Job, bufs: Seq<Seq<u8>>, n: u32)
    requires
        given(p.request.operation, bufs),
        payload(p.request.operation) <= usize::MAX,
        p.stage == Stage::Io,
        p.completion == Some(Ok::<u32, Error>(n)),
        0 < n,
        p.offset + n <= whole(bufs, 0).len(),
    ensures
        ({
            let (q, attempt) = absorbed::<D>(kind, p);
            let all = whole(bufs, 0);
            &&& q.offset == p.offset + n
            &&& all.take(p.offset as int) + all.skip(p.offset as int).take(n as int) == all.take(
                q.offset as int,
            )
            &&& q.offset < all.len() ==> attempt is None && q.stage == Stage::Start
            &&& q.offset == all.len() ==> attempt == Some(finished::<D>(Outcome::Wrote(all.len() as usize), true))
            &&& q.request == p.request
        }),
{
    lemma_carries(p.request.operation, bufs);
    let all = whole(bufs, 0);
    assert(all.take(p.offset as int) + all.skip(p.offset as int).take(n as int) =~= all.take(
        p.offset + n,
    ));
}

/// The write after the first `k` packets, each of which tells how many bytes were moved.
pub open spec fn written<D>(kind: Kind, p: Job, counts: Seq<u32>, k: int) -> Job
    decreases k,
{
    if k <= 0 {
        p
    } else {
        let q = written::<D>(kind, p, counts, k - 1);
        absorbed::<D>(
            kind,
            Job { completion: Some(Ok(counts[k - 1])), stage: Stage::Io, ..q },
        ).0
    }
}

/// What was moved in the first `k` calls: of each, what its packet told of it.
pub open spec fn received<D>(
    kind: Kind,
    p: Job,
    bufs: Seq<Seq<u8>>,
    calls: Seq<Call>,
    counts: Seq<u32>,
    k: int,
) -> Seq<u8>
    decreases k,
{
    if k <= 0 {
        Seq::empty()
    } else {
        received::<D>(kind, p, bufs, calls, counts, k - 1) + offered(calls[k - 1], bufs).take(
            counts[k - 1] as int,
        )
    }
}

/// Over any run of calls and packets what was moved of a write is the start of its payload, each
/// byte once and in order.
pub proof fn law_writes_move_their_payload<D>(
    r: Resource,
    p: Job,
    bufs: Seq<Seq<u8>>,
    calls: Seq<Call>,
    counts: Seq<u32>,
    k: int,
)
    requires
        given(p.request.operation, bufs),
        payload(p.request.operation) <= usize::MAX,
        p.offset == 0,
        p.stage == Stage::Start,
        0 <= k <= calls.len(),
        calls.len() == counts.len(),
        forall|i: int|
            0 <= i < k ==> {
                let q = written::<D>(r.kind, p, counts, i);
                &&& q.stage == Stage::Start
                &&& carries(r, q, #[trigger] calls[i])
                &&& 0 < counts[i] <= offered(calls[i], bufs).len()
            },
    ensures
        ({
            let q = written::<D>(r.kind, p, counts, k);
            &&& q.request == p.request
            &&& q.offset <= whole(bufs, 0).len()
            &&& received::<D>(r.kind, p, bufs, calls, counts, k) == whole(bufs, 0).take(
                q.offset as int,
            )
        }),
    decreases k,
{
    let all = whole(bufs, 0);
    lemma_carries(p.request.operation, bufs);
    if k == 0 {
        assert(all.take(0) =~= Seq::empty());
    } else {
        law_writes_move_their_payload::<D>(r, p, bufs, calls, counts, k - 1);
        let q = written::<D>(r.kind, p, counts, k - 1);
        let call = calls[k - 1];
        law_write_hands_over_what_is_left(r, q, bufs, call);
        let n = counts[k - 1];
        let busy = Job { completion: Some(Ok(n)), stage: Stage::Io, ..q };
        law_write_goes_on_where_it_was::<D>(r.kind, busy, bufs, n);
        let left = all.skip(q.offset as int);
        assert(offered(call, bufs).take(n as int) =~= left.take(n as int));
    }
}

/// A datagram is handed over whole, to the address that it is for.
pub proof fn law_datagrams_go_to_their_address(r: Resource, p: Job, bytes: Seq<u8>, call: Call)
    requires
        p.stage == Stage::Start,
        r.kind == Kind::Udp,
        p.request.operation matches Operation::SendTo { len, .. } && bytes.len() == len,
        carries(r, p, call),
    ensures
        offered(call, seq![bytes]) == bytes,
        call matches Call::Send { to: Some(to), .. } && p.request.operation == (
        Operation::SendTo { len: bytes.len() as usize, to }),
{
    let len = bytes.len() as usize;
    let part = Segment { index: 0, skip: 0, len };
    let one = seq![part];
    if let Call::Send { parts, .. } = call {
        assert(parts@ =~= one);
        assert(one.drop_first() =~= Seq::empty());
        assert(gathered(seq![bytes], one.drop_first()) =~= Seq::empty());
        assert(seen(seq![bytes], part) =~= bytes);
        assert(gathered(seq![bytes], one) =~= bytes);
    }
}

/// Every operation starts with the call that it is for, and no other operation does: a receive
/// for its own buffer, a connect where there is an address, an accept of its own sort. A pooled
/// read of a socket first waits for data without a buffer.
pub proof fn law_operations_start_with_their_own_calls(r: Resource, p: Job, call: Call)
    requires
        p.stage == Stage::Start,
        carries(r, p, call),
    ensures
        ({
            let op = p.request.operation;
            &&& call is ConnectEx <==> op is Connect && r.connect && r.kind != Kind::Pipe && r.kind
                != Kind::Sync
            &&& call is AcceptEx <==> op is Accept && r.kind == Kind::Listener
            &&& call is ConnectPipe <==> op is Accept && r.kind == Kind::PipeListener
            &&& call is Shutdown <==> op is Shutdown && r.kind == Kind::Tcp
            &&& call is IdleRecv <==> r.kind == Kind::Tcp && (op matches Operation::Read {
                buf: ReadBuf::Pooled,
                ..
            })
            &&& call is Recv <==> r.kind != Kind::Sync && (op is Read || op is RecvFrom) && !(call
                is IdleRecv)
            &&& call is WorkerRead <==> r.kind == Kind::Sync && (op is Read || op is RecvFrom)
            &&& call matches Call::Recv(buf) ==> (op matches Operation::Read { buf: own, .. } && own
                == buf) || op == Operation::RecvFrom(buf)
            &&& call matches Call::WorkerRead(buf) ==> (op matches Operation::Read { buf: own, .. }
                && own == buf) || op == Operation::RecvFrom(buf)
            &&& call is Send || call is WorkerWrite ==> op is Write || op is Writev || op is SendTo
            &&& call matches Call::FrameIo { send, offset, first } ==> {
                &&& send == op is SendHandle
                &&& offset == p.offset
                &&& first
            }
            &&& op is SendHandle ==> call is FrameIo
            &&& op is RecvHandle && p.offset < FRAME ==> call is FrameIo
        }),
{
}

/// An operation that the kernel is done with is finished by the call that it is for.
pub proof fn law_operations_end_with_their_own_calls(r: Resource, p: Job, call: Call)
    requires
        p.stage == Stage::Io,
        carries(r, p, call),
    ensures
        ({
            let op = p.request.operation;
            &&& call is UpdateConnect <==> op is Connect
            &&& call is UpdateAccept <==> op is Accept && r.kind == Kind::Listener
            &&& call is TakePipe <==> op is Accept && r.kind != Kind::Listener
            &&& call is Sender <==> op is RecvFrom
            &&& call matches Call::FrameIo { send, offset, first } ==> {
                &&& send == op is SendHandle
                &&& offset == p.offset
                &&& !first
            }
            &&& call is Frame <==> op is RecvHandle && p.offset == FRAME
        }),
{
}

/// What is told of a packet is what it says: the bytes that came, with their buffer; the end of
/// a stream where none came; a failure as it is.
pub proof fn law_packets_are_told_as_they_are<D>(kind: Kind, p: Job)
    requires
        p.stage == Stage::Io,
        p.completion is Some,
    ensures
        ({
            let op = p.request.operation;
            let told = absorbed::<D>(kind, p).1;
            &&& p.completion->0 matches Ok(n) ==> {
                &&& op is Read && n > 0 ==> told == Some(finished::<D>(Outcome::Read { n: n as usize, lease: p.lease }, !many(op)))
                &&& op is Read && n == 0 ==> told == Some(finished::<D>(Outcome::Eof, true))
                &&& op is SendTo ==> told == Some(finished::<D>(Outcome::Wrote(n as usize), true))
                &&& op is RecvFrom ==> told is None && absorbed::<D>(kind, p).0.count == n
                &&& op is Accept ==> told is None
                &&& op is Connect && kind == Kind::Tcp ==> told is None
                &&& (op is SendHandle || op is RecvHandle) && 0 < n <= FRAME - p.offset
                    ==> absorbed::<D>(kind, p).0.offset == p.offset + n
                &&& op is SendHandle && 0 < n && p.offset + n == FRAME ==> told == Some(finished::<D>(Outcome::HandleSent, true))
                &&& op is SendHandle && 0 < n && p.offset + n < FRAME ==> told is None
                &&& (op is SendHandle || op is RecvHandle) && (n == 0 || n > FRAME - p.offset)
                    ==> told == Some(
                    Err::<Option<(Outcome<D>, bool)>, Error>(Error::plain(ErrorKind::BrokenPipe)),
                )
                &&& (op is Write || op is Writev) && n == 0 && p.offset != payload(op) ==> told
                    == Some(
                    Err::<Option<(Outcome<D>, bool)>, Error>(Error::plain(ErrorKind::BrokenPipe)),
                )
            }
            &&& p.completion->0 matches Err(e) ==> told == Some(
                if op is Read && (e.os == Some(109i32) || e.os == Some(38i32)) {
                    finished::<D>(Outcome::Eof, true)
                } else {
                    Err(e)
                },
            )
        }),
{
}

/// What is told of a reply is what it says: connections with their peer, datagrams with their
/// sender and the count that their packet told, transports as they came, failures as they are.
pub proof fn law_replies_are_told_as_they_are<D>(r: Resource, p: Job, reply: Reply<D>)
    requires
        answers(r, p, reply),
        p.stage == Stage::IdleRead ==> p.request.operation is Read,
    ensures
        ({
            let op = p.request.operation;
            let (q, told) = executed(r, p, reply);
            match reply {
                Reply::Accepted { transport, peer } => told == finished::<D>(
                    Outcome::Accepted { transport, peer },
                    !many(op),
                ),
                Reply::Transport(t) => told == finished::<D>(Outcome::PipeAccepted(t), !many(op)),
                Reply::Sender(Ok(from)) => told == finished::<D>(
                    Outcome::RecvFrom { n: p.count, from, lease: p.lease },
                    true,
                ),
                Reply::Sender(Err(e)) => told == Err::<Option<(Outcome<D>, bool)>, Error>(e),
                Reply::Bytes { n, lease } => told == if n == 0 {
                    finished::<D>(Outcome::Eof, true)
                } else {
                    finished::<D>(Outcome::Read { n, lease }, !many(op))
                },
                Reply::Done => told == if op is Connect {
                    finished::<D>(Outcome::Connected, true)
                } else {
                    finished::<D>(Outcome::Shutdown, true)
                },
                Reply::Frame { magic, socket } => {
                    &&& magic == 0x314c_5457u32 && socket is Ok ==> told == finished::<D>(
                        Outcome::HandleReceived(socket->Ok_0),
                        true,
                    )
                    &&& magic != 0x314c_5457u32 || socket is Err ==> told is Err
                },
                Reply::NoBuffer => told == Ok::<Option<(Outcome<D>, bool)>, Error>(None)
                    && q.pool_wait && q.stage == p.stage && q.completion == (if p.stage
                    == Stage::IdleRead {
                    Some(Ok::<u32, Error>(0))
                } else {
                    p.completion
                }),
                Reply::Failed(e) => if p.stage == Stage::IdleRead && e.kind
                    == ErrorKind::WouldBlock {
                    told == Ok::<Option<(Outcome<D>, bool)>, Error>(None) && q.stage == Stage::Start
                } else {
                    told == Err::<Option<(Outcome<D>, bool)>, Error>(e)
                },
                Reply::Submitted { success, bytes, error, wait, .. } => {
                    let pending = error.os == Some(997i32);
                    &&& success && (r.skip || r.routed) ==> told == Ok::<
                        Option<(Outcome<D>, bool)>,
                        Error,
                    >(None) && q.completion == Some(Ok::<u32, Error>(bytes))
                    &&& !success && !pending ==> told == Ok::<Option<(Outcome<D>, bool)>, Error>(
                        None,
                    ) && q.completion == Some(Err::<u32, Error>(error))
                    &&& !(success && (r.skip || r.routed)) && (success || pending) ==> {
                        if r.routed && wait is Err {
                            told == Err::<Option<(Outcome<D>, bool)>, Error>(wait->Err_0)
                        } else {
                            told == Ok::<Option<(Outcome<D>, bool)>, Error>(None) && q.waiting
                        }
                    }
                },
                Reply::PipeConnected => told == Ok::<Option<(Outcome<D>, bool)>, Error>(None)
                    && q.completion == Some(Ok::<u32, Error>(0)),
                Reply::Started { .. } => told == Ok::<Option<(Outcome<D>, bool)>, Error>(None)
                    && q.waiting,
                Reply::Nothing => match op {
                    Operation::Write(_) | Operation::Writev(_) => p.stage == Stage::Start
                        ==> told == finished::<D>(Outcome::Wrote(p.offset), true),
                    Operation::Connect => {
                        &&& r.kind == Kind::Pipe ==> told == finished::<D>(Outcome::Connected, true)
                        &&& r.kind != Kind::Pipe ==> told is Err
                    },
                    _ => told is Err,
                },
            }
        }),
{
}

} // verus!
