//! What operations are for: the bytes that writes move, the calls that operations make, and
//! what is told of the replies.
use crate::payload::{payload, remaining, total, Attempt, Segment};
use crate::readiness::io::{
    answers, concluded, in_bounds, lemma_first_left, lemma_parts, needs, Call, Kind, Pending,
    Reply, Resource, Rules,
};
use crate::types::{Error, ErrorKind, Operation, Outcome};
use vstd::prelude::*;

verus! {

/// The bytes of all buffers from `from` on, one after the other.
pub open spec fn whole(bufs: Seq<Seq<u8>>, from: int) -> Seq<u8>
    decreases bufs.len() - from,
{
    if from < 0 || from >= bufs.len() {
        Seq::empty()
    } else {
        bufs[from] + whole(bufs, from + 1)
    }
}

/// The buffers that a write was given.
pub open spec fn carries(op: Operation, bufs: Seq<Seq<u8>>) -> bool {
    match op {
        Operation::Write(len) => bufs.len() == 1 && bufs[0].len() == len,
        Operation::Writev(lens) => bufs.len() == lens@.len() && forall|i: int|
            0 <= i < bufs.len() ==> (#[trigger] bufs[i]).len() == lens@[i],
        _ => false,
    }
}

/// The bytes of a part.
pub open spec fn seen(bufs: Seq<Seq<u8>>, part: Segment) -> Seq<u8> {
    bufs[part.index as int].subrange(part.skip as int, part.skip + part.len)
}

/// The bytes of parts, one after the other.
pub open spec fn gathered(bufs: Seq<Seq<u8>>, parts: Seq<Segment>) -> Seq<u8>
    decreases parts.len(),
{
    if parts.len() == 0 {
        Seq::empty()
    } else {
        seen(bufs, parts[0]) + gathered(bufs, parts.drop_first())
    }
}

/// The bytes that a call hands to the system.
pub open spec fn offered(call: Call, bufs: Seq<Seq<u8>>) -> Seq<u8> {
    match call {
        Call::Write { offset, len, .. } => bufs[0].subrange(offset as int, offset + len),
        Call::Writev { segments, .. } => gathered(bufs, segments@),
        Call::Stream { first: Some(part), .. } => seen(bufs, part),
        _ => Seq::empty(),
    }
}

/// How many of them the system took.
pub open spec fn took<D>(call: Call, bufs: Seq<Seq<u8>>, reply: Reply<D>) -> int {
    match reply {
        Reply::Count(n) => n as int,
        Reply::Streamed { permitted, wrote, .. } => if call matches Call::Stream {
            flushing: false,
            ..
        } && wrote is Ok {
            if permitted < offered(call, bufs).len() {
                permitted as int
            } else {
                offered(call, bufs).len() as int
            }
        } else {
            0
        },
        _ => 0,
    }
}

pub proof fn lemma_whole_len(bufs: Seq<Seq<u8>>, lens: Seq<usize>, from: int)
    requires
        bufs.len() == lens.len(),
        forall|i: int| 0 <= i < bufs.len() ==> (#[trigger] bufs[i]).len() == lens[i],
        0 <= from <= lens.len(),
    ensures
        whole(bufs, from).len() == total(lens) - total(lens.take(from)),
    decreases lens.len() - from,
{
    if from < lens.len() {
        lemma_whole_len(bufs, lens, from + 1);
        assert(lens.take(from + 1).drop_last() =~= lens.take(from));
        assert(lens.take(from + 1).last() == lens[from]);
        assert(bufs[from].len() == lens[from]);
    } else {
        assert(lens.take(from) =~= lens);
    }
}

/// What remains of a vectored write are its last bytes.
pub proof fn lemma_remaining_content(bufs: Seq<Seq<u8>>, lens: Seq<usize>, from: int, skip: int)
    requires
        bufs.len() == lens.len(),
        bufs.len() <= usize::MAX,
        forall|i: int| 0 <= i < bufs.len() ==> (#[trigger] bufs[i]).len() == lens[i],
        0 <= from <= lens.len(),
        0 <= skip <= whole(bufs, from).len(),
    ensures
        gathered(bufs, remaining(lens, from, skip)) == whole(bufs, from).skip(skip),
    decreases lens.len() - from,
{
    if from < lens.len() {
        assert(bufs[from].len() == lens[from]);
        if skip >= lens[from] {
            lemma_remaining_content(bufs, lens, from + 1, skip - lens[from]);
            assert(whole(bufs, from).skip(skip) =~= whole(bufs, from + 1).skip(
                skip - lens[from],
            ));
        } else {
            lemma_remaining_content(bufs, lens, from + 1, 0);
            let parts = remaining(lens, from, skip);
            assert(parts.drop_first() =~= remaining(lens, from + 1, 0));
            assert(whole(bufs, from + 1).skip(0) =~= whole(bufs, from + 1));
            assert(seen(bufs, parts[0]) + whole(bufs, from + 1) =~= whole(bufs, from).skip(skip));
        }
    } else {
        assert(whole(bufs, from).skip(skip) =~= Seq::empty());
    }
}

/// The payload of a write has the bytes of its buffers.
pub proof fn lemma_carries(op: Operation, bufs: Seq<Seq<u8>>)
    requires
        carries(op, bufs),
        payload(op) <= usize::MAX,
    ensures
        whole(bufs, 0).len() == payload(op),
        bufs.len() <= usize::MAX,
        op is Write ==> whole(bufs, 0) == bufs[0],
{
    match op {
        Operation::Write(len) => {
            assert(whole(bufs, 1) =~= Seq::empty());
            assert(whole(bufs, 0) =~= bufs[0]);
        },
        Operation::Writev(lens) => {
            lemma_whole_len(bufs, lens@, 0);
            assert(lens@.len() == lens.len());
            assert(lens@.take(0) =~= Seq::empty());
        },
        _ => {},
    }
}

/// A call of a write hands over the bytes that come next: a system call all that is left, a
/// stream of a component those of the first buffer that is not done.
pub proof fn law_write_hands_over_what_is_left(
    r: Resource,
    p: Pending,
    rules: Rules,
    bufs: Seq<Seq<u8>>,
    call: Call,
)
    requires
        carries(p.request.operation, bufs),
        in_bounds(p),
        !(rules is Async),
        needs(r, p, rules, call),
    ensures
        ({
            let left = whole(bufs, 0).skip(p.offset as int);
            &&& offered(call, bufs).len() <= left.len()
            &&& offered(call, bufs) == left.take(offered(call, bufs).len() as int)
            &&& rules is Native ==> offered(call, bufs) == left
            &&& left.len() > 0 ==> offered(call, bufs).len() > 0
        }),
{
    let op = p.request.operation;
    let left = whole(bufs, 0).skip(p.offset as int);
    lemma_carries(op, bufs);
    if let Operation::Writev(lens) = op {
        lemma_remaining_content(bufs, lens@, 0, p.offset as int);
        let parts = remaining(lens@, 0, p.offset as int);
        lemma_first_left(op, p.offset as int);
        lemma_parts(lens@, 0, p.offset as int);
        lemma_places(bufs, lens@, 0, p.offset as int);
        if parts.len() > 0 {
            assert(gathered(bufs, parts) == seen(bufs, parts[0]) + gathered(
                bufs,
                parts.drop_first(),
            ));
            assert(seen(bufs, parts[0]).len() == parts[0].len);
            assert(left.take(parts[0].len as int) =~= seen(bufs, parts[0]));
        }
    }
    assert(left.take(left.len() as int) =~= left);
    assert(offered(call, bufs) =~= left.take(offered(call, bufs).len() as int));
    if rules is Native {
        assert(offered(call, bufs) =~= left);
    }
}

/// Parts lie in their buffers.
pub proof fn lemma_places(bufs: Seq<Seq<u8>>, lens: Seq<usize>, from: int, skip: int)
    requires
        bufs.len() == lens.len(),
        bufs.len() <= usize::MAX,
        forall|i: int| 0 <= i < bufs.len() ==> (#[trigger] bufs[i]).len() == lens[i],
        0 <= from <= lens.len(),
        0 <= skip,
    ensures
        forall|k: int|
            0 <= k < remaining(lens, from, skip).len() ==> {
                let part = #[trigger] remaining(lens, from, skip)[k];
                &&& part.index < bufs.len()
                &&& part.skip + part.len == bufs[part.index as int].len()
            },
    decreases lens.len() - from,
{
    if from < lens.len() {
        assert(bufs[from].len() == lens[from]);
        if skip >= lens[from] {
            lemma_places(bufs, lens, from + 1, skip - lens[from]);
            assert(remaining(lens, from, skip) == remaining(lens, from + 1, skip - lens[from]));
        } else {
            lemma_places(bufs, lens, from + 1, 0);
            let rest = remaining(lens, from + 1, 0);
            let all = remaining(lens, from, skip);
            assert forall|k: int| 0 <= k < all.len() implies {
                let part = #[trigger] all[k];
                &&& part.index < bufs.len()
                &&& part.skip + part.len == bufs[part.index as int].len()
            } by {
                if k > 0 {
                    assert(all[k] == rest[k - 1]);
                }
            }
        }
    }
}

/// What the system takes of a call follows what was written before, without gap or overlap; a
/// write that is done has written all of its payload.
pub proof fn law_write_goes_on_where_it_was<D>(
    r: Resource,
    p: Pending,
    rules: Rules,
    bufs: Seq<Seq<u8>>,
    call: Call,
    reply: Reply<D>,
)
    requires
        carries(p.request.operation, bufs),
        in_bounds(p),
        !(rules is Async),
        needs(r, p, rules, call),
        answers(r, p, rules, reply),
    ensures
        ({
            let n = took(call, bufs, reply);
            let (_, progress, attempt) = concluded(r, p, reply, rules);
            &&& 0 <= n <= offered(call, bufs).len()
            &&& progress.offset == p.offset + n
            &&& whole(bufs, 0).take(p.offset as int) + offered(call, bufs).take(n) == whole(
                bufs,
                0,
            ).take(progress.offset as int)
            &&& attempt matches Ok(Some((outcome, terminal))) ==> {
                &&& terminal
                &&& outcome == Outcome::<D>::Wrote(whole(bufs, 0).len() as usize)
                &&& progress.offset == whole(bufs, 0).len()
            }
        }),
{
    law_write_hands_over_what_is_left(r, p, rules, bufs, call);
    lemma_carries(p.request.operation, bufs);
    lemma_first_left(p.request.operation, p.offset as int);
    let n = took(call, bufs, reply);
    let all = whole(bufs, 0);
    let left = all.skip(p.offset as int);
    let part = offered(call, bufs);
    if rules is Component {
        if let Call::Stream { first: Some(segment), .. } = call {
            if let Operation::Writev(lens) = p.request.operation {
                lemma_places(bufs, lens@, 0, p.offset as int);
            }
            assert(part.len() == segment.len);
        }
    }
    if 0 <= n <= part.len() {
        assert(all.take(p.offset as int) + part.take(n) =~= all.take(p.offset + n)) by {
            assert(part.take(n) =~= left.take(n));
        }
    }
}

/// One call of a write and its reply.
pub struct Exchange<D> {
    pub r: Resource,
    pub call: Call,
    pub reply: Reply<D>,
}

/// The write after the first `k` exchanges.
pub open spec fn written<D>(p: Pending, rules: Rules, xs: Seq<Exchange<D>>, k: int) -> Pending
    decreases k,
{
    if k <= 0 {
        p
    } else {
        let q = written(p, rules, xs, k - 1);
        let progress = concluded(xs[k - 1].r, q, xs[k - 1].reply, rules).1;
        Pending { offset: progress.offset, flushing: progress.flushing, ..q }
    }
}

/// What the system took in the first `k` exchanges, one after the other.
pub open spec fn received<D>(bufs: Seq<Seq<u8>>, xs: Seq<Exchange<D>>, k: int) -> Seq<u8>
    decreases k,
{
    if k <= 0 {
        Seq::empty()
    } else {
        received(bufs, xs, k - 1) + offered(xs[k - 1].call, bufs).take(
            took(xs[k - 1].call, bufs, xs[k - 1].reply),
        )
    }
}

/// Over any run of calls and replies what the system took of a write is the start of its
/// payload, each byte once and in order; when the write is done it is the whole payload.
pub proof fn law_writes_move_their_payload<D>(
    p: Pending,
    rules: Rules,
    bufs: Seq<Seq<u8>>,
    xs: Seq<Exchange<D>>,
    k: int,
)
    requires
        carries(p.request.operation, bufs),
        payload(p.request.operation) <= usize::MAX,
        p.offset == 0,
        !p.flushing,
        !(rules is Async),
        0 <= k <= xs.len(),
        forall|i: int|
            0 <= i < k ==> needs(
                (#[trigger] xs[i]).r,
                written(p, rules, xs, i),
                rules,
                xs[i].call,
            ) && answers(xs[i].r, written(p, rules, xs, i), rules, xs[i].reply),
    ensures
        written(p, rules, xs, k).request == p.request,
        in_bounds(written(p, rules, xs, k)),
        received(bufs, xs, k) == whole(bufs, 0).take(written(p, rules, xs, k).offset as int),
        k > 0 && (concluded(
            xs[k - 1].r,
            written(p, rules, xs, k - 1),
            xs[k - 1].reply,
            rules,
        ).2 matches Ok(Some(_))) ==> received(bufs, xs, k) == whole(bufs, 0),
    decreases k,
{
    lemma_carries(p.request.operation, bufs);
    let all = whole(bufs, 0);
    if k == 0 {
        assert(all.take(0) =~= Seq::empty());
    } else {
        law_writes_move_their_payload(p, rules, bufs, xs, k - 1);
        let x = xs[k - 1];
        let q = written(p, rules, xs, k - 1);
        law_write_goes_on_where_it_was(x.r, q, rules, bufs, x.call, x.reply);
        lemma_first_left(p.request.operation, q.offset as int);
        assert(all.take(all.len() as int) =~= all);
    }
}

/// Every operation makes the call that it is for, with what it was given: a read or a receive
/// for its own buffer, a datagram to its own address, and so on; and no other operation makes
/// that call.
pub proof fn law_operations_make_their_own_calls(r: Resource, p: Pending, rules: Rules, call: Call)
    requires
        needs(r, p, rules, call),
        !(rules is Async),
    ensures
        call is Read <==> p.request.operation is Read,
        call matches Call::Read(buf) ==> (p.request.operation matches Operation::Read {
            buf: own,
            ..
        } && own == buf),
        call is RecvFrom <==> p.request.operation is RecvFrom,
        call matches Call::RecvFrom(buf) ==> p.request.operation == Operation::RecvFrom(buf),
        call is SendTo <==> p.request.operation is SendTo,
        call matches Call::SendTo { len, to } ==> p.request.operation == (Operation::SendTo {
            len,
            to,
        }),
        call is Accept || call is AcceptPipe <==> p.request.operation is Accept,
        call is AcceptPipe <==> p.request.operation is Accept && rules is Native && r.kind
            == Kind::PipeListener,
        call is Shutdown <==> p.request.operation is Shutdown,
        call is SendHandle <==> p.request.operation is SendHandle && rules is Native,
        call is RecvHandle <==> p.request.operation is RecvHandle && rules is Native,
        call is Connect || call is StartConnect <==> p.request.operation is Connect && r.connect
            && !r.connecting,
        call is SocketStatus || call is FinishConnect <==> p.request.operation is Connect
            && r.connecting,
        call is Write || call is Writev || call is Stream ==> p.request.operation is Write
            || p.request.operation is Writev,
        call matches Call::Write { plain, .. } ==> plain == (r.kind == Kind::Stream || r.kind
            == Kind::File),
        call matches Call::Writev { plain, .. } ==> plain == (r.kind == Kind::Stream || r.kind
            == Kind::File),
{
}

/// Whether an operation goes on after a completion: it was asked for many.
pub open spec fn many(op: Operation) -> bool {
    match op {
        Operation::Accept { multishot } => multishot,
        Operation::Read { multishot, .. } => multishot,
        _ => false,
    }
}

/// What is told of a reply is what it says: bytes and datagrams with their count, buffer and
/// sender, connections with their peer, failures as they are; and it is told at once.
pub proof fn law_replies_are_told_as_they_are<D>(r: Resource, p: Pending, reply: Reply<D>, rules: Rules)
    requires
        answers(r, p, rules, reply),
        !(rules is Async),
    ensures
        ({
            let op = p.request.operation;
            let attempt = concluded(r, p, reply, rules).2;
            let last = !many(op);
            &&& op is Read && (reply matches Reply::Bytes { n, lease } && n > 0) ==> attempt == Ok::<
                Option<(Outcome<D>, bool)>,
                Error,
            >(Some((Outcome::Read { n: reply->Bytes_n, lease: reply->Bytes_lease }, last)))
            &&& op is Read && rules is Native && (reply matches Reply::Bytes { n, .. } && n == 0)
                ==> attempt == Ok::<Option<(Outcome<D>, bool)>, Error>(Some((Outcome::Eof, true)))
            &&& op is Read && reply is Closed ==> attempt == Ok::<
                Option<(Outcome<D>, bool)>,
                Error,
            >(Some((Outcome::Eof, true)))
            &&& op is Accept ==> (reply matches Reply::Accepted { transport, peer } ==> attempt
                == Ok::<Option<(Outcome<D>, bool)>, Error>(
                Some((Outcome::Accepted { transport, peer }, last)),
            ))
            &&& op is Accept ==> (reply matches Reply::Transport(t) ==> attempt == Ok::<
                Option<(Outcome<D>, bool)>,
                Error,
            >(Some((Outcome::PipeAccepted(t), last))))
            &&& op is RecvHandle ==> (reply matches Reply::Transport(t) ==> attempt == Ok::<
                Option<(Outcome<D>, bool)>,
                Error,
            >(Some((Outcome::HandleReceived(t), true))))
            &&& op is RecvFrom ==> (reply matches Reply::Datagram { n, from: Ok(from), lease }
                ==> attempt == Ok::<Option<(Outcome<D>, bool)>, Error>(
                Some((Outcome::RecvFrom { n, from, lease }, true)),
            ))
            &&& op is RecvFrom ==> (reply matches Reply::Datagram { from: Err(e), .. } ==> attempt
                == Err::<Option<(Outcome<D>, bool)>, Error>(e))
            &&& op is SendTo ==> (reply matches Reply::Count(n) ==> attempt == Ok::<
                Option<(Outcome<D>, bool)>,
                Error,
            >(Some((Outcome::Wrote(n), true))))
            &&& op is Shutdown && reply is Done ==> attempt == Ok::<
                Option<(Outcome<D>, bool)>,
                Error,
            >(Some((Outcome::Shutdown, true)))
            &&& op is SendHandle && reply is Done ==> attempt == Ok::<
                Option<(Outcome<D>, bool)>,
                Error,
            >(Some((Outcome::HandleSent, true)))
            &&& op is Connect && reply is Done ==> attempt == Ok::<
                Option<(Outcome<D>, bool)>,
                Error,
            >(Some((Outcome::Connected, true)))
            &&& op is Connect ==> (reply matches Reply::Started(finished) ==> attempt
                == match finished {
                Ok(_) => Ok::<Option<(Outcome<D>, bool)>, Error>(Some((Outcome::Connected, true))),
                Err(e) => Err(e),
            })
            &&& op is Connect ==> (reply matches Reply::Status { code, error } ==> attempt == if code
                == 0 {
                Ok::<Option<(Outcome<D>, bool)>, Error>(Some((Outcome::Connected, true)))
            } else {
                Err(error)
            })
            &&& reply matches Reply::Failed(e) ==> attempt == Err::<
                Option<(Outcome<D>, bool)>,
                Error,
            >(e) || (op is Connect && attempt == Ok::<Option<(Outcome<D>, bool)>, Error>(None)
                && (rules matches Rules::Native { in_progress, .. } && e.os == Some(in_progress)))
            &&& reply is NoBuffer ==> attempt == Ok::<Option<(Outcome<D>, bool)>, Error>(None)
        }),
{
}

/// A connection that was started is asked for next, and one that is established is not started
/// again.
pub proof fn law_connect_goes_on<D>(r: Resource, p: Pending, reply: Reply<D>, rules: Rules)
    requires
        p.request.operation is Connect,
        r.connect,
        answers(r, p, rules, reply),
        !(rules is Async),
    ensures
        ({
            let (after, _, attempt) = concluded(r, p, reply, rules);
            &&& (attempt is Ok && attempt->Ok_0 is Some) <==> !after.connect
            &&& attempt == Ok::<Option<(Outcome<D>, bool)>, Error>(None) ==> after.connecting
            &&& r.connecting ==> after.connecting
            &&& after.handle == r.handle
            &&& after.kind == r.kind
        }),
{
}

/// A stream of a component takes what it permits, and a write is told only once all of it was taken
/// and flushed: what cannot be taken now blocks, a failed write moves nothing on, and a flush that
/// cannot be asked for is told.
pub proof fn law_write_is_flushed_before_it_is_told<D>(
    r: Resource,
    p: Pending,
    permitted: usize,
    wrote: Result<(), Error>,
    flushed: Result<(), Error>,
)
    requires
        p.request.operation is Write || p.request.operation is Writev,
        in_bounds(p),
        payload(p.request.operation) <= usize::MAX,
    ensures
        ({
            let all = payload(p.request.operation);
            let reply = Reply::<D>::Streamed { permitted, wrote, flushed };
            let (_, progress, attempt) = concluded(r, p, reply, Rules::Component);
            let moved = progress.offset - p.offset;
            &&& permitted == 0 ==> attempt == Err::<Option<(Outcome<D>, bool)>, Error>(
                Error::plain(ErrorKind::WouldBlock),
            ) && moved == 0 && progress.flushing == p.flushing
            &&& permitted > 0 && p.flushing ==> attempt == Ok::<Option<(Outcome<D>, bool)>, Error>(
                Some((Outcome::Wrote(all as usize), true)),
            )
            &&& !p.flushing ==> !(attempt is Ok && attempt->Ok_0 is Some)
            &&& !p.flushing && progress.flushing ==> progress.offset == all && flushed is Ok
            &&& permitted > 0 && !p.flushing && p.offset < all && wrote is Err ==> moved == 0
                && attempt == Err::<Option<(Outcome<D>, bool)>, Error>(wrote->Err_0)
            &&& permitted > 0 && !p.flushing && progress.offset == all && (p.offset == all || wrote
                is Ok) ==> (flushed is Ok ==> progress.flushing && attempt is Ok) && (flushed is Err
                ==> attempt == Err::<Option<(Outcome<D>, bool)>, Error>(flushed->Err_0))
            &&& permitted > 0 && !p.flushing && p.offset < all && wrote is Ok ==> 0 < moved
                <= permitted
        }),
{
    lemma_first_left(p.request.operation, p.offset as int);
    if let Operation::Writev(lens) = p.request.operation {
        lemma_parts(lens@, 0, p.offset as int);
    }
}

/// An attempt of the host is taken as it is, with the bytes that are dealt with; a resource that it
/// connected is not connected again.
pub proof fn law_driven_attempts_are_taken_as_they_are<D>(
    r: Resource,
    p: Pending,
    offset: usize,
    attempt: Attempt<D>,
)
    ensures
        ({
            let (after, progress, taken) = concluded(
                r,
                p,
                Reply::Driven { offset, attempt },
                Rules::Async,
            );
            let connected = attempt is Ok && attempt->Ok_0 is Some && (attempt->Ok_0->0).0
                is Connected;
            &&& taken == attempt
            &&& progress.offset == offset && progress.flushing == p.flushing
            &&& after.connect <==> r.connect && !connected
            &&& after == (Resource { connect: after.connect, ..r })
        }),
{
}

/// Only a connect changes what is known of its resource: that one was started, and then that its
/// writing side is to be waited for, and that none is to be made any more. Whether it is ready is
/// otherwise no matter of a reply.
pub proof fn law_replies_leave_the_resource<D>(r: Resource, p: Pending, reply: Reply<D>, rules: Rules)
    requires
        answers(r, p, rules, reply),
        !(rules is Async),
    ensures
        ({
            let (after, _, attempt) = concluded(r, p, reply, rules);
            let begun = p.request.operation is Connect && rules is Native && attempt == Ok::<
                Option<(Outcome<D>, bool)>,
                Error,
            >(None);
            &&& !(p.request.operation is Connect) ==> after == r
            &&& after.ready_in == r.ready_in && after.queued == r.queued && after.handle == r.handle
            &&& begun ==> after.connecting && !after.ready_out && after.connect == r.connect
            &&& !begun ==> after.ready_out == r.ready_out
            &&& p.request.operation is Connect && reply is Started ==> after.connecting
        }),
{
}

} // verus!
