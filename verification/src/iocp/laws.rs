//! What the port engine promises across calls.
use crate::buffers::{going_back, handed_out};
use crate::iocp::engine::{
    law_free_slot_is_silent, refusal, storage, Arrived, Entry, Model, Step,
};
use crate::iocp::io::{takes, Job, Kind, Reply, Resource, Stage};
use crate::payload::Attempt;
use crate::turn::Route;
use crate::types::{Error, ErrorKind, Event, Handle, Lease, OpId, Operation, Outcome, Request};
use vstd::prelude::*;

verus! {

/// A completion carries the full identity of the operation. A terminal one frees the
/// slot; after anything else the operation is still held.
pub proof fn law_one_terminal_completion<D>(m: Model, reply: Reply<D>)
    requires
        m.valid(),
        m.running is Some,
    ensures
        ({
            let i = m.running->0 as int;
            let op = m.ops[i]->0.request.op;
            let (n, event) = m.settled(reply);
            &&& m.holds(op)
            &&& event is Some ==> event->0.op == op
            &&& event is Some && event->0.terminal ==> !n.holds(op)
            &&& event is None || !event->0.terminal ==> n.holds(op)
        }),
{
    let i = m.running->0 as int;
    assert(m.op_ok(i, None));
    let p = m.ops[i]->0;
    let l = m.lane(p.request);
    let rest = m.lanes[l].remove_value(i as usize);
    if rest.len() > 0 {
        crate::queues::lemma_remove_value(m.lanes[l], i as usize);
        assert(rest.contains(rest[0]));
    }
}

/// Cancelling never frees an operation: the kernel keeps the storage of one that it
/// holds until its packet arrives, and any other one is queued to end.
pub proof fn law_cancel_keeps_the_operation_until_acknowledged(m: Model, op: OpId)
    requires
        m.valid(),
        m.running is None,
        m.holds(op),
    ensures
        m.withdrawn(op).holds(op),
        m.withdrawn(op).ops[op.spec_index()]->0.cancelled,
        m.ops[op.spec_index()]->0.waiting ==> m.withdrawn(op).ops[op.spec_index()]->0.waiting
            && m.withdrawn(op).ready == m.ready,
        !m.ops[op.spec_index()]->0.waiting ==> m.withdrawn(op).ready.contains(
            op.spec_index() as usize,
        ),
{
    let i = op.spec_index();
    assert(m.op_ok(i, None));
    let n = m.withdrawn(op);
    if !m.ops[i]->0.waiting && !m.ops[i]->0.queued {
        assert(n.ready[m.ready.len() as int] == i as usize);
    }
}

/// A cancelled operation ends as cancelled the next time it is picked up, whatever
/// its native transfer reported.
pub proof fn law_cancelled_operation_ends_cancelled<D>(m: Model, budget: nat)
    requires
        m.valid(),
        m.ready.len() > 0,
        budget > 0,
        m.ops[m.ready[0] as int]->0.cancelled,
    ensures
        m.advanced::<D>(budget, true).2 matches Step::Report(event) && event.terminal
            && event.result == Ok::<Outcome<D>, Error>(Outcome::Cancelled) && event.op
            == m.ops[m.ready[0] as int]->0.request.op,
{
    assert(m.ready_ok(0));
}

/// A cancelled operation is on its way to its end: queued, or with the kernel.
pub proof fn law_cancelled_operation_is_owed(m: Model, op: OpId)
    requires
        m.valid(),
        m.holds(op),
        m.ops[op.spec_index()]->0.cancelled,
    ensures
        m.ready.contains(op.spec_index() as usize) || m.ops[op.spec_index()]->0.waiting,
{
    assert(m.op_ok(op.spec_index(), None));
}

/// The oldest operation of every queue is on its way: queued, with the kernel, with
/// the pool, or being performed.
pub proof fn law_progress_is_never_lost(m: Model, l: int)
    requires
        m.valid(),
        0 <= l < m.lanes.len(),
        m.lanes[l].len() > 0,
    ensures
        ({
            let i = m.lanes[l][0];
            let p = m.ops[i as int]->0;
            m.ready.contains(i) || p.waiting || m.pool.contains(p.request.op) || m.running == Some(
                i,
            )
        }),
{
    assert(m.entry_ok(l, 0));
    assert(m.head_ok(l, None));
    assert(m.op_ok(m.lanes[l][0] as int, None));
}

/// An accepted request is held under its full identity, behind every older request
/// of its queue.
pub proof fn law_submit_appends(m: Model, request: Request)
    requires
        m.valid(),
        m.live(request.handle),
        request.op.spec_index() < m.ops.len(),
    ensures
        m.submitted(request).holds(request.op),
        m.submitted(request).lanes == m.lanes.update(
            m.lane(request),
            m.lanes[m.lane(request)].push(request.op.spec_index() as usize),
        ),
{
}

/// A freed slot stays silent until the next request takes it.
pub proof fn law_ended_operation_is_silent(m: Model, op: OpId)
    requires
        m.valid(),
        op.spec_index() < m.ops.len(),
        m.ops[op.spec_index()] is None,
    ensures
        !m.ready.contains(op.spec_index() as usize),
        !m.pool.contains(op),
{
    law_free_slot_is_silent(m, op.spec_index());
}

/// A pass picks up no operation twice and ends: each step uses up budget, and none of
/// it starts without room for a completion.
pub proof fn law_pass_ends<D>(m: Model, budget: nat, room: bool)
    ensures
        !room ==> m.advanced::<D>(budget, room).2 is Done,
        m.advanced::<D>(budget, room).2 is Done || m.advanced::<D>(budget, room).1 == budget - 1,
{
}

/// The buffer that a reply offers for an operation.
pub open spec fn offered<D>(reply: Reply<D>) -> Option<Lease> {
    match reply {
        Reply::Submitted { lease, .. } => lease,
        Reply::Started { lease } => lease,
        Reply::Bytes { lease, .. } => lease,
        _ => None,
    }
}

/// The buffer that the operation in slot `i` has.
pub open spec fn has_buffer(m: Model, i: int) -> Option<Lease> {
    match m.ops[i] {
        Some(p) => p.lease,
        None => None,
    }
}

/// A buffer is in one place: an operation keeps the one that it had or was offered, or its
/// completion hands it out. What is in neither place goes back to the pool.
pub proof fn law_buffer_is_in_one_place<D>(m: Model, reply: Reply<D>)
    requires
        m.valid(),
        m.running is Some,
        m.running->0 < m.ops.len(),
        offered(reply) is Some ==> has_buffer(m, m.running->0 as int) is None,
    ensures
        ({
            let i = m.running->0 as int;
            let had = if offered(reply) is Some {
                offered(reply)
            } else {
                has_buffer(m, i)
            };
            let (n, event) = m.settled(reply);
            let keeps = has_buffer(n, i);
            let out = if event is Some {
                handed_out(event->0)
            } else {
                None
            };
            &&& keeps is None || out is None
            &&& keeps is Some ==> keeps == had
            &&& out is Some ==> out == had
            &&& going_back(had, keeps, event) == if keeps is None && out is None {
                had
            } else {
                None
            }
        }),
{
    lemma_rest_is_apart(m, m.running->0 as int);
}

/// The same where an operation ends, or is judged, without a call.
pub proof fn law_buffer_is_in_one_place_without_a_call<D>(m: Model, budget: nat, room: bool)
    requires
        m.valid(),
        m.ready.len() > 0,
        m.ready[0] < m.ops.len(),
        budget > 0,
        room,
    ensures
        ({
            let i = m.ready[0] as int;
            let had = has_buffer(m, i);
            let (n, _, step) = m.advanced::<D>(budget, room);
            let keeps = has_buffer(n, i);
            let out = match step {
                Step::Report(event) => handed_out(event),
                _ => None,
            };
            &&& keeps is None || out is None
            &&& keeps is Some ==> keeps == had
            &&& out is Some ==> out == had
        }),
{
    assert(m.ready_ok(0));
    lemma_rest_is_apart(m, m.ready[0] as int);
}

/// What is left of a queue does not hold the operation that left it.
proof fn lemma_rest_is_apart(m: Model, i: int)
    requires
        m.valid(),
        0 <= i < m.ops.len(),
        m.ops[i] is Some,
    ensures
        ({
            let rest = m.lanes[m.lane(m.ops[i]->0.request)].remove_value(i as usize);
            rest.len() > 0 ==> rest[0] != i
        }),
{
    assert(m.op_ok(i, None));
    let l = m.lane(m.ops[i]->0.request);
    let rest = m.lanes[l].remove_value(i as usize);
    crate::queues::lemma_remove_value(m.lanes[l], i as usize);
    if rest.len() > 0 {
        assert(rest.contains(rest[0]));
    }
}

/// A packet reaches the operation that the kernel held, and no other: it tells how the call ended,
/// the kernel holds the operation no more, and it is queued to be judged. One for an operation that
/// the kernel does not hold is refused.
pub proof fn law_packet_reaches_its_operation(m: Model, i: int, e: Entry)
    requires
        m.valid(),
        0 <= i < m.ops.len(),
    ensures
        ({
            let (n, arrived) = m.arrived(Route::Native, i, e.outcome());
            let held = m.ops[i] is Some && m.ops[i]->0.waiting;
            &&& arrived is Ok <==> held
            &&& !held ==> n == m && arrived == Err::<Arrived, Error>(
                Error::plain(ErrorKind::InvalidInput),
            )
            &&& held ==> {
                let p = n.ops[i]->0;
                &&& n.ops[i] is Some
                &&& p.request == m.ops[i]->0.request
                &&& p.offset == m.ops[i]->0.offset && p.lease == m.ops[i]->0.lease && p.stage
                    == m.ops[i]->0.stage && p.cancelled == m.ops[i]->0.cancelled
                &&& p.completion == Some(
                    if e.status < 0 {
                        Err::<u32, Error>(e.error)
                    } else {
                        Ok(e.bytes)
                    },
                )
                &&& !p.waiting
                &&& n.ready.contains(i as usize)
                &&& n.lanes == m.lanes && n.resources == m.resources && n.pool == m.pool
                &&& forall|k: int|
                    0 <= k < m.ops.len() && k != i ==> #[trigger] n.ops[k] == m.ops[k]
            }
            &&& m.arrived(Route::Bridge, i, e.outcome()) == (m, Ok::<Arrived, Error>(
                Arrived::Bridge(i as usize),
            ))
            &&& m.ops[i] is Some ==> m.arrived(Route::Worker, i, e.outcome()) == (m, Ok::<
                Arrived,
                Error,
            >(Arrived::Worker { slot: i as usize, handle: m.ops[i]->0.request.handle }))
            &&& m.ops[i] is None ==> m.arrived(Route::Worker, i, e.outcome()).1 is Err
        }),
{
    assert(m.op_ok(i, None));
    if m.ops[i] is Some && m.ops[i]->0.waiting {
        let n = m.completed(i, e.outcome());
        assert(n.ready == m.ready.push(i as usize));
        assert(n.ready[m.ready.len() as int] == i as usize);
    }
}

/// What is queued first is picked up first. A new operation, and one whose packet does not decide,
/// is performed; it is the one that runs then.
pub proof fn law_first_in_line_is_performed<D>(m: Model, budget: nat)
    requires
        m.valid(),
        m.ready.len() > 0,
        budget > 0,
        !m.ops[m.ready[0] as int]->0.cancelled,
    ensures
        ({
            let i = m.ready[0];
            let p = m.ops[i as int]->0;
            let (n, left, step) = m.advanced::<D>(budget, true);
            &&& left == budget - 1
            &&& p.completion is None ==> step == Step::<D>::Execute(i)
            &&& step is Execute ==> step == Step::<D>::Execute(i) && n.running == Some(i)
                && n.ops[i as int] is Some && n.ops[i as int]->0.request == p.request
                && n.ready == m.ready.drop_first() && n.lanes == m.lanes
            &&& step is Report ==> step->Report_0.op == p.request.op
        }),
{
    assert(m.ready_ok(0));
    assert(m.op_ok(m.ready[0] as int, None));
}

/// What an attempt brought is told under its operation as it is, a failure for the last time; what
/// ended leaves its queue, and what goes on stays in it.
pub proof fn law_attempts_are_judged<D>(m: Model, i: int, p: Job, attempt: Attempt<D>)
    requires
        m.valid(),
        0 <= i < m.ops.len(),
        m.ops[i] is Some,
    ensures
        ({
            let op = m.ops[i]->0.request.op;
            let (n, event) = m.judged(i, p, attempt);
            match attempt {
                Err(e) => event == Some(Event { op, terminal: true, result: Err::<Outcome<D>, Error>(e) })
                    && n.ops[i] is None,
                Ok(Some((outcome, last))) => {
                    &&& event is Some && event->0.op == op && event->0.terminal == last
                        && event->0.result == Ok::<Outcome<D>, Error>(outcome)
                    &&& last ==> n.ops[i] is None
                    &&& !last ==> n.ops[i] is Some && n.ops[i]->0.request == p.request && n.ops[i]->0.stage
                        == Stage::Start && n.ops[i]->0.completion is None && n.lanes == m.lanes
                },
                Ok(None) => event is None && n.ops[i] is Some && n.ops[i]->0.request == p.request
                    && n.ops[i]->0.offset == p.offset && n.ops[i]->0.completion == p.completion
                    && n.lanes == m.lanes,
            }
        }),
{
    lemma_rest_is_apart(m, i);
}

/// The operation behind one that ended has its turn: it is queued at once.
pub proof fn law_next_in_line_has_its_turn(m: Model, l: int)
    requires
        m.valid(),
        0 <= l < m.lanes.len(),
        m.lanes[l].len() > 1,
        ({
            let next = m.ops[m.lanes[l][1] as int]->0;
            !next.waiting && !next.pool_wait && !next.queued
        }),
    ensures
        ({
            let n = m.unlinked(m.lanes[l][0] as int);
            &&& n.lanes[l] == m.lanes[l].drop_first()
            &&& n.ready == m.ready.push(m.lanes[l][1])
            &&& n.ops[m.lanes[l][0] as int] is None
        }),
{
    assert(m.entry_ok(l, 0));
    assert(m.entry_ok(l, 1));
    let lane = m.lanes[l];
    let first = lane[0];
    lane.index_of_first_ensures(first);
    assert(lane.remove_value(first) =~= lane.drop_first());
    assert(lane[0] != lane[1]);
}

/// Buffers that come back wake the operations that wait for one in the order in which they came, as
/// many as there are.
pub proof fn law_buffers_wake_in_order(m: Model, n: nat)
    requires
        n <= m.pool.len(),
    ensures
        m.woken(n).pool == m.pool.skip(n as int),
        m.woken(n).lanes == m.lanes,
    decreases n,
{
    if n > 0 {
        law_buffers_wake_in_order(m, (n - 1) as nat);
        assert(m.pool.skip(n - 1).drop_first() =~= m.pool.skip(n as int));
    } else {
        assert(m.pool.skip(0) =~= m.pool);
    }
}

/// The operation that waited longest for a buffer is queued to ask for one, and no other is.
pub proof fn law_woken_operation_is_queued(m: Model)
    requires
        m.valid(),
        m.running is None,
        m.pool.len() > 0,
    ensures
        ({
            let i = m.pool[0].spec_index();
            let n = m.woken_one();
            &&& n.holds(m.pool[0])
            &&& !n.ops[i]->0.pool_wait
            &&& n.ready == m.ready.push(i as usize)
            &&& forall|k: int| 0 <= k < m.ops.len() && k != i ==> #[trigger] n.ops[k] == m.ops[k]
        }),
{
    assert(m.pool_ok(0));
    assert(m.op_ok(m.pool[0].spec_index(), None));
}

/// Which operations each kind of handle is for: listeners accept, datagram sockets receive and send
/// datagrams, streams read and write; only sockets shut down, only pipes pass handles.
pub proof fn law_kinds_take_their_operations(kind: Kind, op: Operation)
    ensures
        ({
            let moves = op is Read || op is Write || op is Writev;
            &&& kind == Kind::Tcp ==> (takes(kind, op) <==> moves || op is Connect || op is Shutdown)
            &&& kind == Kind::Pipe ==> (takes(kind, op) <==> moves || op is Connect || op
                is SendHandle || op is RecvHandle)
            &&& kind == Kind::Sync ==> (takes(kind, op) <==> moves)
            &&& kind == Kind::Udp ==> (takes(kind, op) <==> op is SendTo || op is RecvFrom)
            &&& kind == Kind::Listener || kind == Kind::PipeListener ==> (takes(kind, op) <==> op
                is Accept)
        }),
{
}

/// A request is taken if and only if its handle is alive and for the operation, what it passes on is
/// a socket that is alive, and its slot is free.
pub proof fn law_requests_are_taken_or_refused(m: Model, request: Request)
    ensures
        ({
            let op = request.operation;
            let h = request.handle;
            let i = request.op.spec_index();
            let alive = |own: Handle|
                own.spec_index() < m.resources.len() && m.resources[own.spec_index()] is Some
                    && m.resources[own.spec_index()]->0.handle == own;
            let kind = |own: Handle| m.resources[own.spec_index()]->0.kind;
            let passed = op->SendHandle_0;
            let socket = kind(passed) == Kind::Tcp || kind(passed) == Kind::Listener || kind(passed)
                == Kind::Udp;
            let free = i < m.ops.len() && m.ops[i] is None;
            let refused = refusal(m, request);
            &&& refused is None <==> alive(h) && takes(kind(h), op) && free && (op is SendHandle
                ==> alive(passed) && socket)
            &&& refused is Some ==> refused->0 == Error::plain(
                if !alive(h) {
                    ErrorKind::NotFound
                } else if !takes(kind(h), op) {
                    ErrorKind::Unsupported
                } else if op is SendHandle && !alive(passed) {
                    ErrorKind::NotFound
                } else if op is SendHandle && !socket {
                    ErrorKind::Unsupported
                } else {
                    ErrorKind::InvalidInput
                },
            )
        }),
{
}

/// The kernel storage of two slots lies apart, so that an address names one slot.
pub proof fn law_storage_is_apart(base: usize, stride: usize, a: int, b: int)
    requires
        stride > 0,
        a < b,
    ensures
        storage(base, stride, a) + stride <= storage(base, stride, b),
        storage(base, stride, 0) == base,
{
    assert(a * stride + stride <= b * stride) by (nonlinear_arith)
        requires
            a + 1 <= b,
            stride > 0,
    ;
}

/// A handle is served under its own slot, as it was bound, and is gone from it once it is given
/// back; nothing else changes by it.
pub proof fn law_handles_come_and_go(m: Model, r: Resource, h: Handle)
    requires
        m.valid(),
        r.handle.spec_index() < m.resources.len(),
        m.live(h),
    ensures
        m.installed(r).live(r.handle),
        m.installed(r).resources[r.handle.spec_index()] == Some(r),
        m.installed(r).ops == m.ops && m.installed(r).lanes == m.lanes,
        !m.removed(h).live(h),
        m.removed(h).resources[h.spec_index()] is None,
        m.removed(h).ops == m.ops && m.removed(h).ready == m.ready,
        forall|s: int|
            0 <= s < m.resources.len() && s != h.spec_index() ==> #[trigger] m.removed(
                h,
            ).resources[s] == m.resources[s],
{
}

/// A new operation that is the first of its queue is queued at once, and any other waits for its
/// turn. It starts from its beginning: nothing was transferred, and nothing is asked of the kernel.
pub proof fn law_new_operation_starts_afresh(m: Model, request: Request)
    requires
        m.valid(),
        m.live(request.handle),
        request.op.spec_index() < m.ops.len(),
        m.ops[request.op.spec_index()] is None,
    ensures
        ({
            let i = request.op.spec_index();
            let n = m.submitted(request);
            let p = n.ops[i]->0;
            let first = m.lanes[m.lane(request)].len() == 0;
            &&& p.request == request
            &&& p.stage == Stage::Start && p.offset == 0 && p.count == 0
            &&& p.completion is None && p.lease is None
            &&& !p.waiting && !p.pool_wait && !p.cancelled
            &&& first ==> n.ready == m.ready.push(i as usize)
            &&& !first ==> n.ready == m.ready
        }),
{
}

/// Operations of one direction of a handle wait for each other, and those of a synchronous handle
/// all do: its calls exclude each other.
pub proof fn law_operations_queue_by_direction(m: Model, request: Request)
    ensures
        ({
            let s = request.handle.spec_index();
            let sync = m.resources[s]->0.kind == Kind::Sync;
            let input = request.operation is Accept || request.operation is Read
                || request.operation is RecvFrom || request.operation is RecvHandle;
            m.lane(request) == 2 * s + (if sync || input {
                0int
            } else {
                1
            })
        }),
{
}

} // verus!
