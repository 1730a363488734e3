//! What the completion engine promises across calls.
use crate::lanes::lane_of;
use crate::queues::{lemma_pop, lemma_push, lemma_remove_value};
use crate::payload::Attempt;
use crate::types::{
    cancelled_event, Direction, Error, ErrorKind, Handle, OpId, Operation, Outcome, ReadBuf,
    Request, SLOT_SPAN,
};
use crate::readiness::engine::{
    foreign, home, law_free_slot_is_silent, lemma_withdrawn, refusal, takes, verdict, Model, Phase,
    Step, Verdict,
};
use crate::readiness::io::{answers, concluded, Kind, Rules, Reply};
use vstd::prelude::*;

verus! {

/// An accepted request is held under its full identity, behind every older request
/// of its queue, and no other queue changes.
pub proof fn law_submit_appends(m: Model, request: Request)
    requires
        m.valid(),
        m.live(request.handle),
        request.op.spec_index() < m.ops.len(),
    ensures
        m.submitted(request).holds(request.op),
        m.submitted(request).lanes[home(request)] == m.lanes[home(request)].push(
            request.op.spec_index() as usize,
        ),
        forall|l: int|
            0 <= l < m.lanes.len() && l != home(request) ==> #[trigger] m.submitted(
                request,
            ).lanes[l] == m.lanes[l],
{
}

/// Queues are served in order: only the oldest operation of a direction is ever
/// started.
pub proof fn law_oldest_first(m: Model, budget: nat, room: bool)
    requires
        m.valid(),
    ensures
        m.advanced(budget, room).2 matches Step::Execute { handle, direction, slot } ==> {
            &&& m.lanes[lane_of(handle, direction)].len() > 0
            &&& m.lanes[lane_of(handle, direction)][0] == slot
            &&& room
            &&& m.resources[handle.spec_index()]->0.spec_ready(direction)
        },
{
}

/// A completion carries the full identity of the running operation. A terminal one
/// frees the slot, so no further completion of that operation can follow; after
/// anything else the operation is still held.
pub proof fn law_one_terminal_completion<D>(m: Model, reply: Reply<D>, rules: Rules)
    requires
        m.valid(),
        m.phase is Running,
    ensures
        ({
            let slot = m.phase->slot as int;
            let op = m.ops[slot]->0.request.op;
            let (n, event) = m.settled(reply, rules);
            &&& m.holds(op)
            &&& event is Some ==> event->0.op == op
            &&& event is Some && event->0.terminal ==> !n.holds(op) && n.ops[slot] is None
            &&& event is None || !event->0.terminal ==> n.holds(op)
        }),
{
    let (handle, direction, slot) = (m.phase->Running_handle, m.phase->Running_direction, m.phase->slot);
    assert(m.entry_ok(lane_of(handle, direction), 0));
    assert(m.op_ok(slot as int));
}

/// A freed slot is in no queue and is owed no acknowledgement: it stays silent until
/// the next request takes it.
pub proof fn law_ended_operation_is_silent(m: Model, op: OpId)
    requires
        m.valid(),
        op.spec_index() < m.ops.len(),
        m.ops[op.spec_index()] is None,
    ensures
        !m.cancelled.contains(op),
        forall|l: int, k: int|
            0 <= l < m.lanes.len() && 0 <= k < m.lanes[l].len() ==> #[trigger] m.lanes[l][k]
                != op.spec_index(),
{
    law_free_slot_is_silent(m, op.spec_index());
    assert forall|l: int, k: int|
        0 <= l < m.lanes.len() && 0 <= k < m.lanes[l].len() implies #[trigger] m.lanes[l][k]
        != op.spec_index() by {
        assert(m.entry_ok(l, k));
    }
}

/// Cancelling leaves the queue at once, keeps the others in order, and owes exactly
/// one acknowledgement, behind those owed before.
pub proof fn law_cancel_owes_one_acknowledgement(m: Model, op: OpId, rules: Rules)
    requires
        m.valid(),
        m.holds(op),
        !m.ops[op.spec_index()]->0.cancelled,
    ensures
        ({
            let n = m.withdrawn(op, rules);
            let l = home(m.ops[op.spec_index()]->0.request);
            &&& n.cancelled == m.cancelled.push(op)
            &&& n.cancelled.no_duplicates()
            &&& n.holds(op)
            &&& n.lanes[l] == m.lanes[l].remove_value(op.spec_index() as usize)
            &&& !n.lanes[l].contains(op.spec_index() as usize)
        }),
{
    let i = op.spec_index();
    assert(m.op_ok(i));
    let p = m.ops[i]->0;
    lemma_remove_value(m.lanes[home(p.request)], i as usize);
    if m.cancelled.contains(op) {
        let k = choose|k: int| 0 <= k < m.cancelled.len() && m.cancelled[k] == op;
        assert(m.owed_ok(k));
    }
    lemma_push(m.cancelled, op);
}

/// Cancelling holds nothing up: where the host reports what was started, the operation behind a
/// cancelled oldest one is tried in the next pass, whatever the cancelled one waited for.
pub proof fn law_cancelled_oldest_holds_nothing_up(m: Model, op: OpId)
    requires
        m.valid(),
        m.phase is Idle,
        m.ops.len() <= usize::MAX,
        m.holds(op),
        !m.ops[op.spec_index()]->0.cancelled,
        m.lanes[home(m.ops[op.spec_index()]->0.request)][0] == op.spec_index(),
        m.lanes[home(m.ops[op.spec_index()]->0.request)].len() > 1,
    ensures
        ({
            let n = m.withdrawn(op, Rules::Async);
            let request = m.ops[op.spec_index()]->0.request;
            &&& n.lanes[home(request)][0] == m.lanes[home(request)][1]
            &&& n.resources[request.handle.spec_index()]->0.spec_ready(
                request.operation.spec_direction(),
            )
            &&& n.ready.contains(request.handle)
        }),
{
    let i = op.spec_index();
    let request = m.ops[i]->0.request;
    let l = home(request);
    assert(m.op_ok(i));
    lemma_withdrawn(m, op, Rules::Async);
    let lane = m.lanes[l];
    lane.index_of_first_ensures(i as usize);
    assert(lane.remove_value(i as usize) =~= lane.drop_first());
    let n = m.withdrawn(op, Rules::Async);
    assert(n.slot_ok(request.handle.spec_index(), None));
}

/// Delivering an acknowledgement ends exactly the operation that was owed it.
pub proof fn law_acknowledgement_ends_the_operation(m: Model)
    requires
        m.valid(),
        m.cancelled.len() > 0,
    ensures
        !m.acknowledged().holds(m.cancelled[0]),
        !m.acknowledged().cancelled.contains(m.cancelled[0]),
        forall|op: OpId|
            op.spec_index() != m.cancelled[0].spec_index() ==> #[trigger] m.acknowledged().holds(op)
                == m.holds(op),
{
    assert(m.owed_ok(0));
    lemma_pop(m.cancelled);
}

/// Between passes, whatever can make progress is queued: readiness is never lost,
/// and the engine knows that it has work.
pub proof fn law_progress_is_never_lost(m: Model, s: int)
    requires
        m.valid(),
        m.phase == Phase::Idle,
        0 <= s < m.resources.len(),
        m.runnable(s),
    ensures
        m.ready.contains(m.resources[s]->0.handle),
        m.ready.len() > 0,
{
    assert(m.slot_ok(s, None));
}

/// A readiness report for another generation of a slot changes nothing.
pub proof fn law_stale_report_is_ignored(m: Model, key: u64, read: bool, write: bool)
    requires
        m.valid(),
        (key % SLOT_SPAN) as int >= m.resources.len() || m.resources[(key % SLOT_SPAN) as int]
            is None || m.resources[(key % SLOT_SPAN) as int]->0.handle.key != key,
    ensures
        m.marked(key, read, write) == m,
{
}

/// A call that would block brings no completion and clears the cached readiness of
/// its direction, so an idle descriptor does not keep the loop awake.
pub proof fn law_would_block_parks_the_direction<D>(m: Model, reply: Reply<D>, rules: Rules)
    requires
        m.valid(),
        m.phase is Running,
        ({
            let p = m.ops[m.phase->slot as int]->0;
            let r = m.resources[m.phase->Running_handle.spec_index()]->0;
            concluded(r, p, reply, rules).2 matches Err(e) && e.kind == ErrorKind::WouldBlock
        }),
    ensures
        ({
            let h = m.phase->Running_handle;
            let (n, event) = m.settled(reply, rules);
            &&& event is None
            &&& !n.resources[h.spec_index()]->0.spec_ready(m.phase->Running_direction)
            &&& n.lanes == m.lanes
        }),
{
    let (handle, direction, slot) = (m.phase->Running_handle, m.phase->Running_direction, m.phase->slot);
    assert(m.entry_ok(lane_of(handle, direction), 0));
}

/// How far a pass still has to go.
pub open spec fn rank(m: Model, budget: nat) -> int {
    5 * budget + match m.phase {
        Phase::Idle => 0int,
        Phase::Lane { direction: Direction::In, .. } => 4,
        Phase::Running { direction: Direction::In, .. } => 3,
        Phase::Lane { direction: Direction::Out, .. } => 2,
        Phase::Running { direction: Direction::Out, .. } => 1,
    }
}

/// A pass ends: every step and every reply brings it closer, and a pass that is done
/// stands between handles.
pub proof fn law_pass_ends<D>(m: Model, budget: nat, room: bool, reply: Reply<D>, rules: Rules)
    requires
        m.valid(),
    ensures
        m.advanced(budget, room).2 == Step::Done ==> m.phase is Idle || m.phase is Running,
        m.advanced(budget, room).2 != Step::Done ==> 0 <= rank(
            m.advanced(budget, room).0,
            m.advanced(budget, room).1,
        ) < rank(m, budget),
        m.phase is Running ==> rank(m.settled(reply, rules).0, budget) < rank(m, budget),
{
}

/// A handle of an older generation is refused and changes nothing.
pub proof fn law_stale_handle_is_refused(m: Model, request: Request, rules: Rules)
    requires
        !m.live(request.handle),
    ensures
        refusal(m, request, rules) is Some,
        refusal(m, request, rules)->0.kind == (if foreign(rules, request.operation) {
            ErrorKind::Unsupported
        } else {
            ErrorKind::NotFound
        }),
{
}

/// Only accepts and reads that were asked for many completions bring one that is not their
/// last, and it tells of a connection or of bytes.
pub proof fn law_only_multishot_goes_on<D>(m: Model, reply: Reply<D>, rules: Rules)
    requires
        m.valid(),
        match m.phase {
            Phase::Running { handle, slot, .. } => answers(
                m.resources[handle.spec_index()]->0,
                m.ops[slot as int]->0,
                rules,
                reply,
            ),
            _ => false,
        },
    ensures
        m.settled(reply, rules).1 matches Some(e) ==> e.terminal || {
            &&& match m.ops[m.phase->slot as int]->0.request.operation {
                Operation::Accept { multishot } => multishot,
                Operation::Read { multishot, .. } => multishot,
                _ => false,
            }
            &&& e.result matches Ok(outcome) && (outcome is Accepted || outcome is PipeAccepted
                || outcome is Read)
        },
{
}

/// A readiness report sets what it tells of its own handle, takes nothing back and touches nothing
/// else; a handle that can make progress by then is queued.
pub proof fn law_report_sets_what_it_tells(m: Model, h: Handle, read: bool, write: bool)
    requires
        m.valid(),
        m.phase is Idle,
        m.live(h),
    ensures
        ({
            let n = m.marked(h.key, read, write);
            let before = m.resources[h.spec_index()]->0;
            let after = n.resources[h.spec_index()]->0;
            &&& n.live(h)
            &&& after.ready_in <==> before.ready_in || read
            &&& after.ready_out <==> before.ready_out || write
            &&& after.kind == before.kind && after.connect == before.connect && after.connecting
                == before.connecting
            &&& n.lanes == m.lanes && n.ops == m.ops && n.cancelled == m.cancelled
            &&& forall|s: int|
                0 <= s < m.resources.len() && s != h.spec_index() ==> #[trigger] n.resources[s]
                    == m.resources[s]
            &&& (after.ready_in && m.lanes[2 * h.spec_index()].len() > 0) || (after.ready_out
                && m.lanes[2 * h.spec_index() + 1].len() > 0) ==> n.ready.contains(h)
        }),
{
    let s = h.spec_index();
    assert(m.slot_ok(s, None));
    let r = m.resources[s]->0;
    let mid = Model {
        resources: m.resources.update(
            s,
            Some(
                crate::readiness::io::Resource {
                    ready_in: r.ready_in || read,
                    ready_out: r.ready_out || write,
                    ..r
                },
            ),
        ),
        ..m
    };
    let n = m.marked(h.key, read, write);
    assert(n == mid.scheduled(h));
    if mid.runnable(s) {
        if !r.queued {
            assert(n.ready == m.ready.push(h));
            assert(n.ready[m.ready.len() as int] == h);
        } else {
            assert(m.ready.contains(h));
            assert(n.ready == m.ready);
        }
    }
}

/// A new resource is tried before anything is known of it: what is asked of it first is queued at
/// once, with nobody having reported it ready.
pub proof fn law_new_resource_is_tried_at_once(
    m: Model,
    h: Handle,
    kind: Kind,
    connect: bool,
    request: Request,
)
    requires
        m.valid(),
        m.phase is Idle,
        h.spec_index() < m.resources.len(),
        m.resources[h.spec_index()] is None,
        request.handle == h,
        request.op.spec_index() < m.ops.len() <= usize::MAX,
    ensures
        ({
            let n = m.installed(h, kind, connect).submitted(request);
            &&& n.live(h)
            &&& n.resources[h.spec_index()]->0.kind == kind
            &&& n.resources[h.spec_index()]->0.connect == connect
            &&& n.ready == m.ready.push(h)
            &&& n.holds(request.op)
            &&& n.ops[request.op.spec_index()]->0.offset == 0
            &&& n.lanes[2 * h.spec_index() + (if request.operation.spec_direction() is In {
                0int
            } else {
                1
            })] == seq![request.op.spec_index() as usize]
        }),
{
    let s = h.spec_index();
    assert(m.slot_ok(s, None));
    let a = m.installed(h, kind, connect);
    let n = a.submitted(request);
    let l = home(request);
    assert(a.lanes[l].push(request.op.spec_index() as usize) =~= seq![
        request.op.spec_index() as usize,
    ]);
}

/// A pass starts the oldest operation of a direction that is ready, within a few steps of the
/// turn of its handle: the reading side comes first, and the writing side is not passed over.
pub proof fn law_ready_operation_is_started(m: Model, h: Handle, budget: nat)
    requires
        m.valid(),
        m.phase is Idle,
        m.ready.len() > 0,
        m.ready[0] == h,
        budget > 0,
    ensures
        ({
            let r = m.resources[h.spec_index()]->0;
            let reads = m.lanes[2 * h.spec_index()];
            let writes = m.lanes[2 * h.spec_index() + 1];
            let first = m.advanced(budget, true);
            let second = first.0.advanced(first.1, true);
            let third = second.0.advanced(second.1, true);
            &&& first.2 is Again && first.1 == budget - 1
            &&& r.ready_in && reads.len() > 0 ==> second.2 == (Step::Execute {
                handle: h,
                direction: Direction::In,
                slot: reads[0],
            })
            &&& !(r.ready_in && reads.len() > 0) && r.ready_out && writes.len() > 0 ==> {
                &&& second.2 is Again
                &&& third.2 == (Step::Execute {
                    handle: h,
                    direction: Direction::Out,
                    slot: writes[0],
                })
            }
        }),
{
    assert(m.ready_ok(0));
    assert(m.slot_ok(h.spec_index(), None));
}

/// After an answer to a reading operation its handle is asked to write in the same pass, and after
/// one to a writing operation it is queued again if it can still make progress.
pub proof fn law_both_directions_have_their_turn<D>(m: Model, reply: Reply<D>, rules: Rules)
    requires
        m.valid(),
        m.phase is Running,
    ensures
        ({
            let h = m.phase->Running_handle;
            let n = m.settled(reply, rules).0;
            &&& m.phase->Running_direction is In ==> n.phase == (Phase::Lane {
                handle: h,
                direction: Direction::Out,
            })
            &&& m.phase->Running_direction is Out ==> n.phase is Idle && (n.runnable(h.spec_index())
                ==> n.ready.contains(h) && n.resources[h.spec_index()]->0.queued)
        }),
{
    let (handle, direction, slot) = (
        m.phase->Running_handle,
        m.phase->Running_direction,
        m.phase->slot,
    );
    let s = handle.spec_index();
    assert(m.slot_ok(s, None));
    if direction is Out {
        let n = m.settled(reply, rules).0;
        if n.runnable(s) {
            assert(n.ready == m.ready.push(handle));
            assert(n.ready[m.ready.len() as int] == handle);
        }
    }
}

/// An attempt is told under the operation it is one of: what it brought as it is, a failure once
/// and for the last time. One that would block parks its direction, and an interrupted call is
/// made again.
pub proof fn law_attempts_are_judged<D>(attempt: Attempt<D>, op: OpId, rules: Rules)
    ensures
        match verdict(attempt, op, rules) {
            Verdict::Report(e) => {
                &&& e.op == op
                &&& match attempt {
                    Ok(brought) => brought is Some && e.result == Ok::<Outcome<D>, Error>(
                        (brought->0).0,
                    ) && e.terminal == (brought->0).1,
                    Err(error) => e.terminal && e.result == Err::<Outcome<D>, Error>(error)
                        && error.kind != ErrorKind::WouldBlock && !(rules is Native && error.os
                        == Some(rules->interrupted)),
                }
            },
            Verdict::Keep => match attempt {
                Ok(brought) => brought is None,
                Err(error) => rules is Native && error.os == Some(rules->interrupted) && error.kind
                    != ErrorKind::WouldBlock,
            },
            Verdict::Block => attempt is Err && attempt->Err_0.kind == ErrorKind::WouldBlock,
        },
{
}

/// Which operations each kind of descriptor is for: listeners accept, datagram sockets receive
/// and send datagrams, streams read, write and shut down; only local streams pass handles, and
/// only what was opened towards an address connects.
pub proof fn law_kinds_take_their_operations(rules: Rules, kind: Kind, connect: bool, op: Operation)
    ensures
        ({
            let taken = takes(rules, kind, connect, op);
            let stream = op is Read || op is Write || op is Writev || op is Shutdown;
            &&& rules is Native ==> {
                &&& kind == Kind::Listener || kind == Kind::PipeListener ==> (taken <==> op
                    is Accept)
                &&& kind == Kind::Udp ==> (taken <==> op is RecvFrom || op is SendTo)
                &&& stream ==> (taken <==> kind == Kind::Tcp || kind == Kind::Pipe || kind
                    == Kind::Stream || kind == Kind::File)
                &&& op is Connect ==> (taken <==> connect && (kind == Kind::Tcp || kind
                    == Kind::Pipe))
                &&& op is SendHandle || op is RecvHandle ==> (taken <==> kind == Kind::Pipe)
                &&& kind == Kind::Stdin || kind == Kind::Stdout ==> !taken
            }
            &&& !(rules is Native) ==> {
                &&& kind == Kind::Listener ==> (taken <==> op is Accept)
                &&& kind == Kind::Udp ==> (taken <==> op is RecvFrom || op is SendTo)
                &&& kind == Kind::Tcp ==> (taken <==> stream || op is Connect && connect)
                &&& kind == Kind::Stdin ==> (taken <==> op is Read)
                &&& kind == Kind::Stdout ==> (taken <==> op is Write || op is Writev || op
                    is Shutdown)
                &&& kind == Kind::Pipe || kind == Kind::PipeListener || kind == Kind::Stream || kind
                    == Kind::File ==> !taken
            }
        }),
{
}

/// A request is taken if and only if its handle is alive, its kind is for the operation, its slot
/// is free, its buffer can hold something, and what it passes on can be passed on; files, which
/// are served elsewhere, take whatever does not shut down.
pub proof fn law_requests_are_taken_or_refused(m: Model, request: Request, rules: Rules)
    requires
        rules is Native,
    ensures
        ({
            let op = request.operation;
            let h = request.handle;
            let i = request.op.spec_index();
            let alive = |own: Handle|
                own.spec_index() < m.resources.len() && m.resources[own.spec_index()] is Some
                    && m.resources[own.spec_index()]->0.handle == own;
            let kind = m.resources[h.spec_index()]->0.kind;
            let connect = m.resources[h.spec_index()]->0.connect;
            let free = i < m.ops.len() && m.ops[i] is None;
            let empty = op is Read && op->buf == ReadBuf::Provided(0);
            let fixed = |k: Kind| k == Kind::Stream || k == Kind::File;
            let refused = refusal(m, request, rules);
            &&& refused is None <==> {
                &&& alive(h)
                &&& !(op is Shutdown && fixed(kind))
                &&& kind == Kind::File || {
                    &&& takes(rules, kind, connect, op)
                    &&& free
                    &&& !empty
                    &&& op is SendHandle ==> alive(op->SendHandle_0) && !fixed(
                        m.resources[op->SendHandle_0.spec_index()]->0.kind,
                    )
                }
            }
            &&& refused is Some ==> refused->0 == Error::plain(
                if !alive(h) {
                    ErrorKind::NotFound
                } else if op is Shutdown && fixed(kind) {
                    ErrorKind::Unsupported
                } else if !takes(rules, kind, connect, op) || !free || empty {
                    ErrorKind::InvalidInput
                } else if !alive(op->SendHandle_0) {
                    ErrorKind::NotFound
                } else {
                    ErrorKind::Unsupported
                },
            )
        }),
{
}

/// A wait is about the directions that operations wait in: each such direction of a live handle,
/// and nothing else.
pub proof fn law_interests_are_waited_for(m: Model, n: int, h: Handle, d: Direction)
    requires
        m.valid(),
        0 <= n <= m.resources.len(),
    ensures
        m.interests(n).contains((h, d)) <==> {
            &&& h.spec_index() < n
            &&& m.live(h)
            &&& m.lanes[2 * h.spec_index() + (if d is In {
                0int
            } else {
                1
            })].len() > 0
        },
    decreases n,
{
    if n > 0 {
        law_interests_are_waited_for(m, n - 1, h, d);
        assert(m.slot_ok(n - 1, None));
        let before = m.interests(n - 1);
        let reads = if m.resources[n - 1] is Some && m.lanes[2 * (n - 1)].len() > 0 {
            seq![(m.resources[n - 1]->0.handle, Direction::In)]
        } else {
            Seq::empty()
        };
        let writes = if m.resources[n - 1] is Some && m.lanes[2 * (n - 1) + 1].len() > 0 {
            seq![(m.resources[n - 1]->0.handle, Direction::Out)]
        } else {
            Seq::empty()
        };
        assert(m.interests(n) =~= before + reads + writes);
        let all = m.interests(n);
        let want = (h, d);
        if before.contains(want) {
            let k = choose|k: int| 0 <= k < before.len() && before[k] == want;
            assert(all[k] == want);
        }
        if reads.contains(want) {
            assert(all[before.len() as int] == want);
        }
        if writes.contains(want) {
            assert(all[(before.len() + reads.len()) as int] == want);
        }
        if all.contains(want) {
            let k = choose|k: int| 0 <= k < all.len() && all[k] == want;
            if k < before.len() {
                assert(before[k] == want);
            } else if k < before.len() + reads.len() {
                assert(reads[k - before.len()] == want);
            } else {
                assert(writes[k - before.len() - reads.len()] == want);
            }
        }
        if m.resources[n - 1] is Some && m.resources[n - 1]->0.handle == h {
            if d is In && reads.len() > 0 {
                assert(reads[0] == want);
            }
            if d is Out && writes.len() > 0 {
                assert(writes[0] == want);
            }
        }
    }
}

/// A resource that is given back is gone from its slot and from the line; nothing else changes.
pub proof fn law_released_resource_is_gone(m: Model, h: Handle)
    requires
        m.valid(),
        m.live(h),
    ensures
        ({
            let n = m.removed(h);
            &&& !n.live(h)
            &&& n.resources[h.spec_index()] is None
            &&& !n.ready.contains(h)
            &&& forall|other: Handle| other != h ==> n.ready.contains(other) == #[trigger] m.ready.contains(other)
            &&& forall|s: int|
                0 <= s < m.resources.len() && s != h.spec_index() ==> #[trigger] n.resources[s]
                    == m.resources[s]
            &&& n.ops == m.ops && n.lanes == m.lanes && n.cancelled == m.cancelled
        }),
{
    lemma_remove_value(m.ready, h);
}

/// Acknowledgements are delivered oldest first, each ends its operation, and each says that the
/// operation was cancelled, for the last time.
pub proof fn law_acknowledgements_are_delivered_in_order<D>(m: Model, n: nat, op: OpId)
    requires
        m.valid(),
        n <= m.cancelled.len(),
    ensures
        m.drained(n).ops.len() == m.ops.len(),
        m.drained(n).cancelled == m.cancelled.skip(n as int),
        m.drained(n).lanes == m.lanes && m.drained(n).resources == m.resources && m.drained(n).ready
            == m.ready,
        forall|k: int|
            0 <= k < n ==> m.drained(n).ops[(#[trigger] m.cancelled[k]).spec_index()] is None,
        cancelled_event::<D>(op).op == op,
        cancelled_event::<D>(op).terminal,
        cancelled_event::<D>(op).result == Ok::<Outcome<D>, Error>(Outcome::Cancelled),
    decreases n,
{
    if n > 0 {
        law_acknowledgements_are_delivered_in_order::<D>(m, (n - 1) as nat, op);
        let before = m.drained((n - 1) as nat);
        assert(m.owed_ok(n - 1));
        assert(before.cancelled[0] == m.cancelled[n - 1]);
        assert(m.drained(n) == before.acknowledged());
        assert forall|k: int| 0 <= k < n implies m.drained(
            n,
        ).ops[(#[trigger] m.cancelled[k]).spec_index()] is None by {
            assert(m.owed_ok(k));
        }
        assert(m.cancelled.skip(n - 1).drop_first() =~= m.cancelled.skip(n as int));
    } else {
        assert(m.cancelled.skip(0) =~= m.cancelled);
    }
}

/// What was given up elsewhere is owed an acknowledgement of its own, behind those owed before.
pub proof fn law_what_is_given_up_is_acknowledged(m: Model, op: OpId)
    requires
        m.valid(),
        op.spec_index() < m.ops.len(),
        m.ops[op.spec_index()] is None,
    ensures
        m.indebted(op).cancelled == m.cancelled.push(op),
        m.indebted(op).holds(op),
        m.indebted(op).ops[op.spec_index()]->0.cancelled,
        m.indebted(op).lanes == m.lanes && m.indebted(op).ready == m.ready,
{
}

} // verus!
