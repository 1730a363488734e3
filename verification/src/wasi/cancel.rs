//! Cancelling operations of the asynchronous backend: what one waits for is stopped before its
//! acknowledgement is owed, so that by then the host touches its memory no more.
use crate::readiness::engine::{Engine, Model, Phase};
use crate::readiness::io::{Pending, Reply, Rules};
use crate::readiness::trace;
use crate::types::{Error, ErrorKind, Event, OpId};
use crate::wasi::drive::{attemptable, executed, told, Ack};
use crate::wasi::p3::{cleanup, finished, left_behind, quiesce, stops, Cleanup, StreamState, Wait};
use vstd::prelude::*;

verus! {

/// What a stopped wait leaves behind: nothing where there was none. `code` is what stopping it
/// natively told, where no code had come.
pub open spec fn leaves(wait: Option<Wait>, code: u32) -> Cleanup {
    match wait {
        None => Cleanup::Nothing,
        Some(w) => left_behind(
            w.kind,
            match stops(w).code {
                Some(came) => came,
                None => code,
            },
        ),
    }
}

/// What the streams remember of what was left behind.
pub open spec fn kept(left: Cleanup, result: Result<(), Error>, s: StreamState) -> StreamState {
    match left {
        Cleanup::Closed => StreamState { read_closed: true, ..s },
        Cleanup::KeepReadResult => StreamState { read_result: Some(result), ..s },
        Cleanup::KeepWriteResult => StreamState { write_result: Some(result), ..s },
        _ => s,
    }
}

/// Cancel an operation whose wait was stopped natively. `code` is what stopping it told, and
/// `result` what the host had left for it by then; `s` are the streams of its resource. Tells
/// what to drop.
pub fn cancel(
    engine: &mut Engine,
    waits: &mut Vec<Option<Wait>>,
    op: OpId,
    code: u32,
    result: Result<(), Error>,
    s: &mut StreamState,
) -> (left: Result<Cleanup, Error>)
    requires
        old(engine).wf(),
        old(engine)@.phase == Phase::Idle,
        old(waits)@.len() == old(engine)@.ops.len(),
    ensures
        final(engine).wf(),
        final(engine).rules() == old(engine).rules(),
        if !old(engine)@.holds(op) {
            &&& left == Err::<Cleanup, Error>(Error::plain(ErrorKind::NotFound))
            &&& final(engine)@ == old(engine)@
            &&& final(waits)@ == old(waits)@
            &&& *final(s) == *old(s)
        } else if old(engine)@.ops[op.spec_index()]->0.cancelled {
            &&& left == Ok::<Cleanup, Error>(Cleanup::Nothing)
            &&& final(engine)@ == old(engine)@
            &&& final(waits)@ == old(waits)@
            &&& *final(s) == *old(s)
        } else {
            let gone = leaves(old(waits)@[op.spec_index()], code);
            &&& left == Ok::<Cleanup, Error>(gone)
            &&& final(engine)@ == old(engine)@.withdrawn(op, old(engine).rules())
            &&& final(waits)@ == old(waits)@.update(op.spec_index(), None)
            &&& *final(s) == kept(gone, result, *old(s))
        },
{
    let fresh = engine.runs(op);
    if let Err(e) = engine.cancel(op) {
        return Err(e);
    }
    if !fresh {
        return Ok(Cleanup::Nothing);
    }
    let i: usize = op.index();
    let left = match waits[i] {
        None => Cleanup::Nothing,
        Some(wait) => match quiesce(wait).code {
            Some(came) => cleanup(wait.kind, came),
            None => cleanup(wait.kind, code),
        },
    };
    waits.set(i, None);
    match left {
        Cleanup::Closed => {
            s.read_closed = true;
        },
        Cleanup::KeepReadResult => {
            s.read_result = Some(result);
        },
        Cleanup::KeepWriteResult => {
            s.write_result = Some(result);
        },
        _ => {},
    }
    Ok(left)
}

/// Only an operation that is neither done nor cancelled waits for the host.
pub open spec fn quiet(m: Model, waits: Seq<Option<Wait>>) -> bool {
    &&& waits.len() == m.ops.len()
    &&& forall|i: int| 0 <= i < m.ops.len() ==> #[trigger] quiet_at(m, waits, i)
}

pub open spec fn quiet_at(m: Model, waits: Seq<Option<Wait>>, i: int) -> bool {
    match m.ops[i] {
        None => waits[i] is None,
        Some(p) => p.cancelled ==> waits[i] is None,
    }
}

/// One thing that is done to an asynchronous backend.
pub enum Action<D> {
    /// Anything that is done to the engine alone.
    Plain(trace::Action<D>),
    Cancel(OpId),
    /// The running operation is tried. `made` is the wait of the call that it makes, if it
    /// makes one and has to wait.
    Attempt {
        result: Result<(), Error>,
        connect: bool,
        ack: Ack<D>,
        s: StreamState,
        made: Option<Wait>,
    },
    /// A code came for the wait in this slot.
    Complete { slot: int, code: u32 },
}

/// What an attempt finds, and what it comes to.
pub open spec fn attempted<D>(
    p: Pending,
    wait: Option<Wait>,
    result: Result<(), Error>,
    connect: bool,
    ack: Ack<D>,
    s: StreamState,
    made: Option<Wait>,
) -> (Option<Wait>, Reply<D>) {
    let (rest, finish) = finished(wait);
    let run = executed(p.request.operation, finish, result, p.offset, connect, ack, s);
    let after = if run.2 is Call {
        made
    } else {
        rest
    };
    (
        after,
        Reply::Driven {
            offset: run.1,
            attempt: told(run.2, after is Some && after->0.code is None),
        },
    )
}

/// The action is taken, not refused.
pub open spec fn allowed<D>(m: Model, waits: Seq<Option<Wait>>, action: Action<D>) -> bool {
    match action {
        Action::Plain(plain) => !(plain is Cancel) && !(plain is Settle) && trace::allowed(
            m,
            plain,
            Rules::Async,
        ),
        Action::Cancel(op) => trace::allowed(m, trace::Action::<D>::Cancel(op), Rules::Async),
        Action::Attempt { result, connect, ack, s, made } => {
            &&& m.phase is Running
            &&& ({
                let p = m.ops[m.phase->slot as int]->0;
                let wait = waits[m.phase->slot as int];
                let (_, finish) = finished(wait);
                &&& attemptable(p.request.operation, finish, result, p.offset, ack, s)
                &&& trace::allowed(
                    m,
                    trace::Action::Settle(attempted(p, wait, result, connect, ack, s, made).1),
                    Rules::Async,
                )
            })
        },
        Action::Complete { slot, .. } => 0 <= slot < waits.len() && waits[slot] is Some,
    }
}

/// The engine, the waits and the completions after an action.
pub open spec fn applied<D>(m: Model, waits: Seq<Option<Wait>>, action: Action<D>) -> (
    Model,
    Seq<Option<Wait>>,
    Seq<Event<D>>,
) {
    match action {
        Action::Plain(plain) => {
            let (n, events) = trace::applied(m, plain, Rules::Async);
            (n, waits, events)
        },
        Action::Cancel(op) => (
            m.withdrawn(op, Rules::Async),
            waits.update(op.spec_index(), None),
            Seq::empty(),
        ),
        Action::Attempt { result, connect, ack, s, made } => {
            let slot = m.phase->slot as int;
            let (after, reply) = attempted(
                m.ops[slot]->0,
                waits[slot],
                result,
                connect,
                ack,
                s,
                made,
            );
            let (n, events) = trace::applied(m, trace::Action::Settle(reply), Rules::Async);
            (n, waits.update(slot, after), events)
        },
        Action::Complete { slot, code } => (
            m,
            waits.update(slot, Some(Wait { code: Some(code), ..waits[slot]->0 })),
            Seq::empty(),
        ),
    }
}

/// A terminal completion says that the host touches the memory of its operation no more: when
/// it comes, the operation waits for nothing. Whatever is done, no operation that ended, or is
/// cancelled, waits for the host.
pub proof fn law_terminal_completion_is_quiet<D>(
    m: Model,
    waits: Seq<Option<Wait>>,
    action: Action<D>,
    op: OpId,
)
    requires
        m.valid(),
        m.ops.len() <= usize::MAX,
        quiet(m, waits),
        allowed(m, waits, action),
    ensures
        applied(m, waits, action).0.valid(),
        quiet(applied(m, waits, action).0, applied(m, waits, action).1),
        forall|k: int|
            0 <= k < applied(m, waits, action).2.len() && (#[trigger] applied(
                m,
                waits,
                action,
            ).2[k]).terminal ==> {
                let e = applied(m, waits, action).2[k];
                &&& e.op.spec_index() < waits.len()
                &&& applied(m, waits, action).1[e.op.spec_index()] is None
            },
{
    let (n, after, events) = applied(m, waits, action);
    match action {
        Action::Plain(plain) => {
            trace::law_action_ends_a_request_once(m, plain, Rules::Async, op);
            if plain is Acknowledge {
                assert(m.owed_ok(0));
                assert(quiet_at(m, waits, m.cancelled[0].spec_index()));
            }
            assert forall|i: int| 0 <= i < n.ops.len() implies #[trigger] quiet_at(n, after, i) by {
                assert(quiet_at(m, waits, i));
            }
        },
        Action::Cancel(o) => {
            trace::law_action_ends_a_request_once(
                m,
                trace::Action::<D>::Cancel(o),
                Rules::Async,
                op,
            );
            assert forall|i: int| 0 <= i < n.ops.len() implies #[trigger] quiet_at(n, after, i) by {
                assert(quiet_at(m, waits, i));
            }
        },
        Action::Attempt { result, connect, ack, s, made } => {
            let slot = m.phase->slot as int;
            let (rest, reply) = attempted(m.ops[slot]->0, waits[slot], result, connect, ack, s, made);
            trace::law_action_ends_a_request_once(
                m,
                trace::Action::Settle(reply),
                Rules::Async,
                op,
            );
            assert(m.entry_ok(
                crate::lanes::lane_of(m.phase->Running_handle, m.phase->Running_direction),
                0,
            ));
            assert(m.op_ok(slot));
            assert forall|i: int| 0 <= i < n.ops.len() implies #[trigger] quiet_at(n, after, i) by {
                assert(quiet_at(m, waits, i));
            }
        },
        Action::Complete { slot, code } => {
            assert forall|i: int| 0 <= i < n.ops.len() implies #[trigger] quiet_at(n, after, i) by {
                assert(quiet_at(m, waits, i));
            }
        },
    }
}

} // verus!
