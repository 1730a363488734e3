use turnloop::payload::Segment;
use turnloop::readiness::engine::{accepts, is_foreign, Engine, Step};
use turnloop::readiness::io::{
    conclude, interruption, plan, stream_step, Call, Kind, Pending, Reply, Resource, Rules,
    StreamStep,
};
use turnloop::types::{
    invalid, unsupported, Completions, Direction, Endpoint, Error, ErrorKind, Event, Handle,
    Lease, OpId, Operation, Outcome, ReadBuf, Request,
};

const NATIVE: Rules = Rules::Native { interrupted: 4, in_progress: 115 };

fn handle(slot: u64, generation: u64) -> Handle {
    Handle { owner: 1, key: (generation << 32) | slot }
}

fn op(slot: u64, generation: u64) -> OpId {
    OpId { owner: 1, key: (generation << 32) | slot }
}

fn would_block() -> Error {
    Error { kind: ErrorKind::WouldBlock, os: Some(11) }
}

fn request(o: OpId, h: Handle, operation: Operation) -> Request {
    Request { op: o, handle: h, operation }
}

/// One pass over what is ready; the host answers each call.
fn pass(engine: &mut Engine, mut host: impl FnMut(Call) -> Reply<u32>) -> Vec<Event<u32>> {
    let mut events = vec![];
    let mut budget = 64;
    loop {
        match engine.advance(&mut budget, true) {
            Step::Done => return events,
            Step::Again => {}
            Step::Execute { .. } => {
                let call = engine.running_call().expect("an operation runs");
                if let Some(event) = engine.settle(host(call)) {
                    events.push(event);
                }
            }
        }
    }
}

fn endpoints() -> [Endpoint; 2] {
    [
        Endpoint::V4 { ip: [127, 0, 0, 1], port: 4000 },
        Endpoint::V6 { segments: [0, 0, 0, 0, 0, 0, 0, 1], port: 4000, flow: 0, scope: 0 },
    ]
}

#[test]
fn cancelled_udp_with_cached_events_survives_exact_fd_and_port_reuse() {
    let mut received = 0;
    for from in endpoints() {
        let mut backend = Engine::new(64, 32, NATIVE);
        let old = handle(0, 1);
        let next = handle(0, 2);
        let old_op = op(0, 1);
        let next_op = op(0, 2);
        backend.install(old, Kind::Udp, false).expect("old socket");
        let receive = || Operation::RecvFrom(ReadBuf::Pooled);
        assert!(backend.submit(request(old_op, old, receive())).expect("old receive").is_none());
        assert!(pass(&mut backend, |_| Reply::Failed(would_block())).is_empty());
        backend.cancel(old_op).expect("cancel old receive");
        let mut events: Completions<u32> = Completions::with_capacity(1);
        backend.drain_cancelled(&mut events);
        let acknowledged = events.take();
        assert_eq!(acknowledged.len(), 1);
        assert_eq!(acknowledged[0].op, old_op);
        assert!(acknowledged[0].terminal);
        assert!(matches!(acknowledged[0].result, Ok(Outcome::Cancelled)));
        backend.detach(old).expect("detach quiescent socket");
        backend.install(next, Kind::Udp, false).expect("attach next generation");
        assert_eq!(backend.get(next).expect("new resource").handle, next);
        assert_eq!(old.index(), next.index());
        assert_ne!(old.key(), next.key());
        backend.submit(request(next_op, next, receive())).expect("next receive");
        assert_eq!(old_op.index(), next_op.index());
        assert_eq!(
            backend.cancel(old_op).expect_err("stale cancellation").kind,
            ErrorKind::NotFound
        );
        backend.release(old);
        assert!(
            pass(&mut backend, |_| Reply::Failed(would_block())).is_empty(),
            "nothing has come for the new socket"
        );
        backend.mark_ready(old.key(), true, false);
        assert!(!backend.has_work(), "old event batch crossed generations");
        backend.mark_ready(next.key(), true, false);
        let lease = Some(Lease { id: 7 });
        let mut delivered =
            pass(&mut backend, |_| Reply::Datagram { n: 3, from: Ok(from), lease });
        assert_eq!(delivered.len(), 1);
        let event = delivered.pop().expect("one completion");
        assert_eq!(event.op, next_op);
        assert!(event.terminal);
        match event.result {
            Ok(Outcome::RecvFrom { n, from: actual, lease: Some(found) }) => {
                assert_eq!(actual, from);
                assert_eq!(n, 3);
                assert_eq!(found, Lease { id: 7 });
            }
            other => panic!("unexpected reused-socket result: {other:?}"),
        }
        assert!(pass(&mut backend, |_| unreachable!("no duplicates")).is_empty());
        received += 1;
    }
    assert_eq!(received, 2, "IPv4 and IPv6 fd/port reuse delivered new packets");
}

#[test]
fn written_bytes_are_reported_whole() {
    let mut engine = Engine::new(2, 2, NATIVE);
    let h = handle(1, 1);
    engine.install(h, Kind::Tcp, false).expect("install");
    engine
        .submit(request(op(0, 1), h, Operation::Writev(vec![3, 4])))
        .expect("write");
    let mut calls = vec![];
    let mut counts = vec![2, 5].into_iter();
    let mut events = vec![];
    while engine.has_work() {
        events.extend(pass(&mut engine, |call| {
            if let Call::Writev { segments, plain } = call {
                assert!(!plain);
                calls.push(segments);
            }
            Reply::Count(counts.next().expect("two calls"))
        }));
    }
    assert_eq!(
        calls,
        vec![
            vec![Segment { index: 0, skip: 0, len: 3 }, Segment { index: 1, skip: 0, len: 4 }],
            vec![Segment { index: 0, skip: 2, len: 1 }, Segment { index: 1, skip: 0, len: 4 }],
        ]
    );
    assert_eq!(events.len(), 1);
    assert!(matches!(events[0].result, Ok(Outcome::Wrote(7))));
}

#[test]
fn writes_that_move_nothing_are_broken() {
    let mut engine = Engine::new(1, 1, NATIVE);
    let h = handle(0, 1);
    engine.install(h, Kind::Tcp, false).expect("install");
    engine.submit(request(op(0, 1), h, Operation::Write(4))).expect("write");
    let events = pass(&mut engine, |_| Reply::Count(0));
    assert_eq!(
        events[0].result.as_ref().err().map(|e| e.kind),
        Some(ErrorKind::BrokenPipe)
    );
}

#[test]
fn operations_of_one_direction_keep_their_order() {
    let mut engine = Engine::new(1, 3, NATIVE);
    let h = handle(0, 1);
    engine.install(h, Kind::Tcp, false).expect("install");
    for slot in [2, 0, 1] {
        engine
            .submit(request(
                op(slot, 1),
                h,
                Operation::Read { buf: ReadBuf::Provided(8), multishot: false },
            ))
            .expect("read");
    }
    assert_eq!(engine.interests(), vec![(h, Direction::In)]);
    let mut order = vec![];
    while engine.has_work() {
        for event in pass(&mut engine, |_| Reply::Bytes { n: 1, lease: None }) {
            order.push(event.op);
        }
    }
    assert_eq!(order, vec![op(2, 1), op(0, 1), op(1, 1)]);
}

#[test]
fn multishot_reads_stay_until_the_end() {
    let mut engine = Engine::new(1, 1, NATIVE);
    let h = handle(0, 1);
    engine.install(h, Kind::Tcp, false).expect("install");
    engine
        .submit(request(op(0, 1), h, Operation::Read { buf: ReadBuf::Pooled, multishot: true }))
        .expect("read");
    let first = pass(&mut engine, |_| Reply::Bytes { n: 5, lease: Some(Lease { id: 1 }) });
    assert!(!first[0].terminal);
    let mut all = vec![];
    let mut sizes = vec![4, 0].into_iter();
    while engine.has_work() && all.len() < 2 {
        all.extend(pass(&mut engine, |_| match sizes.next() {
            Some(n) => Reply::Bytes { n, lease: None },
            None => Reply::Failed(would_block()),
        }));
    }
    let last = all.pop().expect("end of stream");
    assert!(last.terminal);
    assert!(matches!(last.result, Ok(Outcome::Eof)));
}

#[test]
fn exhausted_pool_keeps_the_read_queued() {
    let mut engine = Engine::new(1, 1, NATIVE);
    let h = handle(0, 1);
    engine.install(h, Kind::Tcp, false).expect("install");
    engine
        .submit(request(op(0, 1), h, Operation::Read { buf: ReadBuf::Pooled, multishot: false }))
        .expect("read");
    let mut budget = 1;
    assert_eq!(engine.advance(&mut budget, true), Step::Again);
    assert!(matches!(engine.advance(&mut budget, true), Step::Execute { .. }));
    assert!(engine.settle(Reply::<u32>::NoBuffer).is_none());
    while engine.advance(&mut budget, true) != Step::Done {}
    assert!(engine.has_work());
}

#[test]
fn interrupted_calls_are_tried_again() {
    let error = Error { kind: ErrorKind::Interrupted, os: Some(4) };
    assert!(interruption(&error, NATIVE));
    assert!(!interruption(&error, Rules::Component));
    let mut engine = Engine::new(1, 1, NATIVE);
    let h = handle(0, 1);
    engine.install(h, Kind::Tcp, false).expect("install");
    engine.submit(request(op(0, 1), h, Operation::Write(1))).expect("write");
    let mut tries = 0;
    let mut events = vec![];
    while engine.has_work() {
        events.extend(pass(&mut engine, |_| {
            tries += 1;
            if tries == 1 {
                Reply::Failed(error)
            } else {
                Reply::Count(1)
            }
        }));
    }
    assert_eq!(tries, 2);
    assert!(matches!(events[0].result, Ok(Outcome::Wrote(1))));
}

#[test]
fn connections_in_progress_wait_for_their_status() {
    let mut engine = Engine::new(1, 1, NATIVE);
    let h = handle(0, 1);
    engine.install(h, Kind::Tcp, true).expect("install");
    engine.submit(request(op(0, 1), h, Operation::Connect)).expect("connect");
    let started = pass(&mut engine, |call| {
        assert!(matches!(call, Call::Connect));
        Reply::Failed(Error { kind: ErrorKind::Other, os: Some(115) })
    });
    assert!(started.is_empty());
    assert!(!engine.has_work());
    engine.mark_ready(h.key(), false, true);
    let done = pass(&mut engine, |call| {
        assert!(matches!(call, Call::SocketStatus));
        Reply::Status { code: 0, error: Error::new(ErrorKind::Other) }
    });
    assert!(matches!(done[0].result, Ok(Outcome::Connected)));
    assert!(!engine.get(h).expect("resource").connect);
}

#[test]
fn refused_connections_report_their_error() {
    let mut engine = Engine::new(1, 1, NATIVE);
    let h = handle(0, 1);
    engine.install(h, Kind::Tcp, true).expect("install");
    engine.submit(request(op(0, 1), h, Operation::Connect)).expect("connect");
    pass(&mut engine, |_| Reply::Failed(Error { kind: ErrorKind::Other, os: Some(115) }));
    engine.mark_ready(h.key(), false, true);
    let refused = Error { kind: ErrorKind::ConnectionRefused, os: Some(111) };
    let done = pass(&mut engine, |_| Reply::Status { code: 111, error: refused });
    assert_eq!(done[0].result.as_ref().err(), Some(&refused));
    assert!(done[0].terminal);
}

#[test]
fn refused_requests_change_nothing() {
    let mut engine = Engine::new(2, 2, NATIVE);
    let h = handle(0, 1);
    engine.install(h, Kind::Tcp, false).expect("install");
    assert_eq!(engine.install(handle(0, 2), Kind::Tcp, false), Err(invalid()));
    assert_eq!(engine.install(handle(9, 1), Kind::Tcp, false), Err(invalid()));
    let read = |len| Operation::Read { buf: ReadBuf::Provided(len), multishot: false };
    let kind = |done: Result<Option<Request>, Error>| done.expect_err("refused").kind;
    assert_eq!(
        kind(engine.submit(request(op(0, 1), handle(0, 2), read(4)))),
        ErrorKind::NotFound
    );
    assert_eq!(kind(engine.submit(request(op(0, 1), h, read(0)))), ErrorKind::InvalidInput);
    assert_eq!(kind(engine.submit(request(op(7, 1), h, read(4)))), ErrorKind::InvalidInput);
    assert_eq!(
        kind(engine.submit(request(op(0, 1), h, Operation::Accept { multishot: false }))),
        ErrorKind::InvalidInput
    );
    engine.submit(request(op(0, 1), h, read(4))).expect("accepted");
    assert_eq!(kind(engine.submit(request(op(0, 2), h, read(4)))), ErrorKind::InvalidInput);
    assert_eq!(engine.detach(h), Err(Error::new(ErrorKind::WouldBlock)));
    assert_eq!(engine.detach(handle(1, 1)), Err(Error::new(ErrorKind::NotFound)));
}

#[test]
fn files_go_back_to_their_worker() {
    let mut engine = Engine::new(1, 1, NATIVE);
    let h = handle(0, 1);
    engine.install(h, Kind::File, false).expect("install");
    let back = engine.submit(request(op(0, 1), h, Operation::Write(4))).expect("passed on");
    assert_eq!(back.expect("the request").op, op(0, 1));
    assert_eq!(
        engine.submit(request(op(0, 1), h, Operation::Shutdown)).expect_err("no half close"),
        unsupported()
    );
}

#[test]
fn cancelling_twice_is_acknowledged_once() {
    let mut engine = Engine::new(1, 2, NATIVE);
    let h = handle(0, 1);
    engine.install(h, Kind::Tcp, false).expect("install");
    engine.submit(request(op(0, 1), h, Operation::Write(4))).expect("write");
    engine.submit(request(op(1, 1), h, Operation::Write(5))).expect("write");
    engine.cancel(op(0, 1)).expect("cancel");
    engine.cancel(op(0, 1)).expect("already cancelled");
    assert!(engine.has_work());
    let mut full: Completions<u32> = Completions::with_capacity(0);
    engine.drain_cancelled(&mut full);
    assert_eq!(full.len(), 0);
    let mut events: Completions<u32> = Completions::with_capacity(4);
    engine.drain_cancelled(&mut events);
    assert_eq!(events.len(), 1);
    assert_eq!(engine.cancel(op(0, 1)).expect_err("ended").kind, ErrorKind::NotFound);
}

#[test]
fn budget_and_room_bound_a_pass() {
    let mut engine = Engine::new(2, 2, NATIVE);
    for slot in [0, 1] {
        engine.install(handle(slot, 1), Kind::Tcp, false).expect("install");
        engine
            .submit(request(op(slot, 1), handle(slot, 1), Operation::Write(1)))
            .expect("write");
    }
    let mut none = 0;
    assert_eq!(engine.advance(&mut none, true), Step::Done);
    let mut budget = 1;
    assert_eq!(engine.advance(&mut budget, false), Step::Done);
    assert_eq!(engine.advance(&mut budget, true), Step::Again);
    assert_eq!(budget, 0);
}

#[test]
fn handles_are_sent_over_local_connections_only() {
    assert!(accepts(NATIVE, Kind::Pipe, false, &Operation::RecvHandle));
    assert!(!accepts(NATIVE, Kind::Tcp, false, &Operation::RecvHandle));
    assert!(!is_foreign(NATIVE, &Operation::WatchSignal));
    assert!(is_foreign(Rules::Component, &Operation::WatchSignal));
    let mut engine = Engine::new(2, 1, NATIVE);
    engine.install(handle(0, 1), Kind::Pipe, false).expect("pipe");
    engine.install(handle(1, 1), Kind::Stream, false).expect("stream");
    let send = |from| Operation::SendHandle(from);
    assert_eq!(
        engine.submit(request(op(0, 1), handle(0, 1), send(handle(1, 1)))).expect_err("stream"),
        unsupported()
    );
    assert_eq!(
        engine
            .submit(request(op(0, 1), handle(0, 1), send(handle(1, 2))))
            .expect_err("stale")
            .kind,
        ErrorKind::NotFound
    );
}

#[test]
fn stream_steps_write_then_flush() {
    let part = Some(Segment { index: 0, skip: 0, len: 10 });
    assert_eq!(stream_step(part, 10, false, 0), StreamStep::Blocked);
    assert_eq!(stream_step(part, 10, false, 4), StreamStep::Write { n: 4, flush: false });
    assert_eq!(stream_step(part, 10, false, 40), StreamStep::Write { n: 10, flush: true });
    assert_eq!(stream_step(part, 12, false, 40), StreamStep::Write { n: 10, flush: false });
    assert_eq!(stream_step(None, 0, true, 1), StreamStep::Flushed);
    assert_eq!(stream_step(None, 0, false, 1), StreamStep::Write { n: 0, flush: true });
}

#[test]
fn component_writes_end_after_the_flush() {
    let mut engine = Engine::new(1, 1, Rules::Component);
    let h = handle(0, 1);
    engine.install(h, Kind::Tcp, false).expect("install");
    engine.submit(request(op(0, 1), h, Operation::Write(6))).expect("write");
    let mut calls = vec![];
    let events = pass(&mut engine, |call| {
        match call {
            Call::Stream { first, left, flushing } => calls.push((first, left, flushing)),
            other => panic!("unexpected {other:?}"),
        }
        Reply::Streamed { permitted: 100, wrote: Ok(()), flushed: Ok(()) }
    });
    assert_eq!(
        calls,
        vec![(Some(Segment { index: 0, skip: 0, len: 6 }), 6, false), (None, 0, true)]
    );
    assert_eq!(events.len(), 1);
    assert!(matches!(events[0].result, Ok(Outcome::Wrote(6))));
}

#[test]
fn replies_are_concluded_from_the_operation() {
    let h = handle(0, 1);
    let mut r = Resource {
        handle: h,
        kind: Kind::Listener,
        connect: false,
        connecting: false,
        ready_in: true,
        ready_out: true,
        queued: false,
    };
    let mut p = Pending {
        request: request(op(0, 1), h, Operation::Accept { multishot: true }),
        offset: 0,
        flushing: false,
        cancelled: false,
    };
    assert!(matches!(plan(&r, &p, NATIVE), Call::Accept));
    assert!(matches!(plan(&r, &p, Rules::Async), Call::Drive));
    let peer = endpoints()[0];
    let attempt = conclude(&mut r, &mut p, Reply::Accepted { transport: 9u32, peer }, NATIVE);
    match attempt {
        Ok(Some((Outcome::Accepted { transport, peer: found }, terminal))) => {
            assert_eq!(transport, 9);
            assert_eq!(found, peer);
            assert!(!terminal);
        }
        other => panic!("unexpected {other:?}"),
    }
    assert!(r.ready(Direction::In));
}
