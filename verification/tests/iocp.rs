use turnloop::iocp::attach::{
    accepted_pipe, attach, needs_association, Association,
};
use turnloop::iocp::block::{environment, environment_block, widen};
use turnloop::iocp::child::{asks_exit_code, close_end, Child, Close, Dropping, Probe};
use turnloop::iocp::command::{command_line, quote, wide};
use turnloop::iocp::console::{ConsoleBytes, Input, Read};
use turnloop::iocp::engine::{slot_of, Arrived, Entry, Iocp, Step};
use turnloop::iocp::environment::{block, Environment};
use turnloop::iocp::integration::{EventIntegration, Packet, Pump};
use turnloop::iocp::io::{native_len, Call, Kind, Reply, Resource, FRAME, MAGIC};
use turnloop::iocp::open;
use turnloop::iocp::pipes;
use turnloop::iocp::pipes::{Listener, Slot};
use turnloop::iocp::process;
use turnloop::iocp::process::{Direction, FileType, Inherited, Spec};
use turnloop::iocp::services::{Service, Services, Step as ServiceStep};
use turnloop::iocp::signals;
use turnloop::iocp::signals::{Handled, Table};
use turnloop::iocp::socket;
use turnloop::iocp::socket::{Bridge, HandleFacts};
use turnloop::iocp::spawn;
use turnloop::iocp::timer::{
    nt_result, rearm, relative_due, PacketTimer, Rearm, STATUS_CANCELLED, STATUS_PENDING,
};
use turnloop::iocp::watch;
use turnloop::iocp::watch::Stored;
use turnloop::iocp::watches::{Cancel, Completed, Watches};
use turnloop::iocp::worker::{retry, Claim, Enter, Job, Retry, Side, State};
use turnloop::open::{ListenOpts, Open, ReusePort, TtyMode, WindowSize};
use turnloop::options::AcceptDefaults;
use turnloop::payload::Segment;
use turnloop::turn::Keys;
use turnloop::types::{
    invalid, unsupported, ChildFd, ChildFdSource, Endpoint, Error, ErrorKind, Event, ExitStatus,
    Handle, Lease, OpId, Operation, Outcome, ProcessStdio, ReadBuf, Request, Signal, Span,
};
use turnloop::unix::inotify::WatchKind;
use turnloop::unix::watch::{Found, Served};

const ACCESS_DENIED: i32 = 5;
const INVALID_HANDLE: i32 = 6;

fn handle(slot: u64, generation: u64) -> Handle {
    Handle { owner: 1, key: (generation << 32) | slot }
}

fn op(slot: u64, generation: u64) -> OpId {
    OpId { owner: 1, key: (generation << 32) | slot }
}

fn coded(kind: ErrorKind, code: i32) -> Error {
    Error { kind, os: Some(code) }
}

fn pending() -> Error {
    coded(ErrorKind::Other, 997)
}

fn text(s: &str) -> Vec<u16> {
    s.encode_utf16().collect()
}

fn resource(h: Handle, kind: Kind) -> Resource {
    Resource {
        handle: h,
        kind,
        association: Association::Fresh,
        routed: false,
        skip: false,
        connect: false,
    }
}

fn submitted(success: bool, bytes: u32, lease: Option<Lease>) -> Reply<u32> {
    Reply::Submitted { success, bytes, error: pending(), wait: Ok(()), lease }
}

/// One pass over what is ready; the host answers each call.
fn pass(engine: &mut Iocp, mut host: impl FnMut(Call) -> Reply<u32>) -> Vec<Event<u32>> {
    let mut events = vec![];
    let mut budget = engine.budget();
    loop {
        match engine.advance::<u32>(&mut budget, true) {
            Step::Done => return events,
            Step::Again => {}
            Step::Report(event) => events.push(event),
            Step::Execute(_) => {
                let call = engine.running_call().expect("an operation runs");
                events.extend(engine.settle(host(call)));
            }
        }
    }
}

fn idle() -> Probe {
    Probe { code: Ok(259), exited: false }
}

/// What the system was asked: process and job terminations, and exit codes.
#[derive(Default)]
struct Calls {
    terminations: [usize; 2],
    queries: usize,
}

/// A kill as the host performs it.
fn kill(
    child: &mut Child,
    group: bool,
    calls: &mut Calls,
    result: Result<(), Error>,
    query: impl FnOnce() -> Probe,
) -> Result<(), Error> {
    child.kill_start(Signal::Kill, group)?;
    calls.terminations[usize::from(group)] += 1;
    let probe = if asks_exit_code(&result) {
        calls.queries += 1;
        Some(query())
    } else {
        None
    };
    child.kill_end(result, probe)
}

fn close(
    child: &mut Child,
    calls: &mut Calls,
    result: Result<(), Error>,
    query: impl FnOnce() -> Probe,
) -> Result<(), Error> {
    match child.close_start(false) {
        Close::Done | Close::Status => Ok(()),
        Close::Kill { group } => close_end(kill(child, group, calls, result, query)),
    }
}

/// A drop as the host performs it.
fn drop_child(child: &mut Child, calls: &mut Calls, mut terminate: impl FnMut(bool) -> Result<(), Error>) {
    let mut next = child.drop_start(false);
    loop {
        match next {
            Dropping::Done => return,
            Dropping::Status | Dropping::Wait => {}
            Dropping::Kill { group } => {
                let _ = kill(child, group, calls, terminate(group), idle);
            }
        }
        next = child.drop_next(next);
    }
}

fn assert_unsignaled(child: &mut Child) {
    assert!(!child.is_ready(), "termination request must not publish exit");
    assert_eq!(child.status(Ok(1), Ok(())), Ok(None));
}

#[test]
fn terminating_process_without_callback_does_not_repeat_kill_or_complete_early() {
    let mut checked = 0;
    for group in [false, true] {
        for access_denied in [false, true] {
            let mut child = Child::new(group);
            assert_unsignaled(&mut child);
            let mut calls = Calls::default();
            let denied = coded(ErrorKind::PermissionDenied, ACCESS_DENIED);
            let outcome = if access_denied { Err(denied) } else { Ok(()) };
            let exiting = || Probe { code: Ok(1), exited: false };
            let result = kill(&mut child, group, &mut calls, outcome, exiting);
            if access_denied {
                assert_eq!(result.expect_err("termination underway").kind, ErrorKind::NotFound);
            } else {
                result.expect("termination accepted");
            }
            assert!(child.terminating);
            assert_unsignaled(&mut child);
            for repeat_group in [false, true] {
                assert_eq!(
                    kill(&mut child, repeat_group, &mut calls, Ok(()), idle)
                        .expect_err("repeat kill")
                        .kind,
                    ErrorKind::NotFound
                );
            }
            close(&mut child, &mut calls, Ok(()), idle).expect("close while terminating");
            close(&mut child, &mut calls, Ok(()), idle)
                .expect("repeat close while terminating");
            assert_unsignaled(&mut child);
            assert_eq!(calls.terminations, if group { [0, 1] } else { [1, 0] });
            assert_eq!(calls.queries, usize::from(access_denied));
            checked += 1;
        }
    }
    assert_eq!(checked, 4);
}

#[test]
fn termination_errors_keep_their_identity_and_allow_retry() {
    let mut checked = 0;
    for group in [false, true] {
        for query_fails in [false, true] {
            let mut child = Child::new(group);
            let mut calls = Calls::default();
            let alive = || {
                if query_fails {
                    Probe { code: Err(coded(ErrorKind::Other, INVALID_HANDLE)), exited: false }
                } else {
                    idle()
                }
            };
            let original = coded(ErrorKind::PermissionDenied, ACCESS_DENIED);
            assert_eq!(kill(&mut child, group, &mut calls, Err(original), alive), Err(original));
            assert_eq!(close(&mut child, &mut calls, Err(original), alive), Err(original));
            assert!(!child.terminating);
            assert_unsignaled(&mut child);
            assert_eq!(calls.terminations, if group { [0, 2] } else { [2, 0] });
            let original = coded(ErrorKind::Other, INVALID_HANDLE);
            let gone = || panic!("query after unrelated error");
            assert_eq!(kill(&mut child, group, &mut calls, Err(original), gone), Err(original));
            assert_eq!(close(&mut child, &mut calls, Err(original), gone), Err(original));
            assert!(!child.terminating);
            assert_unsignaled(&mut child);
            assert_eq!(calls.terminations, if group { [0, 4] } else { [4, 0] });
            checked += 1;
        }
    }
    assert_eq!(checked, 4);
}

#[test]
fn drop_joins_termination_without_repeating_it_and_handles_unassigned_jobs() {
    let mut checked = 0;
    for (group, kill_first, unassigned_job) in [
        (false, false, false),
        (true, false, false),
        (false, true, false),
        (true, true, false),
        (false, false, true),
    ] {
        let mut child = Child::new(group);
        child.job_assigned = group;
        if unassigned_job {
            child.job = true;
            assert!(!child.job_assigned);
        }
        let mut calls = Calls::default();
        if kill_first {
            kill(&mut child, group, &mut calls, Ok(()), idle).expect("initial kill");
        }
        drop_child(&mut child, &mut calls, |_| Ok(()));
        assert!(child.terminating);
        assert_eq!(calls.terminations, if group { [0, 1] } else { [1, 0] });
        checked += 1;
    }
    assert_eq!(checked, 5);
}

#[test]
fn exited_process_without_callback_maps_kill_and_close() {
    for by_close in [false, true] {
        let mut child = Child::new(false);
        assert!(!child.is_ready(), "the exit callback must not have run");
        if by_close {
            assert_eq!(child.close_start(true), Close::Status);
        } else {
            let denied = coded(ErrorKind::PermissionDenied, ACCESS_DENIED);
            let gone = || Probe { code: Ok(1), exited: true };
            let mut calls = Calls::default();
            assert_eq!(
                kill(&mut child, false, &mut calls, Err(denied), gone)
                    .expect_err("already exited")
                    .kind,
                ErrorKind::NotFound
            );
        }
        assert!(child.is_ready(), "termination failure observed the signaled handle");
        assert!(child.needs_code());
        assert_eq!(
            child.status(Ok(0), Ok(())).expect("exit status").expect("exited").code,
            Some(0)
        );
        assert!(!child.needs_code());
    }
}

#[test]
fn kills_need_a_fitting_signal_and_group() {
    let child = Child::new(false);
    assert_eq!(child.kill_start(Signal::Term, false), Err(unsupported()));
    assert_eq!(child.kill_start(Signal::Kill, true), Err(invalid()));
    let mut ended = Child::new(false);
    ended.ready = true;
    let failed = coded(ErrorKind::Other, INVALID_HANDLE);
    assert_eq!(ended.status(Err(failed), Ok(())), Err(failed));
    assert_eq!(
        ended.status(Ok(0xffff_ffff), Ok(())),
        Ok(Some(ExitStatus { code: Some(-1), signal: None }))
    );
    assert_eq!(ended.close_start(false), Close::Done);
    assert_eq!(ended.drop_start(false), Dropping::Done);
}

fn spec() -> Spec {
    Spec {
        uid: false,
        gid: false,
        empty_program: false,
        controlling_terminal: false,
        windows_hide: true,
        detached: false,
        new_process_group: false,
        stdin: ProcessStdio::Null,
        stdout: ProcessStdio::Null,
        stderr: ProcessStdio::Null,
    }
}

#[test]
fn detached_children_skip_lifetime_job_but_keep_explicit_group_kill() {
    let mut checked = 0;
    for detached in [false, true] {
        let process = Spec { detached, ..spec() };
        let (own, lifetime) = process::jobs(&process);
        assert_eq!(lifetime, !detached);
        let plan = spawn::plan(&process, &vec![]);
        assert_eq!(plan.steps.contains(&spawn::Step::JoinLifetime), !detached);
        assert_eq!(plan.steps.contains(&spawn::Step::JoinOwn), own);
        let mut child = Child::new(own);
        child.job_assigned = own;
        assert_unsignaled(&mut child);
        let mut calls = Calls::default();
        if detached {
            assert!(child.job_assigned);
            kill(&mut child, true, &mut calls, Ok(()), idle).expect("detached group kill");
        } else {
            kill(&mut child, false, &mut calls, Ok(()), idle).expect("ordinary child kill");
        }
        checked += 1;
    }
    assert_eq!(checked, 2);
}

#[test]
fn processes_are_created_suspended_and_watched_last() {
    let process = Spec { stdin: ProcessStdio::Pipe, stderr: ProcessStdio::Inherit, ..spec() };
    let extra = vec![
        ChildFd { number: 4, source: ChildFdSource::Duplex },
        ChildFd { number: 3, source: ChildFdSource::Handle(handle(9, 1)) },
    ];
    let flags = process::creation_flags(&process);
    assert_ne!(flags & process::CREATE_SUSPENDED, 0);
    let plan = spawn::plan(&process, &extra);
    assert_eq!(plan.error, None);
    assert_eq!(
        plan.steps,
        vec![
            spawn::Step::Resolve,
            spawn::Step::Pipe { piped: 0, direction: Direction::ParentWrites },
            spawn::Step::Null { stream: 1, read: false },
            spawn::Step::Inherit(2),
            spawn::Step::ExtraPipe { end: 0, way: Direction::Duplex },
            spawn::Step::ExtraShare { extra: 1, from: handle(9, 1) },
            spawn::Step::Attributes,
            spawn::Step::Table,
            spawn::Step::CommandLine,
            spawn::Step::Environment,
            spawn::Step::Directory,
            spawn::Step::LifetimeJob,
            spawn::Step::Create(flags),
            spawn::Step::JoinLifetime,
            spawn::Step::WatchExit,
        ]
    );
    let twice = vec![extra[0], extra[0]];
    let refused = spawn::plan(&process, &twice);
    assert_eq!(refused.error, Some(invalid()));
    assert_eq!(refused.steps.len(), 6);
    let identity = Spec { uid: true, ..spec() };
    assert_eq!(spawn::plan(&identity, &vec![]).error, process::validate(&identity).err());
}

#[test]
fn inherited_descriptors_fill_their_table() {
    let extra = vec![ChildFd { number: 4, source: ChildFdSource::Null }];
    assert_eq!(
        process::layout(&extra),
        Ok(vec![None, None, None, None, Some(0)])
    );
    let low = vec![ChildFd { number: 2, source: ChildFdSource::Null }];
    assert_eq!(process::layout(&low), Err(invalid()));
    assert_eq!(process::crt_flags(FileType::Pipe), process::FOPEN | process::FPIPE);
    assert_eq!(process::crt_flags(FileType::Char), process::FOPEN | process::FDEV);
    assert_eq!(process::crt_flags(FileType::Other), process::FOPEN);
    let block = process::inherited_block(&vec![
        Some(Inherited { kind: FileType::Other, handle: 0x0102 }),
        None,
    ], 8)
    .expect("fits");
    let mut expected = vec![2, 0, 0, 0, 1, 0, 2, 1, 0, 0, 0, 0, 0, 0];
    expected.extend_from_slice(&[0xff; 8]);
    assert_eq!(block, expected);
    assert_eq!(process::inherited_block(&vec![None; 7282], 8), Err(invalid()));
    let narrow = process::inherited_block(
        &vec![Some(Inherited { kind: FileType::Other, handle: 0x0102 }), None],
        4,
    );
    assert_eq!(narrow, Ok(vec![2, 0, 0, 0, 1, 0, 2, 1, 0, 0, 0xff, 0xff, 0xff, 0xff]));
    assert!(process::inherited_block(&vec![None; 7282], 4).is_ok());
    assert_eq!(process::inherited_block(&vec![None; 13107], 4), Err(invalid()));
    assert_eq!(process::stdio_pipe(1), Direction::ParentReads);
    assert_eq!(process::extra_pipe(ChildFdSource::Null), None);
    let denied = coded(ErrorKind::PermissionDenied, ACCESS_DENIED);
    assert_eq!(process::lifetime_joined(Ok(())), Ok(()));
    let other = coded(ErrorKind::Other, INVALID_HANDLE);
    assert_eq!(process::lifetime_joined(Err(other)), Err(other));
    assert_eq!(process::lifetime_joined(Err(denied)), Ok(()));
}

#[test]
fn shutdown_preserves_every_packet_under_full_queue_backpressure() {
    const STOP: usize = 9;
    let packets: Vec<Packet> =
        (0..128).map(|bytes| Packet { key: 17, bytes, overlapped: 0, status: 0 }).collect();
    let mut helper = EventIntegration::new();
    let mut port = packets.chunks(64);
    while helper.pump() == Pump::Take {
        helper.take(&port.next().expect("pump stops at capacity").to_vec(), STOP);
    }
    assert!(port.next().is_none(), "pump filled queue");
    assert_eq!(helper.pump(), Pump::Room);
    helper.shutdown();
    assert_eq!(helper.pump(), Pump::Stop);
    let mut seen = [false; 128];
    let mut count = 0;
    loop {
        let (batch, more) = helper.drain_retained(7);
        if batch.is_empty() {
            assert!(!more);
            break;
        }
        for entry in &batch {
            assert_eq!(entry.key, 17);
            assert!(!seen[entry.bytes as usize]);
            seen[entry.bytes as usize] = true;
            count += 1;
        }
    }
    assert_eq!(count, 128);
    assert!(seen.into_iter().all(|seen| seen));
}

#[test]
fn failed_helpers_keep_their_packets() {
    const STOP: usize = 9;
    let packet = |key| Packet { key, bytes: 1, overlapped: 2, status: 0 };
    let mut helper = EventIntegration::new();
    helper.take(&vec![packet(17), packet(STOP), packet(18)], STOP);
    assert_eq!(helper.pump(), Pump::Stop);
    assert_eq!(helper.check(), Ok(()));
    let error = coded(ErrorKind::Other, INVALID_HANDLE);
    helper.fail(error);
    assert_eq!(helper.check(), Err(error));
    assert_eq!(helper.drain(4), Err(error));
    assert_eq!(helper.drain_retained(4), (vec![packet(17), packet(18)], false));
    let mut healthy = EventIntegration::new();
    healthy.take(&vec![packet(17), packet(18)], STOP);
    assert_eq!(healthy.drain(1), Ok((vec![packet(17)], true)));
}

#[test]
fn close_dispatch_releases_tickets_before_holding_the_control_thread() {
    let mut table = Table::new();
    let hup = table.subscribe(Signal::Hup).expect("Hup");
    let answer = table.handle_control(signals::CTRL_CLOSE_EVENT);
    assert_eq!(answer, Handled { handled: true, hold: true });
    assert!(table.take(hup), "Hup published before hold");
    assert!(!table.take(hup));
    table.unsubscribe(hup);
    assert_eq!(
        table.handle_control(signals::CTRL_CLOSE_EVENT),
        Handled { handled: false, hold: false }
    );
}

#[test]
fn moved_subscription_keeps_its_published_ticket_alive() {
    let mut table = Table::new();
    let first = table.subscribe(Signal::WinCh).expect("first");
    let second = table.subscribe(Signal::WinCh).expect("second");
    let subscriptions = vec![first, second];
    let mut deliveries = 0;
    for _ in 0..100 {
        assert!(table.dispatch(Signal::WinCh));
        for subscription in &subscriptions {
            assert!(table.ready(*subscription));
            assert!(table.take(*subscription));
            assert!(!table.take(*subscription));
            deliveries += 1;
        }
    }
    assert_eq!(deliveries, 200);
    for subscription in subscriptions {
        table.unsubscribe(subscription);
    }
    assert!(!table.dispatch(Signal::WinCh), "removed tickets cannot receive signals");
}

#[test]
fn consoles_deliver_few_signals() {
    let mut table = Table::new();
    assert_eq!(table.subscribe(Signal::Term), Err(unsupported()));
    for _ in 0..signals::SLOTS {
        table.subscribe(Signal::Int).expect("room");
    }
    assert_eq!(
        table.subscribe(Signal::Int),
        Err(Error::new(ErrorKind::ResourceLimit))
    );
    assert_eq!(signals::control_signal(signals::CTRL_C_EVENT), Some(Signal::Int));
    assert_eq!(signals::control_signal(signals::CTRL_BREAK_EVENT), Some(Signal::Break));
    assert_eq!(signals::control_signal(5), None);
    assert_eq!(
        table.handle_control(signals::CTRL_C_EVENT),
        Handled { handled: true, hold: false }
    );
}

#[test]
fn accepted_pipe_uses_no_bridge_until_moved_to_another_port() {
    let own = 1;
    let mut driver = Iocp::new(4, 4);
    let mut server = accepted_pipe(handle(0, 1), own);
    let mut registrations = 0;
    let mut exchanges = 0;
    for reattach in [false, true] {
        assert!(!needs_association(server.kind, server.association));
        driver.install(server, own, Ok(false)).expect("attach on its own port");
        for _ in 0..32 {
            let read = Request {
                op: op(0, 1),
                handle: server.handle,
                operation: Operation::Read { buf: ReadBuf::Pooled, multishot: false },
            };
            driver.submit(read).expect("read");
            let armed = pass(&mut driver, |call| {
                assert!(matches!(call, Call::Recv(ReadBuf::Pooled)));
                registrations += usize::from(driver_routed(&server));
                submitted(false, 0, Some(Lease { id: 3 }))
            });
            assert!(armed.is_empty());
            driver.complete(0, Ok(16)).expect("packet");
            let events = pass(&mut driver, |_| unreachable!("no call is needed"));
            assert_eq!(events.len(), 1);
            assert_eq!(events[0].op, op(0, 1));
            assert!(matches!(
                events[0].result,
                Ok(Outcome::Read { n: 16, lease: Some(Lease { id: 3 }) })
            ));
            exchanges += 1;
        }
        server = driver.detach(server.handle).expect("detach");
        assert!(!server.routed, "reattach {reattach}");
    }
    assert_eq!(exchanges, 64);
    assert_eq!(registrations, 0, "same-port accepted pipe must never register a wait");
    let mut other = Iocp::new(4, 4);
    other.install(server, 2, Ok(false)).expect("migrate");
    let moved = other.get(server.handle).expect("resource");
    assert!(driver_routed(&moved), "foreign-port pending I/O registers a bridge");
    other.install(Resource { handle: handle(1, 1), ..server }, 2, Ok(false)).expect("second");
    let back = other.detach(server.handle).expect("detach");
    driver.install(back, own, Ok(false)).expect("back");
    assert!(!driver.get(back.handle).expect("resource").routed);
}

fn driver_routed(r: &Resource) -> bool {
    r.routed
}

#[test]
fn unassociated_import_uses_direct_iocp_without_a_bridge() {
    let h = handle(0, 1);
    let import = Resource { association: Association::Unknown, ..resource(h, Kind::Tcp) };
    assert!(needs_association(import.kind, import.association));
    let mut driver = Iocp::new(1, 1);
    driver.install(import, 7, Ok(false)).expect("attach");
    assert!(!driver.get(h).expect("resource").routed);
    driver
        .submit(Request {
            op: op(0, 1),
            handle: h,
            operation: Operation::Read { buf: ReadBuf::Pooled, multishot: false },
        })
        .expect("idle read");
    let armed = pass(&mut driver, |call| {
        assert!(matches!(call, Call::IdleRecv));
        submitted(false, 0, None)
    });
    assert!(armed.is_empty());
    driver.complete(0, Ok(0)).expect("peer bytes");
    let lease = Some(Lease { id: 5 });
    let events = pass(&mut driver, |call| {
        assert!(matches!(call, Call::ReadReady));
        Reply::Bytes { n: 6, lease }
    });
    assert_eq!(events.len(), 1);
    assert_eq!(events[0].op, op(0, 1));
    assert!(matches!(
        events[0].result,
        Ok(Outcome::Read { n: 6, lease: Some(Lease { id: 5 }) })
    ));
}

#[test]
fn associated_imports_are_routed() {
    let h = handle(0, 1);
    let taken = coded(ErrorKind::InvalidInput, 87);
    let import = Resource { association: Association::Unknown, ..resource(h, Kind::Tcp) };
    assert!(attach(import, 7, Err(taken)).expect("tolerated").routed);
    assert_eq!(attach(resource(h, Kind::Tcp), 7, Err(taken)), Err(taken));
    let sync = attach(resource(h, Kind::Sync), 7, Err(taken)).expect("no port");
    assert!(!sync.routed);
    let mut driver = Iocp::new(1, 1);
    assert_eq!(driver.install(resource(h, Kind::Tcp), 7, Err(taken)), Err(taken));
    assert!(driver.vacant(h));
    driver.install(import, 7, Err(taken)).expect("routed");
    driver.submit(Request { op: op(0, 1), handle: h, operation: Operation::Write(4) }).expect("w");
    assert!(pass(&mut driver, |_| submitted(true, 4, None)).is_empty());
    let done = pass(&mut driver, |_| unreachable!("a routed success is complete"));
    assert!(matches!(done[0].result, Ok(Outcome::Wrote(4))));
}

#[test]
fn overlapped_writes_are_reported_whole() {
    let h = handle(0, 1);
    let mut engine = Iocp::new(1, 2);
    engine.install(resource(h, Kind::Tcp), 1, Ok(true)).expect("install");
    let write = Operation::Writev(vec![2, 3]);
    engine.submit(Request { op: op(1, 1), handle: h, operation: write }).expect("write");
    let events = pass(&mut engine, |call| {
        match call {
            Call::Send { parts, to } => {
                assert_eq!(to, None);
                assert_eq!(
                    parts,
                    vec![
                        Segment { index: 0, skip: 0, len: 2 },
                        Segment { index: 1, skip: 0, len: 3 }
                    ]
                );
            }
            other => panic!("unexpected {other:?}"),
        }
        submitted(false, 0, None)
    });
    assert!(events.is_empty());
    assert!(!engine.has_work(true));
    engine.complete(1, Ok(4)).expect("packet");
    assert_eq!(engine.complete(0, Ok(4)), Err(invalid()));
    let mut events = vec![];
    while engine.has_work(true) {
        events.extend(pass(&mut engine, |call| {
            assert!(matches!(call, Call::Send { .. }));
            submitted(true, 1, None)
        }));
    }
    assert_eq!(events.len(), 1);
    assert!(matches!(events[0].result, Ok(Outcome::Wrote(5))));
}

#[test]
fn kernel_held_operations_end_with_their_packet() {
    let h = handle(0, 1);
    let mut engine = Iocp::new(1, 1);
    engine.install(resource(h, Kind::Udp), 1, Ok(false)).expect("install");
    let receive = Operation::RecvFrom(ReadBuf::Provided(9));
    engine.submit(Request { op: op(0, 1), handle: h, operation: receive }).expect("receive");
    pass(&mut engine, |_| submitted(false, 0, None));
    assert_eq!(engine.cancel_target(op(0, 1)), Some(0));
    engine.cancel(op(0, 1), Ok(())).expect("cancel");
    assert!(!engine.has_work(true), "the kernel keeps the storage");
    assert_eq!(engine.detach(h), Err(Error::new(ErrorKind::WouldBlock)));
    let aborted = coded(ErrorKind::Cancelled, 995);
    engine.complete(0, Err(aborted)).expect("packet");
    let events = pass(&mut engine, |_| unreachable!("cancelled"));
    assert_eq!(events.len(), 1);
    assert!(events[0].terminal);
    assert!(matches!(events[0].result, Ok(Outcome::Cancelled)));
    assert_eq!(engine.cancel_target(op(0, 1)), None);
    engine.cancel(op(0, 1), Ok(())).expect("an ended operation is let be");
    assert!(!engine.has_work(true));
}

#[test]
fn pool_waits_are_woken_in_order() {
    let mut engine = Iocp::new(2, 2);
    for slot in [0, 1] {
        engine.install(resource(handle(slot, 1), Kind::Udp), 1, Ok(true)).expect("install");
        engine
            .submit(Request {
                op: op(slot, 1),
                handle: handle(slot, 1),
                operation: Operation::RecvFrom(ReadBuf::Pooled),
            })
            .expect("receive");
    }
    assert!(pass(&mut engine, |_| Reply::NoBuffer).is_empty());
    assert!(!engine.has_work(false));
    assert!(engine.has_work(true));
    engine.wake_pool();
    let from = Endpoint::V4 { ip: [10, 0, 0, 1], port: 9 };
    let mut order = vec![];
    while engine.has_work(true) {
        for event in pass(&mut engine, |call| match call {
            Call::Sender => Reply::Sender(Ok(from)),
            _ => submitted(true, 2, Some(Lease { id: 8 })),
        }) {
            assert!(matches!(event.result, Ok(Outcome::RecvFrom { n: 2, .. })));
            order.push(event.op);
        }
    }
    assert_eq!(order, vec![op(0, 1), op(1, 1)]);
}

#[test]
fn sockets_are_passed_in_frames() {
    let h = handle(0, 1);
    let mut engine = Iocp::new(2, 2);
    engine.install(resource(h, Kind::Pipe), 1, Ok(true)).expect("pipe");
    engine.install(resource(handle(1, 1), Kind::Tcp), 1, Ok(true)).expect("socket");
    let request = |o, operation| Request { op: o, handle: h, operation };
    assert_eq!(
        engine.submit(request(op(0, 1), Operation::SendHandle(h))),
        Err(unsupported())
    );
    engine.submit(request(op(0, 1), Operation::SendHandle(handle(1, 1)))).expect("send");
    let mut offsets = vec![];
    let mut events = vec![];
    while engine.has_work(true) {
        events.extend(pass(&mut engine, |call| match call {
            Call::FrameIo { send: true, offset, first } => {
                assert_eq!(first, offset == 0);
                offsets.push(offset);
                let part = if offset == 0 { 600 } else { (FRAME - 600) as u32 };
                submitted(true, part, None)
            }
            other => panic!("unexpected {other:?}"),
        }));
    }
    assert_eq!(offsets, vec![0, 600]);
    assert!(matches!(events[0].result, Ok(Outcome::HandleSent)));
    engine.submit(request(op(1, 1), Operation::RecvHandle)).expect("receive");
    let mut events = vec![];
    while engine.has_work(true) {
        events.extend(pass(&mut engine, |call| match call {
            Call::FrameIo { send: false, .. } => submitted(true, FRAME as u32, None),
            Call::Frame => Reply::Frame { magic: MAGIC, socket: Ok(77) },
            other => panic!("unexpected {other:?}"),
        }));
    }
    assert!(matches!(events[0].result, Ok(Outcome::HandleReceived(77))));
}

#[test]
fn packets_name_kernel_slots() {
    assert_eq!(slot_of(1000, 1000, 24, 4), Ok(0));
    assert_eq!(slot_of(1048, 1000, 24, 4), Ok(2));
    assert_eq!(slot_of(1096, 1000, 24, 4), Err(invalid()));
    assert_eq!(slot_of(1001, 1000, 24, 4), Err(invalid()));
    assert_eq!(slot_of(900, 1000, 24, 4), Err(invalid()));
}

#[test]
fn due_times_are_relative_and_never_early() {
    assert_eq!(relative_due(Span { secs: 0, nanos: 0 }), -1);
    assert_eq!(relative_due(Span { secs: 0, nanos: 100 }), -1);
    assert_eq!(relative_due(Span { secs: 0, nanos: 101 }), -2);
    assert_eq!(relative_due(Span { secs: 1, nanos: 0 }), -10_000_000);
    assert_eq!(relative_due(Span { secs: u64::MAX, nanos: 0 }), -i64::MAX);
    assert_eq!(nt_result(0), Ok(()));
    assert_eq!(nt_result(-1), Err(Error::new(ErrorKind::Other)));
}

#[test]
fn timer_packets_are_reused_after_they_return() {
    let mut timer = PacketTimer::new();
    assert_eq!(timer.arm(), Ok(1));
    assert_eq!(timer.armed(-1), Err(Error::new(ErrorKind::Other)));
    assert_eq!(timer.arm(), Ok(2));
    assert_eq!(timer.armed(0), Ok(()));
    assert_eq!(timer.arm(), Err(Error::new(ErrorKind::WouldBlock)));
    timer.dequeued(1);
    assert!(timer.active);
    assert_eq!(timer.cancel(STATUS_PENDING), Ok(STATUS_PENDING));
    assert!(timer.active);
    timer.dequeued(2);
    assert_eq!(timer.arm(), Ok(3));
    timer.armed(0).expect("armed");
    assert_eq!(timer.cancel(STATUS_CANCELLED), Ok(STATUS_CANCELLED));
    assert!(!timer.active);
    let mut worn = PacketTimer { active: false, generation: usize::MAX };
    assert_eq!(worn.arm(), Err(Error::new(ErrorKind::Other)));
    assert_eq!(rearm(STATUS_PENDING, Some(true)), Rearm::Wait);
    assert_eq!(rearm(0, None), Rearm::Rest);
    assert_eq!(rearm(0, Some(true)), Rearm::Post);
    assert_eq!(rearm(0, Some(false)), Rearm::Arm);
}

#[test]
fn writes_preempt_idle_reads_of_a_pipe() {
    let job = |buffer| Job { buffer, len: 4, slot: buffer };
    let mut state = State::new(true);
    assert_eq!(state.claim(Side::Read), Claim::Wait);
    state.start(Side::Read, job(1));
    assert_eq!(state.claim(Side::Read), Claim::Run(job(1)));
    assert_eq!(state.enter(Side::Read), Enter::Go);
    state.start(Side::Write, job(2));
    assert_eq!(state.claim(Side::Write), Claim::Run(job(2)));
    assert_eq!(state.enter(Side::Write), Enter::Preempt);
    assert!(state.preempting());
    assert!(state.leave(Side::Read, true), "the read is issued again");
    assert!(!state.preempting());
    assert_eq!(state.enter(Side::Read), Enter::Wait);
    assert_eq!(state.enter(Side::Write), Enter::Go);
    assert!(!state.leave(Side::Write, false));
    state.publish(Side::Write, Ok(4));
    assert_eq!(state.finish(Side::Write), Some(Ok(4)));
    assert_eq!(state.finish(Side::Write), None);
    assert_eq!(state.enter(Side::Read), Enter::Go);
    assert!(state.cancel(Side::Read));
    assert!(!state.leave(Side::Read, true));
    assert_eq!(state.enter(Side::Read), Enter::Aborted);
    state.publish(Side::Read, Err(Error::new(ErrorKind::Cancelled)));
    state.stop(Side::Write);
    assert_eq!(state.claim(Side::Write), Claim::Stop);
    let mut plain = State::new(false);
    plain.start(Side::Read, job(1));
    plain.claim(Side::Read);
    plain.start(Side::Write, job(2));
    plain.claim(Side::Write);
    assert_eq!(plain.enter(Side::Read), Enter::Go);
    assert_eq!(plain.enter(Side::Write), Enter::Go);
}

#[test]
fn closing_children_end_their_watch_when_gone() {
    let h = handle(1, 1);
    let mut services = Services::new(3);
    services.bind(h, Service::Child);
    assert!(services.contains(h) && services.is_child(h));
    let exit = Request { op: op(0, 1), handle: h, operation: Operation::ProcessExit };
    let signal = Request { op: op(0, 1), handle: h, operation: Operation::WatchSignal };
    assert_eq!(services.submit(&signal), Err(unsupported()));
    services.submit(&exit).expect("watch");
    assert_eq!(services.submit(&exit), Err(invalid()));
    assert!(!services.has_work(&vec![false, false, false]));
    assert!(services.has_work(&vec![false, true, false]));
    services.closed_child(h);
    assert!(services.cancel(op(0, 1)));
    assert!(matches!(services.advance::<u32>(1, true), ServiceStep::Status(1)));
    assert!(services.child_status::<u32>(1, None).is_none());
    let status = ExitStatus { code: Some(3), signal: None };
    let event = services.child_status::<u32>(1, Some(status)).expect("ended");
    assert!(event.terminal);
    assert!(matches!(event.result, Ok(Outcome::Cancelled)), "closing hides the exit");
    assert!(!services.cancel(op(0, 1)));
    services.release(h);
    assert!(!services.contains(h));
    services.bind(h, Service::Child);
    services.submit(&exit).expect("watch");
    let event = services.child_status::<u32>(1, Some(status)).expect("ended");
    assert!(matches!(event.result, Ok(Outcome::Exited(s)) if s == status));
}

#[test]
fn console_subscriptions_deliver_until_cancelled() {
    let h = handle(0, 1);
    let mut services = Services::new(1);
    services.bind(h, Service::Signal(Signal::Int));
    let watch = Request { op: op(0, 1), handle: h, operation: Operation::WatchSignal };
    services.submit(&watch).expect("watch");
    assert!(matches!(services.advance::<u32>(0, false), ServiceStep::Done));
    assert!(matches!(services.advance::<u32>(0, true), ServiceStep::TakeSignal(0)));
    assert!(services.signal_taken::<u32>(0, false).is_none());
    let event = services.signal_taken::<u32>(0, true).expect("signal");
    assert!(!event.terminal);
    assert!(matches!(event.result, Ok(Outcome::Signal(Signal::Int))));
    assert!(services.cancel(op(0, 1)));
    match services.advance::<u32>(0, true) {
        ServiceStep::Report(event) => {
            assert!(matches!(event.result, Ok(Outcome::Cancelled)));
        }
        other => panic!("unexpected {other:?}"),
    }
}

#[test]
fn arguments_are_quoted_for_the_runtime() {
    let quoted = |value: &str| {
        let mut out = vec![];
        quote(&text(value), &mut out).expect("no zero");
        String::from_utf16(&out).expect("text")
    };
    assert_eq!(quoted("plain"), "\"plain\"");
    assert_eq!(quoted("a \"b\""), "\"a \\\"b\\\"\"");
    assert_eq!(quoted("dir\\"), "\"dir\\\\\"");
    assert_eq!(quoted("a\\\\\"b"), "\"a\\\\\\\\\\\"b\"");
    let line = command_line(&text("p"), &vec![text("x y"), text("")]).expect("fits");
    assert_eq!(String::from_utf16(&line[..line.len() - 1]).expect("text"), "\"p\" \"x y\" \"\"");
    assert_eq!(line.last(), Some(&0));
    assert_eq!(command_line(&text("a\0b"), &vec![]), Err(invalid()));
    assert_eq!(command_line(&vec![65; 40000], &vec![]), Err(invalid()));
    assert_eq!(wide(&text("ab")), Ok(vec![97, 98, 0]));
    assert_eq!(wide(&text("a\0")), Err(invalid()));
}

#[test]
fn environments_fold_names_and_keep_their_order() {
    let mut env = Environment::new();
    env.set(b"Path".to_vec(), b"one".to_vec());
    env.set(b"ALPHA".to_vec(), b"a".to_vec());
    env.set(b"PATH".to_vec(), b"two".to_vec());
    assert_eq!(env.len(), 2);
    assert_eq!(env.get(0).name, b"ALPHA".to_vec());
    assert_eq!(env.get(1).value, b"two".to_vec());
    assert_eq!(env.set_checked(b"".to_vec(), b"x".to_vec()), Err(invalid()));
    assert_eq!(env.set_checked(b"a=b".to_vec(), b"x".to_vec()), Err(invalid()));
    let entries = vec![(text("A"), text("1")), (text("B"), text(""))];
    let flat = block(&entries).expect("no zeros");
    assert_eq!(String::from_utf16(&flat).expect("text"), "A=1\0B=\0\0");
    assert_eq!(block(&vec![(text("A"), text("\0"))]), Err(invalid()));
}

fn settings(pairs: &[(&str, &str)]) -> Vec<(Vec<u8>, Vec<u8>)> {
    pairs.iter().map(|(n, v)| (n.as_bytes().to_vec(), v.as_bytes().to_vec())).collect()
}

fn block_of(clear: bool, inherited: &[(&str, &str)], given: &[(&str, &str)]) -> String {
    let env = environment(clear, &settings(inherited), &settings(given)).expect("settable");
    String::from_utf16(&environment_block(&env).expect("no zeros")).expect("text")
}

#[test]
fn new_processes_get_the_last_setting_of_each_name() {
    let given = [("Path", "a"), ("B", "1"), ("PATH", "b")];
    assert_eq!(block_of(true, &[("C", "2")], &given), "B=1\0PATH=b\0\0");
    assert_eq!(block_of(false, &[("C", "2"), ("b", "0")], &given), "B=1\0C=2\0PATH=b\0\0");
    assert_eq!(block_of(true, &[], &[]), "\0\0");
    assert_eq!(environment(true, &vec![], &settings(&[("a=b", "")])).err(), Some(invalid()));
    assert_eq!(environment(true, &vec![], &settings(&[("", "")])).err(), Some(invalid()));
    let hidden = environment(false, &settings(&[("=C:", "C:\\")]), &vec![]).expect("inherited");
    assert_eq!(hidden.len(), 1);
    let zero = environment(true, &vec![], &settings(&[("a", "\0")])).expect("settable");
    assert_eq!(environment_block(&zero), Err(invalid()));
}

#[test]
fn variables_are_widened() {
    let name = "a\u{e9}\u{20ac}\u{1f600}";
    assert_eq!(widen(&name.as_bytes().to_vec()), text(name));
    assert_eq!(widen(&vec![0xed, 0xa0, 0x80]), vec![0xd800], "half a pair stands alone");
    assert_eq!(widen(&vec![65, 0xe2, 0x82]), vec![65]);
}

fn typed(console: &mut ConsoleBytes, unit: u16, count: u16) {
    assert!(!console.record(Input::Key { down: true, unit, count }));
}

fn read_console(console: &mut ConsoleBytes, room: usize) -> Option<Vec<u8>> {
    match console.read(room) {
        Read::Done(bytes) => Some(bytes),
        Read::Ask => None,
    }
}

#[test]
fn console_keys_become_bytes() {
    let mut console = ConsoleBytes::new();
    assert!(!console.has_bytes());
    assert_eq!(read_console(&mut console, 0), Some(vec![]));
    assert_eq!(read_console(&mut console, 8), None);
    typed(&mut console, 0x41, 2);
    assert_eq!(read_console(&mut console, 8), Some(b"A".to_vec()));
    assert_eq!(read_console(&mut console, 8), Some(b"A".to_vec()));
    assert!(!console.has_bytes());
    typed(&mut console, 0xd83d, 1);
    assert!(!console.has_bytes(), "half a pair is held back");
    typed(&mut console, 0xde00, 0);
    assert_eq!(read_console(&mut console, 3), Some(vec![0xf0, 0x9f, 0x98]));
    assert_eq!(read_console(&mut console, 3), Some(vec![0x80]));
    typed(&mut console, 0xde00, 1);
    assert_eq!(read_console(&mut console, 8), Some(vec![0xef, 0xbf, 0xbd]));
}

#[test]
fn console_events_without_a_character_are_passed_over() {
    let mut console = ConsoleBytes::new();
    assert!(console.record(Input::Resized));
    assert!(!console.record(Input::Nothing));
    assert!(!console.record(Input::Other));
    assert!(!console.record(Input::Key { down: false, unit: 0x41, count: 1 }));
    assert!(!console.record(Input::Key { down: true, unit: 0, count: 1 }));
    assert_eq!(read_console(&mut console, 8), None);
}

#[test]
fn pipe_names_are_local() {
    let name = text("\\\\.\\pipe\\ab");
    let mut terminated = name.clone();
    terminated.push(0);
    assert_eq!(pipes::name(&name), Ok(terminated));
    assert_eq!(pipes::name(&text("\\\\.\\pipe\\")), Err(invalid()));
    assert_eq!(pipes::name(&text("\\\\srv\\pipe\\ab")), Err(invalid()));
    assert_eq!(
        pipes::wait_request(&name),
        Ok(vec![1, 0, 0, 0, 0, 0, 0, 0x80, 4, 0, 0, 0, 1, 0, 97, 0, 98, 0])
    );
    let busy = coded(ErrorKind::WouldBlock, 231);
    assert_eq!(pipes::open(Ok(())), Ok(true));
    assert_eq!(pipes::open(Err(busy)), Ok(false));
    let missing = coded(ErrorKind::NotFound, 2);
    assert_eq!(pipes::open(Err(missing)), Err(missing));
}

#[test]
fn pipe_instances_are_accepted_in_turn() {
    assert_eq!(Listener::instances(0), 1);
    assert_eq!(Listener::instances(3), 3);
    let connected = coded(ErrorKind::Other, 535);
    let waiting = pipes::arm(Err(pending())).expect("pending");
    assert_eq!(waiting, Slot { waiting: true, ready: None });
    assert_eq!(pipes::arm(Err(connected)).expect("there already").ready, Some(Ok(())));
    let broken = coded(ErrorKind::Other, INVALID_HANDLE);
    assert_eq!(pipes::arm(Err(broken)), Err(broken));
    let mut listener = Listener::new(vec![waiting; 3]);
    assert_eq!(listener.next_ready(), None);
    listener.completed(2, Ok(())).expect("packet");
    listener.completed(0, Err(broken)).expect("packet");
    assert_eq!(listener.completed(0, Ok(())), Err(invalid()));
    assert_eq!(listener.completed(9, Ok(())), Err(invalid()));
    assert_eq!(listener.next_ready(), Some(0));
    assert_eq!(listener.accept(0, Ok(waiting)), Err(broken));
    assert_eq!(listener.next_ready(), Some(2));
    assert_eq!(listener.accept(2, Err(broken)), Ok(()));
    assert_eq!(listener.next_ready(), Some(2), "a failed refill is reported later");
}

#[test]
fn socket_addresses_are_read_back() {
    let v4 = Endpoint::V4 { ip: [192, 0, 2, 7], port: 0x1234 };
    let v6 = Endpoint::V6 { segments: [0x2001, 0xdb8, 0, 0, 0, 0, 0, 9], port: 80, flow: 5, scope: 6 };
    let mut bytes = socket::encode(&v4);
    assert_eq!(bytes[..8], [2, 0, 0x12, 0x34, 192, 0, 2, 7]);
    bytes.resize(28, 0);
    assert_eq!(socket::decode(&bytes, 16), Ok(v4));
    let bytes = socket::encode(&v6);
    assert_eq!(bytes.len(), 28);
    assert_eq!(socket::decode(&bytes, 28), Ok(v6));
    assert_eq!(socket::decode(&vec![9; 28], 28), Err(invalid()));
    assert_eq!(socket::decode(&bytes, 16), Err(invalid()));
}

#[test]
fn imported_handles_are_classified() {
    assert_eq!(socket::classify(socket::SOCK_DGRAM, false), Ok(Kind::Udp));
    assert_eq!(socket::classify(socket::SOCK_STREAM, true), Ok(Kind::Listener));
    assert_eq!(socket::classify(socket::SOCK_STREAM, false), Ok(Kind::Tcp));
    assert_eq!(socket::classify(5, false), Err(unsupported()));
    let facts = HandleFacts {
        console: true,
        screen: false,
        mode_known: false,
        synchronous: false,
        pipe: false,
    };
    assert_eq!(socket::adopt(facts), Ok((Kind::Sync, true)));
    assert_eq!(socket::adopt(HandleFacts { screen: true, ..facts }), Ok((Kind::Sync, false)));
    let plain = HandleFacts { console: false, mode_known: true, ..facts };
    assert_eq!(socket::adopt(plain), Err(unsupported()));
    assert_eq!(
        socket::adopt(HandleFacts { pipe: true, ..plain }),
        Ok((Kind::Pipe, false))
    );
    assert_eq!(
        socket::adopt(HandleFacts { synchronous: true, ..plain }),
        Ok((Kind::Sync, false))
    );
    let last = coded(ErrorKind::Other, 10022);
    assert_eq!(socket::check(0, last), Ok(()));
    assert_eq!(socket::check(socket::SOCKET_ERROR, last), Err(last));
    assert_eq!(socket::bool_result(1, last), Ok(()));
    assert_eq!(socket::bool_result(0, last), Err(last));
    assert_eq!(socket::error(1225, ErrorKind::Other).kind, ErrorKind::ConnectionRefused);
    assert_eq!(socket::error(121, ErrorKind::Other).kind, ErrorKind::TimedOut);
    assert_eq!(socket::error(4242, ErrorKind::Other), coded(ErrorKind::Other, 4242));
}

#[test]
fn bridges_hold_one_wait() {
    let mut bridge = Bridge { waiting: false, error: 9, bytes: 9 };
    bridge.prepare();
    bridge.start(Ok(())).expect("registered");
    assert!(bridge.waiting);
    bridge.complete(0, 12);
    assert_eq!(bridge.finish(ErrorKind::Other), Ok(12));
    assert!(!bridge.waiting);
    bridge.prepare();
    bridge.start(Ok(())).expect("registered");
    bridge.complete(995, 0);
    assert_eq!(bridge.finish(ErrorKind::Other).expect_err("aborted").os, Some(995));
    let failed = coded(ErrorKind::ResourceLimit, 8);
    bridge.prepare();
    assert_eq!(bridge.start(Err(failed)), Err(failed));
    assert!(!bridge.waiting);
}

#[test]
fn change_records_name_their_entry() {
    let record = |next: u32, action: u32, name: &str| {
        let units = text(name);
        let mut bytes = vec![];
        bytes.extend_from_slice(&next.to_le_bytes());
        bytes.extend_from_slice(&action.to_le_bytes());
        bytes.extend_from_slice(&((2 * units.len()) as u32).to_le_bytes());
        for unit in units {
            bytes.extend_from_slice(&unit.to_le_bytes());
        }
        bytes
    };
    let mut bytes = record(16, 1, "ab");
    bytes.extend(record(0, 3, "cd"));
    let all = watch::parse(&bytes, &None);
    assert_eq!(all.len(), 2);
    assert!(matches!(&all[0], Stored::Named { kind: WatchKind::Rename, name } if *name == text("ab")));
    assert!(matches!(&all[1], Stored::Named { kind: WatchKind::Change, name } if *name == text("cd")));
    let own = watch::parse(&bytes, &Some(text("CD")));
    assert_eq!(own.len(), 1);
    assert!(matches!(own[0], Stored::Own(WatchKind::Change)));
    assert!(watch::same_name(&text("Ab"), &text("aB")));
    assert!(!watch::same_name(&text("ab"), &text("abc")));
    assert_eq!(watch::watched_name(&text("C:\\dir\\file\\")), text("file"));
    let target = watch::target(&text("C:\\dir\\file"), false, false).expect("parent");
    assert_eq!(target.directory, text("C:\\dir"));
    assert_eq!(target.file, Some(text("file")));
    assert_eq!(
        watch::target(&text("x"), false, true).expect_err("below a file"),
        unsupported()
    );
}

#[test]
fn released_watches_keep_their_storage() {
    let h = handle(0, 1);
    let mut watches = Watches::new(2, 2);
    watches.vacant(h).expect("free");
    watches.start(h, 40, 7000).expect("start");
    let request = Request { op: op(0, 1), handle: h, operation: Operation::WatchFs };
    watches.submit(&request, Ok(()), false).expect("subscribe");
    assert_eq!(watches.submit(&request, Ok(()), false), Err(invalid()));
    assert_eq!(watches.completed(40, 7000, None), Ok(Completed::Store(0)));
    watches.rearmed(0, Ok(()), true);
    assert_eq!(watches.waiting(), 1);
    let batch = Found::Batch { lease: Lease { id: 2 }, overflow: false, more: false };
    match watches.serve::<u32>(batch) {
        Served::Event(event) => {
            assert!(!event.terminal);
            assert!(matches!(event.result, Ok(Outcome::Watch { overflow: false, .. })));
        }
        other => panic!("unexpected {other:?}"),
    }
    assert_eq!(watches.cancel_target(op(0, 1)), Cancel::Native(0));
    assert_eq!(watches.cancel(op(0, 1), Ok(())), Ok(true));
    assert_eq!(watches.cancel_target(op(0, 1)), Cancel::Plain);
    assert!(watches.take_ended::<u32>().is_none(), "the kernel has the request");
    let aborted = coded(ErrorKind::Cancelled, 995);
    assert_eq!(watches.completed(40, 7000, Some(aborted)), Ok(Completed::Done));
    let event = watches.take_ended::<u32>().expect("cancelled");
    assert!(matches!(event.result, Ok(Outcome::Cancelled)));
    assert_eq!(watches.completed(41, 7000, None), Ok(Completed::Foreign));
    assert!(watches.needs_request(h), "the last request came back");
    let second = Request { op: op(1, 1), handle: h, operation: Operation::WatchFs };
    watches.submit(&second, Err(aborted), false).expect("accepted");
    let event = watches.take_ended::<u32>().expect("without a request it ends");
    assert!(event.terminal && event.op == op(1, 1));
    assert!(matches!(event.result, Err(e) if e == aborted));
    watches.submit(&second, Ok(()), false).expect("subscribe again");
    assert!(!watches.needs_request(h));
    assert_eq!(watches.cancel(op(1, 1), Ok(())), Ok(true));
    assert!(watches.take_ended::<u32>().is_none(), "the kernel has the request");
    assert_eq!(watches.completed(40, 7000, Some(aborted)), Ok(Completed::Done));
    let event = watches.take_ended::<u32>().expect("cancelled");
    assert_eq!(event.op, op(1, 1));
    assert!(event.terminal);
    assert!(matches!(event.result, Ok(Outcome::Cancelled)));
    assert!(watches.take_ended::<u32>().is_none());
    watches.release(h);
    assert!(!watches.contains(h));
    let other = handle(1, 1);
    watches.start(other, 50, 8000).expect("start");
    assert!(watches.release(other), "the kernel has its request");
    assert!(watches.pending());
    assert_eq!(watches.completed(50, 8000, Some(aborted)), Ok(Completed::Freed));
    assert!(!watches.pending());
}

#[test]
fn transports_open_exclusively() {
    let none = AcceptDefaults { nodelay: false, keep_alive: None };
    let local = Endpoint::V4 { ip: [127, 0, 0, 1], port: 80 };
    let plan = open::plan(&Open::Tcp { to: local, nodelay: true });
    assert_eq!(
        plan.steps,
        vec![
            open::Step::Socket { v6: false, datagram: false },
            open::Step::BindAny { v6: false },
            open::Step::FastLoopback,
            open::Step::NoDelay,
        ]
    );
    let opts = ListenOpts { backlog: u32::MAX, reuse_port: ReusePort::No, accept_defaults: none };
    assert_eq!(
        open::plan(&Open::Listener { addr: local, opts }).steps,
        vec![
            open::Step::Socket { v6: false, datagram: false },
            open::Step::Exclusive,
            open::Step::Bind(local),
            open::Step::Listen(i32::MAX),
        ]
    );
    let defaults = AcceptDefaults { nodelay: true, keep_alive: None };
    let prepared = ListenOpts { accept_defaults: defaults, ..opts };
    let adopt = open::plan(&Open::Listener { addr: local, opts: prepared }).outcome;
    assert_eq!(adopt.expect("listens").accept_defaults, defaults);
    let piped = Open::PipeListener { name: b"pipe".to_vec(), local: prepared };
    assert_eq!(open::plan(&piped).outcome, Err(unsupported()), "pipes have no socket options");
    let shared = ListenOpts { reuse_port: ReusePort::Share, ..opts };
    assert_eq!(
        open::plan(&Open::Listener { addr: local, opts: shared }).outcome,
        Err(unsupported())
    );
    assert_eq!(
        open::plan(&Open::Udp { from: local, reuse_port: ReusePort::Share }).outcome,
        Err(unsupported())
    );
}

#[test]
fn programs_are_searched_on_the_path() {
    let var = |key: &str, value: &str| open::Variable { key: text(key), value: text(value) };
    assert_eq!(
        open::search_path(&vec![var("Path", "a"), var("x", "b"), var("PATH", "c")], true),
        open::SearchPath::Own(2)
    );
    assert_eq!(open::search_path(&vec![], false), open::SearchPath::Host);
    assert_eq!(open::search_path(&vec![], true), open::SearchPath::Nowhere);
    let probe = |plain, extended, executable| open::Probe { plain, extended, executable };
    assert_eq!(
        open::resolve(&vec![
            probe(false, true, true),
            probe(false, false, true),
            probe(true, false, false),
        ]),
        Some((1, true))
    );
    assert_eq!(open::resolve(&vec![probe(true, true, false)]), Some((0, false)));
    assert_eq!(open::resolve(&vec![probe(false, true, true)]), None);
    assert_eq!(open::check_extension(&Some(text("Bat"))), Err(invalid()));
    assert_eq!(open::check_extension(&Some(text("cmd"))), Err(invalid()));
    assert_eq!(open::check_extension(&Some(text("exe"))), Ok(()));
    assert_eq!(open::check_extension(&None), Ok(()));
}

#[test]
fn console_modes_are_restored() {
    let found = 0x1f7;
    assert_eq!(open::tty_flags(Some(found), true, TtyMode::Normal), Ok(found));
    assert_eq!(open::tty_flags(Some(found), true, TtyMode::Raw), Ok(0x3b9));
    assert_eq!(open::tty_flags(Some(found), true, TtyMode::Io), Ok(0x3b8));
    assert_eq!(open::tty_flags(Some(0x2), false, TtyMode::Raw), Ok(0x7));
    assert_eq!(open::tty_flags(None, true, TtyMode::Raw), Err(unsupported()));
    let window = open::Window { left: 3, top: 0, right: 82, bottom: 24 };
    assert_eq!(open::window_size(window), WindowSize { columns: 80, rows: 25 });
    let inverted = open::Window { left: 5, top: 9, right: 4, bottom: 3 };
    assert_eq!(open::window_size(inverted), WindowSize { columns: 0, rows: 65531 });
}

#[test]
fn native_calls_move_no_more_than_their_length_can_say() {
    assert_eq!(native_len(0), 0);
    assert_eq!(native_len(4096), 4096);
    assert_eq!(native_len(0xffff_ffff), 0xffff_ffff);
    assert_eq!(native_len(usize::MAX), 0xffff_ffff);
}

#[test]
fn lost_cancellations_are_repeated() {
    assert_eq!(retry(true, 0), Retry::Worker { millis: 10 });
    assert_eq!(retry(false, 63), Retry::Yield);
    assert_eq!(retry(false, 64), Retry::Sleep { millis: 1 });
}

#[test]
fn only_children_are_signalled() {
    let mut services = Services::new(2);
    let (child, watch) = (handle(0, 1), handle(1, 1));
    services.bind(child, Service::Child);
    services.bind(watch, Service::Signal(Signal::Int));
    assert_eq!(services.kill_check(child), Ok(()));
    assert_eq!(services.kill_check(watch), Err(unsupported()));
    assert_eq!(services.kill_check(handle(0, 2)), Err(Error::new(ErrorKind::NotFound)));
}

#[test]
fn packets_reach_the_operation_whose_storage_they_name() {
    let h = handle(0, 1);
    let keys = Keys { wake: 1, timer: 2, bridge: 3, worker: 4 };
    let mut engine = Iocp::new(1, 2);
    engine.install(resource(h, Kind::Tcp), 1, Ok(true)).expect("install");
    engine
        .submit(Request { op: op(1, 1), handle: h, operation: Operation::Write(5) })
        .expect("write");
    assert!(pass(&mut engine, |_| submitted(false, 0, None)).is_empty());
    let reset = coded(ErrorKind::ConnectionReset, 10054);
    let packet = |key, overlapped| Entry { key, overlapped, bytes: 5, status: 0, error: reset };
    assert_eq!(engine.entry(packet(1, 0), keys, 1000, 24), Ok(Arrived::Nothing));
    assert_eq!(engine.entry(packet(2, 7), keys, 1000, 24), Ok(Arrived::Timer(7)));
    assert_eq!(engine.entry(packet(0, 1001), keys, 1000, 24), Err(invalid()));
    assert_eq!(engine.entry(packet(0, 1000), keys, 1000, 24), Err(invalid()));
    assert_eq!(engine.entry(packet(4, 1000), keys, 1000, 24), Err(invalid()));
    assert_eq!(
        engine.entry(packet(4, 1024), keys, 1000, 24),
        Ok(Arrived::Worker { slot: 1, handle: h })
    );
    assert_eq!(engine.entry(packet(3, 1024), keys, 1000, 24), Ok(Arrived::Bridge(1)));
    assert_eq!(
        engine.entry(Entry { status: -1, ..packet(0, 1024) }, keys, 1000, 24),
        Ok(Arrived::Nothing)
    );
    assert_eq!(engine.entry(packet(0, 1024), keys, 1000, 24), Err(invalid()));
    let events = pass(&mut engine, |call| panic!("unexpected {call:?}"));
    assert_eq!(events.len(), 1);
    assert_eq!(events[0].op, op(1, 1));
    assert_eq!(events[0].result.as_ref().err(), Some(&reset));
}

#[test]
fn dropped_children_are_waited_for() {
    let mut left = Child::new(true);
    left.job_assigned = true;
    assert_eq!(left.drop_start(true), Dropping::Status, "an exited leader's tree is left alone");
    assert!(left.is_ready());
    assert_eq!(left.drop_next(Dropping::Status), Dropping::Done);
    let mut child = Child::new(true);
    child.job_assigned = true;
    let mut calls = Calls::default();
    let failed = coded(ErrorKind::Other, INVALID_HANDLE);
    drop_child(&mut child, &mut calls, |_| Err(failed));
    assert_eq!(calls.terminations, [1, 1], "the process, where its tree could not be killed");
    assert_eq!(child.drop_next(Dropping::Kill { group: false }), Dropping::Wait);
}
