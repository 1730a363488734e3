use turnloop::open::{ListenOpts, Open, ReusePort, Stdio, TtyMode};
use turnloop::options::AcceptDefaults;
use turnloop::payload::Segment;
use turnloop::readiness::io::Kind;
use turnloop::types::{
    invalid, unsupported, ChildFd, ChildFdSource, Completions, Endpoint, Error, ErrorKind, Event, ExitStatus,
    Handle, Lease, OpId, Operation, Outcome, PollInfo, ProcessStdio, ReadBuf, Request, Signal,
    Span,
};
use turnloop::unix::files::{read_reply, FileOutcome, Files, Finished, WriteJob};
use turnloop::unix::fsevents;
use turnloop::unix::fsevents::{receive, root_name, StreamReport, Streams};
use turnloop::unix::inotify::{basename, kind_of, parse, Record, WatchKind};
use turnloop::unix::ipc;
use turnloop::unix::ipc::{Node, SocketFamily, SocketType};
use turnloop::unix::open;
use turnloop::unix::open::Step as OpenStep;
use turnloop::unix::poller;
use turnloop::unix::poller::{
    decode, decode_kernel, Counter, Filter, KernelEvent, NativeEvent, Ready, TimeSpec, WaitPlan,
};
use turnloop::unix::process;
use turnloop::unix::process::{Hook, Make};
use turnloop::unix::ready_queue::ReadyQueue;
use turnloop::unix::services;
use turnloop::unix::services::{ChildState, Registration, Service, Services, Step};
use turnloop::unix::signals;
use turnloop::unix::signals::{Numbers, Registry, Ticket};
use turnloop::unix::spawn;
use turnloop::unix::stream;
use turnloop::unix::stream::{Call as StreamCall, Close, Made};
use turnloop::unix::watch;
use turnloop::unix::watch::{Delivery, Found, NodeFlags, Read, Report, Served, Source, Watches};

const ESRCH: i32 = 3;

fn handle(slot: u64, generation: u64) -> Handle {
    Handle { owner: 1, key: (generation << 32) | slot }
}

fn op(slot: u64, generation: u64) -> OpId {
    OpId { owner: 1, key: (generation << 32) | slot }
}

fn coded(kind: ErrorKind, code: i32) -> Error {
    Error { kind, os: Some(code) }
}

fn endpoints() -> [Endpoint; 2] {
    [
        Endpoint::V4 { ip: [127, 0, 0, 1], port: 0 },
        Endpoint::V6 { segments: [0, 0, 0, 0, 0, 0, 0, 1], port: 0, flow: 0, scope: 0 },
    ]
}

fn exited(code: i32) -> ExitStatus {
    ExitStatus { code: Some(code), signal: None }
}

/// A pass over the ready services; the host answers from what the system says.
fn serve(
    services: &mut Services,
    signals: &mut Vec<Handle>,
    mut wait: impl FnMut() -> Result<Option<ExitStatus>, Error>,
) -> Vec<Event<u32>> {
    let mut events = vec![];
    let mut budget = 32;
    loop {
        match services.advance::<u32>(&mut budget, true) {
            Step::Done => return events,
            Step::Again => {}
            Step::Report(event) => events.push(event),
            Step::TakeSignal(h) => {
                let took = signals.contains(&h);
                signals.retain(|other| *other != h);
                events.extend(services.signal_taken::<u32>(took));
            }
            Step::Reap { wait: ask, .. } => {
                let waited = if ask { wait() } else { Ok(None) };
                events.extend(services.child_reaped::<u32>(waited));
            }
        }
    }
}

fn exit_request(o: OpId, h: Handle) -> Request {
    Request { op: o, handle: h, operation: Operation::ProcessExit }
}

#[test]
fn timeout_and_notifier_waits_keep_distinct_counts_after_rearming() {
    let notified = NativeEvent { key: poller::WAKE_KEY, flags: poller::EPOLLIN };
    let expired = NativeEvent { key: poller::TIMER_KEY, flags: poller::EPOLLIN };
    let mut timeouts = 0;
    for nanos in [500_000, 2_000_000, 10_000_000] {
        let duration = Some(Span { secs: 0, nanos });
        let arm = TimeSpec { sec: 0, nsec: nanos as i64 };
        assert_eq!(poller::plan_wait(true, duration), WaitPlan::Timer { arm, block: true });
        assert_eq!(
            poller::plan_wait(false, duration),
            WaitPlan::Precise { timeout: Some(arm) }
        );
        let woken = decode(&vec![notified]);
        assert_eq!((woken.info.waits, woken.info.zero_event_waits), (1, 0));
        assert!(woken.ready.is_empty());
        assert!(woken.wake);
        for events in [vec![], vec![expired]] {
            let timed_out = decode(&events);
            assert_eq!((timed_out.info.waits, timed_out.info.zero_event_waits), (1, 1));
            assert!(timed_out.ready.is_empty());
            assert_eq!(timed_out.timer, !events.is_empty());
        }
        timeouts += 1;
    }
    assert_eq!(timeouts, 3);
    let zero = TimeSpec { sec: 0, nsec: 0 };
    assert_eq!(
        poller::plan_wait(true, Some(Span { secs: 0, nanos: 0 })),
        WaitPlan::Timer { arm: zero, block: false }
    );
    assert_eq!(poller::plan_wait(true, None), WaitPlan::Timer { arm: zero, block: true });
    let both = decode(&vec![expired, notified]);
    assert_eq!((both.info.waits, both.info.zero_event_waits), (1, 0));
}

#[test]
fn io_readiness_is_not_a_zero_event_wait() {
    let key = 1 << 32;
    let woken = decode(&vec![NativeEvent { key, flags: poller::EPOLLIN }]);
    assert_eq!((woken.info.waits, woken.info.zero_event_waits), (1, 0));
    assert_eq!(woken.ready.len(), 1);
    assert_eq!(woken.ready[0].key, key);
    assert!(woken.ready[0].read);
}

#[test]
fn forced_sigchld_mode_never_registers_a_pidfd() {
    let no_call = 38;
    let error = services::process_watch(true, no_call).expect_err("force SIGCHLD");
    assert_eq!(error.os, Some(no_call));
    assert_eq!(services::process_watch(false, no_call), Ok(()));
    assert_eq!(services::registered(Err(error), ESRCH), Registration::Reap);
    assert!(services::substitutable(error.os, no_call, 22, 1));
    assert_eq!(services::excuse(None, error, true), Ok(true));
}

#[test]
fn blocking_and_discovery_calls_keep_raw_empty_accounting() {
    let mut calls = 0;
    let zero = Span { secs: 0, nanos: 0 };
    for timeout in [Some(zero), Some(Span { secs: 0, nanos: 2_000_000 }), None] {
        for wake in [false, true] {
            if timeout.is_none() && !wake {
                continue;
            }
            let events = if wake {
                vec![KernelEvent { filter: Filter::User, key: 0, fflags: 0 }]
            } else {
                vec![]
            };
            let discovery = timeout == Some(zero);
            let (ready, info) = decode_kernel(&events, discovery);
            assert_eq!(
                (info.waits, info.discovery_polls),
                (u32::from(!discovery), u32::from(discovery))
            );
            assert_eq!(info.zero_event_waits, u32::from(!wake));
            assert!(ready.is_empty(), "notifier is native work without user readiness");
            calls += 1;
        }
    }
    assert_eq!(calls, 5);
}

#[test]
fn publication_coalescing_and_generation_reuse() {
    let a = handle(0, 1);
    let b = handle(1, 1);
    for order in [[a, b], [b, a]] {
        let mut ready = ReadyQueue::new(2);
        ready.push(order[0]);
        ready.push(order[1]);
        let first = ready.pop().expect("published local readiness");
        let second = ready.pop().expect("published peer readiness");
        assert_ne!(first, second);
        assert!([first, second].contains(&a));
        assert!([first, second].contains(&b));
        assert!(!ready.has_work());
        ready.push(a);
        ready.push(a);
        assert_eq!(ready.pop(), Some(a));
        assert!(ready.pop().is_none(), "coalesced credit");
        ready.push(a);
        ready.remove(a);
        let reused = handle(0, 2);
        ready.push(reused);
        assert_eq!(ready.pop(), Some(reused));
        assert!(!ready.has_work());
    }
}

#[test]
fn esrch_before_wait_status_is_visible_still_delivers_exit_once() {
    let h = handle(0, 1);
    let o = op(0, 1);
    let mut services = Services::new(32, 32);
    let mut child = ChildState { status: None, group: false };
    let injected = coded(ErrorKind::NotFound, ESRCH);
    assert_eq!(services::registered(Err(injected), ESRCH), Registration::Leaving);
    assert_eq!(child.reap(Ok(Some(exited(23)))), Ok(Some(exited(23))));
    services.bind(h, Service::Child(child));
    services.submit(&exit_request(o, h), false).expect("submit exit");
    let mut none = vec![];
    let events = serve(&mut services, &mut none, || panic!("a reaped child is not waited for"));
    assert_eq!(events.len(), 1);
    assert_eq!(events[0].op, o);
    assert!(events[0].terminal);
    assert!(matches!(
        events[0].result,
        Ok(Outcome::Exited(ExitStatus { code: Some(23), signal: None }))
    ));
    services.publish(h);
    let again = serve(&mut services, &mut none, || panic!("a reaped child is not waited for"));
    assert!(again.is_empty(), "no duplicate exit");
}

#[test]
fn child_exited_before_native_registration_is_reaped_once() {
    let h = handle(0, 1);
    let o = op(0, 1);
    let mut services = Services::new(64, 32);
    services.bind(h, Service::Child(ChildState { status: None, group: false }));
    services.submit(&exit_request(o, h), false).expect("exit operation");
    let mut waits = 0;
    let mut none = vec![];
    let events = serve(&mut services, &mut none, || {
        waits += 1;
        Ok(Some(exited(23)))
    });
    assert_eq!(events.len(), 1);
    assert!(matches!(
        events[0].result,
        Ok(Outcome::Exited(ExitStatus { code: Some(23), signal: None }))
    ));
    services.ready(h.key());
    assert!(serve(&mut services, &mut none, || panic!("reaped twice")).is_empty());
    assert_eq!(waits, 1);
}

#[test]
fn default_udp_bind_does_not_enable_address_sharing() {
    let mut checked = 0;
    for from in endpoints() {
        let plan = open::plan(&Open::Udp { from, reuse_port: ReusePort::No }, 108);
        assert_eq!(
            plan.steps,
            vec![OpenStep::Socket { addr: from, datagram: true }, OpenStep::Bind(from)]
        );
        assert_eq!(plan.outcome.expect("bound").kind, Some(Kind::Udp));
        checked += 1;
    }
    assert_eq!(checked, 2, "IPv4 and IPv6 binding policies ran");
}

#[test]
fn udp_port_sharing_requires_explicit_opt_in() {
    let mut checked = 0;
    for from in endpoints() {
        let plan = open::plan(&Open::Udp { from, reuse_port: ReusePort::Share }, 108);
        assert_eq!(
            plan.steps,
            vec![
                OpenStep::Socket { addr: from, datagram: true },
                OpenStep::ReuseAddress,
                OpenStep::SharePort,
                OpenStep::Bind(from),
            ]
        );
        checked += 1;
    }
    assert_eq!(checked, 2, "both address families exercised explicit sharing");
}

#[test]
fn listeners_bind_before_they_listen() {
    let addr = endpoints()[0];
    let none = AcceptDefaults { nodelay: false, keep_alive: None };
    let nodelay = AcceptDefaults { nodelay: true, keep_alive: None };
    let opts = ListenOpts { backlog: 128, reuse_port: ReusePort::No, accept_defaults: nodelay };
    let plan = open::plan(&Open::Listener { addr, opts }, 108);
    assert_eq!(
        plan.steps,
        vec![
            OpenStep::Socket { addr, datagram: false },
            OpenStep::ReuseAddress,
            OpenStep::Bind(addr),
            OpenStep::Listen(128),
        ]
    );
    assert_eq!(plan.outcome.expect("listens").accept_defaults, nodelay);
    let deep = ListenOpts { backlog: 0x8000_0000, ..opts };
    let refused = open::plan(&Open::Listener { addr, opts: deep }, 108);
    assert_eq!(refused.steps, vec![]);
    assert_eq!(refused.outcome, Err(invalid()));
    let local = |local, name: &[u8]| {
        open::plan(&Open::PipeListener { name: name.to_vec(), local }, 108)
    };
    assert_eq!(local(opts, b"/tmp/s").outcome, Err(unsupported()));
    let plain = ListenOpts { accept_defaults: none, ..opts };
    assert_eq!(
        local(plain, b"/tmp/s").steps,
        vec![OpenStep::LocalSocket, OpenStep::BindName, OpenStep::Listen(128)]
    );
    let shared = ListenOpts { reuse_port: ReusePort::Share, ..plain };
    assert_eq!(local(shared, b"/tmp/s").outcome, Err(invalid()));
    assert_eq!(local(plain, b"").outcome, Err(invalid()));
}

#[test]
fn other_transports_open_unconnected() {
    let to = endpoints()[1];
    let plan = open::plan(&Open::Tcp { to, nodelay: true }, 108);
    assert_eq!(
        plan.steps,
        vec![OpenStep::Socket { addr: to, datagram: false }, OpenStep::NoDelay]
    );
    assert!(plan.outcome.expect("tcp").connect);
    let stdio = open::plan(&Open::Stdio(Stdio::Stderr), 108);
    assert_eq!(stdio.steps, vec![OpenStep::Duplicate(2)]);
    assert_eq!(stdio.outcome.expect("stream").kind, None);
    let pipe = open::plan(&Open::Pipe(b"/tmp/s".to_vec()), 108);
    assert_eq!(pipe.steps, vec![OpenStep::LocalSocket]);
}

#[test]
fn local_names_fit_with_their_terminator() {
    assert_eq!(open::check_name(&vec![7; 107], 108), Ok(()));
    assert_eq!(open::check_name(&vec![7; 108], 108), Err(invalid()));
    assert_eq!(open::check_name(&vec![], 108), Err(invalid()));
    assert_eq!(open::check_name(&vec![7, 0, 7], 108), Err(invalid()));
    assert_eq!(open::local_length(&vec![7; 10], 2, 108), 13);
}

#[test]
fn terminal_modes_change_the_local_flags() {
    assert_eq!(open::local_flags(0x8a3b, 0x30, 1, TtyMode::Normal), 0x8a3b);
    assert_eq!(open::local_flags(0x8a3b, 0x30, 1, TtyMode::Raw), 0x31);
    assert_eq!(open::local_flags(0x8a3b, 0x30, 1, TtyMode::Io), 0x30);
}

#[test]
fn errors_and_hangups_are_for_both_directions() {
    let key = 9;
    let ready = |flags| decode(&vec![NativeEvent { key, flags }]).ready[0];
    assert_eq!(ready(poller::EPOLLOUT), Ready { key, read: false, write: true, vnode: 0 });
    assert_eq!(ready(poller::EPOLLRDHUP), Ready { key, read: true, write: false, vnode: 0 });
    assert_eq!(ready(poller::EPOLLERR), Ready { key, read: true, write: true, vnode: 0 });
    assert_eq!(ready(poller::EPOLLHUP), Ready { key, read: true, write: true, vnode: 0 });
}

#[test]
fn kernel_events_keep_their_filter() {
    let event = |filter| KernelEvent { filter, key: 5, fflags: 6 };
    let (ready, info) = decode_kernel(
        &vec![event(Filter::Vnode), event(Filter::Write), event(Filter::Process)],
        false,
    );
    assert_eq!(
        ready,
        vec![
            Ready { key: 5, read: false, write: false, vnode: 6 },
            Ready { key: 5, read: false, write: true, vnode: 0 },
            Ready { key: 5, read: false, write: false, vnode: 0 },
        ]
    );
    assert_eq!(info, PollInfo { waits: 1, discovery_polls: 0, zero_event_waits: 0 });
    assert_eq!(poller::directions(0, 3, 0, 1), (true, false));
    assert_eq!(poller::directions(1, 3, 0, 1), (false, true));
    assert_eq!(poller::directions(2, 3, 0, 1), (true, true));
    let gone = coded(ErrorKind::NotFound, 2);
    assert_eq!(poller::removed(Err(gone), 2), Ok(()));
    assert_eq!(poller::removed(Err(gone), 9), Err(gone));
}

#[test]
fn counters_are_raised_once_and_drained_empty() {
    let full = coded(ErrorKind::WouldBlock, 11);
    let interrupted = coded(ErrorKind::Interrupted, 4);
    let broken = coded(ErrorKind::Other, 5);
    assert_eq!(poller::raised(Ok(())), Counter::Done);
    assert_eq!(poller::raised(Err(full)), Counter::Done);
    assert_eq!(poller::raised(Err(interrupted)), Counter::Again);
    assert_eq!(poller::raised(Err(broken)), Counter::Failed(broken));
    assert_eq!(poller::drained(Ok(())), Counter::Again);
    assert_eq!(poller::drained(Err(full)), Counter::Done);
    assert_eq!(poller::drained(Err(interrupted)), Counter::Again);
    assert_eq!(poller::drained(Err(broken)), Counter::Failed(broken));
    assert_eq!(poller::failed_wait(interrupted), Ok(PollInfo::waited(true)));
    assert_eq!(poller::failed_wait(broken), Err(broken));
    assert_eq!(poller::needs_timer(Ok(()), false, 38), Ok(false));
    assert_eq!(poller::needs_timer(Ok(()), true, 38), Ok(true));
    assert_eq!(poller::needs_timer(Err(coded(ErrorKind::Other, 38)), false, 38), Ok(true));
    assert_eq!(poller::needs_timer(Err(broken), false, 38), Err(broken));
}

#[test]
fn system_times_saturate() {
    assert_eq!(
        poller::timespec(Span { secs: 3, nanos: 4 }),
        TimeSpec { sec: 3, nsec: 4 }
    );
    assert_eq!(
        poller::timespec(Span { secs: u64::MAX, nanos: 9 }),
        TimeSpec { sec: i64::MAX, nsec: 9 }
    );
}

#[test]
fn signal_watches_go_on_until_cancelled() {
    let h = handle(3, 1);
    let o = op(2, 1);
    let mut services = Services::new(4, 4);
    services.bind(h, Service::Signal(Signal::Hup));
    assert!(services.contains(h));
    let watch = Request { op: o, handle: h, operation: Operation::WatchSignal };
    assert_eq!(services.submit(&exit_request(o, h), false), Err(invalid()));
    services.submit(&watch, false).expect("watch");
    assert!(!services.has_work());
    let never = || panic!("no child");
    let mut signals = vec![h];
    services.publish(h);
    services.publish(h);
    let events = serve(&mut services, &mut signals, never);
    assert_eq!(events.len(), 1);
    assert!(!events[0].terminal);
    assert!(matches!(events[0].result, Ok(Outcome::Signal(Signal::Hup))));
    assert!(services.cancel(o));
    let events = serve(&mut services, &mut signals, never);
    assert_eq!(events.len(), 1);
    assert!(events[0].terminal);
    assert!(matches!(events[0].result, Ok(Outcome::Cancelled)));
    assert!(!services.cancel(o));
    services.release(h);
    assert!(!services.contains(h));
}

#[test]
fn closing_kills_a_child_that_still_runs() {
    let h = handle(0, 1);
    let mut services = Services::new(1, 1);
    services.bind(h, Service::Child(ChildState { status: None, group: true }));
    assert_eq!(services.kill_target(h, 77, false), Ok(77));
    assert_eq!(services.kill_target(h, 77, true), Ok(-77));
    assert_eq!(services.close_look(h), Some(true));
    assert_eq!(services.close_looked(h, Ok(None)), Ok(true));
    services.close_killed(h);
    assert_eq!(services.close_looked(h, Ok(Some(exited(0)))), Ok(false));
    assert_eq!(
        services.kill_target(h, 77, false),
        Err(Error::new(ErrorKind::NotFound))
    );
    let other = ChildState { status: None, group: false };
    assert_eq!(other.kill_target(8, true), Err(invalid()));
    assert!(other.needs_wait());
}

#[test]
fn registrations_that_fail_are_judged_after_reaping() {
    let denied = coded(ErrorKind::PermissionDenied, 1);
    assert_eq!(services::registered(Ok(()), ESRCH), Registration::Watched);
    assert_eq!(services::registered(Err(denied), ESRCH), Registration::Reap);
    assert_eq!(services::excuse(Some(exited(1)), denied, false), Ok(false));
    assert_eq!(services::excuse(None, denied, false), Err(denied));
    assert!(services::substitutable(Some(1), 38, 22, 1));
    assert!(!services::substitutable(Some(24), 38, 22, 1));
    assert!(!services::substitutable(None, 38, 22, 1));
}

#[test]
fn signals_are_numbered_and_dispatched() {
    let numbers =
        Numbers { int: 2, term: 15, kill: 9, hup: 1, chld: 17, winch: 28, usr1: 10, usr2: 12 };
    assert_eq!(signals::number(Signal::Term, &numbers), Ok(15));
    assert_eq!(signals::number(Signal::Kill, &numbers), Ok(9));
    assert_eq!(signals::number(Signal::Break, &numbers), Err(unsupported()));
    assert_eq!(signals::catchable(Signal::Kill, &numbers), Err(invalid()));
    assert_eq!(signals::catchable(Signal::Usr2, &numbers), Ok(12));
    let mut registry = Registry::new();
    assert!(!registry.join(1, 40));
    registry.install(1, 0xdead, 40);
    assert!(registry.join(1, 41));
    assert_eq!(registry.dispatch(1), vec![40, 41]);
    assert_eq!(registry.dispatch(2), vec![]);
    assert_eq!(registry.leave(1, 40), None);
    assert_eq!(registry.leave(1, 41), Some(0xdead));
    assert_eq!(registry.dispatch(1), vec![]);
    let mut ticket = Ticket { pending: false };
    ticket.publish();
    ticket.publish();
    assert!(ticket.ready());
    assert!(ticket.take());
    assert!(!ticket.take());
}

#[test]
fn descriptors_are_lifted_above_every_target() {
    let fd = |number| ChildFd { number, source: ChildFdSource::Null };
    let extra = vec![fd(5), fd(9), fd(3)];
    assert_eq!(process::checked_floor(&extra), Ok(10));
    assert_eq!(process::checked_floor(&vec![]), Ok(1));
    assert_eq!(process::checked_floor(&vec![fd(0x7fff_ffff)]), Err(invalid()));
    assert!(process::needs_lift(9, 10));
    assert!(!process::needs_lift(10, 10));
    assert_eq!(process::must_hold(Ok(()), 9), Ok(false));
    assert_eq!(process::must_hold(Err(coded(ErrorKind::Other, 9)), 9), Ok(true));
    let other = coded(ErrorKind::Other, 4);
    assert_eq!(process::must_hold(Err(other), 9), Err(other));
    assert_eq!(
        process::plan_hooks(true, true, &vec![20, 21, 22], &extra),
        vec![
            Hook::Session,
            Hook::Terminal,
            Hook::Place { source: 20, target: 5 },
            Hook::Place { source: 21, target: 9 },
            Hook::Place { source: 22, target: 3 },
        ]
    );
}

#[test]
fn children_are_validated_before_they_start() {
    assert_eq!(process::validate(false, false, true, true), Ok(()));
    assert_eq!(process::validate(true, false, false, false), Err(invalid()));
    assert_eq!(process::validate(false, true, false, false), Err(invalid()));
    assert_eq!(process::validate(false, false, true, false), Err(invalid()));
    assert_eq!(process::groups(true, true), (false, true));
    assert_eq!(process::groups(false, true), (true, true));
    assert_eq!(process::groups(false, false), (false, false));
    assert_eq!(process::make(ChildFdSource::Null), (Make::Null, None));
    assert_eq!(process::make(ChildFdSource::Pipe), (Make::OneWay, Some(false)));
    assert_eq!(process::make(ChildFdSource::Duplex), (Make::Pair, Some(true)));
    assert_eq!(
        process::make(ChildFdSource::Handle(handle(4, 1))),
        (Make::Duplicate(handle(4, 1)), None)
    );
}

#[test]
fn spawning_holds_numbers_and_adopts_pipes() {
    let spec = spawn::Spec {
        detached: false,
        new_process_group: true,
        controlling_terminal: false,
        stdin: ProcessStdio::Pipe,
        stdout: ProcessStdio::Handle(handle(8, 1)),
        stderr: ProcessStdio::Inherit,
    };
    let extra = vec![ChildFd { number: 5, source: ChildFdSource::Duplex }];
    let pipes = vec![Some(handle(1, 1)), None, None];
    let handles = vec![Some(handle(2, 1))];
    let plan = spawn::plan(&spec, &extra, &pipes, &handles);
    assert_eq!(plan.error, None);
    assert_eq!(
        plan.steps,
        vec![
            spawn::Step::Share { stream: 1, source: handle(8, 1) },
            spawn::Step::Make { extra: 0, from: Make::Pair },
            spawn::Step::Lift { lifted: 0, floor: 6 },
            spawn::Step::Reserve,
            spawn::Step::Hook,
            spawn::Step::Start,
            spawn::Step::Watch { group: true },
            spawn::Step::AdoptStream { pipe: 0, under: handle(1, 1) },
            spawn::Step::AdoptExtra { end: 0, handle: handle(2, 1), connection: true },
        ]
    );
    let terminal = spawn::Spec { controlling_terminal: true, ..spec };
    let refused = spawn::plan(&terminal, &extra, &pipes, &handles);
    assert_eq!(refused.steps, vec![]);
    assert_eq!(refused.error, Some(invalid()));
    let high = vec![ChildFd { number: u32::MAX, source: ChildFdSource::Null }];
    let refused = spawn::plan(&spec, &high, &pipes, &vec![None]);
    assert_eq!(
        refused.steps,
        vec![spawn::Step::Share { stream: 1, source: handle(8, 1) }]
    );
    assert_eq!(refused.error, Some(invalid()));
}

#[test]
fn failed_spawns_release_everything() {
    let order = process::rollback(
        handle(0, 1),
        &vec![Some(handle(1, 1)), None, Some(handle(2, 1))],
        &vec![None, Some(handle(3, 1))],
    );
    for h in [handle(0, 1), handle(1, 1), handle(2, 1), handle(3, 1)] {
        assert!(order.contains(&h));
    }
    assert_eq!(order.len(), 4);
}

#[test]
fn adopted_descriptors_are_classified() {
    let socket = |family, socket_type, listening| {
        ipc::classify(Node::Socket { family, socket_type, listening })
    };
    assert_eq!(socket(SocketFamily::Local, SocketType::Stream, true), Ok(Kind::PipeListener));
    assert_eq!(socket(SocketFamily::Local, SocketType::Stream, false), Ok(Kind::Pipe));
    assert_eq!(socket(SocketFamily::Ip, SocketType::Stream, true), Ok(Kind::Listener));
    assert_eq!(socket(SocketFamily::Ip, SocketType::Datagram, false), Ok(Kind::Udp));
    assert_eq!(socket(SocketFamily::Local, SocketType::Datagram, false), Err(unsupported()));
    assert_eq!(ipc::classify(Node::Regular), Ok(Kind::File));
    assert_eq!(ipc::classify(Node::Device { terminal: true }), Ok(Kind::Stream));
    assert_eq!(ipc::classify(Node::Device { terminal: false }), Ok(Kind::File));
    assert!(ipc::restores_flags(Kind::Stream, false));
    assert!(ipc::restores_flags(Kind::File, true));
    assert!(ipc::restores_flags(Kind::Tcp, true), "an adopted socket goes as it came");
    assert!(!ipc::restores_flags(Kind::Tcp, false), "one made here had no other flags");
}

#[test]
fn passed_descriptors_tell_whether_they_listen() {
    for kind in [Kind::Tcp, Kind::Listener, Kind::Pipe, Kind::PipeListener, Kind::Udp] {
        let listens = matches!(kind, Kind::Listener | Kind::PipeListener);
        assert_eq!(ipc::received(1, ipc::marker(kind), 1, false), Ok(listens));
        assert_eq!(ipc::accept_kind(kind), Ok(kind));
    }
    assert_eq!(ipc::received(1, 0, 1, false), Err(invalid()));
    assert_eq!(ipc::received(2, ipc::LISTENER, 1, false), Err(invalid()));
    assert_eq!(ipc::received(1, ipc::LISTENER, 2, false), Err(invalid()));
    assert_eq!(ipc::received(1, ipc::LISTENER, 1, true), Err(invalid()));
    assert_eq!(ipc::accept_kind(Kind::File), Err(unsupported()));
    assert_eq!(ipc::sent(1), Ok(()));
    assert_eq!(ipc::sent(0), Err(Error::new(ErrorKind::BrokenPipe)));
    assert!(ipc::must_consume(true, true, false, true));
    assert!(!ipc::must_consume(true, true, true, true));
    assert!(!ipc::must_consume(true, false, false, true));
}

#[test]
fn file_jobs_are_delivered_once() {
    let mut files = Files::new(2);
    let read = |multishot| Request {
        op: op(1, 1),
        handle: handle(0, 1),
        operation: Operation::Read { buf: ReadBuf::Pooled, multishot },
    };
    let lease = Some(Lease { id: 4 });
    assert_eq!(files.submit(&read(true), lease, Ok(())), Err(unsupported()));
    assert_eq!(
        files.submit(&read(false), None, Ok(())),
        Err(Error::new(ErrorKind::ResourceLimit))
    );
    let busy = Error::new(ErrorKind::ResourceLimit);
    assert_eq!(files.submit(&read(false), lease, Err(busy)), Err(busy));
    assert!(files.quiescent());
    files.submit(&read(false), lease, Ok(())).expect("accepted");
    assert!(files.starts(op(1, 1)));
    assert!(!files.cancel(op(1, 2)));
    assert!(files.cancel(op(1, 1)));
    assert!(!files.starts(op(1, 1)));
    assert!(!files.quiescent());
    files.finished();
    let event: Event<u32> = files.deliver(op(1, 1), Ok(FileOutcome::Read(12)));
    assert!(event.terminal);
    assert!(matches!(event.result, Ok(Outcome::Read { n: 12, lease: Some(Lease { id: 4 }) })));
    assert!(!files.cancel(op(1, 1)));
    assert!(files.quiescent());
}

#[test]
fn file_calls_are_repeated_when_interrupted() {
    let interrupted = coded(ErrorKind::Interrupted, 4);
    let broken = coded(ErrorKind::Other, 5);
    assert_eq!(read_reply(Err(interrupted), 4), None);
    assert_eq!(read_reply(Err(broken), 4), Some(Err(broken)));
    assert_eq!(read_reply(Ok(0), 4), Some(Ok(FileOutcome::Eof)));
    assert_eq!(read_reply(Ok(7), 4), Some(Ok(FileOutcome::Read(7))));
    let mut job = WriteJob::new(vec![2, 3]);
    assert_eq!(job.next(), Some(Segment { index: 0, skip: 0, len: 2 }));
    assert_eq!(job.wrote(Err(interrupted), 4), None);
    assert_eq!(job.wrote(Ok(2), 4), None);
    assert_eq!(job.next(), Some(Segment { index: 1, skip: 0, len: 3 }));
    assert_eq!(job.wrote(Ok(1), 4), None);
    assert_eq!(job.next(), Some(Segment { index: 1, skip: 1, len: 2 }));
    assert_eq!(job.wrote(Ok(2), 4), Some(Ok(FileOutcome::Wrote(5))));
    assert_eq!(job.next(), None);
}

#[test]
fn directory_events_name_their_entry() {
    let root = b"/a/b".to_vec();
    let rename = fsevents::RENAMED;
    let modify = fsevents::MODIFIED;
    assert_eq!(
        receive(&root, false, &b"/a/b/file".to_vec(), modify),
        vec![StreamReport::Child { kind: WatchKind::Change, from: 5 }]
    );
    assert_eq!(
        receive(&root, false, &b"/a/b/dir/file".to_vec(), rename),
        vec![]
    );
    assert_eq!(
        receive(&root, true, &b"/a/b/dir/file".to_vec(), rename),
        vec![StreamReport::Child { kind: WatchKind::Rename, from: 5 }]
    );
    assert_eq!(receive(&root, true, &b"/a/bc".to_vec(), modify), vec![]);
    assert_eq!(receive(&root, true, &b"/a/c/file".to_vec(), modify), vec![]);
    assert_eq!(
        receive(&root, true, &b"/a/b".to_vec(), fsevents::ROOT_CHANGED | fsevents::DROPPED),
        vec![StreamReport::Lost, StreamReport::Own(WatchKind::Rename)]
    );
    assert_eq!(
        receive(&b"/".to_vec(), false, &b"/etc".to_vec(), modify),
        vec![StreamReport::Child { kind: WatchKind::Change, from: 1 }]
    );
    assert_eq!(root_name(&b"/a/b".to_vec()), b"b".to_vec());
}

#[test]
fn streams_publish_once_until_drained() {
    let mut streams = Streams::new();
    assert!(streams.publish(handle(1, 1), false));
    assert!(!streams.publish(handle(1, 1), true));
    assert!(streams.publish(handle(2, 1), false));
    assert!(streams.has_work());
    streams.stop(handle(2, 1));
    assert_eq!(streams.drain().into_iter().collect::<Vec<_>>(), vec![handle(1, 1)]);
    assert!(!streams.has_work());
    assert!(streams.drain().is_empty());
}

#[test]
fn queue_records_are_parsed_in_order() {
    let mut bytes = vec![];
    for (wd, mask, name) in [(3u32, 0x100u32, &b"new\0"[..]), (4, 2, &b""[..])] {
        bytes.extend_from_slice(&wd.to_le_bytes());
        bytes.extend_from_slice(&mask.to_le_bytes());
        bytes.extend_from_slice(&[0; 4]);
        bytes.extend_from_slice(&(name.len() as u32).to_le_bytes());
        bytes.extend_from_slice(name);
    }
    let records = parse(&bytes, false);
    assert_eq!(records.len(), 2);
    assert_eq!((records[0].wd, records[0].mask), (3, 0x100));
    assert_eq!(records[0].name, b"new".to_vec());
    assert_eq!(records[1].name, b"".to_vec());
    assert_eq!(kind_of(0x100), WatchKind::Rename);
    assert_eq!(kind_of(2), WatchKind::Change);
    assert_eq!(kind_of(4), WatchKind::Change);
    bytes.truncate(10);
    assert!(parse(&bytes, false).is_empty());
    let reversed = [0, 0, 0, 7, 0, 0, 0, 2, 0, 0, 0, 0, 0, 0, 0, 4, 65, 0, 0, 0].to_vec();
    let records = parse(&reversed, true);
    assert_eq!(records.len(), 1);
    assert_eq!((records[0].wd, records[0].mask), (7, 2));
    assert_eq!(records[0].name, b"A".to_vec());
    assert_eq!(basename(&b"/x/y".to_vec()), b"y".to_vec());
    assert_eq!(basename(&b"y".to_vec()), b"y".to_vec());
}

fn watch_request(o: OpId, h: Handle) -> Request {
    Request { op: o, handle: h, operation: Operation::WatchFs }
}

#[test]
fn watches_queue_once_and_share_the_pool() {
    let mut watches = Watches::new(4, 4);
    let (a, b) = (handle(0, 1), handle(1, 1));
    assert_eq!(watches.vacant(a), Ok(()));
    watches.start(a, 3).expect("first");
    watches.start(b, 3).expect("second");
    assert_eq!(watches.start(a, 3), Err(invalid()));
    watches.submit(&watch_request(op(0, 1), a)).expect("subscribe");
    watches.submit(&watch_request(op(1, 1), b)).expect("subscribe");
    assert_eq!(watches.submit(&watch_request(op(2, 1), a)), Err(invalid()));
    assert_eq!(watches.claim(a.key()), Some((0, true)));
    assert_eq!(watches.claim(handle(0, 2).key()), None);
    let out = watches.dispatch(&Record { wd: 3, mask: 0x100, name: b"new".to_vec() });
    assert_eq!(
        out,
        vec![
            Delivery { slot: 0, report: Report::Named(WatchKind::Rename) },
            Delivery { slot: 1, report: Report::Named(WatchKind::Rename) },
        ]
    );
    for delivery in out {
        watches.filled(delivery.slot, true);
        watches.filled(delivery.slot, true);
    }
    assert_eq!(watches.waiting(), 2);
    assert_eq!(watches.next(), Some((a, Some(op(0, 1)))));
    assert!(matches!(watches.serve::<u32>(Found::NoBuffer), Served::Waits));
    assert_eq!(watches.waiting(), 2);
    assert!(!watches.has_work(false, false));
    assert!(watches.has_work(false, true));
    let batch = Found::Batch { lease: Lease { id: 1 }, overflow: true, more: true };
    match watches.serve::<u32>(batch) {
        Served::Event(event) => {
            assert_eq!(event.op, op(0, 1));
            assert!(!event.terminal);
            assert!(matches!(
                event.result,
                Ok(Outcome::Watch { events: Lease { id: 1 }, overflow: true })
            ));
        }
        other => panic!("unexpected {other:?}"),
    }
    assert_eq!(watches.next().map(|n| n.0), Some(b));
    assert!(matches!(watches.serve::<u32>(Found::Empty), Served::Nothing));
    assert_eq!(watches.next().map(|n| n.0), Some(a));
}

#[test]
fn cancelled_watches_are_acknowledged_and_silent() {
    let mut watches = Watches::new(2, 2);
    let a = handle(0, 1);
    watches.start(a, 3).expect("start");
    watches.submit(&watch_request(op(1, 1), a)).expect("subscribe");
    watches.filled(0, true);
    assert!(watches.cancel(op(1, 1)));
    assert!(!watches.cancel(op(1, 1)));
    let event: Event<u32> = watches.acknowledge().expect("owed");
    assert_eq!(event.op, op(1, 1));
    assert!(matches!(event.result, Ok(Outcome::Cancelled)));
    assert!(watches.acknowledge::<u32>().is_none());
    let batch = Found::Batch { lease: Lease { id: 1 }, overflow: false, more: false };
    assert!(matches!(watches.serve::<u32>(batch), Served::Nothing));
    assert_eq!(watches.release(a), Some(3));
    assert!(!watches.contains(a));
}

#[test]
fn forgotten_numbers_match_nothing() {
    let mut watches = Watches::new(2, 2);
    let a = handle(0, 1);
    watches.start(a, 3).expect("start");
    watches.submit(&watch_request(op(0, 1), a)).expect("subscribe");
    assert!(watches.dispatch(&Record { wd: 3, mask: 0x8000, name: vec![] }).is_empty());
    assert!(watches.dispatch(&Record { wd: 3, mask: 2, name: vec![] }).is_empty());
    assert_eq!(
        watches.dispatch(&Record { wd: u32::MAX, mask: 0x4000, name: vec![] }),
        vec![Delivery { slot: 0, report: Report::Lost }]
    );
}

#[test]
fn watch_sources_depend_on_the_system() {
    assert_eq!(watch::source_of(true, false, true, false), Ok(Source::Queue));
    assert_eq!(watch::source_of(false, true, true, true), Ok(Source::Stream));
    assert_eq!(watch::source_of(false, false, false, false), Ok(Source::Node));
    assert_eq!(watch::read_outcome(Ok(32), 4, 11), Read::Records);
    assert_eq!(
        watch::read_outcome(Err(coded(ErrorKind::Interrupted, 4)), 4, 11),
        Read::Again
    );
    assert_eq!(
        watch::read_outcome(Err(coded(ErrorKind::WouldBlock, 11)), 4, 11),
        Read::Drained
    );
    assert_eq!(watch::read_outcome(Err(coded(ErrorKind::Other, 5)), 4, 11), Read::Lost);
    let known = NodeFlags { content: 0x6, identity: 0x21 };
    assert_eq!(watch::node_reports(0x22, known).len(), 2);
    assert_eq!(watch::node_reports(0x2, known), vec![WatchKind::Change]);
    assert_eq!(watch::node_reports(0x1, known), vec![WatchKind::Rename]);
    assert!(watch::node_reports(0x40, known).is_empty());
}

#[test]
fn streams_start_call_by_call() {
    let mut made = Made::default();
    let mut due = Some(stream::first(false));
    let mut calls = vec![];
    while let Some(call) = due {
        calls.push(call);
        due = stream::step(&mut made, call, true).expect("every call succeeds");
    }
    assert_eq!(
        calls,
        vec![
            StreamCall::Queue,
            StreamCall::Retain,
            StreamCall::Path,
            StreamCall::Paths,
            StreamCall::Create { since: u64::MAX, flags: 0x02 | 0x04 | 0x10 },
            StreamCall::Schedule,
            StreamCall::Start,
        ]
    );
    assert_eq!(
        stream::close(made),
        vec![
            Close::Stop,
            Close::Invalidate,
            Close::Drain,
            Close::LeaveQueue,
            Close::FreeStream,
            Close::FreePaths,
            Close::FreePath,
        ]
    );
    assert_eq!(stream::first(true), StreamCall::Retain);
}

#[test]
fn failed_stream_calls_free_what_was_made() {
    let failures = [
        (StreamCall::Queue, ErrorKind::ResourceLimit, vec![]),
        (StreamCall::Path, ErrorKind::InvalidInput, vec![Close::Drain, Close::LeaveQueue]),
        (
            StreamCall::Paths,
            ErrorKind::ResourceLimit,
            vec![Close::Drain, Close::LeaveQueue, Close::FreePath],
        ),
        (
            StreamCall::Create { since: u64::MAX, flags: 0x16 },
            ErrorKind::Other,
            vec![Close::Drain, Close::LeaveQueue, Close::FreePaths, Close::FreePath],
        ),
        (
            StreamCall::Start,
            ErrorKind::Other,
            vec![
                Close::Stop,
                Close::Invalidate,
                Close::Drain,
                Close::LeaveQueue,
                Close::FreeStream,
                Close::FreePaths,
                Close::FreePath,
            ],
        ),
    ];
    for (failing, kind, freed) in failures {
        let mut made = Made::default();
        let mut call = stream::first(false);
        let error = loop {
            match stream::step(&mut made, call, call != failing) {
                Ok(Some(next)) => call = next,
                Ok(None) => panic!("the failing call is made"),
                Err(e) => break e,
            }
        };
        assert_eq!(error, Error::new(kind));
        assert_eq!(stream::close(made), freed);
    }
}

#[test]
fn streams_are_named_after_their_root() {
    assert_eq!(stream::begin(true, Ok(b"/a/bc".to_vec())), Ok(b"bc".to_vec()));
    assert_eq!(stream::begin(true, Ok(b"/".to_vec())), Ok(b"/".to_vec()));
    assert_eq!(stream::begin(true, Ok(vec![47, 0])), Err(invalid()));
    let missing = Error { kind: ErrorKind::NotFound, os: Some(2) };
    assert_eq!(stream::begin(true, Err(missing)), Err(missing));
    assert_eq!(stream::begin(false, Ok(b"/a".to_vec())), Err(unsupported()));
}

#[test]
fn given_up_children_are_killed_until_they_are_reaped() {
    let mut child = ChildState { status: None, group: false };
    assert_eq!(child.drop_target(7), Some(7));
    let led = ChildState { status: None, group: true };
    assert_eq!(led.drop_target(7), Some(-7));
    assert_eq!(child.reap(Ok(Some(exited(0)))), Ok(Some(exited(0))));
    assert_eq!(child.drop_target(7), None);
    let mut services = Services::new(3, 3);
    services.bind(handle(0, 1), Service::Child(led));
    services.bind(handle(1, 1), Service::Signal(Signal::Hup));
    assert_eq!(services.close_target(handle(0, 1), 9), Some(-9));
    assert_eq!(services.close_target(handle(1, 1), 9), None);
    assert_eq!(services.close_target(handle(2, 1), 9), None);
    services.submit(&exit_request(op(0, 1), handle(0, 1)), false).expect("watch");
    assert!(services.cancel(op(0, 1)));
    assert_eq!(services.close_looked(handle(0, 1), Ok(Some(exited(1)))), Ok(false));
    assert_eq!(services.close_target(handle(0, 1), 9), None);
    let events = serve(&mut services, &mut vec![], || panic!("reaped already"));
    assert_eq!(events.len(), 1);
    assert!(events[0].terminal && matches!(events[0].result, Ok(Outcome::Cancelled)));
}

#[test]
fn failed_calls_undo_a_started_child() {
    let (h, pipe) = (handle(0, 1), handle(1, 1));
    let child = ChildState { status: None, group: true };
    let (pipes, none) = (vec![Some(pipe), None, None], vec![]);
    assert_eq!(spawn::on_failure(&spawn::Step::Start), spawn::Undo::Nothing);
    assert_eq!(spawn::on_failure(&spawn::Step::Watch { group: true }), spawn::Undo::Child);
    let before = spawn::cleanup(&spawn::Step::Hook, h, &pipes, &none, &child, 5);
    assert!(before.kill.is_none() && before.release.is_empty());
    let adopt = spawn::Step::AdoptStream { pipe: 0, under: pipe };
    let after = spawn::cleanup(&adopt, h, &pipes, &none, &child, 5);
    assert_eq!(after.kill, Some(-5));
    assert!(after.release.contains(&h) && after.release.contains(&pipe));
    let gone = ChildState { status: Some(exited(0)), group: true };
    assert_eq!(spawn::cleanup(&adopt, h, &pipes, &none, &gone, 5).kill, None);
}

#[test]
fn empty_payloads_are_written_at_once() {
    let job = WriteJob::new(vec![]);
    assert!(job.next().is_none());
    assert_eq!(job.finished(), Some(FileOutcome::Wrote(0)));
    let mut job = WriteJob::new(vec![0, 2]);
    assert_eq!(job.finished(), None);
    assert_eq!(job.wrote(Ok(2), 4), Some(Ok(FileOutcome::Wrote(2))));
    assert_eq!(job.finished(), Some(FileOutcome::Wrote(2)));
}

#[test]
fn buffers_without_bytes_go_back_to_the_pool() {
    let mut files = Files::new(4);
    for slot in 0..4 {
        let pooled = Operation::Read { buf: ReadBuf::Pooled, multishot: false };
        let request = Request { op: op(slot, 1), handle: handle(0, 1), operation: pooled };
        files.submit(&request, Some(Lease { id: slot }), Ok(())).expect("submit");
    }
    let failed = coded(ErrorKind::Other, 5);
    let mut results = [
        Finished { op: op(2, 1), result: Ok(FileOutcome::Read(9)) },
        Finished { op: op(0, 1), result: Ok(FileOutcome::Eof) },
        Finished { op: op(3, 1), result: Err(failed) },
        Finished { op: op(1, 1), result: Ok(FileOutcome::Cancelled) },
    ]
    .into_iter()
    .collect();
    let mut events: Completions<u32> = Completions::with_capacity(3);
    let back = files.poll(&mut results, &mut events);
    assert_eq!(back, vec![Lease { id: 0 }, Lease { id: 3 }]);
    assert_eq!((events.len(), results.len()), (3, 1), "what does not fit is kept");
    let first = &events.get(0).expect("first").result;
    assert!(matches!(first, Ok(Outcome::Read { n: 9, lease: Some(Lease { id: 2 }) })));
    let mut more: Completions<u32> = Completions::with_capacity(3);
    assert_eq!(files.poll(&mut results, &mut more), vec![Lease { id: 1 }]);
    assert!(matches!(more.get(0).expect("last").result, Ok(Outcome::Cancelled)));
}
