use std::collections::VecDeque;
use turnloop::bytes;
use turnloop::lanes::Lanes;
use turnloop::open::Stdio;
use turnloop::options;
use turnloop::options::{
    AcceptDefaults, Address, Family, KeepAlive, MulticastGroup, Name, SocketOption,
    SocketOptionKind, System, Write,
};
use turnloop::payload::{length, segments, Segment};
use turnloop::queues::{remove_handle, remove_op};
use turnloop::turn::{
    begin, next, port_timeout, port_wait_info, route, skip_port_wait, skip_wait, validate_timeout, Backend, Keys, Route, Stage, Timeout,
};
use turnloop::types::{
    invalid, unsupported, Completions, Direction, Error, ErrorKind, Event, Handle, OpId,
    Operation, Outcome, PollInfo, ReadBuf, Span,
};

fn span(secs: u64, nanos: u32) -> Span {
    Span { secs, nanos }
}

#[test]
fn handle_halves_are_slot_and_generation() {
    let h = Handle { owner: 1, key: 5 * 0x1_0000_0000 + 7 };
    assert_eq!(h.index(), 7);
    assert_eq!(h.generation(), 5);
    assert_eq!(h.key(), 5 * 0x1_0000_0000 + 7);
    assert_eq!(OpId { owner: 1, key: 2 * 0x1_0000_0000 + 3 }.index(), 3);
}

#[test]
fn reused_slot_has_another_handle() {
    let old = Handle { owner: 1, key: 7 };
    let new = Handle { owner: 1, key: 0x1_0000_0000 + 7 };
    assert_eq!(old.index(), new.index());
    assert_ne!(old.generation(), new.generation());
    assert_ne!(old, new);
}

#[test]
fn plain_errors_carry_no_code() {
    assert_eq!(invalid(), Error { kind: ErrorKind::InvalidInput, os: None });
    assert_eq!(unsupported(), Error { kind: ErrorKind::Unsupported, os: None });
    assert_eq!(Error::new(ErrorKind::WouldBlock).os, None);
}

#[test]
fn operations_have_one_direction() {
    assert_eq!(Operation::Accept { multishot: true }.direction(), Direction::In);
    assert_eq!(
        Operation::Read { buf: ReadBuf::Pooled, multishot: false }.direction(),
        Direction::In
    );
    assert_eq!(Operation::RecvFrom(ReadBuf::Provided(4)).direction(), Direction::In);
    assert_eq!(Operation::RecvHandle.direction(), Direction::In);
    assert_eq!(Operation::Write(3).direction(), Direction::Out);
    assert_eq!(Operation::Connect.direction(), Direction::Out);
    assert_eq!(Operation::Shutdown.direction(), Direction::Out);
}

#[test]
fn completions_are_bounded_and_taken_in_order() {
    let mut events: Completions<u32> = Completions::with_capacity(2);
    assert_eq!(events.len(), 0);
    assert!(events.has_room());
    events.push(Event { op: OpId { owner: 0, key: 1 }, terminal: false, result: Ok(Outcome::Eof) });
    events.push(Event { op: OpId { owner: 0, key: 2 }, terminal: true, result: Err(invalid()) });
    assert!(!events.has_room());
    assert_eq!(events.get(0).expect("first").op.key, 1);
    assert!(events.get(2).is_none());
    let all = events.take();
    assert_eq!(all.len(), 2);
    assert_eq!(all[1].op.key, 2);
    assert!(events.has_room());
}

#[test]
fn poll_info_counts_one_native_call() {
    assert_eq!(
        PollInfo::default(),
        PollInfo { waits: 0, discovery_polls: 0, zero_event_waits: 0 }
    );
    assert_eq!(
        PollInfo::native(true, true),
        PollInfo { waits: 0, discovery_polls: 1, zero_event_waits: 1 }
    );
    assert_eq!(
        PollInfo::native(false, false),
        PollInfo { waits: 1, discovery_polls: 0, zero_event_waits: 0 }
    );
    assert_eq!(
        PollInfo::waited(true),
        PollInfo { waits: 1, discovery_polls: 0, zero_event_waits: 1 }
    );
}

#[test]
fn span_counts_nanoseconds() {
    assert_eq!(span(2, 5).as_nanos(), 2_000_000_005);
    assert!(span(0, 0).is_zero());
    assert!(!span(0, 1).is_zero());
    assert_eq!(span(u64::MAX, 999_999_999).as_nanos(), 18_446_744_073_709_551_615_999_999_999);
}

#[test]
fn segments_skip_what_was_sent() {
    let lens = vec![3, 0, 4];
    assert_eq!(length(&lens), 7);
    assert_eq!(
        segments(&lens, 0),
        vec![
            Segment { index: 0, skip: 0, len: 3 },
            Segment { index: 2, skip: 0, len: 4 }
        ]
    );
    assert_eq!(segments(&lens, 5), vec![Segment { index: 2, skip: 2, len: 2 }]);
    assert_eq!(segments(&lens, 7), vec![]);
}

#[test]
fn queue_removal_keeps_the_order() {
    let h = |key| Handle { owner: 1, key };
    let mut handles: VecDeque<Handle> = VecDeque::from(vec![h(1), h(2), h(3)]);
    remove_handle(&mut handles, h(2));
    assert_eq!(handles, VecDeque::from(vec![h(1), h(3)]));
    remove_handle(&mut handles, h(9));
    assert_eq!(handles.len(), 2);
    let o = |key| OpId { owner: 1, key };
    let mut ops: VecDeque<OpId> = VecDeque::from(vec![o(1), o(2)]);
    remove_op(&mut ops, o(1));
    assert_eq!(ops, VecDeque::from(vec![o(2)]));
}

#[test]
fn lanes_are_independent_queues() {
    let mut lanes = Lanes::new(2, 4);
    assert_eq!(lanes.head(0), None);
    lanes.push(0, 3);
    lanes.push(1, 2);
    lanes.push(0, 1);
    lanes.push(0, 0);
    assert_eq!(lanes.head(0), Some(3));
    assert_eq!(lanes.head(1), Some(2));
    lanes.unlink(0, 1);
    lanes.unlink(0, 3);
    assert_eq!(lanes.head(0), Some(0));
    lanes.push(1, 3);
    assert_eq!(lanes.head(1), Some(2));
    lanes.unlink(1, 2);
    assert_eq!(lanes.head(1), Some(3));
}

#[test]
fn little_endian_fields_are_read_back() {
    let mut field = vec![0u8; 10];
    bytes::put(&mut field, 1, 0x0102_0304_0506_0708, 8);
    assert_eq!(field, vec![0, 8, 7, 6, 5, 4, 3, 2, 1, 0]);
    assert_eq!(bytes::get(&field, 1, 8), 0x0102_0304_0506_0708);
    bytes::put(&mut field, 3, 0xffff, 2);
    assert_eq!(bytes::get(&field, 3, 2), 0xffff);
    assert_eq!(bytes::get(&field, 1, 2), 0x0708);
}

#[test]
fn turn_waits_at_most_once() {
    for backend in [Backend::Readiness, Backend::Polling, Backend::Async, Backend::Port] {
        for skip in [false, true] {
            let mut stage = begin(backend);
            let mut waits = 0;
            let mut steps = 0;
            while !matches!(stage, Stage::Done { .. }) {
                if stage == Stage::Wait {
                    waits += 1;
                }
                stage = next(backend, stage, skip);
                steps += 1;
                assert!(steps <= 10);
            }
            assert_eq!(waits, if skip { 0 } else { 1 });
            assert_eq!(stage, Stage::Done { waited: !skip });
        }
    }
}

#[test]
fn turns_keep_their_order() {
    let order = |backend: Backend| {
        let mut stages = vec![begin(backend)];
        while !matches!(stages[stages.len() - 1], Stage::Done { .. }) {
            stages.push(next(backend, stages[stages.len() - 1], false));
        }
        stages
    };
    assert_eq!(
        order(Backend::Polling),
        vec![
            Stage::Cancelled,
            Stage::Run { waited: false },
            Stage::Lookups { waited: false },
            Stage::Wait,
            Stage::Run { waited: true },
            Stage::Lookups { waited: true },
            Stage::Done { waited: true },
        ]
    );
    assert_eq!(
        order(Backend::Async),
        vec![
            Stage::Cancelled,
            Stage::Files { waited: false },
            Stage::Run { waited: false },
            Stage::Wait,
            Stage::Run { waited: true },
            Stage::Done { waited: true },
        ]
    );
    assert_eq!(
        order(Backend::Port),
        vec![
            Stage::Services { waited: false },
            Stage::Run { waited: false },
            Stage::Wait,
            Stage::Services { waited: true },
            Stage::Run { waited: true },
            Stage::Done { waited: true },
        ]
    );
}

#[test]
fn work_or_completions_skip_the_wait() {
    assert!(!skip_wait(false, 0, 8));
    assert!(skip_wait(true, 0, 8));
    assert!(skip_wait(false, 1, 8));
    assert!(skip_wait(false, 0, 0));
    assert!(!skip_port_wait(2, 2, 8, false));
    assert!(skip_port_wait(2, 3, 8, false));
    assert!(skip_port_wait(8, 8, 8, false));
    assert!(skip_port_wait(2, 2, 8, true));
}

#[test]
fn port_timeouts_go_to_the_timer() {
    assert_eq!(port_timeout(Some(span(0, 7))), (Some(span(0, 7)), None));
    assert_eq!(port_timeout(Some(span(0, 0))), (None, Some(span(0, 0))));
    assert_eq!(port_timeout(None), (None, None));
}

#[test]
fn timer_packets_are_no_native_work() {
    assert_eq!(port_wait_info(&vec![], 9).zero_event_waits, 1);
    assert_eq!(port_wait_info(&vec![9, 9], 9).zero_event_waits, 1);
    assert_eq!(port_wait_info(&vec![9, 1], 9).zero_event_waits, 0);
}

#[test]
fn packets_are_told_apart_by_key() {
    let keys = Keys { wake: 1, timer: 2, bridge: 3, worker: 4 };
    assert_eq!(route(1, keys), Route::Wake);
    assert_eq!(route(2, keys), Route::Timer);
    assert_eq!(route(3, keys), Route::Bridge);
    assert_eq!(route(4, keys), Route::Worker);
    assert_eq!(route(0, keys), Route::Native);
}

#[test]
fn external_waits_take_turns_that_do_not_block() {
    assert_eq!(validate_timeout(true, Timeout::Now), Ok(()));
    assert_eq!(validate_timeout(true, Timeout::Forever), Err(invalid()));
    assert_eq!(validate_timeout(true, Timeout::Until(4)), Err(invalid()));
    assert_eq!(validate_timeout(false, Timeout::Forever), Ok(()));
}

#[test]
fn standard_streams_are_numbered() {
    assert_eq!(Stdio::Stdin.number(), 0);
    assert_eq!(Stdio::Stdout.number(), 1);
    assert_eq!(Stdio::Stderr.number(), 2);
}

#[test]
fn seconds_round_up_to_a_limit() {
    assert_eq!(options::whole_seconds(span(1, 1), 10), Ok(2));
    assert_eq!(options::whole_seconds(span(10, 0), 10), Ok(10));
    assert_eq!(options::whole_seconds(span(10, 1), 10), Err(invalid()));
    assert_eq!(options::whole_seconds(span(0, 0), 10), Ok(0));
    assert_eq!(options::positive_seconds(span(0, 0), 10), Err(invalid()));
    assert_eq!(options::positive_seconds(span(0, 1), 10), Ok(1));
}

#[test]
fn keep_alive_writes_switch_then_schedule() {
    let schedule = KeepAlive { idle: Some(span(1, 1)), interval: None, count: Some(4) };
    let plan =
        options::set(SocketOption::KeepAlive(Some(schedule)), System::Linux, Family::V4);
    assert_eq!(plan.error, None);
    assert_eq!(
        plan.writes,
        vec![
            Write::Int { name: Name::KeepAlive, value: 1 },
            Write::Int { name: Name::KeepIdle, value: 2 },
            Write::Int { name: Name::KeepCount, value: 4 },
        ]
    );
    let off = options::set(SocketOption::KeepAlive(None), System::Linux, Family::V4);
    assert_eq!(off.writes, vec![Write::Int { name: Name::KeepAlive, value: 0 }]);
}

#[test]
fn refused_schedules_write_nothing() {
    for schedule in [
        KeepAlive { idle: Some(span(0, 0)), interval: None, count: None },
        KeepAlive { idle: None, interval: Some(span(0x8000_0000, 0)), count: None },
        KeepAlive { idle: None, interval: None, count: Some(0) },
    ] {
        let plan =
            options::set(SocketOption::KeepAlive(Some(schedule)), System::Bsd, Family::V4);
        assert_eq!(plan.error, Some(invalid()));
        assert_eq!(plan.writes, vec![]);
    }
}

#[test]
fn linger_takes_the_limit_of_the_system() {
    let plan = options::set(SocketOption::Linger(Some(span(3, 5))), System::Linux, Family::V4);
    assert_eq!(plan.writes, vec![Write::Linger { on: true, seconds: 4 }]);
    let long = SocketOption::Linger(Some(span(0x1_0000, 0)));
    assert_eq!(options::set(long, System::Windows, Family::V4).error, Some(invalid()));
    assert_eq!(
        options::set(long, System::Linux, Family::V4).writes,
        vec![Write::Linger { on: true, seconds: 0x1_0000 }]
    );
    assert_eq!(
        options::set(SocketOption::Linger(None), System::Windows, Family::V4).writes,
        vec![Write::Linger { on: false, seconds: 0 }]
    );
}

#[test]
fn address_family_selects_the_option() {
    let name = |family| options::set(SocketOption::Ttl(64), System::Linux, family);
    assert_eq!(name(Family::V4).writes, vec![Write::Int { name: Name::Ttl4, value: 64 }]);
    assert_eq!(name(Family::V6).writes, vec![Write::Int { name: Name::Hops6, value: 64 }]);
    assert_eq!(name(Family::Other).error, Some(unsupported()));
    assert!(options::set_needs_family(SocketOption::Ttl(64)));
    assert!(!options::set_needs_family(SocketOption::NoDelay(true)));
    assert_eq!(
        options::set(SocketOption::MulticastTtl(256), System::Bsd, Family::V4).error,
        Some(invalid())
    );
    assert_eq!(
        options::set(SocketOption::MulticastTtl(255), System::Bsd, Family::V4).writes,
        vec![Write::Byte { name: Name::MulticastTtl4, byte: 255 }]
    );
    assert_eq!(
        options::set(SocketOption::RecvBufferSize(0x8000_0000), System::Linux, Family::V4).error,
        Some(invalid())
    );
}

#[test]
fn groups_are_joined_by_family_and_interface() {
    let v4 = |interface| {
        SocketOption::MulticastJoin(MulticastGroup {
            group: Address::V4([224, 0, 0, 9]),
            interface,
        })
    };
    assert_eq!(
        options::set(v4(0), System::Windows, Family::V4).writes,
        vec![Write::Group4 { join: true, group: [224, 0, 0, 9] }]
    );
    assert_eq!(
        options::set(v4(3), System::Linux, Family::V4).writes,
        vec![Write::Group4On { join: true, group4: [224, 0, 0, 9], index: 3 }]
    );
    assert_eq!(options::set(v4(3), System::Bsd, Family::V4).error, Some(unsupported()));
    assert_eq!(options::set(v4(0), System::Linux, Family::V6).error, Some(invalid()));
    let leave = SocketOption::MulticastLeave(MulticastGroup {
        group: Address::V6([0xff; 16]),
        interface: 8,
    });
    assert_eq!(
        options::set(leave, System::Linux, Family::V6).writes,
        vec![Write::Group6 { join: false, group6: [0xff; 16], interface: 8 }]
    );
}

#[test]
fn written_options_are_read_back() {
    let kind = SocketOptionKind::KeepAlive;
    let mut values = vec![];
    for (name, value) in [
        (Name::KeepAlive, 1),
        (Name::KeepIdle, 60),
        (Name::KeepInterval, 5),
        (Name::KeepCount, -1),
    ] {
        assert_eq!(options::next_read(kind, Family::V4, &values), Ok(Some(name)));
        values.push(value);
    }
    assert_eq!(options::next_read(kind, Family::V4, &values), Ok(None));
    assert_eq!(
        options::get(kind, Family::V4, &values),
        SocketOption::KeepAlive(Some(KeepAlive {
            idle: Some(span(60, 0)),
            interval: Some(span(5, 0)),
            count: Some(0),
        }))
    );
    assert_eq!(options::next_read(kind, Family::V4, &vec![0]), Ok(None));
    assert_eq!(options::get(kind, Family::V4, &vec![0]), SocketOption::KeepAlive(None));
    assert_eq!(
        options::next_read(SocketOptionKind::Ttl, Family::Other, &vec![]),
        Err(unsupported())
    );
    assert_eq!(
        options::get(SocketOptionKind::Linger, Family::V6, &vec![1, 9]),
        SocketOption::Linger(Some(span(9, 0)))
    );
}

#[test]
fn accept_defaults_are_tcp_options() {
    let schedule = KeepAlive { idle: None, interval: None, count: None };
    let none = AcceptDefaults { nodelay: false, keep_alive: None };
    let both = AcceptDefaults { nodelay: true, keep_alive: Some(schedule) };
    assert_eq!(options::apply_accept_defaults(none), vec![]);
    assert_eq!(
        options::apply_accept_defaults(both),
        vec![SocketOption::NoDelay(true), SocketOption::KeepAlive(Some(schedule))]
    );
    assert_eq!(options::validate_accept_defaults(both, true), Ok(()));
    assert_eq!(options::validate_accept_defaults(both, false), Err(unsupported()));
    assert_eq!(options::validate_accept_defaults(none, false), Ok(()));
}
