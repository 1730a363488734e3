use turnloop::open::{ListenOpts, Open, ReusePort, Stdio};
use turnloop::options::{AcceptDefaults, KeepAlive, SocketOption, SocketOptionKind};
use turnloop::payload::Segment;
use turnloop::readiness::engine::{Engine, Step as EngineStep};
use turnloop::readiness::io::{Kind, Reply as Answered, Rules};
use turnloop::types::{
    invalid, unsupported, Completions, Direction, Endpoint, Error, ErrorKind, Event, Handle, OpId, Operation,
    Lease, Outcome, PollInfo, ReadBuf, Request, Span, Wake,
};
use turnloop::wasi::abi;
use turnloop::wasi::abi::{Arena as Params, NewTimestamp, Placed, Scratch, StreamRead, Text};
use turnloop::wasi::cancel;
use turnloop::wasi::drive;
use turnloop::wasi::drive::{Ack, Driven};
use turnloop::wasi::errors;
use turnloop::wasi::errors::Code;
use turnloop::wasi::files::Files;
use turnloop::wasi::layouts;
use turnloop::wasi::layouts::{EntryStep, Granted};
use turnloop::wasi::lookup_trace;
use turnloop::wasi::lookups::{Answer, Ip, Lookups, Step as LookupStep};
use turnloop::wasi::options;
use turnloop::wasi::options::{Setting, Socket};
use turnloop::wasi::p2;
use turnloop::wasi::p3;
use turnloop::wasi::p3::{
    After, Cleanup, Finish, Issue, Packed, StepEvent, StreamState, Wait, WaitKind,
};
use turnloop::wasi::paths::{relative, resolve, Place};
use turnloop::wasi::requests;
use turnloop::wasi::requests::{
    Call, Entry, FileOptions, FileTime, FileType, FsOutput, FsRequest, Next, Object, Phase, Reply,
    TimeChange,
};
use turnloop::wasi::run::Step as RunStep;
use turnloop::wasi::return_storage::{
    grown, scoped, Arena, Place as Storage, ReturnBytes, Scope,
};

fn handle(slot: u64, generation: u64) -> Handle {
    Handle { owner: 1, key: (generation << 32) | slot }
}

fn op(slot: u64, generation: u64) -> OpId {
    OpId { owner: 1, key: (generation << 32) | slot }
}

fn span(secs: u64, nanos: u32) -> Span {
    Span { secs, nanos }
}

fn slot(place: Storage) -> usize {
    match place {
        Storage::Slot(index) => index,
        other => panic!("unexpected {other:?}"),
    }
}

fn all(arena: &Arena, list: &ReturnBytes, n: usize, byte: u8) -> bool {
    (0..n).all(|i| arena.byte(list, i) == byte)
}

#[test]
fn pending_lists_keep_distinct_storage_across_scopes_and_owners() {
    let mut arena = Arena::new();
    arena.reserve();
    arena.reserve();
    let mut scope = Scope { active: false };
    let previous = scope.enter(true);
    let a = arena.cabi_realloc(scope.active, Storage::Dangling, 0, 1, 65536);
    let b = arena.cabi_realloc(scope.active, Storage::Dangling, 0, 1, 65536);
    scope.leave(previous);
    assert!(!scope.active);
    assert_ne!(a, b);
    arena.write(slot(a), &vec![0x31; 65536]);
    arena.write(slot(b), &vec![0x92; 65536]);
    arena.unreserve();
    let a_list = arena.take(a, 65536, vec![]);
    let b_list = arena.take(b, 65536, vec![]);
    assert!(all(&arena, &a_list, 65536, 0x31));
    assert!(all(&arena, &b_list, 65536, 0x92));
    arena.discard(a_list);
    let reused = arena.cabi_realloc(true, Storage::Dangling, 0, 1, 17);
    assert_eq!(reused, a);
    assert!(all(&arena, &b_list, 65536, 0x92));
    arena.write(slot(reused), &vec![0x74; 17]);
    let short = arena.take(reused, 17, vec![]);
    arena.discard(short);
    arena.discard(b_list);
    arena.unreserve();
    assert_eq!(arena.cabi_realloc(true, Storage::Dangling, 0, 1, 1), a);
}

#[test]
fn error_strings_and_exceptional_growth_return_owned_storage() {
    let mut arena = Arena::new();
    arena.reserve();
    let place = arena.cabi_realloc(true, Storage::Dangling, 0, 1, 17);
    arena.write(slot(place), &vec![b'x'; 17]);
    let lifted = p3::socket_result([1, 14, 1, 0x2000, 17]);
    assert_eq!(lifted.result.expect_err("Other string").kind, ErrorKind::Other);
    assert_eq!(lifted.text, Some(Text { pointer: 0x2000, len: 17 }));
    let text = arena.take(place, 17, vec![]);
    arena.discard(text);
    let reused = arena.cabi_realloc(true, Storage::Dangling, 0, 1, 17);
    assert_eq!(reused, place);
    arena.write(slot(reused), &vec![0x58; 17]);
    let moved = arena.cabi_realloc(true, reused, 17, 1, 65537);
    assert_ne!(moved, reused);
    let mut heap = grown(&vec![0x58; 17], 65537);
    for byte in &mut heap[17..] {
        *byte = 0x39;
    }
    let bytes = arena.take(moved, 65537, heap);
    assert!(all(&arena, &bytes, 17, 0x58));
    assert!((17..65537).all(|i| arena.byte(&bytes, i) == 0x39));
    let fixed = p3::socket_result([1, 9, 0, 0, 0]);
    assert_eq!(fixed.result.expect_err("refused").kind, ErrorKind::ConnectionRefused);
    assert_eq!(fixed.text, None);
    match arena.take(Storage::Dangling, 0, vec![]) {
        ReturnBytes::Heap(empty) => assert!(empty.is_empty()),
        other => panic!("unexpected {other:?}"),
    }
    assert!(p3::socket_result([0, 0, 0, 0, 0]).result.is_ok());
}

#[test]
fn lists_outside_a_scope_are_heap_memory() {
    let mut arena = Arena::new();
    arena.reserve();
    assert_eq!(arena.cabi_realloc(false, Storage::Dangling, 0, 1, 10), Storage::Heap);
    assert_eq!(arena.cabi_realloc(true, Storage::Dangling, 0, 4, 10), Storage::Heap);
    assert_eq!(arena.cabi_realloc(true, Storage::Dangling, 0, 1, 0), Storage::Dangling);
    assert_eq!(arena.cabi_realloc(true, Storage::Dangling, 0, 1, 65537), Storage::Heap);
    let first = arena.cabi_realloc(true, Storage::Dangling, 0, 1, 10);
    assert_eq!(arena.locate(first), Some(0));
    assert_eq!(arena.cabi_realloc(true, Storage::Dangling, 0, 1, 10), Storage::Heap);
    assert_eq!(arena.cabi_realloc(true, first, 10, 1, 65536), first);
    arena.release(0);
    let mut scope = Scope { active: false };
    let seen = scoped(&mut scope, true, |mut outer| {
        let inner = scoped(&mut outer, false, |inner| inner.active);
        (outer.active, inner)
    });
    assert_eq!(seen, (true, false));
    assert!(!scope.active);
    assert!(scoped(&mut scope, true, |again| again.active));
}

#[test]
fn addresses_are_laid_out_and_read_back() {
    let v4 = Endpoint::V4 { ip: [10, 1, 2, 3], port: 0x1234 };
    let v6 = Endpoint::V6 { segments: [1, 2, 3, 4, 5, 6, 7, 0xabcd], port: 9, flow: 10, scope: 11 };
    let bytes = abi::encode_addr(&v4);
    assert_eq!(bytes[..10], [0, 0, 0, 0, 0x34, 0x12, 10, 1, 2, 3]);
    assert_eq!(abi::decode_addr(&bytes), v4);
    let bytes = abi::encode_addr(&v6);
    assert_eq!(bytes.len(), abi::ADDRESS);
    assert_eq!(abi::decode_addr(&bytes), v6);
    let datagram = abi::encode_datagram(0x100, 5, &v4);
    assert_eq!(datagram[..13], [0, 1, 0, 0, 5, 0, 0, 0, 1, 0, 0, 0, 0]);
    assert_eq!(datagram.len(), 44);
}

#[test]
fn datagram_results_are_judged() {
    assert_eq!(abi::sent(0, 1, 7), Ok(7));
    assert_eq!(abi::sent(0, 0, 7), Err(Error::new(ErrorKind::WouldBlock)));
    assert_eq!(abi::sent(1, 0, 7), Err(Error::new(ErrorKind::Other)));
    assert_eq!(abi::received(0, 1, 7, 4), Ok(4));
    assert_eq!(abi::received(0, 1, 3, 4), Ok(3));
    assert_eq!(abi::received(0, 0, 3, 4), Err(Error::new(ErrorKind::WouldBlock)));
    assert_eq!(abi::stream_result([0, 0x40, 12]), StreamRead::Bytes(12));
    assert_eq!(abi::stream_result([1, 0, 9]), StreamRead::Failed(9));
    assert_eq!(abi::stream_result([1, 1, 9]), StreamRead::Closed);
}

#[test]
fn import_lists_are_aligned_and_apart() {
    let mut params = Params { len: 32, used: 0 };
    assert_eq!(params.place(1, 3), Some(0));
    assert_eq!(params.place(4, 8), Some(4));
    assert_eq!(params.used, 12);
    assert_eq!(params.place(2, 0), None);
}

#[test]
fn file_results_are_lifted() {
    let mut bytes = vec![0u8; 112];
    bytes[8] = 5;
    bytes[24] = 2;
    bytes[32] = 200;
    bytes[64] = 1;
    bytes[72] = 60;
    bytes[80] = 7;
    let lifted = abi::stat_result(&bytes);
    let metadata = lifted.result.expect("found");
    assert_eq!(metadata.kind, FileType::File);
    assert_eq!((metadata.links, metadata.size), (Some(2), 200));
    assert_eq!(metadata.accessed, None);
    assert_eq!(metadata.modified, Some(FileTime { seconds: 60, nanoseconds: 7 }));
    assert_eq!(abi::kind(2), FileType::Directory);
    assert_eq!(abi::kind(99), FileType::Unknown);
    let mut failed = vec![0u8; 20];
    assert!(abi::unit(&failed).is_ok());
    failed[0] = 1;
    failed[4] = 19;
    let (error, text) = abi::unit(&failed).expect_err("no entry");
    assert_eq!(error, Error { kind: ErrorKind::NotFound, os: Some(errors::ENOENT) });
    assert_eq!(text, None);
    failed[4] = 36;
    failed[8] = 1;
    failed[12] = 0x10;
    failed[16] = 3;
    let (error, text) = abi::unit(&failed).expect_err("another");
    assert_eq!(error.os, Some(errors::EIO));
    assert_eq!(text, Some(Text { pointer: 0x10, len: 3 }));
    assert_eq!(
        abi::encode_open(3, true, 0x20, 4, 1, 2),
        vec![3, 0, 0, 0, 1, 0, 0, 0, 0x20, 0, 0, 0, 4, 0, 0, 0, 1, 2, 0, 0]
    );
    let times = abi::encode_times(3, TimeChange::Keep, TimeChange::Now);
    assert_eq!(times.len(), 56);
    assert_eq!((times[8], times[32]), (0, 1));
    let at = TimeChange::At(FileTime { seconds: -1, nanoseconds: 5 });
    let times = abi::encode_times_at(3, false, 0, 0, at, TimeChange::Keep);
    assert_eq!(times[16], 2);
    assert_eq!(times[24..32], [0xff; 8]);
    assert_eq!(times[32], 5);
    assert_eq!(abi::new_timestamp(at).expect_err("before the epoch").os, Some(errors::EINVAL));
    let later = TimeChange::At(FileTime { seconds: 4, nanoseconds: 5 });
    assert_eq!(
        abi::new_timestamp(later),
        Ok(NewTimestamp::At { seconds: 4, nanoseconds: 5 })
    );
    assert_eq!(abi::new_timestamp(TimeChange::Now), Ok(NewTimestamp::Now));
}

#[test]
fn both_interfaces_number_errors_alike() {
    assert_eq!(errors::errno(0), errors::EACCES);
    assert_eq!(errors::errno(19), errors::ENOENT);
    assert_eq!(errors::errno(200), errors::EIO);
    assert_eq!(errors::errno_of(Code::Access), errors::EACCES);
    assert_eq!(errors::errno_of(Code::WouldBlock), errors::EAGAIN);
    assert_eq!(errors::errno_of(Code::CrossDevice), 75);
    assert_eq!(errors::error(errors::EPERM).kind, ErrorKind::PermissionDenied);
    assert_eq!(errors::error(errors::ENOTEMPTY).kind, ErrorKind::DirectoryNotEmpty);
    assert_eq!(errors::error(errors::ENOSPC).kind, ErrorKind::ResourceLimit);
    assert_eq!(errors::error(12345), Error { kind: ErrorKind::Other, os: Some(12345) });
}

#[test]
fn requests_of_a_handle_run_in_order() {
    let mut files = Files::new(2, 4);
    let h = handle(1, 1);
    let open = FsRequest::OpenDir { path: b"/".to_vec() };
    assert_eq!(files.submit(op(0, 1), Some(h), &FsRequest::Fstat), Err(invalid()));
    files.submit(op(0, 1), Some(h), &open).expect("open");
    let (p, _) = files.next().expect("ready");
    assert_eq!(p.op, op(0, 1));
    files.set_object(h, Some(Object::File { cursor: 0, append: false }));
    assert_eq!(files.finish(), op(0, 1));
    let read = FsRequest::Read { pooled: true, offset: None };
    files.submit(op(2, 1), Some(h), &read).expect("read");
    files.submit(op(1, 1), Some(h), &FsRequest::Fstat).expect("stat");
    files.submit(op(3, 1), None, &FsRequest::Mkdir { path: b"/d".to_vec() }).expect("mkdir");
    assert_eq!(files.submit(op(3, 2), None, &FsRequest::Fstat), Err(invalid()));
    assert_eq!(
        files.submit(op(0, 2), Some(h), &FsRequest::Chmod),
        Err(unsupported())
    );
    assert_eq!(files.next().expect("ready").0.op, op(2, 1));
    files.park();
    assert_eq!(files.finish(), op(3, 1));
    assert!(!files.has_work(false));
    assert!(files.has_work(true));
    files.wake();
    assert_eq!(files.finish(), op(2, 1));
    assert_eq!(files.finish(), op(1, 1));
    assert_eq!(files.object(h), Some(Object::File { cursor: 0, append: false }));
    files.release(h);
    assert_eq!(files.object(h), None);
}

#[test]
fn cancelled_requests_never_run() {
    let mut files = Files::new(1, 2);
    let make = FsRequest::Mkdir { path: b"/d".to_vec() };
    files.submit(op(0, 1), None, &make).expect("first");
    files.submit(op(1, 1), None, &make).expect("second");
    assert!(files.cancel(op(0, 1)));
    assert!(!files.cancel(op(0, 1)));
    assert_eq!(files.finish(), op(1, 1));
    assert!(files.next().is_none());
    let event: Event<u32> = files.acknowledge().expect("owed");
    assert_eq!(event.op, op(0, 1));
    assert!(matches!(event.result, Ok(Outcome::Cancelled)));
    assert!(files.acknowledge::<u32>().is_none());
}

fn names() -> Vec<Vec<u8>> {
    vec![b"/".to_vec(), b"/data/".to_vec(), b".".to_vec()]
}

#[test]
fn longest_granted_directory_wins() {
    let place = |path: &[u8]| resolve(&names(), &path.to_vec());
    assert_eq!(place(b"/data/x"), Some(Place { directory: 1, from: 6 }));
    assert_eq!(place(b"/database"), Some(Place { directory: 0, from: 1 }));
    assert_eq!(place(b"/data"), Some(Place { directory: 1, from: 5 }));
    assert_eq!(place(b"./x"), Some(Place { directory: 2, from: 2 }));
    assert_eq!(place(b"x"), Some(Place { directory: 2, from: 0 }));
    assert_eq!(resolve(&vec![b"/data".to_vec()], &b"/etc".to_vec()), None);
}

fn call(next: Next) -> (Phase, Call) {
    match next {
        Next::Call { phase, call } => (phase, call),
        other => panic!("unexpected {other:?}"),
    }
}

#[test]
fn reads_follow_each_other() {
    let read = FsRequest::Read { pooled: false, offset: None };
    let file = Some(Object::File { cursor: 5, append: false });
    let step = requests::start(&names(), &read, file);
    let (phase, made) = call(step.next);
    assert_eq!(made, Call::Read { at: 5 });
    let done =
        requests::resume(&names(), &read, step.object, phase, made, Reply::Moved { n: 7, eof: false });
    assert_eq!(done.next, Next::End(Ok(FsOutput::Read(7))));
    assert_eq!(done.object, Some(Object::File { cursor: 12, append: false }));
    let at = FsRequest::Read { pooled: false, offset: Some(100) };
    let (phase, made) = call(requests::start(&names(), &at, done.object).next);
    assert_eq!(made, Call::Read { at: 100 });
    let kept =
        requests::resume(&names(), &at, done.object, phase, made, Reply::Moved { n: 7, eof: false });
    assert_eq!(kept.object, done.object);
}

#[test]
fn closed_handles_make_no_call() {
    let close = FsRequest::Close;
    let file = Some(Object::File { cursor: 0, append: true });
    let step = requests::start(&names(), &close, file);
    assert_eq!(step.next, Next::End(Ok(FsOutput::Done)));
    assert_eq!(step.object, Some(Object::Closed));
    let again = requests::start(&names(), &close, step.object);
    match again.next {
        Next::End(Err(e)) => assert_eq!(e.os, Some(errors::EBADF)),
        other => panic!("unexpected {other:?}"),
    }
    let write = FsRequest::Write { offset: None };
    assert_eq!(call(requests::start(&names(), &write, file).next).1, Call::Append);
}

#[test]
fn copies_keep_their_offsets() {
    let copy = FsRequest::CopyFile {
        path: b"/a".to_vec(),
        new_path: b"/b".to_vec(),
        exclusive: false,
    };
    let step = requests::start(&names(), &copy, None);
    let (phase, source) = call(step.next);
    assert_eq!(phase, Phase::CopySource);
    let step = requests::resume(&names(), &copy, None, phase, source, Reply::Done);
    let (phase, target) = call(step.next);
    match target {
        Call::OpenAt { options, directory, .. } => {
            assert!(options.write && options.create && options.truncate && !options.read);
            assert!(!directory);
        }
        other => panic!("unexpected {other:?}"),
    }
    let step = requests::resume(&names(), &copy, None, phase, target, Reply::Done);
    let (phase, made) = call(step.next);
    assert_eq!(made, Call::CopyRead { at: 0 });
    let read = Reply::Moved { n: 10, eof: false };
    let step = requests::resume(&names(), &copy, None, phase, made, read);
    let (phase, made) = call(step.next);
    assert_eq!(made, Call::CopyWrite { at: 0, from: 0, to: 10 });
    let part = Reply::Moved { n: 4, eof: false };
    let step = requests::resume(&names(), &copy, None, phase, made, part);
    let (phase, made) = call(step.next);
    assert_eq!(made, Call::CopyWrite { at: 4, from: 4, to: 10 });
    let rest = Reply::Moved { n: 6, eof: false };
    let step = requests::resume(&names(), &copy, None, phase, made, rest);
    let (phase, made) = call(step.next);
    assert_eq!(made, Call::CopyRead { at: 10 });
    let end = Reply::Moved { n: 0, eof: true };
    let step = requests::resume(&names(), &copy, None, phase, made, end);
    assert_eq!(step.next, Next::End(Ok(FsOutput::Done)));
    let missing = requests::start(&vec![], &copy, None);
    assert!(matches!(missing.next, Next::End(Err(e)) if e.kind == ErrorKind::NotFound));
}

#[test]
fn directories_are_listed_without_their_dots() {
    let list = FsRequest::ReadDir { pooled: true };
    let fresh = Some(Object::Dir { listed: false, pending: None, done: false });
    let step = requests::start(&names(), &list, fresh);
    let (phase, made) = call(step.next);
    assert_eq!(made, Call::Entries);
    let step = requests::resume(&names(), &list, step.object, phase, made, Reply::Done);
    let (phase, made) = call(step.next);
    assert_eq!(made, Call::NextEntry);
    let dot = Reply::Entry(Some(Entry { kind: FileType::Directory, special: true }));
    let step = requests::resume(&names(), &list, step.object, phase, made, dot);
    let (phase, made) = call(step.next);
    assert_eq!(made, Call::NextEntry);
    let file = Reply::Entry(Some(Entry { kind: FileType::File, special: false }));
    let step = requests::resume(&names(), &list, step.object, phase, made, file);
    let (phase, made) = call(step.next);
    assert_eq!(made, Call::Put { used: 0 });
    let step = requests::resume(&names(), &list, step.object, phase, made, Reply::Stored(Some(20)));
    let (phase, made) = call(step.next);
    assert_eq!(phase, Phase::Listing { used: 20 });
    let step = requests::resume(&names(), &list, step.object, phase, made, Reply::Entry(None));
    assert_eq!(step.next, Next::End(Ok(FsOutput::Directory { n: 20, eof: true })));
    assert!(requests::special(&b"..".to_vec()));
    assert!(!requests::special(&b"...".to_vec()));
}

#[test]
fn open_flags_follow_the_options() {
    let options = FileOptions::default();
    assert_eq!(requests::open_flags(options, true), Ok((2, 1)));
    let new = FileOptions { read: false, append: true, exclusive: true, sync: true, ..options };
    assert_eq!(requests::open_flags(new, false), Ok((5, 6)));
    let none = FileOptions { read: false, ..options };
    assert_eq!(requests::open_flags(none, false), Err(invalid()));
    assert!(!FsRequest::RealPath.supported());
    assert!(FsRequest::Access { path: vec![], existence: true }.supported());
    assert!(!FsRequest::Access { path: vec![], existence: false }.supported());
    assert!(FsRequest::OpenDir { path: vec![] }.opens());
    assert!(FsRequest::OpenDir { path: vec![] }.needs_preopens());
    assert!(!FsRequest::Close.needs_preopens());
    assert!(!FsRequest::Read { pooled: true, offset: None }.needs_preopens());
    assert!(FsRequest::ReadDir { pooled: true }.pooled());
}

#[test]
fn lookups_keep_the_order_of_their_answers() {
    let mut lookups = Lookups::new(2);
    let o = op(1, 1);
    assert_eq!(lookups.check(op(5, 1), false), Err(Error::new(ErrorKind::ResourceLimit)));
    assert_eq!(lookups.check(o, true), Err(invalid()));
    lookups.check(o, false).expect("free");
    lookups.start(o, 443);
    assert_eq!(lookups.check(o, false), Err(invalid()));
    assert_eq!(lookups.interests(), vec![1]);
    assert_eq!(lookups.next_ready(0), Some(1));
    let first = Answer::Address(Ip::V4([10, 0, 0, 1]));
    assert!(matches!(lookups.answer::<u32>(1, first, 0), LookupStep::More));
    assert!(matches!(lookups.answer::<u32>(1, Answer::Blocked, 1), LookupStep::Stop));
    assert_eq!(lookups.next_ready(0), None);
    lookups.mark(1);
    let second = Answer::Address(Ip::V6([0, 0, 0, 0, 0, 0, 0, 1]));
    assert!(matches!(lookups.answer::<u32>(1, second, 0), LookupStep::More));
    match lookups.answer::<u32>(1, Answer::End, 1) {
        LookupStep::Report(Event { op: found, terminal: true, result: Ok(Outcome::Resolved(all)) }) => {
            assert_eq!(found, o);
            assert_eq!(
                all,
                vec![
                    Endpoint::V4 { ip: [10, 0, 0, 1], port: 443 },
                    Endpoint::V6 {
                        segments: [0, 0, 0, 0, 0, 0, 0, 1],
                        port: 443,
                        flow: 0,
                        scope: 0
                    },
                ]
            );
        }
        other => panic!("unexpected {other:?}"),
    }
    assert!(!lookups.cancel(o));
    lookups.start(o, 1);
    assert!(lookups.cancel(o));
}

#[test]
fn component_options_are_few() {
    let schedule = KeepAlive { idle: Some(span(1, 0)), interval: None, count: Some(2) };
    assert_eq!(
        options::set(SocketOption::KeepAlive(Some(schedule)), Socket::Tcp),
        Ok(vec![Setting::KeepAlive(true), Setting::IdleTime(1_000_000_000), Setting::Count(2)])
    );
    assert_eq!(
        options::set(SocketOption::KeepAlive(None), Socket::Udp),
        Err(unsupported())
    );
    assert_eq!(options::set(SocketOption::Ttl(0), Socket::Tcp), Err(invalid()));
    assert_eq!(options::set(SocketOption::Ttl(64), Socket::Udp), Ok(vec![Setting::Hops(64)]));
    assert_eq!(options::set(SocketOption::NoDelay(true), Socket::Tcp), Err(unsupported()));
    assert_eq!(options::nonzero(span(0, 0)), Err(invalid()));
    assert_eq!(options::nonzero(span(u64::MAX, 0)), Err(invalid()));
    assert_eq!(options::bytes(1 << 40), u32::MAX);
    assert_eq!(options::from_nanos(2_500_000_000), span(2, 500_000_000));
    assert_eq!(options::schedule(false, 1, 1, 1), None);
    assert_eq!(
        options::schedule(true, 1_000_000_000, 5, 6),
        Some(KeepAlive { idle: Some(span(1, 0)), interval: Some(span(0, 5)), count: Some(6) })
    );
    assert_eq!(options::readable(SocketOptionKind::Ttl, Socket::Udp), Ok(()));
    assert_eq!(options::readable(SocketOptionKind::KeepAlive, Socket::Udp), Err(unsupported()));
    let nodelay = AcceptDefaults { nodelay: true, keep_alive: None };
    assert_eq!(options::validate_accept_defaults(nodelay), Err(unsupported()));
    let probing = AcceptDefaults { nodelay: false, keep_alive: Some(schedule) };
    assert_eq!(options::validate_accept_defaults(probing), Ok(()));
    assert_eq!(options::apply_accept_defaults(probing).expect("settings").len(), 3);
}

#[test]
fn polling_component_opens_at_once() {
    let none = AcceptDefaults { nodelay: false, keep_alive: None };
    let addr = Endpoint::V6 { segments: [0; 8], port: 80, flow: 0, scope: 0 };
    let opts = ListenOpts { backlog: 9, reuse_port: ReusePort::No, accept_defaults: none };
    let plan = p2::plan(&Open::Listener { addr, opts });
    assert_eq!(
        plan.steps,
        vec![
            p2::Step::CreateTcp { v6: true },
            p2::Step::Backlog(9),
            p2::Step::StartBind(addr),
            p2::Step::FinishBind,
            p2::Step::StartListen,
            p2::Step::FinishListen,
        ]
    );
    assert_eq!(plan.outcome.expect("listens").kind, Kind::Listener);
    let shared = ListenOpts { reuse_port: ReusePort::Share, ..opts };
    assert_eq!(p2::plan(&Open::Listener { addr, opts: shared }).outcome, Err(unsupported()));
    assert_eq!(p2::plan(&Open::Pipe(vec![])).outcome, Err(unsupported()));
    assert_eq!(
        p2::plan(&Open::Stdio(Stdio::Stdin)).outcome.expect("stream").kind,
        Kind::Stdin
    );
    assert_eq!(p2::net_error(p2::NetCode::WouldBlock).kind, ErrorKind::WouldBlock);
    assert_eq!(p2::net_error(p2::NetCode::NewSocketLimit).kind, ErrorKind::ResourceLimit);
    assert_eq!(p2::stream_error(true).kind, ErrorKind::BrokenPipe);
    assert_eq!(p2::stream_error(false).kind, ErrorKind::Other);
    assert_eq!(p2::WasiWake.wake(), Ok(()));
    assert_eq!(p2::WasiWake.syscall_count(), 0);
}

#[test]
fn poll_results_find_their_owner() {
    let sockets = vec![(handle(0, 1), Direction::In), (handle(0, 1), Direction::Out)];
    let lookups = vec![3];
    assert_eq!(p2::owner(1, &sockets, &lookups), p2::PollOwner::Socket(handle(0, 1), Direction::Out));
    assert_eq!(p2::owner(2, &sockets, &lookups), p2::PollOwner::Lookup(3));
    assert_eq!(p2::owner(3, &sockets, &lookups), p2::PollOwner::Deadline);
    assert_eq!(p2::poll_slots(4, 5), Ok(14));
    assert_eq!(
        p2::poll_slots(usize::MAX, 0),
        Err(Error::new(ErrorKind::ResourceLimit))
    );
    assert!(p2::check_wait(0, 0, true).is_ok());
    assert_eq!(p2::check_wait(0, 0, false), Err(unsupported()));
    assert_eq!(p2::clock_nanos(span(1, 5)), 1_000_000_005);
    assert_eq!(p2::clock_nanos(span(u64::MAX, 0)), u64::MAX);
}

fn streams() -> StreamState {
    StreamState {
        open: true,
        writer: true,
        read_closed: false,
        read_result: None,
        write_result: None,
    }
}

#[test]
fn waits_end_with_an_acknowledgement() {
    let (wait, joins) = p3::start(WaitKind::Send, 7, 1);
    assert!(joins);
    let mut waits = vec![None, Some(wait)];
    assert!(p3::pauses(&waits[1]));
    assert_eq!(p3::completed(&mut waits, 9, 2), None);
    assert_eq!(p3::completed(&mut waits, 7, 1), Some(1));
    assert_eq!(p3::finish_wait(&mut waits[1]), Finish::Waiting);
    assert_eq!(p3::completed(&mut waits, 7, 2), Some(1));
    assert_eq!(
        p3::finish_wait(&mut waits[1]),
        Finish::Finished { kind: WaitKind::Send, code: 2, leave: true, drop: true }
    );
    assert_eq!(p3::finish_wait(&mut waits[1]), Finish::Idle);
    let (wait, joins) = p3::start(WaitKind::Read, 4, p3::BLOCKED);
    assert!(joins && wait.code.is_none());
    let (wait, joins) = p3::start(WaitKind::Read, 4, 0x50);
    assert!(!joins && wait.code == Some(0x50));
    assert!(p3::is_subtask(WaitKind::Connect) && !p3::is_subtask(WaitKind::Accept));
    let held = Wait { waitable: 4, kind: WaitKind::Receive, code: Some(1) };
    let stop = p3::quiesce(held);
    assert!(stop.leave && stop.drop && stop.code.is_none());
    assert_eq!(p3::cleanup(WaitKind::Receive, 2), Cleanup::DropDatagram);
    assert_eq!(p3::cleanup(WaitKind::Accept, 0x10), Cleanup::DropSocket);
    assert_eq!(p3::cleanup(WaitKind::Read, 1), Cleanup::Closed);
    assert_eq!(p3::cleanup(WaitKind::Write, 1), Cleanup::Nothing);
}

#[test]
fn acknowledgements_tell_what_follows() {
    let refused = Error::new(ErrorKind::ConnectionRefused);
    assert_eq!(p3::after(WaitKind::Connect, 2, Ok(()), 0), After::Connected);
    assert_eq!(p3::after(WaitKind::Connect, 2, Err(refused), 0), After::Failed(refused));
    assert_eq!(p3::after(WaitKind::Read, 0x50, Ok(()), 0), After::Read(5));
    assert_eq!(p3::after(WaitKind::Read, 1, Ok(()), 0), After::Closed);
    assert_eq!(p3::after(WaitKind::Write, 0x30, Ok(()), 4), After::Again(7));
    assert_eq!(
        p3::after(WaitKind::Write, 0x31, Ok(()), 4),
        After::Failed(Error::new(ErrorKind::BrokenPipe))
    );
    assert_eq!(p3::stream_written(4, 10, 0x20), (6, true));
    assert_eq!(p3::stream_written(4, 10, 0x60), (10, false));
    assert_eq!(p3::unpack(0x72), Packed { task: 7, status: 2 });
}

#[test]
fn streams_end_once() {
    let read = Operation::Read { buf: ReadBuf::Pooled, multishot: false };
    assert_eq!(p3::issue(&read, 0, false, &streams()), Issue::StartRead);
    let closed = StreamState { read_closed: true, ..streams() };
    assert_eq!(p3::issue(&read, 0, false, &closed), Issue::StartReadDone);
    let ended = StreamState { read_result: Some(Ok(())), ..closed };
    assert_eq!(p3::issue(&read, 0, false, &ended), Issue::Done);
    let write = Operation::Writev(vec![2, 3]);
    assert_eq!(
        p3::issue(&write, 2, false, &streams()),
        Issue::StartWrite { part: Segment { index: 1, skip: 0, len: 3 }, len: 3 }
    );
    assert_eq!(p3::issue(&write, 5, false, &streams()), Issue::Done);
    let dropped = StreamState { writer: false, ..streams() };
    assert_eq!(
        p3::issue(&write, 0, false, &dropped),
        Issue::Failed(Error::new(ErrorKind::BrokenPipe))
    );
    assert_eq!(p3::issue(&Operation::Connect, 0, false, &streams()), Issue::Failed(invalid()));
    assert_eq!(p3::issue(&Operation::Connect, 0, true, &streams()), Issue::StartConnect);
    let to = Endpoint::V4 { ip: [0; 4], port: 1 };
    let long = Operation::SendTo { len: 65536, to };
    assert_eq!(p3::issue(&long, 0, false, &streams()), Issue::Failed(invalid()));
}

#[test]
fn deadlines_end_a_wait_and_are_no_work() {
    let deadline = Packed { task: 5, status: 1 };
    assert!(p3::joins(deadline));
    assert!(!p3::joins(Packed { task: 5, status: 2 }));
    assert_eq!(p3::deadline_at(10, span(0, 5)), 15);
    assert_eq!(p3::deadline_at(10, span(u64::MAX, 0)), u64::MAX);
    let plan = p3::plan_wait(Some(span(1, 0)), Some(deadline), false).expect("ends");
    assert!(plan.blocking && !plan.yields);
    let look = p3::plan_wait(Some(span(0, 0)), None, true).expect("ends");
    assert!(!look.blocking && look.yields);
    assert_eq!(p3::plan_wait(None, None, false), Err(unsupported()));
    let expired = StepEvent { kind: 1, waitable: 5, code: 2 };
    let next = p3::waited(expired, Some(deadline), true);
    assert!(!next.deliver && next.drop_deadline && !next.cancel_deadline);
    assert_eq!(next.info, PollInfo { waits: 1, discovery_polls: 0, zero_event_waits: 1 });
    let work = StepEvent { kind: 1, waitable: 6, code: 2 };
    let next = p3::waited(work, Some(deadline), true);
    assert!(next.deliver && next.cancel_deadline);
    assert_eq!(next.info.zero_event_waits, 0);
}

#[test]
fn asynchronous_component_opens() {
    let from = Endpoint::V4 { ip: [0; 4], port: 53 };
    let plan = p3::plan(&Open::Udp { from, reuse_port: ReusePort::No });
    assert_eq!(
        plan.steps,
        vec![p3::Step::CreateUdp { v6: false }, p3::Step::Bind(from)]
    );
    assert!(plan.outcome.expect("bound").reserve);
    assert_eq!(p3::net_error(p3::NetCode::ConnectionBroken).kind, ErrorKind::BrokenPipe);
    assert_eq!(p3::net_code(12), p3::NetCode::ConnectionAborted);
    assert_eq!(p3::net_code(7), p3::NetCode::Other);
    assert_eq!(p3::stream_filled(2, 10, 0x31).0, 5);
}

#[test]
fn acknowledged_operations_complete() {
    let other = Error::new(ErrorKind::Other);
    let read = Operation::Read { buf: ReadBuf::Pooled, multishot: true };
    let mut s = streams();
    let (offset, step) =
        drive::acknowledged::<u32>(&read, WaitKind::Read, 0x50, Ok(()), 0, Ack::Lease(None), &mut s);
    assert_eq!(offset, 0);
    assert!(matches!(
        step,
        Driven::Attempt(Ok(Some((Outcome::Read { n: 5, lease: None }, false))))
    ));
    let once = Operation::Read { buf: ReadBuf::Provided(8), multishot: false };
    let (_, step) =
        drive::acknowledged::<u32>(&once, WaitKind::Read, 0x50, Ok(()), 0, Ack::Lease(None), &mut s);
    assert!(matches!(step, Driven::Attempt(Ok(Some((Outcome::Read { n: 5, .. }, true))))));
    let (_, step) =
        drive::acknowledged::<u32>(&once, WaitKind::Read, 1, Ok(()), 0, Ack::Nothing, &mut s);
    assert!(matches!(step, Driven::Call(Issue::StartReadDone)));
    assert!(s.read_closed);
    let (_, step) =
        drive::acknowledged::<u32>(&once, WaitKind::ReadDone, 0, Err(other), 0, Ack::Nothing, &mut s);
    assert!(matches!(step, Driven::Attempt(Err(e)) if e == other));
    assert_eq!(s.read_result, Some(Err(other)));
    let (_, step) = drive::proceed::<u32>(&once, 0, false, &mut s);
    assert!(matches!(step, Driven::Attempt(Err(e)) if e == other), "the end is told again");
    let write = Operation::Write(10);
    let (offset, step) =
        drive::acknowledged::<u32>(&write, WaitKind::Write, 0x40, Ok(()), 0, Ack::Nothing, &mut s);
    assert_eq!(offset, 4);
    assert!(matches!(step, Driven::Call(Issue::StartWrite { len: 6, .. })));
    let (offset, step) =
        drive::acknowledged::<u32>(&write, WaitKind::Write, 0x60, Ok(()), 4, Ack::Nothing, &mut s);
    assert_eq!(offset, 10);
    assert!(matches!(step, Driven::Attempt(Ok(Some((Outcome::Wrote(10), true))))));
    let (_, step) = drive::proceed::<u32>(&Operation::Shutdown, 0, false, &mut s);
    assert!(matches!(step, Driven::Call(Issue::StartWriteDone)));
    assert!(!s.writer);
    let mut s = streams();
    s.read_closed = true;
    let (_, step) = drive::acknowledged::<u32>(
        &Operation::Connect,
        WaitKind::Connect,
        2,
        Ok(()),
        0,
        Ack::Nothing,
        &mut s,
    );
    assert!(matches!(step, Driven::Attempt(Ok(Some((Outcome::Connected, true))))));
    assert_eq!(s, streams());
    let from = Endpoint::V4 { ip: [10, 0, 0, 1], port: 9 };
    let receive = Operation::RecvFrom(ReadBuf::Provided(3));
    let datagram = |room| Ack::Datagram { len: 5, from, room, lease: None };
    let (_, step) = drive::acknowledged::<u32>(
        &receive,
        WaitKind::Receive,
        2,
        Ok(()),
        0,
        datagram(Some(3)),
        &mut s,
    );
    assert!(matches!(step, Driven::Attempt(Ok(Some((Outcome::RecvFrom { n: 3, .. }, true))))));
    let (_, step) =
        drive::acknowledged::<u32>(&receive, WaitKind::Receive, 2, Ok(()), 0, datagram(None), &mut s);
    assert!(matches!(step, Driven::Attempt(Err(e)) if e.kind == ErrorKind::ResourceLimit));
    let accept = Operation::Accept { multishot: true };
    let (_, step) = drive::acknowledged(
        &accept,
        WaitKind::Accept,
        0x10,
        Ok(()),
        0,
        Ack::Socket(Ok((7u32, from))),
        &mut s,
    );
    assert!(matches!(
        step,
        Driven::Attempt(Ok(Some((Outcome::Accepted { transport: 7, .. }, false))))
    ));
}

#[test]
fn attempts_wait_for_their_acknowledgement() {
    let to = Endpoint::V4 { ip: [10, 0, 0, 1], port: 9 };
    let send = Operation::SendTo { len: 12, to };
    let mut s = streams();
    let (offset, step) =
        drive::execute::<u32>(&send, Finish::Idle, Ok(()), 0, false, Ack::Nothing, &mut s);
    assert_eq!(offset, 12);
    assert!(matches!(step, Driven::Call(Issue::StartSend)));
    let (wait, _) = p3::start(WaitKind::Send, 7, 1);
    let told = drive::reply(offset, step, &Some(wait));
    assert!(matches!(
        told,
        Answered::Driven { offset: 12, attempt: Err(e) } if e.kind == ErrorKind::WouldBlock
    ));
    let (_, step) =
        drive::execute::<u32>(&send, Finish::Waiting, Ok(()), 12, false, Ack::Nothing, &mut s);
    assert!(matches!(drive::reply(12, step, &None), Answered::Driven { attempt: Ok(None), .. }));
    let finish = Finish::Finished { kind: WaitKind::Send, code: 2, leave: true, drop: true };
    let (_, step) = drive::execute::<u32>(&send, finish, Ok(()), 12, false, Ack::Nothing, &mut s);
    assert!(matches!(
        drive::reply(12, step, &None),
        Answered::Driven { attempt: Ok(Some((Outcome::Wrote(12), true))), .. }
    ));
}

#[test]
fn runs_are_bounded_and_acknowledge_first() {
    let mut files = Files::new(2, 5);
    let h = handle(1, 1);
    files.submit(op(0, 1), Some(h), &FsRequest::Open {
        path: b"/f".to_vec(),
        options: FileOptions::default(),
    }).expect("open");
    let mut begun = false;
    let RunStep::Run(p) = files.advance::<u32>(&mut begun, true, false) else {
        panic!("nothing to run");
    };
    assert_eq!(p.op, op(0, 1));
    let file = Some(Object::File { cursor: 0, append: false });
    let event: Event<u32> = files.complete(file, Ok(FsOutput::Opened), None);
    assert!(event.terminal && event.op == op(0, 1));
    assert!(matches!(event.result, Ok(Outcome::Fs { output: FsOutput::Opened, lease: None })));
    assert_eq!(files.object(h), file);
    let make = FsRequest::Mkdir { path: b"/d".to_vec() };
    files.submit(op(1, 1), Some(h), &FsRequest::Read { pooled: true, offset: None }).expect("read");
    files.submit(op(2, 1), Some(h), &FsRequest::Fstat).expect("stat");
    files.submit(op(3, 1), None, &make).expect("first");
    files.submit(op(4, 1), None, &make).expect("second");
    assert!(files.cancel(op(3, 1)));
    let mut begun = false;
    let RunStep::Tell(event) = files.advance::<u32>(&mut begun, true, false) else {
        panic!("acknowledgements come first");
    };
    assert_eq!(event.op, op(3, 1));
    let RunStep::Run(p) = files.advance::<u32>(&mut begun, true, false) else {
        panic!("other requests run while one waits for a buffer");
    };
    assert_eq!(p.op, op(4, 1));
    let event: Event<u32> = files.complete(None, Err(invalid()), Some(Lease { id: 3 }));
    assert!(matches!(event.result, Err(e) if e == invalid()));
    assert!(matches!(files.advance::<u32>(&mut begun, true, false), RunStep::End));
    let mut begun = false;
    assert!(matches!(files.advance::<u32>(&mut begun, false, true), RunStep::End), "no room");
    let mut ran = vec![];
    let mut begun = false;
    while let RunStep::Run(p) = files.advance::<u32>(&mut begun, true, true) {
        ran.push(p.op);
        files.complete::<u32>(file, Ok(FsOutput::Done), None);
    }
    assert_eq!(ran, vec![op(1, 1), op(2, 1)]);
}

#[test]
fn cursor_counts_reads_and_writes() {
    let mut object = Some(Object::File { cursor: 0, append: false });
    let mut at = vec![];
    for (write, offset, n) in
        [(false, None, 5), (true, None, 3), (true, Some(100), 9), (false, Some(2), 1), (false, None, 4)]
    {
        let request = if write {
            FsRequest::Write { offset }
        } else {
            FsRequest::Read { pooled: false, offset }
        };
        let step = requests::start(&names(), &request, object);
        let (phase, made) = call(step.next);
        at.push(match made {
            Call::Read { at } => at,
            Call::Write { at } => at,
            other => panic!("unexpected {other:?}"),
        });
        let moved = Reply::Moved { n, eof: false };
        object = requests::resume(&names(), &request, step.object, phase, made, moved).object;
    }
    assert_eq!(at, vec![0, 5, 100, 2, 8]);
    assert_eq!(object, Some(Object::File { cursor: 12, append: false }));
}

#[test]
fn listings_lose_nothing_to_small_buffers() {
    let entries = [(true, 0), (false, 3), (true, 0), (false, 4), (false, 2)];
    let list = FsRequest::ReadDir { pooled: false };
    let mut object = Some(Object::Dir { listed: false, pending: None, done: false });
    let (mut fetched, mut stored, mut refused) = (0, vec![], 0);
    for room in [2, 3, 3, 6, 9] {
        let mut step = requests::start(&names(), &list, object);
        loop {
            let (phase, made) = match step.next {
                Next::Call { phase, call } => (phase, call),
                Next::End(result) => {
                    match result {
                        Ok(FsOutput::Directory { n, .. }) => assert!(n <= room),
                        Ok(other) => panic!("unexpected {other:?}"),
                        Err(e) => {
                            assert_eq!(e.kind, ErrorKind::ResourceLimit);
                            refused += 1;
                        }
                    }
                    break;
                }
            };
            let reply = match made {
                Call::Entries => Reply::Done,
                Call::NextEntry => {
                    let next = entries.get(fetched);
                    fetched += usize::from(next.is_some());
                    Reply::Entry(next.map(|e| Entry { kind: FileType::File, special: e.0 }))
                }
                Call::Put { used } => {
                    let end = used + entries[fetched - 1].1;
                    if end <= room {
                        stored.push(fetched - 1);
                        Reply::Stored(Some(end))
                    } else {
                        Reply::Stored(None)
                    }
                }
                other => panic!("unexpected {other:?}"),
            };
            step = requests::resume(&names(), &list, step.object, phase, made, reply);
        }
        object = step.object;
    }
    assert_eq!(stored, vec![1, 3, 4]);
    assert_eq!(refused, 2);
    assert!(matches!(object, Some(Object::Dir { done: true, .. })));
}

#[test]
fn directories_themselves_are_dots() {
    let text = b"/data".to_vec();
    let place = resolve(&names(), &text).expect("granted");
    assert_eq!(relative(&text, place), b".".to_vec());
    let text = b"/data/x/y".to_vec();
    let place = resolve(&names(), &text).expect("granted");
    assert_eq!(relative(&text, place), b"x/y".to_vec());
}

#[test]
fn deadlines_alone_are_empty_waits() {
    let info = p2::wait_info(&vec![], 3);
    assert_eq!((info.waits, info.zero_event_waits), (1, 1));
    assert_eq!(p2::wait_info(&vec![3], 3).zero_event_waits, 1);
    assert_eq!(p2::wait_info(&vec![3, 2], 3).zero_event_waits, 0);
}

#[test]
fn imports_place_their_lists_in_turn() {
    let mut scratch = Scratch { arena: None };
    assert_eq!(scratch.cabi_realloc(0, 1, 9), Placed::Heap);
    scratch.enter(4);
    assert_eq!(scratch.cabi_realloc(0, 4, 0), Placed::Dangling);
    assert_eq!(scratch.cabi_realloc(0, 1, 3), Placed::Scratch(0));
    assert_eq!(scratch.cabi_realloc(0, 4, 8), Placed::Scratch(4));
    scratch.leave();
    assert_eq!(scratch.cabi_realloc(0, 1, 9), Placed::Heap);
    assert_eq!(abi::scoped(&mut scratch, 4, |arena| (arena.len, arena.used)), (16, 0));
    assert!(scratch.arena.is_none());
    assert_eq!(abi::scoped(&mut scratch, 1, |arena| arena.len), 4, "the next one starts afresh");
}

/// One pass of an asynchronous engine in which every attempt comes to `attempt`; the slots that
/// were tried.
fn attempts(
    engine: &mut Engine,
    attempt: impl Fn() -> Result<Option<(Outcome<u32>, bool)>, Error>,
) -> (Vec<usize>, Vec<Event<u32>>) {
    let (mut tried, mut events, mut budget) = (vec![], vec![], 8);
    loop {
        match engine.advance(&mut budget, true) {
            EngineStep::Done => return (tried, events),
            EngineStep::Again => {}
            EngineStep::Execute { slot, .. } => {
                tried.push(slot);
                events.extend(engine.settle(Answered::Driven { offset: 0, attempt: attempt() }));
            }
        }
    }
}

#[test]
fn cancelled_oldest_operation_holds_nothing_up() {
    let mut engine = Engine::new(1, 2, Rules::Async);
    let h = handle(0, 1);
    engine.install(h, Kind::Tcp, false).expect("install");
    let read = || Operation::Read { buf: ReadBuf::Pooled, multishot: false };
    for slot in 0..2 {
        let request = Request { op: op(slot, 1), handle: h, operation: read() };
        engine.submit(request).expect("read");
    }
    let blocked = || Err(Error::new(ErrorKind::WouldBlock));
    let (tried, _) = attempts(&mut engine, blocked);
    assert_eq!(tried, vec![0]);
    assert!(!engine.has_work(), "the oldest waits");
    let mut waits = vec![Some(p3::start(WaitKind::Read, 4, p3::BLOCKED).0), None];
    let mut s = streams();
    let left = cancel::cancel(&mut engine, &mut waits, op(0, 1), 1, Ok(()), &mut s);
    assert_eq!(left, Ok(Cleanup::Closed));
    assert!(s.read_closed, "the end of the stream is remembered");
    assert_eq!(waits, vec![None, None], "the host touches its memory no more");
    let again = cancel::cancel(&mut engine, &mut waits, op(0, 1), 1, Ok(()), &mut s);
    assert_eq!(again, Ok(Cleanup::Nothing));
    let unknown = cancel::cancel(&mut engine, &mut waits, op(0, 2), 1, Ok(()), &mut s);
    assert_eq!(unknown, Err(Error::new(ErrorKind::NotFound)));
    let mut events: Completions<u32> = Completions::with_capacity(4);
    engine.drain_cancelled(&mut events);
    assert_eq!(events.len(), 1);
    assert_eq!(events.get(0).expect("acknowledged").op, op(0, 1));
    let (tried, events) = attempts(&mut engine, || Ok(Some((Outcome::Eof, true))));
    assert_eq!(tried, vec![1], "the next one is tried");
    assert_eq!(events.len(), 1);
    assert!(!engine.has_work());
}

#[test]
fn cancelled_waits_keep_what_the_host_left() {
    let mut engine = Engine::new(1, 1, Rules::Async);
    let h = handle(0, 1);
    engine.install(h, Kind::Tcp, false).expect("install");
    let failed = Error::new(ErrorKind::ConnectionReset);
    let request = Request { op: op(0, 1), handle: h, operation: Operation::Shutdown };
    engine.submit(request).expect("shutdown");
    let mut waits = vec![Some(Wait { waitable: 4, kind: WaitKind::WriteDone, code: Some(0) })];
    let mut s = streams();
    let left = cancel::cancel(&mut engine, &mut waits, op(0, 1), 1, Err(failed), &mut s);
    assert_eq!(left, Ok(Cleanup::KeepWriteResult));
    assert_eq!(s.write_result, Some(Err(failed)));
}

#[test]
fn cancelled_lookups_are_acknowledged_in_order() {
    let mut engine = Engine::new(1, 3, Rules::Component);
    let h = handle(0, 1);
    engine.install(h, Kind::Tcp, false).expect("install");
    let request = Request { op: op(0, 1), handle: h, operation: Operation::Write(4) };
    engine.submit(request).expect("write");
    let mut lookups = Lookups::new(3);
    lookups.start(op(1, 1), 80);
    lookups.start(op(2, 1), 80);
    assert!(lookup_trace::has_work(&engine, &lookups));
    lookup_trace::cancel(&mut engine, &mut lookups, op(2, 1)).expect("lookup");
    lookup_trace::cancel(&mut engine, &mut lookups, op(0, 1)).expect("write");
    let unknown = lookup_trace::cancel(&mut engine, &mut lookups, op(1, 2));
    assert_eq!(unknown, Err(Error::new(ErrorKind::NotFound)));
    let mut events: Completions<u32> = Completions::with_capacity(4);
    engine.drain_cancelled(&mut events);
    let told: Vec<OpId> = (0..events.len()).map(|i| events.get(i).expect("event").op).collect();
    assert_eq!(told, vec![op(2, 1), op(0, 1)]);
    assert!(events.get(0).is_some_and(|e| e.terminal && matches!(e.result, Ok(Outcome::Cancelled))));
    assert!(lookup_trace::has_work(&engine, &lookups), "the other lookup goes on");
    assert!(matches!(lookups.answer::<u32>(1, Answer::Blocked, 0), LookupStep::Stop));
    let (tried, _) = attempts(&mut engine, || Ok(None));
    assert!(tried.is_empty(), "nothing is left to try");
    assert!(!lookup_trace::has_work(&engine, &lookups));
}

#[test]
fn components_keep_their_transports() {
    for rules in [Rules::Component, Rules::Async] {
        let mut engine = Engine::new(1, 1, rules);
        let h = handle(0, 1);
        engine.install(h, Kind::Tcp, false).expect("install");
        assert_eq!(engine.detach(h), Err(unsupported()));
        assert_eq!(engine.detach(handle(0, 2)), Err(unsupported()));
        assert!(engine.get(h).is_ok(), "it stays");
    }
}

#[test]
fn file_calls_are_laid_out() {
    let (path, to) = (Text { pointer: 0x10, len: 3 }, Text { pointer: 0x20, len: 4 });
    assert_eq!(
        layouts::encode_rename(7, path, 8, to),
        vec![7, 0, 0, 0, 0x10, 0, 0, 0, 3, 0, 0, 0, 8, 0, 0, 0, 0x20, 0, 0, 0, 4, 0, 0, 0]
    );
    let link = layouts::encode_link(7, path, 8, to);
    assert_eq!(link[..8], [7, 0, 0, 0, 0, 0, 0, 0]);
    assert_eq!((link[8], link[16], link[20], link.len()), (0x10, 8, 0x20, 28));
    let symlink = layouts::encode_symlink(7, to, path);
    assert_eq!((symlink[4], symlink[12], symlink.len()), (0x20, 0x10, 20));
    let list = layouts::directories(&[layouts::encode_symlink(9, path, to), vec![0; 4]].concat()[..12].to_vec(), 1);
    assert_eq!(list, vec![Granted { handle: 9, name: path }]);
    let mut result = vec![0; 20];
    result[4] = 0x44;
    result[8] = 6;
    assert_eq!(layouts::open_result(&result).result, Ok(0x44));
    assert_eq!(layouts::link_result(&result).result, Ok(Text { pointer: 0x44, len: 6 }));
    result[0] = 1;
    result[4] = 19;
    assert_eq!(layouts::open_result(&result).result, Err(errors::error(44)));
    assert_eq!(layouts::link_result(&result).result, Err(errors::error(44)));
    assert_eq!(layouts::append_len(4097), 4096);
    assert_eq!(layouts::append_len(7), 7);
    assert_eq!(layouts::standard_result(0x100), Ok(()));
    assert_eq!(layouts::standard_result(1), Err(Error::new(ErrorKind::Other)));
}

#[test]
fn directories_hand_out_entries_until_they_end() {
    let mut bytes = vec![0; 24];
    bytes[0] = 7;
    bytes[4] = 1;
    (bytes[8], bytes[12], bytes[16], bytes[20]) = (0x30, 5, 0x40, 2);
    let found = layouts::element(&bytes);
    assert_eq!(found.kind, FileType::Unknown);
    assert_eq!(found.name, Text { pointer: 0x40, len: 2 });
    assert_eq!(found.drop, Some(Text { pointer: 0x30, len: 5 }));
    bytes[0] = 2;
    assert_eq!(layouts::element(&bytes).kind, FileType::Directory);
    assert_eq!(layouts::element(&bytes).drop, None);
    let mut open = true;
    assert_eq!(layouts::entry_step(&mut open, None), EntryStep::Read);
    assert_eq!(layouts::entry_step(&mut open, Some(0)), EntryStep::Read);
    assert_eq!(layouts::entry_step(&mut open, Some(0x10)), EntryStep::Take);
    assert_eq!(layouts::entry_step(&mut open, Some(1)), EntryStep::Finish);
    assert_eq!(layouts::entry_step(&mut open, None), EntryStep::Nothing);
}
