use turnloop::buffers::goes_back;
use turnloop::turn::Timeout;
use turnloop::types::{
    invalid, unsupported, Error, ErrorKind, Handle, Lease, OpId, Operation, Outcome, ReadBuf,
    Request, Span,
};
use turnloop::web::{
    begin_poll, check_condition, check_ring, validate_timeout, Job, Kind, Status, Web, MAX_RING,
};

fn handle(slot: u64) -> Handle {
    Handle { owner: 1, key: (1 << 32) | slot }
}

fn op(slot: u64) -> OpId {
    OpId { owner: 1, key: (1 << 32) | slot }
}

fn request(o: OpId, h: Handle, operation: Operation) -> Request {
    Request { op: o, handle: h, operation }
}

fn read() -> Operation {
    Operation::Read { buf: ReadBuf::Pooled, multishot: false }
}

fn kind(job: Result<Job, Error>) -> ErrorKind {
    job.expect_err("refused").kind
}

#[test]
fn host_callbacks_complete_operations() {
    let mut web = Web::new(2, 3);
    assert_eq!(web.vacant(handle(5)), Err(invalid()));
    web.vacant(handle(0)).expect("free");
    web.open(handle(0), Kind::WebSocket);
    assert_eq!(web.vacant(handle(0)), Err(invalid()));
    let connect = request(op(0), handle(0), Operation::Connect);
    let job = web.plan(&connect).expect("connect");
    assert_eq!(job, Job::Connect);
    web.submit(&connect, job);
    assert!(web.settle::<u32>(0, Status::Running).is_none());
    let event = web.settle::<u32>(0, Status::Connected).expect("connected");
    assert!(event.terminal);
    assert!(matches!(event.result, Ok(Outcome::Connected)));
    assert!(web.pending(0).is_none());
    let receive = request(op(1), handle(0), read());
    web.submit(&receive, web.plan(&receive).expect("read"));
    assert_eq!(kind(web.plan(&request(op(2), handle(0), read()))), ErrorKind::WouldBlock);
    assert!(web.settle::<u32>(1, Status::NoBuffer).is_none());
    let lease = Some(Lease { id: 1 });
    let event = web.settle::<u32>(1, Status::Bytes { n: 4, room: 8, lease }).expect("bytes");
    assert!(matches!(event.result, Ok(Outcome::Read { n: 4, .. })));
    web.submit(&receive, web.plan(&receive).expect("read"));
    let event = web.settle::<u32>(1, Status::Bytes { n: 9, room: 8, lease }).expect("too long");
    assert_eq!(event.result.err().map(|e| e.kind), Some(ErrorKind::ResourceLimit));
}

#[test]
fn hosts_offer_few_operations() {
    let mut web = Web::new(2, 2);
    web.open(handle(1), Kind::Fetch);
    let plan = |operation| web.plan(&request(op(0), handle(1), operation));
    assert_eq!(kind(plan(Operation::Connect)), ErrorKind::Unsupported);
    assert_eq!(kind(plan(Operation::Write(3))), ErrorKind::Unsupported);
    assert_eq!(kind(plan(Operation::ProcessExit)), ErrorKind::Unsupported);
    let empty = Operation::Read { buf: ReadBuf::Provided(0), multishot: false };
    assert_eq!(kind(plan(empty)), ErrorKind::InvalidInput);
    let many = Operation::Read { buf: ReadBuf::Pooled, multishot: true };
    assert_eq!(kind(plan(many)), ErrorKind::Unsupported);
    assert_eq!(
        kind(web.plan(&request(op(0), handle(0), read()))),
        ErrorKind::NotFound
    );
    assert_eq!(
        kind(web.plan(&request(op(9), handle(1), read()))),
        ErrorKind::InvalidInput
    );
    assert_eq!(web.resource(handle(1)).expect("open").kind, Kind::Fetch);
    assert_eq!(web.resource(handle(0)), Err(Error::new(ErrorKind::NotFound)));
}

#[test]
fn cancelled_callbacks_are_acknowledged() {
    let mut web = Web::new(1, 1);
    web.open(handle(0), Kind::WebSocket);
    let receive = request(op(0), handle(0), read());
    web.submit(&receive, web.plan(&receive).expect("read"));
    assert_eq!(web.cancel(op(0)), Ok(true));
    let event = web.settle::<u32>(0, Status::Running).expect("acknowledged");
    assert!(matches!(event.result, Ok(Outcome::Cancelled)));
    assert_eq!(web.cancel(op(0)).expect_err("ended").kind, ErrorKind::NotFound);
    assert!(web.release(handle(0)));
    assert!(!web.release(handle(0)));
}

#[test]
fn browser_turns_do_not_block() {
    assert_eq!(validate_timeout(Timeout::Now), Ok(()));
    assert!(validate_timeout(Timeout::Forever).is_err());
    assert_eq!(check_ring(true, false, MAX_RING), Ok(()));
    assert_eq!(check_ring(false, false, 8), Err(unsupported()));
    assert!(check_ring(true, false, MAX_RING + 1).is_err());
    assert!(check_ring(true, false, 0).is_err());
    assert!(check_condition(true, 8, 0, 4).is_ok());
    assert_eq!(check_condition(false, 8, 0, 4), Err(unsupported()));
}

#[test]
fn turns_never_block_and_tell_failures_first() {
    let other = Error::new(ErrorKind::Other);
    let zero = Some(Span { secs: 0, nanos: 0 });
    let mut failure = Some(other);
    assert_eq!(begin_poll(None, &mut failure), Err(unsupported()));
    assert_eq!(begin_poll(Some(Span { secs: 1, nanos: 0 }), &mut failure), Err(unsupported()));
    assert_eq!(failure, Some(other), "refused turns keep it");
    assert_eq!(begin_poll(zero, &mut failure), Err(other));
    assert_eq!(begin_poll(zero, &mut failure), Ok(()));
}

#[test]
fn turns_look_at_running_operations_while_there_is_room() {
    let mut web = Web::new(1, 3);
    web.open(handle(0), Kind::WebSocket);
    for slot in [0, 2] {
        let write = request(op(slot), handle(0), Operation::Write(1));
        let job = web.plan(&write).expect("write");
        web.submit(&write, job);
    }
    assert_eq!(web.next(0, true), Some(0));
    assert_eq!(web.next(1, true), Some(2));
    assert_eq!(web.next(3, true), None);
    assert_eq!(web.next(0, false), None, "no room");
    let told = |at: usize| (0..3).map(|i| i == at).collect::<Vec<bool>>();
    assert!(!web.has_work(false, false, &told(1)), "nothing runs there");
    assert!(web.has_work(false, false, &told(2)));
    assert!(web.has_work(true, false, &told(1)) && web.has_work(false, true, &told(1)));
    web.cancel(op(0)).expect("running");
    assert!(web.has_work(false, false, &told(1)));
}

#[test]
fn buffers_that_are_too_small_go_back() {
    let mut web = Web::new(1, 2);
    web.open(handle(0), Kind::Fetch);
    let lease = Some(Lease { id: 6 });
    for (n, back) in [(9, lease), (8, None)] {
        let read = request(op(0), handle(0), read());
        let job = web.plan(&read).expect("read");
        web.submit(&read, job);
        let event = web.settle::<u32>(0, Status::Bytes { n, room: 8, lease });
        assert!(event.is_some());
        assert_eq!(goes_back(lease, None, &event), back);
    }
}
