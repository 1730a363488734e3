//! The backend of browser and server-script hosts: callbacks of the host complete
//! operations, and a turn collects what came.
use crate::buffers::{going_back, handed_out};
use crate::counting::{count, lemma_count_one, lemma_count_sum};
use crate::turn::Timeout;
use crate::types::{
    invalid, unsupported, Error, ErrorKind, Event, Handle, Lease, OpId, Operation, Outcome,
    ReadBuf, Request, Span,
};
use vstd::prelude::*;

verus! {

/// The largest ring between a worker and its loop.
pub const MAX_RING: u32 = 0x10_0000;

/// What a handle stands for.
#[derive(Clone, Copy, Debug, PartialEq, Eq, Structural)]
pub enum Kind {
    Fetch,
    WebSocket,
}

/// An open resource.
#[derive(Clone, Copy, Debug, PartialEq, Eq, Structural)]
pub struct Resource {
    pub handle: Handle,
    pub kind: Kind,
}

/// What the host is asked to do.
#[derive(Clone, Copy, Debug, PartialEq, Eq, Structural)]
pub enum Job {
    Connect,
    Read(ReadBuf),
    Write,
    Shutdown,
}

/// A running operation.
#[derive(Clone, Copy, Debug, PartialEq, Eq, Structural)]
pub struct Pending {
    pub op: OpId,
    pub handle: Handle,
    pub job: Job,
    pub cancelled: bool,
}

/// What the host tells of an operation.
#[derive(Clone, Copy, Debug, PartialEq, Eq, Structural)]
pub enum Status {
    /// Nothing yet.
    Running,
    Connected,
    /// So many bytes came, for a buffer of `room`; the pool's, where it is pooled.
    Bytes { n: usize, room: usize, lease: Option<Lease> },
    /// Bytes came and the pool has no buffer.
    NoBuffer,
    Wrote(usize),
    Shutdown,
    Failed,
    Eof,
}

/// The backend as plain mathematics.
#[verifier::ext_equal]
pub struct Model {
    pub resources: Seq<Option<Resource>>,
    pub ops: Seq<Option<Pending>>,
}

impl Model {
    /// `h` names an open resource.
    pub open spec fn live(self, h: Handle) -> bool {
        &&& h.spec_index() < self.resources.len()
        &&& self.resources[h.spec_index()] is Some
        &&& self.resources[h.spec_index()]->0.handle == h
    }

    /// `op` is running.
    pub open spec fn holds(self, op: OpId) -> bool {
        &&& op.spec_index() < self.ops.len()
        &&& self.ops[op.spec_index()] is Some
        &&& self.ops[op.spec_index()]->0.op == op
    }

    /// Every operation is in the slot of its name.
    pub open spec fn valid(self) -> bool {
        forall|i: int|
            0 <= i < self.ops.len() && (#[trigger] self.ops[i]) is Some
                ==> self.ops[i]->0.op.spec_index() == i
    }

    /// Slot `i` holds a read of `h`.
    pub open spec fn reads(self, i: int, h: Handle) -> bool {
        self.ops[i] is Some && self.ops[i]->0.handle == h && self.ops[i]->0.job is Read
    }

    /// The operation in slot `i` was cancelled, or the host has told of it.
    pub open spec fn owes(self, told: Seq<bool>, i: int) -> bool {
        self.ops[i] is Some && (self.ops[i]->0.cancelled || told[i])
    }

    /// A read of `h` is running.
    pub open spec fn reading(self, h: Handle) -> bool {
        exists|i: int| 0 <= i < self.ops.len() && #[trigger] self.reads(i, h)
    }
}

/// There is nothing like it here.
pub open spec fn foreign(op: Operation) -> bool {
    op is ProcessExit || op is WatchSignal || op is WatchFs || op is SendHandle || op is RecvHandle
}

/// What the host is asked to do for a request, or why it is refused.
pub open spec fn asked(m: Model, request: Request) -> Result<Job, ErrorKind> {
    let socket = m.resources[request.handle.spec_index()]->0.kind is WebSocket;
    if foreign(request.operation) {
        Err(ErrorKind::Unsupported)
    } else if !m.live(request.handle) {
        Err(ErrorKind::NotFound)
    } else if request.op.spec_index() >= m.ops.len() || m.ops[request.op.spec_index()] is Some {
        Err(ErrorKind::InvalidInput)
    } else {
        match request.operation {
            Operation::Connect => if socket {
                Ok(Job::Connect)
            } else {
                Err(ErrorKind::Unsupported)
            },
            Operation::Read { buf, multishot } => if multishot {
                Err(ErrorKind::Unsupported)
            } else if buf == ReadBuf::Provided(0) {
                Err(ErrorKind::InvalidInput)
            } else if m.reading(request.handle) {
                Err(ErrorKind::WouldBlock)
            } else {
                Ok(Job::Read(buf))
            },
            Operation::Write(_) => if socket {
                Ok(Job::Write)
            } else {
                Err(ErrorKind::Unsupported)
            },
            Operation::Shutdown => if socket {
                Ok(Job::Shutdown)
            } else {
                Err(ErrorKind::Unsupported)
            },
            _ => Err(ErrorKind::Unsupported),
        }
    }
}

/// What an operation yields with this status, if it is done.
pub open spec fn outcome<D>(p: Pending, status: Status) -> Option<Event<D>> {
    if p.cancelled {
        Some(Event { op: p.op, terminal: true, result: Ok(Outcome::Cancelled) })
    } else {
        match status {
            Status::Running | Status::NoBuffer => None,
            Status::Connected => Some(
                Event { op: p.op, terminal: true, result: Ok(Outcome::Connected) },
            ),
            Status::Wrote(n) => Some(
                Event { op: p.op, terminal: true, result: Ok(Outcome::Wrote(n)) },
            ),
            Status::Shutdown => Some(
                Event { op: p.op, terminal: true, result: Ok(Outcome::Shutdown) },
            ),
            Status::Failed => Some(
                Event { op: p.op, terminal: true, result: Err(Error::plain(ErrorKind::Other)) },
            ),
            Status::Eof => Some(Event { op: p.op, terminal: true, result: Ok(Outcome::Eof) }),
            Status::Bytes { n, room, lease } => Some(
                Event {
                    op: p.op,
                    terminal: true,
                    result: if n > room {
                        Err(Error::plain(ErrorKind::ResourceLimit))
                    } else {
                        Ok(Outcome::Read { n, lease })
                    },
                },
            ),
        }
    }
}

/// The tables of one loop.
#[derive(Debug)]
pub struct Web {
    resources: Vec<Option<Resource>>,
    ops: Vec<Option<Pending>>,
}

impl View for Web {
    type V = Model;

    closed spec fn view(&self) -> Model {
        Model { resources: self.resources@, ops: self.ops@ }
    }
}

impl Web {
    /// Nothing open, with room for so many handles and operations.
    pub fn new(handles: usize, operations: usize) -> (web: Self)
        ensures
            web@.valid(),
            web@.resources == Seq::new(handles as nat, |i: int| None::<Resource>),
            web@.ops == Seq::new(operations as nat, |i: int| None::<Pending>),
    {
        let mut resources: Vec<Option<Resource>> = Vec::new();
        let mut i: usize = 0;
        while i < handles
            invariant
                i <= handles,
                resources@ == Seq::new(i as nat, |i: int| None::<Resource>),
            decreases handles - i,
        {
            resources.push(None);
            assert(resources@ =~= Seq::new((i + 1) as nat, |i: int| None::<Resource>));
            i = i + 1;
        }
        let mut ops: Vec<Option<Pending>> = Vec::new();
        let mut j: usize = 0;
        while j < operations
            invariant
                j <= operations,
                ops@ == Seq::new(j as nat, |i: int| None::<Pending>),
            decreases operations - j,
        {
            ops.push(None);
            assert(ops@ =~= Seq::new((j + 1) as nat, |i: int| None::<Pending>));
            j = j + 1;
        }
        Web { resources, ops }
    }

    /// The resource of a handle.
    pub fn resource(&self, h: Handle) -> (found: Result<Resource, Error>)
        ensures
            match found {
                Ok(r) => self@.live(h) && r == self@.resources[h.spec_index()]->0,
                Err(e) => !self@.live(h) && e == Error::plain(ErrorKind::NotFound),
            },
    {
        let i = h.index();
        if i < self.resources.len() {
            if let Some(r) = self.resources[i] {
                if r.handle == h {
                    return Ok(r);
                }
            }
        }
        Err(Error::new(ErrorKind::NotFound))
    }

    /// Whether a resource can open under `h`, before the host is asked.
    pub fn vacant(&self, h: Handle) -> (free: Result<(), Error>)
        ensures
            match free {
                Ok(_) => h.spec_index() < self@.resources.len() && self@.resources[h.spec_index()]
                    is None,
                Err(e) => !(h.spec_index() < self@.resources.len()
                    && self@.resources[h.spec_index()] is None) && e == Error::plain(
                    ErrorKind::InvalidInput,
                ),
            },
    {
        let i = h.index();
        if i >= self.resources.len() || self.resources[i].is_some() {
            return Err(invalid());
        }
        Ok(())
    }

    /// The host opened it.
    pub fn open(&mut self, h: Handle, kind: Kind)
        requires
            old(self)@.valid(),
            h.spec_index() < old(self)@.resources.len(),
            old(self)@.resources[h.spec_index()] is None,
        ensures
            final(self)@.valid(),
            final(self)@ == (Model {
                resources: old(self)@.resources.update(
                    h.spec_index(),
                    Some(Resource { handle: h, kind }),
                ),
                ..old(self)@
            }),
    {
        self.resources.set(h.index(), Some(Resource { handle: h, kind }));
    }

    /// Whether a read of `h` is running.
    fn is_reading(&self, h: Handle) -> (yes: bool)
        ensures
            yes == self@.reading(h),
    {
        let mut i: usize = 0;
        while i < self.ops.len()
            invariant
                i <= self.ops@.len(),
                forall|k: int| 0 <= k < i ==> !#[trigger] self@.reads(k, h),
            decreases self.ops@.len() - i,
        {
            if let Some(p) = self.ops[i] {
                if p.handle == h {
                    if let Job::Read(_) = p.job {
                        assert(self@.reads(i as int, h));
                        return true;
                    }
                }
            }
            i = i + 1;
        }
        false
    }

    /// What to ask the host for. Reads of one handle come one at a time.
    pub fn plan(&self, request: &Request) -> (job: Result<Job, Error>)
        ensures
            match job {
                Ok(j) => asked(self@, *request) == Ok::<Job, ErrorKind>(j),
                Err(e) => asked(self@, *request) == Err::<Job, ErrorKind>(e.kind) && e
                    == Error::plain(e.kind),
            },
    {
        match &request.operation {
            Operation::ProcessExit => {
                return Err(unsupported());
            },
            Operation::WatchSignal => {
                return Err(unsupported());
            },
            Operation::WatchFs => {
                return Err(unsupported());
            },
            Operation::SendHandle(_) => {
                return Err(unsupported());
            },
            Operation::RecvHandle => {
                return Err(unsupported());
            },
            _ => {},
        }
        let r = self.resource(request.handle)?;
        let i = request.op.index();
        if i >= self.ops.len() || self.ops[i].is_some() {
            return Err(invalid());
        }
        let socket = r.kind == Kind::WebSocket;
        match &request.operation {
            Operation::Connect => if socket {
                Ok(Job::Connect)
            } else {
                Err(unsupported())
            },
            Operation::Read { buf, multishot } => {
                if *multishot {
                    return Err(unsupported());
                }
                if let ReadBuf::Provided(len) = *buf {
                    if len == 0 {
                        return Err(invalid());
                    }
                }
                if self.is_reading(request.handle) {
                    return Err(Error::new(ErrorKind::WouldBlock));
                }
                Ok(Job::Read(*buf))
            },
            Operation::Write(_) => if socket {
                Ok(Job::Write)
            } else {
                Err(unsupported())
            },
            Operation::Shutdown => if socket {
                Ok(Job::Shutdown)
            } else {
                Err(unsupported())
            },
            _ => Err(unsupported()),
        }
    }

    /// The host took the operation.
    pub fn submit(&mut self, request: &Request, job: Job)
        requires
            old(self)@.valid(),
            asked(old(self)@, *request) == Ok::<Job, ErrorKind>(job),
        ensures
            final(self)@.valid(),
            final(self)@ == (Model {
                ops: old(self)@.ops.update(
                    request.op.spec_index(),
                    Some(
                        Pending {
                            op: request.op,
                            handle: request.handle,
                            job,
                            cancelled: false,
                        },
                    ),
                ),
                ..old(self)@
            }),
    {
        self.ops.set(
            request.op.index(),
            Some(
                Pending { op: request.op, handle: request.handle, job, cancelled: false },
            ),
        );
    }

    /// Cancel an operation. Tells whether the host is to be told, and woken: it is told
    /// once.
    pub fn cancel(&mut self, op: OpId) -> (tell: Result<bool, Error>)
        requires
            old(self)@.valid(),
        ensures
            final(self)@.valid(),
            match tell {
                Err(e) => !old(self)@.holds(op) && e == Error::plain(ErrorKind::NotFound)
                    && final(self)@ == old(self)@,
                Ok(t) => old(self)@.holds(op) && t == !old(self)@.ops[op.spec_index()]->0.cancelled
                    && final(self)@ == (Model {
                    ops: old(self)@.ops.update(
                        op.spec_index(),
                        Some(
                            Pending { cancelled: true, ..old(self)@.ops[op.spec_index()]->0 },
                        ),
                    ),
                    ..old(self)@
                }),
            },
    {
        let ghost before = self@;
        let i = op.index();
        if i < self.ops.len() {
            if let Some(p) = self.ops[i] {
                if p.op == op {
                    self.ops.set(i, Some(Pending { cancelled: true, ..p }));
                    assert(self@ =~= Model {
                        ops: before.ops.update(i as int, Some(Pending { cancelled: true, ..p })),
                        ..before
                    });
                    return Ok(!p.cancelled);
                }
            }
        }
        Err(Error::new(ErrorKind::NotFound))
    }

    /// The running operation in slot `i`.
    pub fn pending(&self, i: usize) -> (found: Option<Pending>)
        ensures
            found == (if i < self@.ops.len() {
                self@.ops[i as int]
            } else {
                None
            }),
    {
        if i < self.ops.len() {
            self.ops[i]
        } else {
            None
        }
    }

    /// Whether a turn would do anything: something failed in a callback, the worker sent
    /// something, or an operation was cancelled or is one that the host has told of.
    pub fn has_work(&self, failed: bool, worker: bool, told: &Vec<bool>) -> (work: bool)
        requires
            told@.len() == self@.ops.len(),
        ensures
            work == (failed || worker || exists|i: int|
                0 <= i < self@.ops.len() && #[trigger] self@.owes(told@, i)),
    {
        if failed || worker {
            return true;
        }
        let mut i: usize = 0;
        while i < self.ops.len()
            invariant
                i <= self.ops@.len(),
                told@.len() == self.ops@.len(),
                forall|k: int| 0 <= k < i ==> !#[trigger] self@.owes(told@, k),
            decreases self.ops@.len() - i,
        {
            if let Some(p) = self.ops[i] {
                if p.cancelled || told[i] {
                    assert(self@.owes(told@, i as int));
                    return true;
                }
            }
            i = i + 1;
        }
        false
    }

    /// The next operation that a turn looks at, from slot `from` on, while there is room for
    /// a completion.
    pub fn next(&self, from: usize, room: bool) -> (slot: Option<usize>)
        ensures
            match slot {
                Some(i) => {
                    &&& room
                    &&& from <= i < self@.ops.len()
                    &&& self@.ops[i as int] is Some
                    &&& forall|k: int| from <= k < i ==> (#[trigger] self@.ops[k]) is None
                },
                None => !room || forall|k: int|
                    from <= k < self@.ops.len() ==> (#[trigger] self@.ops[k]) is None,
            },
    {
        if !room {
            return None;
        }
        let mut i: usize = from;
        while i < self.ops.len()
            invariant
                room,
                from <= i,
                forall|k: int| from <= k < i && k < self.ops@.len() ==> (#[trigger] self@.ops[k])
                    is None,
            decreases self.ops@.len() - i,
        {
            if self.ops[i].is_some() {
                return Some(i);
            }
            i = i + 1;
        }
        None
    }

    /// Apply what the host tells of the operation in slot `i`. Yields its completion: the
    /// host is to forget it then.
    pub fn settle<D>(&mut self, i: usize, status: Status) -> (event: Option<Event<D>>)
        requires
            old(self)@.valid(),
            i < old(self)@.ops.len(),
            old(self)@.ops[i as int] is Some,
        ensures
            final(self)@.valid(),
            event == outcome::<D>(old(self)@.ops[i as int]->0, status),
            final(self)@ == (if event is Some {
                Model { ops: old(self)@.ops.update(i as int, None), ..old(self)@ }
            } else {
                old(self)@
            }),
    {
        let Some(p) = self.ops[i] else {
            return None;
        };
        let result: Result<Outcome<D>, Error> = if p.cancelled {
            Ok(Outcome::Cancelled)
        } else {
            match status {
                Status::Running => {
                    return None;
                },
                Status::NoBuffer => {
                    return None;
                },
                Status::Connected => Ok(Outcome::Connected),
                Status::Wrote(n) => Ok(Outcome::Wrote(n)),
                Status::Shutdown => Ok(Outcome::Shutdown),
                Status::Failed => Err(Error::new(ErrorKind::Other)),
                Status::Eof => Ok(Outcome::Eof),
                Status::Bytes { n, room, lease } => if n > room {
                    Err(Error::new(ErrorKind::ResourceLimit))
                } else {
                    Ok(Outcome::Read { n, lease })
                },
            }
        };
        self.ops.set(i, None);
        Some(Event { op: p.op, terminal: true, result })
    }

    /// Forget a closed resource. Tells whether the host is to forget it too.
    pub fn release(&mut self, h: Handle) -> (tell: bool)
        requires
            old(self)@.valid(),
        ensures
            final(self)@.valid(),
            tell == old(self)@.live(h),
            final(self)@ == (if tell {
                Model {
                    resources: old(self)@.resources.update(h.spec_index(), None),
                    ..old(self)@
                }
            } else {
                old(self)@
            }),
    {
        if self.resource(h).is_err() {
            return false;
        }
        self.resources.set(h.index(), None);
        true
    }
}

/// The buffer that came with a status.
pub open spec fn offered(status: Status) -> Option<Lease> {
    match status {
        Status::Bytes { lease, .. } => lease,
        _ => None,
    }
}

/// The buffer that came for a read goes out with its bytes, or back to the pool: bytes that do
/// not fit hand none out, and neither does a cancelled operation.
pub proof fn law_buffer_goes_out_or_back<D>(p: Pending, status: Status)
    requires
        offered(status) is Some,
    ensures
        ({
            let event = outcome::<D>(p, status);
            let out = status->n <= status->room && !p.cancelled;
            &&& event is Some
            &&& out ==> handed_out(event->0) == offered(status)
            &&& going_back(offered(status), None, event) == if out {
                None
            } else {
                offered(status)
            }
        }),
{
}

/// A host that calls back never blocks in a turn.
pub fn validate_timeout(timeout: Timeout) -> (done: Result<(), Error>)
    ensures
        match done {
            Ok(_) => timeout is Now,
            Err(e) => !(timeout is Now) && e == Error::plain(ErrorKind::Unsupported),
        },
{
    match timeout {
        Timeout::Now => Ok(()),
        _ => Err(unsupported()),
    }
}

/// A turn starts: one that may block is refused before anything else, and what failed in a
/// callback comes before what completed.
pub fn begin_poll(timeout: Option<Span>, failure: &mut Option<Error>) -> (begun: Result<(), Error>)
    ensures
        if timeout is None || timeout->0.total_nanos() != 0 {
            begun == Err::<(), Error>(Error::plain(ErrorKind::Unsupported)) && *final(failure)
                == *old(failure)
        } else {
            &&& *final(failure) is None
            &&& begun == (match *old(failure) {
                Some(e) => Err(e),
                None => Ok(()),
            })
        },
{
    let now = match timeout {
        Some(span) => span.is_zero(),
        None => false,
    };
    if !now {
        return Err(unsupported());
    }
    match *failure {
        Some(e) => {
            *failure = None;
            Err(e)
        },
        None => Ok(()),
    }
}

/// A power of two.
pub open spec fn is_power(n: u32) -> bool {
    n > 0 && n & ((n - 1) as u32) == 0
}

/// A ring of this size can be made.
pub open spec fn ring_ok(capacity: u32) -> bool {
    is_power(capacity) && capacity <= MAX_RING
}

/// Check the size of a ring between a worker and its loop; `taken` tells that there is one.
pub fn check_ring(supported: bool, taken: bool, capacity: u32) -> (done: Result<(), Error>)
    ensures
        match done {
            Ok(_) => supported && !taken && ring_ok(capacity),
            Err(e) => if !supported {
                e == Error::plain(ErrorKind::Unsupported)
            } else {
                (taken || !ring_ok(capacity)) && e == Error::plain(ErrorKind::InvalidInput)
            },
        },
{
    if !supported {
        return Err(unsupported());
    }
    if taken || capacity == 0 || capacity & (capacity - 1) != 0 || capacity > MAX_RING {
        return Err(invalid());
    }
    Ok(())
}

/// Check a ring for a wait condition, of which there is at most one for each operation.
pub fn check_condition(supported: bool, capacity: u32, conditions: usize, operations: usize) -> (done:
    Result<(), Error>)
    ensures
        match done {
            Ok(_) => supported && ring_ok(capacity) && conditions != operations,
            Err(e) => if !supported {
                e == Error::plain(ErrorKind::Unsupported)
            } else if !ring_ok(capacity) {
                e == Error::plain(ErrorKind::InvalidInput)
            } else {
                conditions == operations && e == Error::plain(ErrorKind::ResourceLimit)
            },
        },
{
    check_ring(supported, false, capacity)?;
    if conditions == operations {
        return Err(Error::new(ErrorKind::ResourceLimit));
    }
    Ok(())
}

/// A cancelled operation yields its acknowledgement, whatever the host tells of it.
pub proof fn law_cancelled_operation_is_acknowledged<D>(p: Pending, status: Status)
    requires
        p.cancelled,
    ensures
        outcome::<D>(p, status) == Some(
            Event { op: p.op, terminal: true, result: Ok(Outcome::<D>::Cancelled) },
        ),
{
}

/// Every completion is the last of its operation.
pub proof fn law_completions_are_terminal<D>(p: Pending, status: Status)
    ensures
        outcome::<D>(p, status) is Some ==> outcome::<D>(p, status)->0.terminal && outcome::<D>(
            p,
            status,
        )->0.op == p.op,
{
}

/// One thing that is done to the backend.
pub enum Action {
    Open { handle: Handle, kind: Kind },
    Submit(Request),
    Cancel(OpId),
    /// The host tells of the operation in this slot.
    Settle { slot: int, status: Status },
    Release(Handle),
}

/// The action is taken, not refused.
pub open spec fn allowed(m: Model, action: Action) -> bool {
    match action {
        Action::Open { handle, .. } => handle.spec_index() < m.resources.len()
            && m.resources[handle.spec_index()] is None,
        Action::Submit(request) => asked(m, request) is Ok,
        Action::Cancel(op) => m.holds(op),
        Action::Settle { slot, .. } => 0 <= slot < m.ops.len() && m.ops[slot] is Some,
        Action::Release(h) => m.live(h),
    }
}

/// The backend after an action, and the completions that it brought.
pub open spec fn applied<D>(m: Model, action: Action) -> (Model, Seq<Event<D>>) {
    match action {
        Action::Open { handle, kind } => (
            Model {
                resources: m.resources.update(
                    handle.spec_index(),
                    Some(Resource { handle, kind }),
                ),
                ..m
            },
            Seq::empty(),
        ),
        Action::Submit(request) => (
            Model {
                ops: m.ops.update(
                    request.op.spec_index(),
                    Some(
                        Pending {
                            op: request.op,
                            handle: request.handle,
                            job: asked(m, request)->Ok_0,
                            cancelled: false,
                        },
                    ),
                ),
                ..m
            },
            Seq::empty(),
        ),
        Action::Cancel(op) => (
            Model {
                ops: m.ops.update(
                    op.spec_index(),
                    Some(Pending { cancelled: true, ..m.ops[op.spec_index()]->0 }),
                ),
                ..m
            },
            Seq::empty(),
        ),
        Action::Settle { slot, status } => match outcome::<D>(m.ops[slot]->0, status) {
            Some(e) => (Model { ops: m.ops.update(slot, None), ..m }, seq![e]),
            None => (m, Seq::empty()),
        },
        Action::Release(h) => (
            Model { resources: m.resources.update(h.spec_index(), None), ..m },
            Seq::empty(),
        ),
    }
}

/// The action submits an operation under this name.
pub open spec fn submits(action: Action, op: OpId) -> bool {
    action is Submit && action->Submit_0.op == op
}

/// An action keeps the backend valid. An operation runs on, or the action brought its one
/// completion, which is terminal; what does not run brings nothing.
pub proof fn law_action_ends_an_operation_once<D>(m: Model, action: Action, op: OpId)
    requires
        m.valid(),
        allowed(m, action),
        !submits(action, op),
    ensures
        applied::<D>(m, action).0.valid(),
        count(applied::<D>(m, action).1, op, true) == count(applied::<D>(m, action).1, op, false),
        count(applied::<D>(m, action).1, op, true) + (if applied::<D>(m, action).0.holds(op) {
            1nat
        } else {
            0
        }) == if m.holds(op) {
            1nat
        } else {
            0
        },
{
    let (n, events) = applied::<D>(m, action);
    assert(count(Seq::<Event<D>>::empty(), op, true) == 0);
    assert(count(Seq::<Event<D>>::empty(), op, false) == 0);
    if events.len() > 0 {
        lemma_count_one(events[0], op, true);
        lemma_count_one(events[0], op, false);
        assert(events =~= seq![events[0]]);
    }
}

/// The backend after the first `n` actions.
pub open spec fn after<D>(m: Model, actions: Seq<Action>, n: int) -> Model
    decreases n,
{
    if n <= 0 {
        m
    } else {
        applied::<D>(after::<D>(m, actions, n - 1), actions[n - 1]).0
    }
}

/// The completions of the first `n` actions, in order.
pub open spec fn completions<D>(m: Model, actions: Seq<Action>, n: int) -> Seq<Event<D>>
    decreases n,
{
    if n <= 0 {
        Seq::empty()
    } else {
        completions::<D>(m, actions, n - 1) + applied::<D>(
            after::<D>(m, actions, n - 1),
            actions[n - 1],
        ).1
    }
}

/// Every accepted operation brings exactly one completion, which is terminal: none while it
/// runs, and one from then on, whatever is done in between.
pub proof fn law_one_terminal_completion_per_operation<D>(
    m: Model,
    actions: Seq<Action>,
    op: OpId,
    n: int,
)
    requires
        m.valid(),
        m.holds(op),
        0 <= n <= actions.len(),
        forall|k: int| 0 <= k < n ==> allowed(#[trigger] after::<D>(m, actions, k), actions[k]),
        forall|k: int| 0 <= k < n ==> !submits(#[trigger] actions[k], op),
    ensures
        after::<D>(m, actions, n).valid(),
        count(completions::<D>(m, actions, n), op, true) == count(
            completions::<D>(m, actions, n),
            op,
            false,
        ),
        count(completions::<D>(m, actions, n), op, true) == if after::<D>(m, actions, n).holds(
            op,
        ) {
            0nat
        } else {
            1
        },
    decreases n,
{
    if n > 0 {
        law_one_terminal_completion_per_operation::<D>(m, actions, op, n - 1);
        let before = after::<D>(m, actions, n - 1);
        law_action_ends_an_operation_once::<D>(before, actions[n - 1], op);
        let new = applied::<D>(before, actions[n - 1]).1;
        lemma_count_sum(completions::<D>(m, actions, n - 1), new, op, true);
        lemma_count_sum(completions::<D>(m, actions, n - 1), new, op, false);
    }
}

/// The host is asked for what was requested and nothing else: a socket connects, writes and shuts
/// down, and anything that is open reads, once at a time, into the buffer it was given.
pub proof fn law_host_is_asked_for_what_was_requested(m: Model, request: Request)
    ensures
        ({
            let op = request.operation;
            let i = request.op.spec_index();
            let s = request.handle.spec_index();
            let open = s < m.resources.len() && m.resources[s] is Some && m.resources[s]->0.handle
                == request.handle;
            let free = i < m.ops.len() && m.ops[i] is None;
            let busy = exists|k: int|
                0 <= k < m.ops.len() && #[trigger] m.reads(k, request.handle);
            let socket = m.resources[s]->0.kind is WebSocket;
            let empty = op is Read && op->buf == ReadBuf::Provided(0);
            let single = op is Read && !op->Read_multishot;
            let sends = op is Connect || op is Write || op is Shutdown;
            match asked(m, request) {
                Ok(job) => {
                    &&& open && free
                    &&& job is Connect <==> op is Connect
                    &&& job is Write <==> op is Write
                    &&& job is Shutdown <==> op is Shutdown
                    &&& job is Read <==> op is Read
                    &&& job is Read ==> job->Read_0 == op->buf && single && !empty && !busy
                    &&& sends ==> socket
                },
                Err(kind) => {
                    &&& kind == ErrorKind::NotFound || kind == ErrorKind::Unsupported || kind
                        == ErrorKind::InvalidInput || kind == ErrorKind::WouldBlock
                    &&& kind == ErrorKind::NotFound ==> !open
                    &&& kind == ErrorKind::InvalidInput ==> open && (!free || single && empty)
                    &&& kind == ErrorKind::WouldBlock ==> open && free && single && !empty && busy
                    &&& kind == ErrorKind::Unsupported ==> !single && !(sends && open && free
                        && socket)
                },
            }
        }),
{
}

/// What the host tells of an operation is told as it is, once and for the last time: bytes that do
/// not fit are an error, and a cancelled operation tells nothing but that.
pub proof fn law_statuses_are_told_as_they_are<D>(p: Pending, status: Status)
    ensures
        match outcome::<D>(p, status) {
            None => !p.cancelled && (status is Running || status is NoBuffer),
            Some(e) => {
                &&& e.op == p.op
                &&& e.terminal
                &&& match e.result {
                    Ok(Outcome::Cancelled) => p.cancelled,
                    Ok(Outcome::Connected) => !p.cancelled && status is Connected,
                    Ok(Outcome::Wrote(n)) => !p.cancelled && status == Status::Wrote(n),
                    Ok(Outcome::Shutdown) => !p.cancelled && status is Shutdown,
                    Ok(Outcome::Eof) => !p.cancelled && status is Eof,
                    Ok(Outcome::Read { n, lease }) => !p.cancelled && status is Bytes && status->n
                        == n && status->lease == lease && n <= status->room,
                    Ok(_) => false,
                    Err(error) => !p.cancelled && {
                        ||| status is Failed && error == Error::plain(ErrorKind::Other)
                        ||| status is Bytes && status->n > status->room && error == Error::plain(
                            ErrorKind::ResourceLimit,
                        )
                    },
                }
            },
        },
{
}

/// A ring has a power of two of places, from one to as many as there may be.
pub proof fn law_rings_are_powers_of_two(n: u32)
    ensures
        ring_ok(n) <==> n == 0x1 || n == 0x2 || n == 0x4 || n == 0x8 || n == 0x10 || n == 0x20 || n
            == 0x40 || n == 0x80 || n == 0x100 || n == 0x200 || n == 0x400 || n == 0x800 || n
            == 0x1000 || n == 0x2000 || n == 0x4000 || n == 0x8000 || n == 0x1_0000 || n == 0x2_0000
            || n == 0x4_0000 || n == 0x8_0000 || n == 0x10_0000,
{
    let m = (n - 1) as u32;
    if n > 0 {
        assert((n & m == 0 && n <= 0x10_0000) == (n == 0x1 || n == 0x2 || n == 0x4 || n == 0x8 || n
            == 0x10 || n == 0x20 || n == 0x40 || n == 0x80 || n == 0x100 || n == 0x200 || n == 0x400
            || n == 0x800 || n == 0x1000 || n == 0x2000 || n == 0x4000 || n == 0x8000 || n
            == 0x1_0000 || n == 0x2_0000 || n == 0x4_0000 || n == 0x8_0000 || n == 0x10_0000))
            by (bit_vector)
            requires
                n > 0,
                m + 1 == n,
        ;
    }
}

} // verus!
