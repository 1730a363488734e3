//! Child processes and signal subscriptions of one loop.
use crate::types::{
    invalid, Error, ErrorKind, Event, ExitStatus, Handle, OpId, Operation, Outcome, Request,
    Signal, SLOT_SPAN,
};
use crate::unix::ready_queue::{credited, lemma_published, published, slots_apart, ReadyQueue};
use vstd::prelude::*;

verus! {

/// An owned child.
#[derive(Clone, Copy, Debug, PartialEq, Eq, Structural)]
pub struct ChildState {
    /// How it ended, once it was reaped.
    pub status: Option<ExitStatus>,
    /// It leads a process group that was made for it.
    pub group: bool,
}

/// The child after a wait reported `waited`, and what its owner learns.
pub open spec fn reaped(child: ChildState, waited: Result<Option<ExitStatus>, Error>) -> (
    ChildState,
    Result<Option<ExitStatus>, Error>,
) {
    if child.status is Some {
        (child, Ok(child.status))
    } else {
        match waited {
            Err(e) => (child, Err(e)),
            Ok(None) => (child, Ok(None)),
            Ok(Some(status)) => (ChildState { status: Some(status), ..child }, Ok(Some(status))),
        }
    }
}

impl ChildState {
    /// Whether reaping has to ask the system. A reaped child is never waited for again:
    /// its number may belong to someone else.
    pub fn needs_wait(&self) -> (needs: bool)
        ensures
            needs == (self.status is None),
    {
        self.status.is_none()
    }

    /// Record what a nonblocking wait reported, if one was needed.
    pub fn reap(&mut self, waited: Result<Option<ExitStatus>, Error>) -> (found: Result<
        Option<ExitStatus>,
        Error,
    >)
        ensures
            reaped(*old(self), waited) == (*final(self), found),
    {
        if self.status.is_none() {
            match waited {
                Err(e) => {
                    return Err(e);
                },
                Ok(None) => {},
                Ok(Some(status)) => {
                    self.status = Some(status);
                },
            }
        }
        Ok(self.status)
    }

    /// Whom to kill when the child is given up, before it is waited for: nobody once it was
    /// reaped, and otherwise the child, with its group where it leads one.
    pub open spec fn spec_drop_target(self, pid: i32) -> Option<i32> {
        if self.status is Some {
            None
        } else if self.group {
            Some((-pid) as i32)
        } else {
            Some(pid)
        }
    }

    /// Whom to kill when the child is given up. It is then waited for, so that nothing of it
    /// stays behind.
    pub fn drop_target(&self, pid: i32) -> (target: Option<i32>)
        requires
            pid > 0,
        ensures
            target == self.spec_drop_target(pid),
    {
        if self.status.is_some() {
            None
        } else if self.group {
            Some(-pid)
        } else {
            Some(pid)
        }
    }

    /// The process number to signal: the child, or the group made for it as a negative
    /// number. A reaped child is not found; another group is not ours to signal.
    pub fn kill_target(&self, pid: i32, group: bool) -> (target: Result<i32, Error>)
        requires
            pid > 0,
        ensures
            target == (if self.status is Some {
                Err(Error::plain(ErrorKind::NotFound))
            } else if group && !self.group {
                Err(Error::plain(ErrorKind::InvalidInput))
            } else if group {
                Ok((-pid) as i32)
            } else {
                Ok(pid)
            }),
    {
        if self.status.is_some() {
            return Err(Error::new(ErrorKind::NotFound));
        }
        if group && !self.group {
            return Err(invalid());
        }
        Ok(
            if group {
                -pid
            } else {
                pid
            },
        )
    }
}

/// A child that is given up is killed at most once: with its exit read, nobody is.
pub proof fn law_reaped_child_is_left_alone(
    child: ChildState,
    waited: Result<Option<ExitStatus>, Error>,
    pid: i32,
)
    requires
        pid > 0,
    ensures
        reaped(child, waited).0.spec_drop_target(pid) is None <==> (child.status is Some || (
        waited is Ok && waited->Ok_0 is Some)),
        child.status is None ==> child.spec_drop_target(pid) == Some(
            if child.group {
                (-pid) as i32
            } else {
                pid
            },
        ),
{
}

/// Whether a new child gets a process descriptor. Where its signal is all to go by, none is
/// opened, as on a system that does not have the call (`no_call`).
pub fn process_watch(signal_only: bool, no_call: i32) -> (open: Result<(), Error>)
    ensures
        open == (if signal_only {
            Err(Error { kind: ErrorKind::Unsupported, os: Some(no_call) })
        } else {
            Ok(())
        }),
{
    if signal_only {
        return Err(Error { kind: ErrorKind::Unsupported, os: Some(no_call) });
    }
    Ok(())
}

/// What to do after the system was asked to watch a new child.
#[derive(Clone, Copy, Debug, PartialEq, Eq, Structural)]
pub enum Registration {
    /// It is watched.
    Watched,
    /// It is leaving already: wait for this owned child and keep its status.
    Leaving,
    /// Reap before judging the failure.
    Reap,
}

/// Judge a registration. A child that the system no longer finds is on its way out.
pub fn registered(result: Result<(), Error>, no_process: i32) -> (next: Registration)
    ensures
        next == (match result {
            Ok(_) => Registration::Watched,
            Err(e) => if e.os == Some(no_process) {
                Registration::Leaving
            } else {
                Registration::Reap
            },
        }),
{
    match result {
        Ok(_) => Registration::Watched,
        Err(e) => if e.os == Some(no_process) {
            Registration::Leaving
        } else {
            Registration::Reap
        },
    }
}

/// Judge a failed registration once the child was reaped. An exit explains it; where a
/// child-signal subscription can stand in, one more look is due (`true`); anything else
/// is the caller's error.
pub fn excuse(found: Option<ExitStatus>, error: Error, substitutable: bool) -> (again: Result<
    bool,
    Error,
>)
    ensures
        again == (if found is Some {
            Ok(false)
        } else if substitutable {
            Ok(true)
        } else {
            Err(error)
        }),
{
    if found.is_some() {
        Ok(false)
    } else if substitutable {
        Ok(true)
    } else {
        Err(error)
    }
}

/// Failures of a process descriptor that the child signal makes up for.
pub fn substitutable(os: Option<i32>, unsupported: i32, invalid_argument: i32, not_permitted: i32)
    -> (yes: bool)
    ensures
        yes == (os matches Some(code) && (code == unsupported || code == invalid_argument || code
            == not_permitted)),
{
    match os {
        Some(code) => code == unsupported || code == invalid_argument || code == not_permitted,
        None => false,
    }
}

/// What a service handle stands for.
#[derive(Clone, Copy, Debug, PartialEq, Eq, Structural)]
pub enum Service {
    Child(ChildState),
    Signal(Signal),
}

/// A bound service and the operation that watches it.
#[derive(Clone, Copy, Debug, PartialEq, Eq, Structural)]
pub struct Entry {
    pub handle: Handle,
    pub service: Service,
    pub op: Option<OpId>,
    pub cancelled: bool,
}

/// The services as plain mathematics.
#[verifier::ext_equal]
pub struct Model {
    pub entries: Seq<Option<Entry>>,
    pub operations: Seq<Option<Handle>>,
    pub ready: Seq<Handle>,
    /// The handle whose service the host is asked about.
    pub serving: Option<Handle>,
}

/// What a pass over the ready services wants from the host.
#[derive(Debug)]
pub enum Step<D> {
    /// Ask again.
    Again,
    /// Append this completion and ask again.
    Report(Event<D>),
    /// Take the pending signal of this subscription, and report whether there was one.
    TakeSignal(Handle),
    /// Look whether this child ended; `wait` tells whether the system has to be asked.
    Reap { handle: Handle, wait: bool },
    /// The pass is over.
    Done,
}

/// The operation that a service can be watched by.
pub open spec fn watches(service: Service, operation: Operation) -> bool {
    match service {
        Service::Child(_) => operation is ProcessExit,
        Service::Signal(_) => operation is WatchSignal,
    }
}

impl Model {
    /// The slot of `h` holds exactly this generation of it.
    pub open spec fn live(self, h: Handle) -> bool {
        &&& h.spec_index() < self.entries.len()
        &&& self.entries[h.spec_index()] matches Some(e) && e.handle == h
    }

    pub open spec fn entry_ok(self, s: int) -> bool {
        self.entries[s] matches Some(e) ==> {
            &&& e.handle.spec_index() == s
            &&& e.op matches Some(op) ==> op.spec_index() < self.operations.len()
                && self.operations[op.spec_index()] == Some(e.handle)
            &&& e.op is Some && e.cancelled && e.service is Signal && self.serving != Some(
                e.handle,
            ) ==> credited(self.ready, s)
        }
    }

    pub open spec fn operation_ok(self, i: int) -> bool {
        self.operations[i] matches Some(h) ==> {
            let op = self.entries[h.spec_index()]->0.op;
            self.live(h) && op is Some && op->0.spec_index() == i
        }
    }

    /// A credit never belongs to an older generation of an occupied slot.
    pub open spec fn credit_ok(self, k: int) -> bool {
        let h = self.ready[k];
        &&& h.spec_index() < self.entries.len()
        &&& self.entries[h.spec_index()] matches Some(e) ==> e.handle == h
    }

    /// What every operation on the services keeps.
    pub open spec fn valid(self) -> bool {
        &&& slots_apart(self.ready)
        &&& forall|k: int| 0 <= k < self.ready.len() ==> #[trigger] self.credit_ok(k)
        &&& forall|s: int| 0 <= s < self.entries.len() ==> #[trigger] self.entry_ok(s)
        &&& forall|i: int| 0 <= i < self.operations.len() ==> #[trigger] self.operation_ok(i)
        &&& self.serving matches Some(h) ==> self.live(h) && self.entries[h.spec_index()]->0.op
            is Some
    }

    pub open spec fn with(self, e: Entry) -> Model {
        Model { entries: self.entries.update(e.handle.spec_index(), Some(e)), ..self }
    }

    /// A new service nobody watches yet.
    pub open spec fn bound(self, h: Handle, service: Service) -> Model {
        self.with(Entry { handle: h, service, op: None, cancelled: false })
    }

    /// A watch accepted. A child is looked at once, in case it already ended; a signal
    /// that already arrived is delivered.
    pub open spec fn submitted(self, request: Request, signalled: bool) -> Model {
        let h = request.handle;
        let e = self.entries[h.spec_index()]->0;
        let n = Model {
            operations: self.operations.update(request.op.spec_index(), Some(h)),
            ..self.with(Entry { op: Some(request.op), cancelled: false, ..e })
        };
        if e.service is Child || signalled {
            Model { ready: published(n.ready, h), ..n }
        } else {
            n
        }
    }

    /// The operation `op` is watched for under this handle.
    pub open spec fn watching(self, op: OpId) -> bool {
        &&& op.spec_index() < self.operations.len()
        &&& self.operations[op.spec_index()] matches Some(h)
            && self.entries[h.spec_index()]->0.op == Some(op)
    }

    pub open spec fn withdrawn(self, op: OpId) -> Model {
        let h = self.operations[op.spec_index()]->0;
        let n = self.with(Entry { cancelled: true, ..self.entries[h.spec_index()]->0 });
        Model { ready: published(n.ready, h), ..n }
    }

    /// A service gone from its slot, and its credit with it.
    pub open spec fn removed(self, h: Handle) -> Model {
        Model {
            entries: if self.live(h) {
                self.entries.update(h.spec_index(), None)
            } else {
                self.entries
            },
            ready: self.ready.remove_value(h),
            ..self
        }
    }

    /// The watch of `h` ended.
    pub open spec fn ended(self, h: Handle) -> Model {
        let e = self.entries[h.spec_index()]->0;
        Model {
            operations: self.operations.update(e.op->0.spec_index(), None),
            serving: None,
            ..self.with(Entry { op: None, ..e })
        }
    }

    /// One step of a pass with `budget` handles and `room` for a completion left.
    pub open spec fn advanced<D>(self, budget: nat, room: bool) -> (Model, nat, Step<D>) {
        if budget == 0 || !room || self.ready.len() == 0 {
            (self, budget, Step::Done)
        } else {
            let h = self.ready[0];
            let left = (budget - 1) as nat;
            let n = Model { ready: self.ready.drop_first(), ..self };
            let e = self.entries[h.spec_index()]->0;
            if !self.live(h) || e.op is None {
                (n, left, Step::Again)
            } else {
                match e.service {
                    Service::Signal(_) => if e.cancelled {
                        (
                            n.ended(h),
                            left,
                            Step::Report(
                                Event {
                                    op: e.op->0,
                                    terminal: true,
                                    result: Ok(Outcome::Cancelled),
                                },
                            ),
                        )
                    } else {
                        (Model { serving: Some(h), ..n }, left, Step::TakeSignal(h))
                    },
                    Service::Child(child) => (
                        Model { serving: Some(h), ..n },
                        left,
                        Step::Reap { handle: h, wait: child.status is None },
                    ),
                }
            }
        }
    }

    /// The subscription in hand had a signal, or not. Delivering one keeps the watch.
    pub open spec fn signalled<D>(self, took: bool) -> (Model, Option<Event<D>>) {
        let e = self.entries[self.serving->0.spec_index()]->0;
        (
            Model { serving: None, ..self },
            match e.service {
                Service::Signal(signal) if took => Some(
                    Event { op: e.op->0, terminal: false, result: Ok(Outcome::Signal(signal)) },
                ),
                _ => None,
            },
        )
    }

    /// The child in hand was looked at. Its exit, or a failure to look, ends the watch.
    pub open spec fn looked<D>(self, waited: Result<Option<ExitStatus>, Error>) -> (
        Model,
        Option<Event<D>>,
    ) {
        let h = self.serving->0;
        let e = self.entries[h.spec_index()]->0;
        match e.service {
            Service::Signal(_) => (Model { serving: None, ..self }, None),
            Service::Child(child) => {
                let (after, found) = reaped(child, waited);
                let n = self.with(Entry { service: Service::Child(after), ..e });
                match found {
                    Err(error) => (
                        n.ended(h),
                        Some(Event { op: e.op->0, terminal: true, result: Err(error) }),
                    ),
                    Ok(None) => (Model { serving: None, ..n }, None),
                    Ok(Some(status)) => (
                        n.ended(h),
                        Some(
                            Event {
                                op: e.op->0,
                                terminal: true,
                                result: Ok(
                                    if e.cancelled {
                                        Outcome::Cancelled
                                    } else {
                                        Outcome::Exited(status)
                                    },
                                ),
                            },
                        ),
                    ),
                }
            },
        }
    }
}

/// An exit is delivered exactly once: its event ends the watch, and a child that was
/// reaped is never waited for again.
pub proof fn law_exit_is_delivered_once<D>(
    m: Model,
    status: ExitStatus,
    again: Result<Option<ExitStatus>, Error>,
)
    requires
        m.valid(),
        m.serving is Some,
        m.entries[m.serving->0.spec_index()]->0.service is Child,
    ensures
        ({
            let h = m.serving->0;
            let op = m.entries[h.spec_index()]->0.op->0;
            let (n, event) = m.looked::<D>(Ok(Some(status)));
            let e = n.entries[h.spec_index()]->0;
            &&& event is Some && event->0.terminal && event->0.op == op
            &&& !n.watching(op)
            &&& e.op is None
            &&& e.service is Child
            &&& reaped(e.service->Child_0, again).1 == Ok::<Option<ExitStatus>, Error>(
                e.service->Child_0.status,
            )
            &&& e.service->Child_0.status is Some
        }),
{
    let h = m.serving->0;
    assert(m.entry_ok(h.spec_index()));
}

/// A signal is delivered without ending its watch; a signal subscription that was
/// cancelled delivers nothing but its acknowledgement.
pub proof fn law_signal_watch_goes_on<D>(m: Model, took: bool)
    requires
        m.valid(),
        m.serving is Some,
        m.entries[m.serving->0.spec_index()]->0.service is Signal,
    ensures
        m.signalled::<D>(took).1 is Some <==> took,
        m.signalled::<D>(took).1 is Some ==> !m.signalled::<D>(took).1->0.terminal,
        m.signalled::<D>(took).0.entries == m.entries,
        m.signalled::<D>(took).0.operations == m.operations,
{
}

/// The watches of children and signals of one loop.
#[derive(Debug)]
pub struct Services {
    entries: Vec<Option<Entry>>,
    operations: Vec<Option<Handle>>,
    ready: ReadyQueue,
    serving: Option<Handle>,
}

impl View for Services {
    type V = Model;

    closed spec fn view(&self) -> Model {
        Model {
            entries: self.entries@,
            operations: self.operations@,
            ready: self.ready@,
            serving: self.serving,
        }
    }
}

impl Services {
    pub closed spec fn wf(&self) -> bool {
        &&& self.ready.wf()
        &&& self.ready.slots() == self.entries@.len()
        &&& self@.valid()
    }

    /// What is true of valid tables is true of every table that calls lead to.
    pub proof fn law_tables_are_valid(&self)
        requires
            self.wf(),
        ensures
            self@.valid(),
    {
    }

    /// Room for `handles` services and `operations` operations.
    pub fn new(handles: usize, operations: usize) -> (services: Self)
        ensures
            services.wf(),
            services@.entries == Seq::new(handles as nat, |s: int| None::<Entry>),
            services@.operations == Seq::new(operations as nat, |i: int| None::<Handle>),
            services@.ready == Seq::<Handle>::empty(),
            services@.serving is None,
    {
        let mut entries: Vec<Option<Entry>> = Vec::new();
        let mut table: Vec<Option<Handle>> = Vec::new();
        let mut s: usize = 0;
        while s < handles
            invariant
                s <= handles,
                entries@ == Seq::new(s as nat, |s: int| None::<Entry>),
            decreases handles - s,
        {
            entries.push(None);
            s = s + 1;
        }
        let mut i: usize = 0;
        while i < operations
            invariant
                i <= operations,
                table@ == Seq::new(i as nat, |i: int| None::<Handle>),
            decreases operations - i,
        {
            table.push(None);
            i = i + 1;
        }
        Services { entries, operations: table, ready: ReadyQueue::new(handles), serving: None }
    }

    /// Whether exactly this handle is a service.
    pub fn contains(&self, h: Handle) -> (found: bool)
        ensures
            found == self@.live(h),
    {
        self.find(h).is_some()
    }

    fn find(&self, h: Handle) -> (entry: Option<Entry>)
        ensures
            entry == (if self@.live(h) {
                self@.entries[h.spec_index()]
            } else {
                None
            }),
    {
        let s: usize = h.index();
        if s < self.entries.len() {
            if let Some(e) = self.entries[s] {
                if e.handle == h {
                    return Some(e);
                }
            }
        }
        None
    }

    /// Bind a child or a subscription to a free slot. A credit that is already there is
    /// its own: a subscription may fire before its handle is bound.
    pub fn bind(&mut self, h: Handle, service: Service)
        requires
            old(self).wf(),
            old(self)@.serving is None,
            h.spec_index() < old(self)@.entries.len(),
            old(self)@.entries[h.spec_index()] is None,
            forall|k: int|
                0 <= k < old(self)@.ready.len() && (#[trigger] old(self)@.ready[k]).spec_index()
                    == h.spec_index() ==> old(self)@.ready[k] == h,
        ensures
            final(self).wf(),
            final(self)@ == old(self)@.bound(h, service),
    {
        let ghost m = self@;
        let s: usize = h.index();
        self.entries[s] = Some(Entry { handle: h, service, op: None, cancelled: false });
        proof {
            let n = self@;
            assert forall|k: int| 0 <= k < n.ready.len() implies #[trigger] n.credit_ok(k) by {
                assert(m.credit_ok(k));
            }
            assert forall|t: int| 0 <= t < n.entries.len() implies #[trigger] n.entry_ok(t) by {
                assert(m.entry_ok(t));
            }
            assert forall|i: int| 0 <= i < n.operations.len() implies #[trigger] n.operation_ok(
                i,
            ) by {
                assert(m.operation_ok(i));
            }
        }
    }

    /// Accept a watch. `signalled` tells whether the subscription already has a signal.
    pub fn submit(&mut self, request: &Request, signalled: bool) -> (done: Result<(), Error>)
        requires
            old(self).wf(),
            old(self)@.serving is None,
            request.op.spec_index() < old(self)@.operations.len(),
            old(self)@.operations[request.op.spec_index()] is None,
        ensures
            final(self).wf(),
            ({
                let e = old(self)@.entries[request.handle.spec_index()]->0;
                if !old(self)@.live(request.handle) {
                    done == Err::<(), Error>(Error::plain(ErrorKind::NotFound)) && final(self)@
                        == old(self)@
                } else if e.op is Some || !watches(e.service, request.operation) {
                    done == Err::<(), Error>(Error::plain(ErrorKind::InvalidInput))
                        && final(self)@ == old(self)@
                } else {
                    done is Ok && final(self)@ == old(self)@.submitted(*request, signalled)
                }
            }),
    {
        let ghost m = self@;
        let h = request.handle;
        let e = match self.find(h) {
            None => {
                return Err(Error::new(ErrorKind::NotFound));
            },
            Some(e) => e,
        };
        let child = match e.service {
            Service::Child(_) => true,
            Service::Signal(_) => false,
        };
        let fitting = if child {
            matches!(request.operation, Operation::ProcessExit)
        } else {
            matches!(request.operation, Operation::WatchSignal)
        };
        if e.op.is_some() || !fitting {
            return Err(invalid());
        }
        let s: usize = h.index();
        let i: usize = request.op.index();
        self.entries[s] = Some(Entry { op: Some(request.op), cancelled: false, ..e });
        self.operations[i] = Some(h);
        if child || signalled {
            self.ready.push(h);
        }
        proof {
            let n = self@;
            lemma_published(m.ready, h);
            self.ready.law_well_formed();
            assert forall|k: int| 0 <= k < n.ready.len() implies #[trigger] n.credit_ok(k) by {
                if k < m.ready.len() {
                    assert(m.credit_ok(k));
                }
            }
            assert forall|t: int| 0 <= t < n.entries.len() implies #[trigger] n.entry_ok(t) by {
                assert(m.entry_ok(t));
            }
            assert forall|j: int| 0 <= j < n.operations.len() implies #[trigger] n.operation_ok(
                j,
            ) by {
                assert(m.operation_ok(j));
            }
        }
        Ok(())
    }

    /// Start cancelling a watch; false if no watch of these services is meant.
    pub fn cancel(&mut self, op: OpId) -> (found: bool)
        requires
            old(self).wf(),
            old(self)@.serving is None,
        ensures
            final(self).wf(),
            found == old(self)@.watching(op),
            final(self)@ == (if found {
                old(self)@.withdrawn(op)
            } else {
                old(self)@
            }),
    {
        let ghost m = self@;
        let i: usize = op.index();
        if i >= self.operations.len() {
            return false;
        }
        let h = match self.operations[i] {
            None => {
                return false;
            },
            Some(h) => h,
        };
        proof {
            assert(m.operation_ok(i as int));
        }
        let s: usize = h.index();
        match self.entries[s] {
            None => false,
            Some(e) => {
                if e.op != Some(op) {
                    return false;
                }
                self.entries[s] = Some(Entry { cancelled: true, ..e });
                self.ready.push(h);
                proof {
                    let n = self@;
                    lemma_published(m.ready, h);
                    self.ready.law_well_formed();
                    assert forall|k: int| 0 <= k < n.ready.len() implies #[trigger] n.credit_ok(
                        k,
                    ) by {
                        if k < m.ready.len() {
                            assert(m.credit_ok(k));
                        }
                    }
                    assert forall|t: int| 0 <= t < n.entries.len() implies #[trigger] n.entry_ok(
                        t,
                    ) by {
                        assert(m.entry_ok(t));
                    }
                    assert forall|j: int|
                        0 <= j < n.operations.len() implies #[trigger] n.operation_ok(j) by {
                        assert(m.operation_ok(j));
                    }
                }
                true
            },
        }
    }

    /// Give a handle its credit, as a subscription does when its signal arrives.
    pub fn publish(&mut self, h: Handle)
        requires
            old(self).wf(),
            h.spec_index() < old(self)@.entries.len(),
            old(self)@.entries[h.spec_index()] matches Some(e) ==> e.handle == h,
        ensures
            final(self).wf(),
            final(self)@ == (Model { ready: published(old(self)@.ready, h), ..old(self)@ }),
    {
        let ghost m = self@;
        self.ready.push(h);
        proof {
            let n = self@;
            lemma_published(m.ready, h);
            self.ready.law_well_formed();
            assert forall|k: int| 0 <= k < n.ready.len() implies #[trigger] n.credit_ok(k) by {
                if k < m.ready.len() {
                    assert(m.credit_ok(k));
                }
            }
            assert forall|t: int| 0 <= t < n.entries.len() implies #[trigger] n.entry_ok(t) by {
                assert(m.entry_ok(t));
            }
            assert forall|j: int| 0 <= j < n.operations.len() implies #[trigger] n.operation_ok(
                j,
            ) by {
                assert(m.operation_ok(j));
            }
        }
    }

    /// A native readiness report: true if its key names a service of this generation,
    /// which then gets a credit if it is watched.
    pub fn ready(&mut self, key: u64) -> (found: bool)
        requires
            old(self).wf(),
        ensures
            final(self).wf(),
            ({
                let s = (key % SLOT_SPAN) as int;
                let e = old(self)@.entries[s]->0;
                &&& found == (s < old(self)@.entries.len() && (old(self)@.entries[s] matches Some(
                    e,
                ) && e.handle.key == key))
                &&& final(self)@ == (if found && e.op is Some {
                    Model { ready: published(old(self)@.ready, e.handle), ..old(self)@ }
                } else {
                    old(self)@
                })
            }),
    {
        let s: usize = (key % SLOT_SPAN) as usize;
        if s >= self.entries.len() {
            return false;
        }
        match self.entries[s] {
            None => false,
            Some(e) => {
                if e.handle.key != key {
                    return false;
                }
                proof {
                    assert(self@.entry_ok(s as int));
                }
                if e.op.is_some() {
                    self.publish(e.handle);
                }
                true
            },
        }
    }

    /// Whether any service may have something to deliver.
    pub fn has_work(&self) -> (work: bool)
        ensures
            work == (self@.ready.len() > 0),
    {
        self.ready.has_work()
    }

    fn end(&mut self, h: Handle, e: Entry)
        requires
            old(self).ready.wf(),
            old(self).ready.slots() == old(self).entries@.len(),
            old(self)@.live(h),
            old(self)@.entries[h.spec_index()] == Some(e),
            e.op is Some,
            e.op->0.spec_index() < old(self)@.operations.len(),
        ensures
            final(self)@ == old(self)@.ended(h),
            final(self).ready == old(self).ready,
    {
        if let Some(op) = e.op {
            let i: usize = op.index();
            self.operations[i] = None;
        }
        let s: usize = h.index();
        self.entries[s] = Some(Entry { op: None, ..e });
        self.serving = None;
    }

    /// Take one step of a pass over the ready services.
    pub fn advance<D>(&mut self, budget: &mut usize, room: bool) -> (step: Step<D>)
        requires
            old(self).wf(),
            old(self)@.serving is None,
        ensures
            final(self).wf(),
            (final(self)@, *final(budget) as nat, step) == old(self)@.advanced::<D>(
                *old(budget) as nat,
                room,
            ),
    {
        let ghost m = self@;
        if *budget == 0 || !room {
            return Step::Done;
        }
        let h = match self.ready.pop() {
            None => {
                return Step::Done;
            },
            Some(h) => h,
        };
        *budget = *budget - 1;
        let found = self.find(h);
        let ghost popped = self@;
        let step = match found {
            None => Step::Again,
            Some(e) => match e.op {
                None => Step::Again,
                Some(op) => {
                    proof {
                        assert(m.entry_ok(h.spec_index()));
                    }
                    match e.service {
                        Service::Signal(_) => {
                            if e.cancelled {
                                self.end(h, e);
                                Step::Report(
                                    Event { op, terminal: true, result: Ok(Outcome::Cancelled) },
                                )
                            } else {
                                self.serving = Some(h);
                                Step::TakeSignal(h)
                            }
                        },
                        Service::Child(child) => {
                            self.serving = Some(h);
                            Step::Reap { handle: h, wait: child.needs_wait() }
                        },
                    }
                },
            },
        };
        proof {
            let n = self@;
            self.ready.law_well_formed();
            lemma_served(m, popped, n, h);
        }
        step
    }

    /// Whether the subscription in hand had a signal.
    pub fn signal_taken<D>(&mut self, took: bool) -> (event: Option<Event<D>>)
        requires
            old(self).wf(),
            old(self)@.serving matches Some(h) && old(self)@.entries[h.spec_index()]->0.service
                is Signal && !old(self)@.entries[h.spec_index()]->0.cancelled,
        ensures
            final(self).wf(),
            (final(self)@, event) == old(self)@.signalled::<D>(took),
    {
        let ghost m = self@;
        let mut event = None;
        if let Some(h) = self.serving {
            if let Some(e) = self.find(h) {
                if let (Service::Signal(signal), Some(op)) = (e.service, e.op) {
                    if took {
                        event =
                        Some(Event { op, terminal: false, result: Ok(Outcome::Signal(signal)) });
                    }
                }
            }
        }
        self.serving = None;
        proof {
            let n = self@;
            assert forall|k: int| 0 <= k < n.ready.len() implies #[trigger] n.credit_ok(k) by {
                assert(m.credit_ok(k));
            }
            assert forall|t: int| 0 <= t < n.entries.len() implies #[trigger] n.entry_ok(t) by {
                assert(m.entry_ok(t));
            }
            assert forall|j: int| 0 <= j < n.operations.len() implies #[trigger] n.operation_ok(
                j,
            ) by {
                assert(m.operation_ok(j));
            }
        }
        event
    }

    /// What looking at the child in hand brought.
    pub fn child_reaped<D>(&mut self, waited: Result<Option<ExitStatus>, Error>) -> (event: Option<
        Event<D>,
    >)
        requires
            old(self).wf(),
            old(self)@.serving matches Some(h) && old(self)@.entries[h.spec_index()]->0.service
                is Child,
        ensures
            final(self).wf(),
            (final(self)@, event) == old(self)@.looked::<D>(waited),
    {
        let ghost m = self@;
        let mut event = None;
        if let Some(h) = self.serving {
            if let Some(e) = self.find(h) {
                if let (Service::Child(child), Some(op)) = (e.service, e.op) {
                    proof {
                        assert(m.entry_ok(h.spec_index()));
                    }
                    let mut child = child;
                    let found = child.reap(waited);
                    let s: usize = h.index();
                    let kept = Entry { service: Service::Child(child), ..e };
                    self.entries[s] = Some(kept);
                    match found {
                        Err(error) => {
                            self.end(h, kept);
                            event = Some(Event { op, terminal: true, result: Err(error) });
                        },
                        Ok(None) => {
                            self.serving = None;
                        },
                        Ok(Some(status)) => {
                            self.end(h, kept);
                            let outcome = if e.cancelled {
                                Outcome::Cancelled
                            } else {
                                Outcome::Exited(status)
                            };
                            event = Some(Event { op, terminal: true, result: Ok(outcome) });
                        },
                    }
                    proof {
                        let n = self@;
                        assert forall|k: int| 0 <= k < n.ready.len() implies #[trigger] n.credit_ok(
                            k,
                        ) by {
                            assert(m.credit_ok(k));
                        }
                        assert forall|t: int| 0 <= t < n.entries.len() implies #[trigger] n.entry_ok(
                            t,
                        ) by {
                            assert(m.entry_ok(t));
                        }
                        assert forall|j: int|
                            0 <= j < n.operations.len() implies #[trigger] n.operation_ok(j) by {
                            assert(m.operation_ok(j));
                        }
                    }
                }
            }
        }
        event
    }

    /// Whether closing `h` first has to look at a child, and whether the system has to be
    /// asked for that.
    pub fn close_look(&self, h: Handle) -> (look: Option<bool>)
        ensures
            look == (if self@.live(h) && self@.entries[h.spec_index()]->0.service is Child {
                Some(self@.entries[h.spec_index()]->0.service->Child_0.status is None)
            } else {
                None
            }),
    {
        match self.find(h) {
            Some(e) => match e.service {
                Service::Child(child) => Some(child.needs_wait()),
                Service::Signal(_) => None,
            },
            None => None,
        }
    }

    /// Note what the look brought. A child that still runs has to be killed (`true`);
    /// otherwise its watch gets its credit right away.
    pub fn close_looked(&mut self, h: Handle, waited: Result<Option<ExitStatus>, Error>) -> (kill:
        Result<bool, Error>)
        requires
            old(self).wf(),
            old(self)@.serving is None,
            old(self)@.live(h),
            old(self)@.entries[h.spec_index()]->0.service is Child,
        ensures
            final(self).wf(),
            ({
                let e = old(self)@.entries[h.spec_index()]->0;
                let (after, found) = reaped(e.service->Child_0, waited);
                let n = old(self)@.with(Entry { service: Service::Child(after), ..e });
                match found {
                    Err(error) => kill == Err::<bool, Error>(error) && final(self)@ == n,
                    Ok(None) => kill == Ok::<bool, Error>(true) && final(self)@ == n,
                    Ok(Some(_)) => kill == Ok::<bool, Error>(false) && final(self)@ == (Model {
                        ready: published(n.ready, h),
                        ..n
                    }),
                }
            }),
    {
        let ghost m = self@;
        if let Some(e) = self.find(h) {
            if let Service::Child(child) = e.service {
                let mut child = child;
                let found = child.reap(waited);
                let s: usize = h.index();
                self.entries[s] = Some(Entry { service: Service::Child(child), ..e });
                proof {
                    let n = self@;
                    assert forall|k: int| 0 <= k < n.ready.len() implies #[trigger] n.credit_ok(
                        k,
                    ) by {
                        assert(m.credit_ok(k));
                    }
                    assert forall|t: int| 0 <= t < n.entries.len() implies #[trigger] n.entry_ok(
                        t,
                    ) by {
                        assert(m.entry_ok(t));
                    }
                    assert forall|j: int|
                        0 <= j < n.operations.len() implies #[trigger] n.operation_ok(j) by {
                        assert(m.operation_ok(j));
                    }
                }
                return match found {
                    Err(error) => Err(error),
                    Ok(None) => Ok(true),
                    Ok(Some(_)) => {
                        self.publish(h);
                        Ok(false)
                    },
                };
            }
        }
        assert(false);
        Ok(false)
    }

    /// The child of a closing handle was killed: its exit will be delivered.
    pub fn close_killed(&mut self, h: Handle)
        requires
            old(self).wf(),
            old(self)@.live(h),
        ensures
            final(self).wf(),
            final(self)@ == (Model { ready: published(old(self)@.ready, h), ..old(self)@ }),
    {
        self.publish(h);
    }

    /// Whom to kill when `h` closes or goes: the child that it stands for, with its group
    /// where it leads one, unless it was reaped. No other handle has one.
    pub fn close_target(&self, h: Handle, pid: i32) -> (target: Option<i32>)
        requires
            pid > 0,
        ensures
            target == (if self@.live(h) {
                match self@.entries[h.spec_index()]->0.service {
                    Service::Child(child) => child.spec_drop_target(pid),
                    Service::Signal(_) => None,
                }
            } else {
                None
            }),
    {
        match self.find(h) {
            Some(e) => match e.service {
                Service::Child(child) => child.drop_target(pid),
                Service::Signal(_) => None,
            },
            None => None,
        }
    }

    /// The process number to signal for a live child handle.
    pub fn kill_target(&self, h: Handle, pid: i32, group: bool) -> (target: Result<i32, Error>)
        requires
            pid > 0,
        ensures
            if !self@.live(h) {
                target == Err::<i32, Error>(Error::plain(ErrorKind::NotFound))
            } else {
                match self@.entries[h.spec_index()]->0.service {
                    Service::Signal(_) => target == Err::<i32, Error>(
                        Error::plain(ErrorKind::InvalidInput),
                    ),
                    Service::Child(child) => target == (if child.status is Some {
                        Err::<i32, Error>(Error::plain(ErrorKind::NotFound))
                    } else if group && !child.group {
                        Err(Error::plain(ErrorKind::InvalidInput))
                    } else if group {
                        Ok((-pid) as i32)
                    } else {
                        Ok(pid)
                    }),
                }
            },
    {
        match self.find(h) {
            None => Err(Error::new(ErrorKind::NotFound)),
            Some(e) => match e.service {
                Service::Child(child) => child.kill_target(pid, group),
                Service::Signal(_) => Err(invalid()),
            },
        }
    }

    /// Forget a service that nobody watches any more, and its credit.
    pub fn release(&mut self, h: Handle)
        requires
            old(self).wf(),
            old(self)@.serving is None,
            h.spec_index() < old(self)@.entries.len(),
            old(self)@.live(h) ==> old(self)@.entries[h.spec_index()]->0.op is None,
            forall|k: int|
                0 <= k < old(self)@.ready.len() && (#[trigger] old(self)@.ready[k]).spec_index()
                    == h.spec_index() ==> old(self)@.ready[k] == h,
        ensures
            final(self).wf(),
            final(self)@ == old(self)@.removed(h),
    {
        let ghost m = self@;
        let s: usize = h.index();
        if self.contains(h) {
            self.entries[s] = None;
        }
        self.ready.remove(h);
        proof {
            let n = self@;
            self.ready.law_well_formed();
            lemma_credit_removed(m.ready, h);
            assert forall|k: int| 0 <= k < n.ready.len() implies #[trigger] n.credit_ok(k) by {
                let x = n.ready[k];
                assert(n.ready.contains(x));
                crate::queues::lemma_remove_value(m.ready, h);
                let kk = choose|kk: int| 0 <= kk < m.ready.len() && m.ready[kk] == x;
                assert(m.credit_ok(kk));
            }
            assert forall|t: int| 0 <= t < n.entries.len() implies #[trigger] n.entry_ok(t) by {
                assert(m.entry_ok(t));
                if t == s && credited(m.ready, t) {
                    let k = choose|k: int|
                        0 <= k < m.ready.len() && (#[trigger] m.ready[k]).spec_index() == t;
                    assert(m.credit_ok(k));
                }
            }
            assert forall|j: int| 0 <= j < n.operations.len() implies #[trigger] n.operation_ok(
                j,
            ) by {
                assert(m.operation_ok(j));
            }
        }
    }
}

/// Removing a credit keeps every other one.
pub proof fn lemma_credit_removed(queue: Seq<Handle>, h: Handle)
    requires
        slots_apart(queue),
        forall|k: int|
            0 <= k < queue.len() && (#[trigger] queue[k]).spec_index() == h.spec_index()
                ==> queue[k] == h,
    ensures
        forall|s: int|
            s != h.spec_index() ==> #[trigger] credited(queue.remove_value(h), s) == credited(
                queue,
                s,
            ),
{
    assert(queue.no_duplicates()) by {
        assert forall|j: int, k: int| 0 <= j < queue.len() && 0 <= k < queue.len() && j
            != k implies queue[j] != queue[k] by {
            assert(queue[j].spec_index() != queue[k].spec_index());
        }
    }
    crate::queues::lemma_remove_value(queue, h);
    let rest = queue.remove_value(h);
    assert forall|s: int| s != h.spec_index() implies #[trigger] credited(rest, s) == credited(
        queue,
        s,
    ) by {
        if credited(rest, s) {
            let k = choose|k: int| 0 <= k < rest.len() && (#[trigger] rest[k]).spec_index() == s;
            assert(rest.contains(rest[k]));
            let kk = choose|kk: int| 0 <= kk < queue.len() && queue[kk] == rest[k];
            assert(queue[kk].spec_index() == s);
        }
        if credited(queue, s) {
            let k = choose|k: int| 0 <= k < queue.len() && (#[trigger] queue[k]).spec_index() == s;
            assert(queue.contains(queue[k]));
            assert(rest.contains(queue[k]));
            let kk = choose|kk: int| 0 <= kk < rest.len() && rest[kk] == queue[k];
            assert(rest[kk].spec_index() == s);
        }
    }
}

/// Picking up the oldest credit keeps the services valid, whatever is done about it.
pub proof fn lemma_served(m: Model, popped: Model, n: Model, h: Handle)
    requires
        m.valid(),
        m.serving is None,
        m.ready.len() > 0,
        h == m.ready[0],
        popped == (Model { ready: m.ready.drop_first(), ..m }),
        slots_apart(popped.ready),
        ({
            let e = m.entries[h.spec_index()]->0;
            if !m.live(h) || e.op is None {
                n == popped
            } else if e.service is Signal && e.cancelled {
                n == popped.ended(h)
            } else {
                n == (Model { serving: Some(h), ..popped })
            }
        }),
    ensures
        n.valid(),
{
    assert forall|s: int| s != h.spec_index() && credited(m.ready, s) implies #[trigger] credited(
        n.ready,
        s,
    ) by {
        let k = choose|k: int|
            0 <= k < m.ready.len() && (#[trigger] m.ready[k]).spec_index() == s;
        assert(n.ready[k - 1].spec_index() == s);
    }
    assert forall|k: int| 0 <= k < n.ready.len() implies #[trigger] n.credit_ok(k) by {
        assert(m.credit_ok(k + 1));
    }
    assert(m.credit_ok(0));
    assert(m.entry_ok(h.spec_index()));
    assert forall|t: int| 0 <= t < n.entries.len() implies #[trigger] n.entry_ok(t) by {
        assert(m.entry_ok(t));
    }
    assert forall|j: int| 0 <= j < n.operations.len() implies #[trigger] n.operation_ok(j) by {
        assert(m.operation_ok(j));
    }
}

/// A child is watched for its exit and a subscription for its signal, and neither for the other.
pub proof fn law_services_have_their_watches(service: Service, operation: Operation)
    ensures
        watches(service, operation) <==> (service is Child && operation is ProcessExit) || (service
            is Signal && operation is WatchSignal),
{
}

/// A watch is held under its full identity. A child is looked at once, in case it has ended, and a
/// signal that arrived before is not missed: both are in line to be served.
pub proof fn law_new_watch_is_looked_at(m: Model, request: Request, signalled: bool)
    requires
        m.valid(),
        m.live(request.handle),
        request.op.spec_index() < m.operations.len(),
    ensures
        ({
            let s = request.handle.spec_index();
            let n = m.submitted(request, signalled);
            &&& n.watching(request.op)
            &&& n.operations[request.op.spec_index()] == Some(request.handle)
            &&& n.entries[s]->0.op == Some(request.op) && !n.entries[s]->0.cancelled
            &&& n.entries[s]->0.service == m.entries[s]->0.service
            &&& m.entries[s]->0.service is Child || signalled ==> exists|k: int|
                0 <= k < n.ready.len() && (#[trigger] n.ready[k]).spec_index() == s
        }),
{
    let s = request.handle.spec_index();
    let n = m.submitted(request, signalled);
    if m.entries[s]->0.service is Child || signalled {
        if !credited(m.ready, s) {
            assert(n.ready[m.ready.len() as int] == request.handle);
        } else {
            assert(credited(n.ready, s));
        }
    }
}

/// A cancelled watch is in line to be served, and served as cancelled.
pub proof fn law_cancelled_watch_is_looked_at(m: Model, op: OpId)
    requires
        m.valid(),
        m.watching(op),
    ensures
        ({
            let h = m.operations[op.spec_index()]->0;
            let n = m.withdrawn(op);
            &&& n.watching(op)
            &&& n.entries[h.spec_index()]->0.cancelled
            &&& exists|k: int|
                0 <= k < n.ready.len() && (#[trigger] n.ready[k]).spec_index() == h.spec_index()
        }),
{
    assert(m.operation_ok(op.spec_index()));
    let h = m.operations[op.spec_index()]->0;
    assert(m.entry_ok(h.spec_index()));
    let n = m.withdrawn(op);
    if !credited(m.ready, h.spec_index()) {
        assert(n.ready[m.ready.len() as int] == h);
    } else {
        assert(credited(n.ready, h.spec_index()));
    }
}

/// What is first in line is served: of a child it is asked whether it ended, unless that is known;
/// of a subscription its signal is taken, unless it was cancelled, which is told then. A service
/// that nobody watches is passed over.
pub proof fn law_first_in_line_is_served<D>(m: Model, budget: nat)
    requires
        m.valid(),
        m.ready.len() > 0,
        budget > 0,
    ensures
        ({
            let h = m.ready[0];
            let e = m.entries[h.spec_index()]->0;
            let (n, left, step) = m.advanced::<D>(budget, true);
            let watched = m.live(h) && e.op is Some;
            &&& left == budget - 1
            &&& n.ready == m.ready.drop_first()
            &&& !watched ==> step is Again
            &&& watched && e.service is Child ==> step == (Step::<D>::Reap {
                handle: h,
                wait: e.service->Child_0.status is None,
            }) && n.serving == Some(h)
            &&& watched && e.service is Signal && !e.cancelled ==> step == Step::<D>::TakeSignal(h)
                && n.serving == Some(h)
            &&& watched && e.service is Signal && e.cancelled ==> step == Step::<D>::Report(
                Event { op: e.op->0, terminal: true, result: Ok(Outcome::Cancelled) },
            ) && n.entries[h.spec_index()]->0.op is None
        }),
{
    assert(m.credit_ok(0));
    assert(m.entry_ok(m.ready[0].spec_index()));
}

/// What a look at a child brought is told under its watch as it is: how it ended, unless it was
/// cancelled; why it could not be looked at; and nothing while it runs, which leaves it watched.
pub proof fn law_exits_are_told_as_they_are<D>(m: Model, waited: Result<Option<ExitStatus>, Error>)
    requires
        m.valid(),
        m.serving is Some,
        m.entries[m.serving->0.spec_index()]->0.service is Child,
        (m.entries[m.serving->0.spec_index()]->0.service->Child_0).status is None,
    ensures
        ({
            let s = m.serving->0.spec_index();
            let e = m.entries[s]->0;
            let (n, event) = m.looked::<D>(waited);
            let after = n.entries[s]->0;
            match waited {
                Ok(None) => event is None && after.op == e.op && n.watching(e.op->0),
                Ok(Some(status)) => {
                    &&& event == Some(
                        Event::<D> {
                            op: e.op->0,
                            terminal: true,
                            result: Ok(
                                if e.cancelled {
                                    Outcome::Cancelled
                                } else {
                                    Outcome::Exited(status)
                                },
                            ),
                        },
                    )
                    &&& after.op is None
                    &&& after.service is Child && after.service->Child_0.status == Some(status)
                },
                Err(error) => event == Some(
                    Event::<D> { op: e.op->0, terminal: true, result: Err(error) },
                ) && after.op is None && after.service == e.service,
            }
        }),
{
    assert(m.entry_ok(m.serving->0.spec_index()));
}

/// A signal is told under the watch of its own subscription, and goes on being watched.
pub proof fn law_signals_are_told_as_they_are<D>(m: Model)
    requires
        m.valid(),
        m.serving is Some,
        m.entries[m.serving->0.spec_index()]->0.service is Signal,
    ensures
        ({
            let e = m.entries[m.serving->0.spec_index()]->0;
            m.signalled::<D>(true).1 == Some(
                Event::<D> {
                    op: e.op->0,
                    terminal: false,
                    result: Ok(Outcome::Signal(e.service->Signal_0)),
                },
            )
        }),
        m.signalled::<D>(false).1 is None,
{
}

/// A service that is given up is gone from its slot and from the line, and no other is.
pub proof fn law_released_service_is_gone(m: Model, h: Handle)
    requires
        m.valid(),
    ensures
        ({
            let n = m.removed(h);
            &&& !n.live(h)
            &&& !n.ready.contains(h)
            &&& forall|s: int|
                0 <= s < m.entries.len() && (s != h.spec_index() || !m.live(h))
                    ==> #[trigger] n.entries[s] == m.entries[s]
            &&& n.operations == m.operations
        }),
{
    lemma_apart(m.ready);
    crate::queues::lemma_remove_value(m.ready, h);
}

/// Handles in slots of their own are different.
proof fn lemma_apart(queue: Seq<Handle>)
    requires
        slots_apart(queue),
    ensures
        queue.no_duplicates(),
{
}

} // verus!
