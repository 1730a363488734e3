//! Children and console signals of one loop, looked at in slot order.
use crate::types::{
    invalid, unsupported, Error, ErrorKind, Event, ExitStatus, Handle, OpId, Operation, Outcome,
    Request, Signal,
};
use vstd::prelude::*;

verus! {

/// What a service handle stands for.
#[derive(Clone, Copy, Debug, PartialEq, Eq, Structural)]
pub enum Service {
    Child,
    Signal(Signal),
}

/// A bound service and the operation that watches it.
#[derive(Clone, Copy, Debug, PartialEq, Eq, Structural)]
pub struct Entry {
    pub handle: Handle,
    pub service: Service,
    pub op: Option<OpId>,
    pub cancelled: bool,
    /// Closing keeps the exit watch until the child is gone.
    pub closing: bool,
}

/// What a pass over the services wants from the host.
#[derive(Debug)]
pub enum Step<D> {
    /// Ask again, from the next slot.
    Again,
    /// Append this completion and go on with the next slot.
    Report(Event<D>),
    /// Look at the child in this slot.
    Status(usize),
    /// Take the pending signal of the subscription in this slot.
    TakeSignal(usize),
    /// The pass is over.
    Done,
}

/// Services with a watch.
pub open spec fn watched(entries: Seq<Option<Entry>>) -> nat
    decreases entries.len(),
{
    if entries.len() == 0 {
        0
    } else {
        watched(entries.drop_last()) + if entries.last() matches Some(e) && e.op is Some {
            1nat
        } else {
            0nat
        }
    }
}

/// Whether a slot holds a watched service.
pub open spec fn is_watched(slot: Option<Entry>) -> bool {
    slot matches Some(e) && e.op is Some
}

proof fn lemma_watched_update(entries: Seq<Option<Entry>>, s: int, slot: Option<Entry>)
    requires
        0 <= s < entries.len(),
    ensures
        watched(entries.update(s, slot)) == watched(entries) - (if is_watched(entries[s]) {
            1int
        } else {
            0
        }) + (if is_watched(slot) {
            1int
        } else {
            0
        }),
    decreases entries.len(),
{
    let after = entries.update(s, slot);
    if s == entries.len() - 1 {
        assert(after.drop_last() =~= entries.drop_last());
    } else {
        lemma_watched_update(entries.drop_last(), s, slot);
        assert(after.drop_last() =~= entries.drop_last().update(s, slot));
    }
}

proof fn lemma_watched_positive(entries: Seq<Option<Entry>>, s: int)
    requires
        0 <= s < entries.len(),
        is_watched(entries[s]),
    ensures
        watched(entries) > 0,
    decreases entries.len(),
{
    if s < entries.len() - 1 {
        lemma_watched_positive(entries.drop_last(), s);
    }
}

proof fn lemma_watched_bounded(entries: Seq<Option<Entry>>)
    ensures
        watched(entries) <= entries.len(),
    decreases entries.len(),
{
    if entries.len() > 0 {
        lemma_watched_bounded(entries.drop_last());
    }
}

/// The operation that a service can be watched by.
pub open spec fn watches(service: Service, operation: Operation) -> bool {
    match service {
        Service::Child => operation is ProcessExit,
        Service::Signal(_) => operation is WatchSignal,
    }
}

/// The watches of children and console signals of one loop.
#[derive(Debug)]
pub struct Services {
    entries: Vec<Option<Entry>>,
    pending: usize,
}

impl View for Services {
    type V = Seq<Option<Entry>>;

    closed spec fn view(&self) -> Seq<Option<Entry>> {
        self.entries@
    }
}

/// The slot of `h` holds exactly this generation of it.
pub open spec fn live(entries: Seq<Option<Entry>>, h: Handle) -> bool {
    h.spec_index() < entries.len() && (entries[h.spec_index()] matches Some(e) && e.handle == h)
}

/// Slot `s` is the first one whose watch is `op`.
pub open spec fn first_watch(entries: Seq<Option<Entry>>, op: OpId, s: int) -> bool {
    &&& 0 <= s < entries.len()
    &&& entries[s] matches Some(e) && e.op == Some(op)
    &&& forall|t: int| 0 <= t < s ==> !((#[trigger] entries[t]) matches Some(e) && e.op == Some(op))
}

impl Services {
    /// The count of watches is exact.
    pub closed spec fn wf(&self) -> bool {
        self.pending == watched(self.entries@)
    }

    /// Room for `capacity` services.
    pub fn new(capacity: usize) -> (services: Self)
        ensures
            services.wf(),
            services@ == Seq::new(capacity as nat, |s: int| None::<Entry>),
    {
        let mut entries: Vec<Option<Entry>> = Vec::new();
        let mut s: usize = 0;
        while s < capacity
            invariant
                s <= capacity,
                entries@ == Seq::new(s as nat, |s: int| None::<Entry>),
                watched(entries@) == 0,
            decreases capacity - s,
        {
            let ghost before = entries@;
            entries.push(None);
            assert(entries@.drop_last() =~= before);
            s = s + 1;
        }
        Services { entries, pending: 0 }
    }

    /// Whether exactly this handle is a service.
    pub fn contains(&self, h: Handle) -> (found: bool)
        ensures
            found == live(self@, h),
    {
        let s: usize = h.index();
        if s < self.entries.len() {
            if let Some(e) = self.entries[s] {
                return e.handle == h;
            }
        }
        false
    }

    fn put(&mut self, s: usize, slot: Option<Entry>)
        requires
            old(self).wf(),
            s < old(self)@.len(),
        ensures
            final(self).wf(),
            final(self)@ == old(self)@.update(s as int, slot),
    {
        proof {
            lemma_watched_update(self.entries@, s as int, slot);
            lemma_watched_bounded(self.entries@.update(s as int, slot));
            if is_watched(self.entries@[s as int]) {
                lemma_watched_positive(self.entries@, s as int);
            }
        }
        let before = match self.entries[s] {
            Some(e) => e.op.is_some(),
            None => false,
        };
        let after = match slot {
            Some(e) => e.op.is_some(),
            None => false,
        };
        if before && !after {
            self.pending = self.pending - 1;
        }
        if !before && after {
            let n: usize = self.entries.len();
            assert(self.pending < n);
            self.pending = self.pending + 1;
        }
        self.entries[s] = slot;
    }

    /// Bind a child or a subscription to a free slot.
    pub fn bind(&mut self, h: Handle, service: Service)
        requires
            old(self).wf(),
            h.spec_index() < old(self)@.len(),
            !is_watched(old(self)@[h.spec_index()]),
        ensures
            final(self).wf(),
            final(self)@ == old(self)@.update(
                h.spec_index(),
                Some(Entry { handle: h, service, op: None, cancelled: false, closing: false }),
            ),
    {
        let s: usize = h.index();
        self.put(s, Some(Entry { handle: h, service, op: None, cancelled: false, closing: false }));
    }

    /// Accept a watch.
    pub fn submit(&mut self, request: &Request) -> (done: Result<(), Error>)
        requires
            old(self).wf(),
            request.handle.spec_index() < old(self)@.len(),
        ensures
            final(self).wf(),
            ({
                let s = request.handle.spec_index();
                let e = old(self)@[s]->0;
                if !live(old(self)@, request.handle) || e.op is Some {
                    done == Err::<(), Error>(Error::plain(ErrorKind::InvalidInput))
                        && final(self)@ == old(self)@
                } else if !watches(e.service, request.operation) {
                    done == Err::<(), Error>(Error::plain(ErrorKind::Unsupported))
                        && final(self)@ == old(self)@
                } else {
                    done is Ok && final(self)@ == old(self)@.update(
                        s,
                        Some(Entry { op: Some(request.op), cancelled: false, ..e }),
                    )
                }
            }),
    {
        let s: usize = request.handle.index();
        match self.entries[s] {
            None => Err(invalid()),
            Some(e) => {
                if e.handle != request.handle || e.op.is_some() {
                    return Err(invalid());
                }
                let fitting = match e.service {
                    Service::Child => matches!(request.operation, Operation::ProcessExit),
                    Service::Signal(_) => matches!(request.operation, Operation::WatchSignal),
                };
                if !fitting {
                    return Err(unsupported());
                }
                self.put(s, Some(Entry { op: Some(request.op), cancelled: false, ..e }));
                Ok(())
            },
        }
    }

    /// Start cancelling a watch; false if it is none of these services'. A closing child
    /// keeps its watch until it is gone.
    pub fn cancel(&mut self, op: OpId) -> (found: bool)
        requires
            old(self).wf(),
        ensures
            final(self).wf(),
            if found {
                exists|s: int| #[trigger]
                    first_watch(old(self)@, op, s) && final(self)@ == old(self)@.update(
                        s,
                        Some(
                            Entry {
                                cancelled: !old(self)@[s]->0.closing,
                                ..old(self)@[s]->0
                            },
                        ),
                    )
            } else {
                &&& final(self)@ == old(self)@
                &&& forall|s: int| !#[trigger] first_watch(old(self)@, op, s)
            },
    {
        let mut s: usize = 0;
        while s < self.entries.len()
            invariant
                s <= self.entries@.len(),
                *self == *old(self),
                self.wf(),
                forall|t: int|
                    0 <= t < s ==> !((#[trigger] self.entries@[t]) matches Some(e) && e.op == Some(
                        op,
                    )),
            decreases self.entries@.len() - s,
        {
            if let Some(e) = self.entries[s] {
                if e.op == Some(op) {
                    assert(first_watch(old(self)@, op, s as int));
                    self.put(s, Some(Entry { cancelled: !e.closing, ..e }));
                    return true;
                }
            }
            s = s + 1;
        }
        false
    }

    /// Whether exactly this handle is a child.
    pub fn is_child(&self, h: Handle) -> (child: bool)
        ensures
            child == (live(self@, h) && self@[h.spec_index()]->0.service is Child),
    {
        let s: usize = h.index();
        if s < self.entries.len() {
            if let Some(e) = self.entries[s] {
                return e.handle == h && e.service == Service::Child;
            }
        }
        false
    }

    /// The child of this handle was closed without error: its watch now ends with its
    /// exit, whatever was cancelled before.
    pub fn closed_child(&mut self, h: Handle)
        requires
            old(self).wf(),
            live(old(self)@, h),
            old(self)@[h.spec_index()]->0.service is Child,
        ensures
            final(self).wf(),
            final(self)@ == old(self)@.update(
                h.spec_index(),
                Some(
                    Entry { closing: true, cancelled: false, ..old(self)@[h.spec_index()]->0 },
                ),
            ),
    {
        let s: usize = h.index();
        if let Some(e) = self.entries[s] {
            self.put(s, Some(Entry { closing: true, cancelled: false, ..e }));
        }
    }

    /// Whether this handle is a child that can be signalled.
    pub fn kill_check(&self, h: Handle) -> (go: Result<(), Error>)
        ensures
            go == (if !live(self@, h) {
                Err(Error::plain(ErrorKind::NotFound))
            } else if self@[h.spec_index()]->0.service is Child {
                Ok(())
            } else {
                Err(Error::plain(ErrorKind::Unsupported))
            }),
    {
        if !self.contains(h) {
            return Err(Error::new(ErrorKind::NotFound));
        }
        if self.is_child(h) {
            Ok(())
        } else {
            Err(unsupported())
        }
    }

    /// Forget a service that nobody watches any more.
    pub fn release(&mut self, h: Handle)
        requires
            old(self).wf(),
            live(old(self)@, h) ==> old(self)@[h.spec_index()]->0.op is None,
        ensures
            final(self).wf(),
            final(self)@ == (if live(old(self)@, h) {
                old(self)@.update(h.spec_index(), None)
            } else {
                old(self)@
            }),
    {
        if self.contains(h) {
            let s: usize = h.index();
            self.put(s, None);
        }
    }

    /// Whether a watch has something to deliver; `ready` tells it of each slot's service.
    pub fn has_work(&self, ready: &Vec<bool>) -> (work: bool)
        requires
            self.wf(),
            ready@.len() == self@.len(),
        ensures
            work == exists|s: int|
                0 <= s < self@.len() && is_watched(#[trigger] self@[s]) && (self@[s]->0.cancelled
                    || ready@[s]),
    {
        if self.pending == 0 {
            proof {
                assert forall|s: int| 0 <= s < self@.len() implies !is_watched(
                    #[trigger] self@[s],
                ) by {
                    if is_watched(self@[s]) {
                        lemma_watched_positive(self@, s);
                    }
                }
            }
            return false;
        }
        let mut s: usize = 0;
        while s < self.entries.len()
            invariant
                s <= self.entries@.len(),
                ready@.len() == self.entries@.len(),
                forall|t: int|
                    0 <= t < s ==> !(is_watched(#[trigger] self@[t]) && (self@[t]->0.cancelled
                        || ready@[t])),
            decreases self.entries@.len() - s,
        {
            assert(self@[s as int] == self.entries@[s as int]);
            if let Some(e) = self.entries[s] {
                if e.op.is_some() && (e.cancelled || ready[s]) {
                    return true;
                }
            }
            s = s + 1;
        }
        false
    }

    /// Take one step of a pass: look at the slot `at`.
    pub fn advance<D>(&mut self, at: usize, room: bool) -> (step: Step<D>)
        requires
            old(self).wf(),
        ensures
            final(self).wf(),
            ({
                let e = old(self)@[at as int]->0;
                if at >= old(self)@.len() || !room {
                    step is Done && final(self)@ == old(self)@
                } else if !is_watched(old(self)@[at as int]) {
                    step is Again && final(self)@ == old(self)@
                } else if e.cancelled {
                    step == Step::<D>::Report(
                        Event { op: e.op->0, terminal: true, result: Ok(Outcome::Cancelled) },
                    ) && final(self)@ == old(self)@.update(
                        at as int,
                        Some(Entry { op: None, ..e }),
                    )
                } else {
                    &&& final(self)@ == old(self)@
                    &&& match e.service {
                        Service::Child => step == Step::<D>::Status(at),
                        Service::Signal(_) => step == Step::<D>::TakeSignal(at),
                    }
                }
            }),
    {
        if at >= self.entries.len() || !room {
            return Step::Done;
        }
        match self.entries[at] {
            None => Step::Again,
            Some(e) => match e.op {
                None => Step::Again,
                Some(op) => {
                    if e.cancelled {
                        self.put(at, Some(Entry { op: None, ..e }));
                        return Step::Report(
                            Event { op, terminal: true, result: Ok(Outcome::Cancelled) },
                        );
                    }
                    match e.service {
                        Service::Child => Step::Status(at),
                        Service::Signal(_) => Step::TakeSignal(at),
                    }
                },
            },
        }
    }

    /// The child in a watched slot was looked at. Its exit ends the watch, as cancelled
    /// where the handle is closing.
    pub fn child_status<D>(&mut self, at: usize, found: Option<ExitStatus>) -> (event: Option<
        Event<D>,
    >)
        requires
            old(self).wf(),
            at < old(self)@.len(),
            is_watched(old(self)@[at as int]),
        ensures
            final(self).wf(),
            ({
                let e = old(self)@[at as int]->0;
                match found {
                    None => event is None && final(self)@ == old(self)@,
                    Some(status) => {
                        &&& event == Some(
                            Event::<D> {
                                op: e.op->0,
                                terminal: true,
                                result: Ok(
                                    if e.closing {
                                        Outcome::Cancelled
                                    } else {
                                        Outcome::Exited(status)
                                    },
                                ),
                            },
                        )
                        &&& final(self)@ == old(self)@.update(
                            at as int,
                            Some(Entry { op: None, ..e }),
                        )
                    },
                }
            }),
    {
        let status = match found {
            None => {
                return None;
            },
            Some(status) => status,
        };
        match self.entries[at] {
            Some(e) => match e.op {
                Some(op) => {
                    self.put(at, Some(Entry { op: None, ..e }));
                    let outcome = if e.closing {
                        Outcome::Cancelled
                    } else {
                        Outcome::Exited(status)
                    };
                    Some(Event { op, terminal: true, result: Ok(outcome) })
                },
                None => None,
            },
            None => None,
        }
    }

    /// The subscription in a watched slot had a signal, or not.
    pub fn signal_taken<D>(&self, at: usize, took: bool) -> (event: Option<Event<D>>)
        requires
            at < self@.len(),
            is_watched(self@[at as int]),
            self@[at as int]->0.service is Signal,
        ensures
            event == (if took {
                Some(
                    Event::<D> {
                        op: self@[at as int]->0.op->0,
                        terminal: false,
                        result: Ok(Outcome::Signal(self@[at as int]->0.service->Signal_0)),
                    },
                )
            } else {
                None
            }),
    {
        if !took {
            return None;
        }
        match self.entries[at] {
            Some(e) => match (e.op, e.service) {
                (Some(op), Service::Signal(signal)) => Some(
                    Event { op, terminal: false, result: Ok(Outcome::Signal(signal)) },
                ),
                _ => None,
            },
            None => None,
        }
    }
}

/// A child is watched for its exit and a subscription for its signal, and neither for the other.
pub proof fn law_services_have_their_watches(service: Service, operation: Operation)
    ensures
        watches(service, operation) <==> (service is Child && operation is ProcessExit) || (service
            is Signal && operation is WatchSignal),
{
}

/// The count of watches is above zero exactly while something is watched.
pub proof fn law_watches_are_counted(entries: Seq<Option<Entry>>)
    ensures
        watched(entries) > 0 <==> exists|s: int|
            0 <= s < entries.len() && (#[trigger] entries[s]) is Some && entries[s]->0.op is Some,
        watched(entries) <= entries.len(),
    decreases entries.len(),
{
    lemma_watched_bounded(entries);
    if entries.len() > 0 {
        let front = entries.drop_last();
        law_watches_are_counted(front);
        if watched(front) > 0 {
            let s = choose|s: int|
                0 <= s < front.len() && (#[trigger] front[s]) is Some && front[s]->0.op is Some;
            assert(entries[s] is Some && entries[s]->0.op is Some);
        }
        if is_watched(entries.last()) {
            assert(entries[entries.len() - 1] is Some);
        }
        if exists|s: int|
            0 <= s < entries.len() && (#[trigger] entries[s]) is Some && entries[s]->0.op is Some {
            let s = choose|s: int|
                0 <= s < entries.len() && (#[trigger] entries[s]) is Some && entries[s]->0.op
                    is Some;
            lemma_watched_positive(entries, s);
        }
    }
}

} // verus!
