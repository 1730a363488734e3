//! File-system requests of one loop. There are no threads: a turn runs as many requests as
//! it may report. Requests on one handle run in the order in which they came; one that
//! needs a buffer waits for the pool.
use crate::lanes::Lanes;
use crate::queues::{lemma_pop, lemma_push, lemma_remove_value};
use crate::types::{
    cancelled_event, invalid, unsupported, Error, ErrorKind, Event, Handle, OpId, Outcome,
};
use crate::wasi::requests::{needs_buffer, opening, servable, FsRequest, Object};
use std::collections::VecDeque;
use vstd::prelude::*;

verus! {

/// A request that has not run.
#[derive(Clone, Copy, Debug, PartialEq, Eq, Structural)]
pub struct Pending {
    pub op: OpId,
    pub handle: Option<Handle>,
    /// It needs a buffer of the pool.
    pub pooled: bool,
    /// It waits for one.
    pub waiting: bool,
}

/// The requests as plain mathematics.
#[verifier::ext_equal]
pub struct Model {
    /// What each handle stands for.
    pub objects: Seq<Option<Object>>,
    pub ops: Seq<Option<Pending>>,
    /// The requests of each handle, oldest first.
    pub lanes: Seq<Seq<usize>>,
    /// Requests that can run, oldest first.
    pub ready: Seq<usize>,
    /// Requests that wait for a buffer, oldest first.
    pub waiting: Seq<usize>,
    /// Cancellations that wait for their acknowledgement.
    pub cancelled: Seq<OpId>,
}

impl Model {
    /// No older request of the same handle is there.
    pub open spec fn first(self, i: int) -> bool {
        match self.ops[i]->0.handle {
            Some(h) => self.lanes[h.spec_index()].len() > 0 && self.lanes[h.spec_index()][0] == i,
            None => true,
        }
    }

    /// The request in slot `i` is in the lane of its handle, and in no other.
    pub open spec fn base_ok(self, i: int) -> bool {
        match self.ops[i] {
            None => true,
            Some(p) => {
                &&& p.op.spec_index() == i
                &&& p.waiting ==> self.first(i)
                &&& match p.handle {
                    Some(h) => h.spec_index() < self.lanes.len()
                        && self.lanes[h.spec_index()].contains(i as usize),
                    None => true,
                }
            },
        }
    }

    /// The request in slot `i` is queued where it can run or waits, if none is before it.
    pub open spec fn queue_ok(self, i: int) -> bool {
        match self.ops[i] {
            None => !self.ready.contains(i as usize) && !self.waiting.contains(i as usize),
            Some(p) => {
                &&& self.ready.contains(i as usize) == (self.first(i) && !p.waiting)
                &&& self.waiting.contains(i as usize) == (self.first(i) && p.waiting)
            },
        }
    }

    /// What stands in lane `l` at `k` is a request of that handle.
    pub open spec fn lane_ok(self, l: int, k: int) -> bool {
        let i = self.lanes[l][k] as int;
        &&& i < self.ops.len()
        &&& self.ops[i] is Some
        &&& self.ops[i]->0.handle is Some
        &&& self.ops[i]->0.handle->0.spec_index() == l
    }

    /// Lanes and queues are in range and hold nothing twice.
    pub open spec fn shape(self) -> bool {
        &&& self.lanes.len() == self.objects.len()
        &&& self.ops.len() <= usize::MAX
        &&& self.ready.no_duplicates()
        &&& self.waiting.no_duplicates()
        &&& forall|l: int| 0 <= l < self.lanes.len() ==> (#[trigger] self.lanes[l]).no_duplicates()
        &&& forall|l: int, k: int|
            0 <= l < self.lanes.len() && 0 <= k < self.lanes[l].len() ==> #[trigger] self.lane_ok(
                l,
                k,
            )
        &&& forall|k: int| 0 <= k < self.ready.len() ==> (#[trigger] self.ready[k]) < self.ops.len()
        &&& forall|k: int|
            0 <= k < self.waiting.len() ==> (#[trigger] self.waiting[k]) < self.ops.len()
        &&& forall|i: int| 0 <= i < self.ops.len() ==> #[trigger] self.base_ok(i)
    }

    /// Every request is queued exactly where it belongs.
    pub open spec fn valid(self) -> bool {
        &&& self.shape()
        &&& forall|i: int| 0 <= i < self.ops.len() ==> #[trigger] self.queue_ok(i)
    }

    /// The same, but for a request that left the queues.
    pub open spec fn valid_but(self, x: int) -> bool {
        &&& self.shape()
        &&& 0 <= x < self.ops.len()
        &&& self.ops[x] is Some
        &&& !self.ready.contains(x as usize)
        &&& !self.waiting.contains(x as usize)
        &&& forall|i: int| 0 <= i < self.ops.len() && i != x ==> #[trigger] self.queue_ok(i)
    }

    /// Whether a request can be taken in.
    pub open spec fn takes(self, op: OpId, handle: Option<Handle>, request: FsRequest) -> bool {
        &&& op.spec_index() < self.ops.len()
        &&& self.ops[op.spec_index()] is None
        &&& match handle {
            Some(h) => h.spec_index() < self.objects.len() && opening(request)
                == (self.objects[h.spec_index()] is None),
            None => true,
        }
    }

    /// A request came in. It can run at once if none of its handle is before it.
    pub open spec fn submitted(self, op: OpId, handle: Option<Handle>, pooled: bool) -> Model {
        let i = op.spec_index() as usize;
        Model {
            ops: self.ops.update(
                i as int,
                Some(Pending { op, handle, pooled, waiting: false }),
            ),
            lanes: match handle {
                Some(h) => self.lanes.update(
                    h.spec_index(),
                    self.lanes[h.spec_index()].push(i),
                ),
                None => self.lanes,
            },
            ready: if handle is None || self.lanes[handle->0.spec_index()].len() == 0 {
                self.ready.push(i)
            } else {
                self.ready
            },
            ..self
        }
    }

    /// A request that left the queues is gone; the next one of its handle can run.
    pub open spec fn dropped(self, i: int) -> Model {
        let p = self.ops[i]->0;
        match p.handle {
            None => Model { ops: self.ops.update(i, None), ..self },
            Some(h) => {
                let lane = self.lanes[h.spec_index()];
                let rest = lane.remove_value(i as usize);
                Model {
                    ops: self.ops.update(i, None),
                    lanes: self.lanes.update(h.spec_index(), rest),
                    ready: if lane[0] == i && rest.len() > 0 {
                        self.ready.push(rest[0])
                    } else {
                        self.ready
                    },
                    ..self
                }
            },
        }
    }

    /// Whether `op` has not run yet.
    pub open spec fn holds(self, op: OpId) -> bool {
        &&& op.spec_index() < self.ops.len()
        &&& self.ops[op.spec_index()] is Some
        &&& self.ops[op.spec_index()]->0.op == op
    }

    /// A request was cancelled before it ran.
    pub open spec fn withdrawn(self, op: OpId) -> Model {
        let i = op.spec_index();
        let apart = Model {
            ready: self.ready.remove_value(i as usize),
            waiting: self.waiting.remove_value(i as usize),
            ..self
        };
        Model { cancelled: self.cancelled.push(op), ..apart.dropped(i) }
    }

    /// The oldest request that can run has no buffer.
    pub open spec fn parked(self) -> Model {
        let i = self.ready[0];
        Model {
            ops: self.ops.update(
                i as int,
                Some(Pending { waiting: true, ..self.ops[i as int]->0 }),
            ),
            ready: self.ready.drop_first(),
            waiting: self.waiting.push(i),
            ..self
        }
    }

    /// The oldest request that waits for a buffer can run.
    pub open spec fn woken(self) -> Model {
        let i = self.waiting[0];
        Model {
            ops: self.ops.update(
                i as int,
                Some(Pending { waiting: false, ..self.ops[i as int]->0 }),
            ),
            ready: self.ready.push(i),
            waiting: self.waiting.drop_first(),
            ..self
        }
    }

    /// Every request that waits can run.
    pub open spec fn all_woken(self) -> Model
        decreases self.waiting.len(),
    {
        if self.waiting.len() == 0 {
            self
        } else {
            self.woken().all_woken()
        }
    }

    /// The oldest request that can run ran.
    pub open spec fn finished(self) -> Model {
        let i = self.ready[0] as int;
        Model { ready: self.ready.drop_first(), ..self }.dropped(i)
    }
}

/// The file-system requests of one loop.
pub struct Files {
    objects: Vec<Option<Object>>,
    ops: Vec<Option<Pending>>,
    lanes: Lanes,
    ready: VecDeque<usize>,
    waiting: VecDeque<usize>,
    cancelled: VecDeque<OpId>,
}

impl View for Files {
    type V = Model;

    closed spec fn view(&self) -> Model {
        Model {
            objects: self.objects@,
            ops: self.ops@,
            lanes: self.lanes@,
            ready: self.ready@,
            waiting: self.waiting@,
            cancelled: self.cancelled@,
        }
    }
}

/// Dropping a request that left the queues leaves the others where they belong.
pub proof fn lemma_dropped(m: Model, x: int)
    requires
        m.valid_but(x),
    ensures
        m.dropped(x).valid(),
{
    let after = m.dropped(x);
    let p = m.ops[x]->0;
    assert(m.base_ok(x));
    match p.handle {
        None => {
            assert forall|l: int, k: int|
                0 <= l < after.lanes.len() && 0 <= k
                    < after.lanes[l].len() implies #[trigger] after.lane_ok(l, k) by {
                assert(m.lane_ok(l, k));
            }
            assert forall|i: int| 0 <= i < after.ops.len() implies #[trigger] after.base_ok(i) by {
                assert(m.base_ok(i));
            }
            assert forall|i: int| 0 <= i < after.ops.len() implies #[trigger] after.queue_ok(
                i,
            ) by {
                if i != x {
                    assert(m.queue_ok(i));
                }
            }
        },
        Some(h) => {
            let l0 = h.spec_index();
            let lane = m.lanes[l0];
            let rest = lane.remove_value(x as usize);
            lemma_remove_value(lane, x as usize);
            lane.index_of_first_ensures(x as usize);
            let pos = lane.index_of_first(x as usize)->0;
            let opens = lane[0] == x && rest.len() > 0;
            if lane[0] == x && rest.len() > 0 {
                // The new first request was behind another one, and so in no queue.
                let next = rest[0];
                assert(rest.contains(next));
                assert(lane.contains(next));
                let k = choose|k: int| 0 <= k < lane.len() && lane[k] == next;
                assert(m.lane_ok(l0, k));
                assert(m.queue_ok(next as int));
                assert(!m.first(next as int));
                lemma_push(m.ready, next);
            }
            assert forall|l: int| 0 <= l < after.lanes.len() implies (
            #[trigger] after.lanes[l]).no_duplicates() by {
                assert(m.lanes[l].no_duplicates());
            }
            assert forall|l: int, k: int|
                0 <= l < after.lanes.len() && 0 <= k
                    < after.lanes[l].len() implies #[trigger] after.lane_ok(l, k) by {
                if l == l0 {
                    assert(rest.contains(rest[k]));
                    let j = choose|j: int| 0 <= j < lane.len() && lane[j] == rest[k];
                    assert(m.lane_ok(l0, j));
                } else {
                    assert(m.lane_ok(l, k));
                }
            }
            assert forall|k: int| 0 <= k < after.ready.len() implies (#[trigger] after.ready[k])
                < after.ops.len() by {
                if k < m.ready.len() {
                    assert(m.ready[k] < m.ops.len());
                } else {
                    assert(after.lane_ok(l0, 0));
                }
            }
            assert forall|i: int|
                0 <= i < after.ops.len() && i != x && m.ops[i] is Some implies after.first(i) == (
            m.first(i) || (opens && rest[0] == i)) by {
                assert(m.base_ok(i));
                if m.ops[i]->0.handle is Some && m.ops[i]->0.handle->0.spec_index() == l0 {
                    if lane[0] == x {
                        assert(pos == 0);
                    } else {
                        assert(pos > 0);
                        assert(rest == lane.remove(pos));
                        assert(rest[0] == lane[0]);
                    }
                } else if opens && rest[0] == i {
                    assert(after.lane_ok(l0, 0));
                }
            }
            assert forall|i: int| 0 <= i < after.ops.len() implies #[trigger] after.base_ok(i) by {
                assert(m.base_ok(i));
                if i != x && m.ops[i] is Some && m.ops[i]->0.handle is Some
                    && m.ops[i]->0.handle->0.spec_index() == l0 {
                    assert(rest.contains(i as usize));
                }
            }
            assert forall|i: int| 0 <= i < after.ops.len() implies #[trigger] after.queue_ok(
                i,
            ) by {
                assert(after.ready.contains(i as usize) <==> m.ready.contains(i as usize) || (opens
                    && rest[0] == i as usize));
                if i != x {
                    assert(m.queue_ok(i));
                    assert(m.base_ok(i));
                    if opens && rest[0] == i {
                        assert(after.lane_ok(l0, 0));
                        assert(m.ops[i] is Some);
                    }
                } else if opens && rest[0] == x {
                    assert(rest.contains(rest[0]));
                }
            }
        },
    }
}

/// A request that leaves both queues leaves the rest valid.
pub proof fn lemma_apart(m: Model, i: int)
    requires
        m.valid(),
        0 <= i < m.ops.len(),
        m.ops[i] is Some,
    ensures
        ({
            let apart = Model {
                ready: m.ready.remove_value(i as usize),
                waiting: m.waiting.remove_value(i as usize),
                ..m
            };
            apart.valid_but(i)
        }),
{
    let apart = Model {
        ready: m.ready.remove_value(i as usize),
        waiting: m.waiting.remove_value(i as usize),
        ..m
    };
    lemma_remove_value(m.ready, i as usize);
    lemma_remove_value(m.waiting, i as usize);
    lemma_same_lanes(m, apart);
    assert forall|k: int| 0 <= k < apart.ready.len() implies (#[trigger] apart.ready[k])
        < apart.ops.len() by {
        assert(apart.ready.contains(apart.ready[k]));
        let j = choose|j: int| 0 <= j < m.ready.len() && m.ready[j] == apart.ready[k];
    }
    assert forall|k: int| 0 <= k < apart.waiting.len() implies (#[trigger] apart.waiting[k])
        < apart.ops.len() by {
        assert(apart.waiting.contains(apart.waiting[k]));
        let j = choose|j: int| 0 <= j < m.waiting.len() && m.waiting[j] == apart.waiting[k];
    }
    assert forall|j: int| 0 <= j < apart.ops.len() && j != i implies #[trigger] apart.queue_ok(
        j,
    ) by {
        assert(m.queue_ok(j));
        assert(apart.ready.contains(j as usize) == m.ready.contains(j as usize));
        assert(apart.waiting.contains(j as usize) == m.waiting.contains(j as usize));
    }
}

/// Queues alone do not touch lanes.
proof fn lemma_same_lanes(m: Model, after: Model)
    requires
        m.shape(),
        after.ops == m.ops,
        after.lanes == m.lanes,
        after.objects == m.objects,
    ensures
        forall|l: int, k: int|
            0 <= l < after.lanes.len() && 0 <= k < after.lanes[l].len() ==> #[trigger] after.lane_ok(
                l,
                k,
            ),
        forall|i: int| 0 <= i < after.ops.len() ==> #[trigger] after.base_ok(i),
{
    assert forall|l: int, k: int|
        0 <= l < after.lanes.len() && 0 <= k
            < after.lanes[l].len() implies #[trigger] after.lane_ok(l, k) by {
        assert(m.lane_ok(l, k));
    }
    assert forall|i: int| 0 <= i < after.ops.len() implies #[trigger] after.base_ok(i) by {
        assert(m.base_ok(i));
    }
}

/// Moving a first request between the queues keeps everything in place.
pub proof fn lemma_marked(m: Model, after: Model, x: int)
    requires
        m.valid(),
        0 <= x < m.ops.len(),
        m.ops[x] is Some,
        m.first(x),
        after.objects == m.objects,
        after.lanes == m.lanes,
        after.ops.len() == m.ops.len(),
        after.ops[x] is Some,
        after.ops == m.ops.update(x, after.ops[x]),
        after.ops[x]->0.op == m.ops[x]->0.op,
        after.ops[x]->0.handle == m.ops[x]->0.handle,
        after.ready.no_duplicates(),
        after.waiting.no_duplicates(),
        forall|y: usize|
            y != x ==> #[trigger] after.ready.contains(y) == m.ready.contains(y),
        forall|y: usize|
            y != x ==> #[trigger] after.waiting.contains(y) == m.waiting.contains(y),
        after.ready.contains(x as usize) == !after.ops[x]->0.waiting,
        after.waiting.contains(x as usize) == after.ops[x]->0.waiting,
    ensures
        after.valid(),
{
    assert forall|l: int, k: int|
        0 <= l < after.lanes.len() && 0 <= k
            < after.lanes[l].len() implies #[trigger] after.lane_ok(l, k) by {
        assert(m.lane_ok(l, k));
    }
    assert forall|i: int| 0 <= i < after.ops.len() && m.ops[i] is Some implies after.first(i)
        == m.first(i) by {}
    assert forall|i: int| 0 <= i < after.ops.len() implies #[trigger] after.base_ok(i) by {
        assert(m.base_ok(i));
    }
    assert forall|i: int| 0 <= i < after.ops.len() implies #[trigger] after.queue_ok(i) by {
        assert(m.queue_ok(i));
        assert(i != x ==> i as usize != x);
    }
    assert forall|k: int| 0 <= k < after.ready.len() implies (#[trigger] after.ready[k])
        < after.ops.len() by {
        let y = after.ready[k];
        assert(after.ready.contains(y));
        if y != x {
            assert(m.ready.contains(y));
            let j = choose|j: int| 0 <= j < m.ready.len() && m.ready[j] == y;
            assert(m.ready[j] < m.ops.len());
        }
    }
    assert forall|k: int| 0 <= k < after.waiting.len() implies (#[trigger] after.waiting[k])
        < after.ops.len() by {
        let y = after.waiting[k];
        assert(after.waiting.contains(y));
        if y != x {
            assert(m.waiting.contains(y));
            let j = choose|j: int| 0 <= j < m.waiting.len() && m.waiting[j] == y;
            assert(m.waiting[j] < m.ops.len());
        }
    }
}

/// A woken request can run.
pub proof fn lemma_woken(m: Model)
    requires
        m.valid(),
        m.waiting.len() > 0,
    ensures
        m.woken().valid(),
        m.ops[m.waiting[0] as int] is Some,
{
    let i = m.waiting[0];
    assert(m.waiting.contains(i));
    assert(m.queue_ok(i as int));
    lemma_pop(m.waiting);
    lemma_push(m.ready, i);
    lemma_marked(m, m.woken(), i as int);
}

/// Remove a slot from a queue that holds it at most once.
fn remove_slot(queue: &mut VecDeque<usize>, slot: usize)
    requires
        old(queue)@.no_duplicates(),
    ensures
        final(queue)@ == old(queue)@.remove_value(slot),
{
    let ghost before = queue@;
    proof {
        before.index_of_first_ensures(slot);
    }
    let mut i: usize = 0;
    while i < queue.len()
        invariant
            queue@ == before,
            before == old(queue)@,
            i <= before.len(),
            before.no_duplicates(),
            forall|k: int| 0 <= k < i ==> before[k] != slot,
        decreases before.len() - i,
    {
        if queue[i] == slot {
            proof {
                before.index_of_first_ensures(slot);
                assert(before.contains(before[i as int]));
                let pos = before.index_of_first(slot)->0;
                assert(pos == i);
            }
            queue.remove(i);
            return;
        }
        i = i + 1;
    }
    assert(!before.contains(slot));
}

impl Files {
    /// Links and queues agree.
    pub closed spec fn wf(&self) -> bool {
        &&& self.lanes.wf()
        &&& self.lanes.slots() == self.ops@.len()
        &&& self@.valid()
    }

    /// What is true of valid tables is true of every table that calls lead to.
    pub proof fn law_tables_are_valid(&self)
        requires
            self.wf(),
        ensures
            self@.valid(),
    {
    }

    /// No request, with room for so many handles and requests.
    pub fn new(handles: usize, operations: usize) -> (files: Self)
        ensures
            files.wf(),
            files@.valid(),
            files@.objects == Seq::new(handles as nat, |i: int| None::<Object>),
            files@.ops == Seq::new(operations as nat, |i: int| None::<Pending>),
            files@.lanes == Seq::new(handles as nat, |i: int| Seq::<usize>::empty()),
            files@.ready == Seq::<usize>::empty(),
            files@.waiting == Seq::<usize>::empty(),
            files@.cancelled == Seq::<OpId>::empty(),
    {
        let mut objects: Vec<Option<Object>> = Vec::new();
        let mut i: usize = 0;
        while i < handles
            invariant
                i <= handles,
                objects@ == Seq::new(i as nat, |i: int| None::<Object>),
            decreases handles - i,
        {
            objects.push(None);
            assert(objects@ =~= Seq::new((i + 1) as nat, |i: int| None::<Object>));
            i = i + 1;
        }
        let mut ops: Vec<Option<Pending>> = Vec::new();
        let mut j: usize = 0;
        while j < operations
            invariant
                j <= operations,
                ops@ == Seq::new(j as nat, |i: int| None::<Pending>),
            decreases operations - j,
        {
            ops.push(None);
            assert(ops@ =~= Seq::new((j + 1) as nat, |i: int| None::<Pending>));
            j = j + 1;
        }
        let files = Files {
            objects,
            ops,
            lanes: Lanes::new(handles, operations),
            ready: VecDeque::new(),
            waiting: VecDeque::new(),
            cancelled: VecDeque::new(),
        };
        assert(files@.lanes =~= Seq::new(handles as nat, |i: int| Seq::<usize>::empty()));
        files
    }

    /// What a handle stands for.
    pub fn object(&self, h: Handle) -> (object: Option<Object>)
        ensures
            object == (if h.spec_index() < self@.objects.len() {
                self@.objects[h.spec_index()]
            } else {
                None
            }),
    {
        if h.index() < self.objects.len() {
            self.objects[h.index()]
        } else {
            None
        }
    }

    /// A request changed what its handle stands for.
    pub fn set_object(&mut self, h: Handle, object: Option<Object>)
        requires
            old(self).wf(),
            h.spec_index() < old(self)@.objects.len(),
        ensures
            final(self).wf(),
            final(self)@ == (Model {
                objects: old(self)@.objects.update(h.spec_index(), object),
                ..old(self)@
            }),
    {
        let ghost before = self@;
        self.objects.set(h.index(), object);
        proof {
            lemma_objects(before, self@);
        }
    }

    /// A handle was closed for good.
    pub fn release(&mut self, h: Handle)
        requires
            old(self).wf(),
        ensures
            final(self).wf(),
            final(self)@ == (if h.spec_index() < old(self)@.objects.len() {
                Model {
                    objects: old(self)@.objects.update(h.spec_index(), None),
                    ..old(self)@
                }
            } else {
                old(self)@
            }),
    {
        if h.index() < self.objects.len() {
            self.set_object(h, None);
        }
    }

    /// Take a request in.
    pub fn submit(&mut self, op: OpId, handle: Option<Handle>, request: &FsRequest) -> (done: Result<
        (),
        Error,
    >)
        requires
            old(self).wf(),
        ensures
            final(self).wf(),
            final(self)@.valid(),
            match done {
                Ok(_) => servable(*request) && old(self)@.takes(op, handle, *request)
                    && final(self)@ == old(self)@.submitted(op, handle, needs_buffer(*request)),
                Err(e) => final(self)@ == old(self)@ && if !servable(*request) {
                    e == Error::plain(ErrorKind::Unsupported)
                } else {
                    !old(self)@.takes(op, handle, *request) && e == Error::plain(
                        ErrorKind::InvalidInput,
                    )
                },
            },
    {
        let ghost before = self@;
        if !request.supported() {
            return Err(unsupported());
        }
        let i = op.index();
        if i >= self.ops.len() || self.ops[i].is_some() {
            return Err(invalid());
        }
        let mut front: bool = true;
        if let Some(h) = handle {
            let l = h.index();
            if l >= self.objects.len() || request.opens() != self.objects[l].is_none() {
                return Err(invalid());
            }
        }
        proof {
            assert(before.queue_ok(i as int));
            assert forall|m: int| 0 <= m < before.lanes.len() implies !(
            #[trigger] before.lanes[m]).contains(i) by {
                if before.lanes[m].contains(i) {
                    let k = choose|k: int| 0 <= k < before.lanes[m].len() && before.lanes[m][k] == i;
                    assert(before.lane_ok(m, k));
                }
            }
        }
        if let Some(h) = handle {
            let l = h.index();
            front = self.lanes.head(l).is_none();
            self.lanes.push(l, i);
        }
        self.ops.set(i, Some(Pending { op, handle, pooled: request.pooled(), waiting: false }));
        if front {
            self.ready.push_back(i);
        }
        proof {
            assert(self@ =~= before.submitted(op, handle, needs_buffer(*request)));
            lemma_submitted(before, op, handle, needs_buffer(*request));
        }
        Ok(())
    }

    /// Take the request in slot `i`, which left the queues, out of its lane.
    fn discard(&mut self, i: usize)
        requires
            old(self).lanes.wf(),
            old(self).lanes.slots() == old(self).ops@.len(),
            old(self)@.valid_but(i as int),
        ensures
            final(self).wf(),
            final(self)@ == old(self)@.dropped(i as int),
    {
        let ghost before = self@;
        proof {
            lemma_dropped(before, i as int);
            assert(before.base_ok(i as int));
        }
        if let Some(p) = self.ops[i] {
            if let Some(h) = p.handle {
                let l = h.index();
                let head = self.lanes.head(l);
                self.lanes.unlink(l, i);
                if head == Some(i) {
                    if let Some(next) = self.lanes.head(l) {
                        self.ready.push_back(next);
                    }
                }
            }
        }
        self.ops.set(i, None);
        assert(self@ =~= before.dropped(i as int));
    }

    /// Cancel a request that has not run. It completes at once and its buffer is not
    /// touched. Tells whether there was one.
    pub fn cancel(&mut self, op: OpId) -> (found: bool)
        requires
            old(self).wf(),
        ensures
            final(self).wf(),
            found == old(self)@.holds(op),
            final(self)@ == (if found {
                old(self)@.withdrawn(op)
            } else {
                old(self)@
            }),
    {
        let ghost before = self@;
        let i = op.index();
        if i >= self.ops.len() {
            return false;
        }
        let Some(p) = self.ops[i] else {
            return false;
        };
        if p.op != op {
            return false;
        }
        proof {
            lemma_apart(before, i as int);
            assert(before.queue_ok(i as int));
            lemma_remove_value(before.ready, i);
            lemma_remove_value(before.waiting, i);
        }
        if p.waiting {
            remove_slot(&mut self.waiting, i);
        } else {
            remove_slot(&mut self.ready, i);
        }
        let ghost apart = self@;
        proof {
            assert(apart =~= Model {
                ready: before.ready.remove_value(i),
                waiting: before.waiting.remove_value(i),
                ..before
            });
        }
        self.discard(i);
        let ghost gone = self@;
        self.cancelled.push_back(op);
        proof {
            assert(self@ =~= before.withdrawn(op));
            lemma_cancelled(gone, self@);
        }
        true
    }

    /// Whether a poll would do anything without waiting; `available` tells that the pool has
    /// a buffer.
    pub fn has_work(&self, available: bool) -> (work: bool)
        ensures
            work == (self@.ready.len() > 0 || self@.cancelled.len() > 0 || (self@.waiting.len() > 0
                && available)),
    {
        self.ready.len() > 0 || self.cancelled.len() > 0 || (self.waiting.len() > 0 && available)
    }

    /// The next cancellation to acknowledge.
    pub fn acknowledge<D>(&mut self) -> (event: Option<Event<D>>)
        requires
            old(self).wf(),
        ensures
            final(self).wf(),
            match event {
                Some(e) => old(self)@.cancelled.len() > 0 && e == cancelled_event::<D>(
                    old(self)@.cancelled[0],
                ) && final(self)@ == (Model {
                    cancelled: old(self)@.cancelled.drop_first(),
                    ..old(self)@
                }),
                None => old(self)@.cancelled.len() == 0 && final(self)@ == old(self)@,
            },
    {
        let ghost before = self@;
        match self.cancelled.pop_front() {
            Some(op) => {
                proof {
                    assert(self@ =~= Model {
                        cancelled: before.cancelled.drop_first(),
                        ..before
                    });
                    lemma_cancelled(before, self@);
                }
                Some(Event { op, terminal: true, result: Ok(Outcome::Cancelled) })
            },
            None => None,
        }
    }

    /// The pool has a buffer: let every request that waits for one run.
    pub fn wake(&mut self)
        requires
            old(self).wf(),
        ensures
            final(self).wf(),
            final(self)@ == old(self)@.all_woken(),
    {
        let ghost before = self@;
        while self.waiting.len() > 0
            invariant
                self.wf(),
                before == old(self)@,
                self@.all_woken() == before.all_woken(),
            decreases self.waiting@.len(),
        {
            let ghost now = self@;
            let i = self.waiting[0];
            proof {
                lemma_woken(now);
                assert(now.waiting[0] < now.ops.len());
            }
            self.waiting.pop_front();
            if let Some(p) = self.ops[i] {
                self.ops.set(i, Some(Pending { waiting: false, ..p }));
            }
            self.ready.push_back(i);
            assert(self@ =~= now.woken());
        }
    }

    /// The oldest request that can run, and whether it needs a buffer.
    pub fn next(&self) -> (next: Option<(Pending, bool)>)
        requires
            self.wf(),
        ensures
            match next {
                Some((p, pooled)) => self@.ready.len() > 0 && self@.ops[self@.ready[0] as int]
                    == Some(p) && pooled == p.pooled,
                None => self@.ready.len() == 0,
            },
    {
        if self.ready.len() == 0 {
            return None;
        }
        let i = self.ready[0];
        proof {
            assert(self@.ready.contains(i));
            assert(self@.ready[0] < self@.ops.len());
            assert(self@.queue_ok(i as int));
        }
        match self.ops[i] {
            Some(p) => Some((p, p.pooled)),
            None => None,
        }
    }

    /// The oldest request that can run has no buffer: it waits for one.
    pub fn park(&mut self)
        requires
            old(self).wf(),
            old(self)@.ready.len() > 0,
        ensures
            final(self).wf(),
            final(self)@ == old(self)@.parked(),
    {
        let ghost before = self@;
        let i = self.ready[0];
        proof {
            assert(before.ready.contains(i));
            assert(before.ready[0] < before.ops.len());
            assert(before.queue_ok(i as int));
            lemma_pop(before.ready);
            lemma_push(before.waiting, i);
        }
        self.ready.pop_front();
        if let Some(p) = self.ops[i] {
            self.ops.set(i, Some(Pending { waiting: true, ..p }));
        }
        self.waiting.push_back(i);
        proof {
            assert(self@ =~= before.parked());
            lemma_marked(before, self@, i as int);
        }
    }

    /// The oldest request that can run ran. The next one of its handle can run.
    pub fn finish(&mut self) -> (op: OpId)
        requires
            old(self).wf(),
            old(self)@.ready.len() > 0,
        ensures
            final(self).wf(),
            final(self)@ == old(self)@.finished(),
            old(self)@.ops[old(self)@.ready[0] as int] is Some,
            op == old(self)@.ops[old(self)@.ready[0] as int]->0.op,
            !final(self)@.holds(op),
    {
        let ghost before = self@;
        let i = self.ready[0];
        proof {
            assert(before.ready.contains(i));
            assert(before.ready[0] < before.ops.len());
            assert(before.queue_ok(i as int));
            assert(before.base_ok(i as int));
            lemma_apart(before, i as int);
            lemma_remove_value(before.ready, i);
            lemma_remove_value(before.waiting, i);
        }
        self.ready.pop_front();
        let mut op = OpId { owner: 0, key: 0 };
        if let Some(p) = self.ops[i] {
            op = p.op;
        }
        proof {
            assert(self@ =~= Model { ready: before.ready.drop_first(), ..before });
            assert(self@ =~= Model {
                ready: before.ready.remove_value(i),
                waiting: before.waiting.remove_value(i),
                ..before
            });
        }
        self.discard(i);
        op
    }
}

/// Objects are beside the queues.
pub proof fn lemma_objects(before: Model, after: Model)
    requires
        before.valid(),
        after == (Model { objects: after.objects, ..before }),
        after.objects.len() == before.objects.len(),
    ensures
        after.valid(),
{
    assert forall|l: int, k: int|
        0 <= l < after.lanes.len() && 0 <= k
            < after.lanes[l].len() implies #[trigger] after.lane_ok(l, k) by {
        assert(before.lane_ok(l, k));
    }
    assert forall|i: int| 0 <= i < after.ops.len() implies #[trigger] after.base_ok(i) by {
        assert(before.base_ok(i));
    }
    assert forall|i: int| 0 <= i < after.ops.len() implies #[trigger] after.queue_ok(i) by {
        assert(before.queue_ok(i));
    }
}

/// Acknowledgements are beside the queues.
pub proof fn lemma_cancelled(before: Model, after: Model)
    requires
        before.valid(),
        after == (Model { cancelled: after.cancelled, ..before }),
    ensures
        after.valid(),
{
    assert forall|l: int, k: int|
        0 <= l < after.lanes.len() && 0 <= k
            < after.lanes[l].len() implies #[trigger] after.lane_ok(l, k) by {
        assert(before.lane_ok(l, k));
    }
    assert forall|i: int| 0 <= i < after.ops.len() implies #[trigger] after.base_ok(i) by {
        assert(before.base_ok(i));
    }
    assert forall|i: int| 0 <= i < after.ops.len() implies #[trigger] after.queue_ok(i) by {
        assert(before.queue_ok(i));
    }
}

/// A new request stands behind every older one of its handle.
pub proof fn lemma_submitted(m: Model, op: OpId, handle: Option<Handle>, pooled: bool)
    requires
        m.valid(),
        op.spec_index() < m.ops.len(),
        m.ops[op.spec_index()] is None,
        handle is Some ==> handle->0.spec_index() < m.lanes.len(),
        m.ops.len() <= usize::MAX,
    ensures
        m.submitted(op, handle, pooled).valid(),
{
    let after = m.submitted(op, handle, pooled);
    let x = op.spec_index();
    let i = x as usize;
    assert(m.queue_ok(x));
    lemma_push(m.ready, i);
    let l0 = if handle is Some { handle->0.spec_index() } else { -1 };
    assert forall|l: int, k: int|
        0 <= l < m.lanes.len() && 0 <= k < m.lanes[l].len() implies m.lanes[l][k] != i by {
        assert(m.lane_ok(l, k));
    }
    if handle is Some {
        lemma_push(m.lanes[l0], i);
    }
    assert forall|l: int| 0 <= l < after.lanes.len() implies (
    #[trigger] after.lanes[l]).no_duplicates() by {
        assert(m.lanes[l].no_duplicates());
    }
    assert forall|l: int, k: int|
        0 <= l < after.lanes.len() && 0 <= k
            < after.lanes[l].len() implies #[trigger] after.lane_ok(l, k) by {
        if l != l0 || k < m.lanes[l0].len() {
            assert(m.lane_ok(l, k));
        }
    }
    assert forall|j: int| 0 <= j < after.ops.len() && j != x && m.ops[j] is Some implies after.first(
        j,
    ) == m.first(j) by {
        assert(m.base_ok(j));
    }
    assert forall|j: int| 0 <= j < after.ops.len() implies #[trigger] after.base_ok(j) by {
        assert(m.base_ok(j));
        if handle is Some {
            assert(after.lanes[l0].contains(j as usize) <==> m.lanes[l0].contains(j as usize)
                || j as usize == i);
        }
    }
    assert forall|j: int| 0 <= j < after.ops.len() implies #[trigger] after.queue_ok(j) by {
        assert(m.queue_ok(j));
        assert(j != x ==> j as usize != i);
    }
}

/// Requests on one handle run in the order in which they came: one that can run, or waits
/// for a buffer, is the oldest of its handle.
pub proof fn law_requests_of_a_handle_run_in_order(m: Model, i: int)
    requires
        m.valid(),
        0 <= i < m.ops.len(),
        m.ops[i] is Some,
        m.ops[i]->0.handle is Some,
        m.ready.contains(i as usize) || m.waiting.contains(i as usize),
    ensures
        m.lanes[m.ops[i]->0.handle->0.spec_index()][0] == i,
{
    assert(m.queue_ok(i));
}

/// A handle never waits for nothing: its oldest request can run, or waits for a buffer.
pub proof fn law_oldest_request_is_queued(m: Model, l: int)
    requires
        m.valid(),
        0 <= l < m.lanes.len(),
        m.lanes[l].len() > 0,
    ensures
        m.ready.contains(m.lanes[l][0]) || m.waiting.contains(m.lanes[l][0]),
{
    assert(m.lane_ok(l, 0));
    assert(m.queue_ok(m.lanes[l][0] as int));
}

/// A cancelled request never runs: it is gone at once, and its acknowledgement is owed.
pub proof fn law_cancelled_request_never_runs(m: Model, op: OpId)
    requires
        m.valid(),
        m.holds(op),
    ensures
        !m.withdrawn(op).holds(op),
        !m.withdrawn(op).ready.contains(op.spec_index() as usize),
        m.withdrawn(op).cancelled == m.cancelled.push(op),
{
    let i = op.spec_index();
    lemma_apart(m, i);
    let apart = Model {
        ready: m.ready.remove_value(i as usize),
        waiting: m.waiting.remove_value(i as usize),
        ..m
    };
    lemma_dropped(apart, i);
    assert(apart.dropped(i).queue_ok(i));
}

/// A request is held under its full identity, behind those of its handle, and has its turn at once
/// where there are none.
pub proof fn law_submitted_request_is_held(m: Model, op: OpId, handle: Option<Handle>, pooled: bool)
    requires
        m.valid(),
        op.spec_index() < m.ops.len(),
        m.ops[op.spec_index()] is None,
        handle is Some ==> handle->0.spec_index() < m.lanes.len(),
    ensures
        ({
            let n = m.submitted(op, handle, pooled);
            let i = op.spec_index() as usize;
            let p = n.ops[op.spec_index()]->0;
            &&& n.holds(op)
            &&& p.handle == handle && p.pooled == pooled && !p.waiting
            &&& handle is Some ==> n.lanes[handle->0.spec_index()]
                == m.lanes[handle->0.spec_index()].push(i)
            &&& handle is None || m.lanes[handle->0.spec_index()].len() == 0 ==> n.ready
                == m.ready.push(i)
            &&& handle is Some && m.lanes[handle->0.spec_index()].len() > 0 ==> n.ready == m.ready
            &&& n.objects == m.objects && n.cancelled == m.cancelled && n.waiting == m.waiting
        }),
{
}

/// A cancelled request is owed one acknowledgement, behind those owed before, and is held no more.
pub proof fn law_cancelled_request_is_acknowledged(m: Model, op: OpId)
    requires
        m.valid(),
        m.holds(op),
    ensures
        m.withdrawn(op).cancelled == m.cancelled.push(op),
        !m.withdrawn(op).holds(op),
        m.withdrawn(op).objects == m.objects,
{
}

/// The request behind one that ended has its turn.
pub proof fn law_next_request_has_its_turn(m: Model, h: Handle)
    requires
        m.valid(),
        h.spec_index() < m.lanes.len(),
        m.lanes[h.spec_index()].len() > 1,
        m.ready.len() > 0,
        m.ready[0] == m.lanes[h.spec_index()][0],
    ensures
        ({
            let l = h.spec_index();
            let n = m.finished();
            &&& n.ops[m.ready[0] as int] is None
            &&& n.lanes[l] == m.lanes[l].drop_first()
            &&& n.ready == m.ready.drop_first().push(m.lanes[l][1])
        }),
{
    let l = h.spec_index();
    let lane = m.lanes[l];
    let first = lane[0];
    assert(m.lane_ok(l, 0));
    lane.index_of_first_ensures(first);
    assert(lane.remove_value(first) =~= lane.drop_first());
}

/// A request without a buffer waits for one, in the order in which they came, and all that wait are
/// tried again together, in that order, behind those whose turn it is.
pub proof fn law_waiting_requests_are_tried_again(m: Model)
    ensures
        m.all_woken().ready == m.ready + m.waiting,
        m.all_woken().waiting.len() == 0,
        m.ready.len() > 0 ==> m.parked().waiting == m.waiting.push(m.ready[0])
            && m.parked().ready == m.ready.drop_first(),
    decreases m.waiting.len(),
{
    if m.waiting.len() > 0 {
        law_waiting_requests_are_tried_again(m.woken());
        assert(m.ready.push(m.waiting[0]) + m.waiting.drop_first() =~= m.ready + m.waiting);
    } else {
        assert(m.ready + m.waiting =~= m.ready);
    }
}

/// A request is taken when its slot is free and, where it has a handle, what it opens is not open or
/// what it speaks of is.
pub proof fn law_requests_are_taken(m: Model, op: OpId, handle: Option<Handle>, request: FsRequest)
    ensures
        m.takes(op, handle, request) <==> {
            &&& op.spec_index() < m.ops.len() && m.ops[op.spec_index()] is None
            &&& handle is Some ==> {
                let s = handle->0.spec_index();
                &&& s < m.objects.len()
                &&& (request is Open || request is OpenDir) ==> m.objects[s] is None
                &&& !(request is Open || request is OpenDir) ==> m.objects[s] is Some
            }
        },
{
}

} // verus!
