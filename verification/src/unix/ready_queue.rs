//! One coalesced readiness credit for each service handle.
use crate::queues::{lemma_remove_value, remove_handle};
use crate::types::Handle;
use std::collections::VecDeque;
use vstd::prelude::*;

verus! {

/// Handles with a credit, oldest first. A slot has one credit at most: publishing
/// again before it is taken changes nothing.
#[derive(Debug)]
pub struct ReadyQueue {
    queue: VecDeque<Handle>,
    queued: Vec<bool>,
}

/// Some queued handle occupies slot `s`.
pub open spec fn credited(queue: Seq<Handle>, s: int) -> bool {
    exists|k: int| 0 <= k < queue.len() && (#[trigger] queue[k]).spec_index() == s
}

/// No two queued handles share a slot.
pub open spec fn slots_apart(queue: Seq<Handle>) -> bool {
    forall|j: int, k: int|
        0 <= j < queue.len() && 0 <= k < queue.len() && j != k ==> (
        #[trigger] queue[j]).spec_index() != (#[trigger] queue[k]).spec_index()
}

/// The queue after `h` was published.
pub open spec fn published(queue: Seq<Handle>, h: Handle) -> Seq<Handle> {
    if credited(queue, h.spec_index()) {
        queue
    } else {
        queue.push(h)
    }
}

/// Publishing twice is publishing once.
pub proof fn law_publications_coalesce(queue: Seq<Handle>, h: Handle)
    ensures
        published(published(queue, h), h) == published(queue, h),
{
    let once = published(queue, h);
    if !credited(queue, h.spec_index()) {
        assert(once[queue.len() as int].spec_index() == h.spec_index());
        assert(credited(once, h.spec_index()));
    }
}

/// Publishing keeps slots apart.
pub proof fn lemma_published(queue: Seq<Handle>, h: Handle)
    requires
        slots_apart(queue),
    ensures
        slots_apart(published(queue, h)),
        credited(published(queue, h), h.spec_index()),
        forall|s: int|
            #[trigger] credited(published(queue, h), s) <==> credited(queue, s) || s
                == h.spec_index(),
{
    let after = published(queue, h);
    if !credited(queue, h.spec_index()) {
        assert(after[queue.len() as int].spec_index() == h.spec_index());
        assert forall|s: int| #[trigger] credited(after, s) <==> credited(queue, s) || s
            == h.spec_index() by {
            if credited(queue, s) {
                let k = choose|k: int|
                    0 <= k < queue.len() && (#[trigger] queue[k]).spec_index() == s;
                assert(after[k].spec_index() == s);
            }
            if credited(after, s) && s != h.spec_index() {
                let k = choose|k: int|
                    0 <= k < after.len() && (#[trigger] after[k]).spec_index() == s;
                assert(queue[k].spec_index() == s);
            }
        }
        assert(slots_apart(after)) by {
            assert forall|j: int, k: int|
                0 <= j < after.len() && 0 <= k < after.len() && j != k implies (
            #[trigger] after[j]).spec_index() != (#[trigger] after[k]).spec_index() by {
                if j < queue.len() && k < queue.len() {
                    assert(queue[j].spec_index() != queue[k].spec_index());
                } else if j < queue.len() {
                    assert(queue[j].spec_index() != h.spec_index());
                } else if k < queue.len() {
                    assert(queue[k].spec_index() != h.spec_index());
                }
            }
        }
    }
}

/// Slots apart means no handle twice.
proof fn lemma_apart_no_duplicates(queue: Seq<Handle>)
    requires
        slots_apart(queue),
    ensures
        queue.no_duplicates(),
{
    assert forall|j: int, k: int| 0 <= j < queue.len() && 0 <= k < queue.len() && j
        != k implies queue[j] != queue[k] by {
        assert(queue[j].spec_index() != queue[k].spec_index());
    }
}

impl View for ReadyQueue {
    type V = Seq<Handle>;

    closed spec fn view(&self) -> Seq<Handle> {
        self.queue@
    }
}

impl ReadyQueue {
    /// Slots that can hold a credit.
    pub closed spec fn slots(&self) -> nat {
        self.queued@.len()
    }

    /// The flags tell exactly which slots have a credit.
    pub closed spec fn wf(&self) -> bool {
        &&& slots_apart(self.queue@)
        &&& forall|k: int|
            0 <= k < self.queue@.len() ==> (#[trigger] self.queue@[k]).spec_index()
                < self.queued@.len()
        &&& forall|s: int|
            0 <= s < self.queued@.len() ==> #[trigger] self.queued@[s] == credited(self.queue@, s)
    }

    /// Slots are apart, and every handle fits.
    pub proof fn law_well_formed(&self)
        requires
            self.wf(),
        ensures
            slots_apart(self@),
            self@.no_duplicates(),
            forall|k: int|
                0 <= k < self@.len() ==> (#[trigger] self@[k]).spec_index() < self.slots(),
    {
        lemma_apart_no_duplicates(self@);
    }

    /// No credits yet, for `capacity` slots.
    pub fn new(capacity: usize) -> (queue: Self)
        ensures
            queue.wf(),
            queue.slots() == capacity,
            queue@ == Seq::<Handle>::empty(),
    {
        let mut queued: Vec<bool> = Vec::new();
        let mut i: usize = 0;
        while i < capacity
            invariant
                i <= capacity,
                queued@.len() == i,
                forall|s: int| 0 <= s < i ==> !#[trigger] queued@[s],
            decreases capacity - i,
        {
            queued.push(false);
            i = i + 1;
        }
        ReadyQueue { queue: VecDeque::new(), queued }
    }

    /// Publish readiness of a handle.
    pub fn push(&mut self, h: Handle)
        requires
            old(self).wf(),
            h.spec_index() < old(self).slots(),
        ensures
            final(self).wf(),
            final(self).slots() == old(self).slots(),
            final(self)@ == published(old(self)@, h),
    {
        let s: usize = h.index();
        proof {
            lemma_published(self@, h);
        }
        if !self.queued[s] {
            let ghost before = self.queue@;
            self.queued[s] = true;
            self.queue.push_back(h);
            assert forall|k: int| 0 <= k < self.queue@.len() implies (
            #[trigger] self.queue@[k]).spec_index() < self.queued@.len() by {
                if k < before.len() {
                    assert(before[k].spec_index() < self.queued@.len());
                }
            }
        }
    }

    /// Take the oldest credit.
    pub fn pop(&mut self) -> (taken: Option<Handle>)
        requires
            old(self).wf(),
        ensures
            final(self).wf(),
            final(self).slots() == old(self).slots(),
            match taken {
                None => old(self)@.len() == 0 && final(self)@ == old(self)@,
                Some(h) => old(self)@.len() > 0 && h == old(self)@[0] && final(self)@
                    == old(self)@.drop_first() && !credited(final(self)@, h.spec_index()),
            },
    {
        let ghost before = self.queue@;
        match self.queue.pop_front() {
            None => None,
            Some(h) => {
                let s: usize = h.index();
                assert(before[0].spec_index() < self.queued@.len());
                self.queued[s] = false;
                proof {
                    let after = self.queue@;
                    assert(after =~= before.drop_first());
                    assert forall|t: int| 0 <= t < self.queued@.len() implies #[trigger]
                        self.queued@[t] == credited(after, t) by {
                        if credited(after, t) {
                            let k = choose|k: int|
                                0 <= k < after.len() && (#[trigger] after[k]).spec_index() == t;
                            assert(before[k + 1].spec_index() == t);
                            assert(before[0].spec_index() != before[k + 1].spec_index());
                        } else if t != s && credited(before, t) {
                            let k = choose|k: int|
                                0 <= k < before.len() && (#[trigger] before[k]).spec_index() == t;
                            assert(after[k - 1].spec_index() == t);
                        }
                    }
                    assert forall|j: int, k: int|
                        0 <= j < after.len() && 0 <= k < after.len() && j != k implies (
                    #[trigger] after[j]).spec_index() != (#[trigger] after[k]).spec_index() by {
                        assert(before[j + 1].spec_index() != before[k + 1].spec_index());
                    }
                    assert forall|k: int| 0 <= k < after.len() implies (
                    #[trigger] after[k]).spec_index() < self.queued@.len() by {
                        assert(before[k + 1].spec_index() < self.queued@.len());
                    }
                }
                Some(h)
            },
        }
    }

    /// Forget the credit of a handle before its slot is reused. A queued handle of that
    /// slot is this very generation.
    pub fn remove(&mut self, h: Handle)
        requires
            old(self).wf(),
            h.spec_index() < old(self).slots(),
            forall|k: int|
                0 <= k < old(self)@.len() && (#[trigger] old(self)@[k]).spec_index()
                    == h.spec_index() ==> old(self)@[k] == h,
        ensures
            final(self).wf(),
            final(self).slots() == old(self).slots(),
            final(self)@ == old(self)@.remove_value(h),
            !credited(final(self)@, h.spec_index()),
    {
        let ghost before = self.queue@;
        let s: usize = h.index();
        proof {
            lemma_apart_no_duplicates(before);
            lemma_remove_value(before, h);
        }
        remove_handle(&mut self.queue, h);
        self.queued[s] = false;
        proof {
            let after = self.queue@;
            assert forall|k: int| 0 <= k < after.len() implies exists|kk: int|
                0 <= kk < before.len() && before[kk] == (#[trigger] after[k]) && after[k] != h by {
                assert(after.contains(after[k]));
            }
            assert forall|t: int| 0 <= t < self.queued@.len() implies #[trigger] self.queued@[t]
                == credited(after, t) by {
                if credited(after, t) {
                    let k = choose|k: int|
                        0 <= k < after.len() && (#[trigger] after[k]).spec_index() == t;
                    assert(after.contains(after[k]));
                    let kk = choose|kk: int| 0 <= kk < before.len() && before[kk] == after[k];
                    assert(before[kk].spec_index() == t);
                    assert(credited(before, t));
                    assert(after[k] != h);
                    assert(old(self)@[kk] == before[kk]);
                } else if t != s && credited(before, t) {
                    let k = choose|k: int|
                        0 <= k < before.len() && (#[trigger] before[k]).spec_index() == t;
                    assert(before.contains(before[k]));
                    assert(after.contains(before[k]));
                    let kk = choose|kk: int| 0 <= kk < after.len() && after[kk] == before[k];
                    assert(after[kk].spec_index() == t);
                }
            }
            assert forall|j: int, k: int|
                0 <= j < after.len() && 0 <= k < after.len() && j != k implies (
            #[trigger] after[j]).spec_index() != (#[trigger] after[k]).spec_index() by {
                let jj = choose|jj: int| 0 <= jj < before.len() && before[jj] == after[j];
                let kk = choose|kk: int| 0 <= kk < before.len() && before[kk] == after[k];
                assert(after[j] != after[k]);
                assert(before[jj].spec_index() != before[kk].spec_index());
            }
            assert forall|k: int| 0 <= k < after.len() implies (
            #[trigger] after[k]).spec_index() < self.queued@.len() by {
                let kk = choose|kk: int| 0 <= kk < before.len() && before[kk] == after[k];
                assert(before[kk].spec_index() < self.queued@.len());
            }
        }
    }

    /// Whether any credit is left.
    pub fn has_work(&self) -> (work: bool)
        ensures
            work == (self@.len() > 0),
    {
        self.queue.len() > 0
    }
}

} // verus!
