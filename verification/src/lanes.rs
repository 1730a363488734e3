//! Intrusive first-in first-out lanes over one shared table of links.
use crate::types::{Direction, Handle};
use vstd::prelude::*;

verus! {

/// The lane of one direction of a handle: input lanes are even, output lanes odd.
pub open spec fn lane_of(h: Handle, d: Direction) -> int {
    match d {
        Direction::In => 2 * h.spec_index(),
        Direction::Out => 2 * h.spec_index() + 1,
    }
}

/// Many queues of slot numbers that share one `next` table, so that queueing
/// allocates nothing. A slot is in at most one lane, and at most once.
pub struct Lanes {
    heads: Vec<Option<usize>>,
    tails: Vec<Option<usize>>,
    next: Vec<Option<usize>>,
    lists: Ghost<Seq<Seq<usize>>>,
    /// The lane and the position of every queued slot.
    places: Ghost<Seq<(int, int)>>,
}

/// The entry after position `k`, if there is one.
spec fn successor(list: Seq<usize>, k: int) -> Option<usize> {
    if k + 1 < list.len() {
        Some(list[k + 1])
    } else {
        None
    }
}

impl View for Lanes {
    type V = Seq<Seq<usize>>;

    closed spec fn view(&self) -> Seq<Seq<usize>> {
        self.lists@
    }
}

impl Lanes {
    /// Slots that can be queued.
    pub closed spec fn slots(&self) -> nat {
        self.next@.len()
    }

    spec fn ends_ok(&self, l: int) -> bool {
        let list = self.lists@[l];
        &&& self.heads@[l] == (if list.len() == 0 { None } else { Some(list[0]) })
        &&& self.tails@[l] == (if list.len() == 0 { None } else { Some(list[list.len() - 1]) })
    }

    spec fn entry_ok(&self, l: int, k: int) -> bool {
        let i = self.lists@[l][k] as int;
        &&& i < self.next@.len()
        &&& self.places@[i] == (l, k)
        &&& self.next@[i] == successor(self.lists@[l], k)
    }

    /// Heads, tails and links spell out the lists, and no slot is queued twice.
    pub closed spec fn wf(&self) -> bool {
        &&& self.heads@.len() == self.lists@.len()
        &&& self.tails@.len() == self.lists@.len()
        &&& self.places@.len() == self.next@.len()
        &&& forall|l: int| 0 <= l < self.lists@.len() ==> #[trigger] self.ends_ok(l)
        &&& forall|l: int, k: int|
            0 <= l < self.lists@.len() && 0 <= k < self.lists@[l].len() ==> #[trigger] self.entry_ok(
                l,
                k,
            )
    }

    /// No slot is queued twice, in one lane or in two.
    pub proof fn law_queued_once(&self, l: int, m: int, j: int, k: int)
        requires
            self.wf(),
            0 <= l < self@.len(),
            0 <= m < self@.len(),
            0 <= j < self@[l].len(),
            0 <= k < self@[m].len(),
            self@[l][j] == self@[m][k],
        ensures
            l == m,
            j == k,
    {
        assert(self.entry_ok(l, j));
        assert(self.entry_ok(m, k));
    }

    /// Every queued slot lies inside the table.
    pub proof fn law_in_range(&self, l: int, j: int)
        requires
            self.wf(),
            0 <= l < self@.len(),
            0 <= j < self@[l].len(),
        ensures
            self@[l][j] < self.slots(),
    {
        assert(self.entry_ok(l, j));
    }

    /// `lanes` empty lanes over `slots` slots.
    pub fn new(lanes: usize, slots: usize) -> (table: Self)
        ensures
            table.wf(),
            table.slots() == slots,
            table@.len() == lanes,
            forall|l: int| 0 <= l < lanes ==> #[trigger] table@[l] == Seq::<usize>::empty(),
    {
        let mut heads: Vec<Option<usize>> = Vec::new();
        let mut tails: Vec<Option<usize>> = Vec::new();
        let mut next: Vec<Option<usize>> = Vec::new();
        let mut l: usize = 0;
        while l < lanes
            invariant
                l <= lanes,
                heads@.len() == l,
                tails@.len() == l,
                forall|k: int| 0 <= k < l ==> #[trigger] heads@[k] is None,
                forall|k: int| 0 <= k < l ==> #[trigger] tails@[k] is None,
            decreases lanes - l,
        {
            heads.push(None);
            tails.push(None);
            l = l + 1;
        }
        let mut i: usize = 0;
        while i < slots
            invariant
                i <= slots,
                next@.len() == i,
            decreases slots - i,
        {
            next.push(None);
            i = i + 1;
        }
        Lanes {
            heads,
            tails,
            next,
            lists: Ghost(Seq::new(lanes as nat, |l: int| Seq::<usize>::empty())),
            places: Ghost(Seq::new(slots as nat, |i: int| (0int, 0int))),
        }
    }

    /// The oldest entry of a lane.
    pub fn head(&self, l: usize) -> (head: Option<usize>)
        requires
            self.wf(),
            l < self@.len(),
        ensures
            head == (if self@[l as int].len() == 0 {
                None
            } else {
                Some(self@[l as int][0])
            }),
    {
        assert(self.ends_ok(l as int));
        self.heads[l]
    }

    /// Queue slot `i` behind everything in lane `l`.
    pub fn push(&mut self, l: usize, i: usize)
        requires
            old(self).wf(),
            l < old(self)@.len(),
            i < old(self).slots(),
            forall|m: int| 0 <= m < old(self)@.len() ==> !(#[trigger] old(self)@[m]).contains(i),
        ensures
            final(self).wf(),
            final(self).slots() == old(self).slots(),
            final(self)@ == old(self)@.update(l as int, old(self)@[l as int].push(i)),
    {
        let ghost before = *self;
        let ghost list = before.lists@[l as int];
        assert(before.ends_ok(l as int));
        let tail = self.tails[l];
        match tail {
            Some(last) => {
                proof {
                    assert(before.entry_ok(l as int, list.len() - 1));
                }
                self.next[last] = Some(i);
            },
            None => {
                self.heads[l] = Some(i);
            },
        }
        self.tails[l] = Some(i);
        self.next[i] = None;
        proof {
            self.lists@ = before.lists@.update(l as int, list.push(i));
            self.places@ = before.places@.update(i as int, (l as int, list.len() as int));
            assert forall|m: int| 0 <= m < self.lists@.len() implies #[trigger] self.ends_ok(m) by {
                assert(before.ends_ok(m));
            }
            assert forall|m: int, k: int|
                0 <= m < self.lists@.len() && 0 <= k
                    < self.lists@[m].len() implies #[trigger] self.entry_ok(m, k) by {
                if m != l || k < list.len() {
                    assert(before.entry_ok(m, k));
                    assert(before@[m].contains(before.lists@[m][k]));
                    if list.len() > 0 {
                        assert(before.entry_ok(l as int, list.len() - 1));
                    }
                }
            }
        }
    }

    /// The places after the entry at `pos` left lane `l`.
    spec fn places_without(self, l: int, pos: int) -> Seq<(int, int)> {
        self.places@.map_values(
            |place: (int, int)|
                if place.0 == l && place.1 > pos {
                    (l, place.1 - 1)
                } else {
                    place
                },
        )
    }

    /// Taking the entry at `pos` out of lane `l` leaves a well-formed table.
    proof fn lemma_unlinked(self, after: Lanes, l: int, pos: int)
        requires
            self.wf(),
            0 <= l < self.lists@.len(),
            0 <= pos < self.lists@[l].len(),
            after.places@ == self.places_without(l, pos),
            ({
                let list = self.lists@[l];
                &&& after.lists@ == self.lists@.update(l, list.remove(pos))
                &&& after.heads@ == (if pos == 0 {
                    self.heads@.update(l, successor(list, 0))
                } else {
                    self.heads@
                })
                &&& after.tails@ == (if pos == list.len() - 1 {
                    self.tails@.update(
                        l,
                        if pos == 0 {
                            None
                        } else {
                            Some(list[pos - 1])
                        },
                    )
                } else {
                    self.tails@
                })
                &&& after.next@ == (if pos == 0 {
                    self.next@
                } else {
                    self.next@.update(list[pos - 1] as int, successor(list, pos))
                })
            }),
        ensures
            after.wf(),
    {
        let list = self.lists@[l];
        assert(self.ends_ok(l));
        if pos > 0 {
            assert(self.entry_ok(l, pos - 1));
        }
        assert forall|m: int| 0 <= m < after.lists@.len() implies #[trigger] after.ends_ok(m) by {
            assert(self.ends_ok(m));
        }
        assert forall|m: int, k: int|
            0 <= m < after.lists@.len() && 0 <= k
                < after.lists@[m].len() implies #[trigger] after.entry_ok(m, k) by {
            let from = if m == l && k >= pos { k + 1 } else { k };
            assert(after.lists@[m][k] == self.lists@[m][from]);
            assert(self.entry_ok(m, from));
        }
    }

    /// Take slot `i` out of lane `l`, wherever it stands there.
    pub fn unlink(&mut self, l: usize, i: usize)
        requires
            old(self).wf(),
            l < old(self)@.len(),
            old(self)@[l as int].contains(i),
        ensures
            final(self).wf(),
            final(self).slots() == old(self).slots(),
            final(self)@ == old(self)@.update(l as int, old(self)@[l as int].remove_value(i)),
    {
        let ghost before = *self;
        let ghost list = self.lists@[l as int];
        proof {
            list.index_of_first_ensures(i);
        }
        let ghost pos = list.index_of_first(i)->0;
        assert(before.ends_ok(l as int));
        assert(before.entry_ok(l as int, pos));
        assert(before.entry_ok(l as int, 0));
        assert(before.entry_ok(l as int, list.len() - 1));
        let next = self.next[i];
        let head = self.heads[l];
        if head == Some(i) {
            self.heads[l] = next;
        } else {
            let mut current = head;
            let ghost mut k: int = 0;
            let mut searching: bool = true;
            while searching
                invariant
                    searching ==> *self == before,
                    before.wf(),
                    l < before.lists@.len(),
                    list == before.lists@[l as int],
                    before.tails@[l as int] == Some(list[list.len() - 1]),
                    before.entry_ok(l as int, pos),
                    before.entry_ok(l as int, list.len() - 1),
                    0 < pos < list.len(),
                    list[pos] == i,
                    next == successor(list, pos),
                    0 <= k < pos,
                    searching ==> current == Some(list[k]),
                    !searching ==> {
                        &&& k == pos - 1
                        &&& self.heads@ == before.heads@
                        &&& self.lists@ == before.lists@
                        &&& self.places@ == before.places@
                        &&& self.next@ == before.next@.update(list[pos - 1] as int, next)
                        &&& self.tails@ == (if pos == list.len() - 1 {
                            before.tails@.update(l as int, Some(list[pos - 1]))
                        } else {
                            before.tails@
                        })
                    },
                decreases (if searching { pos - k } else { 0 }),
            {
                match current {
                    Some(p) => {
                        assert(before.entry_ok(l as int, k));
                        assert(before.entry_ok(l as int, k + 1));
                        let follow = self.next[p];
                        if follow == Some(i) {
                            self.next[p] = next;
                            if self.tails[l] == Some(i) {
                                self.tails[l] = Some(p);
                            }
                            searching = false;
                        } else {
                            proof {
                                k = k + 1;
                            }
                            current = follow;
                        }
                    },
                    None => {
                        assert(false);
                        searching = false;
                    },
                }
            }
            assert(before.entry_ok(l as int, pos - 1));
        }
        if self.tails[l] == Some(i) {
            self.tails[l] = None;
        }
        proof {
            self.lists@ = before.lists@.update(l as int, list.remove(pos));
            self.places@ = before.places_without(l as int, pos);
            before.lemma_unlinked(*self, l as int, pos);
        }
    }
}

} // verus!
