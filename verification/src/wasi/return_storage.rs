//! Storage for lists that the component host returns. A list may arrive on any
//! progress boundary, so a slot goes back only after the operation that owns its
//! list consumed or cancelled it, never at the end of a turn.
use vstd::prelude::*;

verus! {

/// Bytes of a retained slot: the largest datagram.
pub const DATAGRAM_CAPACITY: usize = 65536;

/// One retained buffer.
#[derive(Debug)]
pub struct Slot {
    pub bytes: Vec<u8>,
    pub busy: bool,
}

/// Retained buffers, one for each live reservation at least.
#[derive(Debug)]
pub struct Arena {
    slots: Vec<Slot>,
    reservations: usize,
}

/// Where a list returned by the host lies.
#[derive(Clone, Copy, Debug, PartialEq, Eq, Structural)]
pub enum Place {
    /// An empty list has no storage.
    Dangling,
    /// A retained buffer.
    Slot(usize),
    /// The ordinary heap.
    Heap,
}

/// A returned list, with the obligation to give its storage back.
#[derive(Debug)]
pub enum ReturnBytes {
    Heap(Vec<u8>),
    Retained { index: usize, len: usize },
}

/// Retained buffers as mathematics: contents and whether a list lies there.
#[verifier::ext_equal]
pub struct Shelf {
    pub bytes: Seq<u8>,
    pub busy: bool,
}

impl View for Slot {
    type V = Shelf;

    open spec fn view(&self) -> Shelf {
        Shelf { bytes: self.bytes@, busy: self.busy }
    }
}

impl View for Arena {
    type V = Seq<Shelf>;

    closed spec fn view(&self) -> Seq<Shelf> {
        self.slots@.map_values(|slot: Slot| slot@)
    }
}

/// The first idle buffer.
pub open spec fn first_idle(shelves: Seq<Shelf>, index: int) -> bool {
    &&& 0 <= index < shelves.len()
    &&& !shelves[index].busy
    &&& forall|k: int| 0 <= k < index ==> (#[trigger] shelves[k]).busy
}

/// Every buffer holds a list now.
pub open spec fn all_busy(shelves: Seq<Shelf>) -> bool {
    forall|k: int| 0 <= k < shelves.len() ==> (#[trigger] shelves[k]).busy
}

/// The shelves with one of them marked.
pub open spec fn marked(shelves: Seq<Shelf>, index: int, busy: bool) -> Seq<Shelf> {
    shelves.update(index, Shelf { busy, ..shelves[index] })
}

/// Two lists granted one after the other never share a buffer.
pub proof fn law_pending_lists_are_apart(shelves: Seq<Shelf>, first: int, second: int)
    requires
        first_idle(shelves, first),
        first_idle(marked(shelves, first, true), second),
    ensures
        first != second,
        marked(marked(shelves, first, true), second, true)[first] == marked(
            shelves,
            first,
            true,
        )[first],
{
}

/// A buffer given back is the next one granted, unless an earlier one is idle.
pub proof fn law_released_buffer_is_reused(shelves: Seq<Shelf>, index: int)
    requires
        0 <= index < shelves.len(),
        all_busy(shelves),
    ensures
        first_idle(marked(shelves, index, false), index),
{
}

impl Arena {
    /// Live reservations.
    pub closed spec fn reserved(&self) -> nat {
        self.reservations as nat
    }

    /// Every buffer holds a whole datagram, and there are enough of them.
    pub closed spec fn wf(&self) -> bool {
        &&& forall|k: int|
            0 <= k < self.slots@.len() ==> (#[trigger] self.slots@[k]).bytes@.len()
                == DATAGRAM_CAPACITY
        &&& self.reservations <= self.slots@.len()
    }

    /// No buffer is shorter than a datagram.
    pub proof fn law_capacity(&self, k: int)
        requires
            self.wf(),
            0 <= k < self@.len(),
        ensures
            self@[k].bytes.len() == DATAGRAM_CAPACITY,
            self.reserved() <= self@.len(),
    {
        assert(self.slots@[k].bytes@.len() == DATAGRAM_CAPACITY);
    }

    /// No buffers and no reservations.
    pub fn new() -> (arena: Self)
        ensures
            arena.wf(),
            arena@ == Seq::<Shelf>::empty(),
            arena.reserved() == 0,
    {
        let arena = Arena { slots: Vec::new(), reservations: 0 };
        assert(arena@ =~= Seq::<Shelf>::empty());
        arena
    }

    /// Count one more socket and make sure that a buffer exists for it. Existing
    /// buffers, busy or not, stay as they are.
    pub fn reserve(&mut self)
        requires
            old(self).wf(),
            old(self).reserved() < usize::MAX,
        ensures
            final(self).wf(),
            final(self).reserved() == old(self).reserved() + 1,
            final(self)@ == (if old(self)@.len() < old(self).reserved() + 1 {
                old(self)@.push(
                    Shelf {
                        bytes: Seq::new(DATAGRAM_CAPACITY as nat, |i: int| 0u8),
                        busy: false,
                    },
                )
            } else {
                old(self)@
            }),
    {
        let n: usize = self.reservations + 1;
        self.reservations = n;
        if self.slots.len() < n {
            let bytes: Vec<u8> = vec![0u8; DATAGRAM_CAPACITY];
            assert(bytes@ =~= Seq::new(DATAGRAM_CAPACITY as nat, |i: int| 0u8));
            self.slots.push(Slot { bytes, busy: false });
        }
        assert(self@ =~= (if old(self)@.len() < n {
            old(self)@.push(
                Shelf { bytes: Seq::new(DATAGRAM_CAPACITY as nat, |i: int| 0u8), busy: false },
            )
        } else {
            old(self)@
        }));
    }

    /// A socket went away. Its buffer stays for the next one.
    pub fn unreserve(&mut self)
        requires
            old(self).wf(),
            old(self).reserved() > 0,
        ensures
            final(self).wf(),
            final(self).reserved() == old(self).reserved() - 1,
            final(self)@ == old(self)@,
    {
        self.reservations = self.reservations - 1;
    }

    fn set_busy(&mut self, index: usize, busy: bool)
        requires
            old(self).wf(),
            index < old(self)@.len(),
        ensures
            final(self).wf(),
            final(self).reserved() == old(self).reserved(),
            final(self)@ == marked(old(self)@, index as int, busy),
    {
        let ghost before = self.slots@;
        self.slots[index].busy = busy;
        assert(self@ =~= marked(old(self)@, index as int, busy));
    }

    /// Give a buffer back. It holds a list, or this would be a second release.
    pub fn release(&mut self, index: usize)
        requires
            old(self).wf(),
            index < old(self)@.len(),
            old(self)@[index as int].busy,
        ensures
            final(self).wf(),
            final(self).reserved() == old(self).reserved(),
            final(self)@ == marked(old(self)@, index as int, false),
    {
        self.set_busy(index, false);
    }

    /// The buffer that a list lies in, if it lies in one.
    pub fn locate(&self, place: Place) -> (index: Option<usize>)
        ensures
            index == (match place {
                Place::Slot(i) => if i < self@.len() {
                    Some(i)
                } else {
                    None
                },
                _ => None,
            }),
    {
        match place {
            Place::Slot(i) => if i < self.slots.len() {
                Some(i)
            } else {
                None
            },
            _ => None,
        }
    }

    /// Take the first idle buffer.
    fn grant(&mut self) -> (index: Option<usize>)
        requires
            old(self).wf(),
        ensures
            final(self).wf(),
            final(self).reserved() == old(self).reserved(),
            match index {
                Some(i) => first_idle(old(self)@, i as int) && final(self)@ == marked(
                    old(self)@,
                    i as int,
                    true,
                ),
                None => all_busy(old(self)@) && final(self)@ == old(self)@,
            },
    {
        let mut i: usize = 0;
        while i < self.slots.len()
            invariant
                i <= self.slots@.len(),
                *self == *old(self),
                self.wf(),
                forall|k: int| 0 <= k < i ==> (#[trigger] self@[k]).busy,
            decreases self.slots@.len() - i,
        {
            assert(self@[i as int].busy == self.slots@[i as int].busy);
            if !self.slots[i].busy {
                self.set_busy(i, true);
                return Some(i);
            }
            i = i + 1;
        }
        None
    }

    /// The canonical allocation function. Within a scope, byte lists that fit a
    /// datagram take the first idle buffer; growth past a datagram moves the list
    /// to the heap and frees its buffer; everything else is heap memory.
    pub fn cabi_realloc(&mut self, scope: bool, from: Place, old_len: usize, align: usize, len: usize)
        -> (place: Place)
        requires
            old(self).wf(),
            scope && old_len != 0 ==> (from matches Place::Slot(i) ==> i < old(self)@.len() && old(self)@[i as int].busy && old_len <= DATAGRAM_CAPACITY && align == 1),
        ensures
            final(self).wf(),
            final(self).reserved() == old(self).reserved(),
            if len == 0 {
                place == Place::Dangling && final(self)@ == old(self)@
            } else if scope && old_len != 0 && from is Slot {
                if len <= DATAGRAM_CAPACITY {
                    place == from && final(self)@ == old(self)@
                } else {
                    place == Place::Heap && final(self)@ == marked(old(self)@, from->0 as int, false)
                }
            } else if scope && old_len == 0 && align == 1 && len <= DATAGRAM_CAPACITY && !all_busy(
                old(self)@,
            ) {
                &&& place matches Place::Slot(i) && first_idle(old(self)@, i as int)
                &&& final(self)@ == marked(old(self)@, place->0 as int, true)
            } else {
                place == Place::Heap && final(self)@ == old(self)@
            },
    {
        if len == 0 {
            return Place::Dangling;
        }
        if scope && old_len != 0 {
            if let Some(index) = self.locate(from) {
                if len <= DATAGRAM_CAPACITY {
                    return from;
                }
                self.release(index);
                return Place::Heap;
            }
        }
        if scope && old_len == 0 && align == 1 && len <= DATAGRAM_CAPACITY {
            if let Some(index) = self.grant() {
                return Place::Slot(index);
            }
        }
        Place::Heap
    }

    /// Let the host write the start of a granted buffer.
    pub fn write(&mut self, index: usize, data: &Vec<u8>)
        requires
            old(self).wf(),
            index < old(self)@.len(),
            old(self)@[index as int].busy,
            data@.len() <= DATAGRAM_CAPACITY,
        ensures
            final(self).wf(),
            final(self).reserved() == old(self).reserved(),
            final(self)@ == old(self)@.update(
                index as int,
                Shelf {
                    bytes: data@ + old(self)@[index as int].bytes.skip(data@.len() as int),
                    busy: true,
                },
            ),
    {
        let ghost shelves = self@;
        let ghost b0 = self.slots@[index as int].bytes@;
        let mut bytes: Vec<u8> = Vec::new();
        core::mem::swap(&mut bytes, &mut self.slots[index].bytes);
        let mut i: usize = 0;
        while i < data.len()
            invariant
                i <= data@.len() <= DATAGRAM_CAPACITY,
                b0.len() == DATAGRAM_CAPACITY,
                bytes@ == data@.take(i as int) + b0.skip(i as int),
            decreases data@.len() - i,
        {
            bytes[i] = data[i];
            assert(bytes@ =~= data@.take(i as int + 1) + b0.skip(i as int + 1));
            i = i + 1;
        }
        assert(data@.take(i as int) =~= data@);
        self.slots[index].bytes = bytes;
        assert(self@ =~= shelves.update(
            index as int,
            Shelf { bytes: data@ + shelves[index as int].bytes.skip(data@.len() as int), busy: true },
        ));
    }

    /// Own a list that the host returned. An empty one needs no storage; `heap` are
    /// the bytes of a list that lies outside the buffers.
    pub fn take(&self, place: Place, len: usize, heap: Vec<u8>) -> (list: ReturnBytes)
        ensures
            match list {
                ReturnBytes::Retained { index, len: n } => len != 0 && place == Place::Slot(index)
                    && index < self@.len() && n == len,
                ReturnBytes::Heap(bytes) => if len == 0 {
                    bytes@.len() == 0
                } else {
                    bytes == heap && !(place is Slot && place->0 < self@.len())
                },
            },
    {
        if len == 0 {
            return ReturnBytes::Heap(Vec::new());
        }
        match self.locate(place) {
            Some(index) => ReturnBytes::Retained { index, len },
            None => ReturnBytes::Heap(heap),
        }
    }

    /// The bytes of an owned list.
    pub open spec fn contents(&self, list: ReturnBytes) -> Seq<u8> {
        match list {
            ReturnBytes::Heap(bytes) => bytes@,
            ReturnBytes::Retained { index, len } => self@[index as int].bytes.take(len as int),
        }
    }

    /// The list lies in a busy buffer that is long enough, or on the heap.
    pub open spec fn owns(&self, list: ReturnBytes) -> bool {
        list matches ReturnBytes::Retained { index, len } ==> index < self@.len()
            && self@[index as int].busy && len <= DATAGRAM_CAPACITY
    }

    /// One byte of an owned list.
    pub fn byte(&self, list: &ReturnBytes, i: usize) -> (byte: u8)
        requires
            self.wf(),
            self.owns(*list),
            i < self.contents(*list).len(),
        ensures
            byte == self.contents(*list)[i as int],
    {
        match list {
            ReturnBytes::Heap(bytes) => bytes[i],
            ReturnBytes::Retained { index, len } => {
                proof {
                    self.law_capacity(*index as int);
                }
                self.slots[*index].bytes[i]
            },
        }
    }

    /// Discard an owned list: consumed and cancelled lists give their buffer back.
    pub fn discard(&mut self, list: ReturnBytes)
        requires
            old(self).wf(),
            old(self).owns(list),
        ensures
            final(self).wf(),
            final(self).reserved() == old(self).reserved(),
            final(self)@ == (match list {
                ReturnBytes::Retained { index, .. } => marked(old(self)@, index as int, false),
                ReturnBytes::Heap(_) => old(self)@,
            }),
    {
        match list {
            ReturnBytes::Retained { index, .. } => self.release(index),
            ReturnBytes::Heap(_) => {},
        }
    }
}

/// Grow a list that leaves its buffer: the old bytes come first.
pub fn grown(prefix: &Vec<u8>, len: usize) -> (bytes: Vec<u8>)
    requires
        prefix@.len() <= len,
    ensures
        bytes@.len() == len,
        bytes@.take(prefix@.len() as int) == prefix@,
{
    let mut bytes: Vec<u8> = vec![0u8; len];
    let mut i: usize = 0;
    while i < prefix.len()
        invariant
            i <= prefix@.len() <= len,
            bytes@.len() == len,
            bytes@.take(i as int) == prefix@.take(i as int),
        decreases prefix@.len() - i,
    {
        bytes[i] = prefix[i];
        assert(bytes@.take(i as int + 1) =~= prefix@.take(i as int + 1));
        i = i + 1;
    }
    assert(prefix@.take(i as int) =~= prefix@);
    bytes
}

/// Whether retained buffers are in use, as nested scopes set it.
#[derive(Clone, Copy, Debug, PartialEq, Eq, Structural)]
pub struct Scope {
    pub active: bool,
}

impl Scope {
    /// Enter a scope: buffers are used exactly if there is an arena. The result
    /// restores what held before.
    pub fn enter(&mut self, arena: bool) -> (previous: Scope)
        ensures
            previous == *old(self),
            final(self).active == arena,
    {
        let previous = *self;
        self.active = arena;
        previous
    }

    /// Leave a scope. A host leaves it as well when what ran in it unwinds.
    pub fn leave(&mut self, previous: Scope)
        ensures
            *final(self) == previous,
    {
        *self = previous;
    }
}

/// Run `f` in a scope of its own, which it is handed: with buffers exactly if there is an arena.
/// The scope around it is not touched meanwhile, so that it holds again however `f` ends, by
/// returning or by unwinding, and the next scope finds nothing of this one.
pub fn scoped<T, F: FnOnce(Scope) -> T>(scope: &mut Scope, arena: bool, f: F) -> (value: T)
    requires
        f.requires((Scope { active: arena },)),
    ensures
        f.ensures((Scope { active: arena },), value),
        *final(scope) == *old(scope),
{
    let mut inner: Scope = *scope;
    inner.enter(arena);
    f(inner)
}

} // verus!
