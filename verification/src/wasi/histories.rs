//! What many requests on one handle come to: where reads and writes act, and what a directory
//! lists.
use crate::types::{Error, ErrorKind};
use crate::wasi::requests::{
    continued, listing, position, started, Call, Entry, FsOutput, FsRequest, Next, Object, Phase,
    Reply, Step,
};
use vstd::prelude::*;

verus! {

/// A read or a write that moved so many bytes.
pub struct Access {
    pub write: bool,
    pub offset: Option<u64>,
    pub n: usize,
    pub eof: bool,
}

impl Access {
    pub open spec fn request(self) -> FsRequest {
        if self.write {
            FsRequest::Write { offset: self.offset }
        } else {
            FsRequest::Read { pooled: false, offset: self.offset }
        }
    }

    /// By how much the cursor moves. One with an offset leaves it, and so does appending.
    pub open spec fn advance(self, append: bool) -> int {
        if self.offset is Some || (self.write && append) {
            0
        } else {
            self.n as int
        }
    }

    /// What it calls with the cursor there.
    pub open spec fn call(self, cursor: u64, append: bool) -> Call {
        if self.write && append {
            Call::Append
        } else if self.write {
            Call::Write { at: position(self.offset, cursor) }
        } else {
            Call::Read { at: position(self.offset, cursor) }
        }
    }
}

/// How far the first `k` accesses move the cursor.
pub open spec fn travelled(accesses: Seq<Access>, append: bool, k: int) -> int
    decreases k,
{
    if k <= 0 {
        0
    } else {
        travelled(accesses, append, k - 1) + accesses[k - 1].advance(append)
    }
}

/// What the handle stands for after the first `k` accesses.
pub open spec fn accessed(object: Option<Object>, accesses: Seq<Access>, k: int) -> Option<Object>
    decreases k,
{
    if k <= 0 {
        object
    } else {
        let before = accessed(object, accesses, k - 1);
        let a = accesses[k - 1];
        match started(Seq::empty(), a.request(), before).next {
            Next::Call { phase, call } => continued(
                Seq::empty(),
                a.request(),
                before,
                phase,
                call,
                Reply::Moved { n: a.n, eof: a.eof },
            ).object,
            Next::End(_) => before,
        }
    }
}

/// Accesses with an offset act there and leave the cursor; the others act at the cursor and
/// move it by what they moved. So each of these acts behind all that the earlier ones moved,
/// reads and writes alike, from the start of the file. Appending does neither.
pub proof fn law_cursor_counts_what_was_moved(accesses: Seq<Access>, append: bool, k: int)
    requires
        0 <= k < accesses.len(),
        forall|j: int| 0 <= j <= k ==> #[trigger] travelled(accesses, append, j) <= u64::MAX,
    ensures
        0 <= travelled(accesses, append, k),
        accessed(Some(Object::File { cursor: 0, append }), accesses, k) == Some(
            Object::File { cursor: travelled(accesses, append, k) as u64, append },
        ),
        started(
            Seq::empty(),
            accesses[k].request(),
            accessed(Some(Object::File { cursor: 0, append }), accesses, k),
        ).next == (Next::Call {
            phase: Phase::Single,
            call: accesses[k].call(travelled(accesses, append, k) as u64, append),
        }),
    decreases k,
{
    if k > 0 {
        law_cursor_counts_what_was_moved(accesses, append, k - 1);
        assert(travelled(accesses, append, k) <= u64::MAX);
    }
}

/// A directory that is listed by requests, one after the other.
pub struct Listing {
    pub object: Option<Object>,
    /// Entries that the host handed out.
    pub fetched: int,
    /// Which of them were stored, in order.
    pub stored: Seq<int>,
    /// The request that runs: what it stored so far, and the call that it waits for.
    pub running: Option<(usize, Call)>,
}

/// What happens to it.
pub enum Move {
    /// Another request starts.
    Start { pooled: bool },
    /// The call of the running request returned.
    Return(Reply),
}

/// Those of the first `n` entries that are not the directory itself or its parent.
pub open spec fn wanted(entries: Seq<Entry>, n: int) -> Seq<int>
    decreases n,
{
    if n <= 0 {
        Seq::empty()
    } else if entries[n - 1].special {
        wanted(entries, n - 1)
    } else {
        wanted(entries, n - 1).push(n - 1)
    }
}

/// The host returns the entries in order, then that there are no more, and stores an entry or
/// finds no room. Every call may fail.
pub open spec fn happens(l: Listing, entries: Seq<Entry>, event: Move) -> bool {
    match event {
        Move::Start { .. } => l.running is None,
        Move::Return(reply) => {
            &&& l.running is Some
            &&& match ((l.running->0).1, reply) {
                (_, Reply::Failed(_)) => true,
                (Call::Entries, Reply::Done) => true,
                (Call::NextEntry, Reply::Entry(entry)) => entry == if l.fetched < entries.len() {
                    Some(entries[l.fetched])
                } else {
                    None
                },
                (Call::Put { .. }, Reply::Stored(_)) => true,
                _ => false,
            }
        },
    }
}

/// The step that follows.
pub open spec fn step_of(l: Listing, event: Move) -> Step {
    match event {
        Move::Start { pooled } => started(Seq::empty(), FsRequest::ReadDir { pooled }, l.object),
        Move::Return(reply) => continued(
            Seq::empty(),
            FsRequest::ReadDir { pooled: false },
            l.object,
            Phase::Listing { used: (l.running->0).0 },
            (l.running->0).1,
            reply,
        ),
    }
}

/// The directory after an event.
pub open spec fn listed_on(l: Listing, event: Move) -> Listing {
    let step = step_of(l, event);
    Listing {
        object: step.object,
        fetched: match event {
            Move::Return(Reply::Entry(Some(_))) => l.fetched + 1,
            _ => l.fetched,
        },
        stored: match event {
            Move::Return(Reply::Stored(Some(_))) => l.stored.push(l.fetched - 1),
            _ => l.stored,
        },
        running: match step.next {
            Next::Call { phase: Phase::Listing { used }, call } => Some((used, call)),
            _ => None,
        },
    }
}

/// A directory that was just opened.
pub open spec fn opened() -> Listing {
    Listing {
        object: Some(Object::Dir { listed: false, pending: None, done: false }),
        fetched: 0,
        stored: Seq::empty(),
        running: None,
    }
}

/// The directory after the first `n` events.
pub open spec fn history(events: Seq<Move>, n: int) -> Listing
    decreases n,
{
    if n <= 0 {
        opened()
    } else {
        listed_on(history(events, n - 1), events[n - 1])
    }
}

/// What was handed out is stored, or it is the one entry that waits; and each call is made for
/// a reason.
pub open spec fn complete_so_far(l: Listing, entries: Seq<Entry>) -> bool {
    match l.object {
        Some(Object::Dir { listed, pending, done }) => {
            &&& 0 <= l.fetched <= entries.len()
            &&& done ==> l.fetched == entries.len()
            &&& !listed ==> l.fetched == 0
            &&& match pending {
                Some(entry) => {
                    &&& !entry.special
                    &&& 0 < l.fetched
                    &&& entry == entries[l.fetched - 1]
                    &&& l.stored == wanted(entries, l.fetched - 1)
                },
                None => l.stored == wanted(entries, l.fetched),
            }
            &&& match l.running {
                Some((_, Call::Put { .. })) => pending is Some,
                Some((_, Call::NextEntry)) => listed && pending is None && !done,
                Some((_, Call::Entries)) => !listed && pending is None && !done,
                Some(_) => false,
                None => true,
            }
        },
        _ => false,
    }
}

proof fn lemma_listed_on(l: Listing, entries: Seq<Entry>, event: Move)
    requires
        complete_so_far(l, entries),
        happens(l, entries, event),
    ensures
        complete_so_far(listed_on(l, event), entries),
{
}

/// However a directory is listed, in however many requests and with whatever room, what was
/// stored is every entry that was handed out, once and in order, without the directory itself
/// and its parent; at most the last one waits. A request that ends the listing has stored them
/// all, and one whose room is too small for a single entry fails and loses nothing.
pub proof fn law_listing_gives_every_entry_once(entries: Seq<Entry>, events: Seq<Move>, n: int)
    requires
        0 <= n < events.len(),
        forall|k: int| 0 <= k <= n ==> happens(#[trigger] history(events, k), entries, events[k]),
    ensures
        complete_so_far(history(events, n), entries),
        complete_so_far(history(events, n + 1), entries),
        match step_of(history(events, n), events[n]).next {
            Next::End(Ok(FsOutput::Directory { eof: true, .. })) => history(events, n + 1).stored
                == wanted(entries, entries.len() as int),
            Next::End(_) => history(events, n + 1).stored == history(events, n).stored && history(
                events,
                n + 1,
            ).object == history(events, n).object,
            _ => true,
        },
        events[n] == Move::Return(Reply::Stored(None)) && (history(events, n).running->0).0 == 0
            ==> step_of(history(events, n), events[n]).next == Next::End(
            Err(Error::plain(ErrorKind::ResourceLimit)),
        ),
    decreases n,
{
    if n > 0 {
        assert(happens(history(events, n - 1), entries, events[n - 1]));
        law_listing_gives_every_entry_once(entries, events, n - 1);
    }
    assert(happens(history(events, n), entries, events[n]));
    lemma_listed_on(history(events, n), entries, events[n]);
}

} // verus!
