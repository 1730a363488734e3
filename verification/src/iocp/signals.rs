//! Console control events: a fixed table of subscriptions.
use crate::types::{unsupported, Error, ErrorKind, Signal};
use vstd::prelude::*;

verus! {

pub const CTRL_C_EVENT: u32 = 0;

pub const CTRL_BREAK_EVENT: u32 = 1;

pub const CTRL_CLOSE_EVENT: u32 = 2;

/// Subscriptions the process can hold.
pub const SLOTS: usize = 1024;

/// A subscription: its signal and whether one is pending.
#[derive(Clone, Copy, Debug, PartialEq, Eq, Structural)]
pub struct Ticket {
    pub signal: Signal,
    pub pending: bool,
}

/// The signal a control event stands for.
pub fn control_signal(control: u32) -> (signal: Option<Signal>)
    ensures
        signal == (if control == CTRL_C_EVENT {
            Some(Signal::Int)
        } else if control == CTRL_BREAK_EVENT {
            Some(Signal::Break)
        } else if control == CTRL_CLOSE_EVENT {
            Some(Signal::Hup)
        } else {
            None
        }),
{
    if control == CTRL_C_EVENT {
        Some(Signal::Int)
    } else if control == CTRL_BREAK_EVENT {
        Some(Signal::Break)
    } else if control == CTRL_CLOSE_EVENT {
        Some(Signal::Hup)
    } else {
        None
    }
}

/// Signals that a console can deliver.
pub open spec fn deliverable(signal: Signal) -> bool {
    signal == Signal::Int || signal == Signal::Break || signal == Signal::Hup || signal
        == Signal::WinCh
}

/// The tickets after `signal` was dispatched.
pub open spec fn dispatched(slots: Seq<Option<Ticket>>, signal: Signal) -> Seq<Option<Ticket>> {
    slots.map_values(
        |slot: Option<Ticket>|
            match slot {
                Some(t) => if t.signal == signal {
                    Some(Ticket { pending: true, ..t })
                } else {
                    slot
                },
                None => None,
            },
    )
}

/// Some ticket subscribes to `signal`.
pub open spec fn subscribed(slots: Seq<Option<Ticket>>, signal: Signal) -> bool {
    exists|k: int|
        0 <= k < slots.len() && ((#[trigger] slots[k]) matches Some(t) && t.signal == signal)
}

/// What a control handler answers the system.
#[derive(Clone, Copy, Debug, PartialEq, Eq, Structural)]
pub struct Handled {
    /// The event was ours; otherwise other handlers run.
    pub handled: bool,
    /// Keep the control thread, so that the loop can still see a close.
    pub hold: bool,
}

/// The subscriptions of the process.
#[derive(Debug)]
pub struct Table {
    slots: Vec<Option<Ticket>>,
}

impl View for Table {
    type V = Seq<Option<Ticket>>;

    closed spec fn view(&self) -> Seq<Option<Ticket>> {
        self.slots@
    }
}

impl Table {
    /// An empty table.
    pub fn new() -> (table: Self)
        ensures
            table@ == Seq::new(SLOTS as nat, |k: int| None::<Ticket>),
    {
        let mut slots: Vec<Option<Ticket>> = Vec::new();
        let mut i: usize = 0;
        while i < SLOTS
            invariant
                i <= SLOTS,
                slots@ == Seq::new(i as nat, |k: int| None::<Ticket>),
            decreases SLOTS - i,
        {
            slots.push(None);
            i = i + 1;
        }
        Table { slots }
    }

    /// Publish a new ticket in the first free slot. A signal that no console delivers is
    /// refused before the table is looked at.
    pub fn subscribe(&mut self, signal: Signal) -> (index: Result<usize, Error>)
        ensures
            if !deliverable(signal) {
                index == Err::<usize, Error>(Error::plain(ErrorKind::Unsupported)) && final(self)@
                    == old(self)@
            } else {
                match index {
                    Ok(k) => {
                        &&& k < old(self)@.len()
                        &&& old(self)@[k as int] is None
                        &&& forall|j: int| 0 <= j < k ==> (#[trigger] old(self)@[j]) is Some
                        &&& final(self)@ == old(self)@.update(
                            k as int,
                            Some(Ticket { signal, pending: false }),
                        )
                    },
                    Err(e) => {
                        &&& e == Error::plain(ErrorKind::ResourceLimit)
                        &&& forall|j: int|
                            0 <= j < old(self)@.len() ==> (#[trigger] old(self)@[j]) is Some
                        &&& final(self)@ == old(self)@
                    },
                }
            },
    {
        if signal != Signal::Int && signal != Signal::Break && signal != Signal::Hup && signal
            != Signal::WinCh {
            return Err(unsupported());
        }
        let mut i: usize = 0;
        while i < self.slots.len()
            invariant
                i <= self.slots@.len(),
                *self == *old(self),
                deliverable(signal),
                forall|j: int| 0 <= j < i ==> (#[trigger] self@[j]) is Some,
            decreases self.slots@.len() - i,
        {
            assert(self@[i as int] == self.slots@[i as int]);
            if self.slots[i].is_none() {
                self.slots[i] = Some(Ticket { signal, pending: false });
                return Ok(i);
            }
            i = i + 1;
        }
        Err(Error::new(ErrorKind::ResourceLimit))
    }

    /// Publish a signal to every ticket that subscribes to it.
    pub fn dispatch(&mut self, signal: Signal) -> (handled: bool)
        ensures
            final(self)@ == dispatched(old(self)@, signal),
            handled == subscribed(old(self)@, signal),
    {
        let ghost before = self.slots@;
        let mut handled = false;
        let mut i: usize = 0;
        while i < self.slots.len()
            invariant
                i <= self.slots@.len(),
                before == old(self)@,
                self.slots@.len() == before.len(),
                forall|k: int| 0 <= k < i ==> #[trigger] self.slots@[k] == dispatched(before, signal)[k],
                forall|k: int| i <= k < before.len() ==> #[trigger] self.slots@[k] == before[k],
                handled == exists|k: int|
                    0 <= k < i && ((#[trigger] before[k]) matches Some(t) && t.signal == signal),
            decreases self.slots@.len() - i,
        {
            assert(self.slots@[i as int] == before[i as int]);
            if let Some(t) = self.slots[i] {
                if t.signal == signal {
                    handled = true;
                    self.slots[i] = Some(Ticket { pending: true, ..t });
                }
            }
            i = i + 1;
        }
        assert(self.slots@ =~= dispatched(before, signal));
        handled
    }

    /// Handle a control event. Only a close that somebody subscribed to holds its thread;
    /// an event without subscription goes to the next handler.
    pub fn handle_control(&mut self, control: u32) -> (answer: Handled)
        ensures
            ({
                let signal = if control == CTRL_C_EVENT {
                    Some(Signal::Int)
                } else if control == CTRL_BREAK_EVENT {
                    Some(Signal::Break)
                } else if control == CTRL_CLOSE_EVENT {
                    Some(Signal::Hup)
                } else {
                    None
                };
                match signal {
                    None => answer == (Handled { handled: false, hold: false }) && final(self)@
                        == old(self)@,
                    Some(signal) => {
                        let ours = subscribed(old(self)@, signal);
                        &&& answer == (Handled {
                            handled: ours,
                            hold: ours && control == CTRL_CLOSE_EVENT,
                        })
                        &&& final(self)@ == dispatched(old(self)@, signal)
                    },
                }
            }),
    {
        match control_signal(control) {
            None => Handled { handled: false, hold: false },
            Some(signal) => {
                let handled = self.dispatch(signal);
                Handled { handled, hold: handled && control == CTRL_CLOSE_EVENT }
            },
        }
    }

    /// Whether the ticket in a slot has a signal pending.
    pub fn ready(&self, index: usize) -> (pending: bool)
        ensures
            pending == (index < self@.len() && (self@[index as int] matches Some(t) && t.pending)),
    {
        if index < self.slots.len() {
            if let Some(t) = self.slots[index] {
                return t.pending;
            }
        }
        false
    }

    /// Take the pending signal of a slot, if there is one.
    pub fn take(&mut self, index: usize) -> (had: bool)
        ensures
            had == (index < old(self)@.len() && (old(self)@[index as int] matches Some(t)
                && t.pending)),
            final(self)@ == (if had {
                old(self)@.update(
                    index as int,
                    Some(Ticket { pending: false, ..old(self)@[index as int]->0 }),
                )
            } else {
                old(self)@
            }),
    {
        if index < self.slots.len() {
            if let Some(t) = self.slots[index] {
                if t.pending {
                    self.slots[index] = Some(Ticket { pending: false, ..t });
                    return true;
                }
            }
        }
        false
    }

    /// Withdraw a ticket. The installed handler stays; it no longer claims the signal.
    pub fn unsubscribe(&mut self, index: usize)
        requires
            index < old(self)@.len(),
        ensures
            final(self)@ == old(self)@.update(index as int, None),
    {
        self.slots[index] = None;
    }
}

/// Any number of dispatches before a take are one delivery.
pub proof fn law_dispatches_coalesce(slots: Seq<Option<Ticket>>, signal: Signal)
    ensures
        dispatched(dispatched(slots, signal), signal) == dispatched(slots, signal),
{
    assert(dispatched(dispatched(slots, signal), signal) =~= dispatched(slots, signal));
}

/// A dispatched signal is pending for every subscription to it, and for no other; none comes or
/// goes by it.
pub proof fn law_signal_reaches_its_subscriptions(slots: Seq<Option<Ticket>>, signal: Signal, k: int)
    requires
        0 <= k < slots.len(),
    ensures
        ({
            let after = dispatched(slots, signal);
            &&& after.len() == slots.len()
            &&& after[k] is Some <==> slots[k] is Some
            &&& slots[k] is Some ==> after[k]->0.signal == slots[k]->0.signal
            &&& slots[k] is Some && slots[k]->0.signal == signal ==> after[k]->0.pending
                && subscribed(slots, signal)
            &&& slots[k] is Some && slots[k]->0.signal != signal ==> after[k] == slots[k]
        }),
{
}

/// A console tells of an interrupt, a break, a close, and another window size.
pub proof fn law_console_signals(signal: Signal)
    ensures
        deliverable(signal) <==> signal is Int || signal is Break || signal is Hup || signal
            is WinCh,
{
}

} // verus!
