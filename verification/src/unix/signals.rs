//! The process-wide signal registry: one handler for each number with subscribers.
use crate::types::{invalid, unsupported, Error, ErrorKind, Signal};
use vstd::prelude::*;

verus! {

/// The native numbers of portable signals.
#[derive(Clone, Copy, Debug, PartialEq, Eq, Structural)]
pub struct Numbers {
    pub int: i32,
    pub term: i32,
    pub kill: i32,
    pub hup: i32,
    pub chld: i32,
    pub winch: i32,
    pub usr1: i32,
    pub usr2: i32,
}

/// The native number of a signal. Unix has no console break.
pub open spec fn native(signal: Signal, numbers: Numbers) -> Result<i32, Error> {
    match signal {
        Signal::Int => Ok(numbers.int),
        Signal::Term => Ok(numbers.term),
        Signal::Kill => Ok(numbers.kill),
        Signal::Hup => Ok(numbers.hup),
        Signal::Chld => Ok(numbers.chld),
        Signal::WinCh => Ok(numbers.winch),
        Signal::Usr1 => Ok(numbers.usr1),
        Signal::Usr2 => Ok(numbers.usr2),
        Signal::Break => Err(Error::plain(ErrorKind::Unsupported)),
    }
}

/// The native number of a signal.
pub fn number(signal: Signal, numbers: &Numbers) -> (n: Result<i32, Error>)
    ensures
        n == native(signal, *numbers),
{
    match signal {
        Signal::Int => Ok(numbers.int),
        Signal::Term => Ok(numbers.term),
        Signal::Kill => Ok(numbers.kill),
        Signal::Hup => Ok(numbers.hup),
        Signal::Chld => Ok(numbers.chld),
        Signal::WinCh => Ok(numbers.winch),
        Signal::Usr1 => Ok(numbers.usr1),
        Signal::Usr2 => Ok(numbers.usr2),
        Signal::Break => Err(unsupported()),
    }
}

/// The number to subscribe to. A kill cannot be caught.
pub fn catchable(signal: Signal, numbers: &Numbers) -> (n: Result<i32, Error>)
    ensures
        n == (if signal == Signal::Kill {
            Err(Error::plain(ErrorKind::InvalidInput))
        } else {
            native(signal, *numbers)
        }),
{
    let n = number(signal, numbers)?;
    if signal == Signal::Kill {
        return Err(invalid());
    }
    Ok(n)
}

/// A delivery flag shared with the dispatcher: any number of signals before it is
/// taken are one delivery.
#[derive(Clone, Copy, Debug, PartialEq, Eq, Structural)]
pub struct Ticket {
    pub pending: bool,
}

impl Ticket {
    /// Whether a signal arrived since the last take.
    pub fn ready(&self) -> (ready: bool)
        ensures
            ready == self.pending,
    {
        self.pending
    }

    /// A signal arrived.
    pub fn publish(&mut self)
        ensures
            final(self).pending,
    {
        self.pending = true;
    }

    /// Take the delivery, if there is one.
    pub fn take(&mut self) -> (had: bool)
        ensures
            had == old(self).pending,
            !final(self).pending,
    {
        let had = self.pending;
        self.pending = false;
        had
    }
}

/// A caught number: the disposition to restore and the tickets to publish to.
#[derive(Debug)]
pub struct Record {
    pub number: i32,
    pub original: u64,
    pub subscribers: Vec<u64>,
}

/// All caught numbers.
#[derive(Debug)]
pub struct Registry {
    records: Vec<Record>,
}

/// Some record is about `number`.
spec fn recorded(records: Seq<Record>, number: i32, k: int) -> bool {
    0 <= k < records.len() && records[k].number == number
}

/// Caught numbers with the disposition they replaced and their tickets in order.
spec fn table(records: Seq<Record>) -> Map<i32, (u64, Seq<u64>)> {
    Map::new(
        |number: i32| exists|k: int| recorded(records, number, k),
        |number: i32|
            {
                let k = choose|k: int| recorded(records, number, k);
                (records[k].original, records[k].subscribers@)
            },
    )
}

/// No number has two records.
spec fn apart(records: Seq<Record>) -> bool {
    forall|j: int, k: int|
        0 <= j < records.len() && 0 <= k < records.len() && j != k ==> (
        #[trigger] records[j]).number != (#[trigger] records[k]).number
}

proof fn lemma_table(records: Seq<Record>, k: int)
    requires
        apart(records),
        0 <= k < records.len(),
    ensures
        table(records).contains_key(records[k].number),
        table(records)[records[k].number] == (records[k].original, records[k].subscribers@),
{
    let number = records[k].number;
    assert(recorded(records, number, k));
    let c = choose|c: int| recorded(records, number, c);
    if c != k {
        assert(records[c].number != records[k].number);
    }
}

impl View for Registry {
    type V = Map<i32, (u64, Seq<u64>)>;

    closed spec fn view(&self) -> Map<i32, (u64, Seq<u64>)> {
        table(self.records@)
    }
}

impl Registry {
    /// A number has one record, and a record has a subscriber, each ticket once.
    pub closed spec fn wf(&self) -> bool {
        &&& apart(self.records@)
        &&& forall|k: int|
            0 <= k < self.records@.len() ==> (#[trigger] self.records@[k]).subscribers@.len() > 0
                && self.records@[k].subscribers@.no_duplicates()
    }

    /// A handler is installed only while somebody subscribes.
    pub proof fn law_caught_has_subscribers(&self, number: i32)
        requires
            self.wf(),
            self@.contains_key(number),
        ensures
            self@[number].1.len() > 0,
            self@[number].1.no_duplicates(),
    {
        let k = choose|k: int| recorded(self.records@, number, k);
        assert(self.records@[k].subscribers@.len() > 0);
    }

    /// Nothing caught.
    pub fn new() -> (registry: Self)
        ensures
            registry.wf(),
            registry@ == Map::<i32, (u64, Seq<u64>)>::empty(),
    {
        let registry = Registry { records: Vec::new() };
        assert(registry@ =~= Map::<i32, (u64, Seq<u64>)>::empty());
        registry
    }

    fn position(&self, number: i32) -> (at: Option<usize>)
        ensures
            match at {
                Some(k) => recorded(self.records@, number, k as int),
                None => !self@.contains_key(number),
            },
    {
        let mut i: usize = 0;
        while i < self.records.len()
            invariant
                i <= self.records@.len(),
                forall|k: int| 0 <= k < i ==> (#[trigger] self.records@[k]).number != number,
            decreases self.records@.len() - i,
        {
            if self.records[i].number == number {
                return Some(i);
            }
            i = i + 1;
        }
        assert(forall|k: int| !recorded(self.records@, number, k));
        None
    }

    /// Add a ticket to a number that is already caught; false if its handler has to be
    /// installed first.
    pub fn join(&mut self, number: i32, ticket: u64) -> (joined: bool)
        requires
            old(self).wf(),
            old(self)@.contains_key(number) ==> !old(self)@[number].1.contains(ticket),
        ensures
            final(self).wf(),
            joined == old(self)@.contains_key(number),
            final(self)@ == (if joined {
                old(self)@.insert(
                    number,
                    (old(self)@[number].0, old(self)@[number].1.push(ticket)),
                )
            } else {
                old(self)@
            }),
    {
        match self.position(number) {
            None => false,
            Some(k) => {
                let ghost before = self.records@;
                proof {
                    lemma_table(before, k as int);
                    crate::queues::lemma_push(before[k as int].subscribers@, ticket);
                }
                self.records[k].subscribers.push(ticket);
                proof {
                    let after = self.records@;
                    assert forall|i: int| 0 <= i < after.len() && i != k implies after[i]
                        == before[i] by {}
                    assert(apart(after)) by {
                        assert forall|i: int, j: int|
                            0 <= i < after.len() && 0 <= j < after.len() && i != j implies (
                        #[trigger] after[i]).number != (#[trigger] after[j]).number by {
                            assert(before[i].number != before[j].number);
                        }
                    }
                    assert forall|i: int| 0 <= i < after.len() implies (
                    #[trigger] after[i]).subscribers@.len() > 0
                        && after[i].subscribers@.no_duplicates() by {
                        assert(before[i].subscribers@.len() > 0);
                    }
                    lemma_same_numbers(before, after);
                    assert forall|n: i32| #[trigger] table(after).contains_key(n) implies table(
                        after,
                    )[n] == table(before).insert(
                        number,
                        (table(before)[number].0, table(before)[number].1.push(ticket)),
                    )[n] by {
                        let i = choose|i: int| recorded(after, n, i);
                        lemma_table(after, i);
                        lemma_table(before, i);
                    }
                    assert(self@ =~= old(self)@.insert(
                        number,
                        (old(self)@[number].0, old(self)@[number].1.push(ticket)),
                    ));
                }
                true
            },
        }
    }

    /// Record a handler that was just installed over `original`, with its first ticket.
    pub fn install(&mut self, number: i32, original: u64, ticket: u64)
        requires
            old(self).wf(),
            !old(self)@.contains_key(number),
        ensures
            final(self).wf(),
            final(self)@ == old(self)@.insert(number, (original, seq![ticket])),
    {
        let ghost before = self.records@;
        let mut subscribers: Vec<u64> = Vec::new();
        subscribers.push(ticket);
        assert(subscribers@ =~= seq![ticket]);
        self.records.push(Record { number, original, subscribers });
        proof {
            let after = self.records@;
            assert forall|i: int, j: int|
                0 <= i < after.len() && 0 <= j < after.len() && i != j implies (
            #[trigger] after[i]).number != (#[trigger] after[j]).number by {
                if i < before.len() && j < before.len() {
                    assert(before[i].number != before[j].number);
                } else if i < before.len() {
                    assert(!recorded(before, number, i));
                } else if j < before.len() {
                    assert(!recorded(before, number, j));
                }
            }
            assert forall|i: int| 0 <= i < after.len() implies (
            #[trigger] after[i]).subscribers@.len() > 0
                && after[i].subscribers@.no_duplicates() by {
                if i < before.len() {
                    assert(before[i].subscribers@.len() > 0);
                }
            }
            assert forall|n: i32| #[trigger] table(after).contains_key(n) <==> table(
                before,
            ).contains_key(n) || n == number by {
                if table(before).contains_key(n) {
                    let i = choose|i: int| recorded(before, n, i);
                    assert(recorded(after, n, i));
                }
                if n == number {
                    assert(recorded(after, n, before.len() as int));
                }
                if table(after).contains_key(n) && n != number {
                    let i = choose|i: int| recorded(after, n, i);
                    assert(recorded(before, n, i));
                }
            }
            assert forall|n: i32| #[trigger] table(after).contains_key(n) implies table(after)[n]
                == table(before).insert(number, (original, seq![ticket]))[n] by {
                let i = choose|i: int| recorded(after, n, i);
                lemma_table(after, i);
                if i < before.len() {
                    lemma_table(before, i);
                }
            }
            assert(self@ =~= old(self)@.insert(number, (original, seq![ticket])));
        }
    }

    /// The tickets to publish to when `number` arrives.
    pub fn dispatch(&self, number: i32) -> (tickets: Vec<u64>)
        requires
            self.wf(),
        ensures
            tickets@ == (if self@.contains_key(number) {
                self@[number].1
            } else {
                Seq::empty()
            }),
    {
        let mut tickets: Vec<u64> = Vec::new();
        if let Some(k) = self.position(number) {
            proof {
                lemma_table(self.records@, k as int);
            }
            let from = &self.records[k].subscribers;
            let mut i: usize = 0;
            while i < from.len()
                invariant
                    i <= from@.len(),
                    tickets@ == from@.take(i as int),
                decreases from@.len() - i,
            {
                tickets.push(from[i]);
                assert(tickets@ =~= from@.take(i as int + 1));
                i = i + 1;
            }
            assert(from@.take(i as int) =~= from@);
        }
        tickets
    }

    /// Remove a ticket. The last one of a number takes the record with it; its original
    /// disposition has to be restored.
    pub fn leave(&mut self, number: i32, ticket: u64) -> (restore: Option<u64>)
        requires
            old(self).wf(),
        ensures
            final(self).wf(),
            if !old(self)@.contains_key(number) {
                restore is None && final(self)@ == old(self)@
            } else {
                let (original, tickets) = old(self)@[number];
                let rest = tickets.remove_value(ticket);
                if rest.len() == 0 {
                    restore == Some(original) && final(self)@ == old(self)@.remove(number)
                } else {
                    restore is None && final(self)@ == old(self)@.insert(number, (original, rest))
                }
            },
    {
        let k: usize = match self.position(number) {
            None => {
                return None;
            },
            Some(k) => k,
        };
        let ghost before = self.records@;
        let ghost tickets = before[k as int].subscribers@;
        proof {
            lemma_table(before, k as int);
            crate::queues::lemma_remove_value(tickets, ticket);
        }
        let mut rest: Vec<u64> = Vec::new();
        core::mem::swap(&mut rest, &mut self.records[k].subscribers);
        remove_ticket(&mut rest, ticket);
        if rest.len() == 0 {
            let record = self.records.swap_remove(k);
            proof {
                let after = self.records@;
                lemma_swap_removed(before, after, k as int);
            }
            Some(record.original)
        } else {
            self.records[k].subscribers = rest;
            proof {
                let after = self.records@;
                assert forall|i: int| 0 <= i < after.len() && i != k implies after[i]
                    == before[i] by {}
                assert forall|i: int, j: int|
                    0 <= i < after.len() && 0 <= j < after.len() && i != j implies (
                #[trigger] after[i]).number != (#[trigger] after[j]).number by {
                    assert(before[i].number != before[j].number);
                }
                assert forall|i: int| 0 <= i < after.len() implies (
                #[trigger] after[i]).subscribers@.len() > 0
                    && after[i].subscribers@.no_duplicates() by {
                    assert(before[i].subscribers@.len() > 0);
                }
                lemma_same_numbers(before, after);
                assert forall|n: i32| #[trigger] table(after).contains_key(n) implies table(
                    after,
                )[n] == table(before).insert(
                    number,
                    (table(before)[number].0, tickets.remove_value(ticket)),
                )[n] by {
                    let i = choose|i: int| recorded(after, n, i);
                    lemma_table(after, i);
                    lemma_table(before, i);
                }
                assert(self@ =~= old(self)@.insert(
                    number,
                    (old(self)@[number].0, tickets.remove_value(ticket)),
                ));
            }
            None
        }
    }
}

/// Subscribing and leaving again restores the disposition that was there before, and
/// forgets the number.
pub proof fn law_subscription_is_undone(
    registry: Map<i32, (u64, Seq<u64>)>,
    number: i32,
    original: u64,
    ticket: u64,
)
    requires
        !registry.contains_key(number),
    ensures
        registry.insert(number, (original, seq![ticket])).remove(number) == registry,
        seq![ticket].remove_value(ticket).len() == 0,
{
    assert(registry.insert(number, (original, seq![ticket])).remove(number) =~= registry);
    crate::queues::lemma_remove_value(seq![ticket], ticket);
    assert(seq![ticket].contains(seq![ticket][0]));
}

proof fn lemma_same_numbers(before: Seq<Record>, after: Seq<Record>)
    requires
        before.len() == after.len(),
        forall|i: int| 0 <= i < after.len() ==> (#[trigger] after[i]).number == before[i].number,
    ensures
        forall|n: i32| #[trigger] table(after).contains_key(n) <==> table(before).contains_key(n),
{
    assert forall|n: i32| #[trigger] table(after).contains_key(n) <==> table(before).contains_key(
        n,
    ) by {
        if table(after).contains_key(n) {
            let i = choose|i: int| recorded(after, n, i);
            assert(after[i].number == before[i].number);
            assert(recorded(before, n, i));
        }
        if table(before).contains_key(n) {
            let i = choose|i: int| recorded(before, n, i);
            assert(after[i].number == before[i].number);
            assert(recorded(after, n, i));
        }
    }
}

/// Removing a record by moving the last one into its place removes exactly its number.
proof fn lemma_swap_removed(before: Seq<Record>, after: Seq<Record>, k: int)
    requires
        apart(before),
        0 <= k < before.len(),
        after.len() == before.len() - 1,
        forall|i: int| 0 <= i < after.len() && i != k ==> (#[trigger] after[i]) == before[i],
        k < after.len() ==> after[k] == before[before.len() - 1],
        forall|i: int|
            0 <= i < before.len() ==> (#[trigger] before[i]).subscribers@.len() > 0
                && before[i].subscribers@.no_duplicates(),
    ensures
        apart(after),
        table(after) == table(before).remove(before[k].number),
        forall|i: int|
            0 <= i < after.len() ==> (#[trigger] after[i]).subscribers@.len() > 0
                && after[i].subscribers@.no_duplicates(),
{
    let number = before[k].number;
    let from = |i: int| if i == k { before.len() - 1 } else { i };
    assert forall|i: int| 0 <= i < after.len() implies #[trigger] after[i] == before[from(i)] by {}
    assert forall|i: int, j: int|
        0 <= i < after.len() && 0 <= j < after.len() && i != j implies (
    #[trigger] after[i]).number != (#[trigger] after[j]).number by {
        assert(before[from(i)].number != before[from(j)].number);
    }
    assert forall|n: i32| #[trigger] table(after).contains_key(n) <==> table(before).contains_key(n)
        && n != number by {
        if table(after).contains_key(n) {
            let i = choose|i: int| recorded(after, n, i);
            assert(after[i] == before[from(i)]);
            assert(recorded(before, n, from(i)));
            assert(before[from(i)].number != before[k].number);
        }
        if table(before).contains_key(n) && n != number {
            let i = choose|i: int| recorded(before, n, i);
            let to = if i == before.len() - 1 { k } else { i };
            assert(after[to] == before[i]);
            assert(recorded(after, n, to));
        }
    }
    assert forall|n: i32| #[trigger] table(after).contains_key(n) implies table(after)[n] == table(
        before,
    )[n] by {
        let i = choose|i: int| recorded(after, n, i);
        assert(after[i] == before[from(i)]);
        lemma_table(after, i);
        lemma_table(before, from(i));
    }
    assert(table(after) =~= table(before).remove(number));
}

fn remove_ticket(list: &mut Vec<u64>, ticket: u64)
    requires
        old(list)@.no_duplicates(),
    ensures
        final(list)@ == old(list)@.remove_value(ticket),
{
    let ghost before = list@;
    proof {
        before.index_of_first_ensures(ticket);
    }
    let mut i: usize = 0;
    while i < list.len()
        invariant
            list@ == before,
            before == old(list)@,
            i <= before.len(),
            before.no_duplicates(),
            forall|k: int| 0 <= k < i ==> before[k] != ticket,
        decreases before.len() - i,
    {
        if list[i] == ticket {
            proof {
                before.index_of_first_ensures(ticket);
                assert(before.contains(before[i as int]));
            }
            list.remove(i);
            return ;
        }
        i = i + 1;
    }
    assert(!before.contains(ticket));
}

/// A signal is asked for by its own number; the one that this system lacks is refused.
pub proof fn law_signals_have_their_numbers(signal: Signal, numbers: Numbers)
    ensures
        native(signal, numbers) is Err <==> signal is Break,
        signal is Break ==> native(signal, numbers)->Err_0 == Error::plain(ErrorKind::Unsupported),
        native(signal, numbers) is Ok ==> {
            let n = native(signal, numbers)->Ok_0;
            &&& signal is Int ==> n == numbers.int
            &&& signal is Term ==> n == numbers.term
            &&& signal is Kill ==> n == numbers.kill
            &&& signal is Hup ==> n == numbers.hup
            &&& signal is Chld ==> n == numbers.chld
            &&& signal is WinCh ==> n == numbers.winch
            &&& signal is Usr1 ==> n == numbers.usr1
            &&& signal is Usr2 ==> n == numbers.usr2
        },
{
}

} // verus!
