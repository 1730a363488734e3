//! Name lookups: addresses are collected as the resolver hands them out, a bounded number
//! in a turn, and reported together.
use crate::types::{invalid, Endpoint, Error, ErrorKind, Event, OpId, Outcome};
use vstd::prelude::*;

verus! {

/// Addresses that a turn collects of one lookup at most.
pub const ADDRESSES: usize = 64;

/// An address without a port.
#[derive(Clone, Copy, Debug, PartialEq, Eq)]
pub enum Ip {
    V4([u8; 4]),
    V6([u16; 8]),
}

/// A running lookup.
#[derive(Debug)]
pub struct Lookup {
    pub op: OpId,
    pub port: u16,
    pub addresses: Vec<Endpoint>,
    /// The resolver may have an answer.
    pub ready: bool,
}

/// The same as plain mathematics.
#[verifier::ext_equal]
pub struct LookupView {
    pub op: OpId,
    pub port: u16,
    pub addresses: Seq<Endpoint>,
    pub ready: bool,
}

impl View for Lookup {
    type V = LookupView;

    open spec fn view(&self) -> LookupView {
        LookupView { op: self.op, port: self.port, addresses: self.addresses@, ready: self.ready }
    }
}

/// An address with a port.
pub open spec fn endpoint(ip: Ip, port: u16) -> Endpoint {
    match ip {
        Ip::V4(ip) => Endpoint::V4 { ip, port },
        Ip::V6(segments) => Endpoint::V6 { segments, port, flow: 0, scope: 0 },
    }
}

/// What the resolver answered.
#[derive(Clone, Copy, Debug, PartialEq, Eq)]
pub enum Answer {
    Address(Ip),
    /// There are no more.
    End,
    /// Nothing yet.
    Blocked,
    Failed(Error),
}

/// What to do with a lookup next.
#[derive(Debug)]
pub enum Step<D> {
    /// Ask the resolver again.
    More,
    /// Leave it for this turn.
    Stop,
    /// It ended.
    Report(Event<D>),
}

/// A slot as plain mathematics.
pub open spec fn shown(slot: Option<Lookup>) -> Option<LookupView> {
    match slot {
        Some(l) => Some(l@),
        None => None,
    }
}

/// The lookups of one loop.
#[derive(Debug)]
pub struct Lookups {
    slots: Vec<Option<Lookup>>,
}

impl View for Lookups {
    type V = Seq<Option<LookupView>>;

    closed spec fn view(&self) -> Seq<Option<LookupView>> {
        self.slots@.map_values(|slot: Option<Lookup>| shown(slot))
    }
}

/// `op` is a running lookup.
pub open spec fn runs(slots: Seq<Option<LookupView>>, op: OpId) -> bool {
    &&& op.spec_index() < slots.len()
    &&& slots[op.spec_index()] is Some
    &&& slots[op.spec_index()]->0.op == op
}

/// The resolver of slot `i` may have an answer.
pub open spec fn is_ready(slots: Seq<Option<LookupView>>, i: int) -> bool {
    slots[i] is Some && slots[i]->0.ready
}

/// The slot after an answer.
pub open spec fn answered(l: LookupView, answer: Answer) -> Option<LookupView> {
    match answer {
        Answer::Address(ip) => Some(
            LookupView { addresses: l.addresses.push(endpoint(ip, l.port)), ..l },
        ),
        Answer::Blocked => Some(LookupView { ready: false, ..l }),
        _ => None,
    }
}

impl Lookups {
    /// No lookup, with room for so many operations.
    pub fn new(operations: usize) -> (lookups: Self)
        ensures
            lookups@ == Seq::new(operations as nat, |i: int| None::<LookupView>),
    {
        let mut slots: Vec<Option<Lookup>> = Vec::new();
        let mut i: usize = 0;
        while i < operations
            invariant
                i <= operations,
                slots@.len() == i,
                forall|k: int| 0 <= k < i ==> #[trigger] slots@[k] is None,
            decreases operations - i,
        {
            slots.push(None);
            i = i + 1;
        }
        let lookups = Lookups { slots };
        assert(lookups@ =~= Seq::new(operations as nat, |i: int| None::<LookupView>));
        lookups
    }

    /// Whether a lookup can start, before the resolver is asked. `busy` tells that the slot
    /// belongs to another operation.
    pub fn check(&self, op: OpId, busy: bool) -> (free: Result<(), Error>)
        ensures
            match free {
                Ok(_) => op.spec_index() < self@.len() && self@[op.spec_index()] is None && !busy,
                Err(e) => if op.spec_index() >= self@.len() {
                    e == Error::plain(ErrorKind::ResourceLimit)
                } else {
                    (self@[op.spec_index()] is Some || busy) && e == Error::plain(
                        ErrorKind::InvalidInput,
                    )
                },
            },
    {
        let i = op.index();
        if i >= self.slots.len() {
            return Err(Error::new(ErrorKind::ResourceLimit));
        }
        if self.slots[i].is_some() || busy {
            return Err(invalid());
        }
        Ok(())
    }

    /// The resolver took the name.
    pub fn start(&mut self, op: OpId, port: u16)
        requires
            op.spec_index() < old(self)@.len(),
            old(self)@[op.spec_index()] is None,
        ensures
            final(self)@ == old(self)@.update(
                op.spec_index(),
                Some(LookupView { op, port, addresses: Seq::empty(), ready: true }),
            ),
    {
        let ghost before = self@;
        let lookup = Lookup { op, port, addresses: Vec::new(), ready: true };
        let ghost view = lookup@;
        self.slots.set(op.index(), Some(lookup));
        assert(view =~= LookupView { op, port, addresses: Seq::empty(), ready: true });
        assert(self@ =~= before.update(op.spec_index(), Some(view)));
    }

    /// Drop a lookup. Tells whether it was running: its acknowledgement is owed by the engine
    /// that it shares its slots with.
    pub fn cancel(&mut self, op: OpId) -> (found: bool)
        ensures
            found == runs(old(self)@, op),
            final(self)@ == (if found {
                old(self)@.update(op.spec_index(), None)
            } else {
                old(self)@
            }),
    {
        let ghost before = self@;
        let i = op.index();
        if i >= self.slots.len() {
            return false;
        }
        let same = match &self.slots[i] {
            Some(l) => l.op == op,
            None => false,
        };
        if same {
            self.slots.set(i, None);
            assert(self@ =~= before.update(i as int, None));
        }
        same
    }

    /// The resolver of a running lookup may have an answer.
    pub fn mark(&mut self, i: usize)
        requires
            i < old(self)@.len(),
            old(self)@[i as int] is Some,
        ensures
            final(self)@ == old(self)@.update(
                i as int,
                Some(LookupView { ready: true, ..old(self)@[i as int]->0 }),
            ),
    {
        let ghost before = self@;
        let taken = self.slots[i].take();
        if let Some(l) = taken {
            let more = Lookup { ready: true, ..l };
            self.slots.set(i, Some(more));
        }
        assert(self@ =~= before.update(
            i as int,
            Some(LookupView { ready: true, ..before[i as int]->0 }),
        ));
    }

    /// The first lookup from slot `from` on whose resolver may have an answer.
    pub fn next_ready(&self, from: usize) -> (slot: Option<usize>)
        ensures
            match slot {
                Some(i) => from <= i < self@.len() && is_ready(self@, i as int) && forall|k: int|
                    from <= k < i ==> !#[trigger] is_ready(self@, k),
                None => forall|k: int| from <= k < self@.len() ==> !#[trigger] is_ready(self@, k),
            },
    {
        let mut i: usize = from;
        while i < self.slots.len()
            invariant
                from <= i,
                forall|k: int| from <= k < i && k < self@.len() ==> !#[trigger] is_ready(self@, k),
            decreases self.slots@.len() - i,
        {
            assert(self@[i as int] == shown(self.slots@[i as int]));
            if let Some(l) = &self.slots[i] {
                if l.ready {
                    return Some(i);
                }
            }
            i = i + 1;
        }
        None
    }

    /// The running lookups, in slot order: what a wait is about.
    pub fn interests(&self) -> (out: Vec<usize>)
        ensures
            forall|k: int, j: int|
                0 <= j < k < out@.len() ==> (#[trigger] out@[j]) < (#[trigger] out@[k]),
            forall|i: usize|
                #[trigger] out@.contains(i) <==> i < self@.len() && self@[i as int] is Some,
    {
        let mut out: Vec<usize> = Vec::new();
        let mut i: usize = 0;
        while i < self.slots.len()
            invariant
                i <= self.slots@.len(),
                forall|k: int| 0 <= k < out@.len() ==> (#[trigger] out@[k]) < i,
                forall|k: int, j: int|
                    0 <= j < k < out@.len() ==> (#[trigger] out@[j]) < (#[trigger] out@[k]),
                forall|k: int|
                    0 <= k < out@.len() ==> self@[(#[trigger] out@[k]) as int] is Some,
                forall|s: usize| s < i && self@[s as int] is Some ==> #[trigger] out@.contains(s),
            decreases self.slots@.len() - i,
        {
            assert(self@[i as int] == shown(self.slots@[i as int]));
            let ghost before = out@;
            if self.slots[i].is_some() {
                out.push(i);
                assert(out@[before.len() as int] == i);
                assert forall|s: usize| s < i + 1 && self@[s as int] is Some implies #[trigger] out@.contains(
                    s,
                ) by {
                    if s < i {
                        assert(before.contains(s));
                        let k = choose|k: int| 0 <= k < before.len() && before[k] == s;
                        assert(out@[k] == s);
                    }
                }
            }
            i = i + 1;
        }
        out
    }

    /// Apply an answer to the lookup in slot `i`, the `count`-th of this turn from zero.
    pub fn answer<D>(&mut self, i: usize, answer: Answer, count: usize) -> (step: Step<D>)
        requires
            i < old(self)@.len(),
            old(self)@[i as int] is Some,
        ensures
            final(self)@ == old(self)@.update(
                i as int,
                answered(old(self)@[i as int]->0, answer),
            ),
            match answer {
                Answer::Address(_) => if count < ADDRESSES - 1 {
                    step == Step::<D>::More
                } else {
                    step == Step::<D>::Stop
                },
                Answer::Blocked => step == Step::<D>::Stop,
                Answer::Failed(e) => step == Step::<D>::Report(
                    Event { op: old(self)@[i as int]->0.op, terminal: true, result: Err(e) },
                ),
                Answer::End => match step {
                    Step::Report(event) => event.op == old(self)@[i as int]->0.op
                        && event.terminal && match event.result {
                        Ok(Outcome::Resolved(found)) => found@
                            == old(self)@[i as int]->0.addresses && found@.len() > 0,
                        Err(e) => old(self)@[i as int]->0.addresses.len() == 0 && e
                            == Error::plain(ErrorKind::NotFound),
                        _ => false,
                    },
                    _ => false,
                },
            },
    {
        let ghost before = self@;
        let taken = self.slots[i].take();
        let Some(l) = taken else {
            assert(false);
            return Step::Stop;
        };
        assert(before[i as int] == Some(l@));
        match answer {
            Answer::Address(ip) => {
                let mut addresses = l.addresses;
                let ghost held = addresses@;
                addresses.push(
                    match ip {
                        Ip::V4(ip) => Endpoint::V4 { ip, port: l.port },
                        Ip::V6(segments) => Endpoint::V6 {
                            segments,
                            port: l.port,
                            flow: 0,
                            scope: 0,
                        },
                    },
                );
                let more = Lookup { op: l.op, port: l.port, addresses, ready: l.ready };
                let ghost view = more@;
                self.slots.set(i, Some(more));
                assert(view =~= answered(before[i as int]->0, answer)->0);
                assert(self@ =~= before.update(i as int, Some(view)));
                if count < ADDRESSES - 1 {
                    Step::More
                } else {
                    Step::Stop
                }
            },
            Answer::Blocked => {
                let more = Lookup { ready: false, ..l };
                let ghost view = more@;
                self.slots.set(i, Some(more));
                assert(self@ =~= before.update(i as int, Some(view)));
                Step::Stop
            },
            Answer::Failed(e) => {
                assert(self@ =~= before.update(i as int, None));
                Step::Report(Event { op: l.op, terminal: true, result: Err(e) })
            },
            Answer::End => {
                assert(self@ =~= before.update(i as int, None));
                let result = if l.addresses.len() == 0 {
                    Err(Error::new(ErrorKind::NotFound))
                } else {
                    Ok(Outcome::Resolved(l.addresses))
                };
                Step::Report(Event { op: l.op, terminal: true, result })
            },
        }
    }
}

/// Addresses are kept in the order of the resolver, each with the port that was asked for.
pub proof fn law_addresses_keep_their_order(l: LookupView, a: Ip, b: Ip)
    ensures
        answered(answered(l, Answer::Address(a))->0, Answer::Address(b))->0.addresses
            == l.addresses + seq![endpoint(a, l.port), endpoint(b, l.port)],
{
    assert(l.addresses.push(endpoint(a, l.port)).push(endpoint(b, l.port)) =~= l.addresses + seq![
        endpoint(a, l.port),
        endpoint(b, l.port),
    ]);
}

/// The slot after the first `n` answers.
pub open spec fn after(l: LookupView, answers: Seq<Answer>, n: int) -> Option<LookupView>
    decreases n,
{
    if n <= 0 {
        Some(l)
    } else {
        match after(l, answers, n - 1) {
            Some(now) => answered(now, answers[n - 1]),
            None => None,
        }
    }
}

/// A lookup goes on until the resolver has no more or fails. Until then it holds, in their order
/// and each with the port that was asked for, the addresses that it was answered, and nothing else
/// of it changes but whether the resolver is to be asked.
pub proof fn law_lookup_collects_its_addresses(l: LookupView, answers: Seq<Answer>, n: int)
    requires
        0 <= n <= answers.len(),
        l.addresses.len() == 0,
    ensures
        after(l, answers, n) is Some <==> forall|k: int|
            0 <= k < n ==> (#[trigger] answers[k]) is Address || answers[k] is Blocked,
        after(l, answers, n) is Some ==> {
            let now = after(l, answers, n)->0;
            &&& now.op == l.op
            &&& now.port == l.port
            &&& n > 0 && answers[n - 1] is Blocked ==> !now.ready
            &&& n > 0 && answers[n - 1] is Address ==> now.addresses.len() > 0 && match (
                answers[n - 1]->Address_0,
                now.addresses.last(),
            ) {
                (Ip::V4(a), Endpoint::V4 { ip, port }) => ip == a && port == l.port,
                (Ip::V6(a), Endpoint::V6 { segments, port, flow, scope }) => segments == a && port
                    == l.port && flow == 0 && scope == 0,
                _ => false,
            }
            &&& n > 0 && answers[n - 1] is Address ==> now.addresses.drop_last() == after(
                l,
                answers,
                n - 1,
            )->0.addresses && now.ready == after(l, answers, n - 1)->0.ready
            &&& n > 0 && answers[n - 1] is Blocked ==> now.addresses == after(
                l,
                answers,
                n - 1,
            )->0.addresses
        },
    decreases n,
{
    if n > 0 {
        law_lookup_collects_its_addresses(l, answers, n - 1);
        if after(l, answers, n) is Some && answers[n - 1] is Address {
            let now = after(l, answers, n)->0;
            assert(now.addresses.drop_last() =~= after(l, answers, n - 1)->0.addresses);
        }
        if after(l, answers, n) is None && after(l, answers, n - 1) is Some {
            assert(!(answers[n - 1] is Address || answers[n - 1] is Blocked));
        }
    }
}

} // verus!
