//! Counting completions.
use crate::types::{Event, OpId};
use vstd::prelude::*;

verus! {

/// How many of these completions are of `op`; `last` counts only terminal ones.
pub open spec fn count<D>(events: Seq<Event<D>>, op: OpId, last: bool) -> nat
    decreases events.len(),
{
    if events.len() == 0 {
        0
    } else {
        let e = events.last();
        count(events.drop_last(), op, last) + if e.op == op && (e.terminal || !last) {
            1nat
        } else {
            0
        }
    }
}

/// One completion counts once, and none not at all.
pub proof fn lemma_count_one<D>(e: Event<D>, op: OpId, last: bool)
    ensures
        count(seq![e], op, last) == if e.op == op && (e.terminal || !last) {
            1nat
        } else {
            0
        },
        count(Seq::<Event<D>>::empty(), op, last) == 0,
{
    assert(seq![e].drop_last() =~= Seq::<Event<D>>::empty());
    assert(seq![e].last() == e);
    assert(count(seq![e].drop_last(), op, last) == 0);
}

/// Counts of lists add up.
pub proof fn lemma_count_sum<D>(a: Seq<Event<D>>, b: Seq<Event<D>>, op: OpId, last: bool)
    ensures
        count(a + b, op, last) == count(a, op, last) + count(b, op, last),
    decreases b.len(),
{
    if b.len() == 0 {
        assert(a + b =~= a);
    } else {
        lemma_count_sum(a, b.drop_last(), op, last);
        assert((a + b).drop_last() =~= a + b.drop_last());
        assert((a + b).last() == b.last());
    }
}

/// Terminal completions are completions.
pub proof fn lemma_terminal_is_counted<D>(events: Seq<Event<D>>, op: OpId)
    ensures
        count(events, op, true) <= count(events, op, false),
    decreases events.len(),
{
    if events.len() > 0 {
        lemma_terminal_is_counted(events.drop_last(), op);
    }
}

/// How often a name is owed an acknowledgement.
pub open spec fn owing(cancelled: Seq<OpId>, op: OpId) -> nat
    decreases cancelled.len(),
{
    if cancelled.len() == 0 {
        0
    } else {
        owing(cancelled.drop_last(), op) + if cancelled.last() == op {
            1nat
        } else {
            0
        }
    }
}

/// The first of a list counts as the others do.
pub proof fn lemma_owing_first(cancelled: Seq<OpId>, op: OpId)
    requires
        cancelled.len() > 0,
    ensures
        owing(cancelled, op) == owing(cancelled.drop_first(), op) + if cancelled[0] == op {
            1nat
        } else {
            0
        },
    decreases cancelled.len(),
{
    if cancelled.len() == 1 {
        assert(cancelled.drop_first() =~= Seq::<OpId>::empty());
        assert(cancelled.drop_last() =~= Seq::<OpId>::empty());
        assert(owing(cancelled.drop_last(), op) == 0);
    } else {
        lemma_owing_first(cancelled.drop_last(), op);
        assert(cancelled.drop_first().drop_last() =~= cancelled.drop_last().drop_first());
        assert(cancelled.drop_first().last() == cancelled.last());
    }
}

} // verus!
