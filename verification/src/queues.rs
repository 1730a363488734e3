//! Facts and helpers about duplicate-free queues.
use crate::types::{Handle, OpId};
use std::collections::VecDeque;
use vstd::prelude::*;

verus! {

/// Removing a value from a duplicate-free queue keeps exactly the others, in order.
pub proof fn lemma_remove_value<A>(list: Seq<A>, value: A)
    requires
        list.no_duplicates(),
    ensures
        list.remove_value(value).no_duplicates(),
        forall|x: A|
            #[trigger] list.remove_value(value).contains(x) <==> list.contains(x) && x != value,
        !list.contains(value) ==> list.remove_value(value) == list,
        list.contains(value) ==> list.remove_value(value).len() == list.len() - 1,
        list.len() > 0 && list[0] == value ==> list.remove_value(value) == list.drop_first(),
{
    list.index_of_first_ensures(value);
    let rest = list.remove_value(value);
    if list.contains(value) {
        let pos = list.index_of_first(value)->0;
        assert(rest == list.remove(pos));
        assert forall|x: A| #[trigger] rest.contains(x) <==> list.contains(x) && x != value by {
            if rest.contains(x) {
                let k = choose|k: int| 0 <= k < rest.len() && rest[k] == x;
                let from = if k < pos { k } else { k + 1 };
                assert(list[from] == x);
                assert(list.contains(x));
            }
            if list.contains(x) && x != value {
                let k = choose|k: int| 0 <= k < list.len() && list[k] == x;
                let to = if k < pos { k } else { k - 1 };
                assert(rest[to] == x);
            }
        }
        assert forall|j: int, k: int| 0 <= j < rest.len() && 0 <= k < rest.len() && j
            != k implies rest[j] != rest[k] by {
            let from_j = if j < pos { j } else { j + 1 };
            let from_k = if k < pos { k } else { k + 1 };
            assert(list[from_j] != list[from_k]);
        }
        if list[0] == value {
            assert(pos == 0);
            assert(rest == list.drop_first());
        }
    }
}

/// Appending a new value keeps a queue duplicate-free.
pub proof fn lemma_push<A>(list: Seq<A>, value: A)
    requires
        list.no_duplicates(),
        !list.contains(value),
    ensures
        list.push(value).no_duplicates(),
        forall|x: A| #[trigger] list.push(value).contains(x) <==> list.contains(x) || x == value,
{
    let more = list.push(value);
    assert forall|x: A| #[trigger] more.contains(x) <==> list.contains(x) || x == value by {
        assert(more[list.len() as int] == value);
        if list.contains(x) {
            let k = choose|k: int| 0 <= k < list.len() && list[k] == x;
            assert(more[k] == x);
        }
        if more.contains(x) && x != value {
            let k = choose|k: int| 0 <= k < more.len() && more[k] == x;
            assert(list[k] == x);
        }
    }
    assert forall|j: int, k: int| 0 <= j < more.len() && 0 <= k < more.len() && j != k implies more[j]
        != more[k] by {
        if j == list.len() {
            assert(list.contains(list[k]));
        }
        if k == list.len() {
            assert(list.contains(list[j]));
        }
    }
}

/// Taking the oldest value keeps exactly the others, in order.
pub proof fn lemma_pop<A>(list: Seq<A>)
    requires
        list.no_duplicates(),
        list.len() > 0,
    ensures
        list.drop_first().no_duplicates(),
        forall|x: A|
            #[trigger] list.drop_first().contains(x) <==> list.contains(x) && x != list[0],
{
    let rest = list.drop_first();
    assert forall|x: A| #[trigger] rest.contains(x) <==> list.contains(x) && x != list[0] by {
        if rest.contains(x) {
            let k = choose|k: int| 0 <= k < rest.len() && rest[k] == x;
            assert(list[k + 1] == x);
        }
        if list.contains(x) && x != list[0] {
            let k = choose|k: int| 0 <= k < list.len() && list[k] == x;
            assert(rest[k - 1] == x);
        }
    }
}

/// Remove a handle from a queue that holds it at most once.
pub fn remove_handle(queue: &mut VecDeque<Handle>, h: Handle)
    requires
        old(queue)@.no_duplicates(),
    ensures
        final(queue)@ == old(queue)@.remove_value(h),
{
    let ghost before = queue@;
    proof {
        before.index_of_first_ensures(h);
    }
    let mut i: usize = 0;
    while i < queue.len()
        invariant
            queue@ == before,
            before == old(queue)@,
            i <= before.len(),
            before.no_duplicates(),
            forall|k: int| 0 <= k < i ==> before[k] != h,
        decreases before.len() - i,
    {
        if queue[i] == h {
            proof {
                before.index_of_first_ensures(h);
                assert(before.contains(before[i as int]));
                let pos = before.index_of_first(h)->0;
                assert(pos == i);
            }
            queue.remove(i);
            return;
        }
        i = i + 1;
    }
    assert(!before.contains(h));
}

/// Remove an operation from a queue that holds it at most once.
pub fn remove_op(queue: &mut VecDeque<OpId>, op: OpId)
    requires
        old(queue)@.no_duplicates(),
    ensures
        final(queue)@ == old(queue)@.remove_value(op),
{
    let ghost before = queue@;
    proof {
        before.index_of_first_ensures(op);
    }
    let mut i: usize = 0;
    while i < queue.len()
        invariant
            queue@ == before,
            before == old(queue)@,
            i <= before.len(),
            before.no_duplicates(),
            forall|k: int| 0 <= k < i ==> before[k] != op,
        decreases before.len() - i,
    {
        if queue[i] == op {
            proof {
                before.index_of_first_ensures(op);
                assert(before.contains(before[i as int]));
                let pos = before.index_of_first(op)->0;
                assert(pos == i);
            }
            queue.remove(i);
            return;
        }
        i = i + 1;
    }
    assert(!before.contains(op));
}

} // verus!
