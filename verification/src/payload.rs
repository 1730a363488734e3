//! Payload lengths: vectored writes in parts, and what a call led to.
use crate::types::{Error, Operation, Outcome};
use vstd::prelude::*;

verus! {

/// A part of a vectored write: segment `index` without its first `skip` bytes.
#[derive(Clone, Copy, Debug, PartialEq, Eq, Structural)]
pub struct Segment {
    pub index: usize,
    pub skip: usize,
    pub len: usize,
}

/// Nothing to report yet, an outcome with its finality, or a failure.
pub type Attempt<D> = Result<Option<(Outcome<D>, bool)>, Error>;

/// The sum of segment lengths.
pub open spec fn total(lens: Seq<usize>) -> int
    decreases lens.len(),
{
    if lens.len() == 0 {
        0
    } else {
        total(lens.drop_last()) + lens.last()
    }
}

/// The parts of segments `from..` that remain after skipping `skip` bytes of them.
pub open spec fn remaining(lens: Seq<usize>, from: int, skip: int) -> Seq<Segment>
    decreases lens.len() - from,
{
    if from < 0 || from >= lens.len() {
        Seq::empty()
    } else if skip >= lens[from] {
        remaining(lens, from + 1, skip - lens[from])
    } else {
        seq![
            Segment { index: from as usize, skip: skip as usize, len: (lens[from] - skip) as usize },
        ] + remaining(lens, from + 1, 0)
    }
}

/// Bytes in a list of parts.
pub open spec fn covered(parts: Seq<Segment>) -> int
    decreases parts.len(),
{
    if parts.len() == 0 {
        0
    } else {
        parts[0].len + covered(parts.drop_first())
    }
}

proof fn lemma_total_prefix(lens: Seq<usize>, n: int)
    requires
        0 <= n < lens.len(),
    ensures
        total(lens.take(n + 1)) == total(lens.take(n)) + lens[n],
{
    assert(lens.take(n + 1).drop_last() == lens.take(n));
}

/// A shorter prefix holds no more bytes.
proof fn lemma_total_monotone(lens: Seq<usize>, n: int)
    requires
        0 <= n <= lens.len(),
    ensures
        0 <= total(lens.take(n)) <= total(lens),
    decreases lens.len() - n, lens.len(),
{
    lemma_total_nonnegative(lens.take(n));
    if n < lens.len() {
        lemma_total_prefix(lens, n);
        lemma_total_monotone(lens, n + 1);
    } else {
        assert(lens.take(n) == lens);
    }
}

proof fn lemma_total_nonnegative(lens: Seq<usize>)
    ensures
        total(lens) >= 0,
    decreases lens.len(),
{
    if lens.len() > 0 {
        lemma_total_nonnegative(lens.drop_last());
    }
}

/// The parts left of a vectored write hold exactly the bytes not yet written.
pub proof fn law_remaining_is_exact(lens: Seq<usize>, from: int, skip: int)
    requires
        0 <= from <= lens.len(),
        0 <= skip <= total(lens) - total(lens.take(from)),
    ensures
        covered(remaining(lens, from, skip)) == total(lens) - total(lens.take(from)) - skip,
    decreases lens.len() - from,
{
    if from == lens.len() {
        assert(lens.take(from) == lens);
    } else {
        lemma_total_prefix(lens, from);
        lemma_total_monotone(lens, from + 1);
        if skip >= lens[from] {
            law_remaining_is_exact(lens, from + 1, skip - lens[from]);
        } else {
            law_remaining_is_exact(lens, from + 1, 0);
            let parts = remaining(lens, from, skip);
            assert(parts.drop_first() == remaining(lens, from + 1, 0));
        }
    }
}

/// The parts of a vectored write that remain after `offset` bytes.
pub fn segments(lens: &Vec<usize>, offset: usize) -> (parts: Vec<Segment>)
    ensures
        parts@ == remaining(lens@, 0, offset as int),
{
    let mut parts: Vec<Segment> = Vec::new();
    let mut skip: usize = offset;
    let mut i: usize = 0;
    while i < lens.len()
        invariant
            i <= lens@.len(),
            parts@ + remaining(lens@, i as int, skip as int) == remaining(lens@, 0, offset as int),
        decreases lens@.len() - i,
    {
        let ghost parts_before = parts@;
        let len: usize = lens[i];
        if skip >= len {
            skip = skip - len;
        } else {
            let part = Segment { index: i, skip, len: len - skip };
            parts.push(part);
            assert(parts_before + (seq![part] + remaining(lens@, i + 1, 0)) == parts@ + remaining(
                lens@,
                i + 1,
                0,
            ));
            skip = 0;
        }
        i = i + 1;
    }
    assert(parts@ + Seq::<Segment>::empty() == parts@);
    parts
}

/// Add up segment lengths.
pub fn length(lens: &Vec<usize>) -> (n: usize)
    requires
        total(lens@) <= usize::MAX,
    ensures
        n == total(lens@),
{
    let mut n: usize = 0;
    let mut i: usize = 0;
    while i < lens.len()
        invariant
            i <= lens@.len(),
            n == total(lens@.take(i as int)),
            total(lens@) <= usize::MAX,
        decreases lens@.len() - i,
    {
        proof {
            lemma_total_prefix(lens@, i as int);
            lemma_total_monotone(lens@, i + 1);
        }
        n = n + lens[i];
        i = i + 1;
    }
    assert(lens@.take(i as int) == lens@);
    n
}

/// Payload bytes of a writing operation.
pub open spec fn payload(op: Operation) -> int {
    match op {
        Operation::Write(len) => len as int,
        Operation::Writev(lens) => total(lens@),
        Operation::SendTo { len, .. } => len as int,
        _ => 0,
    }
}

/// A payload has no negative length.
pub proof fn lemma_payload_nonnegative(op: Operation)
    ensures
        payload(op) >= 0,
{
    if let Operation::Writev(lens) = op {
        lemma_total_nonnegative(lens@);
    }
}

} // verus!
