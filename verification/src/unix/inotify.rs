//! Reading file-system change records, and naming what they are about.
use crate::bytes::{from_le, get, lemma_spans};
use vstd::prelude::*;

verus! {

pub const IN_MODIFY: u32 = 0x2;

pub const IN_ATTRIB: u32 = 0x4;

pub const IN_Q_OVERFLOW: u32 = 0x4000;

pub const IN_IGNORED: u32 = 0x8000;

/// Bytes of a record before its name.
pub const HEADER: usize = 16;

/// Reads of one poll at most; what is left stays ready for the next.
pub const READS: usize = 16;

/// What happened to a watched path.
#[derive(Clone, Copy, Debug, PartialEq, Eq, Structural)]
pub enum WatchKind {
    Rename,
    Change,
}

/// One record: the watch descriptor, what happened, and the name inside a directory.
#[derive(Debug)]
pub struct Record {
    pub wd: u32,
    pub mask: u32,
    pub name: Vec<u8>,
}

/// The same as plain mathematics.
#[verifier::ext_equal]
pub struct RecordView {
    pub wd: nat,
    pub mask: nat,
    pub name: Seq<u8>,
}

impl View for Record {
    type V = RecordView;

    open spec fn view(&self) -> RecordView {
        RecordView { wd: self.wd as nat, mask: self.mask as nat, name: self.name@ }
    }
}

/// The bytes before the first zero.
pub open spec fn until_zero(bytes: Seq<u8>) -> Seq<u8>
    decreases bytes.len(),
{
    if bytes.len() == 0 || bytes[0] == 0 {
        Seq::empty()
    } else {
        seq![bytes[0]] + until_zero(bytes.drop_first())
    }
}

/// The 32-bit number at `at`, in the byte order of the machine.
pub open spec fn word(bytes: Seq<u8>, at: int, big_endian: bool) -> nat {
    let four = bytes.subrange(at, at + 4);
    from_le(
        if big_endian {
            four.reverse()
        } else {
            four
        },
    )
}

/// Where the record at `at` ends: behind its name, or with the buffer.
pub open spec fn record_end(bytes: Seq<u8>, at: int, big_endian: bool) -> int {
    let end = at + HEADER + word(bytes, at + 12, big_endian);
    if end < bytes.len() {
        end
    } else {
        bytes.len() as int
    }
}

/// The record at `at`.
pub open spec fn record_at(bytes: Seq<u8>, at: int, big_endian: bool) -> RecordView {
    RecordView {
        wd: word(bytes, at, big_endian),
        mask: word(bytes, at + 4, big_endian),
        name: until_zero(bytes.subrange(at + HEADER, record_end(bytes, at, big_endian))),
    }
}

/// The records from `at` on. A rest that is shorter than a header is none.
pub open spec fn records(bytes: Seq<u8>, at: int, big_endian: bool) -> Seq<RecordView>
    decreases bytes.len() - at,
{
    if at < 0 || at + HEADER > bytes.len() {
        Seq::empty()
    } else {
        seq![record_at(bytes, at, big_endian)] + records(
            bytes,
            record_end(bytes, at, big_endian),
            big_endian,
        )
    }
}

fn word_at(bytes: &Vec<u8>, at: usize, big_endian: bool) -> (value: u32)
    requires
        at + 4 <= bytes@.len(),
    ensures
        value == word(bytes@, at as int, big_endian),
{
    let len: usize = bytes.len();
    assert(at + 4 <= len);
    proof {
        lemma_spans();
    }
    if !big_endian {
        return get(bytes, at, 4) as u32;
    }
    let end: usize = at + 4;
    let mut four: Vec<u8> = Vec::new();
    four.push(bytes[end - 1]);
    four.push(bytes[end - 2]);
    four.push(bytes[end - 3]);
    four.push(bytes[at]);
    assert(four@.subrange(0, 4) =~= bytes@.subrange(at as int, at + 4).reverse());
    get(&four, 0, 4) as u32
}

fn name_of(bytes: &Vec<u8>, from: usize, to: usize) -> (name: Vec<u8>)
    requires
        from <= to <= bytes@.len(),
    ensures
        name@ == until_zero(bytes@.subrange(from as int, to as int)),
{
    let ghost raw = bytes@.subrange(from as int, to as int);
    let mut name: Vec<u8> = Vec::new();
    let mut i: usize = from;
    assert(raw.skip(0) =~= raw);
    assert(name@ + until_zero(raw) =~= until_zero(raw));
    while i < to && bytes[i] != 0
        invariant
            from <= i <= to <= bytes@.len(),
            raw == bytes@.subrange(from as int, to as int),
            name@ + until_zero(raw.skip(i - from)) == until_zero(raw),
        decreases to - i,
    {
        let ghost rest = raw.skip(i - from);
        let ghost held = name@;
        name.push(bytes[i]);
        proof {
            assert(rest.drop_first() =~= raw.skip(i + 1 - from));
            assert(rest[0] == bytes@[i as int]);
            assert(held + (seq![rest[0]] + until_zero(rest.drop_first())) =~= name@ + until_zero(
                raw.skip(i + 1 - from),
            ));
        }
        i = i + 1;
    }
    proof {
        let rest = raw.skip(i - from);
        assert(rest.len() == 0 || rest[0] == 0);
        assert(name@ + Seq::<u8>::empty() =~= name@);
    }
    name
}

/// Read the records of a buffer, which hold numbers in the byte order of the machine.
pub fn parse(bytes: &Vec<u8>, big_endian: bool) -> (out: Vec<Record>)
    ensures
        out@.map_values(|r: Record| r@) == records(bytes@, 0, big_endian),
{
    let ghost shown = |r: Record| r@;
    let mut out: Vec<Record> = Vec::new();
    let mut at: usize = 0;
    let total: usize = bytes.len();
    assert(out@.map_values(shown) + records(bytes@, 0, big_endian) =~= records(bytes@, 0, big_endian));
    while total >= HEADER && at <= total - HEADER
        invariant
            total == bytes@.len(),
            at <= total,
            shown == (|r: Record| r@),
            out@.map_values(shown) + records(bytes@, at as int, big_endian) == records(bytes@, 0, big_endian),
        decreases total - at,
    {
        let wd: u32 = word_at(bytes, at, big_endian);
        let mask: u32 = word_at(bytes, at + 4, big_endian);
        let len: usize = word_at(bytes, at + 12, big_endian) as usize;
        let room: usize = total - at - HEADER;
        let end: usize = if len < room {
            at + HEADER + len
        } else {
            total
        };
        let name = name_of(bytes, at + HEADER, end);
        let ghost held = out@.map_values(shown);
        let record = Record { wd, mask, name };
        assert(record@ =~= record_at(bytes@, at as int, big_endian));
        out.push(record);
        proof {
            assert(out@.map_values(shown) =~= held.push(record_at(bytes@, at as int, big_endian)));
            assert(held + (seq![record_at(bytes@, at as int, big_endian)] + records(bytes@, end as int, big_endian))
                =~= out@.map_values(shown) + records(bytes@, end as int, big_endian));
        }
        at = end;
    }
    assert(out@.map_values(shown) + Seq::<RecordView>::empty() =~= out@.map_values(shown));
    out
}

/// Whether a mask tells of anything but changed content or attributes.
pub open spec fn is_rename(mask: u32) -> bool {
    mask & !(IN_ATTRIB | IN_MODIFY) != 0
}

/// What a record means to a watch.
pub fn kind_of(mask: u32) -> (kind: WatchKind)
    ensures
        kind == (if is_rename(mask) {
            WatchKind::Rename
        } else {
            WatchKind::Change
        }),
{
    if mask & !(IN_ATTRIB | IN_MODIFY) != 0 {
        WatchKind::Rename
    } else {
        WatchKind::Change
    }
}

pub const SLASH: u8 = 47;

/// How much of a path is left without the slashes at its end.
pub open spec fn trimmed(path: Seq<u8>) -> int
    decreases path.len(),
{
    if path.len() == 0 {
        0
    } else if path.last() != SLASH {
        path.len() as int
    } else {
        trimmed(path.drop_last())
    }
}

/// Where the last component of a path without slashes at its end starts.
pub open spec fn component(path: Seq<u8>) -> int
    decreases path.len(),
{
    if path.len() == 0 {
        0
    } else if path.last() == SLASH {
        path.len() as int
    } else {
        component(path.drop_last())
    }
}

/// The final component of a path, without slashes at its end. A path of slashes alone is
/// its own name.
pub open spec fn final_name(path: Seq<u8>) -> Seq<u8> {
    let end = trimmed(path);
    if end == 0 {
        path
    } else {
        path.subrange(component(path.take(end)), end)
    }
}

/// The final component of a path.
pub fn basename(path: &Vec<u8>) -> (name: Vec<u8>)
    ensures
        name@ == final_name(path@),
{
    let mut end: usize = path.len();
    assert(path@.take(end as int) =~= path@);
    while end > 0 && path[end - 1] == SLASH
        invariant
            end <= path@.len(),
            trimmed(path@) == trimmed(path@.take(end as int)),
        decreases end,
    {
        proof {
            let shorter = path@.take(end as int);
            assert(shorter.last() == path@[end - 1]);
            assert(shorter.drop_last() =~= path@.take(end - 1));
        }
        end = end - 1;
    }
    proof {
        let shorter = path@.take(end as int);
        if end > 0 {
            assert(shorter.last() == path@[end - 1]);
        }
        assert(trimmed(path@) == end);
    }
    let mut start: usize = 0;
    let mut stop: usize = end;
    if end == 0 {
        stop = path.len();
    } else {
        start = end;
        while start > 0 && path[start - 1] != SLASH
            invariant
                start <= end <= path@.len(),
                component(path@.take(end as int)) == component(path@.take(start as int)),
            decreases start,
        {
            proof {
                let shorter = path@.take(start as int);
                assert(shorter.last() == path@[start - 1]);
                assert(shorter.drop_last() =~= path@.take(start - 1));
            }
            start = start - 1;
        }
        proof {
            let shorter = path@.take(start as int);
            if start > 0 {
                assert(shorter.last() == path@[start - 1]);
            }
            assert(component(path@.take(end as int)) == start);
        }
    }
    let mut name: Vec<u8> = Vec::new();
    let mut i: usize = start;
    while i < stop
        invariant
            start <= i <= stop <= path@.len(),
            name@ == path@.subrange(start as int, i as int),
        decreases stop - i,
    {
        name.push(path[i]);
        assert(name@ =~= path@.subrange(start as int, i + 1));
        i = i + 1;
    }
    assert(path@.subrange(0, path@.len() as int) =~= path@);
    name
}

/// A final component holds no slash, unless the path is nothing but slashes.
pub proof fn law_name_has_no_slash(path: Seq<u8>, k: int)
    requires
        trimmed(path) > 0,
        0 <= k < final_name(path).len(),
    ensures
        final_name(path)[k] != SLASH,
{
    let end = trimmed(path);
    lemma_trimmed_bound(path);
    lemma_component(path.take(end), component(path.take(end)) + k);
}

proof fn lemma_trimmed_bound(path: Seq<u8>)
    ensures
        0 <= trimmed(path) <= path.len(),
    decreases path.len(),
{
    if path.len() > 0 && path.last() == SLASH {
        lemma_trimmed_bound(path.drop_last());
    }
}

proof fn lemma_component(path: Seq<u8>, k: int)
    ensures
        0 <= component(path) <= path.len(),
        component(path) <= k < path.len() ==> path[k] != SLASH,
    decreases path.len(),
{
    if path.len() > 0 && path.last() != SLASH {
        lemma_component(path.drop_last(), k);
    }
}

/// The bytes before the first zero are a name that is written with zeros behind it.
proof fn lemma_until_zero(bytes: Seq<u8>, name: Seq<u8>)
    requires
        name.len() <= bytes.len(),
        forall|k: int| 0 <= k < name.len() ==> #[trigger] name[k] == bytes[k] && name[k] != 0,
        name.len() < bytes.len() ==> bytes[name.len() as int] == 0,
    ensures
        until_zero(bytes) == name,
    decreases bytes.len(),
{
    if name.len() > 0 {
        assert(name[0] == bytes[0]);
        let tail = name.drop_first();
        assert forall|k: int| 0 <= k < tail.len() implies #[trigger] tail[k]
            == bytes.drop_first()[k] && tail[k] != 0 by {
            assert(name[k + 1] == bytes[k + 1]);
        }
        lemma_until_zero(bytes.drop_first(), tail);
        assert(seq![name[0]] + tail =~= name);
    } else {
        assert(name =~= Seq::empty());
    }
}

/// The number in four bytes, by their order.
proof fn lemma_word(bytes: Seq<u8>, at: int)
    requires
        0 <= at,
        at + 4 <= bytes.len(),
    ensures
        word(bytes, at, false) == bytes[at] + 0x100 * bytes[at + 1] + 0x1_0000 * bytes[at + 2]
            + 0x100_0000 * bytes[at + 3],
        word(bytes, at, true) == bytes[at + 3] + 0x100 * bytes[at + 2] + 0x1_0000 * bytes[at + 1]
            + 0x100_0000 * bytes[at],
{
    let four = bytes.subrange(at, at + 4);
    let back = four.reverse();
    reveal_with_fuel(from_le, 5);
    assert(four.drop_first().drop_first().drop_first().drop_first() =~= Seq::empty());
    assert(back.drop_first().drop_first().drop_first().drop_first() =~= Seq::empty());
    assert(four[0] == bytes[at]);
    assert(four.drop_first()[0] == bytes[at + 1]);
    assert(four.drop_first().drop_first()[0] == bytes[at + 2]);
    assert(four.drop_first().drop_first().drop_first()[0] == bytes[at + 3]);
    assert(back[0] == bytes[at + 3]);
    assert(back.drop_first()[0] == bytes[at + 2]);
    assert(back.drop_first().drop_first()[0] == bytes[at + 1]);
    assert(back.drop_first().drop_first().drop_first()[0] == bytes[at]);
}

/// What was written as a record is read back: the number of its watch, what happened, and its
/// name without the zeros behind it; and the next record is read behind all of that. Numbers are
/// in the byte order of the machine.
pub proof fn law_records_are_read_back(
    bytes: Seq<u8>,
    at: int,
    big_endian: bool,
    room: nat,
    name: Seq<u8>,
)
    requires
        0 <= at,
        at + 16 + room <= bytes.len(),
        room == if big_endian {
            bytes[at + 15] + 0x100 * bytes[at + 14] + 0x1_0000 * bytes[at + 13] + 0x100_0000
                * bytes[at + 12]
        } else {
            bytes[at + 12] + 0x100 * bytes[at + 13] + 0x1_0000 * bytes[at + 14] + 0x100_0000
                * bytes[at + 15]
        },
        name.len() <= room,
        forall|k: int|
            0 <= k < name.len() ==> #[trigger] name[k] == bytes[at + 16 + k] && name[k] != 0,
        name.len() < room ==> bytes[at + 16 + name.len()] == 0,
    ensures
        ({
            let all = records(bytes, at, big_endian);
            &&& all.len() > 0
            &&& all[0].name == name
            &&& big_endian ==> all[0].wd == bytes[at + 3] + 0x100 * bytes[at + 2] + 0x1_0000
                * bytes[at + 1] + 0x100_0000 * bytes[at]
            &&& !big_endian ==> all[0].wd == bytes[at] + 0x100 * bytes[at + 1] + 0x1_0000 * bytes[at
                + 2] + 0x100_0000 * bytes[at + 3]
            &&& big_endian ==> all[0].mask == bytes[at + 7] + 0x100 * bytes[at + 6] + 0x1_0000
                * bytes[at + 5] + 0x100_0000 * bytes[at + 4]
            &&& !big_endian ==> all[0].mask == bytes[at + 4] + 0x100 * bytes[at + 5] + 0x1_0000
                * bytes[at + 6] + 0x100_0000 * bytes[at + 7]
            &&& all.drop_first() == records(bytes, at + 16 + room, big_endian)
        }),
{
    lemma_word(bytes, at);
    lemma_word(bytes, at + 4);
    lemma_word(bytes, at + 12);
    let raw = bytes.subrange(at + 16, at + 16 + room);
    assert(record_end(bytes, at, big_endian) == at + 16 + room);
    assert forall|k: int| 0 <= k < name.len() implies #[trigger] name[k] == raw[k] && name[k]
        != 0 by {
        assert(name[k] == bytes[at + 16 + k]);
    }
    lemma_until_zero(raw, name);
    let rest = records(bytes, at + 16 + room, big_endian);
    let all = records(bytes, at, big_endian);
    assert(all == seq![record_at(bytes, at, big_endian)] + rest);
    assert(all.drop_first() =~= rest);
}

/// Only slashes are trimmed, and all of them.
pub proof fn lemma_trimmed(path: Seq<u8>)
    ensures
        0 <= trimmed(path) <= path.len(),
        forall|k: int| trimmed(path) <= k < path.len() ==> #[trigger] path[k] == 47,
        trimmed(path) > 0 ==> path[trimmed(path) - 1] != 47,
    decreases path.len(),
{
    if path.len() > 0 && path.last() == SLASH {
        let front = path.drop_last();
        lemma_trimmed(front);
        assert forall|k: int| trimmed(path) <= k < path.len() implies #[trigger] path[k] == 47 by {
            if k < front.len() {
                assert(front[k] == 47);
            }
        }
    }
}

proof fn lemma_component_start(path: Seq<u8>)
    ensures
        0 <= component(path) <= path.len(),
        component(path) > 0 ==> path[component(path) - 1] == 47,
    decreases path.len(),
{
    if path.len() > 0 && path.last() != SLASH {
        lemma_component_start(path.drop_last());
    }
}

/// The final component of a path is the part of it that ends where only slashes follow and starts
/// behind the last slash before. A path of slashes alone is its own name.
pub proof fn law_name_is_the_last_component(path: Seq<u8>)
    ensures
        ({
            let name = final_name(path);
            if forall|k: int| 0 <= k < path.len() ==> #[trigger] path[k] == 47 {
                name == path
            } else {
                exists|from: int, to: int|
                    #![trigger path.subrange(from, to)]
                    {
                        &&& 0 <= from < to <= path.len()
                        &&& name == path.subrange(from, to)
                        &&& from == 0 || path[from - 1] == 47
                        &&& path[to - 1] != 47
                        &&& forall|k: int| to <= k < path.len() ==> #[trigger] path[k] == 47
                    }
            }
        }),
{
    lemma_trimmed(path);
    let end = trimmed(path);
    if end > 0 {
        let kept = path.take(end);
        lemma_component_start(kept);
        let from = component(kept);
        assert(kept[end - 1] == path[end - 1]);
        if from == end {
            assert(kept[from - 1] == 47);
        }
        assert(final_name(path) == path.subrange(from, end));
        assert(from == 0 || path[from - 1] == kept[from - 1]);
        assert(path[end - 1] != 47);
    }
}

} // verus!
