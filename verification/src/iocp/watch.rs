//! Directory watches that complete through the port: change records, the paths they are
//! asked for, and the life of each watch's one kernel request.
use crate::bytes::{from_le, get, lemma_spans};
use crate::types::{unsupported, Error, ErrorKind};
use crate::unix::inotify::WatchKind;
use vstd::prelude::*;

verus! {

/// The action that tells of changed content.
pub const ACTION_MODIFIED: u32 = 3;

/// Bytes of a record before its name.
pub const HEADER: usize = 12;

/// A letter without case, for ASCII letters.
pub open spec fn folded(c: u16) -> u16 {
    if 97 <= c <= 122 {
        (c - 32) as u16
    } else {
        c
    }
}

/// Equal names, whatever the case of their ASCII letters.
pub open spec fn same(a: Seq<u16>, b: Seq<u16>) -> bool {
    a.len() == b.len() && forall|i: int|
        0 <= i < a.len() ==> folded(#[trigger] a[i]) == folded(b[i])
}

fn fold(c: u16) -> (f: u16)
    ensures
        f == folded(c),
{
    if 97 <= c && c <= 122 {
        c - 32
    } else {
        c
    }
}

/// Whether two names are equal but for the case of ASCII letters.
pub fn same_name(a: &Vec<u16>, b: &Vec<u16>) -> (yes: bool)
    ensures
        yes == same(a@, b@),
{
    if a.len() != b.len() {
        return false;
    }
    let mut i: usize = 0;
    while i < a.len()
        invariant
            i <= a@.len(),
            a@.len() == b@.len(),
            forall|k: int| 0 <= k < i ==> folded(#[trigger] a@[k]) == folded(b@[k]),
        decreases a@.len() - i,
    {
        if fold(a[i]) != fold(b[i]) {
            assert(folded(a@[i as int]) != folded(b@[i as int]));
            return false;
        }
        i = i + 1;
    }
    true
}

/// What a completed request stores.
#[verifier::ext_equal]
pub enum Change {
    /// Some changes are unknown.
    Lost,
    /// A change of the watched file.
    Own(WatchKind),
    /// A change of the entry with this name.
    Named { kind: WatchKind, name: Seq<u16> },
}

/// The same as a value.
#[derive(Debug)]
pub enum Stored {
    Lost,
    Own(WatchKind),
    Named { kind: WatchKind, name: Vec<u16> },
}

impl View for Stored {
    type V = Change;

    open spec fn view(&self) -> Change {
        match *self {
            Stored::Lost => Change::Lost,
            Stored::Own(kind) => Change::Own(kind),
            Stored::Named { kind, name } => Change::Named { kind, name: name@ },
        }
    }
}

/// The word at `at`.
pub open spec fn word(bytes: Seq<u8>, at: int) -> nat {
    from_le(bytes.subrange(at, at + 4))
}

/// `n` UTF-16 units from `at` on.
pub open spec fn units(bytes: Seq<u8>, at: int, n: int) -> Seq<u16> {
    Seq::new(
        if n > 0 {
            n as nat
        } else {
            0
        },
        |i: int| from_le(bytes.subrange(at + 2 * i, at + 2 * i + 2)) as u16,
    )
}

/// What the record at `at` tells. A watch of one file ignores other names.
pub open spec fn record_at(bytes: Seq<u8>, at: int, file: Option<Seq<u16>>) -> Seq<Change> {
    let kind = if word(bytes, at + 4) == ACTION_MODIFIED {
        WatchKind::Change
    } else {
        WatchKind::Rename
    };
    let name = units(bytes, at + HEADER, word(bytes, at + 8) as int / 2);
    match file {
        Some(own) => if same(name, own) {
            seq![Change::Own(kind)]
        } else {
            Seq::empty()
        },
        None => seq![Change::Named { kind, name }],
    }
}

/// What the records from `at` on tell. A record that does not fit tells that changes were
/// lost.
pub open spec fn records(bytes: Seq<u8>, at: int, file: Option<Seq<u16>>) -> Seq<Change>
    decreases
            if at <= bytes.len() {
                bytes.len() - at
            } else {
                0
            },
{
    if at < 0 || at + HEADER > bytes.len() || at + HEADER + word(bytes, at + 8) > bytes.len() {
        seq![Change::Lost]
    } else {
        let next = word(bytes, at) as int;
        record_at(bytes, at, file) + if next <= 0 {
            Seq::empty()
        } else {
            records(bytes, at + next, file)
        }
    }
}

/// Everything that a completed request tells. Nothing at all tells that the system's own
/// storage ran over.
pub open spec fn told(bytes: Seq<u8>, file: Option<Seq<u16>>) -> Seq<Change> {
    if bytes.len() == 0 {
        seq![Change::Lost]
    } else {
        records(bytes, 0, file)
    }
}

fn name_at(bytes: &Vec<u8>, at: usize, n: usize) -> (name: Vec<u16>)
    requires
        at + 2 * n <= bytes@.len(),
    ensures
        name@ == units(bytes@, at as int, n as int),
{
    let total: usize = bytes.len();
    let mut name: Vec<u16> = Vec::new();
    let mut i: usize = 0;
    while i < n
        invariant
            i <= n,
            total == bytes@.len(),
            at + 2 * n <= total,
            name@ == units(bytes@, at as int, i as int),
        decreases n - i,
    {
        proof {
            lemma_spans();
        }
        name.push(get(bytes, at + 2 * i, 2) as u16);
        assert(name@ =~= units(bytes@, at as int, i + 1));
        i = i + 1;
    }
    assert(name@ =~= units(bytes@, at as int, n as int));
    name
}

/// The view of the name of a watched file.
pub open spec fn file_name(file: Option<Vec<u16>>) -> Option<Seq<u16>> {
    match file {
        Some(name) => Some(name@),
        None => None,
    }
}

/// Read the records of a completed request.
pub fn parse(bytes: &Vec<u8>, file: &Option<Vec<u16>>) -> (out: Vec<Stored>)
    ensures
        out@.map_values(|s: Stored| s@) == told(bytes@, file_name(*file)),
{
    let ghost shown = |s: Stored| s@;
    let ghost own = file_name(*file);
    let mut out: Vec<Stored> = Vec::new();
    let total: usize = bytes.len();
    if total == 0 {
        out.push(Stored::Lost);
        assert(out@.map_values(shown) =~= told(bytes@, own));
        return out;
    }
    let mut at: usize = 0;
    assert(out@.map_values(shown) + records(bytes@, 0, own) =~= records(bytes@, 0, own));
    loop
        invariant
            total == bytes@.len(),
            at <= total,
            total > 0,
            shown == (|s: Stored| s@),
            own == file_name(*file),
            out@.map_values(shown) + records(bytes@, at as int, own) == records(bytes@, 0, own),
        decreases total - at,
    {
        let ghost held = out@.map_values(shown);
        proof {
            lemma_spans();
        }
        if total < HEADER || at > total - HEADER {
            out.push(Stored::Lost);
            assert(out@.map_values(shown) =~= held + seq![Change::Lost]);
            return out;
        }
        let next: usize = get(bytes, at, 4) as usize;
        let action: u32 = get(bytes, at + 4, 4) as u32;
        let length: usize = get(bytes, at + 8, 4) as usize;
        if length > total - HEADER - at {
            out.push(Stored::Lost);
            assert(out@.map_values(shown) =~= held + seq![Change::Lost]);
            return out;
        }
        let name = name_at(bytes, at + HEADER, length / 2);
        let kind = if action == ACTION_MODIFIED {
            WatchKind::Change
        } else {
            WatchKind::Rename
        };
        match file {
            Some(wanted) => {
                if same_name(&name, wanted) {
                    out.push(Stored::Own(kind));
                }
            },
            None => {
                out.push(Stored::Named { kind, name });
            },
        }
        proof {
            let record = record_at(bytes@, at as int, own);
            assert(out@.map_values(shown) =~= held + record);
            let rest = if next == 0 {
                Seq::<Change>::empty()
            } else {
                records(bytes@, at + next, own)
            };
            assert(held + (record + rest) =~= out@.map_values(shown) + rest);
        }
        if next == 0 {
            assert(out@.map_values(shown) + Seq::<Change>::empty() =~= out@.map_values(shown));
            return out;
        }
        if next > total - at {
            // The next record starts behind the end, and so does not fit.
            let ghost now = out@.map_values(shown);
            out.push(Stored::Lost);
            assert(out@.map_values(shown) =~= now + seq![Change::Lost]);
            return out;
        }
        at = at + next;
    }
}

/// A path separator.
pub open spec fn separates(c: u16) -> bool {
    c == 0x5c || c == 0x2f
}

/// How much of a path is left without the separators at its end.
pub open spec fn trimmed(path: Seq<u16>) -> int
    decreases path.len(),
{
    if path.len() == 0 {
        0
    } else if !separates(path.last()) {
        path.len() as int
    } else {
        trimmed(path.drop_last())
    }
}

/// The place of the last separator.
pub open spec fn split(path: Seq<u16>) -> Option<int>
    decreases path.len(),
{
    if path.len() == 0 {
        None
    } else if separates(path.last()) {
        Some(path.len() - 1)
    } else {
        split(path.drop_last())
    }
}

/// The last component of a path.
pub open spec fn base(path: Seq<u16>) -> Seq<u16> {
    let kept = path.take(trimmed(path));
    match split(kept) {
        Some(i) => kept.skip(i + 1),
        None => kept,
    }
}

/// The directory that holds the last component of a path.
pub open spec fn parent(path: Seq<u16>) -> Seq<u16> {
    let kept = path.take(trimmed(path));
    match split(kept) {
        Some(i) => if i == 0 {
            kept.take(1)
        } else {
            kept.take(i)
        },
        None => seq![46u16],
    }
}

/// The directory to open for a watch, and the name to look for in it.
#[derive(Debug)]
pub struct Target {
    pub directory: Vec<u16>,
    pub file: Option<Vec<u16>>,
}

fn trim(path: &Vec<u16>) -> (end: usize)
    ensures
        end == trimmed(path@),
        end <= path@.len(),
{
    let mut end: usize = path.len();
    assert(path@.take(end as int) =~= path@);
    while end > 0 && (path[end - 1] == 0x5c || path[end - 1] == 0x2f)
        invariant
            end <= path@.len(),
            trimmed(path@) == trimmed(path@.take(end as int)),
        decreases end,
    {
        proof {
            assert(path@.take(end as int).last() == path@[end - 1]);
            assert(path@.take(end as int).drop_last() =~= path@.take(end - 1));
        }
        end = end - 1;
    }
    if end > 0 {
        assert(path@.take(end as int).last() == path@[end - 1]);
    }
    end
}

fn split_at(path: &Vec<u16>, end: usize) -> (place: Option<usize>)
    requires
        end <= path@.len(),
    ensures
        match place {
            Some(i) => split(path@.take(end as int)) == Some(i as int) && i < end,
            None => split(path@.take(end as int)) is None,
        },
{
    let mut i: usize = end;
    while i > 0
        invariant
            i <= end <= path@.len(),
            split(path@.take(end as int)) == split(path@.take(i as int)),
        decreases i,
    {
        proof {
            assert(path@.take(i as int).last() == path@[i - 1]);
            assert(path@.take(i as int).drop_last() =~= path@.take(i - 1));
        }
        if path[i - 1] == 0x5c || path[i - 1] == 0x2f {
            return Some(i - 1);
        }
        i = i - 1;
    }
    None
}

fn part(path: &Vec<u16>, from: usize, to: usize) -> (out: Vec<u16>)
    requires
        from <= to <= path@.len(),
    ensures
        out@ == path@.subrange(from as int, to as int),
{
    let mut out: Vec<u16> = Vec::new();
    let mut i: usize = from;
    while i < to
        invariant
            from <= i <= to <= path@.len(),
            out@ == path@.subrange(from as int, i as int),
        decreases to - i,
    {
        out.push(path[i]);
        assert(out@ =~= path@.subrange(from as int, i + 1));
        i = i + 1;
    }
    out
}

/// The name under which a watched path is reported.
pub fn watched_name(path: &Vec<u16>) -> (name: Vec<u16>)
    ensures
        name@ == base(path@),
{
    let end: usize = trim(path);
    match split_at(path, end) {
        Some(i) => {
            assert(path@.take(end as int).skip(i + 1) =~= path@.subrange(i + 1, end as int));
            part(path, i + 1, end)
        },
        None => {
            assert(path@.take(end as int) =~= path@.subrange(0, end as int));
            part(path, 0, end)
        },
    }
}

/// What to open for a watch of `path`: a directory itself, or the parent of a file. What
/// lies below a file cannot be watched.
pub fn target(path: &Vec<u16>, directory: bool, recursive: bool) -> (found: Result<Target, Error>)
    ensures
        match found {
            Ok(t) => if directory {
                t.directory@ == path@ && t.file is None
            } else {
                !recursive && t.directory@ == parent(path@) && t.file is Some && t.file->0@
                    == base(path@)
            },
            Err(e) => !directory && recursive && e == Error::plain(ErrorKind::Unsupported),
        },
{
    if directory {
        assert(path@.subrange(0, path@.len() as int) =~= path@);
        return Ok(Target { directory: part(path, 0, path.len()), file: None });
    }
    if recursive {
        return Err(unsupported());
    }
    let end: usize = trim(path);
    let ghost kept = path@.take(end as int);
    let directory: Vec<u16> = match split_at(path, end) {
        Some(i) => {
            let to: usize = if i == 0 {
                1
            } else {
                i
            };
            assert(path@.subrange(0, to as int) =~= kept.take(to as int));
            part(path, 0, to)
        },
        None => {
            let mut here: Vec<u16> = Vec::new();
            here.push(46);
            assert(here@ =~= seq![46u16]);
            here
        },
    };
    Ok(Target { directory, file: Some(watched_name(path)) })
}

/// Names are the same when they differ only in the case of English letters: each is the same as
/// itself, whichever stands first, and what is the same as a third is the same.
pub proof fn law_case_does_not_tell_names_apart(a: Seq<u16>, b: Seq<u16>, c: Seq<u16>)
    ensures
        same(a, a),
        same(a, b) == same(b, a),
        same(a, b) && same(b, c) ==> same(a, c),
        same(a, b) <==> a.len() == b.len() && forall|i: int|
            0 <= i < a.len() ==> {
                ||| #[trigger] a[i] == b[i]
                ||| 65 <= a[i] <= 90 && b[i] == a[i] + 32
                ||| 65 <= b[i] <= 90 && a[i] == b[i] + 32
            },
{
    if same(a, b) {
        assert forall|i: int| 0 <= i < a.len() implies folded(#[trigger] b[i]) == folded(a[i]) by {
            assert(folded(a[i]) == folded(b[i]));
        }
        assert forall|i: int| 0 <= i < a.len() implies {
            ||| #[trigger] a[i] == b[i]
            ||| 65 <= a[i] <= 90 && b[i] == a[i] + 32
            ||| 65 <= b[i] <= 90 && a[i] == b[i] + 32
        } by {
            assert(folded(a[i]) == folded(b[i]));
        }
    }
    if same(b, a) {
        assert forall|i: int| 0 <= i < a.len() implies folded(#[trigger] a[i]) == folded(b[i]) by {
            assert(folded(b[i]) == folded(a[i]));
        }
    }
    if same(a, b) && same(b, c) {
        assert forall|i: int| 0 <= i < a.len() implies folded(#[trigger] a[i]) == folded(c[i]) by {
            assert(folded(b[i]) == folded(c[i]));
        }
    }
}

/// A record tells one change, under the name that is written in it: changed content where its
/// action is the third, and otherwise that a name came or went. What comes next is told behind it,
/// and nothing is where it is the last.
pub proof fn law_record_tells_its_change(bytes: Seq<u8>, at: int, name: Seq<u16>)
    requires
        0 <= at,
        at + 12 + 2 * name.len() <= bytes.len(),
        from_le(bytes.subrange(at + 8, at + 12)) == 2 * name.len(),
        forall|i: int|
            0 <= i < name.len() ==> #[trigger] name[i] == bytes[at + 12 + 2 * i] + 256 * bytes[at
                + 13 + 2 * i],
    ensures
        ({
            let next = from_le(bytes.subrange(at, at + 4));
            let kind = if from_le(bytes.subrange(at + 4, at + 8)) == 3 {
                WatchKind::Change
            } else {
                WatchKind::Rename
            };
            let rest = |file: Option<Seq<u16>>| if next == 0 {
                Seq::<Change>::empty()
            } else {
                records(bytes, at + next, file)
            };
            &&& records(bytes, at, None) == seq![Change::Named { kind, name }] + rest(None)
            &&& forall|own: Seq<u16>| #[trigger]
                same(name, own) ==> records(bytes, at, Some(own)) == seq![Change::Own(kind)] + rest(
                    Some(own),
                )
            &&& forall|own: Seq<u16>| #![trigger same(name, own)]
                !same(name, own) ==> records(bytes, at, Some(own)) == rest(Some(own))
        }),
{
    let n = name.len() as int;
    let read = units(bytes, at + 12, 2 * n / 2);
    assert forall|i: int| 0 <= i < n implies #[trigger] read[i] == name[i] by {
        let pair = bytes.subrange(at + 12 + 2 * i, at + 12 + 2 * i + 2);
        reveal_with_fuel(from_le, 3);
        assert(pair.drop_first().drop_first() =~= Seq::empty());
        assert(pair[0] == bytes[at + 12 + 2 * i]);
        assert(pair.drop_first()[0] == bytes[at + 13 + 2 * i]);
        assert(from_le(pair) == name[i]);
    }
    assert(read =~= name);
    let next = word(bytes, at) as int;
    assert forall|own: Seq<u16>| !same(name, own) implies records(bytes, at, Some(own)) == (
    if next == 0 {
        Seq::<Change>::empty()
    } else {
        records(bytes, at + next, Some(own))
    }) by {
        assert(record_at(bytes, at, Some(own)) =~= Seq::empty());
        let tail = if next <= 0 {
            Seq::empty()
        } else {
            records(bytes, at + next, Some(own))
        };
        assert(Seq::<Change>::empty() + tail =~= tail);
    }
}

/// A record that does not fit is not guessed at: from there on changes are known to be lost, and
/// so they are where a request tells nothing at all.
pub proof fn law_cut_record_tells_a_loss(bytes: Seq<u8>, at: int, file: Option<Seq<u16>>)
    requires
        0 <= at,
        at + 12 > bytes.len() || at + 12 + from_le(bytes.subrange(at + 8, at + 12)) > bytes.len(),
    ensures
        records(bytes, at, file) == seq![Change::Lost],
        told(Seq::empty(), file) == seq![Change::Lost],
{
}

/// Only separators are trimmed, and all of them.
proof fn lemma_trimmed(path: Seq<u16>)
    ensures
        0 <= trimmed(path) <= path.len(),
        forall|k: int| trimmed(path) <= k < path.len() ==> #[trigger] separates(path[k]),
        trimmed(path) > 0 ==> !separates(path[trimmed(path) - 1]),
    decreases path.len(),
{
    if path.len() > 0 && separates(path.last()) {
        let front = path.drop_last();
        lemma_trimmed(front);
        assert forall|k: int| trimmed(path) <= k < path.len() implies #[trigger] separates(
            path[k],
        ) by {
            if k < front.len() {
                assert(separates(front[k]));
            }
        }
    }
}

proof fn lemma_split(path: Seq<u16>)
    ensures
        match split(path) {
            Some(i) => 0 <= i < path.len() && separates(path[i]) && forall|k: int|
                i < k < path.len() ==> !#[trigger] separates(path[k]),
            None => forall|k: int| 0 <= k < path.len() ==> !#[trigger] separates(path[k]),
        },
    decreases path.len(),
{
    if path.len() > 0 && !separates(path.last()) {
        let front = path.drop_last();
        lemma_split(front);
        let from = match split(path) {
            Some(i) => i,
            None => -1,
        };
        assert forall|k: int| from < k < path.len() implies !#[trigger] separates(path[k]) by {
            if k < front.len() {
                assert(!separates(front[k]));
            }
        }
    }
}

/// The name of a watched path is its last component: what is behind it are separators, it holds
/// none, and with its directory and the separator between it is the start of the path. A path
/// without a directory is looked for in the current one.
pub proof fn law_path_is_its_directory_and_its_name(path: Seq<u16>)
    ensures
        ({
            let name = base(path);
            let directory = parent(path);
            let slash = |c: u16| c == 92 || c == 47;
            &&& forall|k: int| 0 <= k < name.len() ==> !#[trigger] slash(name[k])
            &&& exists|end: int|
                #![trigger path.take(end)]
                {
                    &&& 0 <= end <= path.len()
                    &&& forall|k: int| end <= k < path.len() ==> #[trigger] slash(path[k])
                    &&& end > 0 ==> !slash(path[end - 1]) && name.len() > 0
                    &&& {
                        ||| name == path.take(end) && directory == seq![46u16]
                        ||| end > name.len() && slash(path[end - name.len() - 1]) && name
                            == path.subrange(end - name.len(), end) && directory == path.take(
                            if end - name.len() == 1 {
                                1
                            } else {
                                end - name.len() - 1
                            },
                        )
                    }
                }
        }),
{
    let end = trimmed(path);
    let kept = path.take(end);
    lemma_trimmed(path);
    lemma_split(kept);
    let name = base(path);
    let directory = parent(path);
    let slash = |c: u16| c == 92 || c == 47;
    assert forall|k: int| end <= k < path.len() implies #[trigger] slash(path[k]) by {
        assert(separates(path[k]));
    }
    match split(kept) {
        Some(i) => {
            assert(name =~= path.subrange(end - name.len(), end));
            assert(kept.take(1) =~= path.take(1));
            assert(kept.take(i) =~= path.take(i));
            assert forall|k: int| 0 <= k < name.len() implies !#[trigger] slash(name[k]) by {
                assert(!separates(kept[i + 1 + k]));
            }
            assert(slash(path[end - name.len() - 1])) by {
                assert(separates(kept[i]));
            }
            assert(!separates(path[end - 1]));
        },
        None => {
            assert(name == path.take(end));
            assert forall|k: int| 0 <= k < name.len() implies !#[trigger] slash(name[k]) by {
                assert(!separates(kept[k]));
            }
        },
    }
    assert(end > 0 ==> !slash(path[end - 1]) && name.len() > 0);
    assert(path.take(end) == kept);
}

} // verus!
