//! Paths are resolved against directories that the host granted: an absolute path against
//! the one with the longest matching name, a relative path against the one named `.`.
use crate::unix::inotify::{trimmed, SLASH};
use vstd::prelude::*;

verus! {

pub const DOT: u8 = 46;

/// A name without the slashes at its end.
pub open spec fn bare(name: Seq<u8>) -> Seq<u8> {
    name.take(trimmed(name))
}

/// `prefix` starts `text` at `from`.
pub open spec fn starts(text: Seq<u8>, from: int, prefix: Seq<u8>) -> bool {
    from + prefix.len() <= text.len() && text.subrange(from, from + prefix.len()) == prefix
}

/// Where the part of `text` below the directory `name` starts, if it is below it.
pub open spec fn below(name: Seq<u8>, text: Seq<u8>) -> Option<int> {
    if text.len() > 0 && text[0] == SLASH {
        if name.len() == 0 {
            Some(1)
        } else if name[0] == SLASH && starts(text, 1, name.skip(1)) {
            let end = name.len() as int;
            if end == text.len() {
                Some(end)
            } else if text[end] == SLASH {
                Some(end + 1)
            } else {
                None
            }
        } else {
            None
        }
    } else if name == seq![DOT] {
        if text.len() >= 2 && text[0] == DOT && text[1] == SLASH {
            Some(2)
        } else {
            Some(0)
        }
    } else {
        None
    }
}

/// A granted directory, and where the part of the path below it starts.
#[derive(Clone, Copy, Debug, PartialEq, Eq, Structural)]
pub struct Place {
    pub directory: usize,
    pub from: usize,
}

/// Directory `i` holds the path.
pub open spec fn holds(names: Seq<Vec<u8>>, text: Seq<u8>, i: int) -> bool {
    below(bare(names[i]@), text) is Some
}

/// Directory `i` is the best of the first `n`: it holds the path, no earlier one has a name
/// at least as long, and no later one a longer name.
pub open spec fn best(names: Seq<Vec<u8>>, text: Seq<u8>, n: int, i: int) -> bool {
    &&& 0 <= i < n
    &&& holds(names, text, i)
    &&& forall|k: int|
        0 <= k < i && #[trigger] holds(names, text, k) ==> bare(names[k]@).len() < bare(
            names[i]@,
        ).len()
    &&& forall|k: int|
        i <= k < n && #[trigger] holds(names, text, k) ==> bare(names[k]@).len() <= bare(
            names[i]@,
        ).len()
}

/// There is at most one best directory.
pub proof fn law_best_directory_is_unique(names: Seq<Vec<u8>>, text: Seq<u8>, n: int, i: int, j: int)
    requires
        best(names, text, n, i),
        best(names, text, n, j),
    ensures
        i == j,
{
    assert(holds(names, text, i));
    assert(holds(names, text, j));
}

/// The granted directory for a path, and where the part below it starts.
pub open spec fn place_of(names: Seq<Vec<u8>>, text: Seq<u8>) -> Option<Place> {
    let n = names.len() as int;
    if exists|i: int| best(names, text, n, i) {
        let i = choose|i: int| best(names, text, n, i);
        Some(Place { directory: i as usize, from: below(bare(names[i]@), text)->0 as usize })
    } else {
        None
    }
}

fn trim(name: &Vec<u8>) -> (end: usize)
    ensures
        end == trimmed(name@),
        end <= name@.len(),
{
    let mut end: usize = name.len();
    assert(name@.take(end as int) =~= name@);
    while end > 0 && name[end - 1] == SLASH
        invariant
            end <= name@.len(),
            trimmed(name@) == trimmed(name@.take(end as int)),
        decreases end,
    {
        proof {
            assert(name@.take(end as int).last() == name@[end - 1]);
            assert(name@.take(end as int).drop_last() =~= name@.take(end - 1));
        }
        end = end - 1;
    }
    if end > 0 {
        assert(name@.take(end as int).last() == name@[end - 1]);
    }
    end
}

/// Where the part of `text` below a directory starts.
fn rest(name: &Vec<u8>, end: usize, text: &Vec<u8>) -> (from: Option<usize>)
    requires
        end <= name@.len(),
    ensures
        match from {
            Some(f) => below(name@.take(end as int), text@) == Some(f as int) && f <= text@.len(),
            None => below(name@.take(end as int), text@) is None,
        },
{
    let ghost kept = name@.take(end as int);
    if text.len() > 0 && text[0] == SLASH {
        if end == 0 {
            return Some(1);
        }
        if name[0] != SLASH || end > text.len() {
            return None;
        }
        let mut i: usize = 1;
        while i < end
            invariant
                1 <= i <= end <= name@.len(),
                end <= text@.len(),
                kept == name@.take(end as int),
                forall|k: int| 1 <= k < i ==> name@[k] == text@[k],
            decreases end - i,
        {
            if name[i] != text[i] {
                proof {
                    assert(text@.subrange(1, end as int)[i - 1] != kept.skip(1)[i - 1]);
                }
                return None;
            }
            i = i + 1;
        }
        assert(text@.subrange(1, end as int) =~= kept.skip(1));
        if end == text.len() {
            return Some(end);
        }
        if text[end] == SLASH {
            return Some(end + 1);
        }
        return None;
    }
    if end == 1 && name[0] == DOT {
        assert(kept =~= seq![DOT]);
        if text.len() >= 2 && text[0] == DOT && text[1] == SLASH {
            return Some(2);
        }
        return Some(0);
    }
    proof {
        if kept == seq![DOT] {
            assert(kept.len() == 1);
            assert(kept[0] == DOT);
        }
    }
    None
}

/// Find the granted directory for a path.
pub fn resolve(names: &Vec<Vec<u8>>, text: &Vec<u8>) -> (place: Option<Place>)
    ensures
        match place {
            Some(p) => {
                &&& best(names@, text@, names@.len() as int, p.directory as int)
                &&& below(bare(names@[p.directory as int]@), text@) == Some(p.from as int)
                &&& p.from <= text@.len()
            },
            None => forall|i: int| 0 <= i < names@.len() ==> !#[trigger] holds(names@, text@, i),
        },
        place == place_of(names@, text@),
{
    let mut found: Option<Place> = None;
    let mut length: usize = 0;
    let mut i: usize = 0;
    while i < names.len()
        invariant
            i <= names@.len(),
            match found {
                Some(p) => {
                    &&& best(names@, text@, i as int, p.directory as int)
                    &&& below(bare(names@[p.directory as int]@), text@) == Some(p.from as int)
                    &&& p.from <= text@.len()
                    &&& length == bare(names@[p.directory as int]@).len()
                },
                None => forall|k: int| 0 <= k < i ==> !#[trigger] holds(names@, text@, k),
            },
        decreases names@.len() - i,
    {
        let end: usize = trim(&names[i]);
        if let Some(from) = rest(&names[i], end, text) {
            assert(holds(names@, text@, i as int));
            if found.is_none() || end > length {
                found = Some(Place { directory: i, from });
                length = end;
            }
        } else {
            assert(!holds(names@, text@, i as int));
        }
        i = i + 1;
    }
    proof {
        let n = names@.len() as int;
        match found {
            Some(p) => {
                let chosen = choose|i: int| best(names@, text@, n, i);
                law_best_directory_is_unique(names@, text@, n, p.directory as int, chosen);
            },
            None => {
                assert forall|i: int| !best(names@, text@, n, i) by {}
            },
        }
    }
    found
}

/// The part of a path from `from` on; the directory itself is `.`.
pub open spec fn relative_of(text: Seq<u8>, from: int) -> Seq<u8> {
    if from == text.len() {
        seq![DOT]
    } else {
        text.skip(from)
    }
}

/// What to ask the granted directory for.
pub fn relative(text: &Vec<u8>, place: Place) -> (path: Vec<u8>)
    requires
        place.from <= text@.len(),
    ensures
        path@ == relative_of(text@, place.from as int),
        path@.len() > 0,
{
    let mut path: Vec<u8> = Vec::new();
    if place.from == text.len() {
        path.push(DOT);
        assert(path@ =~= seq![DOT]);
        return path;
    }
    let mut i: usize = place.from;
    while i < text.len()
        invariant
            place.from <= i <= text@.len(),
            path@ == text@.subrange(place.from as int, i as int),
        decreases text@.len() - i,
    {
        path.push(text[i]);
        i = i + 1;
        assert(path@ =~= text@.subrange(place.from as int, i as int));
    }
    assert(path@ =~= text@.skip(place.from as int));
    path
}

/// An absolute path goes on below the name of its directory: nothing of it is lost, and
/// nothing beside the directory is reached.
pub proof fn law_resolved_path_is_below_its_directory(name: Seq<u8>, text: Seq<u8>)
    requires
        text.len() > 0,
        text[0] == SLASH,
        below(name, text) is Some,
    ensures
        ({
            let from = below(name, text)->0;
            &&& 0 <= from <= text.len()
            &&& text =~= name + (if from == name.len() {
                Seq::empty()
            } else {
                seq![SLASH]
            }) + text.skip(from)
            &&& from == name.len() ==> text =~= name
        }),
{
    if name.len() > 0 {
        let end = name.len() as int;
        assert forall|k: int| 0 <= k < end implies text[k] == name[k] by {
            if k > 0 {
                assert(text.subrange(1, end)[k - 1] == name.skip(1)[k - 1]);
            }
        }
    }
}

/// Of two directories that hold a path, one with a longer name is taken.
pub proof fn law_longest_name_wins(names: Seq<Vec<u8>>, text: Seq<u8>, i: int, k: int)
    requires
        best(names, text, names.len() as int, i),
        0 <= k < names.len(),
        holds(names, text, k),
    ensures
        bare(names[k]@).len() <= bare(names[i]@).len(),
{
}

/// A path is served by some directory exactly when one of them holds it.
pub proof fn law_path_is_served_by_its_directory(names: Seq<Vec<u8>>, text: Seq<u8>)
    requires
        names.len() <= usize::MAX,
        text.len() <= usize::MAX,
        place_of(names, text) is Some,
    ensures
        ({
            let place = place_of(names, text)->0;
            let i = place.directory as int;
            &&& 0 <= i < names.len()
            &&& below(bare(names[i]@), text) is Some
            &&& place.from == below(bare(names[i]@), text)->0
            &&& forall|k: int|
                0 <= k < names.len() && below(bare(#[trigger] names[k]@), text) is Some ==> bare(
                    names[k]@,
                ).len() <= bare(names[i]@).len()
        }),
{
    let n = names.len() as int;
    let i = choose|i: int| best(names, text, n, i);
    assert(best(names, text, n, i));
    assert(holds(names, text, i));
    let from = below(bare(names[i]@), text)->0;
    assert(0 <= from <= text.len());
    assert forall|k: int|
        0 <= k < names.len() && below(bare(#[trigger] names[k]@), text) is Some implies bare(
        names[k]@,
    ).len() <= bare(names[i]@).len() by {
        assert(holds(names, text, k));
    }
}

/// A path that does not start at the root is served by the current directory alone, without the dot
/// and the slash that may stand before it, and one that does is served by the directory whose name
/// it starts with, up to a slash. What is left of it is what is asked for there, or the directory
/// itself.
pub proof fn law_path_is_asked_for_below_its_directory(name: Seq<u8>, text: Seq<u8>)
    requires
        text.len() > 0,
    ensures
        text[0] != 47 ==> (below(name, text) is Some <==> name == seq![46u8]),
        text[0] != 47 && below(name, text) is Some ==> {
            let from = below(name, text)->0;
            let dotted = text.len() >= 2 && text[0] == 46 && text[1] == 47;
            from == if dotted {
                2int
            } else {
                0
            }
        },
        text[0] == 47 && name.len() > 0 ==> (below(name, text) is Some <==> {
            &&& name.len() <= text.len()
            &&& text.take(name.len() as int) == name
            &&& name.len() == text.len() || text[name.len() as int] == 47
        }),
        text[0] == 47 && name.len() == 0 ==> below(name, text) == Some(1int),
        relative_of(text, text.len() as int) == seq![46u8],
        forall|from: int|
            0 <= from < text.len() ==> #[trigger] relative_of(text, from) == text.skip(from),
{
    if text[0] == 47 && name.len() > 0 {
        let end = name.len() as int;
        if below(name, text) is Some {
            assert(starts(text, 1, name.skip(1)));
            assert forall|k: int| 0 <= k < end implies text[k] == name[k] by {
                if k > 0 {
                    assert(text.subrange(1, name.len() as int)[k - 1] == name.skip(1)[k - 1]);
                }
            }
            assert(text.take(end) =~= name);
        }
        if end <= text.len() && text.take(end) == name {
            assert(text.take(end)[0] == text[0]);
            assert(text.subrange(1, name.len() as int) =~= name.skip(1)) by {
                assert forall|k: int| 0 <= k < end - 1 implies text.subrange(
                    1,
                    name.len() as int,
                )[k] == name.skip(1)[k] by {
                    assert(text.take(end)[k + 1] == text[k + 1]);
                }
            }
        }
    }
}

} // verus!
