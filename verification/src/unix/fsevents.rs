//! Directory event streams: what an event means to the watched directory, and how streams
//! tell their loop that something is stored.
use crate::types::Handle;
use crate::unix::inotify::{
    basename, final_name, lemma_trimmed, trimmed, WatchKind, SLASH,
};
use std::collections::VecDeque;
use vstd::prelude::*;

verus! {

/// Events below were dropped, by the sender or by the system.
pub const DROPPED: u32 = 0x07;

/// The watched directory itself moved.
pub const ROOT_CHANGED: u32 = 0x20;

/// Created, removed or renamed.
pub const RENAMED: u32 = 0xb00;

/// Content, attributes, owner or finder data changed.
pub const MODIFIED: u32 = 0xf400;

pub const IS_DIRECTORY: u32 = 0x20000;

/// What one event stores.
#[derive(Clone, Copy, Debug, PartialEq, Eq, Structural)]
pub enum StreamReport {
    /// Some changes are unknown.
    Lost,
    /// A change of the watched directory, under its own name.
    Own(WatchKind),
    /// A change of the entry that the event's path names from byte `from` on.
    Child { kind: WatchKind, from: usize },
}

/// Whether a path names something under `root`, or `root` itself.
pub open spec fn under(root: Seq<u8>, path: Seq<u8>) -> bool {
    root.len() <= path.len() && path.take(root.len() as int) == root
}

/// The file-system root: entries follow it without another slash.
pub open spec fn is_slash(root: Seq<u8>) -> bool {
    root.len() == 1 && root[0] == SLASH
}

/// Where the name of an entry under `root` starts in `path`.
pub open spec fn name_from(root: Seq<u8>, path: Seq<u8>) -> Option<int> {
    if is_slash(root) {
        Some(root.len() as int)
    } else if path[root.len() as int] == SLASH {
        Some(root.len() as int + 1)
    } else {
        None
    }
}

/// The kind of a change with these flags.
pub open spec fn kind_with(flags: u32) -> WatchKind {
    if flags & RENAMED == 0 && (flags & MODIFIED != 0 || flags & IS_DIRECTORY == 0) {
        WatchKind::Change
    } else {
        WatchKind::Rename
    }
}

/// The change that an event tells, if it is about the watched directory or an entry that is
/// watched with it.
pub open spec fn change(root: Seq<u8>, recursive: bool, path: Seq<u8>, flags: u32) -> Option<
    StreamReport,
> {
    if flags & ROOT_CHANGED != 0 {
        Some(StreamReport::Own(WatchKind::Rename))
    } else if !under(root, path) {
        None
    } else if path.len() == root.len() {
        Some(StreamReport::Own(kind_with(flags & !RENAMED)))
    } else {
        match name_from(root, path) {
            None => None,
            Some(from) => if !recursive && path.skip(from).contains(SLASH) {
                None
            } else {
                Some(StreamReport::Child { kind: kind_with(flags), from: from as usize })
            },
        }
    }
}

/// Everything that one event stores, in order.
pub open spec fn reports(root: Seq<u8>, recursive: bool, path: Seq<u8>, flags: u32) -> Seq<
    StreamReport,
> {
    (if flags & DROPPED != 0 {
        seq![StreamReport::Lost]
    } else {
        Seq::empty()
    }) + (match change(root, recursive, path, flags) {
        Some(report) => seq![report],
        None => Seq::empty(),
    })
}

fn kind_of(flags: u32) -> (kind: WatchKind)
    ensures
        kind == kind_with(flags),
{
    if flags & RENAMED == 0 && (flags & MODIFIED != 0 || flags & IS_DIRECTORY == 0) {
        WatchKind::Change
    } else {
        WatchKind::Rename
    }
}

fn is_under(root: &Vec<u8>, path: &Vec<u8>) -> (yes: bool)
    ensures
        yes == under(root@, path@),
{
    if root.len() > path.len() {
        return false;
    }
    let mut i: usize = 0;
    while i < root.len()
        invariant
            i <= root@.len() <= path@.len(),
            forall|k: int| 0 <= k < i ==> path@[k] == root@[k],
        decreases root@.len() - i,
    {
        if path[i] != root[i] {
            assert(path@.take(root@.len() as int)[i as int] != root@[i as int]);
            return false;
        }
        i = i + 1;
    }
    assert(path@.take(root@.len() as int) =~= root@);
    true
}

fn has_slash(path: &Vec<u8>, from: usize) -> (yes: bool)
    requires
        from <= path@.len(),
    ensures
        yes == path@.skip(from as int).contains(SLASH),
{
    let mut i: usize = from;
    while i < path.len()
        invariant
            from <= i <= path@.len(),
            forall|k: int| from <= k < i ==> path@[k] != SLASH,
        decreases path@.len() - i,
    {
        if path[i] == SLASH {
            assert(path@.skip(from as int)[i - from] == SLASH);
            return true;
        }
        i = i + 1;
    }
    false
}

/// What one event changes.
fn change_of(root: &Vec<u8>, recursive: bool, path: &Vec<u8>, flags: u32) -> (found: Option<
    StreamReport,
>)
    ensures
        found == change(root@, recursive, path@, flags),
{
    if flags & ROOT_CHANGED != 0 {
        return Some(StreamReport::Own(WatchKind::Rename));
    }
    if !is_under(root, path) {
        return None;
    }
    let n: usize = root.len();
    if path.len() == n {
        return Some(StreamReport::Own(kind_of(flags & !RENAMED)));
    }
    let from: usize = if n == 1 && root[0] == SLASH {
        n
    } else if path[n] == SLASH {
        n + 1
    } else {
        return None;
    };
    if !recursive && has_slash(path, from) {
        return None;
    }
    Some(StreamReport::Child { kind: kind_of(flags), from })
}

/// What one event of a stream on `root` stores.
pub fn receive(root: &Vec<u8>, recursive: bool, path: &Vec<u8>, flags: u32) -> (out: Vec<
    StreamReport,
>)
    ensures
        out@ == reports(root@, recursive, path@, flags),
{
    let mut out: Vec<StreamReport> = Vec::new();
    if flags & DROPPED != 0 {
        out.push(StreamReport::Lost);
    }
    if let Some(report) = change_of(root, recursive, path, flags) {
        out.push(report);
    }
    assert(out@ =~= reports(root@, recursive, path@, flags));
    out
}

/// The name of an entry lies within the path that told of it, and a watch that does not
/// reach below its directory tells of direct entries alone.
pub proof fn law_reported_name_is_in_the_path(
    root: Seq<u8>,
    recursive: bool,
    path: Seq<u8>,
    flags: u32,
)
    requires
        path.len() < usize::MAX,
        change(root, recursive, path, flags) is Some,
        change(root, recursive, path, flags)->0 is Child,
    ensures
        root.len() <= change(root, recursive, path, flags)->0->from <= path.len(),
        !recursive ==> !path.skip(
            change(root, recursive, path, flags)->0->from as int,
        ).contains(SLASH),
{
}

/// The last component of a path, or a slash for the file-system root.
pub open spec fn spec_root_name(root: Seq<u8>) -> Seq<u8> {
    if trimmed(root) == 0 {
        seq![SLASH]
    } else {
        final_name(root)
    }
}

/// The name under which the watched directory is reported.
pub fn root_name(root: &Vec<u8>) -> (name: Vec<u8>)
    ensures
        name@ == spec_root_name(root@),
{
    let mut i: usize = root.len();
    assert(root@.take(i as int) =~= root@);
    while i > 0 && root[i - 1] == SLASH
        invariant
            i <= root@.len(),
            trimmed(root@) == trimmed(root@.take(i as int)),
        decreases i,
    {
        proof {
            assert(root@.take(i as int).last() == root@[i - 1]);
            assert(root@.take(i as int).drop_last() =~= root@.take(i - 1));
        }
        i = i - 1;
    }
    if i == 0 {
        let mut name: Vec<u8> = Vec::new();
        name.push(SLASH);
        assert(name@ =~= seq![SLASH]);
        return name;
    }
    assert(root@.take(i as int).last() == root@[i - 1]);
    basename(root)
}

/// Streams that have something stored, oldest first, shared by every stream of a loop.
#[derive(Debug)]
pub struct Streams {
    ready: VecDeque<Handle>,
    pending: bool,
}

impl Streams {
    /// The streams with something stored.
    pub closed spec fn ready(&self) -> Seq<Handle> {
        self.ready@
    }

    /// The loop has to look.
    pub closed spec fn pending(&self) -> bool {
        self.pending
    }

    /// Nothing is stored.
    pub fn new() -> (streams: Self)
        ensures
            streams.ready() == Seq::<Handle>::empty(),
            !streams.pending(),
    {
        Streams { ready: VecDeque::new(), pending: false }
    }

    /// A stream stored something. `queued` is whether it told so since its loop last
    /// looked: it tells once. Yields whether the loop is to be woken.
    pub fn publish(&mut self, h: Handle, queued: bool) -> (wake: bool)
        ensures
            wake == !queued,
            final(self).ready() == (if queued {
                old(self).ready()
            } else {
                old(self).ready().push(h)
            }),
            final(self).pending() == (old(self).pending() || !queued),
    {
        if queued {
            return false;
        }
        self.ready.push_back(h);
        self.pending = true;
        true
    }

    /// Whether the loop has to look.
    pub fn has_work(&self) -> (work: bool)
        ensures
            work == self.pending(),
    {
        self.pending
    }

    /// Take the streams with something stored.
    pub fn drain(&mut self) -> (streams: VecDeque<Handle>)
        ensures
            old(self).pending() ==> streams@ == old(self).ready() && final(self).ready()
                == Seq::<Handle>::empty(),
            !old(self).pending() ==> streams@ == Seq::<Handle>::empty() && final(self).ready()
                == old(self).ready(),
            !final(self).pending(),
    {
        let mut streams: VecDeque<Handle> = VecDeque::new();
        if self.pending {
            core::mem::swap(&mut streams, &mut self.ready);
            self.pending = false;
        }
        streams
    }

    /// A stream stopped: no callback of it runs any more, and what it told is forgotten.
    pub fn stop(&mut self, h: Handle)
        ensures
            final(self).ready() == old(self).ready().filter(|other: Handle| other != h),
            !final(self).ready().contains(h),
            final(self).pending() == old(self).pending(),
    {
        let ghost keep = |other: Handle| other != h;
        let ghost before = self.ready@;
        let mut kept: VecDeque<Handle> = VecDeque::new();
        let mut i: usize = 0;
        assert(before.take(0).filter(keep) =~= kept@) by {
            reveal(Seq::filter);
        }
        while i < self.ready.len()
            invariant
                i <= before.len(),
                self.ready@ == before,
                keep == (|other: Handle| other != h),
                kept@ == before.take(i as int).filter(keep),
                !kept@.contains(h),
            decreases before.len() - i,
        {
            let other = self.ready[i];
            proof {
                reveal(Seq::filter);
                assert(before.take(i + 1).drop_last() =~= before.take(i as int));
                assert(before.take(i + 1).last() == other);
            }
            if other != h {
                kept.push_back(other);
            }
            i = i + 1;
        }
        assert(before.take(i as int) =~= before);
        self.ready = kept;
    }
}

/// An event about an entry of the watched directory tells its name behind the directory, and one
/// about something further below tells it only where all that is below is watched. The directory
/// itself is told as such.
pub proof fn law_stream_events_tell_their_entry(
    root: Seq<u8>,
    name: Seq<u8>,
    recursive: bool,
    flags: u32,
)
    requires
        root.len() + name.len() + 1 < usize::MAX,
        root != seq![47u8],
        flags & 0x20u32 == 0,
    ensures
        ({
            let path = root + seq![47u8] + name;
            let told = change(root, recursive, path, flags);
            &&& recursive || !name.contains(47) ==> told is Some && told->0 is Child
                && told->0->from == root.len() + 1 && path.skip(told->0->from as int) == name
            &&& !recursive && name.contains(47) ==> told is None
            &&& change(root, recursive, root, flags) is Some && change(
                root,
                recursive,
                root,
                flags,
            )->0 is Own
        }),
{
    let path = root + seq![47u8] + name;
    assert(path.take(root.len() as int) =~= root);
    assert(root.take(root.len() as int) =~= root);
    assert(path.skip(root.len() as int + 1) =~= name);
    if is_slash(root) {
        assert(root =~= seq![47u8]);
    }
}

/// Nothing is told of what is not below the watched directory, though its name starts alike. A
/// directory that moved tells so whatever else is told, and dropped events are told first.
pub proof fn law_stream_events_are_about_their_root(
    root: Seq<u8>,
    recursive: bool,
    path: Seq<u8>,
    flags: u32,
)
    ensures
        ({
            let all = reports(root, recursive, path, flags);
            let dropped = flags & 0x7u32 != 0;
            &&& flags & 0x20u32 != 0 ==> change(root, recursive, path, flags) == Some(
                StreamReport::Own(WatchKind::Rename),
            )
            &&& flags & 0x20u32 == 0 && (path.len() < root.len() || path.take(root.len() as int)
                != root) ==> change(root, recursive, path, flags) is None
            &&& flags & 0x20u32 == 0 && path.len() > root.len() && root != seq![47u8]
                && path[root.len() as int] != 47 ==> change(root, recursive, path, flags) is None
            &&& dropped ==> all.len() > 0 && all[0] is Lost
            &&& !dropped ==> !all.contains(StreamReport::Lost)
            &&& all.len() == (if dropped {
                1int
            } else {
                0
            }) + (if change(root, recursive, path, flags) is Some {
                1int
            } else {
                0
            })
            &&& change(root, recursive, path, flags) is Some ==> all.last() == change(
                root,
                recursive,
                path,
                flags,
            )->0
        }),
{
    if is_slash(root) {
        assert(root =~= seq![47u8]);
    }
}

/// Something that was created, removed or renamed tells that a name came or went. Anything else
/// tells changed content where it is a file, or where it says that it was changed.
pub proof fn law_stream_flags_tell_what_changed(flags: u32)
    ensures
        ({
            let named = flags & 0x100u32 != 0 || flags & 0x200u32 != 0 || flags & 0x800u32 != 0;
            let changed = flags & 0xf400u32 != 0;
            let directory = flags & 0x20000u32 != 0;
            kind_with(flags) is Change <==> !named && (changed || !directory)
        }),
{
    assert((flags & 0xb00u32 == 0) == !(flags & 0x100u32 != 0 || flags & 0x200u32 != 0 || flags
        & 0x800u32 != 0)) by (bit_vector);
}

/// A watched directory is reported under the last component of its path, and the root as a slash.
pub proof fn law_root_is_named_by_its_path(root: Seq<u8>)
    ensures
        (forall|k: int| 0 <= k < root.len() ==> #[trigger] root[k] == 47) ==> spec_root_name(root)
            == seq![47u8],
        !(forall|k: int| 0 <= k < root.len() ==> #[trigger] root[k] == 47) ==> spec_root_name(root)
            == final_name(root),
{
    lemma_trimmed(root);
}

} // verus!
