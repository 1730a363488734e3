//! The life of one directory stream: the calls that start it and the calls that end it.
use crate::types::{invalid, unsupported, Error, ErrorKind};
use crate::unix::fsevents::{root_name, spec_root_name};
use vstd::prelude::*;

verus! {

/// A stream tells of what happens from now on.
pub const SINCE_NOW: u64 = 0xffff_ffff_ffff_ffff;

/// A stream tells without delay, of moves of its root too, and file by file.
pub const FLAGS: u32 = 0x16;

/// A call on the way to a running stream.
#[derive(Clone, Copy, Debug, PartialEq, Eq, Structural)]
pub enum Call {
    /// Make the callback queue of the loop.
    Queue,
    /// Hold that queue on behalf of the stream.
    Retain,
    /// Make a text of the root.
    Path,
    /// Make a list of that one text.
    Paths,
    Create { since: u64, flags: u32 },
    /// Have the stream call back on the queue.
    Schedule,
    Start,
}

/// A call on the way to a freed stream.
#[derive(Clone, Copy, Debug, PartialEq, Eq, Structural)]
pub enum Close {
    Stop,
    Invalidate,
    /// Wait until no callback runs on the queue.
    Drain,
    LeaveQueue,
    FreeStream,
    FreePaths,
    FreePath,
}

/// What a stream holds.
#[derive(Clone, Copy, Debug, PartialEq, Eq, Structural)]
pub struct Made {
    pub queue: bool,
    pub path: bool,
    pub paths: bool,
    pub stream: bool,
    pub scheduled: bool,
}

impl Made {
    /// Nothing is held.
    pub open spec fn nothing() -> Made {
        Made { queue: false, path: false, paths: false, stream: false, scheduled: false }
    }

    /// Everything that a running stream needs is held.
    pub open spec fn everything() -> Made {
        Made { queue: true, path: true, paths: true, stream: true, scheduled: true }
    }
}

impl Default for Made {
    fn default() -> (made: Made)
        ensures
            made == Made::nothing(),
    {
        Made { queue: false, path: false, paths: false, stream: false, scheduled: false }
    }
}

/// What is held when a call is due.
pub open spec fn held_at(call: Call) -> Made {
    match call {
        Call::Queue | Call::Retain => Made::nothing(),
        Call::Path => Made { queue: true, ..Made::nothing() },
        Call::Paths => Made { queue: true, path: true, ..Made::nothing() },
        Call::Create { .. } => Made { stream: false, scheduled: false, ..Made::everything() },
        Call::Schedule => Made { scheduled: false, ..Made::everything() },
        Call::Start => Made::everything(),
    }
}

/// The call after one that succeeded.
pub open spec fn after(call: Call) -> Option<Call> {
    match call {
        Call::Queue => Some(Call::Retain),
        Call::Retain => Some(Call::Path),
        Call::Path => Some(Call::Paths),
        Call::Paths => Some(Call::Create { since: SINCE_NOW, flags: FLAGS }),
        Call::Create { .. } => Some(Call::Schedule),
        Call::Schedule => Some(Call::Start),
        Call::Start => None,
    }
}

/// What a call that failed means. Holding a queue and scheduling cannot fail.
pub open spec fn failure(call: Call) -> Option<ErrorKind> {
    match call {
        Call::Queue | Call::Paths => Some(ErrorKind::ResourceLimit),
        Call::Path => Some(ErrorKind::InvalidInput),
        Call::Create { .. } | Call::Start => Some(ErrorKind::Other),
        Call::Retain | Call::Schedule => None,
    }
}

/// The name of a stream on `root`, the resolved path. The framework has to be there, and a
/// path holds no zero byte.
pub fn begin(loaded: bool, root: Result<Vec<u8>, Error>) -> (name: Result<Vec<u8>, Error>)
    ensures
        !loaded ==> name == Err::<Vec<u8>, Error>(Error::plain(ErrorKind::Unsupported)),
        loaded ==> match root {
            Err(e) => name == Err::<Vec<u8>, Error>(e),
            Ok(path) => if path@.contains(0u8) {
                name == Err::<Vec<u8>, Error>(Error::plain(ErrorKind::InvalidInput))
            } else {
                name is Ok && name->Ok_0@ == spec_root_name(path@)
            },
        },
{
    if !loaded {
        return Err(unsupported());
    }
    let path = match root {
        Err(e) => {
            return Err(e);
        },
        Ok(path) => path,
    };
    let mut i: usize = 0;
    while i < path.len()
        invariant
            loaded,
            root == Ok::<Vec<u8>, Error>(path),
            i <= path@.len(),
            forall|k: int| 0 <= k < i ==> path@[k] != 0,
        decreases path@.len() - i,
    {
        if path[i] == 0 {
            return Err(invalid());
        }
        i = i + 1;
    }
    Ok(root_name(&path))
}

/// The first call; `queue` tells that the loop has its queue already.
pub fn first(queue: bool) -> (call: Call)
    ensures
        call == (if queue {
            Call::Retain
        } else {
            Call::Queue
        }),
{
    if queue {
        Call::Retain
    } else {
        Call::Queue
    }
}

/// Go on after `call`, which succeeded (`ok`) or not; yields the next call, or none when the
/// stream runs. A stream that is scheduled has to be stopped though it did not start.
pub fn step(made: &mut Made, call: Call, ok: bool) -> (next: Result<Option<Call>, Error>)
    requires
        *old(made) == held_at(call),
        failure(call) is None ==> ok,
    ensures
        ok ==> next == Ok::<Option<Call>, Error>(after(call)),
        ok ==> *final(made) == (match after(call) {
            Some(following) => held_at(following),
            None => Made::everything(),
        }),
        !ok ==> next == Err::<Option<Call>, Error>(Error::plain(failure(call)->0)),
        !ok ==> *final(made) == *old(made),
{
    match call {
        Call::Queue => if ok {
            Ok(Some(Call::Retain))
        } else {
            Err(Error::new(ErrorKind::ResourceLimit))
        },
        Call::Retain => {
            made.queue = true;
            Ok(Some(Call::Path))
        },
        Call::Path => if ok {
            made.path = true;
            Ok(Some(Call::Paths))
        } else {
            Err(invalid())
        },
        Call::Paths => if ok {
            made.paths = true;
            Ok(Some(Call::Create { since: SINCE_NOW, flags: FLAGS }))
        } else {
            Err(Error::new(ErrorKind::ResourceLimit))
        },
        Call::Create { .. } => if ok {
            made.stream = true;
            Ok(Some(Call::Schedule))
        } else {
            Err(Error::new(ErrorKind::Other))
        },
        Call::Schedule => {
            made.scheduled = true;
            Ok(Some(Call::Start))
        },
        Call::Start => if ok {
            Ok(None)
        } else {
            Err(Error::new(ErrorKind::Other))
        },
    }
}

/// These calls, where they are due.
pub open spec fn when(due: bool, calls: Seq<Close>) -> Seq<Close> {
    if due {
        calls
    } else {
        Seq::empty()
    }
}

/// The calls that free what is held.
pub open spec fn closing(made: Made) -> Seq<Close> {
    when(made.scheduled, seq![Close::Stop, Close::Invalidate]) + when(
        made.queue,
        seq![Close::Drain, Close::LeaveQueue],
    ) + when(made.stream, seq![Close::FreeStream]) + when(made.paths, seq![Close::FreePaths])
        + when(made.path, seq![Close::FreePath])
}

/// Free what a stream holds. No callback runs once the queue is drained.
pub fn close(made: Made) -> (calls: Vec<Close>)
    ensures
        calls@ == closing(made),
{
    let mut calls: Vec<Close> = Vec::new();
    if made.scheduled {
        calls.push(Close::Stop);
        calls.push(Close::Invalidate);
    }
    if made.queue {
        calls.push(Close::Drain);
        calls.push(Close::LeaveQueue);
    }
    if made.stream {
        calls.push(Close::FreeStream);
    }
    if made.paths {
        calls.push(Close::FreePaths);
    }
    if made.path {
        calls.push(Close::FreePath);
    }
    assert(calls@ =~= closing(made));
    calls
}


/// Whether a call is due once for what is held.
pub open spec fn owed(made: Made, call: Close) -> bool {
    match call {
        Close::Stop | Close::Invalidate => made.scheduled,
        Close::Drain | Close::LeaveQueue => made.queue,
        Close::FreeStream => made.stream,
        Close::FreePaths => made.paths,
        Close::FreePath => made.path,
    }
}

/// Whatever call failed, ending a stream frees each thing it holds once and nothing else.
pub proof fn law_each_thing_is_freed_once(made: Made, call: Close)
    ensures
        owed(made, call) == closing(made).contains(call),
        closing(made).no_duplicates(),
{
    let calls = closing(made);
    if owed(made, call) {
        let stop = if made.scheduled { 2int } else { 0 };
        let queue = stop + if made.queue { 2int } else { 0 };
        let stream = queue + if made.stream { 1int } else { 0 };
        let paths = stream + if made.paths { 1int } else { 0 };
        let at = match call {
            Close::Stop => 0,
            Close::Invalidate => 1,
            Close::Drain => stop,
            Close::LeaveQueue => stop + 1,
            Close::FreeStream => queue,
            Close::FreePaths => stream,
            Close::FreePath => paths,
        };
        assert(calls[at] == call);
    }
}

/// A scheduled stream is stopped, and the callbacks that run have ended, before the stream
/// is freed: no callback finds it gone.
pub proof fn law_no_callback_outlives_the_stream(call: Call, i: int)
    requires
        0 <= i < closing(held_at(call)).len(),
        closing(held_at(call))[i] == Close::FreeStream,
    ensures
        closing(held_at(call)).take(i).contains(Close::Drain),
        held_at(call).scheduled ==> closing(held_at(call)).take(i) == seq![
            Close::Stop,
            Close::Invalidate,
            Close::Drain,
            Close::LeaveQueue,
        ],
{
    let before = closing(held_at(call)).take(i);
    if held_at(call).scheduled {
        assert(before[2] == Close::Drain);
    } else {
        assert(before[0] == Close::Drain);
    }
}

/// How far a call is on the way to a running stream.
pub open spec fn rank(call: Call) -> int {
    match call {
        Call::Queue => 0,
        Call::Retain => 1,
        Call::Path => 2,
        Call::Paths => 3,
        Call::Create { .. } => 4,
        Call::Schedule => 5,
        Call::Start => 6,
    }
}

/// A stream comes about call by call, none left out: its queue, its path, the stream itself, which
/// tells of what happens from now on, without delay, file by file and of its root too; then it is
/// scheduled and started. Each call adds what it makes and nothing else.
pub proof fn law_stream_starts_step_by_step(call: Call)
    ensures
        after(call) is None <==> call is Start,
        after(call) is Some ==> {
            let next = after(call)->0;
            let (before, now) = (held_at(call), held_at(next));
            &&& rank(next) == rank(call) + 1
            &&& next is Create ==> next == (Call::Create {
                since: 0xffff_ffff_ffff_ffff,
                flags: 0x16,
            })
            &&& now.queue <==> before.queue || call is Retain
            &&& now.path <==> before.path || call is Path
            &&& now.paths <==> before.paths || call is Paths
            &&& now.stream <==> before.stream || call is Create
            &&& now.scheduled <==> before.scheduled || call is Schedule
        },
        !held_at(Call::Queue).queue && !held_at(Call::Queue).path && !held_at(Call::Queue).paths
            && !held_at(Call::Queue).stream && !held_at(Call::Queue).scheduled,
        failure(call) is None <==> call is Retain || call is Schedule,
        failure(call) == Some(ErrorKind::InvalidInput) <==> call is Path,
        failure(call) == Some(ErrorKind::ResourceLimit) <==> call is Queue || call is Paths,
        failure(call) == Some(ErrorKind::Other) <==> call is Create || call is Start,
{
}

} // verus!
