//! File-system requests: which call comes first, what each reply leads to, and what the
//! request yields in the end.
use crate::types::{unsupported, Error, ErrorKind};
use crate::wasi::errors::{error, of_code, EBADF, ENOENT};
use crate::wasi::paths::{place_of, resolve, Place, DOT};
use vstd::prelude::*;

verus! {

/// Bytes that a copy moves at a time.
pub const CHUNK: usize = 16384;

/// What a file is.
#[derive(Clone, Copy, Debug, PartialEq, Eq, Structural)]
pub enum FileType {
    Unknown,
    File,
    Directory,
    Symlink,
    BlockDevice,
    CharDevice,
    Fifo,
    Socket,
}

/// How a file is opened.
#[derive(Clone, Copy, Debug, PartialEq, Eq, Structural)]
pub struct FileOptions {
    pub read: bool,
    pub write: bool,
    pub append: bool,
    pub truncate: bool,
    pub create: bool,
    pub exclusive: bool,
    pub follow_symlinks: bool,
    pub sync: bool,
    pub data_sync: bool,
}

impl FileOptions {
    /// An existing file, for reading.
    pub open spec fn reading() -> FileOptions {
        FileOptions {
            read: true,
            write: false,
            append: false,
            truncate: false,
            create: false,
            exclusive: false,
            follow_symlinks: true,
            sync: false,
            data_sync: false,
        }
    }
}

impl Default for FileOptions {
    /// An existing file, for reading.
    fn default() -> (options: Self)
        ensures
            options == FileOptions::reading(),
    {
        FileOptions {
            read: true,
            write: false,
            append: false,
            truncate: false,
            create: false,
            exclusive: false,
            follow_symlinks: true,
            sync: false,
            data_sync: false,
        }
    }
}

/// One bit.
pub open spec fn bit(on: bool, value: u8) -> u8 {
    if on {
        value
    } else {
        0
    }
}

/// Create, directory, exclusive and truncate, as the interfaces number them. An exclusive
/// file is a new one.
pub open spec fn open_bits(o: FileOptions, directory: bool) -> u8 {
    (bit(o.create || o.exclusive, 1) + bit(directory, 2) + bit(o.exclusive, 4) + bit(
        o.truncate,
        8,
    )) as u8
}

/// Read, write and the two kinds of integrity, as the interfaces number them. Appending is
/// writing.
pub open spec fn access_bits(o: FileOptions) -> u8 {
    (bit(o.read, 1) + bit(o.write || o.append, 2) + bit(o.sync, 4) + bit(o.data_sync, 8)) as u8
}

fn flag(on: bool, value: u8) -> (b: u8)
    ensures
        b == bit(on, value),
{
    if on {
        value
    } else {
        0
    }
}

/// The flags to open with. Without any access there is nothing to open for.
pub fn open_flags(o: FileOptions, directory: bool) -> (flags: Result<(u8, u8), Error>)
    ensures
        match flags {
            Ok((open, access)) => open == open_bits(o, directory) && access == access_bits(o)
                && access != 0,
            Err(e) => access_bits(o) == 0 && e == Error::plain(ErrorKind::InvalidInput),
        },
{
    let open: u8 = flag(o.create || o.exclusive, 1) + flag(directory, 2) + flag(o.exclusive, 4)
        + flag(o.truncate, 8);
    let access: u8 = flag(o.read, 1) + flag(o.write || o.append, 2) + flag(o.sync, 4) + flag(
        o.data_sync,
        8,
    );
    if access == 0 {
        return Err(Error::new(ErrorKind::InvalidInput));
    }
    Ok((open, access))
}

/// A point in time of a file.
#[derive(Clone, Copy, Debug, PartialEq, Eq, Structural)]
pub struct FileTime {
    pub seconds: i64,
    pub nanoseconds: u32,
}

/// What becomes of a time of a file.
#[derive(Clone, Copy, Debug, PartialEq, Eq, Structural)]
pub enum TimeChange {
    Keep,
    Now,
    At(FileTime),
}

/// A request. Paths and names are text without a terminator; data stays with the host.
#[derive(Debug)]
pub enum FsRequest {
    Open { path: Vec<u8>, options: FileOptions },
    OpenDir { path: Vec<u8> },
    Close,
    Read { pooled: bool, offset: Option<u64> },
    Write { offset: Option<u64> },
    Sync { data_only: bool },
    Truncate { size: u64 },
    Stat { path: Vec<u8>, follow: bool },
    Fstat,
    ReadDir { pooled: bool },
    Mkdir { path: Vec<u8> },
    Rmdir { path: Vec<u8> },
    Unlink { path: Vec<u8> },
    Rename { path: Vec<u8>, new_path: Vec<u8> },
    Link { path: Vec<u8>, new_path: Vec<u8> },
    /// A link at `path`; what it points to stays with the host.
    Symlink { path: Vec<u8> },
    ReadLink { path: Vec<u8>, pooled: bool },
    /// Whether a path is there; `existence` tells that nothing else is asked.
    Access { path: Vec<u8>, existence: bool },
    SetTimesAt { path: Vec<u8>, follow: bool, accessed: TimeChange, modified: TimeChange },
    SetTimes { accessed: TimeChange, modified: TimeChange },
    CopyFile { path: Vec<u8>, new_path: Vec<u8>, exclusive: bool },
    RealPath,
    Chmod,
    Chown,
}

/// The backends can serve it: there is no interface for owners, modes or real paths.
pub open spec fn servable(request: FsRequest) -> bool {
    match request {
        FsRequest::RealPath | FsRequest::Chmod | FsRequest::Chown => false,
        FsRequest::Access { existence, .. } => existence,
        _ => true,
    }
}

/// It makes the file or directory that its handle stands for.
pub open spec fn opening(request: FsRequest) -> bool {
    request is Open || request is OpenDir
}

/// It speaks of what its handle stands for, not of a path.
pub open spec fn by_handle(request: FsRequest) -> bool {
    match request {
        FsRequest::Close | FsRequest::Read { .. } | FsRequest::Write { .. } => true,
        FsRequest::Sync { .. } | FsRequest::Truncate { .. } | FsRequest::Fstat => true,
        FsRequest::ReadDir { .. } | FsRequest::SetTimes { .. } => true,
        _ => false,
    }
}

/// It needs a buffer of the pool.
pub open spec fn needs_buffer(request: FsRequest) -> bool {
    match request {
        FsRequest::Read { pooled, .. } => pooled,
        FsRequest::ReadDir { pooled } => pooled,
        FsRequest::ReadLink { pooled, .. } => pooled,
        _ => false,
    }
}

impl FsRequest {
    /// Whether the backends can serve it.
    pub fn supported(&self) -> (yes: bool)
        ensures
            yes == servable(*self),
    {
        match self {
            FsRequest::RealPath | FsRequest::Chmod | FsRequest::Chown => false,
            FsRequest::Access { existence, .. } => *existence,
            _ => true,
        }
    }

    /// Whether it makes the file or directory that its handle stands for.
    pub fn opens(&self) -> (yes: bool)
        ensures
            yes == opening(*self),
    {
        match self {
            FsRequest::Open { .. } | FsRequest::OpenDir { .. } => true,
            _ => false,
        }
    }

    /// Whether the granted directories have to be known before it runs.
    pub fn needs_preopens(&self) -> (yes: bool)
        ensures
            yes == !by_handle(*self),
    {
        match self {
            FsRequest::Close | FsRequest::Read { .. } | FsRequest::Write { .. } => false,
            FsRequest::Sync { .. } | FsRequest::Truncate { .. } | FsRequest::Fstat => false,
            FsRequest::ReadDir { .. } | FsRequest::SetTimes { .. } => false,
            _ => true,
        }
    }

    /// Whether it needs a buffer of the pool.
    pub fn pooled(&self) -> (yes: bool)
        ensures
            yes == needs_buffer(*self),
    {
        match self {
            FsRequest::Read { pooled, .. } => *pooled,
            FsRequest::ReadDir { pooled } => *pooled,
            FsRequest::ReadLink { pooled, .. } => *pooled,
            _ => false,
        }
    }
}

/// An entry of a directory that was read and not stored yet.
#[derive(Clone, Copy, Debug, PartialEq, Eq, Structural)]
pub struct Entry {
    pub kind: FileType,
    /// The directory itself or its parent.
    pub special: bool,
}

/// `.` and `..` stand for directories that the reader knows.
pub open spec fn is_special(name: Seq<u8>) -> bool {
    name == seq![DOT] || name == seq![DOT, DOT]
}

/// Whether a name is that of the directory itself or of its parent.
pub fn special(name: &Vec<u8>) -> (yes: bool)
    ensures
        yes == is_special(name@),
{
    if name.len() == 1 && name[0] == DOT {
        assert(name@ =~= seq![DOT]);
        return true;
    }
    if name.len() == 2 && name[0] == DOT && name[1] == DOT {
        assert(name@ =~= seq![DOT, DOT]);
        return true;
    }
    proof {
        if name@ == seq![DOT] {
            assert(name@[0] == DOT);
        }
        if name@ == seq![DOT, DOT] {
            assert(name@[0] == DOT && name@[1] == DOT);
        }
    }
    false
}

/// What a handle stands for.
#[derive(Clone, Copy, Debug, PartialEq, Eq, Structural)]
pub enum Object {
    File { cursor: u64, append: bool },
    /// `listed` tells that reading has begun, `done` that nothing more comes.
    Dir { listed: bool, pending: Option<Entry>, done: bool },
    Closed,
}

/// A call of the host. Places speak of the granted directories; data and names stay with
/// the host.
#[derive(Clone, Copy, Debug, PartialEq, Eq, Structural)]
pub enum Call {
    OpenAt { place: Place, options: FileOptions, directory: bool },
    Read { at: u64 },
    Write { at: u64 },
    Append,
    Sync { data_only: bool },
    SetSize { size: u64 },
    StatAt { place: Place, follow: bool },
    Stat,
    /// Begin to read the directory.
    Entries,
    NextEntry,
    /// Store the pending entry in the output, behind `used` bytes.
    Put { used: usize },
    CreateDirectoryAt { place: Place },
    RemoveDirectoryAt { place: Place },
    UnlinkAt { place: Place },
    RenameAt { place: Place, new_place: Place },
    LinkAt { place: Place, new_place: Place },
    SymlinkAt { place: Place },
    ReadLinkAt { place: Place },
    SetTimesAt { place: Place, follow: bool, accessed: TimeChange, modified: TimeChange },
    SetTimes { accessed: TimeChange, modified: TimeChange },
    /// Read a chunk of the source.
    CopyRead { at: u64 },
    /// Write the chunk from byte `from` to byte `to`.
    CopyWrite { at: u64, from: usize, to: usize },
}

/// Where a request that takes several calls stands.
#[derive(Clone, Copy, Debug, PartialEq, Eq, Structural)]
pub enum Phase {
    /// Its only call.
    Single,
    Listing { used: usize },
    CopySource,
    CopyTarget,
    CopyRead { offset: u64 },
    CopyWrite { offset: u64, n: usize, written: usize, eof: bool },
}

/// What a call returned.
#[derive(Clone, Copy, Debug, PartialEq, Eq, Structural)]
pub enum Reply {
    Failed(Error),
    Done,
    /// Bytes moved, and whether the file ended.
    Moved { n: usize, eof: bool },
    /// The next entry.
    Entry(Option<Entry>),
    /// The entry was stored, up to here; or it did not fit.
    Stored(Option<usize>),
    /// A link of so many bytes, with room for `room`.
    Link { len: usize, room: usize },
}

/// What a request yields.
#[derive(Clone, Copy, Debug, PartialEq, Eq, Structural)]
pub enum FsOutput {
    Opened,
    Done,
    Read(usize),
    Wrote(usize),
    /// Metadata that the host holds.
    Metadata,
    Directory { n: usize, eof: bool },
    Bytes(usize),
}

/// What comes next.
#[derive(Clone, Copy, Debug, PartialEq, Eq)]
pub enum Next {
    Call { phase: Phase, call: Call },
    End(Result<FsOutput, Error>),
}

/// What comes next, and what the handle stands for by then.
#[derive(Clone, Copy, Debug, PartialEq, Eq)]
pub struct Step {
    pub next: Next,
    pub object: Option<Object>,
}

/// The request ends and changes nothing.
pub open spec fn ends(object: Option<Object>, result: Result<FsOutput, Error>) -> Step {
    Step { next: Next::End(result), object }
}

/// One call decides.
pub open spec fn calls(object: Option<Object>, call: Call) -> Step {
    Step { next: Next::Call { phase: Phase::Single, call }, object }
}

/// A call on a resolved path; a path outside every granted directory is not found.
pub open spec fn calls_at(
    object: Option<Object>,
    place: Option<Place>,
    call: spec_fn(Place) -> Call,
) -> Step {
    match place {
        Some(p) => calls(object, call(p)),
        None => ends(object, Err(of_code(ENOENT))),
    }
}

/// A call on two resolved paths.
pub open spec fn calls_at_both(
    object: Option<Object>,
    place: Option<Place>,
    new_place: Option<Place>,
    call: spec_fn(Place, Place) -> Call,
) -> Step {
    match (place, new_place) {
        (Some(p), Some(q)) => calls(object, call(p, q)),
        _ => ends(object, Err(of_code(ENOENT))),
    }
}

/// The handle stands for something open.
pub open spec fn is_open(object: Option<Object>) -> bool {
    match object {
        Some(Object::File { .. }) => true,
        Some(Object::Dir { .. }) => true,
        _ => false,
    }
}

/// A call on what is open.
pub open spec fn calls_open(object: Option<Object>, call: Call) -> Step {
    if is_open(object) {
        calls(object, call)
    } else {
        ends(object, Err(of_code(EBADF)))
    }
}

/// Where a read or write without an offset goes on.
pub open spec fn position(offset: Option<u64>, cursor: u64) -> u64 {
    match offset {
        Some(at) => at,
        None => cursor,
    }
}

/// Reading a directory goes on: an entry that waits is stored, unless it is the directory
/// itself or its parent; else another is asked for.
pub open spec fn listing(listed: bool, pending: Option<Entry>, done: bool, used: usize) -> Step {
    let fetch = Some(Object::Dir { listed, pending: None, done });
    let store = Some(Object::Dir { listed, pending, done });
    if pending is Some && !pending->0.special {
        Step {
            next: Next::Call { phase: Phase::Listing { used }, call: Call::Put { used } },
            object: store,
        }
    } else if done {
        ends(fetch, Ok(FsOutput::Directory { n: used, eof: true }))
    } else {
        Step {
            next: Next::Call {
                phase: Phase::Listing { used },
                call: if listed {
                    Call::NextEntry
                } else {
                    Call::Entries
                },
            },
            object: fetch,
        }
    }
}

/// How a copy opens what it writes: a new file, or one that it empties.
pub open spec fn copy_target(exclusive: bool) -> FileOptions {
    FileOptions {
        read: false,
        write: true,
        create: true,
        exclusive,
        truncate: !exclusive,
        ..FileOptions::reading()
    }
}

/// The first step of a request.
pub open spec fn started(names: Seq<Vec<u8>>, request: FsRequest, object: Option<Object>) -> Step {
    match request {
        FsRequest::Open { path, options } => calls_at(
            object,
            place_of(names, path@),
            |place: Place| Call::OpenAt { place, options, directory: false },
        ),
        FsRequest::OpenDir { path } => calls_at(
            object,
            place_of(names, path@),
            |place: Place| Call::OpenAt {
                place,
                options: FileOptions::reading(),
                directory: true,
            },
        ),
        FsRequest::Close => if is_open(object) {
            ends(Some(Object::Closed), Ok(FsOutput::Done))
        } else {
            ends(object, Err(of_code(EBADF)))
        },
        FsRequest::Read { offset, .. } => match object {
            Some(Object::File { cursor, .. }) => calls(
                object,
                Call::Read { at: position(offset, cursor) },
            ),
            _ => ends(object, Err(of_code(EBADF))),
        },
        FsRequest::Write { offset } => match object {
            Some(Object::File { cursor, append }) => calls(
                object,
                if append {
                    Call::Append
                } else {
                    Call::Write { at: position(offset, cursor) }
                },
            ),
            _ => ends(object, Err(of_code(EBADF))),
        },
        FsRequest::Sync { data_only } => calls_open(object, Call::Sync { data_only }),
        FsRequest::Truncate { size } => calls_open(object, Call::SetSize { size }),
        FsRequest::Stat { path, follow } => calls_at(
            object,
            place_of(names, path@),
            |place: Place| Call::StatAt { place, follow },
        ),
        FsRequest::Fstat => calls_open(object, Call::Stat),
        FsRequest::ReadDir { .. } => match object {
            Some(Object::Dir { listed, pending, done }) => listing(listed, pending, done, 0),
            _ => ends(object, Err(of_code(EBADF))),
        },
        FsRequest::Mkdir { path } => calls_at(
            object,
            place_of(names, path@),
            |place: Place| Call::CreateDirectoryAt { place },
        ),
        FsRequest::Rmdir { path } => calls_at(
            object,
            place_of(names, path@),
            |place: Place| Call::RemoveDirectoryAt { place },
        ),
        FsRequest::Unlink { path } => calls_at(
            object,
            place_of(names, path@),
            |place: Place| Call::UnlinkAt { place },
        ),
        FsRequest::Rename { path, new_path } => calls_at_both(
            object,
            place_of(names, path@),
            place_of(names, new_path@),
            |place: Place, new_place: Place| Call::RenameAt { place, new_place },
        ),
        FsRequest::Link { path, new_path } => calls_at_both(
            object,
            place_of(names, path@),
            place_of(names, new_path@),
            |place: Place, new_place: Place| Call::LinkAt { place, new_place },
        ),
        FsRequest::Symlink { path } => calls_at(
            object,
            place_of(names, path@),
            |place: Place| Call::SymlinkAt { place },
        ),
        FsRequest::ReadLink { path, .. } => calls_at(
            object,
            place_of(names, path@),
            |place: Place| Call::ReadLinkAt { place },
        ),
        FsRequest::Access { path, .. } => calls_at(
            object,
            place_of(names, path@),
            |place: Place| Call::StatAt { place, follow: true },
        ),
        FsRequest::SetTimesAt { path, follow, accessed, modified } => calls_at(
            object,
            place_of(names, path@),
            |place: Place| Call::SetTimesAt { place, follow, accessed, modified },
        ),
        FsRequest::SetTimes { accessed, modified } => calls_open(
            object,
            Call::SetTimes { accessed, modified },
        ),
        FsRequest::CopyFile { path, .. } => match place_of(names, path@) {
            Some(place) => Step {
                next: Next::Call {
                    phase: Phase::CopySource,
                    call: Call::OpenAt { place, options: FileOptions::reading(), directory: false },
                },
                object,
            },
            None => ends(object, Err(of_code(ENOENT))),
        },
        FsRequest::RealPath | FsRequest::Chmod | FsRequest::Chown => ends(
            object,
            Err(Error::plain(ErrorKind::Unsupported)),
        ),
    }
}

/// A reply that the call can have.
pub open spec fn answers(call: Call, reply: Reply) -> bool {
    match (call, reply) {
        (_, Reply::Failed(_)) => true,
        (Call::Read { .. }, Reply::Moved { .. }) => true,
        (Call::Write { .. }, Reply::Moved { .. }) => true,
        (Call::Append, Reply::Moved { .. }) => true,
        (Call::NextEntry, Reply::Entry(_)) => true,
        (Call::Put { .. }, Reply::Stored(_)) => true,
        (Call::ReadLinkAt { .. }, Reply::Link { .. }) => true,
        (Call::CopyRead { at }, Reply::Moved { n, .. }) => n <= CHUNK && at + n <= u64::MAX,
        (Call::CopyWrite { from, to, .. }, Reply::Moved { n, .. }) => n <= to - from,
        (Call::Read { .. }, _) | (Call::Write { .. }, _) | (Call::Append, _) | (
            Call::NextEntry,
            _,
        ) | (Call::Put { .. }, _) | (Call::ReadLinkAt { .. }, _) | (Call::CopyRead { .. }, _) | (
            Call::CopyWrite { .. },
            _,
        ) => false,
        (_, Reply::Done) => true,
        _ => false,
    }
}

/// A call that a request makes in this phase, on this object.
pub open spec fn makes(request: FsRequest, object: Option<Object>, phase: Phase, call: Call) -> bool {
    match phase {
        Phase::Single => match request {
            FsRequest::Read { .. } => call is Read && object is Some && object->0 is File,
            FsRequest::Write { .. } => object is Some && object->0 is File && (if object->0->append {
                call is Append
            } else {
                call is Write
            }),
            FsRequest::ReadLink { .. } => call is ReadLinkAt,
            FsRequest::ReadDir { .. } | FsRequest::CopyFile { .. } => false,
            _ => !(call is Read || call is Write || call is Append || call is NextEntry || call
                is Put || call is ReadLinkAt || call is CopyRead || call is CopyWrite),
        },
        Phase::Listing { used } => {
            &&& request is ReadDir
            &&& object is Some && object->0 is Dir
            &&& call is Entries || call is NextEntry || call == (Call::Put { used })
        },
        Phase::CopySource => request is CopyFile && call is OpenAt,
        Phase::CopyTarget => request is CopyFile && call is OpenAt,
        Phase::CopyRead { offset } => request is CopyFile && call == (Call::CopyRead {
            at: offset,
        }),
        Phase::CopyWrite { offset, n, written, .. } => {
            &&& request is CopyFile
            &&& written < n <= CHUNK
            &&& offset + n <= u64::MAX
            &&& call == (Call::CopyWrite { at: (offset + written) as u64, from: written, to: n })
        },
    }
}

/// The cursor behind so many bytes.
pub open spec fn moved(object: Option<Object>, offset: Option<u64>, n: int) -> Option<Object> {
    match object {
        Some(Object::File { cursor, append }) => if offset is None {
            Some(Object::File { cursor: (cursor + n) as u64, append })
        } else {
            object
        },
        _ => object,
    }
}

/// A copy goes on reading at `offset`.
pub open spec fn copy_read(object: Option<Object>, offset: u64) -> Step {
    Step {
        next: Next::Call {
            phase: Phase::CopyRead { offset },
            call: Call::CopyRead { at: offset },
        },
        object,
    }
}

/// A copy goes on writing its chunk, or behind it.
pub open spec fn copy_write(
    object: Option<Object>,
    offset: u64,
    n: usize,
    written: usize,
    eof: bool,
) -> Step {
    if written < n {
        Step {
            next: Next::Call {
                phase: Phase::CopyWrite { offset, n, written, eof },
                call: Call::CopyWrite {
                    at: (offset + written) as u64,
                    from: written,
                    to: n,
                },
            },
            object,
        }
    } else if n == 0 || eof {
        ends(object, Ok(FsOutput::Done))
    } else {
        copy_read(object, (offset + n) as u64)
    }
}

/// What a request yields when its only call is done.
pub open spec fn concluded(request: FsRequest, object: Option<Object>, reply: Reply) -> Step {
    match request {
        FsRequest::Open { options, .. } => ends(
            Some(Object::File { cursor: 0, append: options.append }),
            Ok(FsOutput::Opened),
        ),
        FsRequest::OpenDir { .. } => ends(
            Some(Object::Dir { listed: false, pending: None, done: false }),
            Ok(FsOutput::Opened),
        ),
        FsRequest::Read { offset, .. } => ends(
            moved(object, offset, reply->n as int),
            Ok(FsOutput::Read(reply->n)),
        ),
        FsRequest::Write { offset } => ends(
            if object->0->append {
                object
            } else {
                moved(object, offset, reply->n as int)
            },
            Ok(FsOutput::Wrote(reply->n)),
        ),
        FsRequest::Stat { .. } | FsRequest::Fstat => ends(object, Ok(FsOutput::Metadata)),
        FsRequest::ReadLink { .. } => ends(
            object,
            if reply->len > reply->room {
                Err(Error::plain(ErrorKind::ResourceLimit))
            } else {
                Ok(FsOutput::Bytes(reply->len))
            },
        ),
        _ => ends(object, Ok(FsOutput::Done)),
    }
}

/// The step after a reply.
pub open spec fn continued(
    names: Seq<Vec<u8>>,
    request: FsRequest,
    object: Option<Object>,
    phase: Phase,
    call: Call,
    reply: Reply,
) -> Step {
    match (phase, reply) {
        (_, Reply::Failed(e)) => ends(object, Err(e)),
        (Phase::Single, _) => concluded(request, object, reply),
        (Phase::Listing { used }, Reply::Done) => {
            let dir = object->0;
            listing(true, dir->pending, dir->done, used)
        },
        (Phase::Listing { used }, Reply::Entry(entry)) => {
            let dir = object->0;
            listing(dir->listed, entry, entry is None, used)
        },
        (Phase::Listing { used }, Reply::Stored(end)) => {
            let dir = object->0;
            match end {
                Some(more) => listing(dir->listed, None, dir->done, more),
                None => ends(
                    object,
                    if used == 0 {
                        Err(Error::plain(ErrorKind::ResourceLimit))
                    } else {
                        Ok(FsOutput::Directory { n: used, eof: false })
                    },
                ),
            }
        },
        (Phase::CopySource, _) => match place_of(names, request->CopyFile_new_path@) {
            Some(place) => Step {
                next: Next::Call {
                    phase: Phase::CopyTarget,
                    call: Call::OpenAt {
                        place,
                        options: copy_target(request->CopyFile_exclusive),
                        directory: false,
                    },
                },
                object,
            },
            None => ends(object, Err(of_code(ENOENT))),
        },
        (Phase::CopyTarget, _) => copy_read(object, 0),
        (Phase::CopyRead { offset }, Reply::Moved { n, eof }) => copy_write(
            object,
            offset,
            n,
            0,
            eof,
        ),
        (Phase::CopyWrite { offset, n, written, eof }, Reply::Moved { n: more, .. }) => copy_write(
            object,
            offset,
            n,
            (written + more) as usize,
            eof,
        ),
        _ => ends(object, Ok(FsOutput::Done)),
    }
}

fn end(object: Option<Object>, result: Result<FsOutput, Error>) -> (step: Step)
    ensures
        step == ends(object, result),
{
    Step { next: Next::End(result), object }
}

fn single(object: Option<Object>, call: Call) -> (step: Step)
    ensures
        step == calls(object, call),
{
    Step { next: Next::Call { phase: Phase::Single, call }, object }
}

fn on_open(object: Option<Object>, call: Call) -> (step: Step)
    ensures
        step == calls_open(object, call),
{
    match object {
        Some(Object::File { .. }) | Some(Object::Dir { .. }) => single(object, call),
        _ => end(object, Err(error(EBADF))),
    }
}

fn list(listed: bool, pending: Option<Entry>, done: bool, used: usize) -> (step: Step)
    ensures
        step == listing(listed, pending, done, used),
{
    if let Some(entry) = pending {
        if !entry.special {
            return Step {
                next: Next::Call { phase: Phase::Listing { used }, call: Call::Put { used } },
                object: Some(Object::Dir { listed, pending, done }),
            };
        }
    }
    let object = Some(Object::Dir { listed, pending: None, done });
    if done {
        return end(object, Ok(FsOutput::Directory { n: used, eof: true }));
    }
    Step {
        next: Next::Call {
            phase: Phase::Listing { used },
            call: if listed {
                Call::NextEntry
            } else {
                Call::Entries
            },
        },
        object,
    }
}

fn at(offset: Option<u64>, cursor: u64) -> (place: u64)
    ensures
        place == position(offset, cursor),
{
    match offset {
        Some(o) => o,
        None => cursor,
    }
}

/// Begin a request on what its handle stands for. `names` are those of the granted
/// directories.
pub fn start(names: &Vec<Vec<u8>>, request: &FsRequest, object: Option<Object>) -> (step: Step)
    ensures
        step == started(names@, *request, object),
{
    match request {
        FsRequest::Open { path, options } => match resolve(names, path) {
            Some(place) => single(
                object,
                Call::OpenAt { place, options: *options, directory: false },
            ),
            None => end(object, Err(error(ENOENT))),
        },
        FsRequest::OpenDir { path } => match resolve(names, path) {
            Some(place) => single(
                object,
                Call::OpenAt { place, options: FileOptions::default(), directory: true },
            ),
            None => end(object, Err(error(ENOENT))),
        },
        FsRequest::Close => match object {
            Some(Object::File { .. }) | Some(Object::Dir { .. }) => end(
                Some(Object::Closed),
                Ok(FsOutput::Done),
            ),
            _ => end(object, Err(error(EBADF))),
        },
        FsRequest::Read { offset, .. } => match object {
            Some(Object::File { cursor, .. }) => single(
                object,
                Call::Read { at: at(*offset, cursor) },
            ),
            _ => end(object, Err(error(EBADF))),
        },
        FsRequest::Write { offset } => match object {
            Some(Object::File { cursor, append }) => {
                if append {
                    return single(object, Call::Append);
                }
                single(object, Call::Write { at: at(*offset, cursor) })
            },
            _ => end(object, Err(error(EBADF))),
        },
        FsRequest::Sync { data_only } => on_open(object, Call::Sync { data_only: *data_only }),
        FsRequest::Truncate { size } => on_open(object, Call::SetSize { size: *size }),
        FsRequest::Stat { path, follow } => match resolve(names, path) {
            Some(place) => single(object, Call::StatAt { place, follow: *follow }),
            None => end(object, Err(error(ENOENT))),
        },
        FsRequest::Fstat => on_open(object, Call::Stat),
        FsRequest::ReadDir { .. } => match object {
            Some(Object::Dir { listed, pending, done }) => list(listed, pending, done, 0),
            _ => end(object, Err(error(EBADF))),
        },
        FsRequest::Mkdir { path } => match resolve(names, path) {
            Some(place) => single(object, Call::CreateDirectoryAt { place }),
            None => end(object, Err(error(ENOENT))),
        },
        FsRequest::Rmdir { path } => match resolve(names, path) {
            Some(place) => single(object, Call::RemoveDirectoryAt { place }),
            None => end(object, Err(error(ENOENT))),
        },
        FsRequest::Unlink { path } => match resolve(names, path) {
            Some(place) => single(object, Call::UnlinkAt { place }),
            None => end(object, Err(error(ENOENT))),
        },
        FsRequest::Rename { path, new_path } => match resolve(names, path) {
            Some(place) => match resolve(names, new_path) {
                Some(new_place) => single(object, Call::RenameAt { place, new_place }),
                None => end(object, Err(error(ENOENT))),
            },
            None => end(object, Err(error(ENOENT))),
        },
        FsRequest::Link { path, new_path } => match resolve(names, path) {
            Some(place) => match resolve(names, new_path) {
                Some(new_place) => single(object, Call::LinkAt { place, new_place }),
                None => end(object, Err(error(ENOENT))),
            },
            None => end(object, Err(error(ENOENT))),
        },
        FsRequest::Symlink { path } => match resolve(names, path) {
            Some(place) => single(object, Call::SymlinkAt { place }),
            None => end(object, Err(error(ENOENT))),
        },
        FsRequest::ReadLink { path, .. } => match resolve(names, path) {
            Some(place) => single(object, Call::ReadLinkAt { place }),
            None => end(object, Err(error(ENOENT))),
        },
        FsRequest::Access { path, .. } => match resolve(names, path) {
            Some(place) => single(object, Call::StatAt { place, follow: true }),
            None => end(object, Err(error(ENOENT))),
        },
        FsRequest::SetTimesAt { path, follow, accessed, modified } => match resolve(names, path) {
            Some(place) => single(
                object,
                Call::SetTimesAt {
                    place,
                    follow: *follow,
                    accessed: *accessed,
                    modified: *modified,
                },
            ),
            None => end(object, Err(error(ENOENT))),
        },
        FsRequest::SetTimes { accessed, modified } => on_open(
            object,
            Call::SetTimes { accessed: *accessed, modified: *modified },
        ),
        FsRequest::CopyFile { path, .. } => match resolve(names, path) {
            Some(place) => Step {
                next: Next::Call {
                    phase: Phase::CopySource,
                    call: Call::OpenAt {
                        place,
                        options: FileOptions::default(),
                        directory: false,
                    },
                },
                object,
            },
            None => end(object, Err(error(ENOENT))),
        },
        FsRequest::RealPath | FsRequest::Chmod | FsRequest::Chown => end(
            object,
            Err(unsupported()),
        ),
    }
}

fn advance(object: Option<Object>, offset: Option<u64>, n: usize) -> (after: Option<Object>)
    requires
        match object {
            Some(Object::File { cursor, .. }) => offset is None ==> cursor + n <= u64::MAX,
            _ => true,
        },
    ensures
        after == moved(object, offset, n as int),
{
    match object {
        Some(Object::File { cursor, append }) => if offset.is_none() {
            Some(Object::File { cursor: cursor + n as u64, append })
        } else {
            object
        },
        _ => object,
    }
}

fn copy_on(object: Option<Object>, offset: u64, n: usize, written: usize, eof: bool) -> (step: Step)
    requires
        offset + n <= u64::MAX,
        written <= n,
    ensures
        step == copy_write(object, offset, n, written, eof),
{
    if written < n {
        return Step {
            next: Next::Call {
                phase: Phase::CopyWrite { offset, n, written, eof },
                call: Call::CopyWrite { at: offset + written as u64, from: written, to: n },
            },
            object,
        };
    }
    if n == 0 || eof {
        return end(object, Ok(FsOutput::Done));
    }
    let next: u64 = offset + n as u64;
    Step {
        next: Next::Call { phase: Phase::CopyRead { offset: next }, call: Call::CopyRead {
            at: next,
        } },
        object,
    }
}

/// The cursor of a file stays in range.
pub open spec fn cursor_fits(request: FsRequest, object: Option<Object>, reply: Reply) -> bool {
    match (object, reply) {
        (Some(Object::File { cursor, .. }), Reply::Moved { n, .. }) => (request is Read || request
            is Write) ==> cursor + n <= u64::MAX,
        _ => true,
    }
}

fn conclude(request: &FsRequest, object: Option<Object>, call: Call, reply: Reply) -> (step: Step)
    requires
        makes(*request, object, Phase::Single, call),
        answers(call, reply),
        !(reply is Failed),
        cursor_fits(*request, object, reply),
    ensures
        step == concluded(*request, object, reply),
{
    match request {
        FsRequest::Open { options, .. } => end(
            Some(Object::File { cursor: 0, append: options.append }),
            Ok(FsOutput::Opened),
        ),
        FsRequest::OpenDir { .. } => end(
            Some(Object::Dir { listed: false, pending: None, done: false }),
            Ok(FsOutput::Opened),
        ),
        FsRequest::Read { offset, .. } => match reply {
            Reply::Moved { n, .. } => end(advance(object, *offset, n), Ok(FsOutput::Read(n))),
            _ => end(object, Ok(FsOutput::Done)),
        },
        FsRequest::Write { offset } => match (object, reply) {
            (Some(Object::File { append, .. }), Reply::Moved { n, .. }) => {
                if append {
                    return end(object, Ok(FsOutput::Wrote(n)));
                }
                end(advance(object, *offset, n), Ok(FsOutput::Wrote(n)))
            },
            _ => end(object, Ok(FsOutput::Done)),
        },
        FsRequest::Stat { .. } | FsRequest::Fstat => end(object, Ok(FsOutput::Metadata)),
        FsRequest::ReadLink { .. } => match reply {
            Reply::Link { len, room } => end(
                object,
                if len > room {
                    Err(Error::new(ErrorKind::ResourceLimit))
                } else {
                    Ok(FsOutput::Bytes(len))
                },
            ),
            _ => end(object, Ok(FsOutput::Done)),
        },
        _ => end(object, Ok(FsOutput::Done)),
    }
}

/// Go on with a request after a reply to its last call.
pub fn resume(
    names: &Vec<Vec<u8>>,
    request: &FsRequest,
    object: Option<Object>,
    phase: Phase,
    call: Call,
    reply: Reply,
) -> (step: Step)
    requires
        makes(*request, object, phase, call),
        answers(call, reply),
        cursor_fits(*request, object, reply),
    ensures
        step == continued(names@, *request, object, phase, call, reply),
        match step.next {
            Next::Call { phase: p, call: c } => makes(*request, step.object, p, c),
            Next::End(_) => true,
        },
{
    if let Reply::Failed(e) = reply {
        return end(object, Err(e));
    }
    match phase {
        Phase::Single => conclude(request, object, call, reply),
        Phase::Listing { used } => match object {
            Some(Object::Dir { listed, pending, done }) => match reply {
                Reply::Done => list(true, pending, done, used),
                Reply::Entry(entry) => list(listed, entry, entry.is_none(), used),
                Reply::Stored(Some(more)) => list(listed, None, done, more),
                Reply::Stored(None) => end(
                    object,
                    if used == 0 {
                        Err(Error::new(ErrorKind::ResourceLimit))
                    } else {
                        Ok(FsOutput::Directory { n: used, eof: false })
                    },
                ),
                _ => end(object, Ok(FsOutput::Done)),
            },
            _ => end(object, Ok(FsOutput::Done)),
        },
        Phase::CopySource => match request {
            FsRequest::CopyFile { new_path, exclusive, .. } => match resolve(names, new_path) {
                Some(place) => {
                    let exclusive: bool = *exclusive;
                    let mut options = FileOptions::default();
                    options.read = false;
                    options.write = true;
                    options.create = true;
                    options.exclusive = exclusive;
                    options.truncate = !exclusive;
                    Step {
                        next: Next::Call {
                            phase: Phase::CopyTarget,
                            call: Call::OpenAt { place, options, directory: false },
                        },
                        object,
                    }
                },
                None => end(object, Err(error(ENOENT))),
            },
            _ => end(object, Ok(FsOutput::Done)),
        },
        Phase::CopyTarget => Step {
            next: Next::Call {
                phase: Phase::CopyRead { offset: 0 },
                call: Call::CopyRead { at: 0 },
            },
            object,
        },
        Phase::CopyRead { offset } => match reply {
            Reply::Moved { n, eof } => copy_on(object, offset, n, 0, eof),
            _ => end(object, Ok(FsOutput::Done)),
        },
        Phase::CopyWrite { offset, n, written, eof } => match reply {
            Reply::Moved { n: more, .. } => copy_on(object, offset, n, written + more, eof),
            _ => end(object, Ok(FsOutput::Done)),
        },
    }
}

/// The first call of a request fits its phase.
pub proof fn lemma_started(names: Seq<Vec<u8>>, request: FsRequest, object: Option<Object>)
    ensures
        match started(names, request, object).next {
            Next::Call { phase, call } => makes(
                request,
                started(names, request, object).object,
                phase,
                call,
            ),
            Next::End(_) => true,
        },
{
}

/// A copy writes every byte where it read it: what is left of a chunk goes on behind what
/// was written, and the next chunk starts where this one ended.
pub proof fn law_copy_keeps_offsets(
    names: Seq<Vec<u8>>,
    request: FsRequest,
    object: Option<Object>,
    phase: Phase,
    call: Call,
    reply: Reply,
)
    requires
        makes(request, object, phase, call),
        answers(call, reply),
        phase is CopyWrite,
        !(reply is Failed),
    ensures
        match continued(names, request, object, phase, call, reply).next {
            Next::Call { call: Call::CopyWrite { at, from, to }, .. } => at == call->CopyWrite_at
                + reply->n && from == call->from + reply->n && to == call->to,
            Next::Call { call: Call::CopyRead { at }, .. } => at == call->CopyWrite_at
                + reply->n && call->from + reply->n == call->to,
            Next::End(result) => result == Ok::<FsOutput, Error>(FsOutput::Done) && call->from
                + reply->n == call->to && phase->eof,
            _ => false,
        },
{
}

/// Reading without an offset goes on where the last read ended.
pub proof fn law_reads_follow_each_other(
    names: Seq<Vec<u8>>,
    pooled: bool,
    object: Option<Object>,
    n: usize,
    eof: bool,
)
    requires
        object is Some,
        object->0 is File,
        object->0->cursor + n <= u64::MAX,
    ensures
        ({
            let request = FsRequest::Read { pooled, offset: None };
            let first = Call::Read { at: object->0->cursor };
            let after = continued(
                names,
                request,
                object,
                Phase::Single,
                first,
                Reply::Moved { n, eof },
            );
            &&& started(names, request, object).next == (Next::Call {
                phase: Phase::Single,
                call: first,
            })
            &&& after.next == Next::End(Ok(FsOutput::Read(n)))
            &&& started(names, request, after.object).next == (Next::Call {
                phase: Phase::Single,
                call: Call::Read { at: (object->0->cursor + n) as u64 },
            })
        }),
{
}

/// What a request by handle does has nothing to do with the granted directories.
pub proof fn law_handles_need_no_directories(
    names: Seq<Vec<u8>>,
    request: FsRequest,
    object: Option<Object>,
    phase: Phase,
    call: Call,
    reply: Reply,
)
    requires
        by_handle(request),
        makes(request, object, phase, call),
    ensures
        started(names, request, object) == started(Seq::empty(), request, object),
        continued(names, request, object, phase, call, reply) == continued(
            Seq::empty(),
            request,
            object,
            phase,
            call,
            reply,
        ),
{
}

/// No call touches a closed file or directory.
pub proof fn law_closed_handle_makes_no_call(names: Seq<Vec<u8>>, request: FsRequest)
    requires
        by_handle(request),
    ensures
        started(names, request, Some(Object::Closed)) == ends(
            Some(Object::Closed),
            Err(of_code(EBADF)),
        ),
{
}

/// The call that a request makes first, if it makes one.
pub open spec fn first_call(names: Seq<Vec<u8>>, request: FsRequest, object: Option<Object>) -> Option<
    Call,
> {
    match started(names, request, object).next {
        Next::Call { call, .. } => Some(call),
        Next::End(_) => None,
    }
}

/// Every request by path begins with the call that it is for, on the place of its path, and no
/// other request begins with that call; one whose path is in no granted directory is not found.
pub proof fn law_requests_by_path_make_their_own_calls(
    names: Seq<Vec<u8>>,
    request: FsRequest,
    object: Option<Object>,
    place: Place,
    new_place: Place,
)
    ensures
        first_call(names, request, object) == Some(Call::RenameAt { place, new_place }) <==> (
        request matches FsRequest::Rename { path, new_path } && place_of(names, path@) == Some(
            place,
        ) && place_of(names, new_path@) == Some(new_place)),
        first_call(names, request, object) == Some(Call::LinkAt { place, new_place }) <==> (
        request matches FsRequest::Link { path, new_path } && place_of(names, path@) == Some(
            place,
        ) && place_of(names, new_path@) == Some(new_place)),
        first_call(names, request, object) == Some(Call::SymlinkAt { place }) <==> (
        request matches FsRequest::Symlink { path } && place_of(names, path@) == Some(place)),
        first_call(names, request, object) == Some(Call::ReadLinkAt { place }) <==> (
        request matches FsRequest::ReadLink { path, .. } && place_of(names, path@) == Some(place)),
        first_call(names, request, object) == Some(Call::CreateDirectoryAt { place }) <==> (
        request matches FsRequest::Mkdir { path } && place_of(names, path@) == Some(place)),
        first_call(names, request, object) == Some(Call::RemoveDirectoryAt { place }) <==> (
        request matches FsRequest::Rmdir { path } && place_of(names, path@) == Some(place)),
        first_call(names, request, object) == Some(Call::UnlinkAt { place }) <==> (
        request matches FsRequest::Unlink { path } && place_of(names, path@) == Some(place)),
        first_call(names, request, object) == Some(Call::StatAt { place, follow: true }) <==> {
            ||| request matches FsRequest::Stat { path, follow } && follow && place_of(
                names,
                path@,
            ) == Some(place)
            ||| request matches FsRequest::Access { path, .. } && place_of(names, path@) == Some(
                place,
            )
        },
        first_call(names, request, object) == Some(Call::StatAt { place, follow: false }) <==> (
        request matches FsRequest::Stat { path, follow } && !follow && place_of(names, path@)
            == Some(place)),
        first_call(names, request, object) matches Some(Call::SetTimesAt {
            place: at,
            follow,
            accessed,
            modified,
        }) ==> (request matches FsRequest::SetTimesAt {
            path,
            follow: f,
            accessed: a,
            modified: m,
        } && place_of(names, path@) == Some(at) && f == follow && a == accessed && m == modified),
        request matches FsRequest::SetTimesAt { path, .. } ==> (first_call(
            names,
            request,
            object,
        ) is Some || place_of(names, path@) is None),
        first_call(names, request, object) == Some(
            Call::OpenAt { place, options: FileOptions::reading(), directory: true },
        ) <==> (request matches FsRequest::OpenDir { path } && place_of(names, path@) == Some(
            place,
        )),
        request matches FsRequest::Open { path, options } ==> first_call(names, request, object)
            == (match place_of(names, path@) {
            Some(at) => Some(Call::OpenAt { place: at, options, directory: false }),
            None => None,
        }),
        request matches FsRequest::CopyFile { path, .. } ==> first_call(names, request, object)
            == (match place_of(names, path@) {
            Some(at) => Some(
                Call::OpenAt { place: at, options: FileOptions::reading(), directory: false },
            ),
            None => None,
        }),
        first_call(names, request, object) matches Some(Call::OpenAt { .. }) ==> request is Open
            || request is OpenDir || request is CopyFile,
        first_call(names, request, object) is None && servable(request) && !by_handle(request)
            ==> started(names, request, object).next == Next::End(Err(of_code(44))),
{
    assert(ENOENT == 44);
}

/// Every request by handle begins with the call that it is for, and no other request begins
/// with that call; what is not open, or not of the right sort, is a bad descriptor.
pub proof fn law_requests_by_handle_make_their_own_calls(
    names: Seq<Vec<u8>>,
    request: FsRequest,
    object: Option<Object>,
)
    ensures
        ({
            let call = first_call(names, request, object);
            let file = object is Some && object->0 is File;
            let dir = object is Some && object->0 is Dir;
            &&& call matches Some(Call::Read { at }) ==> (request matches FsRequest::Read {
                offset,
                ..
            } && file && at == (match offset {
                Some(o) => o,
                None => object->0->cursor,
            }))
            &&& request is Read && file ==> call is Some && call->0 is Read
            &&& call matches Some(Call::Write { at }) ==> (request matches FsRequest::Write { offset }
                && file && !object->0->append && at == (match offset {
                Some(o) => o,
                None => object->0->cursor,
            }))
            &&& call matches Some(Call::Append) ==> request is Write && file && object->0->append
            &&& request is Write && file ==> call is Some
            &&& call matches Some(Call::Sync { data_only }) ==> request == (FsRequest::Sync {
                data_only,
            }) && (file || dir)
            &&& request is Sync && (file || dir) ==> call is Some
            &&& call matches Some(Call::SetSize { size }) ==> request == (FsRequest::Truncate { size })
                && (file || dir)
            &&& request is Truncate && (file || dir) ==> call is Some
            &&& call matches Some(Call::Stat) ==> request is Fstat && (file || dir)
            &&& request is Fstat && (file || dir) ==> call is Some
            &&& call matches Some(Call::SetTimes { accessed, modified }) ==> request == (
            FsRequest::SetTimes { accessed, modified }) && (file || dir)
            &&& request is SetTimes && (file || dir) ==> call is Some
            &&& call matches Some(Call::Entries) ==> request is ReadDir && dir
            &&& call matches Some(Call::NextEntry) ==> request is ReadDir && dir
            &&& call matches Some(Call::Put { .. }) ==> request is ReadDir && dir
            &&& call is Some ==> !(call->0 is CopyRead) && !(call->0 is CopyWrite)
            &&& request is Close && (file || dir) ==> started(names, request, object) == (Step {
                next: Next::End(Ok(FsOutput::Done)),
                object: Some(Object::Closed),
            })
            &&& by_handle(request) && !file && !dir ==> started(names, request, object).next
                == Next::End(Err(of_code(8)))
            &&& request is ReadDir && !dir ==> started(names, request, object).next == Next::End(
                Err(of_code(8)),
            )
            &&& (request is Read || request is Write) && !file ==> started(
                names,
                request,
                object,
            ).next == Next::End(Err(of_code(8)))
        }),
{
    assert(EBADF == 8);
}

/// What a request yields is what its call did: bytes read or written with their count, a link
/// with its length, an opened file at its start, and a failure as it is.
pub proof fn law_requests_yield_what_their_call_did(
    names: Seq<Vec<u8>>,
    request: FsRequest,
    object: Option<Object>,
    call: Call,
    reply: Reply,
)
    requires
        makes(request, object, Phase::Single, call),
        answers(call, reply),
        cursor_fits(request, object, reply),
    ensures
        ({
            let step = continued(names, request, object, Phase::Single, call, reply);
            &&& reply matches Reply::Failed(e) ==> step == (Step {
                next: Next::End(Err(e)),
                object,
            })
            &&& reply matches Reply::Moved { n, .. } ==> {
                &&& request is Read ==> step.next == Next::End(Ok(FsOutput::Read(n)))
                &&& request is Write ==> step.next == Next::End(Ok(FsOutput::Wrote(n)))
            }
            &&& reply matches Reply::Link { len, room } ==> step.next == Next::End(
                if len <= room {
                    Ok(FsOutput::Bytes(len))
                } else {
                    Err(Error::plain(ErrorKind::ResourceLimit))
                },
            )
            &&& reply is Done && (request is Stat || request is Fstat) ==> step.next == Next::End(
                Ok(FsOutput::Metadata),
            )
            &&& reply is Done ==> (request matches FsRequest::Open { options, .. } ==> step == (
            Step {
                next: Next::End(Ok(FsOutput::Opened)),
                object: Some(Object::File { cursor: 0, append: options.append }),
            }))
            &&& reply is Done && request is OpenDir ==> step == (Step {
                next: Next::End(Ok(FsOutput::Opened)),
                object: Some(Object::Dir { listed: false, pending: None, done: false }),
            })
            &&& reply is Done && !(request is Open || request is OpenDir || request is Stat
                || request is Fstat) ==> step == (Step {
                next: Next::End(Ok(FsOutput::Done)),
                object,
            })
        }),
{
}

/// A copy reads its source from the start and writes a new file, or one that it empties, unless
/// it may not replace one: then it is there only if it is new.
pub proof fn law_copy_opens_source_and_target(
    names: Seq<Vec<u8>>,
    request: FsRequest,
    object: Option<Object>,
    phase: Phase,
    call: Call,
)
    requires
        request is CopyFile,
        makes(request, object, phase, call),
        phase is CopySource || phase is CopyTarget,
    ensures
        ({
            let step = continued(names, request, object, phase, call, Reply::Done);
            &&& phase is CopySource ==> match place_of(names, request->CopyFile_new_path@) {
                Some(to) => step.next matches Next::Call {
                    phase: Phase::CopyTarget,
                    call: Call::OpenAt { place, options, directory },
                } && place == to && !directory && options.write && options.create
                    && options.exclusive == request->CopyFile_exclusive && options.truncate
                    == !request->CopyFile_exclusive && !options.append && !options.read,
                None => step.next == Next::End(Err(of_code(44))),
            }
            &&& phase is CopyTarget ==> step.next == (Next::Call {
                phase: Phase::CopyRead { offset: 0 },
                call: Call::CopyRead { at: 0 },
            })
            &&& step.object == object
        }),
{
}

/// Each flag that a file is opened with says one thing: it is made where it is missing, it is a
/// directory, it may not be there before, it is emptied; it is read, written, and kept safe with all
/// that is known of it or with its content alone.
pub proof fn law_flags_say_one_thing_each(o: FileOptions, directory: bool)
    ensures
        ({
            let open = open_bits(o, directory);
            let access = access_bits(o);
            &&& open < 16 && access < 16
            &&& open % 2 == 1 <==> o.create || o.exclusive
            &&& (open / 2) % 2 == 1 <==> directory
            &&& (open / 4) % 2 == 1 <==> o.exclusive
            &&& (open / 8) % 2 == 1 <==> o.truncate
            &&& access % 2 == 1 <==> o.read
            &&& (access / 2) % 2 == 1 <==> o.write || o.append
            &&& (access / 4) % 2 == 1 <==> o.sync
            &&& (access / 8) % 2 == 1 <==> o.data_sync
        }),
{
}

/// A file that is only looked at is read and nothing else; links on the way to it are followed. A
/// copy is written to, made where it is missing, and emptied unless it has to be new.
pub proof fn law_files_are_opened_for_what_is_done(exclusive: bool)
    ensures
        ({
            let o = FileOptions::reading();
            let c = copy_target(exclusive);
            &&& o.read && o.follow_symlinks
            &&& !o.write && !o.append && !o.truncate && !o.create && !o.exclusive
            &&& !o.sync && !o.data_sync
            &&& c.write && c.create && c.follow_symlinks
            &&& !c.read && !c.append && !c.sync && !c.data_sync
            &&& c.exclusive <==> exclusive
            &&& c.truncate <==> !exclusive
        }),
{
}

/// Owners, modes, real paths and rights are not asked for here; anything else is served. Only what
/// opens makes what its handle stands for, and only what brings bytes needs a buffer of the pool.
pub proof fn law_requests_are_sorted(request: FsRequest)
    ensures
        servable(request) <==> !(request is RealPath || request is Chmod || request is Chown)
            && !(request is Access && !request->existence),
        opening(request) <==> request is Open || request is OpenDir,
        by_handle(request) <==> request is Close || request is Read || request is Write || request
            is Sync || request is Truncate || request is Fstat || request is ReadDir || request
            is SetTimes,
        needs_buffer(request) <==> (request is Read && request->Read_pooled) || (request is ReadDir
            && request->ReadDir_pooled) || (request is ReadLink && request->ReadLink_pooled),
{
}

/// A copy goes on where it is: what was read is written at the place it was read from, all of it
/// before more is read, and it ends when nothing more came or the end was told.
pub proof fn law_copy_writes_what_it_read(
    names: Seq<Vec<u8>>,
    request: FsRequest,
    object: Option<Object>,
    offset: u64,
    n: usize,
    eof: bool,
)
    requires
        request is CopyFile,
        n <= CHUNK,
        offset + n <= u64::MAX,
    ensures
        ({
            let step = continued(
                names,
                request,
                object,
                Phase::CopyRead { offset },
                Call::CopyRead { at: offset },
                Reply::Moved { n, eof },
            );
            &&& n > 0 ==> step.next == (Next::Call {
                phase: Phase::CopyWrite { offset, n, written: 0, eof },
                call: Call::CopyWrite { at: offset, from: 0, to: n },
            })
            &&& n == 0 ==> step.next == Next::End(Ok(FsOutput::Done))
            &&& step.object == object
        }),
{
}

/// Bytes of a copy that are written so far: what came before, and of the last piece as much as was
/// taken.
pub open spec fn copied(phase: Phase) -> int {
    match phase {
        Phase::CopyRead { offset } => offset as int,
        Phase::CopyWrite { offset, written, .. } => offset + written,
        _ => 0,
    }
}

/// Every byte of a copy is written once and in order: a write goes to the place behind what was
/// written, with the bytes that were read from that place, and moves on by what was taken.
pub proof fn law_copy_moves_every_byte_once(
    names: Seq<Vec<u8>>,
    request: FsRequest,
    object: Option<Object>,
    phase: Phase,
    call: Call,
    reply: Reply,
)
    requires
        makes(request, object, phase, call),
        answers(call, reply),
        phase is CopyRead || phase is CopyWrite,
        reply is Moved,
    ensures
        phase is CopyRead ==> call->CopyRead_at == copied(phase),
        phase is CopyWrite ==> call->CopyWrite_at == copied(phase) && call->CopyWrite_at - call->from
            == phase->CopyWrite_offset,
        continued(names, request, object, phase, call, reply).next matches Next::Call {
            phase: next,
            ..
        } ==> copied(next) == copied(phase) + (if phase is CopyWrite {
            reply->n as int
        } else {
            0
        }),
        phase is CopyWrite && phase->eof && call->from + reply->n == call->to
            ==> continued(names, request, object, phase, call, reply).next == Next::End(
            Ok(FsOutput::Done),
        ),
{
}

/// The two names that every directory holds are the dot and the two dots, and no other.
pub proof fn law_special_names_are_dots(name: Seq<u8>)
    ensures
        is_special(name) <==> (name.len() == 1 || name.len() == 2) && forall|k: int|
            0 <= k < name.len() ==> #[trigger] name[k] == 46,
{
    if name.len() == 1 && name[0] == 46 {
        assert(name =~= seq![46u8]);
    }
    if name.len() == 2 && name[0] == 46 && name[1] == 46 {
        assert(name =~= seq![46u8, 46u8]);
    }
    if name == seq![46u8, 46u8] {
        assert(name[0] == 46 && name[1] == 46);
    }
}

/// A listing goes on entry by entry: the directory is opened for it once, an entry is fetched and
/// stored behind those before it, the two dots aside, and the end is told when there are no more.
/// Where the buffer is full, what is in it is told, and the entry that did not fit is kept.
pub proof fn law_listing_goes_on_entry_by_entry(
    names: Seq<Vec<u8>>,
    pooled: bool,
    listed: bool,
    pending: Option<Entry>,
    done: bool,
    used: usize,
    call: Call,
    entry: Entry,
    more: usize,
)
    ensures
        ({
            let request = FsRequest::ReadDir { pooled };
            let dir = |pending: Option<Entry>, done: bool| Some(
                Object::Dir { listed: true, pending, done },
            );
            let go = |object: Option<Object>, reply: Reply| continued(
                names,
                request,
                object,
                Phase::Listing { used },
                call,
                reply,
            );
            let fetch = Next::Call { phase: Phase::Listing { used }, call: Call::NextEntry };
            let put = Next::Call { phase: Phase::Listing { used }, call: Call::Put { used } };
            let begin = started(names, request, Some(Object::Dir { listed, pending, done }));
            &&& pending is Some && !pending->0.special ==> begin.next == (Next::Call {
                phase: Phase::Listing { used: 0 },
                call: Call::Put { used: 0 },
            })
            &&& pending is None && done ==> begin.next == Next::End(
                Ok(FsOutput::Directory { n: 0, eof: true }),
            )
            &&& pending is None && !done ==> begin.next == (Next::Call {
                phase: Phase::Listing { used: 0 },
                call: if listed {
                    Call::NextEntry
                } else {
                    Call::Entries
                },
            })
            &&& go(Some(Object::Dir { listed: false, pending: None, done: false }), Reply::Done).next
                == fetch
            &&& !entry.special ==> go(dir(None, false), Reply::Entry(Some(entry))) == (Step {
                next: put,
                object: dir(Some(entry), false),
            })
            &&& entry.special ==> go(dir(None, false), Reply::Entry(Some(entry))) == (Step {
                next: fetch,
                object: dir(None, false),
            })
            &&& go(dir(None, false), Reply::Entry(None)).next == Next::End(
                Ok(FsOutput::Directory { n: used, eof: true }),
            )
            &&& go(dir(Some(entry), false), Reply::Stored(Some(more))) == (Step {
                next: Next::Call { phase: Phase::Listing { used: more }, call: Call::NextEntry },
                object: dir(None, false),
            })
            &&& used > 0 ==> go(dir(Some(entry), false), Reply::Stored(None)) == (Step {
                next: Next::End(Ok(FsOutput::Directory { n: used, eof: false })),
                object: dir(Some(entry), false),
            })
        }),
{
}

} // verus!
