//! Values as the canonical ABI lays them out in memory.
use crate::bytes::{from_le, get, law_le_round_trip, le, lemma_le_len, lemma_spans, push_le};
use crate::types::{Endpoint, Error, ErrorKind};
use crate::wasi::errors::{error, errno, numbers, of_code, EINVAL, EIO};
use crate::wasi::requests::{FileTime, FileType, TimeChange};
use vstd::prelude::*;

verus! {

/// Bytes of a laid-out address.
pub const ADDRESS: usize = 32;

/// Groups of an address, low byte first.
pub open spec fn groups(segments: Seq<u16>) -> Seq<u8> {
    Seq::new(
        16,
        |i: int|
            if i % 2 == 0 {
                (segments[i / 2] % 256) as u8
            } else {
                (segments[i / 2] / 256) as u8
            },
    )
}

/// So many zero bytes.
pub open spec fn zeros(n: nat) -> Seq<u8> {
    Seq::new(n, |i: int| 0u8)
}

/// An address as the ABI lays it out: a tag, the port, and what the tag tells.
pub open spec fn laid_out(addr: Endpoint) -> Seq<u8> {
    match addr {
        Endpoint::V4 { ip, port } => seq![0u8, 0, 0, 0] + le(port as nat, 2) + ip@ + zeros(22),
        Endpoint::V6 { segments, port, flow, scope } => seq![1u8, 0, 0, 0] + le(port as nat, 2)
            + zeros(2) + le(flow as nat, 4) + groups(segments@) + le(scope as nat, 4),
    }
}

/// The address that laid-out bytes mean.
pub open spec fn means(bytes: Seq<u8>, addr: Endpoint) -> bool {
    match addr {
        Endpoint::V4 { ip, port } => {
            &&& bytes[0] == 0
            &&& port == from_le(bytes.subrange(4, 6))
            &&& ip@ == bytes.subrange(6, 10)
        },
        Endpoint::V6 { segments, port, flow, scope } => {
            &&& bytes[0] != 0
            &&& port == from_le(bytes.subrange(4, 6))
            &&& flow == from_le(bytes.subrange(8, 12))
            &&& scope == from_le(bytes.subrange(28, 32))
            &&& forall|k: int|
                0 <= k < 8 ==> #[trigger] segments@[k] == bytes[12 + 2 * k] + 256 * bytes[13 + 2 * k]
        },
    }
}

fn push_zeros(out: &mut Vec<u8>, n: usize)
    ensures
        final(out)@ == old(out)@ + zeros(n as nat),
{
    let ghost before = out@;
    let mut i: usize = 0;
    assert(before + zeros(0) =~= before);
    while i < n
        invariant
            i <= n,
            before == old(out)@,
            out@ == before + zeros(i as nat),
        decreases n - i,
    {
        out.push(0);
        assert(out@ =~= before + zeros((i + 1) as nat));
        i = i + 1;
    }
}

/// Lay an address out.
pub fn encode_addr(addr: &Endpoint) -> (bytes: Vec<u8>)
    ensures
        bytes@ == laid_out(*addr),
        bytes@.len() == ADDRESS,
{
    let mut out: Vec<u8> = Vec::new();
    match addr {
        Endpoint::V4 { ip, port } => {
            out.push(0);
            push_zeros(&mut out, 3);
            assert(out@ =~= seq![0u8, 0, 0, 0]);
            push_le(&mut out, *port as u64, 2);
            let ghost front = out@;
            let mut i: usize = 0;
            while i < 4
                invariant
                    i <= 4,
                    out@ == front + ip@.take(i as int),
                decreases 4 - i,
            {
                out.push(ip[i]);
                assert(out@ =~= front + ip@.take(i + 1));
                i = i + 1;
            }
            assert(ip@.take(4) =~= ip@);
            push_zeros(&mut out, 22);
            proof {
                lemma_le_len(*port as nat, 2);
            }
        },
        Endpoint::V6 { segments, port, flow, scope } => {
            out.push(1);
            push_zeros(&mut out, 3);
            assert(out@ =~= seq![1u8, 0, 0, 0]);
            push_le(&mut out, *port as u64, 2);
            push_zeros(&mut out, 2);
            push_le(&mut out, *flow as u64, 4);
            let ghost front = out@;
            let mut i: usize = 0;
            while i < 8
                invariant
                    i <= 8,
                    out@ == front + groups(segments@).take(2 * i as int),
                decreases 8 - i,
            {
                out.push((segments[i] % 256) as u8);
                out.push((segments[i] / 256) as u8);
                assert(out@ =~= front + groups(segments@).take(2 * (i + 1) as int));
                i = i + 1;
            }
            assert(groups(segments@).take(16) =~= groups(segments@));
            push_le(&mut out, *scope as u64, 4);
            proof {
                lemma_le_len(*port as nat, 2);
                lemma_le_len(*flow as nat, 4);
                lemma_le_len(*scope as nat, 4);
            }
        },
    }
    out
}

/// Read a laid-out address.
pub fn decode_addr(bytes: &Vec<u8>) -> (addr: Endpoint)
    requires
        bytes@.len() >= ADDRESS,
    ensures
        means(bytes@, addr),
{
    proof {
        lemma_spans();
    }
    let port: u16 = get(bytes, 4, 2) as u16;
    if bytes[0] == 0 {
        let ip: [u8; 4] = [bytes[6], bytes[7], bytes[8], bytes[9]];
        assert(ip@ =~= bytes@.subrange(6, 10));
        return Endpoint::V4 { ip, port };
    }
    let flow: u32 = get(bytes, 8, 4) as u32;
    let scope: u32 = get(bytes, 28, 4) as u32;
    let segments: [u16; 8] = [
        bytes[12] as u16 + 256 * bytes[13] as u16,
        bytes[14] as u16 + 256 * bytes[15] as u16,
        bytes[16] as u16 + 256 * bytes[17] as u16,
        bytes[18] as u16 + 256 * bytes[19] as u16,
        bytes[20] as u16 + 256 * bytes[21] as u16,
        bytes[22] as u16 + 256 * bytes[23] as u16,
        bytes[24] as u16 + 256 * bytes[25] as u16,
        bytes[26] as u16 + 256 * bytes[27] as u16,
    ];
    Endpoint::V6 { segments, port, flow, scope }
}

/// An address that was laid out is read back as it was.
pub proof fn law_address_round_trip(addr: Endpoint, back: Endpoint)
    requires
        means(laid_out(addr), back),
    ensures
        match (addr, back) {
            (Endpoint::V4 { ip, port }, Endpoint::V4 { ip: ip2, port: port2 }) => ip@ == ip2@
                && port == port2,
            (
                Endpoint::V6 { segments, port, flow, scope },
                Endpoint::V6 { segments: segments2, port: port2, flow: flow2, scope: scope2 },
            ) => segments@ == segments2@ && port == port2 && flow == flow2 && scope == scope2,
            _ => false,
        },
{
    let bytes = laid_out(addr);
    lemma_spans();
    match addr {
        Endpoint::V4 { ip, port } => {
            lemma_le_len(port as nat, 2);
            law_le_round_trip(port as nat, 2);
            assert(bytes[0] == 0);
            assert(bytes.subrange(4, 6) =~= le(port as nat, 2));
            assert(bytes.subrange(6, 10) =~= ip@);
        },
        Endpoint::V6 { segments, port, flow, scope } => {
            lemma_le_len(port as nat, 2);
            lemma_le_len(flow as nat, 4);
            lemma_le_len(scope as nat, 4);
            law_le_round_trip(port as nat, 2);
            law_le_round_trip(flow as nat, 4);
            law_le_round_trip(scope as nat, 4);
            assert(bytes[0] == 1);
            assert(bytes.subrange(4, 6) =~= le(port as nat, 2));
            assert(bytes.subrange(8, 12) =~= le(flow as nat, 4));
            assert(bytes.subrange(28, 32) =~= le(scope as nat, 4));
            match back {
                Endpoint::V6 { segments: segments2, .. } => {
                    assert forall|k: int| 0 <= k < 8 implies segments@[k] == segments2@[k] by {
                        assert(bytes[12 + 2 * k] == groups(segments@)[2 * k]);
                        assert(bytes[13 + 2 * k] == groups(segments@)[2 * k + 1]);
                        assert((2 * k + 1) / 2 == k);
                        assert(segments@[k] == segments@[k] % 256 + 256 * (segments@[k] / 256));
                    }
                    assert(segments@ =~= segments2@);
                },
                _ => {},
            }
        },
    }
}

/// A datagram to send: where its bytes are, and the address behind a tag that one is given.
pub open spec fn datagram(pointer: u32, len: u32, to: Endpoint) -> Seq<u8> {
    le(pointer as nat, 4) + le(len as nat, 4) + le(1, 4) + laid_out(to)
}

/// Lay a datagram to send out.
pub fn encode_datagram(pointer: u32, len: u32, to: &Endpoint) -> (bytes: Vec<u8>)
    ensures
        bytes@ == datagram(pointer, len, *to),
        bytes@.len() == 44,
{
    let mut out: Vec<u8> = Vec::new();
    push_le(&mut out, pointer as u64, 4);
    assert(out@ =~= le(pointer as nat, 4));
    push_le(&mut out, len as u64, 4);
    push_le(&mut out, 1, 4);
    let addr = encode_addr(to);
    let ghost front = out@;
    let mut i: usize = 0;
    while i < addr.len()
        invariant
            i <= addr@.len(),
            out@ == front + addr@.take(i as int),
        decreases addr@.len() - i,
    {
        out.push(addr[i]);
        assert(out@ =~= front + addr@.take(i + 1));
        i = i + 1;
    }
    assert(addr@.take(i as int) =~= addr@);
    proof {
        lemma_le_len(pointer as nat, 4);
        lemma_le_len(len as nat, 4);
        lemma_le_len(1, 4);
    }
    out
}

/// Judge a send of one datagram: the result's tag, and how many were sent.
pub fn sent(tag: u8, count: u64, len: usize) -> (n: Result<usize, Error>)
    requires
        tag == 0 ==> count <= 1,
    ensures
        n == (if tag != 0 {
            Err(Error::plain(ErrorKind::Other))
        } else if count == 0 {
            Err(Error::plain(ErrorKind::WouldBlock))
        } else {
            Ok(len)
        }),
{
    if tag != 0 {
        return Err(Error::new(ErrorKind::Other));
    }
    if count == 0 {
        return Err(Error::new(ErrorKind::WouldBlock));
    }
    Ok(len)
}

/// Judge a receive of at most one datagram: the result's tag, how many came, the length of
/// the one, and the room for it. What does not fit is cut off.
pub fn received(tag: u8, count: u32, len: usize, room: usize) -> (n: Result<usize, Error>)
    requires
        tag == 0 ==> count <= 1,
    ensures
        n == (if tag != 0 {
            Err(Error::plain(ErrorKind::Other))
        } else if count == 0 {
            Err(Error::plain(ErrorKind::WouldBlock))
        } else if len < room {
            Ok(len)
        } else {
            Ok(room)
        }),
{
    if tag != 0 {
        return Err(Error::new(ErrorKind::Other));
    }
    if count == 0 {
        return Err(Error::new(ErrorKind::WouldBlock));
    }
    Ok(
        if len < room {
            len
        } else {
            room
        },
    )
}

/// What reading a stream brought.
#[derive(Clone, Copy, Debug, PartialEq, Eq, Structural)]
pub enum StreamRead {
    Bytes(u32),
    Closed,
    /// It failed, with this error resource.
    Failed(u32),
}

/// Read the result of a stream: a tag, then where the bytes are and how many, or a tag of
/// the error and its resource.
pub fn stream_result(words: [u32; 3]) -> (read: StreamRead)
    requires
        words@[0] % 256 <= 1,
    ensures
        read == (if words@[0] % 256 == 0 {
            StreamRead::Bytes(words@[2])
        } else if words@[1] % 256 == 1 {
            StreamRead::Closed
        } else {
            StreamRead::Failed(words@[2])
        }),
{
    if words[0] % 256 == 0 {
        StreamRead::Bytes(words[2])
    } else if words[1] % 256 == 1 {
        StreamRead::Closed
    } else {
        StreamRead::Failed(words[2])
    }
}

/// Storage for the lists that one import returns: each is placed behind the last, aligned.
#[derive(Clone, Copy, Debug, PartialEq, Eq, Structural)]
pub struct Arena {
    pub len: usize,
    pub used: usize,
}

/// The next place that is a multiple of `align`.
pub open spec fn aligned(used: int, align: int) -> int {
    (used + align - 1) / align * align
}

impl Arena {
    /// A list of so many bytes fits.
    pub open spec fn fits(self, align: usize, len: usize) -> bool {
        self.used <= self.len && aligned(self.used as int, align as int) + len <= self.len
    }

    /// Place a list. Alignments are 1, 2 and 4; a list of nothing has no place.
    pub fn place(&mut self, align: usize, len: usize) -> (at: Option<usize>)
        requires
            align == 1 || align == 2 || align == 4,
            len > 0 ==> old(self).fits(align, len),
        ensures
            final(self).len == old(self).len,
            len == 0 ==> at is None && *final(self) == *old(self),
            len > 0 ==> {
                &&& at is Some
                &&& at->0 == aligned(old(self).used as int, align as int)
                &&& at->0 % align == 0
                &&& old(self).used <= at->0 < old(self).used + align
                &&& final(self).used == at->0 + len
                &&& final(self).used <= final(self).len
            },
    {
        if len == 0 {
            return None;
        }
        let past: usize = self.used % align;
        let at: usize = if past == 0 {
            self.used
        } else {
            proof {
                lemma_aligned(self.used as int, align as int);
            }
            self.used - past + align
        };
        proof {
            lemma_aligned(self.used as int, align as int);
        }
        self.used = at + len;
        Some(at)
    }
}

proof fn lemma_aligned(used: int, align: int)
    requires
        used >= 0,
        align == 1 || align == 2 || align == 4,
    ensures
        aligned(used, align) == (if used % align == 0 {
            used
        } else {
            used - used % align + align
        }),
        aligned(used, align) % align == 0,
        used <= aligned(used, align) < used + align,
{
    if align == 1 {
        assert(aligned(used, 1) == used);
    } else if align == 2 {
        assert(aligned(used, 2) == (used + 1) / 2 * 2);
    } else {
        assert(aligned(used, 4) == (used + 3) / 4 * 4);
    }
}

/// Two lists of one import do not overlap.
pub proof fn law_lists_do_not_overlap(used: int, first: int, second: int, a: int, b: int)
    requires
        used >= 0,
        first > 0,
        a == 1 || a == 2 || a == 4,
        b == 1 || b == 2 || b == 4,
    ensures
        aligned(used, a) + first <= aligned(aligned(used, a) + first, b),
{
    lemma_aligned(used, a);
    lemma_aligned(aligned(used, a) + first, b);
}

/// Where a list is put.
#[derive(Clone, Copy, Debug, PartialEq, Eq, Structural)]
pub enum Placed {
    /// A list of nothing has no place.
    Dangling,
    /// In the storage of the running import, so far from its start.
    Scratch(usize),
    Heap,
}

/// The storage of the import that runs, if one does. Imports do not nest: none calls back.
#[derive(Clone, Copy, Debug, PartialEq, Eq, Structural)]
pub struct Scratch {
    pub arena: Option<Arena>,
}

impl Scratch {
    /// An import starts, with storage of so many words.
    pub fn enter(&mut self, words: usize)
        requires
            old(self).arena is None,
            words * 4 <= usize::MAX,
        ensures
            final(self).arena == Some(Arena { len: (words * 4) as usize, used: 0 }),
    {
        self.arena = Some(Arena { len: words * 4, used: 0 });
    }

    /// It ended. A host ends it as well when it unwinds.
    pub fn leave(&mut self)
        ensures
            final(self).arena is None,
    {
        self.arena = None;
    }

    /// The canonical allocation function. Inside of an import lists are made once, not grown,
    /// and lie behind each other; outside they are heap memory.
    pub fn cabi_realloc(&mut self, old_len: usize, align: usize, len: usize) -> (placed: Placed)
        requires
            match old(self).arena {
                Some(arena) => len > 0 ==> {
                    &&& old_len == 0
                    &&& align == 1 || align == 2 || align == 4
                    &&& arena.fits(align, len)
                },
                None => true,
            },
        ensures
            placed == (if len == 0 {
                Placed::Dangling
            } else {
                match old(self).arena {
                    Some(arena) => Placed::Scratch(
                        aligned(arena.used as int, align as int) as usize,
                    ),
                    None => Placed::Heap,
                }
            }),
            final(self).arena == (match old(self).arena {
                Some(arena) if len > 0 => Some(
                    Arena {
                        len: arena.len,
                        used: (aligned(arena.used as int, align as int) + len) as usize,
                    },
                ),
                _ => old(self).arena,
            }),
    {
        if len == 0 {
            return Placed::Dangling;
        }
        match self.arena {
            None => Placed::Heap,
            Some(mut arena) => {
                let at = arena.place(align, len);
                self.arena = Some(arena);
                match at {
                    Some(at) => Placed::Scratch(at),
                    None => Placed::Dangling,
                }
            },
        }
    }
}

/// Run an import with storage of so many words, which `f` is handed. However it ends, by
/// returning or by unwinding, none is in use afterwards, so that the next one can start.
pub fn scoped<T, F: FnOnce(Arena) -> T>(scratch: &mut Scratch, words: usize, f: F) -> (value: T)
    requires
        old(scratch).arena is None,
        words * 4 <= usize::MAX,
        f.requires((Arena { len: (words * 4) as usize, used: 0 },)),
    ensures
        f.ensures((Arena { len: (words * 4) as usize, used: 0 },), value),
        final(scratch).arena is None,
{
    f(Arena { len: words * 4, used: 0 })
}

/// The word at `at`.
pub open spec fn word(bytes: Seq<u8>, at: int) -> nat {
    from_le(bytes.subrange(at, at + 4))
}

/// The long word at `at`.
pub open spec fn wide(bytes: Seq<u8>, at: int) -> nat {
    from_le(bytes.subrange(at, at + 8))
}

/// Text that the host allocated for its caller.
#[derive(Clone, Copy, Debug, PartialEq, Eq, Structural)]
pub struct Text {
    pub pointer: u32,
    pub len: u32,
}

/// The text that an error or a kind without a name of its own carries: a tag that some is
/// there, then its place and length.
pub open spec fn text_at(bytes: Seq<u8>, at: int) -> Option<Text> {
    if bytes[at] == 1 {
        Some(
            Text {
                pointer: word(bytes, at + 4) as u32,
                len: word(bytes, at + 8) as u32,
            },
        )
    } else {
        None
    }
}

/// The error at `at`.
pub open spec fn error_in(bytes: Seq<u8>, at: int) -> Error {
    of_code(
        if bytes[at] < 36 {
            numbers()[bytes[at] as int]
        } else {
            EIO
        },
    )
}

fn text(bytes: &Vec<u8>, at: usize) -> (found: Option<Text>)
    requires
        at + 12 <= bytes@.len(),
    ensures
        found == text_at(bytes@, at as int),
{
    let total: usize = bytes.len();
    if bytes[at] != 1 {
        return None;
    }
    proof {
        lemma_spans();
    }
    Some(Text { pointer: get(bytes, at + 4, 4) as u32, len: get(bytes, at + 8, 4) as u32 })
}

/// Read the error at `at`, and the text that is to be given back with it.
pub fn error_at(bytes: &Vec<u8>, at: usize) -> (found: (Error, Option<Text>))
    requires
        at + 16 <= bytes@.len(),
    ensures
        found.0 == error_in(bytes@, at as int),
        found.1 == (if bytes@[at as int] < 36 {
            None
        } else {
            text_at(bytes@, at + 4)
        }),
{
    let total: usize = bytes.len();
    let code: u8 = bytes[at];
    (
        error(errno(code)),
        if code < 36 {
            None
        } else {
            text(bytes, at + 4)
        },
    )
}

/// Read the result of a call that returns nothing.
pub fn unit(bytes: &Vec<u8>) -> (done: Result<(), (Error, Option<Text>)>)
    requires
        bytes@.len() >= 20,
    ensures
        match done {
            Ok(_) => bytes@[0] == 0,
            Err((e, text)) => bytes@[0] != 0 && e == error_in(bytes@, 4) && text == (if bytes@[4]
                < 36 {
                None
            } else {
                text_at(bytes@, 8)
            }),
        },
{
    if bytes[0] == 0 {
        Ok(())
    } else {
        Err(error_at(bytes, 4))
    }
}

/// What the tag of a file means.
pub open spec fn kind_of(tag: u8) -> FileType {
    if tag == 0 {
        FileType::BlockDevice
    } else if tag == 1 {
        FileType::CharDevice
    } else if tag == 2 {
        FileType::Directory
    } else if tag == 3 {
        FileType::Fifo
    } else if tag == 4 {
        FileType::Symlink
    } else if tag == 5 {
        FileType::File
    } else if tag == 6 {
        FileType::Socket
    } else {
        FileType::Unknown
    }
}

/// What the tag of a file means.
pub fn kind(tag: u8) -> (kind: FileType)
    ensures
        kind == kind_of(tag),
{
    if tag == 0 {
        FileType::BlockDevice
    } else if tag == 1 {
        FileType::CharDevice
    } else if tag == 2 {
        FileType::Directory
    } else if tag == 3 {
        FileType::Fifo
    } else if tag == 4 {
        FileType::Symlink
    } else if tag == 5 {
        FileType::File
    } else if tag == 6 {
        FileType::Socket
    } else {
        FileType::Unknown
    }
}

/// What is known of a file.
#[derive(Clone, Copy, Debug, PartialEq, Eq, Structural)]
pub struct FileMetadata {
    pub kind: FileType,
    pub size: u64,
    pub links: Option<u64>,
    pub accessed: Option<FileTime>,
    pub modified: Option<FileTime>,
    pub changed: Option<FileTime>,
}

/// The optional time at `at`.
pub open spec fn time_in(bytes: Seq<u8>, at: int) -> Option<FileTime> {
    if bytes[at] == 1 {
        Some(
            FileTime {
                seconds: (wide(bytes, at + 8) as u64) as i64,
                nanoseconds: word(bytes, at + 16) as u32,
            },
        )
    } else {
        None
    }
}

/// The metadata in a successful result.
pub open spec fn metadata_in(bytes: Seq<u8>) -> FileMetadata {
    FileMetadata {
        kind: kind_of(bytes[8]),
        size: wide(bytes, 32) as u64,
        links: Some(wide(bytes, 24) as u64),
        accessed: time_in(bytes, 40),
        modified: time_in(bytes, 64),
        changed: time_in(bytes, 88),
    }
}

fn time_at(bytes: &Vec<u8>, at: usize) -> (time: Option<FileTime>)
    requires
        at + 20 <= bytes@.len(),
    ensures
        time == time_in(bytes@, at as int),
{
    let total: usize = bytes.len();
    if bytes[at] != 1 {
        return None;
    }
    proof {
        lemma_spans();
    }
    let seconds: u64 = get(bytes, at + 8, 8);
    Some(FileTime { seconds: seconds as i64, nanoseconds: get(bytes, at + 16, 4) as u32 })
}

/// What a result yields, and the text that is to be given back with it.
#[derive(Debug)]
pub struct Lifted<T> {
    pub result: Result<T, Error>,
    pub text: Option<Text>,
}

/// Read the result of a look at a file.
pub fn stat_result(bytes: &Vec<u8>) -> (found: Lifted<FileMetadata>)
    requires
        bytes@.len() == 112,
    ensures
        bytes@[0] != 0 ==> found.result == Err::<FileMetadata, Error>(error_in(bytes@, 8))
            && found.text == (if bytes@[8] < 36 {
            None
        } else {
            text_at(bytes@, 12)
        }),
        bytes@[0] == 0 ==> found.result == Ok::<FileMetadata, Error>(metadata_in(bytes@))
            && found.text == (if bytes@[8] == 7 {
            text_at(bytes@, 12)
        } else {
            None
        }),
{
    if bytes[0] != 0 {
        let (e, text) = error_at(bytes, 8);
        return Lifted { result: Err(e), text };
    }
    let tag: u8 = bytes[8];
    let text = if tag == 7 {
        text(bytes, 12)
    } else {
        None
    };
    Lifted {
        result: Ok(
            FileMetadata {
                kind: kind(tag),
                size: get(bytes, 32, 8),
                links: Some(get(bytes, 24, 8)),
                accessed: time_at(bytes, 40),
                modified: time_at(bytes, 64),
                changed: time_at(bytes, 88),
            },
        ),
        text,
    }
}

/// A change of a time, in 24 bytes.
pub open spec fn timestamp(change: TimeChange) -> Seq<u8> {
    match change {
        TimeChange::Keep => zeros(24),
        TimeChange::Now => seq![1u8] + zeros(23),
        TimeChange::At(t) => seq![2u8] + zeros(7) + le((t.seconds as u64) as nat, 8) + le(
            t.nanoseconds as nat,
            4,
        ) + zeros(4),
    }
}

fn push_timestamp(out: &mut Vec<u8>, change: TimeChange)
    ensures
        final(out)@ == old(out)@ + timestamp(change),
        timestamp(change).len() == 24,
{
    let ghost before = out@;
    match change {
        TimeChange::Keep => {
            push_zeros(out, 24);
        },
        TimeChange::Now => {
            out.push(1);
            push_zeros(out, 23);
            assert(out@ =~= before + timestamp(change));
        },
        TimeChange::At(t) => {
            out.push(2);
            push_zeros(out, 7);
            push_le(out, t.seconds as u64, 8);
            push_le(out, t.nanoseconds as u64, 4);
            push_zeros(out, 4);
            proof {
                lemma_le_len((t.seconds as u64) as nat, 8);
                lemma_le_len(t.nanoseconds as nat, 4);
            }
            assert(out@ =~= before + timestamp(change));
        },
    }
}

/// The parameters that open a file: the directory, how links are taken, the path, and the
/// flags.
pub open spec fn open_params(
    handle: u32,
    follow: bool,
    pointer: u32,
    len: u32,
    open: u8,
    access: u8,
) -> Seq<u8> {
    le(handle as nat, 4) + seq![if follow { 1u8 } else { 0u8 }, 0, 0, 0] + le(pointer as nat, 4)
        + le(len as nat, 4) + seq![open, access, 0, 0]
}

/// Lay out the parameters that open a file.
pub fn encode_open(handle: u32, follow: bool, pointer: u32, len: u32, open: u8, access: u8) -> (out:
    Vec<u8>)
    ensures
        out@ == open_params(handle, follow, pointer, len, open, access),
        out@.len() == 20,
{
    let mut out: Vec<u8> = Vec::new();
    push_le(&mut out, handle as u64, 4);
    assert(out@ =~= le(handle as nat, 4));
    out.push(
        if follow {
            1
        } else {
            0
        },
    );
    push_zeros(&mut out, 3);
    assert(out@ =~= le(handle as nat, 4) + seq![if follow { 1u8 } else { 0u8 }, 0, 0, 0]);
    push_le(&mut out, pointer as u64, 4);
    push_le(&mut out, len as u64, 4);
    out.push(open);
    out.push(access);
    push_zeros(&mut out, 2);
    proof {
        lemma_le_len(handle as nat, 4);
        lemma_le_len(pointer as nat, 4);
        lemma_le_len(len as nat, 4);
    }
    assert(out@ =~= open_params(handle, follow, pointer, len, open, access));
    out
}

/// Lay out the parameters that change the times of an open file.
pub fn encode_times(handle: u32, accessed: TimeChange, modified: TimeChange) -> (out: Vec<u8>)
    ensures
        out@ == le(handle as nat, 4) + zeros(4) + timestamp(accessed) + timestamp(modified),
        out@.len() == 56,
{
    let mut out: Vec<u8> = Vec::new();
    push_le(&mut out, handle as u64, 4);
    assert(out@ =~= le(handle as nat, 4));
    push_zeros(&mut out, 4);
    push_timestamp(&mut out, accessed);
    push_timestamp(&mut out, modified);
    proof {
        lemma_le_len(handle as nat, 4);
    }
    out
}

/// Lay out the parameters that change the times of a path.
pub fn encode_times_at(
    handle: u32,
    follow: bool,
    pointer: u32,
    len: u32,
    accessed: TimeChange,
    modified: TimeChange,
) -> (out: Vec<u8>)
    ensures
        out@ == le(handle as nat, 4) + seq![if follow { 1u8 } else { 0u8 }, 0, 0, 0] + le(
            pointer as nat,
            4,
        ) + le(len as nat, 4) + timestamp(accessed) + timestamp(modified),
        out@.len() == 64,
{
    let mut out: Vec<u8> = Vec::new();
    push_le(&mut out, handle as u64, 4);
    assert(out@ =~= le(handle as nat, 4));
    out.push(
        if follow {
            1
        } else {
            0
        },
    );
    push_zeros(&mut out, 3);
    assert(out@ =~= le(handle as nat, 4) + seq![if follow { 1u8 } else { 0u8 }, 0, 0, 0]);
    push_le(&mut out, pointer as u64, 4);
    push_le(&mut out, len as u64, 4);
    push_timestamp(&mut out, accessed);
    push_timestamp(&mut out, modified);
    proof {
        lemma_le_len(handle as nat, 4);
        lemma_le_len(pointer as nat, 4);
        lemma_le_len(len as nat, 4);
    }
    out
}

/// A time as the 0.2 interface takes it, which has none before its epoch.
#[derive(Clone, Copy, Debug, PartialEq, Eq, Structural)]
pub enum NewTimestamp {
    NoChange,
    Now,
    At { seconds: u64, nanoseconds: u32 },
}

/// A change of a time as the 0.2 interface takes it.
pub fn new_timestamp(change: TimeChange) -> (time: Result<NewTimestamp, Error>)
    ensures
        time == (match change {
            TimeChange::Keep => Ok(NewTimestamp::NoChange),
            TimeChange::Now => Ok(NewTimestamp::Now),
            TimeChange::At(t) => if t.seconds < 0 {
                Err(of_code(EINVAL))
            } else {
                Ok(
                    NewTimestamp::At { seconds: t.seconds as u64, nanoseconds: t.nanoseconds },
                )
            },
        }),
{
    match change {
        TimeChange::Keep => Ok(NewTimestamp::NoChange),
        TimeChange::Now => Ok(NewTimestamp::Now),
        TimeChange::At(t) => if t.seconds < 0 {
            Err(error(EINVAL))
        } else {
            Ok(NewTimestamp::At { seconds: t.seconds as u64, nanoseconds: t.nanoseconds })
        },
    }
}

/// Four bytes, the low one first.
proof fn lemma_number(value: u32)
    ensures
        ({
            let b = le(value as nat, 4);
            &&& b.len() == 4
            &&& b[0] + 0x100 * b[1] + 0x1_0000 * b[2] + 0x100_0000 * b[3] == value
        }),
{
    reveal_with_fuel(le, 5);
    let b = le(value as nat, 4);
    assert(b[0] == value % 256);
    assert(b[1] == value / 256 % 256);
    assert(b[2] == value / 256 / 256 % 256);
    assert(b[3] == value / 256 / 256 / 256 % 256);
}

/// How an address stands in memory: a tag of its family, its port, and what the family has, each at
/// its place with the low byte first; an address of four bytes as it is read.
pub proof fn law_addresses_are_laid_out(addr: Endpoint)
    ensures
        ({
            let bytes = laid_out(addr);
            &&& bytes.len() == 32
            &&& match addr {
                Endpoint::V4 { ip, port } => {
                    &&& bytes[0] == 0
                    &&& bytes[4] + 256 * bytes[5] == port
                    &&& forall|k: int| 0 <= k < 4 ==> bytes[6 + k] == #[trigger] ip@[k]
                },
                Endpoint::V6 { segments, port, flow, scope } => {
                    &&& bytes[0] == 1
                    &&& bytes[4] + 256 * bytes[5] == port
                    &&& bytes[8] + 0x100 * bytes[9] + 0x1_0000 * bytes[10] + 0x100_0000 * bytes[11]
                        == flow
                    &&& forall|k: int|
                        0 <= k < 8 ==> bytes[12 + 2 * k] + 256 * bytes[13 + 2 * k]
                            == #[trigger] segments@[k]
                    &&& bytes[28] + 0x100 * bytes[29] + 0x1_0000 * bytes[30] + 0x100_0000
                        * bytes[31] == scope
                },
            }
        }),
{
    let bytes = laid_out(addr);
    match addr {
        Endpoint::V4 { ip, port } => {
            lemma_port(port);
            let p = le(port as nat, 2);
            assert(bytes[4] == p[0] && bytes[5] == p[1]);
            assert forall|k: int| 0 <= k < 4 implies bytes[6 + k] == #[trigger] ip@[k] by {}
        },
        Endpoint::V6 { segments, port, flow, scope } => {
            lemma_port(port);
            lemma_number(flow);
            lemma_number(scope);
            let p = le(port as nat, 2);
            assert(bytes[4] == p[0] && bytes[5] == p[1]);
            let f = le(flow as nat, 4);
            assert(bytes[8] == f[0] && bytes[9] == f[1] && bytes[10] == f[2] && bytes[11] == f[3]);
            let s = le(scope as nat, 4);
            assert(bytes[28] == s[0] && bytes[29] == s[1] && bytes[30] == s[2] && bytes[31]
                == s[3]);
            assert forall|k: int| 0 <= k < 8 implies bytes[12 + 2 * k] + 256 * bytes[13 + 2 * k]
                == #[trigger] segments@[k] by {
                assert(bytes[12 + 2 * k] == groups(segments@)[2 * k]);
                assert(bytes[13 + 2 * k] == groups(segments@)[2 * k + 1]);
                assert((2 * k) / 2 == k && (2 * k + 1) / 2 == k && (2 * k) % 2 == 0 && (2 * k + 1)
                    % 2 == 1);
            }
        },
    }
}

/// Two bytes, the low one first.
proof fn lemma_port(port: u16)
    ensures
        le(port as nat, 2).len() == 2,
        le(port as nat, 2)[0] + 256 * le(port as nat, 2)[1] == port,
{
    reveal_with_fuel(le, 3);
    let b = le(port as nat, 2);
    assert(b[0] == port % 256);
    assert(b[1] == port / 256 % 256);
}

/// A datagram is passed as where its bytes are, how many they are, and the address it is for.
pub proof fn law_datagrams_are_laid_out(pointer: u32, len: u32, to: Endpoint)
    ensures
        ({
            let bytes = datagram(pointer, len, to);
            &&& bytes.len() == 44
            &&& word(bytes, 0) == pointer
            &&& word(bytes, 4) == len
            &&& word(bytes, 8) == 1
            &&& bytes.skip(12) == laid_out(to)
        }),
{
    let bytes = datagram(pointer, len, to);
    law_addresses_are_laid_out(to);
    lemma_spans();
    lemma_le_len(pointer as nat, 4);
    lemma_le_len(len as nat, 4);
    lemma_le_len(1, 4);
    law_le_round_trip(pointer as nat, 4);
    law_le_round_trip(len as nat, 4);
    law_le_round_trip(1, 4);
    assert(bytes.subrange(0, 4) =~= le(pointer as nat, 4));
    assert(bytes.subrange(4, 8) =~= le(len as nat, 4));
    assert(bytes.subrange(8, 12) =~= le(1, 4));
    assert(bytes.skip(12) =~= laid_out(to));
}

/// A change of a time is a tag of what is done with it, and behind it the time: kept, the present,
/// or so many seconds and nanoseconds.
pub proof fn law_times_are_laid_out(change: TimeChange)
    ensures
        ({
            let bytes = timestamp(change);
            &&& bytes.len() == 24
            &&& bytes[0] == match change {
                TimeChange::Keep => 0u8,
                TimeChange::Now => 1u8,
                TimeChange::At(_) => 2u8,
            }
            &&& change is At ==> wide(bytes, 8) == change->At_0.seconds as u64 && word(bytes, 16)
                == change->At_0.nanoseconds
        }),
{
    let bytes = timestamp(change);
    if let TimeChange::At(t) = change {
        lemma_spans();
        lemma_le_len((t.seconds as u64) as nat, 8);
        lemma_le_len(t.nanoseconds as nat, 4);
        law_le_round_trip((t.seconds as u64) as nat, 8);
        law_le_round_trip(t.nanoseconds as nat, 4);
        assert(bytes.subrange(8, 16) =~= le((t.seconds as u64) as nat, 8));
        assert(bytes.subrange(16, 20) =~= le(t.nanoseconds as nat, 4));
    }
}

/// What opens a file is passed as its directory, whether links are followed, where its path is, and
/// the flags, each at its place.
pub proof fn law_open_is_laid_out(
    handle: u32,
    follow: bool,
    pointer: u32,
    len: u32,
    open: u8,
    access: u8,
)
    ensures
        ({
            let bytes = open_params(handle, follow, pointer, len, open, access);
            &&& bytes.len() == 20
            &&& word(bytes, 0) == handle
            &&& bytes[4] == 1 <==> follow
            &&& bytes[4] == 0 <==> !follow
            &&& word(bytes, 8) == pointer
            &&& word(bytes, 12) == len
            &&& bytes[16] == open
            &&& bytes[17] == access
        }),
{
    let bytes = open_params(handle, follow, pointer, len, open, access);
    lemma_spans();
    lemma_le_len(handle as nat, 4);
    lemma_le_len(pointer as nat, 4);
    lemma_le_len(len as nat, 4);
    law_le_round_trip(handle as nat, 4);
    law_le_round_trip(pointer as nat, 4);
    law_le_round_trip(len as nat, 4);
    assert(bytes.subrange(0, 4) =~= le(handle as nat, 4));
    assert(bytes.subrange(8, 12) =~= le(pointer as nat, 4));
    assert(bytes.subrange(12, 16) =~= le(len as nat, 4));
}

/// What is known of a file stands at its places in a result: its kind, its links, its size, and the
/// times it was read, written and changed, each of which may be missing.
pub proof fn law_metadata_is_read_from_its_places(bytes: Seq<u8>)
    requires
        bytes.len() == 112,
    ensures
        ({
            let m = metadata_in(bytes);
            let time = |at: int, found: Option<FileTime>| {
                &&& found is Some <==> bytes[at] == 1
                &&& found is Some ==> found->0.nanoseconds == from_le(
                    bytes.subrange(at + 16, at + 20),
                ) && found->0.seconds == (from_le(bytes.subrange(at + 8, at + 16)) as u64) as i64
            };
            &&& m.size == from_le(bytes.subrange(32, 40))
            &&& m.links is Some && m.links->0 == from_le(bytes.subrange(24, 32))
            &&& time(40, m.accessed)
            &&& time(64, m.modified)
            &&& time(88, m.changed)
            &&& m.kind is BlockDevice <==> bytes[8] == 0
            &&& m.kind is CharDevice <==> bytes[8] == 1
            &&& m.kind is Directory <==> bytes[8] == 2
            &&& m.kind is Fifo <==> bytes[8] == 3
            &&& m.kind is Symlink <==> bytes[8] == 4
            &&& m.kind is File <==> bytes[8] == 5
            &&& m.kind is Socket <==> bytes[8] == 6
            &&& m.kind is Unknown <==> bytes[8] > 6
        }),
{
    lemma_fits(bytes.subrange(32, 40));
    lemma_fits(bytes.subrange(24, 32));
    lemma_word_fits(bytes.subrange(56, 60));
    lemma_word_fits(bytes.subrange(80, 84));
    lemma_word_fits(bytes.subrange(104, 108));
}

/// Eight bytes hold no more than a long word.
proof fn lemma_fits(eight: Seq<u8>)
    requires
        eight.len() == 8,
    ensures
        from_le(eight) <= u64::MAX,
{
    reveal_with_fuel(from_le, 9);
}

/// Four bytes hold no more than a word.
proof fn lemma_word_fits(four: Seq<u8>)
    requires
        four.len() == 4,
    ensures
        from_le(four) <= u32::MAX,
{
    reveal_with_fuel(from_le, 5);
}

/// An error is the one whose number stands at its tag, and one without a number of its own is one
/// of input or output. Text is there where its tag says so, as a place and a length.
pub proof fn law_errors_are_read_from_their_places(bytes: Seq<u8>, at: int)
    requires
        0 <= at,
        at + 12 <= bytes.len(),
    ensures
        bytes[at] < 36 ==> error_in(bytes, at).os == Some(numbers()[bytes[at] as int]),
        bytes[at] >= 36 ==> error_in(bytes, at).os == Some(29i32),
        text_at(bytes, at) is Some <==> bytes[at] == 1,
        text_at(bytes, at) is Some ==> text_at(bytes, at)->0.pointer == from_le(
            bytes.subrange(at + 4, at + 8),
        ) && text_at(bytes, at)->0.len == from_le(bytes.subrange(at + 8, at + 12)),
{
    lemma_word_fits(bytes.subrange(at + 4, at + 8));
    lemma_word_fits(bytes.subrange(at + 8, at + 12));
}

/// A list is put at the next place that its alignment allows, and no further.
pub proof fn law_lists_are_put_close(used: int, align: int)
    requires
        used >= 0,
        align == 1 || align == 2 || align == 4,
    ensures
        aligned(used, align) % align == 0,
        used <= aligned(used, align) < used + align,
{
    lemma_aligned(used, align);
}

} // verus!
