//! What a new Windows process is given: flags, descriptors and streams.
use crate::bytes::{from_le, law_le_round_trip, le, lemma_le_len, lemma_spans, push_le, span};
use crate::iocp::codes::ERROR_ACCESS_DENIED;
use crate::types::{
    invalid, unsupported, ChildFd, ChildFdSource, Error, ErrorKind, ProcessStdio,
};
use vstd::prelude::*;

verus! {

pub const CREATE_SUSPENDED: u32 = 0x4;

pub const DETACHED_PROCESS: u32 = 0x8;

pub const CREATE_NEW_PROCESS_GROUP: u32 = 0x200;

pub const CREATE_UNICODE_ENVIRONMENT: u32 = 0x400;

pub const EXTENDED_STARTUPINFO_PRESENT: u32 = 0x8_0000;

pub const CREATE_NO_WINDOW: u32 = 0x800_0000;

/// Which ends of a child pipe each side may use.
#[derive(Clone, Copy, Debug, PartialEq, Eq, Structural)]
pub enum Direction {
    /// Child input.
    ParentWrites,
    /// Child output, and a one-way extra descriptor.
    ParentReads,
    Duplex,
}

/// What the rules read of a process to start.
#[derive(Clone, Copy, Debug, PartialEq, Eq, Structural)]
pub struct Spec {
    pub uid: bool,
    pub gid: bool,
    pub empty_program: bool,
    pub controlling_terminal: bool,
    pub windows_hide: bool,
    pub detached: bool,
    pub new_process_group: bool,
    pub stdin: ProcessStdio,
    pub stdout: ProcessStdio,
    pub stderr: ProcessStdio,
}

/// The stream shares something of the host's.
pub open spec fn shares(stdio: ProcessStdio) -> bool {
    stdio is Inherit || stdio is Handle
}

fn is_shared(stdio: ProcessStdio) -> (shared: bool)
    ensures
        shared == shares(stdio),
{
    match stdio {
        ProcessStdio::Inherit => true,
        ProcessStdio::Handle(_) => true,
        _ => false,
    }
}

/// The flags a process starts with. A hidden child gets no console window, unless a
/// stream is shared with the host's console.
pub open spec fn flags_of(process: Spec) -> u32 {
    let base = CREATE_SUSPENDED | CREATE_UNICODE_ENVIRONMENT | EXTENDED_STARTUPINFO_PRESENT;
    let shared = shares(process.stdin) || shares(process.stdout) || shares(process.stderr);
    let shown = if process.windows_hide && !shared {
        base | CREATE_NO_WINDOW
    } else {
        base
    };
    if process.detached {
        shown | (DETACHED_PROCESS | CREATE_NEW_PROCESS_GROUP)
    } else {
        shown
    }
}

/// The flags a process starts with.
pub fn creation_flags(process: &Spec) -> (flags: u32)
    ensures
        flags == flags_of(*process),
{
    let mut flags: u32 = CREATE_SUSPENDED | CREATE_UNICODE_ENVIRONMENT
        | EXTENDED_STARTUPINFO_PRESENT;
    let shared = is_shared(process.stdin) || is_shared(process.stdout) || is_shared(process.stderr);
    if process.windows_hide && !shared {
        flags = flags | CREATE_NO_WINDOW;
    }
    if process.detached {
        flags = flags | (DETACHED_PROCESS | CREATE_NEW_PROCESS_GROUP);
    }
    flags
}

/// A child always starts suspended, so that its job and its exit watch are in place
/// before it can run or exit. It has a console window unless it is hidden and shares no stream,
/// it leaves the console and the group of its parent exactly when it is detached, and nothing else
/// is asked for.
pub proof fn law_child_starts_suspended(process: Spec)
    ensures
        ({
            let flags = flags_of(process);
            let console = (process.stdin is Inherit || process.stdin is Handle) || (process.stdout
                is Inherit || process.stdout is Handle) || (process.stderr is Inherit
                || process.stderr is Handle);
            &&& flags & CREATE_SUSPENDED == CREATE_SUSPENDED
            &&& flags & 0x4u32 == 0x4
            &&& flags & 0x400u32 == 0x400
            &&& flags & 0x8_0000u32 == 0x8_0000
            &&& flags & 0x800_0000u32 == 0x800_0000 <==> process.windows_hide && !console
            &&& flags & 0x8u32 == 0x8 <==> process.detached
            &&& flags & 0x200u32 == 0x200 <==> process.detached
            &&& flags & !0x808_060cu32 == 0
        }),
{
    let base = 0x4u32 | 0x400u32 | 0x8_0000u32;
    assert(base == 0x8_0404u32) by (bit_vector)
        requires
            base == 0x4u32 | 0x400u32 | 0x8_0000u32,
    ;
    assert(0x8_0404u32 | 0x800_0000u32 == 0x808_0404u32 && (0x8u32 | 0x200u32) == 0x208u32
        && 0x8_0404u32 | 0x208u32 == 0x8_060cu32 && 0x808_0404u32 | 0x208u32 == 0x808_060cu32)
        by (bit_vector);
    assert(0x8_0404u32 & 0x4u32 == 0x4 && 0x8_0404u32 & 0x400u32 == 0x400 && 0x8_0404u32
        & 0x8_0000u32 == 0x8_0000 && 0x8_0404u32 & 0x800_0000u32 == 0 && 0x8_0404u32 & 0x8u32 == 0
        && 0x8_0404u32 & 0x200u32 == 0 && 0x8_0404u32 & !0x808_060cu32 == 0 && 0x808_0404u32
        & 0x4u32 == 0x4 && 0x808_0404u32 & 0x400u32 == 0x400 && 0x808_0404u32 & 0x8_0000u32
        == 0x8_0000 && 0x808_0404u32 & 0x800_0000u32 == 0x800_0000 && 0x808_0404u32 & 0x8u32 == 0
        && 0x808_0404u32 & 0x200u32 == 0 && 0x808_0404u32 & !0x808_060cu32 == 0) by (bit_vector);
    assert(0x8_060cu32 & 0x4u32 == 0x4 && 0x8_060cu32 & 0x400u32 == 0x400 && 0x8_060cu32
        & 0x8_0000u32 == 0x8_0000 && 0x8_060cu32 & 0x800_0000u32 == 0 && 0x8_060cu32 & 0x8u32
        == 0x8 && 0x8_060cu32 & 0x200u32 == 0x200 && 0x8_060cu32 & !0x808_060cu32 == 0
        && 0x808_060cu32 & 0x4u32 == 0x4 && 0x808_060cu32 & 0x400u32 == 0x400 && 0x808_060cu32
        & 0x8_0000u32 == 0x8_0000 && 0x808_060cu32 & 0x800_0000u32 == 0x800_0000 && 0x808_060cu32
        & 0x8u32 == 0x8 && 0x808_060cu32 & 0x200u32 == 0x200 && 0x808_060cu32 & !0x808_060cu32
        == 0) by (bit_vector);
}

/// Reject what this system cannot give a child.
pub fn validate(process: &Spec) -> (valid: Result<(), Error>)
    ensures
        valid == (if process.uid || process.gid || process.empty_program || process.controlling_terminal {
            Err(Error::plain(ErrorKind::Unsupported))
        } else {
            Ok(())
        }),
{
    if process.uid || process.gid || process.empty_program {
        return Err(unsupported());
    }
    if process.controlling_terminal {
        return Err(unsupported());
    }
    Ok(())
}

/// Whether the child gets a job of its own, and whether it joins the one that ends with
/// this process.
pub fn jobs(process: &Spec) -> (plan: (bool, bool))
    ensures
        plan == (process.new_process_group || process.detached, !process.detached),
{
    (process.new_process_group || process.detached, !process.detached)
}

/// Joining the lifetime job may be denied by the host's own job; anything else fails.
pub fn lifetime_joined(result: Result<(), Error>) -> (done: Result<(), Error>)
    ensures
        done == (match result {
            Err(e) if e.os != Some(ERROR_ACCESS_DENIED) => Err(e),
            _ => Ok(()),
        }),
{
    match result {
        Err(e) => {
            if e.os != Some(ERROR_ACCESS_DENIED) {
                return Err(e);
            }
            Ok(())
        },
        Ok(_) => Ok(()),
    }
}

/// The pipe that a standard stream needs.
pub fn stdio_pipe(index: usize) -> (direction: Direction)
    ensures
        direction == (if index == 0 {
            Direction::ParentWrites
        } else {
            Direction::ParentReads
        }),
{
    if index == 0 {
        Direction::ParentWrites
    } else {
        Direction::ParentReads
    }
}

/// The pipe that an extra descriptor needs, if it needs one.
pub fn extra_pipe(source: ChildFdSource) -> (direction: Option<Direction>)
    ensures
        direction == (match source {
            ChildFdSource::Pipe => Some(Direction::ParentReads),
            ChildFdSource::Duplex => Some(Direction::Duplex),
            _ => None,
        }),
{
    match source {
        ChildFdSource::Pipe => Some(Direction::ParentReads),
        ChildFdSource::Duplex => Some(Direction::Duplex),
        _ => None,
    }
}

/// Descriptor numbers a child is given: the standard ones and all up to the highest.
pub open spec fn table_len(extra: Seq<ChildFd>) -> int
    decreases extra.len(),
{
    if extra.len() == 0 {
        3
    } else {
        let before = table_len(extra.drop_last());
        let need = extra.last().number + 1;
        if need > before {
            need
        } else {
            before
        }
    }
}

/// No number is used twice, and none is a standard one.
pub open spec fn numbers_apart(extra: Seq<ChildFd>) -> bool {
    &&& forall|k: int| 0 <= k < extra.len() ==> (#[trigger] extra[k]).number >= 3
    &&& forall|j: int, k: int|
        0 <= j < k < extra.len() ==> (#[trigger] extra[j]).number != (#[trigger] extra[k]).number
}

/// Lay out the descriptor table: position `n` tells which extra descriptor has number
/// `n`. A number that is taken is refused.
pub fn layout(extra: &Vec<ChildFd>) -> (table: Result<Vec<Option<usize>>, Error>)
    requires
        forall|k: int| 0 <= k < extra@.len() ==> (#[trigger] extra@[k]).number < u32::MAX,
    ensures
        match table {
            Ok(t) => {
                &&& numbers_apart(extra@)
                &&& t@.len() == table_len(extra@)
                &&& forall|k: int|
                    0 <= k < extra@.len() ==> t@[(#[trigger] extra@[k]).number as int] == Some(
                        k as usize,
                    )
                &&& forall|n: int|
                    3 <= n < t@.len() && (#[trigger] t@[n]) is Some ==> t@[n]->0 < extra@.len()
                        && extra@[t@[n]->0 as int].number == n
            },
            Err(e) => e == Error::plain(ErrorKind::InvalidInput) && !numbers_apart(extra@),
        },
{
    let mut count: usize = 3;
    let mut i: usize = 0;
    assert(extra@.take(0) =~= Seq::<ChildFd>::empty());
    while i < extra.len()
        invariant
            i <= extra@.len(),
            count == table_len(extra@.take(i as int)),
            count >= 3,
            forall|k: int| 0 <= k < i ==> (#[trigger] extra@[k]).number < count,
            forall|k: int| 0 <= k < extra@.len() ==> (#[trigger] extra@[k]).number < u32::MAX,
        decreases extra@.len() - i,
    {
        proof {
            assert(extra@.take(i + 1).drop_last() =~= extra@.take(i as int));
            assert(extra@.take(i + 1).last() == extra@[i as int]);
        }
        let need: usize = extra[i].number as usize + 1;
        if need > count {
            count = need;
        }
        i = i + 1;
    }
    assert(extra@.take(i as int) =~= extra@);
    let mut table: Vec<Option<usize>> = vec![None; count];
    let mut i: usize = 0;
    while i < extra.len()
        invariant
            i <= extra@.len(),
            table@.len() == count,
            count >= 3,
            forall|k: int| 0 <= k < extra@.len() ==> (#[trigger] extra@[k]).number < count,
            forall|k: int| 0 <= k < i ==> (#[trigger] extra@[k]).number >= 3,
            forall|j: int, k: int|
                0 <= j < k < i ==> (#[trigger] extra@[j]).number != (#[trigger] extra@[k]).number,
            forall|k: int|
                0 <= k < i ==> table@[(#[trigger] extra@[k]).number as int] == Some(k as usize),
            forall|n: int|
                0 <= n < table@.len() && (#[trigger] table@[n]) is Some ==> table@[n]->0 < i
                    && extra@[table@[n]->0 as int].number == n,
        decreases extra@.len() - i,
    {
        let n: usize = extra[i].number as usize;
        if n < 3 || table[n].is_some() {
            assert(!numbers_apart(extra@)) by {
                if n >= 3 {
                    let j = table@[n as int]->0 as int;
                    assert(extra@[j].number == extra@[i as int].number);
                }
            }
            return Err(invalid());
        }
        table[n] = Some(i);
        i = i + 1;
    }
    Ok(table)
}

/// C run-time flags of an inherited descriptor.
pub const FOPEN: u8 = 0x01;

pub const FPIPE: u8 = 0x08;

pub const FDEV: u8 = 0x40;

/// What the system calls a handle.
#[derive(Clone, Copy, Debug, PartialEq, Eq, Structural)]
pub enum FileType {
    Pipe,
    Char,
    Other,
}

/// The flag byte of an open descriptor.
pub open spec fn flag_byte(kind: FileType) -> u8 {
    match kind {
        FileType::Pipe => 0x09,
        FileType::Char => 0x41,
        FileType::Other => 0x01,
    }
}

/// The flag byte of an open descriptor.
pub fn crt_flags(kind: FileType) -> (flags: u8)
    ensures
        flags == flag_byte(kind),
        flags == FOPEN | (match kind {
            FileType::Pipe => FPIPE,
            FileType::Char => FDEV,
            FileType::Other => 0u8,
        }),
{
    assert(0x01u8 | 0x08u8 == 0x09u8) by (bit_vector);
    assert(0x01u8 | 0x40u8 == 0x41u8) by (bit_vector);
    assert(0x01u8 | 0u8 == 0x01u8) by (bit_vector);
    match kind {
        FileType::Pipe => FOPEN | FPIPE,
        FileType::Char => FOPEN | FDEV,
        FileType::Other => FOPEN | 0u8,
    }
}

/// One descriptor of the inherited block.
#[derive(Clone, Copy, Debug, PartialEq, Eq, Structural)]
pub struct Inherited {
    pub kind: FileType,
    pub handle: u64,
}

/// The handle of a closed descriptor.
pub const CLOSED: u64 = 0xffff_ffff_ffff_ffff;

pub open spec fn flag_at(slots: Seq<Option<Inherited>>, i: int) -> u8 {
    match slots[i] {
        Some(d) => flag_byte(d.kind),
        None => 0,
    }
}

pub open spec fn handle_at(slots: Seq<Option<Inherited>>, i: int) -> u64 {
    match slots[i] {
        Some(d) => d.handle,
        None => CLOSED,
    }
}

/// The handles of the block, one after the other.
pub open spec fn handles(slots: Seq<Option<Inherited>>, width: nat, n: int) -> Seq<u8>
    decreases n,
{
    if n <= 0 {
        Seq::empty()
    } else {
        handles(slots, width, n - 1) + le(handle_at(slots, n - 1) as nat, width)
    }
}

/// The descriptor block that the C run-time reads at start: a count, one flag byte for
/// each descriptor, then one handle of `width` bytes for each, without padding.
pub open spec fn block_of(slots: Seq<Option<Inherited>>, width: nat) -> Seq<u8> {
    le(slots.len(), 4) + Seq::new(slots.len(), |i: int| flag_at(slots, i)) + handles(
        slots,
        width,
        slots.len() as int,
    )
}

proof fn lemma_handles_len(slots: Seq<Option<Inherited>>, width: nat, n: int)
    requires
        0 <= n,
    ensures
        handles(slots, width, n).len() == width * n,
    decreases n,
{
    if n > 0 {
        lemma_handles_len(slots, width, n - 1);
        lemma_le_len(handle_at(slots, n - 1) as nat, width);
        assert(width * n == width * (n - 1) + width) by (nonlinear_arith);
    } else {
        assert(width * n == 0) by (nonlinear_arith)
            requires
                n == 0,
        ;
    }
}

/// Build the descriptor block for a machine whose handles have `width` bytes. Its size has to
/// fit the field that announces it.
pub fn inherited_block(slots: &Vec<Option<Inherited>>, width: usize) -> (block: Result<
    Vec<u8>,
    Error,
>)
    requires
        slots@.len() <= 0xffff_ffff,
        width == 4 || width == 8,
    ensures
        match block {
            Ok(b) => b@ == block_of(slots@, width as nat) && b@.len() == 4 + (1 + width) * slots@.len() && b@.len()
                <= 0xffff,
            Err(e) => e == Error::plain(ErrorKind::InvalidInput) && 4 + (1 + width) * slots@.len() > 0xffff,
        },
{
    let count: usize = slots.len();
    let limit: usize = if width == 8 {
        (0xffff - 4) / 9
    } else {
        (0xffff - 4) / 5
    };
    assert((1 + width) * slots@.len() == slots@.len() + width * slots@.len()) by (nonlinear_arith);
    assert(width == 8 ==> width * slots@.len() == 8 * slots@.len());
    assert(width == 4 ==> width * slots@.len() == 4 * slots@.len());
    if count > limit {
        return Err(invalid());
    }
    let mut block: Vec<u8> = Vec::new();
    push_le(&mut block, count as u64, 4);
    assert(block@ =~= le(count as nat, 4));
    proof {
        lemma_le_len(count as nat, 4);
    }
    let ghost flags = Seq::new(slots@.len(), |i: int| flag_at(slots@, i));
    let mut i: usize = 0;
    assert(flags.take(0) =~= Seq::<u8>::empty());
    while i < count
        invariant
            i <= count,
            count == slots@.len(),
            flags == Seq::new(slots@.len(), |i: int| flag_at(slots@, i)),
            block@ == le(count as nat, 4) + flags.take(i as int),
        decreases count - i,
    {
        let flag: u8 = match &slots[i] {
            Some(d) => crt_flags(d.kind),
            None => 0,
        };
        block.push(flag);
        assert(block@ =~= le(count as nat, 4) + flags.take(i + 1));
        i = i + 1;
    }
    assert(flags.take(i as int) =~= flags);
    let ghost front = block@;
    let mut i: usize = 0;
    assert(block@ =~= front + handles(slots@, width as nat, 0));
    while i < count
        invariant
            i <= count,
            count == slots@.len(),
            width == 4 || width == 8,
            front.len() == 4 + count,
            block@ == front + handles(slots@, width as nat, i as int),
        decreases count - i,
    {
        proof {
            lemma_handles_len(slots@, width as nat, i as int);
        }
        let handle: u64 = match &slots[i] {
            Some(d) => d.handle,
            None => CLOSED,
        };
        push_le(&mut block, handle, width);
        assert(block@ =~= front + handles(slots@, width as nat, i + 1));
        i = i + 1;
    }
    proof {
        lemma_handles_len(slots@, width as nat, count as int);
    }
    Ok(block)
}

/// The table of a child reaches to its highest descriptor, and holds the standard ones.
pub proof fn law_table_reaches_the_highest(extra: Seq<ChildFd>)
    ensures
        table_len(extra) >= 3,
        forall|k: int| 0 <= k < extra.len() ==> (#[trigger] extra[k]).number < table_len(extra),
        table_len(extra) == 3 || exists|k: int|
            0 <= k < extra.len() && (#[trigger] extra[k]).number + 1 == table_len(extra),
    decreases extra.len(),
{
    if extra.len() > 0 {
        let front = extra.drop_last();
        law_table_reaches_the_highest(front);
        assert forall|k: int| 0 <= k < extra.len() implies (#[trigger] extra[k]).number < table_len(
            extra,
        ) by {
            if k < front.len() {
                assert(front[k] == extra[k]);
            }
        }
        if table_len(extra) == table_len(front) && table_len(front) != 3 {
            let k = choose|k: int|
                0 <= k < front.len() && (#[trigger] front[k]).number + 1 == table_len(front);
            assert(extra[k].number + 1 == table_len(extra));
        } else if table_len(extra) != 3 {
            assert(extra[extra.len() - 1].number + 1 == table_len(extra));
        }
    }
}

proof fn lemma_handle_bytes(slots: Seq<Option<Inherited>>, width: nat, n: int, i: int)
    requires
        0 <= i < n <= slots.len(),
    ensures
        0 <= width * i,
        width * i + width <= width * n,
        handles(slots, width, n).len() == width * n,
        handles(slots, width, n).subrange(width * i, width * i + width) == le(
            handle_at(slots, i) as nat,
            width,
        ),
    decreases n,
{
    lemma_handles_len(slots, width, n);
    lemma_handles_len(slots, width, n - 1);
    lemma_le_len(handle_at(slots, n - 1) as nat, width);
    assert(width * i + width <= width * n) by (nonlinear_arith)
        requires
            i + 1 <= n,
            width >= 0,
    ;
    assert(0 <= width * i) by (nonlinear_arith)
        requires
            0 <= i,
            width >= 0,
    ;
    assert(width * n == width * (n - 1) + width) by (nonlinear_arith);
    let all = handles(slots, width, n);
    if i < n - 1 {
        lemma_handle_bytes(slots, width, n - 1, i);
        assert(all.subrange(width * i, width * i + width) =~= handles(
            slots,
            width,
            n - 1,
        ).subrange(width * i, width * i + width));
    } else {
        assert(all.subrange(width * i, width * i + width) =~= le(
            handle_at(slots, n - 1) as nat,
            width,
        ));
    }
}

/// Where the handle of a descriptor stands in the block.
proof fn lemma_handle_place(slots: Seq<Option<Inherited>>, width: nat, i: int)
    requires
        slots.len() <= 0xffff_ffff,
        0 <= i < slots.len(),
    ensures
        ({
            let block = block_of(slots, width);
            let at = 4 + slots.len() + width * i;
            &&& block.len() == 4 + slots.len() + width * slots.len()
            &&& block.subrange(0, 4) == le(slots.len(), 4)
            &&& block[4 + i] == flag_at(slots, i)
            &&& 0 <= at && at + width <= block.len()
            &&& block.subrange(at, at + width) == le(handle_at(slots, i) as nat, width)
        }),
{
    let n = slots.len() as int;
    let block = block_of(slots, width);
    let place = width * i;
    let at = 4 + slots.len() + place;
    let list = handles(slots, width, n);
    lemma_le_len(slots.len(), 4);
    lemma_handles_len(slots, width, n);
    lemma_handle_bytes(slots, width, n, i);
    assert(block.subrange(0, 4) =~= le(slots.len(), 4));
    assert(block.skip(4 + n) =~= list);
    assert(block.subrange(at, at + width) =~= block.skip(4 + n).subrange(place, place + width));
}

/// What the bytes of a handle mean.
proof fn lemma_handle_value(slots: Seq<Option<Inherited>>, width: nat, i: int)
    requires
        width == 4 || width == 8,
        0 <= i < slots.len(),
        slots[i] is Some && width == 4 ==> slots[i]->0.handle <= 0xffff_ffff,
    ensures
        from_le(le(handle_at(slots, i) as nat, width)) == match slots[i] {
            Some(d) => d.handle as nat,
            None => if width == 4 {
                0xffff_ffff
            } else {
                0xffff_ffff_ffff_ffff
            },
        },
{
    lemma_spans();
    let value = handle_at(slots, i) as nat;
    law_le_round_trip(value, width);
    if width == 4 {
        assert(from_le(le(value, 4)) == value % 0x1_0000_0000);
        if slots[i] is None {
            assert(value == 0xffff_ffff_ffff_ffff);
            assert(0xffff_ffff_ffff_ffffnat % 0x1_0000_0000 == 0xffff_ffff);
        }
    } else {
        assert(value < span(8));
    }
}

/// What a child reads from its descriptor block is what was inherited: their number, and of each
/// whether it is open, what it is, and its handle. A closed one is no valid handle.
pub proof fn law_inherited_descriptors_are_read_back(
    slots: Seq<Option<Inherited>>,
    width: nat,
    i: int,
)
    requires
        slots.len() <= 0xffff_ffff,
        width == 4 || width == 8,
        0 <= i < slots.len(),
        slots[i] is Some && width == 4 ==> slots[i]->0.handle <= 0xffff_ffff,
    ensures
        ({
            let block = block_of(slots, width);
            let at = 4 + slots.len() + width * i;
            &&& block.len() == 4 + slots.len() + width * slots.len()
            &&& from_le(block.subrange(0, 4)) == slots.len()
            &&& block[4 + i] == match slots[i] {
                None => 0u8,
                Some(d) => match d.kind {
                    FileType::Other => 1u8,
                    FileType::Pipe => 9u8,
                    FileType::Char => 65u8,
                },
            }
            &&& 0 <= at && at + width <= block.len()
            &&& from_le(block.subrange(at, at + width)) == match slots[i] {
                Some(d) => d.handle as nat,
                None => if width == 4 {
                    0xffff_ffff
                } else {
                    0xffff_ffff_ffff_ffff
                },
            }
        }),
{
    lemma_spans();
    law_le_round_trip(slots.len(), 4);
    lemma_handle_place(slots, width, i);
    lemma_handle_value(slots, width, i);
}

} // verus!
