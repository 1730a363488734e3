//! How the asynchronous file-system interface lays its parameters out, and what its results
//! mean.
use crate::bytes::{from_le, get, law_le_round_trip, le, lemma_le_len, lemma_spans, push_le};
use crate::types::{Error, ErrorKind};
use crate::wasi::abi::{error_at, error_in, kind, kind_of, text_at, word, Lifted, Text};
use crate::wasi::requests::FileType;
use vstd::prelude::*;

verus! {

/// Bytes that one append of the polling interface takes at most; the rest is left.
pub const APPEND: usize = 4096;

/// Bytes of one granted directory in the list of them.
pub const DIRECTORY: usize = 12;

/// Bytes of one entry that a directory hands out.
pub const ELEMENT: usize = 24;

/// A borrowed text as it is passed: where it is, and how long.
pub open spec fn passed(text: Text) -> Seq<u8> {
    le(text.pointer as nat, 4) + le(text.len as nat, 4)
}

/// The parameters of a rename.
pub open spec fn rename_params(from: u32, path: Text, to: u32, new_path: Text) -> Seq<u8> {
    le(from as nat, 4) + passed(path) + le(to as nat, 4) + passed(new_path)
}

/// The parameters of a link. Links are not followed.
pub open spec fn link_params(from: u32, path: Text, to: u32, new_path: Text) -> Seq<u8> {
    le(from as nat, 4) + le(0, 4) + passed(path) + le(to as nat, 4) + passed(new_path)
}

/// The parameters of a symbolic link: what it leads to, then where it is.
pub open spec fn symlink_params(handle: u32, target: Text, path: Text) -> Seq<u8> {
    le(handle as nat, 4) + passed(target) + passed(path)
}

fn push_text(out: &mut Vec<u8>, text: Text)
    ensures
        final(out)@ == old(out)@ + passed(text),
        passed(text).len() == 8,
{
    push_le(out, text.pointer as u64, 4);
    push_le(out, text.len as u64, 4);
    proof {
        lemma_le_len(text.pointer as nat, 4);
        lemma_le_len(text.len as nat, 4);
    }
    assert(out@ =~= old(out)@ + passed(text));
}

/// Lay out the parameters of a rename.
pub fn encode_rename(from: u32, path: Text, to: u32, new_path: Text) -> (out: Vec<u8>)
    ensures
        out@ == rename_params(from, path, to, new_path),
        out@.len() == 24,
{
    let mut out: Vec<u8> = Vec::new();
    push_le(&mut out, from as u64, 4);
    push_text(&mut out, path);
    push_le(&mut out, to as u64, 4);
    push_text(&mut out, new_path);
    proof {
        lemma_le_len(from as nat, 4);
        lemma_le_len(to as nat, 4);
    }
    assert(out@ =~= rename_params(from, path, to, new_path));
    out
}

/// Lay out the parameters of a link.
pub fn encode_link(from: u32, path: Text, to: u32, new_path: Text) -> (out: Vec<u8>)
    ensures
        out@ == link_params(from, path, to, new_path),
        out@.len() == 28,
{
    let mut out: Vec<u8> = Vec::new();
    push_le(&mut out, from as u64, 4);
    push_le(&mut out, 0, 4);
    push_text(&mut out, path);
    push_le(&mut out, to as u64, 4);
    push_text(&mut out, new_path);
    proof {
        lemma_le_len(from as nat, 4);
        lemma_le_len(0, 4);
        lemma_le_len(to as nat, 4);
    }
    assert(out@ =~= link_params(from, path, to, new_path));
    out
}

/// Lay out the parameters of a symbolic link.
pub fn encode_symlink(handle: u32, target: Text, path: Text) -> (out: Vec<u8>)
    ensures
        out@ == symlink_params(handle, target, path),
        out@.len() == 20,
{
    let mut out: Vec<u8> = Vec::new();
    push_le(&mut out, handle as u64, 4);
    push_text(&mut out, target);
    push_text(&mut out, path);
    proof {
        lemma_le_len(handle as nat, 4);
    }
    assert(out@ =~= symlink_params(handle, target, path));
    out
}

fn word_at(bytes: &Vec<u8>, at: usize) -> (value: u32)
    requires
        at + 4 <= bytes@.len(),
    ensures
        value == word(bytes@, at as int),
{
    proof {
        lemma_spans();
    }
    get(bytes, at, 4) as u32
}

/// Read what opening a file returned: its handle, or an error whose text is to be given back.
pub fn open_result(bytes: &Vec<u8>) -> (found: Lifted<u32>)
    requires
        bytes@.len() >= 20,
    ensures
        match found.result {
            Ok(handle) => bytes@[0] == 0 && handle == word(bytes@, 4) && found.text is None,
            Err(e) => bytes@[0] != 0 && e == error_in(bytes@, 4) && found.text == (if bytes@[4]
                < 36 {
                None
            } else {
                text_at(bytes@, 8)
            }),
        },
{
    if bytes[0] == 0 {
        return Lifted { result: Ok(word_at(bytes, 4)), text: None };
    }
    let (e, text) = error_at(bytes, 4);
    Lifted { result: Err(e), text }
}

/// Read what following a link returned: where it leads to, or an error whose text is to be
/// given back.
pub fn link_result(bytes: &Vec<u8>) -> (found: Lifted<Text>)
    requires
        bytes@.len() >= 20,
    ensures
        match found.result {
            Ok(target) => bytes@[0] == 0 && target.pointer == word(bytes@, 4) && target.len == word(
                bytes@,
                8,
            ) && found.text is None,
            Err(e) => bytes@[0] != 0 && e == error_in(bytes@, 4) && found.text == (if bytes@[4]
                < 36 {
                None
            } else {
                text_at(bytes@, 8)
            }),
        },
{
    if bytes[0] == 0 {
        return Lifted {
            result: Ok(Text { pointer: word_at(bytes, 4), len: word_at(bytes, 8) }),
            text: None,
        };
    }
    let (e, text) = error_at(bytes, 4);
    Lifted { result: Err(e), text }
}

/// A granted directory: its handle and its name.
#[derive(Clone, Copy, Debug, PartialEq, Eq, Structural)]
pub struct Granted {
    pub handle: u32,
    pub name: Text,
}

/// The granted directory at place `i` of the list.
pub open spec fn granted_at(bytes: Seq<u8>, i: int) -> Granted {
    Granted {
        handle: word(bytes, i * DIRECTORY) as u32,
        name: Text {
            pointer: word(bytes, i * DIRECTORY + 4) as u32,
            len: word(bytes, i * DIRECTORY + 8) as u32,
        },
    }
}

/// Read the list of granted directories.
pub fn directories(bytes: &Vec<u8>, count: usize) -> (list: Vec<Granted>)
    requires
        count * DIRECTORY == bytes@.len(),
    ensures
        list@ == Seq::new(count as nat, |i: int| granted_at(bytes@, i)),
{
    let total: usize = bytes.len();
    let mut list: Vec<Granted> = Vec::new();
    let mut i: usize = 0;
    while i < count
        invariant
            i <= count,
            count * DIRECTORY == bytes@.len(),
            total == bytes@.len(),
            list@ == Seq::new(i as nat, |i: int| granted_at(bytes@, i)),
        decreases count - i,
    {
        let at: usize = i * DIRECTORY;
        list.push(
            Granted {
                handle: word_at(bytes, at),
                name: Text { pointer: word_at(bytes, at + 4), len: word_at(bytes, at + 8) },
            },
        );
        i = i + 1;
        assert(list@ =~= Seq::new(i as nat, |i: int| granted_at(bytes@, i)));
    }
    list
}

/// An entry of a directory: what it is, its name, and the text that is to be given back where
/// it is of a kind without a name.
#[derive(Clone, Copy, Debug, PartialEq, Eq, Structural)]
pub struct Element {
    pub kind: FileType,
    pub name: Text,
    pub drop: Option<Text>,
}

/// The tag of a kind without a name of its own.
pub const OTHER_KIND: u8 = 7;

/// Read an entry that a directory handed out.
pub fn element(bytes: &Vec<u8>) -> (found: Element)
    requires
        bytes@.len() >= ELEMENT,
    ensures
        found.kind == kind_of(bytes@[0]),
        found.name.pointer == word(bytes@, 16),
        found.name.len == word(bytes@, 20),
        found.drop == (if bytes@[0] == OTHER_KIND && bytes@[4] == 1 {
            Some(Text { pointer: word(bytes@, 8) as u32, len: word(bytes@, 12) as u32 })
        } else {
            None
        }),
{
    let drop = if bytes[0] == OTHER_KIND && bytes[4] == 1 {
        Some(Text { pointer: word_at(bytes, 8), len: word_at(bytes, 12) })
    } else {
        None
    };
    Element {
        kind: kind(bytes[0]),
        name: Text { pointer: word_at(bytes, 16), len: word_at(bytes, 20) },
        drop,
    }
}

/// What comes next when an entry of a directory is asked for.
#[derive(Clone, Copy, Debug, PartialEq, Eq, Structural)]
pub enum EntryStep {
    /// There are no more.
    Nothing,
    /// Read one from the stream.
    Read,
    /// Take the one that was read.
    Take,
    /// The stream ended: ask how. There are no more, unless it failed.
    Finish,
}

/// Go on after a read from the stream of a directory returned `code`; none was made at first.
/// `open` tells that the end of the stream is not known yet.
pub fn entry_step(open: &mut bool, code: Option<u32>) -> (next: EntryStep)
    ensures
        next == (if !*old(open) {
            EntryStep::Nothing
        } else {
            match code {
                None => EntryStep::Read,
                Some(code) => if code / 16 == 1 {
                    EntryStep::Take
                } else if code % 16 != 0 {
                    EntryStep::Finish
                } else {
                    EntryStep::Read
                },
            }
        }),
        *final(open) == (*old(open) && next != EntryStep::Finish),
{
    if !*open {
        return EntryStep::Nothing;
    }
    match code {
        None => EntryStep::Read,
        Some(code) => if code / 16 == 1 {
            EntryStep::Take
        } else if code % 16 != 0 {
            *open = false;
            EntryStep::Finish
        } else {
            EntryStep::Read
        },
    }
}

/// How much of so many bytes one append of the polling interface takes.
pub fn append_len(len: usize) -> (n: usize)
    ensures
        n == (if len < APPEND {
            len
        } else {
            APPEND
        }),
{
    if len < APPEND {
        len
    } else {
        APPEND
    }
}

/// How a standard stream ended: its result has a tag and nothing else.
pub fn standard_result(area: u32) -> (done: Result<(), Error>)
    ensures
        done == (if area % 256 == 0 {
            Ok(())
        } else {
            Err(Error::plain(ErrorKind::Other))
        }),
{
    if area % 256 == 0 {
        Ok(())
    } else {
        Err(Error::new(ErrorKind::Other))
    }
}

/// Words one after the other are read back at their places.
proof fn lemma_words(before: Seq<u8>, value: u32, behind: Seq<u8>)
    ensures
        word(before + le(value as nat, 4) + behind, before.len() as int) == value,
        (before + le(value as nat, 4) + behind).len() == before.len() + 4 + behind.len(),
{
    lemma_le_len(value as nat, 4);
    lemma_spans();
    law_le_round_trip(value as nat, 4);
    let all = before + le(value as nat, 4) + behind;
    let at = before.len() as int;
    assert(all.subrange(at, at + 4) =~= le(value as nat, 4));
}

/// A rename passes the directory and the path of the old name, then those of the new one.
pub proof fn law_rename_passes_old_then_new(from: u32, path: Text, to: u32, new_path: Text)
    ensures
        ({
            let params = rename_params(from, path, to, new_path);
            &&& params.len() == 24
            &&& word(params, 0) == from
            &&& word(params, 4) == path.pointer
            &&& word(params, 8) == path.len
            &&& word(params, 12) == to
            &&& word(params, 16) == new_path.pointer
            &&& word(params, 20) == new_path.len
        }),
{
    let params = rename_params(from, path, to, new_path);
    let a = le(from as nat, 4);
    let b = le(path.pointer as nat, 4);
    let c = le(path.len as nat, 4);
    let d = le(to as nat, 4);
    let e = le(new_path.pointer as nat, 4);
    let f = le(new_path.len as nat, 4);
    lemma_le_len(from as nat, 4);
    lemma_le_len(path.pointer as nat, 4);
    lemma_le_len(path.len as nat, 4);
    lemma_le_len(to as nat, 4);
    lemma_le_len(new_path.pointer as nat, 4);
    lemma_le_len(new_path.len as nat, 4);
    assert(params =~= Seq::empty() + a + (b + c + d + e + f));
    lemma_words(Seq::empty(), from, b + c + d + e + f);
    assert(params =~= a + b + (c + d + e + f));
    lemma_words(a, path.pointer, c + d + e + f);
    assert(params =~= a + b + c + (d + e + f));
    lemma_words(a + b, path.len, d + e + f);
    assert(params =~= a + b + c + d + (e + f));
    lemma_words(a + b + c, to, e + f);
    assert(params =~= a + b + c + d + e + f);
    lemma_words(a + b + c + d, new_path.pointer, f);
    assert(params =~= (a + b + c + d + e) + f + Seq::empty());
    lemma_words(a + b + c + d + e, new_path.len, Seq::empty());
}

/// A link passes the directory and the path of what it leads to, then those of its own name, and
/// asks not to follow links.
pub proof fn law_link_passes_old_then_new(from: u32, path: Text, to: u32, new_path: Text)
    ensures
        ({
            let params = link_params(from, path, to, new_path);
            &&& params.len() == 28
            &&& word(params, 0) == from
            &&& word(params, 4) == 0
            &&& word(params, 8) == path.pointer
            &&& word(params, 12) == path.len
            &&& word(params, 16) == to
            &&& word(params, 20) == new_path.pointer
            &&& word(params, 24) == new_path.len
        }),
{
    let params = link_params(from, path, to, new_path);
    let a = le(from as nat, 4);
    let z = le(0, 4);
    let b = le(path.pointer as nat, 4);
    let c = le(path.len as nat, 4);
    let d = le(to as nat, 4);
    let e = le(new_path.pointer as nat, 4);
    let f = le(new_path.len as nat, 4);
    lemma_le_len(from as nat, 4);
    lemma_le_len(0, 4);
    lemma_le_len(path.pointer as nat, 4);
    lemma_le_len(path.len as nat, 4);
    lemma_le_len(to as nat, 4);
    lemma_le_len(new_path.pointer as nat, 4);
    lemma_le_len(new_path.len as nat, 4);
    assert(params =~= Seq::empty() + a + (z + b + c + d + e + f));
    lemma_words(Seq::empty(), from, z + b + c + d + e + f);
    assert(params =~= a + z + (b + c + d + e + f));
    lemma_words(a, 0, b + c + d + e + f);
    assert(params =~= a + z + b + (c + d + e + f));
    lemma_words(a + z, path.pointer, c + d + e + f);
    assert(params =~= a + z + b + c + (d + e + f));
    lemma_words(a + z + b, path.len, d + e + f);
    assert(params =~= a + z + b + c + d + (e + f));
    lemma_words(a + z + b + c, to, e + f);
    assert(params =~= a + z + b + c + d + e + f);
    lemma_words(a + z + b + c + d, new_path.pointer, f);
    assert(params =~= (a + z + b + c + d + e) + f + Seq::empty());
    lemma_words(a + z + b + c + d + e, new_path.len, Seq::empty());
}

/// A symbolic link passes what it leads to, and behind it where it is made.
pub proof fn law_symlink_passes_target_then_path(handle: u32, target: Text, path: Text)
    ensures
        ({
            let params = symlink_params(handle, target, path);
            &&& params.len() == 20
            &&& word(params, 0) == handle
            &&& word(params, 4) == target.pointer
            &&& word(params, 8) == target.len
            &&& word(params, 12) == path.pointer
            &&& word(params, 16) == path.len
        }),
{
    let params = symlink_params(handle, target, path);
    let a = le(handle as nat, 4);
    let b = le(target.pointer as nat, 4);
    let c = le(target.len as nat, 4);
    let d = le(path.pointer as nat, 4);
    let e = le(path.len as nat, 4);
    lemma_le_len(handle as nat, 4);
    lemma_le_len(target.pointer as nat, 4);
    lemma_le_len(target.len as nat, 4);
    lemma_le_len(path.pointer as nat, 4);
    lemma_le_len(path.len as nat, 4);
    assert(params =~= Seq::empty() + a + (b + c + d + e));
    lemma_words(Seq::empty(), handle, b + c + d + e);
    assert(params =~= a + b + (c + d + e));
    lemma_words(a, target.pointer, c + d + e);
    assert(params =~= a + b + c + (d + e));
    lemma_words(a + b, target.len, d + e);
    assert(params =~= a + b + c + d + e);
    lemma_words(a + b + c, path.pointer, e);
    assert(params =~= (a + b + c + d) + e + Seq::empty());
    lemma_words(a + b + c + d, path.len, Seq::empty());
}

/// The list of granted directories holds three words for each, one directory behind the other.
pub proof fn law_directories_follow_each_other(bytes: Seq<u8>, i: int)
    requires
        0 <= i,
        12 * i + 12 <= bytes.len(),
    ensures
        granted_at(bytes, i).handle == from_le(bytes.subrange(12 * i, 12 * i + 4)),
        granted_at(bytes, i).name.pointer == from_le(bytes.subrange(12 * i + 4, 12 * i + 8)),
        granted_at(bytes, i).name.len == from_le(bytes.subrange(12 * i + 8, 12 * i + 12)),
{
    lemma_four(bytes.subrange(12 * i, 12 * i + 4));
    lemma_four(bytes.subrange(12 * i + 4, 12 * i + 8));
    lemma_four(bytes.subrange(12 * i + 8, 12 * i + 12));
}

/// Four bytes hold no more than a word.
proof fn lemma_four(four: Seq<u8>)
    requires
        four.len() == 4,
    ensures
        from_le(four) <= u32::MAX,
{
    reveal_with_fuel(from_le, 5);
}

} // verus!
