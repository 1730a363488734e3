//! Console key events as UTF-8 bytes.
use vstd::prelude::*;
use vstd::utf8::{encode_scalar, is_scalar};

verus! {

/// What stands for a code unit that is no character.
pub const REPLACEMENT: u32 = 0xfffd;

/// The first half of a surrogate pair.
pub open spec fn is_high(unit: u16) -> bool {
    0xd800 <= unit <= 0xdbff
}

/// The second half of a surrogate pair.
pub open spec fn is_low(unit: u16) -> bool {
    0xdc00 <= unit <= 0xdfff
}

/// The character of a code unit that follows `high`, if one was held back. A unit
/// that completes no pair stands for itself, and half a pair for no character.
pub open spec fn scalar_of(high: Option<u16>, unit: u16) -> u32 {
    match high {
        Some(h) if is_low(unit) => (0x10000 + (h - 0xd800) * 1024 + (unit - 0xdc00)) as u32,
        _ => if is_low(unit) {
            REPLACEMENT
        } else {
            unit as u32
        },
    }
}

/// Key events being turned into bytes.
#[derive(Debug)]
pub struct ConsoleBytes {
    bytes: Vec<u8>,
    offset: usize,
    repeats: u16,
    high: Option<u16>,
}

/// The same as plain mathematics: the bytes of the current key, how many of them were
/// read in this repetition, and the repetitions left.
#[verifier::ext_equal]
pub struct Model {
    pub bytes: Seq<u8>,
    pub offset: int,
    pub repeats: int,
    pub high: Option<u16>,
}

impl View for ConsoleBytes {
    type V = Model;

    closed spec fn view(&self) -> Model {
        Model {
            bytes: self.bytes@,
            offset: self.offset as int,
            repeats: self.repeats as int,
            high: self.high,
        }
    }
}

impl Model {
    /// Every byte still to be read: the rest of this repetition, then whole ones.
    pub open spec fn pending(self) -> Seq<u8>
        decreases self.repeats,
    {
        if self.repeats <= 0 {
            Seq::empty()
        } else {
            self.bytes.skip(self.offset) + Model {
                offset: 0,
                repeats: self.repeats - 1,
                ..self
            }.pending()
        }
    }

    /// The bytes that a buffer of this size gets of the current repetition, and what is left.
    pub open spec fn taken(self, room: int) -> (Seq<u8>, Model) {
        let left = self.bytes.skip(self.offset);
        if left.len() <= room {
            (left, Model { offset: 0, repeats: self.repeats - 1, ..self })
        } else {
            (left.take(room), Model { offset: self.offset + room, ..self })
        }
    }

    /// A key went down.
    pub open spec fn keyed(self, unit: u16, count: u16) -> Model {
        if unit == 0 {
            self
        } else if is_high(unit) {
            Model { high: Some(unit), ..self }
        } else {
            Model {
                bytes: encode_scalar(scalar_of(self.high, unit)),
                offset: 0,
                repeats: if count == 0 {
                    1int
                } else {
                    count as int
                },
                high: None,
            }
        }
    }

    /// An event came.
    pub open spec fn after(self, input: Input) -> Model {
        match input {
            Input::Key { down: true, unit, count } => self.keyed(unit, count),
            _ => self,
        }
    }
}

/// What the console tells.
#[derive(Clone, Copy, Debug, PartialEq, Eq, Structural)]
pub enum Input {
    /// Nothing after all.
    Nothing,
    /// The window has another size.
    Resized,
    /// A key moved; `count` tells how often it repeats.
    Key { down: bool, unit: u16, count: u16 },
    Other,
}

/// What a read does next.
#[derive(Debug)]
pub enum Read {
    /// It ends with these bytes.
    Done(Vec<u8>),
    /// Ask the console for an event.
    Ask,
}

impl ConsoleBytes {
    pub closed spec fn wf(&self) -> bool {
        &&& self.repeats > 0 ==> self.offset < self.bytes@.len()
        &&& self.high matches Some(h) ==> is_high(h)
    }

    /// Nothing read yet.
    pub fn new() -> (console: Self)
        ensures
            console.wf(),
            console@.repeats == 0,
            console@.high is None,
    {
        ConsoleBytes { bytes: Vec::new(), offset: 0, repeats: 0, high: None }
    }

    /// Whether bytes of a key are left.
    pub fn has_bytes(&self) -> (has: bool)
        ensures
            has == (self@.repeats > 0),
    {
        self.repeats > 0
    }

    /// Read bytes of the current repetition, as many as fit.
    fn take(&mut self, room: usize) -> (out: Vec<u8>)
        requires
            old(self).wf(),
            old(self)@.repeats > 0,
            room > 0,
        ensures
            final(self).wf(),
            (out@, final(self)@) == old(self)@.taken(room as int),
            out@.len() > 0,
            out@ + final(self)@.pending() == old(self)@.pending(),
    {
        let ghost before = self@;
        let total: usize = self.bytes.len();
        let left: usize = total - self.offset;
        let n: usize = if left <= room {
            left
        } else {
            room
        };
        let mut out: Vec<u8> = Vec::new();
        let mut i: usize = 0;
        while i < n
            invariant
                i <= n <= left,
                total == self.bytes@.len(),
                left == total - self.offset,
                self.offset <= self.bytes@.len(),
                out@ == self.bytes@.skip(self.offset as int).take(i as int),
            decreases n - i,
        {
            out.push(self.bytes[self.offset + i]);
            assert(out@ =~= self.bytes@.skip(self.offset as int).take(i + 1));
            i = i + 1;
        }
        self.offset = self.offset + n;
        if self.offset == self.bytes.len() {
            self.offset = 0;
            self.repeats = self.repeats - 1;
        }
        proof {
            let part = before.bytes.skip(before.offset);
            assert(part.take(part.len() as int) =~= part);
            assert(self@ =~= before.taken(room as int).1);
            law_no_byte_is_lost(before, room as int);
        }
        out
    }

    /// A key went down. Zero carries no character, and the first half of a pair waits for
    /// the second one.
    fn key(&mut self, unit: u16, count: u16)
        requires
            old(self).wf(),
            old(self)@.repeats == 0,
        ensures
            final(self).wf(),
            final(self)@ == old(self)@.keyed(unit, count),
    {
        if unit == 0 {
            return ;
        }
        if 0xd800 <= unit && unit <= 0xdbff {
            self.high = Some(unit);
            return ;
        }
        let low = 0xdc00 <= unit && unit <= 0xdfff;
        let code: u32 = match self.high {
            Some(h) => if low {
                0x10000 + (h as u32 - 0xd800) * 1024 + (unit as u32 - 0xdc00)
            } else {
                unit as u32
            },
            None => if low {
                REPLACEMENT
            } else {
                unit as u32
            },
        };
        self.high = None;
        self.bytes = encode(code);
        self.offset = 0;
        self.repeats = if count == 0 {
            1
        } else {
            count
        };
    }

    /// Go on with a read into a buffer of this size.
    pub fn read(&mut self, room: usize) -> (next: Read)
        requires
            old(self).wf(),
        ensures
            final(self).wf(),
            match next {
                Read::Done(out) => if room == 0 {
                    out@.len() == 0 && final(self)@ == old(self)@
                } else {
                    &&& old(self)@.repeats > 0
                    &&& (out@, final(self)@) == old(self)@.taken(room as int)
                    &&& out@.len() > 0
                },
                Read::Ask => room > 0 && old(self)@.repeats == 0 && final(self)@ == old(self)@,
            },
    {
        if room == 0 {
            return Read::Done(Vec::new());
        }
        if self.repeats > 0 {
            Read::Done(self.take(room))
        } else {
            Read::Ask
        }
    }

    /// An event came for a read that asked. Tells whether the host is to be told of another
    /// window size.
    pub fn record(&mut self, input: Input) -> (resized: bool)
        requires
            old(self).wf(),
            old(self)@.repeats == 0,
        ensures
            final(self).wf(),
            final(self)@ == old(self)@.after(input),
            resized == (input is Resized),
    {
        match input {
            Input::Resized => true,
            Input::Key { down, unit, count } => {
                if down {
                    self.key(unit, count);
                }
                false
            },
            _ => false,
        }
    }
}

/// The UTF-8 bytes of a character.
fn encode(code: u32) -> (bytes: Vec<u8>)
    requires
        is_scalar(code),
    ensures
        bytes@ == encode_scalar(code),
        1 <= bytes@.len() <= 4,
{
    let mut bytes: Vec<u8> = Vec::new();
    let last: u8 = 0x80 | (code & 0x3f) as u8;
    let second: u8 = 0x80 | ((code >> 6) & 0x3f) as u8;
    let third: u8 = 0x80 | ((code >> 12) & 0x3f) as u8;
    if code <= 0x7f {
        bytes.push((code & 0x7f) as u8);
    } else if code <= 0x7ff {
        bytes.push(0xc0 | ((code >> 6) & 0x1f) as u8);
        bytes.push(last);
    } else if code <= 0xffff {
        bytes.push(0xe0 | ((code >> 12) & 0x0f) as u8);
        bytes.push(second);
        bytes.push(last);
    } else {
        bytes.push(0xf0 | ((code >> 18) & 0x7) as u8);
        bytes.push(third);
        bytes.push(second);
        bytes.push(last);
    }
    assert(bytes@ =~= encode_scalar(code));
    bytes
}

/// A surrogate pair is read as the one character it stands for.
pub proof fn law_pair_is_one_character(high: u16, low: u16)
    requires
        is_high(high),
        is_low(low),
    ensures
        0x10000 <= scalar_of(Some(high), low) <= 0x10ffff,
        is_scalar(scalar_of(Some(high), low)),
{
}

/// Reads of any sizes together bring every byte of a key, as often as it repeats, and in
/// their order.
pub proof fn law_no_byte_is_lost(m: Model, room: int)
    requires
        m.repeats > 0,
        0 <= m.offset < m.bytes.len(),
        room > 0,
    ensures
        m.taken(room).0 + m.taken(room).1.pending() == m.pending(),
        m.taken(room).0.len() > 0,
{
    let (out, rest) = m.taken(room);
    let left = m.bytes.skip(m.offset);
    if left.len() > room {
        let others = (Model { offset: 0, repeats: m.repeats - 1, ..m }).pending();
        assert((Model { offset: 0, repeats: rest.repeats - 1, ..rest }) =~= (Model {
            offset: 0,
            repeats: m.repeats - 1,
            ..m
        }));
        assert(out + (rest.bytes.skip(rest.offset) + others) =~= left + others);
    }
}

/// A character is the one that was typed: a unit stands for itself, the two halves of a pair for the
/// character that they number together, and half a pair alone for none.
pub proof fn law_units_are_characters(high: u16, unit: u16)
    ensures
        0xd800 <= high <= 0xdbff && 0xdc00 <= unit <= 0xdfff ==> scalar_of(Some(high), unit)
            == 0x10000 + 0x400 * (high - 0xd800) + (unit - 0xdc00),
        !(0xd800 <= unit <= 0xdfff) ==> scalar_of(Some(high), unit) == unit && scalar_of(None, unit)
            == unit,
        0xdc00 <= unit <= 0xdfff ==> scalar_of(None, unit) == 0xfffd,
{
}

/// Bytes so many times over.
pub open spec fn times(bytes: Seq<u8>, n: nat) -> Seq<u8>
    decreases n,
{
    if n == 0 {
        Seq::empty()
    } else {
        bytes + times(bytes, (n - 1) as nat)
    }
}

proof fn lemma_pending(m: Model, n: nat)
    requires
        m.offset == 0,
        m.repeats == n,
    ensures
        m.pending() == times(m.bytes, n),
    decreases n,
{
    if n > 0 {
        let rest = Model { offset: 0, repeats: m.repeats - 1, ..m };
        lemma_pending(rest, (n - 1) as nat);
        assert(m.bytes.skip(0) =~= m.bytes);
    }
}

/// A key that went down brings its character as often as it repeats, and once where it tells no
/// number. The first half of a pair is held back for the second, and what carries no character
/// brings nothing: a key that went up, no key at all, a window of another size.
pub proof fn law_keys_bring_their_characters(m: Model, down: bool, unit: u16, count: u16)
    requires
        m.repeats == 0,
    ensures
        ({
            let n = m.after(Input::Key { down, unit, count });
            let held = 0xd800 <= unit <= 0xdbff;
            &&& !down || unit == 0 ==> n == m
            &&& down && held ==> n.pending().len() == 0 && n.high == Some(unit)
            &&& down && unit != 0 && !held ==> n.high is None && n.pending() == times(
                encode_scalar(scalar_of(m.high, unit)),
                if count == 0 {
                    1nat
                } else {
                    count as nat
                },
            )
            &&& m.after(Input::Resized) == m
            &&& m.after(Input::Nothing) == m
            &&& m.after(Input::Other) == m
        }),
{
    let n = m.after(Input::Key { down, unit, count });
    if down && unit != 0 && !is_high(unit) {
        lemma_pending(n, n.repeats as nat);
    }
}

/// A read brings no more than its buffer takes, and of one repetition as much as it takes.
pub proof fn law_read_fills_its_buffer(m: Model, room: int)
    requires
        m.repeats > 0,
        0 <= m.offset < m.bytes.len(),
        room > 0,
    ensures
        m.taken(room).0.len() <= room,
        m.taken(room).0.len() == room || m.taken(room).0 == m.bytes.skip(m.offset),
{
}

} // verus!
