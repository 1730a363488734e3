//! Named pipes: names, and a listener's ring of instances.
use crate::bytes::{from_le, law_le_round_trip, le, lemma_le_len, lemma_spans, push_le};
use crate::iocp::codes::{ERROR_IO_PENDING, ERROR_PIPE_BUSY, ERROR_PIPE_CONNECTED};
use crate::types::{invalid, Error, ErrorKind};
use vstd::prelude::*;

verus! {

/// How the name of a local pipe starts: `\\.\pipe\`.
pub open spec fn prefix() -> Seq<u16> {
    seq![92u16, 92, 46, 92, 112, 105, 112, 101, 92]
}

/// A local pipe name: the prefix, something behind it, and no zero.
pub open spec fn is_name(value: Seq<u16>) -> bool {
    value.len() > 9 && value.take(9) == prefix() && !value.contains(0)
}

/// The terminated form of a local pipe name.
pub fn name(value: &Vec<u16>) -> (text: Result<Vec<u16>, Error>)
    ensures
        match text {
            Ok(t) => is_name(value@) && t@ == value@.push(0),
            Err(e) => !is_name(value@) && e == Error::plain(ErrorKind::InvalidInput),
        },
{
    let start: [u16; 9] = [92, 92, 46, 92, 112, 105, 112, 101, 92];
    if value.len() <= 9 {
        return Err(invalid());
    }
    let mut text: Vec<u16> = Vec::new();
    let mut i: usize = 0;
    while i < value.len()
        invariant
            i <= value@.len(),
            value@.len() > 9,
            start@ == prefix(),
            text@ == value@.take(i as int),
            forall|k: int| 0 <= k < i && k < 9 ==> value@[k] == prefix()[k],
            forall|k: int| 0 <= k < i ==> value@[k] != 0,
        decreases value@.len() - i,
    {
        if i < 9 && value[i] != start[i] {
            assert(value@.take(9)[i as int] != prefix()[i as int]);
            return Err(invalid());
        }
        if value[i] == 0 {
            assert(value@.contains(value@[i as int]));
            return Err(invalid());
        }
        text.push(value[i]);
        assert(text@ =~= value@.take(i + 1));
        i = i + 1;
    }
    assert(value@.take(i as int) =~= value@);
    assert(value@.take(9) =~= prefix());
    text.push(0);
    Ok(text)
}

/// Judge the first look for a pipe: `true` is a connected one, `false` one without a free
/// instance, which is to be waited for.
pub fn open(reply: Result<(), Error>) -> (connected: Result<bool, Error>)
    ensures
        connected == (match reply {
            Ok(_) => Ok(true),
            Err(e) => if e.os == Some(ERROR_PIPE_BUSY) {
                Ok(false)
            } else {
                Err(e)
            },
        }),
{
    match reply {
        Ok(_) => Ok(true),
        Err(e) => if e.os == Some(ERROR_PIPE_BUSY) {
            Ok(false)
        } else {
            Err(e)
        },
    }
}

/// Characters as little-endian bytes.
pub open spec fn text_bytes(text: Seq<u16>) -> Seq<u8>
    decreases text.len(),
{
    if text.len() == 0 {
        Seq::empty()
    } else {
        text_bytes(text.drop_last()) + le(text.last() as nat, 2)
    }
}

/// No deadline, as a relative time: the least number but one.
pub const WAIT_FOREVER: u64 = 0x8000_0000_0000_0001;

/// Bytes before the name in a request to wait for a pipe.
pub const WAIT_HEADER: usize = 14;

/// A request to wait, without a deadline, for an instance of a pipe: the time, the length of
/// the name, the flag that the time is meant, and the name behind its prefix.
pub open spec fn wait_bytes(name: Seq<u16>) -> Seq<u8> {
    le(WAIT_FOREVER as nat, 8) + le((2 * (name.len() - 9)) as nat, 4) + seq![1u8, 0u8] + text_bytes(
        name.skip(9),
    )
}

/// The request to wait for an instance of a pipe with this name. A name that the request
/// cannot count is refused.
pub fn wait_request(name: &Vec<u16>) -> (request: Result<Vec<u8>, Error>)
    requires
        is_name(name@),
    ensures
        match request {
            Ok(r) => r@ == wait_bytes(name@) && r@.len() == WAIT_HEADER + 2 * (name@.len() - 9)
                && r@.len() <= u32::MAX,
            Err(e) => WAIT_HEADER + 2 * (name@.len() - 9) > u32::MAX && e == Error::plain(
                ErrorKind::InvalidInput,
            ),
        },
{
    let n: usize = name.len() - 9;
    if n > 0x7fff_fff8 {
        return Err(invalid());
    }
    let mut out: Vec<u8> = Vec::new();
    push_le(&mut out, WAIT_FOREVER, 8);
    push_le(&mut out, 2 * (n as u64), 4);
    out.push(1);
    out.push(0);
    let ghost head = le(WAIT_FOREVER as nat, 8) + le((2 * n) as nat, 4) + seq![1u8, 0u8];
    assert(out@ =~= head);
    let ghost text = name@.skip(9);
    let mut i: usize = 0;
    assert(text.take(0) =~= Seq::empty());
    assert(head + text_bytes(text.take(0)) =~= head);
    proof {
        lemma_le_len(WAIT_FOREVER as nat, 8);
        lemma_le_len((2 * n) as nat, 4);
    }
    while i < n
        invariant
            i <= n,
            name@.len() == n + 9,
            n <= 0x7fff_fff8,
            text == name@.skip(9),
            out@ == head + text_bytes(text.take(i as int)),
            out@.len() == 14 + 2 * i,
            head.len() == 14,
        decreases n - i,
    {
        push_le(&mut out, name[9 + i] as u64, 2);
        proof {
            assert(text.take(i + 1).drop_last() =~= text.take(i as int));
            assert(text.take(i + 1).last() == name@[9 + i]);
            lemma_le_len(name@[9 + i] as nat, 2);
        }
        assert(out@ =~= head + text_bytes(text.take(i + 1)));
        i = i + 1;
    }
    assert(text.take(i as int) =~= text);
    Ok(out)
}

/// One instance slot of a listener.
#[derive(Clone, Copy, Debug, PartialEq, Eq)]
pub struct Slot {
    /// The kernel holds its connect.
    pub waiting: bool,
    /// How its connect ended, until it is accepted.
    pub ready: Option<Result<(), Error>>,
}

/// The instances of a listener, accepted in turn.
#[derive(Debug)]
pub struct Listener {
    slots: Vec<Slot>,
    cursor: usize,
}

/// The slot after connecting its instance replied.
pub open spec fn armed(reply: Result<(), Error>) -> Result<Slot, Error> {
    match reply {
        Ok(_) => Ok(Slot { waiting: false, ready: Some(Ok(())) }),
        Err(e) => if e.os == Some(ERROR_IO_PENDING) {
            Ok(Slot { waiting: true, ready: None })
        } else if e.os == Some(ERROR_PIPE_CONNECTED) {
            Ok(Slot { waiting: false, ready: Some(Ok(())) })
        } else {
            Err(e)
        },
    }
}

/// Judge the connect of a fresh instance: a client may be there already.
pub fn arm(reply: Result<(), Error>) -> (slot: Result<Slot, Error>)
    ensures
        slot == armed(reply),
{
    match reply {
        Ok(_) => Ok(Slot { waiting: false, ready: Some(Ok(())) }),
        Err(e) => if e.os == Some(ERROR_IO_PENDING) {
            Ok(Slot { waiting: true, ready: None })
        } else if e.os == Some(ERROR_PIPE_CONNECTED) {
            Ok(Slot { waiting: false, ready: Some(Ok(())) })
        } else {
            Err(e)
        },
    }
}

/// The `step`-th slot from the cursor on, around the ring.
pub open spec fn around(cursor: int, step: int, len: int) -> int {
    if cursor + step < len {
        cursor + step
    } else {
        cursor + step - len
    }
}

impl View for Listener {
    type V = Seq<Slot>;

    closed spec fn view(&self) -> Seq<Slot> {
        self.slots@
    }
}

impl Listener {
    /// Where the next accept starts looking.
    pub closed spec fn at(&self) -> int {
        self.cursor as int
    }

    pub closed spec fn wf(&self) -> bool {
        self.slots@.len() > 0 && self.cursor < self.slots@.len()
    }

    /// How many instances a backlog asks for: one at least.
    pub fn instances(backlog: u32) -> (n: usize)
        ensures
            n == (if backlog == 0 {
                1
            } else {
                backlog as int
            }),
    {
        if backlog == 0 {
            1
        } else {
            backlog as usize
        }
    }

    /// A listener over armed instances.
    pub fn new(slots: Vec<Slot>) -> (listener: Self)
        requires
            slots@.len() > 0,
        ensures
            listener.wf(),
            listener@ == slots@,
            listener.at() == 0,
    {
        Listener { slots, cursor: 0 }
    }

    /// A packet for the connect of slot `i`, with its outcome. A packet nobody waits for is
    /// refused.
    pub fn completed(&mut self, i: usize, outcome: Result<(), Error>) -> (done: Result<(), Error>)
        requires
            old(self).wf(),
        ensures
            final(self).wf(),
            final(self).at() == old(self).at(),
            if i < old(self)@.len() && old(self)@[i as int].waiting {
                done is Ok && final(self)@ == old(self)@.update(
                    i as int,
                    Slot { waiting: false, ready: Some(outcome) },
                )
            } else {
                done == Err::<(), Error>(Error::plain(ErrorKind::InvalidInput)) && final(self)@
                    == old(self)@
            },
    {
        if i >= self.slots.len() || !self.slots[i].waiting {
            return Err(invalid());
        }
        self.slots[i] = Slot { waiting: false, ready: Some(outcome) };
        Ok(())
    }

    /// The first instance with a connect outcome, looking around the ring from the cursor.
    pub fn next_ready(&self) -> (slot: Option<usize>)
        requires
            self.wf(),
        ensures
            match slot {
                Some(i) => i < self@.len() && self@[i as int].ready is Some && exists|step: int|
                    0 <= step < self@.len() && i == #[trigger] around(
                        self.at(),
                        step,
                        self@.len() as int,
                    ) && forall|s: int|
                        0 <= s < step ==> self@[#[trigger] around(
                            self.at(),
                            s,
                            self@.len() as int,
                        )].ready is None,
                None => forall|i: int| 0 <= i < self@.len() ==> (#[trigger] self@[i]).ready is None,
            },
    {
        let n: usize = self.slots.len();
        let mut step: usize = 0;
        let mut i: usize = self.cursor;
        while step < n
            invariant
                n == self.slots@.len(),
                self.cursor < n,
                step <= n,
                step < n ==> i == around(self.cursor as int, step as int, n as int),
                forall|s: int|
                    0 <= s < step ==> self.slots@[#[trigger] around(
                        self.cursor as int,
                        s,
                        n as int,
                    )].ready is None,
            decreases n - step,
        {
            if self.slots[i].ready.is_some() {
                assert(i == around(self.at(), step as int, self@.len() as int));
                return Some(i);
            }
            step = step + 1;
            i = if i + 1 < n {
                i + 1
            } else {
                0
            };
        }
        assert forall|k: int| 0 <= k < self@.len() implies (#[trigger] self@[k]).ready is None by {
            let s = if k >= self.cursor {
                k - self.cursor
            } else {
                k + n - self.cursor
            };
            assert(around(self.cursor as int, s, n as int) == k);
        }
        None
    }

    /// Accept slot `i`, refilled as `refill`; a slot that could not be refilled reports
    /// that on a later accept. The result is how the client's connect ended.
    pub fn accept(&mut self, i: usize, refill: Result<Slot, Error>) -> (outcome: Result<
        (),
        Error,
    >)
        requires
            old(self).wf(),
            i < old(self)@.len(),
            old(self)@[i as int].ready is Some,
        ensures
            final(self).wf(),
            outcome == old(self)@[i as int].ready->0,
            final(self).at() == (if i + 1 < old(self)@.len() {
                i + 1
            } else {
                0
            }),
            final(self)@ == old(self)@.update(
                i as int,
                match refill {
                    Ok(slot) => slot,
                    Err(e) => Slot { waiting: false, ready: Some(Err(e)) },
                },
            ),
    {
        let outcome = match self.slots[i].ready {
            Some(outcome) => outcome,
            None => Ok(()),
        };
        let n: usize = self.slots.len();
        self.cursor = if i < n - 1 {
            i + 1
        } else {
            0
        };
        self.slots[i] = match refill {
            Ok(slot) => slot,
            Err(e) => Slot { waiting: false, ready: Some(Err(e)) },
        };
        outcome
    }
}

/// Looking around the ring visits every slot once: no ready instance is passed over.
pub proof fn law_ring_visits_every_slot(cursor: int, len: int, i: int)
    requires
        0 <= cursor < len,
        0 <= i < len,
    ensures
        exists|step: int| 0 <= step < len && #[trigger] around(cursor, step, len) == i,
{
    let step = if i >= cursor {
        i - cursor
    } else {
        i + len - cursor
    };
    assert(around(cursor, step, len) == i);
}

/// An instance whose connect went through, or whose client was there before, is ready; one whose
/// client is still to come waits with the kernel; anything else failed.
pub proof fn law_instances_are_armed(reply: Result<(), Error>)
    ensures
        match armed(reply) {
            Ok(slot) => {
                &&& slot.waiting <==> reply is Err && reply->Err_0.os == Some(997i32)
                &&& slot.waiting ==> slot.ready is None
                &&& !slot.waiting ==> slot.ready == Some(Ok::<(), Error>(())) && (reply is Ok
                    || reply->Err_0.os == Some(535i32))
            },
            Err(e) => reply == Err::<(), Error>(e) && e.os != Some(997i32) && e.os != Some(535i32),
        },
{
}

/// A name is one of a local pipe when it starts with its nine characters, goes on behind them, and
/// holds no zero.
pub proof fn law_pipe_names_are_local(value: Seq<u16>)
    ensures
        is_name(value) <==> {
            &&& value.len() > 9
            &&& value[0] == 92 && value[1] == 92 && value[2] == 46 && value[3] == 92
            &&& value[4] == 112 && value[5] == 105 && value[6] == 112 && value[7] == 101
            &&& value[8] == 92
            &&& forall|k: int| 0 <= k < value.len() ==> #[trigger] value[k] != 0
        },
{
    if value.len() > 9 {
        let start = value.take(9);
        if start == prefix() {
            assert(start[0] == 92 && start[1] == 92 && start[2] == 46 && start[3] == 92 && start[4]
                == 112 && start[5] == 105 && start[6] == 112 && start[7] == 101 && start[8] == 92);
        }
        if value[0] == 92 && value[1] == 92 && value[2] == 46 && value[3] == 92 && value[4] == 112
            && value[5] == 105 && value[6] == 112 && value[7] == 101 && value[8] == 92 {
            assert(start =~= prefix());
        }
    }
    if !value.contains(0) {
        assert forall|k: int| 0 <= k < value.len() implies #[trigger] value[k] != 0 by {
            if value[k] == 0 {
                assert(value.contains(value[k]));
            }
        }
    }
}

proof fn lemma_text_bytes(text: Seq<u16>, k: int)
    requires
        0 <= k < text.len(),
    ensures
        text_bytes(text).len() == 2 * text.len(),
        text_bytes(text)[2 * k] + 256 * text_bytes(text)[2 * k + 1] == text[k],
    decreases text.len(),
{
    let front = text.drop_last();
    let last = text.last();
    reveal_with_fuel(le, 3);
    lemma_le_len(last as nat, 2);
    let pair = le(last as nat, 2);
    assert(pair[0] == last % 256);
    assert(pair[1] == last / 256 % 256);
    if front.len() > 0 {
        lemma_text_bytes(
            front,
            if k < front.len() {
                k
            } else {
                0
            },
        );
    } else {
        assert(text_bytes(front).len() == 0);
    }
    if k < front.len() {
        assert(text_bytes(text)[2 * k] == text_bytes(front)[2 * k]);
        assert(text_bytes(text)[2 * k + 1] == text_bytes(front)[2 * k + 1]);
        assert(front[k] == text[k]);
    } else {
        assert(text_bytes(text)[2 * k] == pair[0]);
        assert(text_bytes(text)[2 * k + 1] == pair[1]);
    }
}

/// A request to wait for a pipe has no deadline, says how long the name is, and carries the name
/// behind its nine characters, each with the low byte first.
pub proof fn law_wait_names_its_pipe(name: Seq<u16>, k: int)
    requires
        9 < name.len(),
        14 + 2 * (name.len() - 9) <= u32::MAX,
        0 <= k < name.len() - 9,
    ensures
        ({
            let bytes = wait_bytes(name);
            &&& bytes.len() == 14 + 2 * (name.len() - 9)
            &&& from_le(bytes.subrange(0, 8)) == 0x8000_0000_0000_0001
            &&& from_le(bytes.subrange(8, 12)) == 2 * (name.len() - 9)
            &&& bytes[12] == 1
            &&& bytes[14 + 2 * k] + 256 * bytes[15 + 2 * k] == name[9 + k]
        }),
{
    let bytes = wait_bytes(name);
    let n = (2 * (name.len() - 9)) as nat;
    lemma_spans();
    lemma_le_len(WAIT_FOREVER as nat, 8);
    lemma_le_len(n, 4);
    law_le_round_trip(WAIT_FOREVER as nat, 8);
    law_le_round_trip(n, 4);
    let text = name.skip(9);
    lemma_text_bytes(text, k);
    assert(bytes.subrange(0, 8) =~= le(WAIT_FOREVER as nat, 8));
    assert(bytes.subrange(8, 12) =~= le(n, 4));
    assert(bytes[14 + 2 * k] == text_bytes(text)[2 * k]);
    assert(bytes[15 + 2 * k] == text_bytes(text)[2 * k + 1]);
    assert(text[k] == name[9 + k]);
}

} // verus!
