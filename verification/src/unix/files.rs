//! Regular files: jobs for worker threads, since a file never blocks a poller.
use crate::payload::{covered, law_remaining_is_exact, length, payload, remaining, segments, Segment};
use crate::readiness::content::{
    gathered, lemma_places, lemma_remaining_content, lemma_whole_len, seen, whole,
};
use crate::buffers::{goes_back, going_back, handed_out};
use crate::types::{
    unsupported, Completions, Error, ErrorKind, Event, Lease, OpId, Operation, Outcome, ReadBuf, Request,
};
use std::collections::VecDeque;
use vstd::prelude::*;

verus! {

/// What a file job achieved.
#[derive(Clone, Copy, Debug, PartialEq, Eq, Structural)]
pub enum FileOutcome {
    Read(usize),
    Wrote(usize),
    Eof,
    Cancelled,
}

/// The jobs as plain mathematics.
#[verifier::ext_equal]
pub struct Model {
    /// The operation that occupies each job slot.
    pub active: Seq<Option<OpId>>,
    /// The pool buffer each job reads into.
    pub leases: Seq<Option<Lease>>,
    /// Jobs that are not to start any more.
    pub stopped: Seq<bool>,
    /// Jobs that a worker holds or will hold.
    pub running: nat,
}

/// Which operations a file takes.
pub open spec fn takes(op: Operation) -> bool {
    match op {
        Operation::Read { multishot, .. } => !multishot,
        Operation::Write(_) | Operation::Writev(_) => true,
        _ => false,
    }
}

/// The job table.
#[derive(Debug)]
pub struct Files {
    active: Vec<Option<OpId>>,
    leases: Vec<Option<Lease>>,
    stopped: Vec<bool>,
    running: usize,
}

impl View for Files {
    type V = Model;

    closed spec fn view(&self) -> Model {
        Model {
            active: self.active@,
            leases: self.leases@,
            stopped: self.stopped@,
            running: self.running as nat,
        }
    }
}

impl Model {
    /// The slot of `op` runs exactly this generation of it.
    pub open spec fn runs(self, op: OpId) -> bool {
        op.spec_index() < self.active.len() && self.active[op.spec_index()] == Some(op)
    }

    /// A job handed to the workers.
    pub open spec fn submitted(self, op: OpId, lease: Option<Lease>) -> Model {
        let i = op.spec_index();
        Model {
            active: self.active.update(i, Some(op)),
            leases: self.leases.update(i, lease),
            stopped: self.stopped.update(i, false),
            running: self.running + 1,
        }
    }

    /// A job that ended and was reported.
    pub open spec fn delivered(self, op: OpId) -> Model {
        let i = op.spec_index();
        Model {
            active: self.active.update(i, None),
            leases: self.leases.update(i, None),
            ..self
        }
    }
}

/// The completion of a finished job.
pub open spec fn completion<D>(
    op: OpId,
    lease: Option<Lease>,
    result: Result<FileOutcome, Error>,
) -> Event<D> {
    Event {
        op,
        terminal: true,
        result: match result {
            Ok(FileOutcome::Read(n)) => Ok(Outcome::Read { n, lease }),
            Ok(FileOutcome::Wrote(n)) => Ok(Outcome::Wrote(n)),
            Ok(FileOutcome::Eof) => Ok(Outcome::Eof),
            Ok(FileOutcome::Cancelled) => Ok(Outcome::Cancelled),
            Err(e) => Err(e),
        },
    }
}

impl Files {
    /// The three tables describe the same slots.
    pub closed spec fn wf(&self) -> bool {
        &&& self.active@.len() == self.leases@.len()
        &&& self.active@.len() == self.stopped@.len()
    }

    /// Room for `operations` jobs.
    pub fn new(operations: usize) -> (files: Self)
        ensures
            files.wf(),
            files@.active == Seq::new(operations as nat, |i: int| None::<OpId>),
            files@.leases == Seq::new(operations as nat, |i: int| None::<Lease>),
            files@.stopped == Seq::new(operations as nat, |i: int| false),
            files@.running == 0,
    {
        let mut active: Vec<Option<OpId>> = Vec::new();
        let mut leases: Vec<Option<Lease>> = Vec::new();
        let mut stopped: Vec<bool> = Vec::new();
        let mut i: usize = 0;
        while i < operations
            invariant
                i <= operations,
                active@ == Seq::new(i as nat, |i: int| None::<OpId>),
                leases@ == Seq::new(i as nat, |i: int| None::<Lease>),
                stopped@ == Seq::new(i as nat, |i: int| false),
            decreases operations - i,
        {
            active.push(None);
            leases.push(None);
            stopped.push(false);
            i = i + 1;
        }
        Files { active, leases, stopped, running: 0 }
    }

    /// Accept a job. A pooled read needs the buffer that the host acquired for it. The
    /// workers' queue answered `queued`: a refusal undoes everything.
    pub fn submit(
        &mut self,
        request: &Request,
        lease: Option<Lease>,
        queued: Result<(), Error>,
    ) -> (done: Result<(), Error>)
        requires
            old(self).wf(),
            request.op.spec_index() < old(self)@.active.len(),
            old(self)@.active[request.op.spec_index()] is None,
            old(self)@.leases[request.op.spec_index()] is None,
            old(self)@.running < usize::MAX,
        ensures
            final(self).wf(),
            ({
                let pooled = request.operation matches Operation::Read {
                    buf: ReadBuf::Pooled,
                    ..
                };
                let i = request.op.spec_index();
                if !takes(request.operation) {
                    done == Err::<(), Error>(Error::plain(ErrorKind::Unsupported))
                        && final(self)@ == old(self)@
                } else if pooled && lease is None {
                    done == Err::<(), Error>(Error::plain(ErrorKind::ResourceLimit))
                        && final(self)@ == old(self)@
                } else if queued is Err {
                    done == queued && final(self)@ == (Model {
                        stopped: old(self)@.stopped.update(i, false),
                        ..old(self)@
                    })
                } else {
                    done is Ok && final(self)@ == old(self)@.submitted(
                        request.op,
                        if pooled {
                            lease
                        } else {
                            None
                        },
                    )
                }
            }),
    {
        let pooled = match &request.operation {
            Operation::Read { buf, multishot } => {
                if *multishot {
                    return Err(unsupported());
                }
                *buf == ReadBuf::Pooled
            },
            Operation::Write(_) => false,
            Operation::Writev(_) => false,
            _ => {
                return Err(unsupported());
            },
        };
        if pooled && lease.is_none() {
            return Err(Error::new(ErrorKind::ResourceLimit));
        }
        let i: usize = request.op.index();
        self.stopped[i] = false;
        if let Err(e) = queued {
            return Err(e);
        }
        self.leases[i] = if pooled {
            lease
        } else {
            None
        };
        self.running = self.running + 1;
        self.active[i] = Some(request.op);
        assert(old(self)@.leases[i as int] is None);
        Ok(())
    }

    /// Keep a job from starting; false if no such job runs here.
    pub fn cancel(&mut self, op: OpId) -> (found: bool)
        requires
            old(self).wf(),
        ensures
            final(self).wf(),
            found == old(self)@.runs(op),
            final(self)@ == (if found {
                Model { stopped: old(self)@.stopped.update(op.spec_index(), true), ..old(self)@ }
            } else {
                old(self)@
            }),
    {
        let i: usize = op.index();
        if i >= self.active.len() || self.active[i] != Some(op) {
            return false;
        }
        self.stopped[i] = true;
        true
    }

    /// Whether a worker that picks the job up still performs it.
    pub fn starts(&self, op: OpId) -> (go: bool)
        requires
            self.wf(),
            op.spec_index() < self@.active.len(),
        ensures
            go == !self@.stopped[op.spec_index()],
    {
        !self.stopped[op.index()]
    }

    /// A worker is done with a job.
    pub fn finished(&mut self)
        requires
            old(self).wf(),
            old(self)@.running > 0,
        ensures
            final(self).wf(),
            final(self)@ == (Model { running: (old(self)@.running - 1) as nat, ..old(self)@ }),
    {
        self.running = self.running - 1;
    }

    /// Whether no worker holds a job: only then may the table go away.
    pub fn quiescent(&self) -> (quiet: bool)
        ensures
            quiet == (self@.running == 0),
    {
        self.running == 0
    }

    /// Turn a worker's result into the terminal completion of its operation.
    pub fn deliver<D>(&mut self, op: OpId, result: Result<FileOutcome, Error>) -> (event: Event<D>)
        requires
            old(self).wf(),
            op.spec_index() < old(self)@.active.len(),
        ensures
            final(self).wf(),
            final(self)@ == old(self)@.delivered(op),
            event == completion::<D>(op, old(self)@.leases[op.spec_index()], result),
    {
        let i: usize = op.index();
        self.active[i] = None;
        let lease = self.leases[i];
        self.leases[i] = None;
        let result = match result {
            Ok(FileOutcome::Read(n)) => Ok(Outcome::Read { n, lease }),
            Ok(FileOutcome::Wrote(n)) => Ok(Outcome::Wrote(n)),
            Ok(FileOutcome::Eof) => Ok(Outcome::Eof),
            Ok(FileOutcome::Cancelled) => Ok(Outcome::Cancelled),
            Err(e) => Err(e),
        };
        Event { op, terminal: true, result }
    }
}

/// A delivered job no longer runs, and a pool buffer goes out with its completion only
/// once.
pub proof fn law_delivered_once(m: Model, op: OpId)
    requires
        m.runs(op),
        m.leases.len() == m.active.len(),
    ensures
        !m.delivered(op).runs(op),
        m.delivered(op).leases[op.spec_index()] is None,
{
}

/// The buffer of a job goes out with its bytes, or back to the pool: an end of file, a failure
/// and a cancellation hand none out.
pub proof fn law_buffer_goes_out_or_back<D>(
    op: OpId,
    lease: Option<Lease>,
    result: Result<FileOutcome, Error>,
)
    ensures
        match result {
            Ok(FileOutcome::Read(_)) => handed_out(completion::<D>(op, lease, result)) == lease
                && going_back(lease, None, Some(completion::<D>(op, lease, result))) is None,
            _ => handed_out(completion::<D>(op, lease, result)) is None && going_back(
                lease,
                None,
                Some(completion::<D>(op, lease, result)),
            ) == lease,
        },
{
}

/// The result of a job, as a worker left it.
#[derive(Clone, Copy, Debug, PartialEq, Eq)]
pub struct Finished {
    pub op: OpId,
    pub result: Result<FileOutcome, Error>,
}

/// The jobs, the completions and the buffers that go back after the first `n` results.
pub open spec fn collected<D>(m: Model, results: Seq<Finished>, n: int) -> (
    Model,
    Seq<Event<D>>,
    Seq<Lease>,
)
    decreases n,
{
    if n <= 0 {
        (m, Seq::empty(), Seq::empty())
    } else {
        let (k, events, back) = collected::<D>(m, results, n - 1);
        let r = results[n - 1];
        let lease = k.leases[r.op.spec_index()];
        let event = completion::<D>(r.op, lease, r.result);
        (
            k.delivered(r.op),
            events.push(event),
            match going_back(lease, None, Some(event)) {
                Some(free) => back.push(free),
                None => back,
            },
        )
    }
}

impl Files {
    /// Tell what the workers are done with, oldest first, while there is room. Tells which
    /// buffers go back to the pool.
    pub fn poll<D>(&mut self, results: &mut VecDeque<Finished>, events: &mut Completions<D>) -> (back:
        Vec<Lease>)
        requires
            old(self).wf(),
            forall|k: int|
                0 <= k < old(results)@.len() ==> (#[trigger] old(results)@[k]).op.spec_index()
                    < old(self)@.active.len(),
        ensures
            final(self).wf(),
            final(events).capacity() == old(events).capacity(),
            ({
                let room = old(events).capacity() - old(events)@.len();
                let n = if old(results)@.len() <= room {
                    old(results)@.len() as int
                } else {
                    room
                };
                let (m, told, freed) = collected::<D>(old(self)@, old(results)@, n);
                &&& final(self)@ == m
                &&& final(events)@ == old(events)@ + told
                &&& back@ == freed
                &&& final(results)@ == old(results)@.skip(n)
            }),
    {
        let ghost before = self@;
        let ghost queue = results@;
        let ghost told_before = events@;
        let ghost mut n: int = 0;
        let mut back: Vec<Lease> = Vec::new();
        let start: usize = events.len();
        assert(results@ =~= queue.skip(0));
        assert(events@ =~= told_before + collected::<D>(before, queue, 0).1);
        while events.has_room() && results.len() > 0
            invariant
                self.wf(),
                before == old(self)@,
                queue == old(results)@,
                told_before == old(events)@,
                0 <= n <= queue.len(),
                results@ == queue.skip(n),
                self@ == collected::<D>(before, queue, n).0,
                self@.active.len() == before.active.len(),
                events@ == told_before + collected::<D>(before, queue, n).1,
                events@.len() == told_before.len() + n,
                events@.len() <= events.capacity(),
                events.capacity() == old(events).capacity(),
                back@ == collected::<D>(before, queue, n).2,
                forall|k: int|
                    0 <= k < queue.len() ==> (#[trigger] queue[k]).op.spec_index()
                        < before.active.len(),
            decreases queue.len() - n,
        {
            if let Some(done) = results.pop_front() {
                proof {
                    assert(done == queue[n]);
                    n = n + 1;
                    assert(results@ =~= queue.skip(n));
                }
                let lease = self.leases[done.op.index()];
                let event = Some(self.deliver(done.op, done.result));
                if let Some(free) = goes_back(lease, None, &event) {
                    back.push(free);
                }
                if let Some(event) = event {
                    events.push(event);
                }
                assert(events@ =~= told_before + collected::<D>(before, queue, n).1);
            }
        }
        back
    }
}

/// What a read call of a job means.
pub open spec fn read_means(reply: Result<usize, Error>, interrupted: i32) -> Option<
    Result<FileOutcome, Error>,
> {
    match reply {
        Ok(n) => if n == 0 {
            Some(Ok(FileOutcome::Eof))
        } else {
            Some(Ok(FileOutcome::Read(n)))
        },
        Err(e) => if e.os == Some(interrupted) {
            None
        } else {
            Some(Err(e))
        },
    }
}

/// What a read call of a job means: an interrupted one is repeated (`None`).
pub fn read_reply(reply: Result<usize, Error>, interrupted: i32) -> (outcome: Option<
    Result<FileOutcome, Error>,
>)
    ensures
        outcome == read_means(reply, interrupted),
        outcome == (match reply {
            Ok(n) => if n == 0 {
                Some(Ok(FileOutcome::Eof))
            } else {
                Some(Ok(FileOutcome::Read(n)))
            },
            Err(e) => if e.os == Some(interrupted) {
                None
            } else {
                Some(Err(e))
            },
        }),
{
    match reply {
        Ok(n) => if n == 0 {
            Some(Ok(FileOutcome::Eof))
        } else {
            Some(Ok(FileOutcome::Read(n)))
        },
        Err(e) => if e.os == Some(interrupted) {
            None
        } else {
            Some(Err(e))
        },
    }
}

/// The part of a payload that is written next, after so many bytes of it.
pub open spec fn upcoming(lens: Seq<usize>, written: int) -> Option<Segment> {
    let parts = remaining(lens, 0, written);
    if parts.len() == 0 {
        None
    } else {
        Some(parts[0])
    }
}

/// Bytes written, and how the job ended if it did, after a write call.
pub open spec fn accounted(
    lens: Seq<usize>,
    written: int,
    reply: Result<usize, Error>,
    interrupted: i32,
) -> (int, Option<Result<FileOutcome, Error>>) {
    let whole = crate::payload::total(lens);
    match reply {
        Err(e) => if e.os == Some(interrupted) {
            (written, None)
        } else {
            (written, Some(Err(e)))
        },
        Ok(n) => if n == 0 {
            (written, Some(Err(Error::plain(ErrorKind::BrokenPipe))))
        } else if written + n == whole {
            (whole, Some(Ok(FileOutcome::Wrote(whole as usize))))
        } else {
            (written + n, None)
        },
    }
}

/// A write job in progress: every segment is written completely and in order.
#[derive(Debug)]
pub struct WriteJob {
    lens: Vec<usize>,
    offset: usize,
    len: usize,
}

impl WriteJob {
    /// The segments of the payload.
    pub closed spec fn segments(&self) -> Seq<usize> {
        self.lens@
    }

    /// Bytes written so far.
    pub closed spec fn written(&self) -> int {
        self.offset as int
    }

    pub closed spec fn wf(&self) -> bool {
        &&& self.len == crate::payload::total(self.lens@)
        &&& self.offset <= self.len
    }

    /// Start writing segments of these lengths.
    pub fn new(lens: Vec<usize>) -> (job: Self)
        requires
            crate::payload::total(lens@) <= usize::MAX,
        ensures
            job.wf(),
            job.segments() == lens@,
            job.written() == 0,
    {
        let len = length(&lens);
        WriteJob { lens, offset: 0, len }
    }

    /// The bytes to write next: the rest of the first unfinished segment. None once all
    /// is written.
    pub fn next(&self) -> (part: Option<Segment>)
        requires
            self.wf(),
        ensures
            ({
                let parts = remaining(self.segments(), 0, self.written());
                part == (if parts.len() == 0 {
                    None
                } else {
                    Some(parts[0])
                })
            }),
            part == upcoming(self.segments(), self.written()),
            part is None <==> self.written() == crate::payload::total(self.segments()),
            part matches Some(p) ==> self.written() + p.len <= crate::payload::total(
                self.segments(),
            ),
    {
        let parts = segments(&self.lens, self.offset);
        proof {
            lemma_first_part(self.lens@, self.offset as int);
        }
        if parts.len() == 0 {
            None
        } else {
            Some(parts[0])
        }
    }

    /// What the job yields once nothing is left to write: of an empty payload that holds
    /// from the start, without a call.
    pub fn finished(&self) -> (outcome: Option<FileOutcome>)
        requires
            self.wf(),
        ensures
            outcome == (if self.written() == crate::payload::total(self.segments()) {
                Some(FileOutcome::Wrote(crate::payload::total(self.segments()) as usize))
            } else {
                None
            }),
    {
        if self.offset == self.len {
            Some(FileOutcome::Wrote(self.len))
        } else {
            None
        }
    }

    /// Account for a write call on the part that `next` named. An interrupted call is
    /// repeated; a call that wrote nothing means that the file takes no more.
    pub fn wrote(&mut self, reply: Result<usize, Error>, interrupted: i32) -> (outcome: Option<
        Result<FileOutcome, Error>,
    >)
        requires
            old(self).wf(),
            old(self).written() < crate::payload::total(old(self).segments()),
            reply matches Ok(n) ==> n <= remaining(
                old(self).segments(),
                0,
                old(self).written(),
            )[0].len,
        ensures
            final(self).wf(),
            final(self).segments() == old(self).segments(),
            (final(self).written(), outcome) == accounted(
                old(self).segments(),
                old(self).written(),
                reply,
                interrupted,
            ),
            match reply {
                Err(e) => {
                    &&& final(self).written() == old(self).written()
                    &&& outcome == (if e.os == Some(interrupted) {
                        None::<Result<FileOutcome, Error>>
                    } else {
                        Some(Err(e))
                    })
                },
                Ok(n) => if n == 0 {
                    outcome == Some(
                        Err::<FileOutcome, Error>(Error::plain(ErrorKind::BrokenPipe)),
                    ) && final(self).written() == old(self).written()
                } else {
                    let whole = crate::payload::total(old(self).segments());
                    &&& final(self).written() == old(self).written() + n
                    &&& outcome == (if final(self).written() == whole {
                        Some(Ok::<FileOutcome, Error>(FileOutcome::Wrote(whole as usize)))
                    } else {
                        None
                    })
                },
            },
    {
        match reply {
            Err(e) => {
                if e.os == Some(interrupted) {
                    return None;
                }
                Some(Err(e))
            },
            Ok(n) => {
                if n == 0 {
                    return Some(Err(Error::new(ErrorKind::BrokenPipe)));
                }
                proof {
                    lemma_first_part(self.lens@, self.offset as int);
                }
                self.offset = self.offset + n;
                if self.offset == self.len {
                    Some(Ok(FileOutcome::Wrote(self.len)))
                } else {
                    None
                }
            },
        }
    }
}

/// While bytes remain there is a first part, and it lies within them.
proof fn lemma_first_part(lens: Seq<usize>, offset: int)
    requires
        0 <= offset <= crate::payload::total(lens),
    ensures
        ({
            let parts = remaining(lens, 0, offset);
            &&& parts.len() == 0 <==> offset == crate::payload::total(lens)
            &&& parts.len() > 0 ==> parts[0].len > 0 && offset + parts[0].len
                <= crate::payload::total(lens)
        }),
{
    assert(lens.take(0) =~= Seq::<usize>::empty());
    law_remaining_is_exact(lens, 0, offset);
    let parts = remaining(lens, 0, offset);
    lemma_parts_positive(lens, 0, offset);
    if parts.len() > 0 {
        lemma_covered_nonnegative(parts.drop_first());
    }
}

proof fn lemma_covered_nonnegative(parts: Seq<Segment>)
    ensures
        covered(parts) >= 0,
    decreases parts.len(),
{
    if parts.len() > 0 {
        lemma_covered_nonnegative(parts.drop_first());
    }
}

proof fn lemma_parts_positive(lens: Seq<usize>, from: int, skip: int)
    requires
        0 <= from <= lens.len(),
        skip >= 0,
    ensures
        forall|k: int|
            0 <= k < remaining(lens, from, skip).len() ==> (#[trigger] remaining(
                lens,
                from,
                skip,
            )[k]).len > 0,
    decreases lens.len() - from,
{
    if from < lens.len() {
        if skip >= lens[from] {
            lemma_parts_positive(lens, from + 1, skip - lens[from]);
            assert(remaining(lens, from, skip) == remaining(lens, from + 1, skip - lens[from]));
        } else {
            lemma_parts_positive(lens, from + 1, 0);
            let rest = remaining(lens, from + 1, 0);
            assert forall|k: int| 0 <= k < remaining(lens, from, skip).len() implies (
            #[trigger] remaining(lens, from, skip)[k]).len > 0 by {
                if k > 0 {
                    assert(remaining(lens, from, skip)[k] == rest[k - 1]);
                }
            }
        }
    }
}

/// What a write call is handed, over any run of calls: the part that comes next, and none once all
/// is written. It is the start of what is left of the payload.
pub proof fn law_part_is_what_is_left(bufs: Seq<Seq<u8>>, lens: Seq<usize>, written: int)
    requires
        bufs.len() == lens.len() <= usize::MAX,
        forall|i: int| 0 <= i < bufs.len() ==> (#[trigger] bufs[i]).len() == lens[i],
        0 <= written <= whole(bufs, 0).len(),
    ensures
        ({
            let left = whole(bufs, 0).skip(written);
            match upcoming(lens, written) {
                Some(part) => {
                    &&& part.index < bufs.len()
                    &&& part.skip + part.len <= bufs[part.index as int].len()
                    &&& 0 < part.len <= left.len()
                    &&& seen(bufs, part) == left.take(part.len as int)
                },
                None => left.len() == 0,
            }
        }),
{
    lemma_remaining_content(bufs, lens, 0, written);
    lemma_places(bufs, lens, 0, written);
    lemma_parts_positive(lens, 0, written);
    let parts = remaining(lens, 0, written);
    let left = whole(bufs, 0).skip(written);
    if parts.len() > 0 {
        assert(gathered(bufs, parts) == seen(bufs, parts[0]) + gathered(bufs, parts.drop_first()));
        assert(left.take(parts[0].len as int) =~= seen(bufs, parts[0]));
    }
}

/// A call that wrote something moves the job on by as much, and it is done exactly when all of its
/// payload is written, which it then tells. An interrupted call is made again; a call that wrote
/// nothing, and any other failure, end the job.
pub proof fn law_job_goes_on_where_it_was(
    bufs: Seq<Seq<u8>>,
    lens: Seq<usize>,
    written: int,
    reply: Result<usize, Error>,
    interrupted: i32,
)
    requires
        bufs.len() == lens.len() <= usize::MAX,
        forall|i: int| 0 <= i < bufs.len() ==> (#[trigger] bufs[i]).len() == lens[i],
        0 <= written < whole(bufs, 0).len() <= usize::MAX,
        reply is Ok ==> upcoming(lens, written) is Some && reply->Ok_0 <= upcoming(
            lens,
            written,
        )->0.len,
    ensures
        ({
            let all = whole(bufs, 0);
            let (now, outcome) = accounted(lens, written, reply, interrupted);
            match reply {
                Ok(n) => {
                    &&& now == written + n
                    &&& now <= all.len()
                    &&& all.take(written) + seen(bufs, upcoming(lens, written)->0).take(n as int)
                        == all.take(now)
                    &&& n == 0 ==> outcome == Some(
                        Err::<FileOutcome, Error>(Error::plain(ErrorKind::BrokenPipe)),
                    )
                    &&& n > 0 && now == all.len() ==> outcome == Some(
                        Ok::<FileOutcome, Error>(FileOutcome::Wrote(all.len() as usize)),
                    )
                    &&& n > 0 && now < all.len() ==> outcome is None
                },
                Err(e) => {
                    &&& now == written
                    &&& e.os == Some(interrupted) ==> outcome is None
                    &&& e.os != Some(interrupted) ==> outcome == Some(Err::<FileOutcome, Error>(e))
                },
            }
        }),
{
    law_part_is_what_is_left(bufs, lens, written);
    lemma_whole_len(bufs, lens, 0);
    assert(lens.take(0) =~= Seq::<usize>::empty());
    let all = whole(bufs, 0);
    if let Ok(n) = reply {
        let part = upcoming(lens, written)->0;
        assert(seen(bufs, part).take(n as int) =~= all.skip(written).take(n as int));
        assert(all.take(written) + all.skip(written).take(n as int) =~= all.take(written + n));
    }
}

/// A read that brought bytes tells them, one that brought none tells the end, an interrupted one
/// is made again, and any other failure is told as it is.
pub proof fn law_reads_are_told_as_they_are(reply: Result<usize, Error>, interrupted: i32)
    ensures
        match read_means(reply, interrupted) {
            Some(Ok(FileOutcome::Read(n))) => n > 0 && reply == Ok::<usize, Error>(n),
            Some(Ok(FileOutcome::Eof)) => reply == Ok::<usize, Error>(0),
            Some(Ok(_)) => false,
            Some(Err(e)) => reply == Err::<usize, Error>(e) && e.os != Some(interrupted),
            None => reply is Err && reply->Err_0.os == Some(interrupted),
        },
{
}

/// The completion of a job is the last of its operation and tells what the worker told: bytes with
/// the buffer they are in, and nothing else with one.
pub proof fn law_results_are_told_as_they_are<D>(
    op: OpId,
    lease: Option<Lease>,
    result: Result<FileOutcome, Error>,
)
    ensures
        ({
            let e = completion::<D>(op, lease, result);
            &&& e.op == op
            &&& e.terminal
            &&& match e.result {
                Ok(Outcome::Read { n, lease: held }) => result == Ok::<FileOutcome, Error>(
                    FileOutcome::Read(n),
                ) && held == lease,
                Ok(Outcome::Wrote(n)) => result == Ok::<FileOutcome, Error>(FileOutcome::Wrote(n)),
                Ok(Outcome::Eof) => result == Ok::<FileOutcome, Error>(FileOutcome::Eof),
                Ok(Outcome::Cancelled) => result == Ok::<FileOutcome, Error>(
                    FileOutcome::Cancelled,
                ),
                Ok(_) => false,
                Err(error) => result == Err::<FileOutcome, Error>(error),
            }
        }),
{
}

/// Files are read once at a time and written; nothing else is done to them by workers.
pub proof fn law_files_are_read_and_written(op: Operation)
    ensures
        takes(op) <==> op is Write || op is Writev || op is Read && !op->Read_multishot,
{
}

/// Results are told oldest first, each under its own operation and once; its slot is free after.
pub proof fn law_results_are_told_in_order<D>(m: Model, results: Seq<Finished>, n: int, k: int)
    requires
        0 <= k < n <= results.len(),
    ensures
        collected::<D>(m, results, n).1.len() == n,
        collected::<D>(m, results, n).1[k].op == results[k].op,
        collected::<D>(m, results, n).1[k].result is Err <==> results[k].result is Err,
    decreases n,
{
    assert(collected::<D>(m, results, 0).1.len() == 0);
    if k < n - 1 {
        law_results_are_told_in_order::<D>(m, results, n - 1, k);
    } else if n > 1 {
        law_results_are_told_in_order::<D>(m, results, n - 1, 0);
    }
}

} // verus!
