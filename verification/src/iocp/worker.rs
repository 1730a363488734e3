//! The two workers of a synchronous handle. On a pipe a write owns the file object: it
//! preempts an idle read, which is reissued after it.
use crate::types::Error;
use vstd::prelude::*;

verus! {

/// What a worker transfers.
#[derive(Clone, Copy, Debug, PartialEq, Eq, Structural)]
pub struct Job {
    pub buffer: usize,
    pub len: u32,
    /// The operation slot that the completion packet names.
    pub slot: usize,
}

/// One direction.
#[derive(Clone, Copy, Debug, PartialEq, Eq)]
pub struct Lane {
    pub job: Option<Job>,
    pub active: bool,
    /// The worker is inside its native call.
    pub in_io: bool,
    pub stop: bool,
    pub cancelled: bool,
    pub result: Option<Result<u32, Error>>,
}

/// Which worker.
#[derive(Clone, Copy, Debug, PartialEq, Eq, Structural)]
pub enum Side {
    Read,
    Write,
}

/// What a worker does next.
#[derive(Clone, Copy, Debug, PartialEq, Eq, Structural)]
pub enum Claim {
    /// Wait for a change.
    Wait,
    /// Leave.
    Stop,
    /// Perform this transfer.
    Run(Job),
}

/// Whether a worker may make its native call.
#[derive(Clone, Copy, Debug, PartialEq, Eq, Structural)]
pub enum Enter {
    /// No: the transfer was cancelled.
    Aborted,
    /// Not yet: a write owns the object.
    Wait,
    /// Not yet: the idle read has to be cancelled out of its call first.
    Preempt,
    /// Yes.
    Go,
}

impl Lane {
    /// Nothing to do and nothing to tell.
    pub open spec fn idle() -> Lane {
        Lane {
            job: None,
            active: false,
            in_io: false,
            stop: false,
            cancelled: false,
            result: None,
        }
    }
}

/// Both directions of one handle.
#[derive(Clone, Copy, Debug, PartialEq, Eq)]
pub struct State {
    pub read: Lane,
    pub write: Lane,
    /// A pipe write owns the file object.
    pub writing: bool,
    /// The write worker is cancelling the read worker's call.
    pub preempt: bool,
    /// The handle is a pipe whose calls exclude each other.
    pub preemptible: bool,
}

/// Both workers, and whether one may make its native call, after it asked to.
pub open spec fn entered(s: State, side: Side) -> (State, Enter) {
    let lane = s.lane(side);
    let inside = s.with(side, Lane { in_io: true, ..lane });
    if lane.cancelled {
        (s, Enter::Aborted)
    } else if !s.preemptible {
        (inside, Enter::Go)
    } else {
        match side {
            Side::Read => if s.writing {
                (s, Enter::Wait)
            } else {
                (inside, Enter::Go)
            },
            Side::Write => if s.read.in_io {
                (State { writing: true, preempt: true, ..s }, Enter::Preempt)
            } else {
                (State { writing: true, ..inside }, Enter::Go)
            },
        }
    }
}

/// Both workers, and whether one makes its call again, after it came back from it.
pub open spec fn left(s: State, side: Side, aborted: bool) -> (State, bool) {
    let out = s.with(side, Lane { in_io: false, ..s.lane(side) });
    if s.preemptible && side == Side::Read {
        (State { preempt: false, ..out }, s.preempt && aborted && !s.read.cancelled)
    } else {
        (out, false)
    }
}

/// Both workers after one told what its transfer brought.
pub open spec fn told(s: State, side: Side, result: Result<u32, Error>) -> State {
    State {
        writing: if side == Side::Write && s.preemptible {
            false
        } else {
            s.writing
        },
        ..s.with(side, Lane { active: false, result: Some(result), ..s.lane(side) })
    }
}

impl State {
    pub open spec fn lane(self, side: Side) -> Lane {
        match side {
            Side::Read => self.read,
            Side::Write => self.write,
        }
    }

    pub open spec fn with(self, side: Side, lane: Lane) -> State {
        match side {
            Side::Read => State { read: lane, ..self },
            Side::Write => State { write: lane, ..self },
        }
    }

    /// On a pipe, at most one worker is inside a native call, and a write that is inside
    /// one owns the object.
    pub open spec fn wf(self) -> bool {
        &&& self.preemptible && self.write.in_io ==> self.writing && !self.read.in_io
        &&& self.read.in_io ==> self.read.active
        &&& self.write.in_io ==> self.write.active
        &&& self.read.active ==> self.read.job is None && self.read.result is None
        &&& self.write.active ==> self.write.job is None && self.write.result is None
        &&& self.preemptible && self.writing ==> self.write.active
    }

    fn get(&self, side: Side) -> (lane: Lane)
        ensures
            lane == self.lane(side),
    {
        match side {
            Side::Read => self.read,
            Side::Write => self.write,
        }
    }

    fn set(&mut self, side: Side, lane: Lane)
        ensures
            *final(self) == old(self).with(side, lane),
    {
        match side {
            Side::Read => {
                self.read = lane;
            },
            Side::Write => {
                self.write = lane;
            },
        }
    }

    /// Two idle workers.
    pub fn new(preemptible: bool) -> (state: Self)
        ensures
            state.wf(),
            state == (State {
                read: Lane::idle(),
                write: Lane::idle(),
                writing: false,
                preempt: false,
                preemptible,
            }),
    {
        let idle = Lane {
            job: None,
            active: false,
            in_io: false,
            stop: false,
            cancelled: false,
            result: None,
        };
        State { read: idle, write: idle, writing: false, preempt: false, preemptible }
    }

    /// Hand a transfer to an idle worker.
    pub fn start(&mut self, side: Side, job: Job)
        requires
            old(self).wf(),
            ({
                let lane = old(self).lane(side);
                lane.job is None && !lane.active && !lane.in_io && lane.result is None
            }),
        ensures
            final(self).wf(),
            *final(self) == old(self).with(
                side,
                Lane { cancelled: false, job: Some(job), ..old(self).lane(side) },
            ),
    {
        let lane = self.get(side);
        self.set(side, Lane { cancelled: false, job: Some(job), ..lane });
    }

    /// Ask for cancellation; true if the worker has to be cancelled out of its call.
    pub fn cancel(&mut self, side: Side) -> (native: bool)
        requires
            old(self).wf(),
        ensures
            final(self).wf(),
            native == old(self).lane(side).in_io,
            *final(self) == old(self).with(
                side,
                Lane { cancelled: true, ..old(self).lane(side) },
            ),
    {
        let lane = self.get(side);
        self.set(side, Lane { cancelled: true, ..lane });
        lane.in_io
    }

    /// Ask a worker to leave once it is idle.
    pub fn stop(&mut self, side: Side)
        requires
            old(self).wf(),
        ensures
            final(self).wf(),
            *final(self) == old(self).with(side, Lane { stop: true, ..old(self).lane(side) }),
    {
        let lane = self.get(side);
        self.set(side, Lane { stop: true, ..lane });
    }

    /// Take the result that a completion packet announced.
    pub fn finish(&mut self, side: Side) -> (result: Option<Result<u32, Error>>)
        requires
            old(self).wf(),
        ensures
            final(self).wf(),
            result == old(self).lane(side).result,
            *final(self) == old(self).with(side, Lane { result: None, ..old(self).lane(side) }),
    {
        let lane = self.get(side);
        self.set(side, Lane { result: None, ..lane });
        lane.result
    }

    /// A worker looks for work: it leaves when it is asked to, else it runs the next job, or
    /// waits for one. A job comes only once the last result was taken.
    pub fn claim(&mut self, side: Side) -> (next: Claim)
        requires
            old(self).wf(),
            !old(self).lane(side).active,
            old(self).lane(side).job is Some ==> old(self).lane(side).result is None,
        ensures
            final(self).wf(),
            ({
                let lane = old(self).lane(side);
                if lane.stop {
                    next == Claim::Stop && *final(self) == *old(self)
                } else {
                    match lane.job {
                        None => next == Claim::Wait && *final(self) == *old(self),
                        Some(job) => next == Claim::Run(job) && *final(self) == old(self).with(
                            side,
                            Lane { job: None, active: true, ..lane },
                        ),
                    }
                }
            }),
    {
        let lane = self.get(side);
        if lane.stop {
            return Claim::Stop;
        }
        match lane.job {
            None => Claim::Wait,
            Some(job) => {
                self.set(side, Lane { job: None, active: true, ..lane });
                Claim::Run(job)
            },
        }
    }

    /// A worker asks to make its native call.
    pub fn enter(&mut self, side: Side) -> (next: Enter)
        requires
            old(self).wf(),
            old(self).lane(side).active,
            !old(self).lane(side).in_io,
        ensures
            final(self).wf(),
            (*final(self), next) == entered(*old(self), side),
            ({
                let s = *old(self);
                let lane = s.lane(side);
                let inside = Lane { in_io: true, ..lane };
                if lane.cancelled {
                    next == Enter::Aborted && *final(self) == s
                } else if !s.preemptible {
                    next == Enter::Go && *final(self) == s.with(side, inside)
                } else {
                    match side {
                        Side::Read => if s.writing {
                            next == Enter::Wait && *final(self) == s
                        } else {
                            next == Enter::Go && *final(self) == s.with(side, inside)
                        },
                        Side::Write => if s.read.in_io {
                            next == Enter::Preempt && *final(self) == (State {
                                writing: true,
                                preempt: true,
                                ..s
                            })
                        } else {
                            next == Enter::Go && *final(self) == (State {
                                writing: true,
                                ..s.with(side, inside)
                            })
                        },
                    }
                }
            }),
    {
        let lane = self.get(side);
        if lane.cancelled {
            return Enter::Aborted;
        }
        if self.preemptible {
            match side {
                Side::Write => {
                    self.writing = true;
                    if self.read.in_io {
                        self.preempt = true;
                        return Enter::Preempt;
                    }
                },
                Side::Read => {
                    if self.writing {
                        return Enter::Wait;
                    }
                },
            }
        }
        self.set(side, Lane { in_io: true, ..lane });
        Enter::Go
    }

    /// Whether the write worker goes on cancelling the read worker's call.
    pub fn preempting(&self) -> (go: bool)
        ensures
            go == (self.read.in_io && !self.write.cancelled),
    {
        self.read.in_io && !self.write.cancelled
    }

    /// A worker came back from its native call; `aborted` tells that the call was
    /// cancelled. True if the same transfer has to be reissued: a write preempted an idle
    /// read that nobody cancelled.
    pub fn leave(&mut self, side: Side, aborted: bool) -> (again: bool)
        requires
            old(self).wf(),
            old(self).lane(side).in_io,
        ensures
            final(self).wf(),
            (*final(self), again) == left(*old(self), side, aborted),
            ({
                let s = *old(self);
                let out = s.with(side, Lane { in_io: false, ..s.lane(side) });
                if s.preemptible && side == Side::Read {
                    &&& *final(self) == (State { preempt: false, ..out })
                    &&& again == (s.preempt && aborted && !s.read.cancelled)
                } else {
                    *final(self) == out && !again
                }
            }),
    {
        let lane = self.get(side);
        self.set(side, Lane { in_io: false, ..lane });
        if self.preemptible && side == Side::Read {
            let preempted = self.preempt;
            self.preempt = false;
            return preempted && aborted && !lane.cancelled;
        }
        false
    }

    /// A worker publishes what its transfer brought, and gives the object up.
    pub fn publish(&mut self, side: Side, result: Result<u32, Error>)
        requires
            old(self).wf(),
            old(self).lane(side).active,
            !old(self).lane(side).in_io,
        ensures
            final(self).wf(),
            *final(self) == told(*old(self), side, result),
            *final(self) == (State {
                writing: if side == Side::Write && old(self).preemptible {
                    false
                } else {
                    old(self).writing
                },
                ..old(self).with(
                    side,
                    Lane { active: false, result: Some(result), ..old(self).lane(side) },
                )
            }),
    {
        if side == Side::Write && self.preemptible {
            self.writing = false;
        }
        let lane = self.get(side);
        self.set(side, Lane { active: false, result: Some(result), ..lane });
    }
}

/// How long to wait before a call that has not returned is cancelled once more.
#[derive(Clone, Copy, Debug, PartialEq, Eq, Structural)]
pub enum Retry {
    /// The cancellation reached the call but can be lost: wait this long for the worker.
    Worker { millis: u32 },
    /// The worker is about to enter the call: let it run.
    Yield,
    /// Something else holds the object: sleep.
    Sleep { millis: u32 },
}

/// Cancellations that miss before the canceller sleeps.
pub const MISSES: u32 = 64;

/// Wait after a cancellation that reached the call (`reached`) or found none to cancel;
/// `misses` counts the earlier ones that found none.
pub fn retry(reached: bool, misses: u32) -> (wait: Retry)
    ensures
        wait == (if reached {
            Retry::Worker { millis: 10 }
        } else if misses < MISSES {
            Retry::Yield
        } else {
            Retry::Sleep { millis: 1 }
        }),
{
    if reached {
        Retry::Worker { millis: 10 }
    } else if misses < MISSES {
        Retry::Yield
    } else {
        Retry::Sleep { millis: 1 }
    }
}

/// On a pipe the two workers are never inside native calls at the same time.
pub proof fn law_pipe_calls_exclude_each_other(s: State)
    requires
        s.wf(),
        s.preemptible,
    ensures
        !(s.read.in_io && s.write.in_io),
{
}

/// An idle read gives way to a write and is made again behind it: the write has it cancelled out of
/// its call, the read waits, the write makes its call and tells what it brought, and only then the
/// read makes its call again. The read tells nothing of this.
pub proof fn law_preempted_read_is_made_again(s: State, result: Result<u32, Error>)
    requires
        s.wf(),
        s.preemptible,
        s.read.in_io,
        !s.read.cancelled,
        s.write.active,
        !s.write.in_io,
        !s.write.cancelled,
    ensures
        ({
            let (a, first) = entered(s, Side::Write);
            let (b, again) = left(a, Side::Read, true);
            let (c, waits) = entered(b, Side::Read);
            let (d, second) = entered(c, Side::Write);
            let (e, twice) = left(d, Side::Write, false);
            let f = told(e, Side::Write, result);
            let (g, third) = entered(f, Side::Read);
            &&& first is Preempt
            &&& again && !b.read.in_io && b.read.active && b.read.result is None
            &&& waits is Wait && c == b
            &&& second is Go && d.write.in_io
            &&& !twice && !e.write.in_io
            &&& f.write.result == Some(result) && !f.write.active && !f.writing
            &&& third is Go && g.read.in_io && g.read.active
        }),
{
}

/// A read that ended by itself, or that was cancelled, is not made again, and neither is a write. A
/// cancelled transfer makes no call, and where calls do not exclude each other none waits.
pub proof fn law_only_preempted_reads_are_made_again(s: State, side: Side, aborted: bool)
    ensures
        left(s, side, aborted).1 <==> {
            &&& side is Read
            &&& s.preemptible
            &&& s.preempt
            &&& aborted
            &&& !s.read.cancelled
        },
        s.lane(side).cancelled ==> entered(s, side) == (s, Enter::Aborted),
        !s.lane(side).cancelled && !s.preemptible ==> entered(s, side).1 is Go,
        !s.lane(side).cancelled && side is Write && !s.read.in_io ==> entered(s, side).1 is Go,
        !s.lane(side).cancelled && side is Read && !s.writing ==> entered(s, side).1 is Go,
        entered(s, side).1 is Go ==> entered(s, side).0.lane(side).in_io,
        !left(s, side, aborted).0.lane(side).in_io,
{
}

/// What a worker tells is what its transfer brought, once, and the other worker's is untouched.
pub proof fn law_results_are_told_as_they_are(s: State, side: Side, result: Result<u32, Error>)
    ensures
        ({
            let n = told(s, side, result);
            &&& n.lane(side).result == Some(result)
            &&& !n.lane(side).active
            &&& side is Read ==> n.write == s.write && n.writing == s.writing
            &&& side is Write ==> n.read == s.read && (s.preemptible ==> !n.writing)
        }),
{
}

} // verus!
