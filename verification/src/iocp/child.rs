//! The life of an owned Windows process: a termination request is not yet an exit.
use crate::iocp::codes::{ERROR_ACCESS_DENIED, STILL_ACTIVE};
use crate::types::{invalid, unsupported, Error, ErrorKind, ExitStatus, Signal};
use vstd::prelude::*;

verus! {

/// An owned child process.
#[derive(Clone, Copy, Debug, PartialEq, Eq, Structural)]
pub struct Child {
    /// How it ended, once that was read.
    pub status: Option<ExitStatus>,
    /// A termination was accepted, or an exit code was seen; the exit itself may be out.
    pub terminating: bool,
    /// The process is known to have exited.
    pub ready: bool,
    /// It has a job object of its own, for its tree.
    pub job: bool,
    /// It was put into that job.
    pub job_assigned: bool,
}

/// The exit status that a process code stands for.
pub open spec fn exit_of(code: u32) -> ExitStatus {
    ExitStatus { code: Some(code as i32), signal: None }
}

/// What the system says about a child whose termination was denied.
#[derive(Clone, Copy, Debug, PartialEq, Eq)]
pub struct Probe {
    /// Its exit code, where that could be read.
    pub code: Result<u32, Error>,
    /// Its handle is signalled.
    pub exited: bool,
}

impl Probe {
    /// Its exit code is set, which can be so before its handle is signalled.
    pub open spec fn spec_exiting(self) -> bool {
        self.code is Ok && self.code->Ok_0 != STILL_ACTIVE
    }

    /// Whether its exit code is set.
    pub fn exiting(&self) -> (yes: bool)
        ensures
            yes == self.spec_exiting(),
    {
        match self.code {
            Ok(code) => code != STILL_ACTIVE,
            Err(_) => false,
        }
    }
}

/// What closing needs next.
#[derive(Clone, Copy, Debug, PartialEq, Eq, Structural)]
pub enum Close {
    /// Nothing: it has ended or will.
    Done,
    /// Read its exit status.
    Status,
    /// Terminate it, with its tree if it has a job.
    Kill { group: bool },
}

/// What dropping a child does next.
#[derive(Clone, Copy, Debug, PartialEq, Eq, Structural)]
pub enum Dropping {
    /// Read the status of the child that has left; that has to succeed.
    Status,
    /// Terminate the tree that it was put into (`group`), or the process.
    Kill { group: bool },
    /// Wait for the real exit: a termination request is none.
    Wait,
    Done,
}

/// What dropping a child starts with.
pub open spec fn dropping(child: Child) -> Dropping {
    if child.status is Some {
        Dropping::Done
    } else if child.ready {
        Dropping::Status
    } else if child.terminating {
        Dropping::Wait
    } else {
        Dropping::Kill { group: child.job_assigned }
    }
}

/// What follows, with the child as a call left it.
pub open spec fn drop_after(child: Child, last: Dropping) -> Dropping {
    match last {
        Dropping::Kill { group } => if group && !child.terminating {
            Dropping::Kill { group: false }
        } else {
            Dropping::Wait
        },
        _ => Dropping::Done,
    }
}

/// Whether a kill may be attempted, and why not.
pub open spec fn kill_allowed(child: Child, signal: Signal, group: bool) -> Result<(), Error> {
    if child.status is Some || child.terminating {
        Err(Error::plain(ErrorKind::NotFound))
    } else if signal != Signal::Kill {
        Err(Error::plain(ErrorKind::Unsupported))
    } else if group && !child.job {
        Err(Error::plain(ErrorKind::InvalidInput))
    } else {
        Ok(())
    }
}

/// A termination call was denied: only then is the system asked about the exit code.
pub open spec fn denied(result: Result<(), Error>) -> bool {
    result matches Err(e) && e.os == Some(ERROR_ACCESS_DENIED)
}

/// Whether the exit code has to be asked for after a termination call.
pub fn asks_exit_code(result: &Result<(), Error>) -> (asks: bool)
    ensures
        asks == denied(*result),
{
    match result {
        Ok(_) => false,
        Err(e) => e.os == Some(ERROR_ACCESS_DENIED),
    }
}

/// The child and the answer after a termination call returned `result`. What a probe would
/// say counts only where access was denied.
pub open spec fn killed(child: Child, result: Result<(), Error>, probe: Probe) -> (
    Child,
    Result<(), Error>,
) {
    match result {
        Ok(_) => (Child { terminating: true, ..child }, Ok(())),
        Err(e) => if denied(result) {
            let seen = Child { ready: child.ready || probe.exited, ..child };
            if probe.spec_exiting() || probe.exited {
                (Child { terminating: true, ..seen }, Err(Error::plain(ErrorKind::NotFound)))
            } else {
                (seen, Err(e))
            }
        } else {
            (child, Err(e))
        },
    }
}

impl Child {
    /// A suspended child.
    pub fn new(job: bool) -> (child: Self)
        ensures
            child == (Child {
                status: None,
                terminating: false,
                ready: false,
                job,
                job_assigned: false,
            }),
    {
        Child { status: None, terminating: false, ready: false, job, job_assigned: false }
    }

    /// Whether its exit can be reported.
    pub open spec fn spec_ready(self) -> bool {
        self.ready || self.status is Some
    }

    /// Whether its exit can be reported.
    pub fn is_ready(&self) -> (ready: bool)
        ensures
            ready == self.spec_ready(),
    {
        self.ready || self.status.is_some()
    }

    /// Whether its exit code has to be read for a report.
    pub fn needs_code(&self) -> (needs: bool)
        ensures
            needs == (self.ready && self.status is None),
    {
        self.ready && self.status.is_none()
    }

    /// Report the exit status. `code` is what reading it brought, where it was needed;
    /// `joined` tells whether the exit callback was joined.
    pub fn status(&mut self, code: Result<u32, Error>, joined: Result<(), Error>) -> (found: Result<
        Option<ExitStatus>,
        Error,
    >)
        ensures
            if !old(self).spec_ready() {
                found == Ok::<Option<ExitStatus>, Error>(None) && *final(self) == *old(self)
            } else if old(self).status is Some {
                found == Ok::<Option<ExitStatus>, Error>(old(self).status) && *final(self)
                    == *old(self)
            } else {
                match (code, joined) {
                    (Err(e), _) => found == Err::<Option<ExitStatus>, Error>(e) && *final(self)
                        == *old(self),
                    (_, Err(e)) => found == Err::<Option<ExitStatus>, Error>(e) && *final(self)
                        == *old(self),
                    (Ok(code), Ok(_)) => found == Ok::<Option<ExitStatus>, Error>(
                        Some(exit_of(code)),
                    ) && *final(self) == (Child { status: Some(exit_of(code)), ..*old(self) }),
                }
            },
    {
        if !self.is_ready() {
            return Ok(None);
        }
        if self.status.is_some() {
            return Ok(self.status);
        }
        match code {
            Err(e) => Err(e),
            Ok(code) => match joined {
                Err(e) => Err(e),
                Ok(_) => {
                    let status = ExitStatus {
                        code: Some(
                            #[verifier::truncate]
                            (code as i32),
                        ),
                        signal: None,
                    };
                    self.status = Some(status);
                    Ok(Some(status))
                },
            },
        }
    }

    /// Whether to call the system's termination at all.
    pub fn kill_start(&self, signal: Signal, group: bool) -> (go: Result<(), Error>)
        ensures
            go == kill_allowed(*self, signal, group),
    {
        if self.status.is_some() || self.terminating {
            return Err(Error::new(ErrorKind::NotFound));
        }
        if signal != Signal::Kill {
            return Err(unsupported());
        }
        if group && !self.job {
            return Err(invalid());
        }
        Ok(())
    }

    /// Judge a termination call. Denied access may mean that the process is leaving
    /// already: then, and only then, a probe is made and tells. Any other failure stands and
    /// can be retried.
    pub fn kill_end(&mut self, result: Result<(), Error>, probe: Option<Probe>) -> (done: Result<
        (),
        Error,
    >)
        requires
            probe is Some <==> denied(result),
        ensures
            killed(*old(self), result, probe->0) == (*final(self), done),
    {
        match result {
            Ok(_) => {
                self.terminating = true;
                Ok(())
            },
            Err(e) => {
                if let Some(probe) = probe {
                    if probe.exited {
                        self.ready = true;
                    }
                    if probe.exiting() || probe.exited {
                        self.terminating = true;
                        return Err(Error::new(ErrorKind::NotFound));
                    }
                }
                Err(e)
            },
        }
    }

    /// Decide what closing needs. `exited` is a nonblocking look at the process handle:
    /// closing a leader that already left must not kill its tree.
    pub fn close_start(&mut self, exited: bool) -> (next: Close)
        ensures
            if old(self).status is Some {
                next == Close::Done && *final(self) == *old(self)
            } else if old(self).ready || exited {
                next == Close::Status && *final(self) == (Child { ready: true, ..*old(self) })
            } else if old(self).terminating {
                next == Close::Done && *final(self) == *old(self)
            } else {
                next == (Close::Kill { group: old(self).job }) && *final(self) == *old(self)
            },
    {
        if self.status.is_some() {
            return Close::Done;
        }
        if self.ready || exited {
            self.ready = true;
            return Close::Status;
        }
        if self.terminating {
            return Close::Done;
        }
        Close::Kill { group: self.job }
    }

    /// Begin to drop the child. `exited` is a nonblocking look at the process handle: of a
    /// child that has left the status is read, and nothing is killed.
    pub fn drop_start(&mut self, exited: bool) -> (next: Dropping)
        ensures
            *final(self) == (Child {
                ready: old(self).ready || (old(self).status is None && exited),
                ..*old(self)
            }),
            next == dropping(*final(self)),
    {
        if self.status.is_none() && exited {
            self.ready = true;
        }
        if self.status.is_some() {
            Dropping::Done
        } else if self.ready {
            Dropping::Status
        } else if self.terminating {
            Dropping::Wait
        } else {
            Dropping::Kill { group: self.job_assigned }
        }
    }

    /// Go on to drop the child after a call was made and noted. The process itself is killed
    /// where its tree could not be, and then its exit is waited for, whatever was said.
    pub fn drop_next(&self, last: Dropping) -> (next: Dropping)
        ensures
            next == drop_after(*self, last),
    {
        match last {
            Dropping::Kill { group } => if group && !self.terminating {
                Dropping::Kill { group: false }
            } else {
                Dropping::Wait
            },
            _ => Dropping::Done,
        }
    }
}

/// Closing: a child that is gone already is closed.
pub fn close_end(killed: Result<(), Error>) -> (done: Result<(), Error>)
    ensures
        done == (match killed {
            Err(e) if e.kind == ErrorKind::NotFound => Ok(()),
            _ => killed,
        }),
{
    match killed {
        Err(e) => if e.kind == ErrorKind::NotFound {
            Ok(())
        } else {
            Err(e)
        },
        done => done,
    }
}

/// An accepted termination is neither repeated nor reported as an exit: only a signalled
/// process is ready.
pub proof fn law_termination_is_not_an_exit(
    child: Child,
    result: Result<(), Error>,
    probe: Probe,
    signal: Signal,
    group: bool,
)
    requires
        child.status is None,
        !child.ready,
        !probe.exited,
    ensures
        !killed(child, result, probe).0.spec_ready(),
        killed(child, result, probe).0.terminating ==> kill_allowed(
            killed(child, result, probe).0,
            signal,
            group,
        ) == Err::<(), Error>(Error::plain(ErrorKind::NotFound)),
{
}

/// Dropping a child that runs ends with its exit: at most its tree and then the process are
/// killed, never what is leaving already, and the exit is waited for. One that has left is
/// not killed.
pub proof fn law_drop_waits_for_the_exit(child: Child, first: Child, second: Child)
    ensures
        child.status is Some ==> dropping(child) is Done,
        child.status is None && child.ready ==> dropping(child) is Status,
        dropping(child) is Kill ==> !child.spec_ready() && !child.terminating,
        dropping(child) matches Dropping::Kill { group } ==> {
            let next = drop_after(first, dropping(child));
            &&& group == child.job_assigned
            &&& next == (if group && !first.terminating {
                Dropping::Kill { group: false }
            } else {
                Dropping::Wait
            })
            &&& next is Kill ==> drop_after(second, next) is Wait
        },
        drop_after(first, Dropping::Wait) is Done,
{
}

/// A termination that failed for good keeps its error and changes nothing, so it can be
/// tried again.
pub proof fn law_failed_termination_can_be_retried(child: Child, error: Error, probe: Probe)
    requires
        !probe.spec_exiting(),
        !probe.exited,
    ensures
        killed(child, Err(error), probe) == (child, Err::<(), Error>(error)),
{
}

/// A kill is attempted exactly on a child that is neither known to have ended nor on its way there,
/// with the one signal that there is, and on a tree where the child has one.
pub proof fn law_kills_are_allowed_or_refused(child: Child, signal: Signal, group: bool)
    ensures
        kill_allowed(child, signal, group) is Ok <==> child.status is None && !child.terminating
            && signal is Kill && (group ==> child.job),
        kill_allowed(child, signal, group) is Err ==> kill_allowed(child, signal, group)->Err_0
            == Error::plain(
            if child.status is Some || child.terminating {
                ErrorKind::NotFound
            } else if !(signal is Kill) {
                ErrorKind::Unsupported
            } else {
                ErrorKind::InvalidInput
            },
        ),
{
}

/// A termination that was accepted is on its way. One that was denied, because the child has left or
/// is leaving, finds nothing to end; any other failure is told as it is.
pub proof fn law_terminations_are_judged(child: Child, result: Result<(), Error>, probe: Probe)
    ensures
        ({
            let (after, done) = killed(child, result, probe);
            let refused = result is Err && result->Err_0.os == Some(5i32);
            let leaving = probe.exited || (probe.code is Ok && probe.code->Ok_0 != 259);
            &&& result is Ok ==> done is Ok && after.terminating
            &&& refused && leaving ==> done == Err::<(), Error>(Error::plain(ErrorKind::NotFound))
                && after.terminating
            &&& result is Err && !(refused && leaving) ==> done == result && after.terminating
                == child.terminating
            &&& after.ready <==> child.ready || refused && probe.exited
            &&& after.status == child.status && after.job == child.job && after.job_assigned
                == child.job_assigned
        }),
{
}

/// An exit is told by the code of the process, bit by bit, and never by a signal.
pub proof fn law_exit_tells_the_code(code: u32)
    ensures
        exit_of(code).signal is None,
        exit_of(code).code is Some,
        (exit_of(code).code->0) as u32 == code,
{
    assert((code as i32) as u32 == code) by (bit_vector);
}

} // verus!
