//! The deadline timer of a completion port: one packet, reused.
use crate::types::{Error, ErrorKind, Span};
use vstd::prelude::*;

verus! {

/// A wait packet that was cancelled before it was queued.
pub const STATUS_CANCELLED: i32 = -1073741536;

/// A signalled packet that is on its way and has to be dequeued.
pub const STATUS_PENDING: i32 = 0x103;

/// The due time of a native timer, relative and in steps of 100 nanoseconds: at
/// least one step, rounded up, and no further than the type reaches.
pub open spec fn due(nanos: int) -> int {
    let steps = (nanos + 99) / 100;
    if steps < 1 {
        -1
    } else if steps > i64::MAX {
        -(i64::MAX as int)
    } else {
        -steps
    }
}

/// Never due at once and never early: a representable delay is met to within one step.
pub proof fn law_due_is_never_early(nanos: int)
    requires
        0 <= nanos <= 100 * i64::MAX,
    ensures
        nanos <= -due(nanos) * 100,
        -due(nanos) * 100 < nanos + 100 || due(nanos) == -1,
        due(nanos) < 0,
{
}

/// The relative due time of a delay.
pub fn relative_due(delay: Span) -> (ticks: i64)
    ensures
        ticks == due(delay.total_nanos()),
{
    let nanos: u128 = delay.as_nanos();
    let steps: u128 = (nanos + 99) / 100;
    if steps < 1 {
        -1
    } else if steps > i64::MAX as u128 {
        -i64::MAX
    } else {
        -(steps as i64)
    }
}

/// A negative status is a failure without a portable kind.
pub fn nt_result(status: i32) -> (done: Result<(), Error>)
    ensures
        done == (if status < 0 {
            Err(Error::plain(ErrorKind::Other))
        } else {
            Ok(())
        }),
{
    if status < 0 {
        Err(Error::new(ErrorKind::Other))
    } else {
        Ok(())
    }
}

/// The life of the one packet.
#[derive(Clone, Copy, Debug, PartialEq, Eq, Structural)]
pub struct PacketTimer {
    /// The packet is associated and not known to be dequeued.
    pub active: bool,
    /// Counts armings; a queued packet carries the count it was armed under.
    pub generation: usize,
}

impl PacketTimer {
    /// Nothing armed yet.
    pub fn new() -> (timer: Self)
        ensures
            timer == (PacketTimer { active: false, generation: 0 }),
    {
        PacketTimer { active: false, generation: 0 }
    }

    /// Start arming: the new generation goes into the packet. A packet that is still
    /// out cannot be reused.
    pub fn arm(&mut self) -> (generation: Result<usize, Error>)
        ensures
            if old(self).active {
                generation == Err::<usize, Error>(Error::plain(ErrorKind::WouldBlock))
                    && *final(self) == *old(self)
            } else if old(self).generation == usize::MAX {
                generation == Err::<usize, Error>(Error::plain(ErrorKind::Other)) && *final(self)
                    == *old(self)
            } else {
                &&& generation == Ok::<usize, Error>((old(self).generation + 1) as usize)
                &&& *final(self) == (PacketTimer {
                    active: false,
                    generation: (old(self).generation + 1) as usize,
                })
            },
    {
        if self.active {
            return Err(Error::new(ErrorKind::WouldBlock));
        }
        match self.generation.checked_add(1) {
            None => Err(Error::new(ErrorKind::Other)),
            Some(generation) => {
                self.generation = generation;
                Ok(generation)
            },
        }
    }

    /// The native calls of an arming ended with this status of the association.
    pub fn armed(&mut self, status: i32) -> (done: Result<(), Error>)
        ensures
            done == (if status < 0 {
                Err(Error::plain(ErrorKind::Other))
            } else {
                Ok(())
            }),
            *final(self) == (if status < 0 {
                *old(self)
            } else {
                PacketTimer { active: true, ..*old(self) }
            }),
    {
        nt_result(status)?;
        self.active = true;
        Ok(())
    }

    /// A packet of this generation was dequeued. An older one frees nothing.
    pub fn dequeued(&mut self, generation: usize)
        ensures
            *final(self) == (if generation == old(self).generation {
                PacketTimer { active: false, ..*old(self) }
            } else {
                *old(self)
            }),
    {
        if generation == self.generation {
            self.active = false;
        }
    }

    /// The native cancellation answered `status`. Success and an unqueued packet
    /// free it; any other failure is reported; a packet on its way stays out.
    pub fn cancel(&mut self, status: i32) -> (done: Result<i32, Error>)
        ensures
            *final(self) == (if status == 0 || status == STATUS_CANCELLED {
                PacketTimer { active: false, ..*old(self) }
            } else {
                *old(self)
            }),
            done == (if status < 0 && status != STATUS_CANCELLED {
                Err(Error::plain(ErrorKind::Other))
            } else {
                Ok(status)
            }),
    {
        if status == 0 || status == STATUS_CANCELLED {
            self.active = false;
        }
        if status == STATUS_CANCELLED {
            return Ok(status);
        }
        nt_result(status)?;
        Ok(status)
    }
}

/// What to do about a changed deadline while a host waits on the event.
#[derive(Clone, Copy, Debug, PartialEq, Eq, Structural)]
pub enum Rearm {
    /// The old packet is on its way: rearm when it was dequeued.
    Wait,
    /// No deadline.
    Rest,
    /// The deadline has passed: wake the host.
    Post,
    /// Arm the timer for the time that is left.
    Arm,
}

/// Decide after a cancellation that answered `status`, with the deadline in the past
/// or not.
pub fn rearm(status: i32, deadline: Option<bool>) -> (next: Rearm)
    ensures
        next == (if status == STATUS_PENDING {
            Rearm::Wait
        } else {
            match deadline {
                None => Rearm::Rest,
                Some(passed) => if passed {
                    Rearm::Post
                } else {
                    Rearm::Arm
                },
            }
        }),
{
    if status == STATUS_PENDING {
        return Rearm::Wait;
    }
    match deadline {
        None => Rearm::Rest,
        Some(passed) => if passed {
            Rearm::Post
        } else {
            Rearm::Arm
        },
    }
}

/// A longer delay is never due earlier, and one that the type cannot hold is as late as it can.
pub proof fn law_due_follows_the_delay(a: int, b: int)
    requires
        0 <= a <= b,
    ensures
        due(b) <= due(a) <= -1,
        a > 100 * i64::MAX ==> due(a) == -(i64::MAX as int),
        a <= 100 * i64::MAX ==> -due(a) * 100 >= a,
{
}

} // verus!
