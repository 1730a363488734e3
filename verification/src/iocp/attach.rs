//! How a handle gets its completions from a port. A handle keeps the port that it was first
//! associated with: elsewhere they come through a waited event.
use crate::iocp::io::{Kind, Resource};
use crate::types::{Error, Handle};
use vstd::prelude::*;

verus! {

/// The port that a handle is associated with.
#[derive(Clone, Copy, Debug, PartialEq, Eq, Structural)]
pub enum Association {
    /// None yet: the handle was made for this loop.
    Fresh,
    /// Not known: the handle was made by someone else.
    Unknown,
    /// This one.
    Port(u64),
}

/// Binding a handle begins with associating it.
pub open spec fn to_associate(kind: Kind, association: Association) -> bool {
    kind != Kind::Sync && !(association is Port)
}

/// Whether binding a handle begins with associating it.
pub fn needs_association(kind: Kind, association: Association) -> (needs: bool)
    ensures
        needs == to_associate(kind, association),
{
    kind != Kind::Sync && match association {
        Association::Port(_) => false,
        _ => true,
    }
}

/// A handle bound to `port`. `associated` is how associating it went, where that was due,
/// and then whether a synchronous success queues no packet.
pub open spec fn attached(r: Resource, port: u64, associated: Result<bool, Error>) -> Result<
    Resource,
    Error,
> {
    if r.kind == Kind::Sync {
        Ok(Resource { routed: false, ..r })
    } else {
        match (r.association, associated) {
            (Association::Port(own), _) => Ok(Resource { routed: own != port, ..r }),
            (_, Ok(skip)) => Ok(
                Resource { association: Association::Port(port), routed: false, skip, ..r },
            ),
            (Association::Unknown, Err(_)) => Ok(Resource { routed: true, ..r }),
            (Association::Fresh, Err(e)) => Err(e),
        }
    }
}

/// Bind a handle to `port`. One that someone else associated before is routed.
pub fn attach(r: Resource, port: u64, associated: Result<bool, Error>) -> (bound: Result<
    Resource,
    Error,
>)
    ensures
        bound == attached(r, port, associated),
{
    if r.kind == Kind::Sync {
        return Ok(Resource { routed: false, ..r });
    }
    match r.association {
        Association::Port(own) => Ok(Resource { routed: own != port, ..r }),
        Association::Unknown => match associated {
            Ok(skip) => Ok(
                Resource { association: Association::Port(port), routed: false, skip, ..r },
            ),
            Err(_) => Ok(Resource { routed: true, ..r }),
        },
        Association::Fresh => match associated {
            Ok(skip) => Ok(
                Resource { association: Association::Port(port), routed: false, skip, ..r },
            ),
            Err(e) => Err(e),
        },
    }
}

/// An instance of a pipe listener, which is associated when it is made: it is accepted
/// without a call.
pub open spec fn pipe_of(h: Handle, port: u64) -> Resource {
    Resource {
        handle: h,
        kind: Kind::Pipe,
        association: Association::Port(port),
        routed: false,
        skip: true,
        connect: false,
    }
}

/// An accepted instance of a pipe listener on `port`.
pub fn accepted_pipe(h: Handle, port: u64) -> (r: Resource)
    ensures
        r == pipe_of(h, port),
{
    Resource {
        handle: h,
        kind: Kind::Pipe,
        association: Association::Port(port),
        routed: false,
        skip: true,
        connect: false,
    }
}

/// An accepted pipe is served by the port of its listener without a detour, however often
/// it is given back and bound again there.
pub proof fn law_accepted_pipe_is_direct(h: Handle, port: u64, associated: Result<bool, Error>)
    ensures
        attached(pipe_of(h, port), port, associated) == Ok::<Resource, Error>(pipe_of(h, port)),
        !pipe_of(h, port).routed,
{
}

/// A handle without a port of its own is bound directly where associating it succeeds, and
/// stays direct there.
pub proof fn law_unassociated_handle_is_direct(
    r: Resource,
    port: u64,
    skip: bool,
    again: Result<bool, Error>,
)
    requires
        !(r.association is Port),
    ensures
        ({
            let bound = attached(r, port, Ok(skip));
            &&& bound is Ok
            &&& !bound->Ok_0.routed
            &&& attached(bound->Ok_0, port, again) == bound
        }),
{
}

/// A handle that moved to another port is routed there, and is direct again once it is back.
pub proof fn law_moved_handle_is_routed(
    r: Resource,
    other: u64,
    first: Result<bool, Error>,
    second: Result<bool, Error>,
)
    requires
        r.kind != Kind::Sync,
        !r.routed,
        r.association is Port,
        r.association->Port_0 != other,
    ensures
        ({
            let moved = attached(r, other, first);
            &&& moved is Ok
            &&& moved->Ok_0.routed
            &&& attached(moved->Ok_0, r.association->Port_0, second) == Ok::<Resource, Error>(r)
        }),
{
}

/// What is synchronous needs no port. Anything else that cannot be associated is refused where it was
/// made for this loop, and routed where someone else may have associated it before.
pub proof fn law_handles_are_bound_or_refused(r: Resource, port: u64, associated: Result<bool, Error>)
    ensures
        ({
            let bound = attached(r, port, associated);
            &&& to_associate(r.kind, r.association) <==> r.kind != Kind::Sync && !(r.association
                is Port)
            &&& bound is Err <==> r.kind != Kind::Sync && r.association is Fresh && associated
                is Err
            &&& bound is Err ==> bound->Err_0 == associated->Err_0
            &&& bound is Ok ==> {
                let b = bound->Ok_0;
                &&& b.handle == r.handle && b.kind == r.kind && b.connect == r.connect
                &&& b.routed <==> r.kind != Kind::Sync && match r.association {
                    Association::Port(own) => own != port,
                    _ => associated is Err,
                }
                &&& to_associate(r.kind, r.association) && associated is Ok ==> b.association
                    == Association::Port(port) && b.skip == associated->Ok_0
                &&& !(to_associate(r.kind, r.association) && associated is Ok) ==> b.association
                    == r.association && b.skip == r.skip
            }
        }),
{
}

} // verus!
