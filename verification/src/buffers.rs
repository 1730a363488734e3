//! Pool buffers: a completion hands one out, an operation keeps it, or it goes back.
use crate::types::{Event, Lease, Outcome};
use vstd::prelude::*;

verus! {

/// The buffer that a completion hands out.
pub open spec fn handed_out<D>(event: Event<D>) -> Option<Lease> {
    match event.result {
        Ok(Outcome::Read { lease, .. }) => lease,
        Ok(Outcome::RecvFrom { lease, .. }) => lease,
        Ok(Outcome::Fs { lease, .. }) => lease,
        Ok(Outcome::Watch { events, .. }) => Some(events),
        _ => None,
    }
}

/// The buffer that goes back to the pool: one that an operation had, keeps no more, and that
/// its completion does not hand out.
pub open spec fn going_back<D>(had: Option<Lease>, keeps: Option<Lease>, event: Option<Event<D>>) -> Option<
    Lease,
> {
    if keeps is Some || (event is Some && handed_out(event->0) is Some) {
        None
    } else {
        had
    }
}

/// Which buffer goes back to the pool. `had` is the one that an operation had or was offered,
/// `keeps` the one that it still has, and `event` what was told of it.
pub fn goes_back<D>(had: Option<Lease>, keeps: Option<Lease>, event: &Option<Event<D>>) -> (back:
    Option<Lease>)
    ensures
        back == going_back(had, keeps, *event),
{
    if keeps.is_some() {
        return None;
    }
    let out: Option<Lease> = match event {
        None => None,
        Some(event) => match &event.result {
            Ok(Outcome::Read { lease, .. }) => *lease,
            Ok(Outcome::RecvFrom { lease, .. }) => *lease,
            Ok(Outcome::Fs { lease, .. }) => *lease,
            Ok(Outcome::Watch { events, .. }) => Some(*events),
            _ => None,
        },
    };
    if out.is_some() {
        None
    } else {
        had
    }
}

/// A completion hands out the buffer that its bytes, its datagram, its listing or its changes are in,
/// and nothing else hands one out.
pub proof fn law_completions_hand_out_their_buffer<D>(event: Event<D>)
    ensures
        match event.result {
            Ok(outcome) => {
                &&& outcome is Read ==> handed_out(event) == outcome->Read_lease
                &&& outcome is RecvFrom ==> handed_out(event) == outcome->RecvFrom_lease
                &&& outcome is Fs ==> handed_out(event) == outcome->Fs_lease
                &&& outcome is Watch ==> handed_out(event) == Some(outcome->events)
                &&& handed_out(event) is Some ==> outcome is Read || outcome is RecvFrom || outcome
                    is Fs || outcome is Watch
            },
            Err(_) => handed_out(event) is None,
        },
{
}

/// A buffer that an operation had is kept, handed out, or given back, and only one of these.
pub proof fn law_buffers_are_not_lost<D>(
    had: Option<Lease>,
    keeps: Option<Lease>,
    event: Option<Event<D>>,
)
    requires
        had is Some,
    ensures
        ({
            let out = event is Some && handed_out(event->0) is Some;
            &&& going_back(had, keeps, event) is Some <==> keeps is None && !out
            &&& going_back(had, keeps, event) is Some ==> going_back(had, keeps, event) == had
        }),
{
}

} // verus!
