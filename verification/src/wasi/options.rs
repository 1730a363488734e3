//! Socket options of the component interfaces. What they lack is refused, never ignored.
use crate::options::{AcceptDefaults, KeepAlive, SocketOption, SocketOptionKind};
use crate::types::{invalid, unsupported, Error, ErrorKind, Span};
use vstd::prelude::*;

verus! {

/// Transports with options.
#[derive(Clone, Copy, Debug, PartialEq, Eq, Structural)]
pub enum Socket {
    Tcp,
    Udp,
    Stdio,
}

/// One import that sets something.
#[derive(Clone, Copy, Debug, PartialEq, Eq, Structural)]
pub enum Setting {
    KeepAlive(bool),
    /// In nanoseconds, like the next one.
    IdleTime(u64),
    Interval(u64),
    Count(u32),
    ReceiveBuffer(u64),
    SendBuffer(u64),
    Hops(u8),
}

/// Something of a schedule is absent, or positive and short enough.
pub open spec fn time_ok(span: Option<Span>) -> bool {
    match span {
        Some(s) => 0 < s.total_nanos() <= u64::MAX,
        None => true,
    }
}

/// A whole schedule can be set.
pub open spec fn schedule_ok(schedule: KeepAlive) -> bool {
    time_ok(schedule.idle) && time_ok(schedule.interval) && schedule.count != Some(0u32)
}

/// What a schedule sets, after probing is switched on.
pub open spec fn schedule_settings(schedule: KeepAlive) -> Seq<Setting> {
    seq![Setting::KeepAlive(true)] + (match schedule.idle {
        Some(s) => seq![Setting::IdleTime(s.total_nanos() as u64)],
        None => Seq::empty(),
    }) + (match schedule.interval {
        Some(s) => seq![Setting::Interval(s.total_nanos() as u64)],
        None => Seq::empty(),
    }) + (match schedule.count {
        Some(n) => seq![Setting::Count(n)],
        None => Seq::empty(),
    })
}

/// What setting an option does, or why it is refused.
pub open spec fn planned(option: SocketOption, socket: Socket) -> Result<Seq<Setting>, ErrorKind> {
    match option {
        SocketOption::KeepAlive(value) => if !(socket is Tcp) {
            Err(ErrorKind::Unsupported)
        } else {
            match value {
                None => Ok(seq![Setting::KeepAlive(false)]),
                Some(schedule) => if schedule_ok(schedule) {
                    Ok(schedule_settings(schedule))
                } else {
                    Err(ErrorKind::InvalidInput)
                },
            }
        },
        SocketOption::RecvBufferSize(size) => if socket is Stdio {
            Err(ErrorKind::Unsupported)
        } else {
            Ok(seq![Setting::ReceiveBuffer(size as u64)])
        },
        SocketOption::SendBufferSize(size) => if socket is Stdio {
            Err(ErrorKind::Unsupported)
        } else {
            Ok(seq![Setting::SendBuffer(size as u64)])
        },
        SocketOption::Ttl(hops) => if hops == 0 || hops > 255 {
            Err(ErrorKind::InvalidInput)
        } else if socket is Stdio {
            Err(ErrorKind::Unsupported)
        } else {
            Ok(seq![Setting::Hops(hops as u8)])
        },
        _ => Err(ErrorKind::Unsupported),
    }
}

/// A time in nanoseconds; none at all, or too many, is refused.
pub fn nonzero(span: Span) -> (nanos: Result<u64, Error>)
    ensures
        match nanos {
            Ok(n) => n == span.total_nanos() && n > 0,
            Err(e) => !time_ok(Some(span)) && e == Error::plain(ErrorKind::InvalidInput),
        },
{
    let n: u128 = span.as_nanos();
    if n == 0 || n > 0xffff_ffff_ffff_ffff {
        return Err(invalid());
    }
    Ok(n as u64)
}

fn plan_schedule(schedule: KeepAlive) -> (settings: Result<Vec<Setting>, Error>)
    ensures
        match settings {
            Ok(s) => schedule_ok(schedule) && s@ == schedule_settings(schedule),
            Err(e) => !schedule_ok(schedule) && e == Error::plain(ErrorKind::InvalidInput),
        },
{
    let mut settings: Vec<Setting> = Vec::new();
    settings.push(Setting::KeepAlive(true));
    if let Some(span) = schedule.idle {
        match nonzero(span) {
            Ok(n) => {
                settings.push(Setting::IdleTime(n));
            },
            Err(e) => {
                return Err(e);
            },
        }
    }
    if let Some(span) = schedule.interval {
        match nonzero(span) {
            Ok(n) => {
                settings.push(Setting::Interval(n));
            },
            Err(e) => {
                return Err(e);
            },
        }
    }
    if let Some(n) = schedule.count {
        if n == 0 {
            return Err(invalid());
        }
        settings.push(Setting::Count(n));
    }
    assert(settings@ =~= schedule_settings(schedule));
    Ok(settings)
}

fn one(setting: Setting) -> (settings: Vec<Setting>)
    ensures
        settings@ == seq![setting],
{
    let mut settings: Vec<Setting> = Vec::new();
    settings.push(setting);
    assert(settings@ =~= seq![setting]);
    settings
}

/// What setting an option does, in order.
pub fn set(option: SocketOption, socket: Socket) -> (settings: Result<Vec<Setting>, Error>)
    ensures
        match settings {
            Ok(s) => planned(option, socket) == Ok::<Seq<Setting>, ErrorKind>(s@),
            Err(e) => planned(option, socket) == Err::<Seq<Setting>, ErrorKind>(e.kind) && e
                == Error::plain(e.kind),
        },
{
    match option {
        SocketOption::KeepAlive(value) => {
            if socket != Socket::Tcp {
                return Err(unsupported());
            }
            match value {
                None => Ok(one(Setting::KeepAlive(false))),
                Some(schedule) => plan_schedule(schedule),
            }
        },
        SocketOption::RecvBufferSize(size) => if socket == Socket::Stdio {
            Err(unsupported())
        } else {
            Ok(one(Setting::ReceiveBuffer(size as u64)))
        },
        SocketOption::SendBufferSize(size) => if socket == Socket::Stdio {
            Err(unsupported())
        } else {
            Ok(one(Setting::SendBuffer(size as u64)))
        },
        SocketOption::Ttl(hops) => if hops == 0 || hops > 255 {
            Err(invalid())
        } else if socket == Socket::Stdio {
            Err(unsupported())
        } else {
            Ok(one(Setting::Hops(hops as u8)))
        },
        _ => Err(unsupported()),
    }
}

/// Whether an option can be read.
pub fn readable(kind: SocketOptionKind, socket: Socket) -> (done: Result<(), Error>)
    ensures
        match done {
            Ok(_) => (kind is KeepAlive && socket is Tcp) || ((kind is RecvBufferSize || kind
                is SendBufferSize || kind is Ttl) && !(socket is Stdio)),
            Err(e) => !((kind is KeepAlive && socket is Tcp) || ((kind is RecvBufferSize || kind
                is SendBufferSize || kind is Ttl) && !(socket is Stdio))) && e == Error::plain(
                ErrorKind::Unsupported,
            ),
        },
{
    match kind {
        SocketOptionKind::KeepAlive => if socket == Socket::Tcp {
            Ok(())
        } else {
            Err(unsupported())
        },
        SocketOptionKind::RecvBufferSize => if socket == Socket::Stdio {
            Err(unsupported())
        } else {
            Ok(())
        },
        SocketOptionKind::SendBufferSize => if socket == Socket::Stdio {
            Err(unsupported())
        } else {
            Ok(())
        },
        SocketOptionKind::Ttl => if socket == Socket::Stdio {
            Err(unsupported())
        } else {
            Ok(())
        },
        _ => Err(unsupported()),
    }
}

/// A buffer size as it is reported: the largest that can be, where it is larger.
pub fn bytes(value: u64) -> (size: u32)
    ensures
        size == (if value > u32::MAX {
            u32::MAX
        } else {
            value as u32
        }),
{
    if value > 0xffff_ffff {
        0xffff_ffff
    } else {
        value as u32
    }
}

/// Nanoseconds as a span.
pub fn from_nanos(nanos: u64) -> (span: Span)
    ensures
        span.wf(),
        span.total_nanos() == nanos,
{
    Span { secs: nanos / 1_000_000_000, nanos: (nanos % 1_000_000_000) as u32 }
}

/// What reading the schedule of probing means.
pub fn schedule(enabled: bool, idle: u64, interval: u64, count: u32) -> (value: Option<KeepAlive>)
    ensures
        match value {
            None => !enabled,
            Some(k) => enabled && k.idle is Some && k.idle->0.total_nanos() == idle && k.interval
                is Some && k.interval->0.total_nanos() == interval && k.count == Some(count),
        },
{
    if !enabled {
        return None;
    }
    Some(
        KeepAlive {
            idle: Some(from_nanos(idle)),
            interval: Some(from_nanos(interval)),
            count: Some(count),
        },
    )
}

/// What a listener sets on a connection before it is handed up. There is no import for
/// sending at once.
pub fn apply_accept_defaults(defaults: AcceptDefaults) -> (settings: Result<Vec<Setting>, Error>)
    ensures
        match settings {
            Ok(s) => !defaults.nodelay && match defaults.keep_alive {
                Some(schedule) => schedule_ok(schedule) && s@ == schedule_settings(schedule),
                None => s@.len() == 0,
            },
            Err(e) => if defaults.nodelay {
                e == Error::plain(ErrorKind::Unsupported)
            } else {
                defaults.keep_alive is Some && !schedule_ok(defaults.keep_alive->0) && e
                    == Error::plain(ErrorKind::InvalidInput)
            },
        },
{
    if defaults.nodelay {
        return Err(unsupported());
    }
    match defaults.keep_alive {
        Some(schedule) => plan_schedule(schedule),
        None => Ok(Vec::new()),
    }
}

/// Refuse, when a listener is made, what could not be set on a connection.
pub fn validate_accept_defaults(defaults: AcceptDefaults) -> (done: Result<(), Error>)
    ensures
        match done {
            Ok(_) => !defaults.nodelay,
            Err(e) => defaults.nodelay && e == Error::plain(ErrorKind::Unsupported),
        },
{
    if defaults.nodelay {
        return Err(unsupported());
    }
    Ok(())
}

/// A full schedule sets every part of it, and switches probing on first.
pub proof fn law_full_schedule_sets_every_part(schedule: KeepAlive)
    requires
        schedule_ok(schedule),
        schedule.idle is Some,
        schedule.interval is Some,
        schedule.count is Some,
    ensures
        schedule_settings(schedule) == seq![
            Setting::KeepAlive(true),
            Setting::IdleTime(schedule.idle->0.total_nanos() as u64),
            Setting::Interval(schedule.interval->0.total_nanos() as u64),
            Setting::Count(schedule.count->0),
        ],
{
    assert(schedule_settings(schedule) =~= seq![
        Setting::KeepAlive(true),
        Setting::IdleTime(schedule.idle->0.total_nanos() as u64),
        Setting::Interval(schedule.interval->0.total_nanos() as u64),
        Setting::Count(schedule.count->0),
    ]);
}

/// Each option is set by its own import with the value it was given, where the socket has it; what
/// there is no import for is refused, and so is a value that it cannot take.
pub proof fn law_options_are_set_as_they_are(option: SocketOption, socket: Socket)
    ensures
        match planned(option, socket) {
            Ok(settings) => {
                &&& !(socket is Stdio)
                &&& settings.len() > 0
                &&& match option {
                    SocketOption::KeepAlive(value) => socket is Tcp && settings[0]
                        == Setting::KeepAlive(value is Some) && (value is None ==> settings.len()
                        == 1),
                    SocketOption::RecvBufferSize(n) => settings.len() == 1 && settings[0]
                        is ReceiveBuffer && settings[0]->ReceiveBuffer_0 == n,
                    SocketOption::SendBufferSize(n) => settings.len() == 1 && settings[0]
                        is SendBuffer && settings[0]->SendBuffer_0 == n,
                    SocketOption::Ttl(n) => settings.len() == 1 && settings[0] is Hops
                        && settings[0]->Hops_0 == n && n > 0,
                    _ => false,
                }
            },
            Err(kind) => {
                let schedule = option->KeepAlive_0->0;
                let bad = |span: Option<Span>| span is Some && (span->0.total_nanos() == 0
                    || span->0.total_nanos() > 0xffff_ffff_ffff_ffff);
                &&& kind == ErrorKind::Unsupported || kind == ErrorKind::InvalidInput
                &&& kind == ErrorKind::InvalidInput <==> {
                    ||| option is Ttl && (option->Ttl_0 == 0 || option->Ttl_0 > 255)
                    ||| option is KeepAlive && socket is Tcp && option->KeepAlive_0 is Some && {
                        ||| bad(schedule.idle)
                        ||| bad(schedule.interval)
                        ||| schedule.count == Some(0u32)
                    }
                }
                &&& kind == ErrorKind::Unsupported ==> socket is Stdio || !(option
                    is RecvBufferSize || option is SendBufferSize || option is Ttl)
                &&& kind == ErrorKind::Unsupported && option is KeepAlive ==> !(socket is Tcp)
            },
        },
{
}

/// Probing is switched on first. Each part of its schedule that is given is set by its own import
/// with its own value, and no part that is not.
pub proof fn law_schedules_are_set_part_by_part(schedule: KeepAlive)
    requires
        schedule_ok(schedule),
    ensures
        ({
            let settings = schedule_settings(schedule);
            let idle = if schedule.idle is Some {
                1int
            } else {
                0
            };
            let interval = if schedule.interval is Some {
                1int
            } else {
                0
            };
            let count = if schedule.count is Some {
                1int
            } else {
                0
            };
            &&& settings.len() == 1 + idle + interval + count
            &&& settings[0] == Setting::KeepAlive(true)
            &&& schedule.idle is Some ==> settings[1] is IdleTime && settings[1]->IdleTime_0
                == schedule.idle->0.total_nanos()
            &&& schedule.interval is Some ==> settings[1 + idle] is Interval && settings[1
                + idle]->Interval_0 == schedule.interval->0.total_nanos()
            &&& schedule.count is Some ==> settings[1 + idle + interval] == Setting::Count(
                schedule.count->0,
            )
        }),
{
}

} // verus!
