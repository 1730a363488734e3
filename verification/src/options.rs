//! Typed socket options: what each one writes, what is refused before anything is written,
//! and how values are read back. Nothing is remembered: reading always asks the system.
use crate::types::{invalid, unsupported, Error, ErrorKind, Span};
use vstd::prelude::*;

verus! {

/// A probing schedule. What is left out keeps the system's value.
#[derive(Clone, Copy, Debug, PartialEq, Eq, Structural)]
pub struct KeepAlive {
    pub idle: Option<Span>,
    pub interval: Option<Span>,
    pub count: Option<u32>,
}

/// An address without a port.
#[derive(Clone, Copy, Debug, PartialEq, Eq)]
pub enum Address {
    V4([u8; 4]),
    V6([u8; 16]),
}

/// A multicast group and the interface it is joined on; zero lets the system choose.
#[derive(Clone, Copy, Debug, PartialEq, Eq)]
pub struct MulticastGroup {
    pub group: Address,
    pub interface: u32,
}

/// An option with its value.
#[derive(Clone, Copy, Debug, PartialEq, Eq)]
pub enum SocketOption {
    NoDelay(bool),
    KeepAlive(Option<KeepAlive>),
    Linger(Option<Span>),
    RecvBufferSize(u32),
    SendBufferSize(u32),
    Ttl(u32),
    Ipv6Only(bool),
    Broadcast(bool),
    MulticastTtl(u32),
    MulticastLoop(bool),
    MulticastJoin(MulticastGroup),
    MulticastLeave(MulticastGroup),
}

/// An option that can be read.
#[derive(Clone, Copy, Debug, PartialEq, Eq, Structural)]
pub enum SocketOptionKind {
    NoDelay,
    KeepAlive,
    Linger,
    RecvBufferSize,
    SendBufferSize,
    Ttl,
    Ipv6Only,
    Broadcast,
    MulticastTtl,
    MulticastLoop,
}

/// Options that a listener applies to what it accepts.
#[derive(Clone, Copy, Debug, PartialEq, Eq, Structural)]
pub struct AcceptDefaults {
    pub nodelay: bool,
    pub keep_alive: Option<KeepAlive>,
}

/// The address family of a socket.
#[derive(Clone, Copy, Debug, PartialEq, Eq, Structural)]
pub enum Family {
    V4,
    V6,
    /// Without IP options.
    Other,
}

/// Systems that differ in what they accept.
#[derive(Clone, Copy, Debug, PartialEq, Eq, Structural)]
pub enum System {
    Linux,
    Bsd,
    Windows,
}

/// A native option with an integer value.
#[derive(Clone, Copy, Debug, PartialEq, Eq, Structural)]
pub enum Name {
    NoDelay,
    KeepAlive,
    KeepIdle,
    KeepInterval,
    KeepCount,
    /// Whether closing lingers; read together with the next one.
    LingerSwitch,
    LingerSeconds,
    RecvBuffer,
    SendBuffer,
    Ttl4,
    Hops6,
    Only6,
    Broadcast,
    MulticastTtl4,
    MulticastHops6,
    MulticastLoop4,
    MulticastLoop6,
}

/// One native write.
#[derive(Clone, Copy, Debug, PartialEq, Eq)]
pub enum Write {
    Int { name: Name, value: i32 },
    /// The same with a value of one byte.
    Byte { name: Name, byte: u8 },
    Linger { on: bool, seconds: i32 },
    Group4 { join: bool, group: [u8; 4] },
    /// A group on the interface with this index.
    Group4On { join: bool, group4: [u8; 4], index: i32 },
    Group6 { join: bool, group6: [u8; 16], interface: u32 },
}

/// Writes in order, and the error that is returned after them.
#[derive(Debug)]
pub struct Plan {
    pub writes: Vec<Write>,
    pub error: Option<Error>,
}

/// The same as plain mathematics.
#[verifier::ext_equal]
pub struct Planned {
    pub writes: Seq<Write>,
    pub error: Option<Error>,
}

impl View for Plan {
    type V = Planned;

    open spec fn view(&self) -> Planned {
        Planned { writes: self.writes@, error: self.error }
    }
}

/// Nothing is written.
pub open spec fn refuse(kind: ErrorKind) -> Planned {
    Planned { writes: Seq::empty(), error: Some(Error::plain(kind)) }
}

/// One write.
pub open spec fn once(write: Write) -> Planned {
    Planned { writes: seq![write], error: None }
}

/// An integer option.
pub open spec fn once_int(name: Name, value: int) -> Planned {
    if value > i32::MAX {
        refuse(ErrorKind::InvalidInput)
    } else {
        once(Write::Int { name, value: value as i32 })
    }
}

/// A switch as an integer.
pub open spec fn number(on: bool) -> int {
    if on {
        1
    } else {
        0
    }
}

/// Whole seconds, rounded up: more time is granted rather than less.
pub open spec fn seconds_up(span: Span) -> int {
    span.secs + if span.nanos != 0 {
        1int
    } else {
        0int
    }
}

/// The longest schedule time that a system takes apart from its write.
pub open spec fn keep_limit(system: System) -> int {
    match system {
        System::Windows => 0xffff_ffff,
        _ => 0x7fff_ffff,
    }
}

/// The longest linger time.
pub open spec fn linger_limit(system: System) -> int {
    match system {
        System::Windows => 0xffff,
        _ => 0x7fff_ffff,
    }
}

/// A schedule time is absent, or positive and short enough.
pub open spec fn time_ok(span: Option<Span>, limit: int) -> bool {
    match span {
        Some(s) => 0 < seconds_up(s) <= limit,
        None => true,
    }
}

/// A whole schedule can be written.
pub open spec fn schedule_ok(schedule: KeepAlive, limit: int) -> bool {
    &&& time_ok(schedule.idle, limit)
    &&& time_ok(schedule.interval, limit)
    &&& match schedule.count {
        Some(n) => 0 < n <= i32::MAX,
        None => true,
    }
}

/// A time of a schedule, in seconds.
pub open spec fn time(span: Option<Span>) -> Option<int> {
    match span {
        Some(s) => Some(seconds_up(s)),
        None => None,
    }
}

/// The plan with one more integer, where it is given and nothing was refused.
pub open spec fn then_int(plan: Planned, name: Name, value: Option<int>) -> Planned {
    match (plan.error, value) {
        (None, Some(v)) => if v > i32::MAX {
            Planned { error: Some(Error::plain(ErrorKind::InvalidInput)), ..plan }
        } else {
            Planned { writes: plan.writes.push(Write::Int { name, value: v as i32 }), ..plan }
        },
        _ => plan,
    }
}

/// Probing is switched, and scheduled only when it is switched on.
pub open spec fn keep_alive_plan(value: Option<KeepAlive>, system: System) -> Planned {
    match value {
        None => once_int(Name::KeepAlive, 0),
        Some(schedule) => if !schedule_ok(schedule, keep_limit(system)) {
            refuse(ErrorKind::InvalidInput)
        } else {
            then_int(
                then_int(
                    then_int(
                        once_int(Name::KeepAlive, 1),
                        Name::KeepIdle,
                        time(schedule.idle),
                    ),
                    Name::KeepInterval,
                    time(schedule.interval),
                ),
                Name::KeepCount,
                match schedule.count {
                    Some(n) => Some(n as int),
                    None => None,
                },
            )
        },
    }
}

/// Joining or leaving a group. A group is of the socket's own family; where an interface
/// cannot be named by its index, none may be named.
pub open spec fn group_plan(
    group: MulticastGroup,
    join: bool,
    system: System,
    family: Family,
) -> Planned {
    match (group.group, family) {
        (_, Family::Other) => refuse(ErrorKind::Unsupported),
        (Address::V6(address), Family::V6) => once(
            Write::Group6 { join, group6: address, interface: group.interface },
        ),
        (Address::V4(address), Family::V4) => if group.interface == 0 {
            once(Write::Group4 { join, group: address })
        } else {
            match system {
                System::Linux => if group.interface > i32::MAX {
                    refuse(ErrorKind::InvalidInput)
                } else {
                    once(
                        Write::Group4On {
                            join,
                            group4: address,
                            index: group.interface as i32,
                        },
                    )
                },
                _ => refuse(ErrorKind::Unsupported),
            }
        },
        _ => refuse(ErrorKind::InvalidInput),
    }
}

/// An option of the socket's own family.
pub open spec fn ip_plan(v4: Name, v6: Name, value: int, family: Family) -> Planned {
    match family {
        Family::V4 => once_int(v4, value),
        Family::V6 => once_int(v6, value),
        Family::Other => refuse(ErrorKind::Unsupported),
    }
}

/// A multicast option, which takes one byte for IPv4 on some systems.
pub open spec fn multicast_plan(
    v4: Name,
    v6: Name,
    value: int,
    system: System,
    family: Family,
) -> Planned {
    if family is V4 && system is Bsd {
        if value > 255 {
            refuse(ErrorKind::InvalidInput)
        } else {
            once(Write::Byte { name: v4, byte: value as u8 })
        }
    } else {
        ip_plan(v4, v6, value, family)
    }
}

/// What setting an option writes.
pub open spec fn planned(option: SocketOption, system: System, family: Family) -> Planned {
    match option {
        SocketOption::NoDelay(on) => once_int(Name::NoDelay, number(on)),
        SocketOption::KeepAlive(schedule) => keep_alive_plan(schedule, system),
        SocketOption::Linger(value) => match value {
            None => once(Write::Linger { on: false, seconds: 0 }),
            Some(span) => if seconds_up(span) > linger_limit(system) {
                refuse(ErrorKind::InvalidInput)
            } else {
                once(Write::Linger { on: true, seconds: seconds_up(span) as i32 })
            },
        },
        SocketOption::RecvBufferSize(bytes) => once_int(Name::RecvBuffer, bytes as int),
        SocketOption::SendBufferSize(bytes) => once_int(Name::SendBuffer, bytes as int),
        SocketOption::Ttl(hops) => ip_plan(Name::Ttl4, Name::Hops6, hops as int, family),
        SocketOption::Ipv6Only(on) => once_int(Name::Only6, number(on)),
        SocketOption::Broadcast(on) => once_int(Name::Broadcast, number(on)),
        SocketOption::MulticastTtl(hops) => multicast_plan(
            Name::MulticastTtl4,
            Name::MulticastHops6,
            hops as int,
            system,
            family,
        ),
        SocketOption::MulticastLoop(on) => multicast_plan(
            Name::MulticastLoop4,
            Name::MulticastLoop6,
            number(on),
            system,
            family,
        ),
        SocketOption::MulticastJoin(group) => group_plan(group, true, system, family),
        SocketOption::MulticastLeave(group) => group_plan(group, false, system, family),
    }
}

fn refused(error: Error) -> (plan: Plan)
    ensures
        plan@ == (Planned { writes: Seq::empty(), error: Some(error) }),
{
    let plan = Plan { writes: Vec::new(), error: Some(error) };
    assert(plan@ =~= Planned { writes: Seq::empty(), error: Some(error) });
    plan
}

fn one(write: Write) -> (plan: Plan)
    ensures
        plan@ == once(write),
{
    let mut writes: Vec<Write> = Vec::new();
    writes.push(write);
    let plan = Plan { writes, error: None };
    assert(plan@ =~= once(write));
    plan
}

fn one_int(name: Name, value: u32) -> (plan: Plan)
    ensures
        plan@ == once_int(name, value as int),
{
    if value > 0x7fff_ffff {
        refused(invalid())
    } else {
        one(Write::Int { name, value: value as i32 })
    }
}

fn one_switch(name: Name, on: bool) -> (plan: Plan)
    ensures
        plan@ == once_int(name, number(on)),
{
    one_int(
        name,
        if on {
            1
        } else {
            0
        },
    )
}

fn more(plan: &mut Plan, name: Name, value: Option<u32>)
    ensures
        final(plan)@ == then_int(
            old(plan)@,
            name,
            match value {
                Some(v) => Some(v as int),
                None => None,
            },
        ),
{
    if plan.error.is_none() {
        if let Some(v) = value {
            if v > 0x7fff_ffff {
                plan.error = Some(invalid());
            } else {
                plan.writes.push(Write::Int { name, value: v as i32 });
            }
        }
    }
}

/// A span in whole seconds, rounded up, unless that is more than `limit`.
pub fn whole_seconds(span: Span, limit: u32) -> (seconds: Result<u32, Error>)
    ensures
        match seconds {
            Ok(n) => n == seconds_up(span) && n <= limit,
            Err(e) => seconds_up(span) > limit && e == Error::plain(ErrorKind::InvalidInput),
        },
{
    if span.secs > limit as u64 || (span.secs == limit as u64 && span.nanos != 0) {
        return Err(invalid());
    }
    Ok(
        if span.nanos != 0 {
            span.secs as u32 + 1
        } else {
            span.secs as u32
        },
    )
}

/// The same, where no time at all is refused.
pub fn positive_seconds(span: Span, limit: u32) -> (seconds: Result<u32, Error>)
    ensures
        match seconds {
            Ok(n) => n == seconds_up(span) && 0 < n <= limit,
            Err(e) => !(0 < seconds_up(span) <= limit) && e == Error::plain(
                ErrorKind::InvalidInput,
            ),
        },
{
    let n = whole_seconds(span, limit)?;
    if n == 0 {
        return Err(invalid());
    }
    Ok(n)
}

fn positive_time(span: Option<Span>, limit: u32) -> (seconds: Result<Option<u32>, Error>)
    ensures
        match seconds {
            Ok(None) => span is None,
            Ok(Some(n)) => time(span) == Some(n as int) && time_ok(span, limit as int),
            Err(e) => !time_ok(span, limit as int) && e == Error::plain(ErrorKind::InvalidInput),
        },
{
    match span {
        None => Ok(None),
        Some(s) => match positive_seconds(s, limit) {
            Ok(n) => Ok(Some(n)),
            Err(e) => Err(e),
        },
    }
}

fn plan_keep_alive(value: Option<KeepAlive>, system: System) -> (plan: Plan)
    ensures
        plan@ == keep_alive_plan(value, system),
{
    let Some(schedule) = value else {
        return one_int(Name::KeepAlive, 0);
    };
    let limit: u32 = match system {
        System::Windows => 0xffff_ffff,
        _ => 0x7fff_ffff,
    };
    let idle = match positive_time(schedule.idle, limit) {
        Ok(t) => t,
        Err(e) => {
            return refused(e);
        },
    };
    let interval = match positive_time(schedule.interval, limit) {
        Ok(t) => t,
        Err(e) => {
            return refused(e);
        },
    };
    if let Some(n) = schedule.count {
        if n == 0 || n > 0x7fff_ffff {
            return refused(invalid());
        }
    }
    let mut plan = one_int(Name::KeepAlive, 1);
    more(&mut plan, Name::KeepIdle, idle);
    more(&mut plan, Name::KeepInterval, interval);
    more(&mut plan, Name::KeepCount, schedule.count);
    plan
}

fn plan_group(group: MulticastGroup, join: bool, system: System, family: Family) -> (plan: Plan)
    ensures
        plan@ == group_plan(group, join, system, family),
{
    match (group.group, family) {
        (_, Family::Other) => refused(unsupported()),
        (Address::V6(address), Family::V6) => one(
            Write::Group6 { join, group6: address, interface: group.interface },
        ),
        (Address::V4(address), Family::V4) => {
            if group.interface == 0 {
                return one(Write::Group4 { join, group: address });
            }
            match system {
                System::Linux => if group.interface > 0x7fff_ffff {
                    refused(invalid())
                } else {
                    one(
                        Write::Group4On { join, group4: address, index: group.interface as i32 },
                    )
                },
                _ => refused(unsupported()),
            }
        },
        _ => refused(invalid()),
    }
}

fn plan_ip(v4: Name, v6: Name, value: u32, family: Family) -> (plan: Plan)
    ensures
        plan@ == ip_plan(v4, v6, value as int, family),
{
    match family {
        Family::V4 => one_int(v4, value),
        Family::V6 => one_int(v6, value),
        Family::Other => refused(unsupported()),
    }
}

fn plan_multicast(v4: Name, v6: Name, value: u32, system: System, family: Family) -> (plan: Plan)
    ensures
        plan@ == multicast_plan(v4, v6, value as int, system, family),
{
    match (family, system) {
        (Family::V4, System::Bsd) => if value > 255 {
            refused(invalid())
        } else {
            one(Write::Byte { name: v4, byte: value as u8 })
        },
        _ => plan_ip(v4, v6, value, family),
    }
}

/// Whether setting an option depends on the address family of the socket.
pub fn set_needs_family(option: SocketOption) -> (needs: bool)
    ensures
        needs == (option is Ttl || option is MulticastTtl || option is MulticastLoop || option
            is MulticastJoin || option is MulticastLeave),
        !needs ==> forall|system: System, a: Family, b: Family|
            #![trigger planned(option, system, a), planned(option, system, b)]
            planned(option, system, a) == planned(option, system, b),
{
    match option {
        SocketOption::Ttl(_) | SocketOption::MulticastTtl(_) | SocketOption::MulticastLoop(_)
        | SocketOption::MulticastJoin(_) | SocketOption::MulticastLeave(_) => true,
        _ => false,
    }
}

/// What setting an option writes.
pub fn set(option: SocketOption, system: System, family: Family) -> (plan: Plan)
    ensures
        plan@ == planned(option, system, family),
{
    match option {
        SocketOption::NoDelay(on) => one_switch(Name::NoDelay, on),
        SocketOption::KeepAlive(schedule) => plan_keep_alive(schedule, system),
        SocketOption::Linger(value) => {
            let limit: u32 = match system {
                System::Windows => 0xffff,
                _ => 0x7fff_ffff,
            };
            match value {
                None => one(Write::Linger { on: false, seconds: 0 }),
                Some(span) => match whole_seconds(span, limit) {
                    Ok(n) => one(Write::Linger { on: true, seconds: n as i32 }),
                    Err(e) => refused(e),
                },
            }
        },
        SocketOption::RecvBufferSize(bytes) => one_int(Name::RecvBuffer, bytes),
        SocketOption::SendBufferSize(bytes) => one_int(Name::SendBuffer, bytes),
        SocketOption::Ttl(hops) => plan_ip(Name::Ttl4, Name::Hops6, hops, family),
        SocketOption::Ipv6Only(on) => one_switch(Name::Only6, on),
        SocketOption::Broadcast(on) => one_switch(Name::Broadcast, on),
        SocketOption::MulticastTtl(hops) => plan_multicast(
            Name::MulticastTtl4,
            Name::MulticastHops6,
            hops,
            system,
            family,
        ),
        SocketOption::MulticastLoop(on) => plan_multicast(
            Name::MulticastLoop4,
            Name::MulticastLoop6,
            if on {
                1
            } else {
                0
            },
            system,
            family,
        ),
        SocketOption::MulticastJoin(group) => plan_group(group, true, system, family),
        SocketOption::MulticastLeave(group) => plan_group(group, false, system, family),
    }
}

/// What reading an option asks for. `None` is an option that the family lacks.
pub open spec fn names(kind: SocketOptionKind, family: Family) -> Option<Seq<Name>> {
    match kind {
        SocketOptionKind::NoDelay => Some(seq![Name::NoDelay]),
        SocketOptionKind::KeepAlive => Some(
            seq![Name::KeepAlive, Name::KeepIdle, Name::KeepInterval, Name::KeepCount],
        ),
        SocketOptionKind::Linger => Some(seq![Name::LingerSwitch, Name::LingerSeconds]),
        SocketOptionKind::RecvBufferSize => Some(seq![Name::RecvBuffer]),
        SocketOptionKind::SendBufferSize => Some(seq![Name::SendBuffer]),
        SocketOptionKind::Ipv6Only => Some(seq![Name::Only6]),
        SocketOptionKind::Broadcast => Some(seq![Name::Broadcast]),
        SocketOptionKind::Ttl => match family {
            Family::V4 => Some(seq![Name::Ttl4]),
            Family::V6 => Some(seq![Name::Hops6]),
            Family::Other => None,
        },
        SocketOptionKind::MulticastTtl => match family {
            Family::V4 => Some(seq![Name::MulticastTtl4]),
            Family::V6 => Some(seq![Name::MulticastHops6]),
            Family::Other => None,
        },
        SocketOptionKind::MulticastLoop => match family {
            Family::V4 => Some(seq![Name::MulticastLoop4]),
            Family::V6 => Some(seq![Name::MulticastLoop6]),
            Family::Other => None,
        },
    }
}

/// Nothing more has to be read. The schedule of probing that is switched off is not asked
/// for.
pub open spec fn complete(kind: SocketOptionKind, family: Family, values: Seq<i32>) -> bool {
    match names(kind, family) {
        None => false,
        Some(all) => values.len() >= all.len() || (kind is KeepAlive && values.len() > 0
            && values[0] == 0),
    }
}

/// What to read next, after `values`.
pub fn next_read(kind: SocketOptionKind, family: Family, values: &Vec<i32>) -> (next: Result<
    Option<Name>,
    Error,
>)
    ensures
        match next {
            Err(e) => names(kind, family) is None && e == Error::plain(ErrorKind::Unsupported),
            Ok(None) => complete(kind, family, values@),
            Ok(Some(name)) => !complete(kind, family, values@) && names(kind, family) is Some
                && values@.len() < names(kind, family)->0.len() && name == names(
                kind,
                family,
            )->0[values@.len() as int],
        },
{
    let n: usize = values.len();
    let single: Name = match kind {
        SocketOptionKind::KeepAlive => {
            if n >= 4 || (n > 0 && values[0] == 0) {
                return Ok(None);
            }
            return Ok(
                Some(
                    if n == 0 {
                        Name::KeepAlive
                    } else if n == 1 {
                        Name::KeepIdle
                    } else if n == 2 {
                        Name::KeepInterval
                    } else {
                        Name::KeepCount
                    },
                ),
            );
        },
        SocketOptionKind::Linger => {
            if n >= 2 {
                return Ok(None);
            }
            return Ok(
                Some(
                    if n == 0 {
                        Name::LingerSwitch
                    } else {
                        Name::LingerSeconds
                    },
                ),
            );
        },
        SocketOptionKind::NoDelay => Name::NoDelay,
        SocketOptionKind::RecvBufferSize => Name::RecvBuffer,
        SocketOptionKind::SendBufferSize => Name::SendBuffer,
        SocketOptionKind::Ipv6Only => Name::Only6,
        SocketOptionKind::Broadcast => Name::Broadcast,
        SocketOptionKind::Ttl => match family {
            Family::V4 => Name::Ttl4,
            Family::V6 => Name::Hops6,
            Family::Other => {
                return Err(unsupported());
            },
        },
        SocketOptionKind::MulticastTtl => match family {
            Family::V4 => Name::MulticastTtl4,
            Family::V6 => Name::MulticastHops6,
            Family::Other => {
                return Err(unsupported());
            },
        },
        SocketOptionKind::MulticastLoop => match family {
            Family::V4 => Name::MulticastLoop4,
            Family::V6 => Name::MulticastLoop6,
            Family::Other => {
                return Err(unsupported());
            },
        },
    };
    if n > 0 {
        Ok(None)
    } else {
        Ok(Some(single))
    }
}

/// A value of the system as an unsigned one; negative ones count as zero.
pub open spec fn unsigned(value: i32) -> u32 {
    if value < 0 {
        0
    } else {
        value as u32
    }
}

/// So many whole seconds.
pub open spec fn of_seconds(value: i32) -> Span {
    Span { secs: unsigned(value) as u64, nanos: 0 }
}

/// The option that these values mean.
pub open spec fn meaning(kind: SocketOptionKind, values: Seq<i32>) -> SocketOption {
    match kind {
        SocketOptionKind::NoDelay => SocketOption::NoDelay(values[0] != 0),
        SocketOptionKind::KeepAlive => SocketOption::KeepAlive(
            if values[0] == 0 {
                None
            } else {
                Some(
                    KeepAlive {
                        idle: Some(of_seconds(values[1])),
                        interval: Some(of_seconds(values[2])),
                        count: Some(unsigned(values[3])),
                    },
                )
            },
        ),
        SocketOptionKind::Linger => SocketOption::Linger(
            if values[0] == 0 {
                None
            } else {
                Some(of_seconds(values[1]))
            },
        ),
        SocketOptionKind::RecvBufferSize => SocketOption::RecvBufferSize(unsigned(values[0])),
        SocketOptionKind::SendBufferSize => SocketOption::SendBufferSize(unsigned(values[0])),
        SocketOptionKind::Ttl => SocketOption::Ttl(unsigned(values[0])),
        SocketOptionKind::Ipv6Only => SocketOption::Ipv6Only(values[0] != 0),
        SocketOptionKind::Broadcast => SocketOption::Broadcast(values[0] != 0),
        SocketOptionKind::MulticastTtl => SocketOption::MulticastTtl(unsigned(values[0])),
        SocketOptionKind::MulticastLoop => SocketOption::MulticastLoop(values[0] != 0),
    }
}

fn at_least_zero(value: i32) -> (n: u32)
    ensures
        n == unsigned(value),
{
    if value < 0 {
        0
    } else {
        value as u32
    }
}

fn seconds(value: i32) -> (span: Span)
    ensures
        span == of_seconds(value),
{
    Span { secs: at_least_zero(value) as u64, nanos: 0 }
}

/// The option that the values read for it mean.
pub fn get(kind: SocketOptionKind, family: Family, values: &Vec<i32>) -> (option: SocketOption)
    requires
        complete(kind, family, values@),
    ensures
        option == meaning(kind, values@),
{
    let first: i32 = values[0];
    match kind {
        SocketOptionKind::NoDelay => SocketOption::NoDelay(first != 0),
        SocketOptionKind::KeepAlive => {
            if first == 0 {
                return SocketOption::KeepAlive(None);
            }
            SocketOption::KeepAlive(
                Some(
                    KeepAlive {
                        idle: Some(seconds(values[1])),
                        interval: Some(seconds(values[2])),
                        count: Some(at_least_zero(values[3])),
                    },
                ),
            )
        },
        SocketOptionKind::Linger => {
            if first == 0 {
                return SocketOption::Linger(None);
            }
            SocketOption::Linger(Some(seconds(values[1])))
        },
        SocketOptionKind::RecvBufferSize => SocketOption::RecvBufferSize(at_least_zero(first)),
        SocketOptionKind::SendBufferSize => SocketOption::SendBufferSize(at_least_zero(first)),
        SocketOptionKind::Ttl => SocketOption::Ttl(at_least_zero(first)),
        SocketOptionKind::Ipv6Only => SocketOption::Ipv6Only(first != 0),
        SocketOptionKind::Broadcast => SocketOption::Broadcast(first != 0),
        SocketOptionKind::MulticastTtl => SocketOption::MulticastTtl(at_least_zero(first)),
        SocketOptionKind::MulticastLoop => SocketOption::MulticastLoop(first != 0),
    }
}

/// The options that a listener sets on a connection before it is handed up, in order.
pub open spec fn accept_options(defaults: AcceptDefaults) -> Seq<SocketOption> {
    (if defaults.nodelay {
        seq![SocketOption::NoDelay(true)]
    } else {
        Seq::empty()
    }) + (match defaults.keep_alive {
        Some(schedule) => seq![SocketOption::KeepAlive(Some(schedule))],
        None => Seq::empty(),
    })
}

/// The options that a listener sets on a connection before it is handed up.
pub fn apply_accept_defaults(defaults: AcceptDefaults) -> (options: Vec<SocketOption>)
    ensures
        options@ == accept_options(defaults),
{
    let mut options: Vec<SocketOption> = Vec::new();
    if defaults.nodelay {
        options.push(SocketOption::NoDelay(true));
    }
    if let Some(schedule) = defaults.keep_alive {
        options.push(SocketOption::KeepAlive(Some(schedule)));
    }
    assert(options@ =~= accept_options(defaults));
    options
}

/// Refuse, when a listener is made, what could not be set on a connection: the defaults are
/// options of TCP.
pub fn validate_accept_defaults(defaults: AcceptDefaults, tcp: bool) -> (done: Result<(), Error>)
    ensures
        match done {
            Ok(_) => tcp || accept_options(defaults).len() == 0,
            Err(e) => !tcp && accept_options(defaults).len() > 0 && e == Error::plain(
                ErrorKind::Unsupported,
            ),
        },
{
    if tcp || (!defaults.nodelay && defaults.keep_alive.is_none()) {
        Ok(())
    } else {
        Err(unsupported())
    }
}

/// Rounding to seconds never shortens a time, and lengthens it by less than a second.
pub proof fn law_seconds_are_rounded_up(span: Span)
    requires
        span.wf(),
    ensures
        span.total_nanos() <= seconds_up(span) * 1_000_000_000 < span.total_nanos()
            + 1_000_000_000,
{
}

/// What an integer option wrote is what reading it back means, if the system kept it.
pub proof fn law_written_value_is_read_back(option: SocketOption, system: System, family: Family)
    requires
        planned(option, system, family).error is None,
    ensures
        planned(option, system, family).writes.len() >= 1,
        match (option, planned(option, system, family).writes[0]) {
            (SocketOption::NoDelay(_), Write::Int { value, .. }) => meaning(
                SocketOptionKind::NoDelay,
                seq![value],
            ) == option,
            (SocketOption::RecvBufferSize(_), Write::Int { value, .. }) => meaning(
                SocketOptionKind::RecvBufferSize,
                seq![value],
            ) == option,
            (SocketOption::SendBufferSize(_), Write::Int { value, .. }) => meaning(
                SocketOptionKind::SendBufferSize,
                seq![value],
            ) == option,
            (SocketOption::Ttl(_), Write::Int { value, .. }) => meaning(
                SocketOptionKind::Ttl,
                seq![value],
            ) == option,
            (SocketOption::Ipv6Only(_), Write::Int { value, .. }) => meaning(
                SocketOptionKind::Ipv6Only,
                seq![value],
            ) == option,
            (SocketOption::Broadcast(_), Write::Int { value, .. }) => meaning(
                SocketOptionKind::Broadcast,
                seq![value],
            ) == option,
            (SocketOption::MulticastTtl(_), Write::Int { value, .. }) => meaning(
                SocketOptionKind::MulticastTtl,
                seq![value],
            ) == option,
            (SocketOption::MulticastTtl(_), Write::Byte { byte, .. }) => meaning(
                SocketOptionKind::MulticastTtl,
                seq![byte as i32],
            ) == option,
            (SocketOption::MulticastLoop(_), Write::Int { value, .. }) => meaning(
                SocketOptionKind::MulticastLoop,
                seq![value],
            ) == option,
            (SocketOption::MulticastLoop(_), Write::Byte { byte, .. }) => meaning(
                SocketOptionKind::MulticastLoop,
                seq![byte as i32],
            ) == option,
            (SocketOption::Linger(Some(span)), Write::Linger { on, seconds }) => meaning(
                SocketOptionKind::Linger,
                seq![if on { 1i32 } else { 0i32 }, seconds],
            ) == SocketOption::Linger(
                Some(Span { secs: seconds_up(span) as u64, nanos: 0 }),
            ),
            (SocketOption::Linger(None), Write::Linger { on, seconds }) => meaning(
                SocketOptionKind::Linger,
                seq![if on { 1i32 } else { 0i32 }, seconds],
            ) == option,
            (SocketOption::KeepAlive(value), Write::Int { name, value: first }) => name
                == Name::KeepAlive && (first != 0) == (value is Some),
            (SocketOption::MulticastJoin(_), _) | (SocketOption::MulticastLeave(_), _) => true,
            _ => false,
        },
{
}

/// A refused option writes nothing on systems that take every time that fits.
pub proof fn law_refused_option_writes_nothing(
    option: SocketOption,
    system: System,
    family: Family,
)
    requires
        !(system is Windows) || !(option is KeepAlive),
        planned(option, system, family).error is Some,
    ensures
        planned(option, system, family).writes.len() == 0,
{
}

/// Each option is written under its own name, by the family of the socket where it is one of an
/// address, with the value that it was given: a switch that is on as one, and off as zero.
pub proof fn law_options_are_written_as_they_are(option: SocketOption, system: System, family: Family)
    requires
        planned(option, system, family).error is None,
        !(option is KeepAlive),
    ensures
        planned(option, system, family).writes.len() == 1,
        ({
            let write = planned(option, system, family).writes[0];
            let one = |on: bool| if on {
                1int
            } else {
                0int
            };
            let own = |v4: Name, v6: Name| if family is V4 {
                v4
            } else {
                v6
            };
            let is = |name: Name, value: int| {
                ||| write is Int && write->Int_name == name && write->value == value
                ||| system is Bsd && family is V4 && (name == Name::MulticastTtl4 || name
                    == Name::MulticastLoop4) && write is Byte && write->Byte_name == name
                    && write->byte == value
            };
            match option {
                SocketOption::NoDelay(on) => is(Name::NoDelay, one(on)),
                SocketOption::Ipv6Only(on) => is(Name::Only6, one(on)),
                SocketOption::Broadcast(on) => is(Name::Broadcast, one(on)),
                SocketOption::RecvBufferSize(n) => is(Name::RecvBuffer, n as int),
                SocketOption::SendBufferSize(n) => is(Name::SendBuffer, n as int),
                SocketOption::Ttl(n) => is(own(Name::Ttl4, Name::Hops6), n as int),
                SocketOption::MulticastTtl(n) => is(
                    own(Name::MulticastTtl4, Name::MulticastHops6),
                    n as int,
                ),
                SocketOption::MulticastLoop(on) => is(
                    own(Name::MulticastLoop4, Name::MulticastLoop6),
                    one(on),
                ),
                SocketOption::Linger(None) => write == (Write::Linger { on: false, seconds: 0 }),
                SocketOption::Linger(Some(span)) => write is Linger && write->on
                    && write->seconds >= span.secs && write->seconds <= span.secs + 1 && (
                write->seconds == span.secs <==> span.nanos == 0),
                SocketOption::MulticastJoin(g) => passes(write, true, g),
                SocketOption::MulticastLeave(g) => passes(write, false, g),
                SocketOption::KeepAlive(_) => true,
            }
        }),
{
}

/// The write joins or leaves this group, on its interface.
pub open spec fn passes(write: Write, enter: bool, g: MulticastGroup) -> bool {
    match write {
        Write::Group4 { join, group } => join == enter && g.group == Address::V4(group)
            && g.interface == 0,
        Write::Group4On { join, group4, index } => join == enter && g.group == Address::V4(group4)
            && g.interface == index,
        Write::Group6 { join, group6, interface } => join == enter && g.group == Address::V6(group6)
            && g.interface == interface,
        _ => false,
    }
}

/// What is set can be asked for: reading an option starts with the name that writing it starts
/// with, whatever the family.
pub proof fn law_options_are_read_where_they_are_written(
    option: SocketOption,
    system: System,
    family: Family,
)
    requires
        planned(option, system, family).error is None,
    ensures
        ({
            let write = planned(option, system, family).writes[0];
            let first = |kind: SocketOptionKind| names(kind, family) is Some && names(
                kind,
                family,
            )->0.len() > 0 && (write is Int && names(kind, family)->0[0] == write->Int_name || write
                is Byte && names(kind, family)->0[0] == write->Byte_name);
            match option {
                SocketOption::NoDelay(_) => first(SocketOptionKind::NoDelay),
                SocketOption::KeepAlive(_) => first(SocketOptionKind::KeepAlive),
                SocketOption::RecvBufferSize(_) => first(SocketOptionKind::RecvBufferSize),
                SocketOption::SendBufferSize(_) => first(SocketOptionKind::SendBufferSize),
                SocketOption::Ttl(_) => first(SocketOptionKind::Ttl),
                SocketOption::Ipv6Only(_) => first(SocketOptionKind::Ipv6Only),
                SocketOption::Broadcast(_) => first(SocketOptionKind::Broadcast),
                SocketOption::MulticastTtl(_) => first(SocketOptionKind::MulticastTtl),
                SocketOption::MulticastLoop(_) => first(SocketOptionKind::MulticastLoop),
                _ => true,
            }
        }),
{
}

/// Probing is switched first. Each part of its schedule that is given is set under its own name,
/// idle time, interval and count in this order, and no part that is not.
pub proof fn law_schedules_are_set_part_by_part(schedule: KeepAlive, system: System, family: Family)
    requires
        planned(SocketOption::KeepAlive(Some(schedule)), system, family).error is None,
    ensures
        ({
            let writes = planned(SocketOption::KeepAlive(Some(schedule)), system, family).writes;
            let idle = if schedule.idle is Some {
                1int
            } else {
                0
            };
            let interval = if schedule.interval is Some {
                1int
            } else {
                0
            };
            let count = if schedule.count is Some {
                1int
            } else {
                0
            };
            &&& writes.len() == 1 + idle + interval + count
            &&& writes[0] == (Write::Int { name: Name::KeepAlive, value: 1 })
            &&& schedule.idle is Some ==> writes[1] == (Write::Int {
                name: Name::KeepIdle,
                value: seconds_up(schedule.idle->0) as i32,
            }) && 0 < seconds_up(schedule.idle->0) <= i32::MAX
            &&& schedule.interval is Some ==> writes[1 + idle] == (Write::Int {
                name: Name::KeepInterval,
                value: seconds_up(schedule.interval->0) as i32,
            }) && 0 < seconds_up(schedule.interval->0) <= i32::MAX
            &&& schedule.count is Some ==> writes[1 + idle + interval] == (Write::Int {
                name: Name::KeepCount,
                value: schedule.count->0 as i32,
            }) && 0 < schedule.count->0 <= i32::MAX
            &&& planned(SocketOption::KeepAlive(None), system, family).writes == seq![
                Write::Int { name: Name::KeepAlive, value: 0 },
            ]
            &&& planned(SocketOption::KeepAlive(None), system, family).error is None
        }),
{
}

/// An option is refused exactly where it cannot be set: a number that the system cannot hold, a
/// time or a count of nothing, an option or a group that the family of the socket lacks, and an
/// interface that cannot be named.
pub proof fn law_options_are_refused(option: SocketOption, system: System, family: Family)
    ensures
        ({
            let error = planned(option, system, family).error;
            let late = |span: Option<Span>| span is Some && (seconds_up(span->0) == 0 || seconds_up(
                span->0,
            ) > 0x7fff_ffff);
            let foreign = family is Other && (option is Ttl || option is MulticastTtl || option
                is MulticastLoop || option is MulticastJoin || option is MulticastLeave);
            let most = if system is Bsd && family is V4 {
                255int
            } else {
                0x7fff_ffff
            };
            let apart = |g: MulticastGroup| {
                ||| g.group is V4 && family is V6
                ||| g.group is V6 && family is V4
            };
            let unnamed = |g: MulticastGroup| g.group is V4 && family is V4 && g.interface != 0 && {
                ||| !(system is Linux)
                ||| g.interface > 0x7fff_ffff
            };
            &&& error is Some <==> foreign || match option {
                SocketOption::NoDelay(_) | SocketOption::Ipv6Only(_) | SocketOption::Broadcast(_)
                | SocketOption::MulticastLoop(_) => false,
                SocketOption::RecvBufferSize(n) | SocketOption::SendBufferSize(n)
                | SocketOption::Ttl(n) => n > 0x7fff_ffff,
                SocketOption::MulticastTtl(n) => n > most,
                SocketOption::Linger(value) => value is Some && seconds_up(value->0) > (if system
                    is Windows {
                    0xffffint
                } else {
                    0x7fff_ffff
                }),
                SocketOption::KeepAlive(value) => value is Some && {
                    ||| late(value->0.idle)
                    ||| late(value->0.interval)
                    ||| value->0.count is Some && (value->0.count->0 == 0 || value->0.count->0
                        > 0x7fff_ffff)
                },
                SocketOption::MulticastJoin(g) | SocketOption::MulticastLeave(g) => apart(g)
                    || unnamed(g),
            }
            &&& error is Some ==> error->0 == Error::plain(
                if foreign || (option is MulticastJoin || option is MulticastLeave) && !(system
                    is Linux) && !apart(
                    if option is MulticastJoin {
                        option->MulticastJoin_0
                    } else {
                        option->MulticastLeave_0
                    },
                ) {
                    ErrorKind::Unsupported
                } else {
                    ErrorKind::InvalidInput
                },
            )
        }),
{
}

/// What was read means what was set: the times of a schedule in seconds at their own places, and
/// nothing where probing or lingering is off. Numbers below zero count as none.
pub proof fn law_values_mean_what_they_are(a: i32, b: i32, c: i32, d: i32)
    requires
        a != 0,
    ensures
        ({
            let up = |v: i32| if v < 0 {
                0int
            } else {
                v as int
            };
            let keep = meaning(SocketOptionKind::KeepAlive, seq![a, b, c, d]);
            let linger = meaning(SocketOptionKind::Linger, seq![a, b]);
            &&& keep is KeepAlive && keep->KeepAlive_0 is Some && ({
                let s = keep->KeepAlive_0->0;
                &&& s.idle is Some && s.idle->0.total_nanos() == up(b) * 1_000_000_000
                &&& s.interval is Some && s.interval->0.total_nanos() == up(c) * 1_000_000_000
                &&& s.count is Some && s.count->0 == up(d)
            })
            &&& linger is Linger && linger->Linger_0 is Some && linger->Linger_0->0.total_nanos()
                == up(b) * 1_000_000_000
            &&& meaning(SocketOptionKind::KeepAlive, seq![0i32]) == SocketOption::KeepAlive(None)
            &&& meaning(SocketOptionKind::Linger, seq![0i32, b]) == SocketOption::Linger(None)
            &&& meaning(SocketOptionKind::NoDelay, seq![a]) == SocketOption::NoDelay(true)
            &&& meaning(SocketOptionKind::Ipv6Only, seq![a]) == SocketOption::Ipv6Only(true)
            &&& meaning(SocketOptionKind::Broadcast, seq![a]) == SocketOption::Broadcast(true)
            &&& meaning(SocketOptionKind::MulticastLoop, seq![a]) == SocketOption::MulticastLoop(
                true,
            )
            &&& meaning(SocketOptionKind::Ttl, seq![b]) == SocketOption::Ttl(up(b) as u32)
            &&& meaning(SocketOptionKind::MulticastTtl, seq![b]) == SocketOption::MulticastTtl(
                up(b) as u32,
            )
            &&& meaning(SocketOptionKind::RecvBufferSize, seq![b]) == SocketOption::RecvBufferSize(
                up(b) as u32,
            )
            &&& meaning(SocketOptionKind::SendBufferSize, seq![b]) == SocketOption::SendBufferSize(
                up(b) as u32,
            )
        }),
{
}

/// A listener sets on a connection what it was asked to, without delay first, and nothing else.
pub proof fn law_accepted_connections_get_their_options(defaults: AcceptDefaults)
    ensures
        ({
            let options = accept_options(defaults);
            &&& defaults.nodelay <==> options.len() > 0 && options[0] == SocketOption::NoDelay(true)
            &&& defaults.keep_alive is Some <==> options.len() > 0 && options.last()
                == SocketOption::KeepAlive(defaults.keep_alive)
            &&& options.len() == (if defaults.nodelay {
                1int
            } else {
                0
            }) + (if defaults.keep_alive is Some {
                1int
            } else {
                0
            })
        }),
{
}

/// An option is read once every name of it was asked for; the schedule of probing that is off is not
/// asked for. What the family lacks is never read.
pub proof fn law_options_are_read_whole(kind: SocketOptionKind, family: Family, values: Seq<i32>)
    ensures
        ({
            let all = names(kind, family);
            let own = kind is Ttl || kind is MulticastTtl || kind is MulticastLoop;
            &&& all is None <==> own && family is Other
            &&& all is Some && kind is KeepAlive ==> (complete(kind, family, values) <==> values.len()
                >= 4 || values.len() > 0 && values[0] == 0)
            &&& all is Some && kind is Linger ==> (complete(kind, family, values) <==> values.len()
                >= 2)
            &&& all is Some && !(kind is KeepAlive) && !(kind is Linger) ==> (complete(
                kind,
                family,
                values,
            ) <==> values.len() >= 1)
            &&& all is None ==> !complete(kind, family, values)
            &&& kind is KeepAlive ==> all->0[1] == Name::KeepIdle && all->0[2] == Name::KeepInterval
                && all->0[3] == Name::KeepCount
            &&& kind is Linger ==> all->0[0] == Name::LingerSwitch && all->0[1]
                == Name::LingerSeconds
        }),
{
}

} // verus!
