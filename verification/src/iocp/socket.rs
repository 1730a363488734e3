//! Windows socket addresses, errors and adopted handles.
use crate::bytes::{from_le, get, law_le_round_trip, le, lemma_le_len, lemma_spans};
use crate::iocp::codes::{
    ERROR_BROKEN_PIPE, ERROR_CONNECTION_ABORTED, ERROR_CONNECTION_REFUSED, ERROR_NETNAME_DELETED,
    ERROR_NOT_ENOUGH_MEMORY, ERROR_NO_DATA, ERROR_NO_SYSTEM_RESOURCES, ERROR_OPERATION_ABORTED,
    ERROR_SEM_TIMEOUT, ERROR_TIMEOUT,
};
use crate::iocp::io::Kind;
use crate::types::{invalid, unsupported, Endpoint, Error, ErrorKind};
use vstd::prelude::*;

verus! {

/// The portable kind of a native error; `otherwise` is what the system library makes of
/// a code that is not listed here.
pub open spec fn kind_of(code: i32, otherwise: ErrorKind) -> ErrorKind {
    if code == ERROR_CONNECTION_REFUSED {
        ErrorKind::ConnectionRefused
    } else if code == ERROR_NETNAME_DELETED || code == ERROR_CONNECTION_ABORTED {
        ErrorKind::ConnectionReset
    } else if code == ERROR_BROKEN_PIPE || code == ERROR_NO_DATA {
        ErrorKind::BrokenPipe
    } else if code == ERROR_SEM_TIMEOUT || code == ERROR_TIMEOUT {
        ErrorKind::TimedOut
    } else if code == ERROR_OPERATION_ABORTED {
        ErrorKind::Cancelled
    } else if code == ERROR_NOT_ENOUGH_MEMORY || code == ERROR_NO_SYSTEM_RESOURCES {
        ErrorKind::ResourceLimit
    } else {
        otherwise
    }
}

/// A native error with its portable kind.
pub fn error(code: i32, otherwise: ErrorKind) -> (e: Error)
    ensures
        e == (Error { kind: kind_of(code, otherwise), os: Some(code) }),
{
    let kind = if code == ERROR_CONNECTION_REFUSED {
        ErrorKind::ConnectionRefused
    } else if code == ERROR_NETNAME_DELETED || code == ERROR_CONNECTION_ABORTED {
        ErrorKind::ConnectionReset
    } else if code == ERROR_BROKEN_PIPE || code == ERROR_NO_DATA {
        ErrorKind::BrokenPipe
    } else if code == ERROR_SEM_TIMEOUT || code == ERROR_TIMEOUT {
        ErrorKind::TimedOut
    } else if code == ERROR_OPERATION_ABORTED {
        ErrorKind::Cancelled
    } else if code == ERROR_NOT_ENOUGH_MEMORY || code == ERROR_NO_SYSTEM_RESOURCES {
        ErrorKind::ResourceLimit
    } else {
        otherwise
    };
    Error { kind, os: Some(code) }
}

/// A socket call that returned this failed.
pub const SOCKET_ERROR: i32 = -1;

/// Judge a socket call by its return value; `last` is the thread's last error.
pub fn check(code: i32, last: Error) -> (done: Result<(), Error>)
    ensures
        done == (if code == SOCKET_ERROR {
            Err(last)
        } else {
            Ok(())
        }),
{
    if code == SOCKET_ERROR {
        Err(last)
    } else {
        Ok(())
    }
}

/// Judge a native call that returns zero on failure.
pub fn bool_result(value: i32, last: Error) -> (done: Result<(), Error>)
    ensures
        done == (if value == 0 {
            Err(last)
        } else {
            Ok(())
        }),
{
    if value == 0 {
        Err(last)
    } else {
        Ok(())
    }
}

pub const AF_INET: u16 = 2;

pub const AF_INET6: u16 = 23;

/// Bytes of a native IPv4 address.
pub const V4_LEN: usize = 16;

/// Bytes of a native IPv6 address.
pub const V6_LEN: usize = 28;

/// A port in network order.
pub open spec fn network(port: u16) -> Seq<u8> {
    seq![(port / 256) as u8, (port % 256) as u8]
}

/// The eight groups of an IPv6 address in network order.
pub open spec fn groups(segments: Seq<u16>) -> Seq<u8> {
    Seq::new(
        16,
        |i: int|
            if i % 2 == 0 {
                (segments[i / 2] / 256) as u8
            } else {
                (segments[i / 2] % 256) as u8
            },
    )
}

/// The native form of an endpoint.
pub open spec fn native(addr: Endpoint) -> Seq<u8> {
    match addr {
        Endpoint::V4 { ip, port } => le(AF_INET as nat, 2) + network(port) + ip@ + Seq::new(
            8,
            |i: int| 0u8,
        ),
        Endpoint::V6 { segments, port, flow, scope } => le(AF_INET6 as nat, 2) + network(port) + le(
            flow as nat,
            4,
        ) + groups(segments@) + le(scope as nat, 4),
    }
}

fn push_network(out: &mut Vec<u8>, value: u16)
    ensures
        final(out)@ == old(out)@ + network(value),
{
    out.push((value / 256) as u8);
    out.push((value % 256) as u8);
    assert(out@ =~= old(out)@ + network(value));
}

fn push_number(out: &mut Vec<u8>, value: u32)
    ensures
        final(out)@ == old(out)@ + le(value as nat, 4),
{
    let ghost before = out@;
    out.push((value % 256) as u8);
    out.push((value / 256 % 256) as u8);
    out.push((value / 256 / 256 % 256) as u8);
    out.push((value / 256 / 256 / 256 % 256) as u8);
    proof {
        reveal_with_fuel(le, 5);
        assert(out@ =~= before + le(value as nat, 4));
    }
}

/// Write the native form of an endpoint.
pub fn encode(addr: &Endpoint) -> (bytes: Vec<u8>)
    ensures
        bytes@ == native(*addr),
        bytes@.len() == (match addr {
            Endpoint::V4 { .. } => V4_LEN,
            Endpoint::V6 { .. } => V6_LEN,
        }),
{
    let mut out: Vec<u8> = Vec::new();
    proof {
        reveal_with_fuel(le, 5);
    }
    match addr {
        Endpoint::V4 { ip, port } => {
            out.push(2);
            out.push(0);
            assert(out@ =~= le(AF_INET as nat, 2));
            push_network(&mut out, *port);
            let ghost front = out@;
            let mut i: usize = 0;
            while i < 4
                invariant
                    i <= 4,
                    out@ == front + ip@.take(i as int),
                decreases 4 - i,
            {
                out.push(ip[i]);
                assert(out@ =~= front + ip@.take(i + 1));
                i = i + 1;
            }
            assert(ip@.take(4) =~= ip@);
            let ghost middle = out@;
            let mut i: usize = 0;
            while i < 8
                invariant
                    i <= 8,
                    out@ == middle + Seq::new(i as nat, |i: int| 0u8),
                decreases 8 - i,
            {
                out.push(0);
                assert(out@ =~= middle + Seq::new((i + 1) as nat, |i: int| 0u8));
                i = i + 1;
            }
        },
        Endpoint::V6 { segments, port, flow, scope } => {
            out.push(23);
            out.push(0);
            assert(out@ =~= le(AF_INET6 as nat, 2));
            push_network(&mut out, *port);
            push_number(&mut out, *flow);
            let ghost front = out@;
            let mut i: usize = 0;
            while i < 8
                invariant
                    i <= 8,
                    out@ == front + groups(segments@).take(2 * i as int),
                decreases 8 - i,
            {
                push_network(&mut out, segments[i]);
                assert(out@ =~= front + groups(segments@).take(2 * (i + 1) as int));
                i = i + 1;
            }
            assert(groups(segments@).take(16) =~= groups(segments@));
            push_number(&mut out, *scope);
            proof {
                lemma_le_len(*flow as nat, 4);
                lemma_le_len(*scope as nat, 4);
            }
        },
    }
    out
}

/// The port at the usual place, in network order.
pub open spec fn port_in(bytes: Seq<u8>) -> u16 {
    (bytes[2] * 256 + bytes[3]) as u16
}

/// The endpoint that native bytes stand for.
pub open spec fn endpoint(bytes: Seq<u8>, addr: Endpoint) -> bool {
    match addr {
        Endpoint::V4 { ip, port } => port == port_in(bytes) && ip@ == bytes.subrange(4, 8),
        Endpoint::V6 { segments, port, flow, scope } => {
            &&& port == port_in(bytes)
            &&& flow == from_le(bytes.subrange(4, 8))
            &&& scope == from_le(bytes.subrange(24, 28))
            &&& forall|k: int|
                0 <= k < 8 ==> #[trigger] segments@[k] == bytes[8 + 2 * k] * 256 + bytes[9 + 2 * k]
        },
    }
}

/// Read a native address of `len` significant bytes.
pub fn decode(bytes: &Vec<u8>, len: usize) -> (addr: Result<Endpoint, Error>)
    requires
        bytes@.len() >= V6_LEN,
    ensures
        ({
            let family = from_le(bytes@.subrange(0, 2));
            match addr {
                Ok(a) => {
                    &&& endpoint(bytes@, a)
                    &&& a is V4 ==> family == AF_INET && len >= V4_LEN
                    &&& a is V6 ==> family == AF_INET6 && len >= V6_LEN
                },
                Err(e) => e == Error::plain(ErrorKind::InvalidInput) && !(family == AF_INET && len
                    >= V4_LEN) && !(family == AF_INET6 && len >= V6_LEN),
            }
        }),
{
    let family: u64 = get(bytes, 0, 2);
    let port: u16 = bytes[2] as u16 * 256 + bytes[3] as u16;
    if family == AF_INET as u64 && len >= V4_LEN {
        let ip: [u8; 4] = [bytes[4], bytes[5], bytes[6], bytes[7]];
        assert(ip@ =~= bytes@.subrange(4, 8));
        return Ok(Endpoint::V4 { ip, port });
    }
    if family == AF_INET6 as u64 && len >= V6_LEN {
        proof {
            lemma_spans();
        }
        let flow: u32 = get(bytes, 4, 4) as u32;
        let scope: u32 = get(bytes, 24, 4) as u32;
        let segments: [u16; 8] = [
            bytes[8] as u16 * 256 + bytes[9] as u16,
            bytes[10] as u16 * 256 + bytes[11] as u16,
            bytes[12] as u16 * 256 + bytes[13] as u16,
            bytes[14] as u16 * 256 + bytes[15] as u16,
            bytes[16] as u16 * 256 + bytes[17] as u16,
            bytes[18] as u16 * 256 + bytes[19] as u16,
            bytes[20] as u16 * 256 + bytes[21] as u16,
            bytes[22] as u16 * 256 + bytes[23] as u16,
        ];
        return Ok(Endpoint::V6 { segments, port, flow, scope });
    }
    Err(invalid())
}

/// Same address: arrays are compared by what they hold.
pub open spec fn same(a: Endpoint, b: Endpoint) -> bool {
    match (a, b) {
        (Endpoint::V4 { ip, port }, Endpoint::V4 { ip: ip2, port: port2 }) => ip@ == ip2@ && port
            == port2,
        (
            Endpoint::V6 { segments, port, flow, scope },
            Endpoint::V6 { segments: s2, port: port2, flow: flow2, scope: scope2 },
        ) => segments@ == s2@ && port == port2 && flow == flow2 && scope == scope2,
        _ => false,
    }
}

/// Whatever is written is read back: decoding the native form of an endpoint, padded to
/// the size of any address, gives that endpoint.
pub proof fn law_address_round_trip(addr: Endpoint, padding: Seq<u8>, back: Endpoint)
    requires
        endpoint(native(addr) + padding, back),
        back is V4 <==> addr is V4,
    ensures
        same(addr, back),
        from_le((native(addr) + padding).subrange(0, 2)) == (if addr is V4 {
            AF_INET as nat
        } else {
            AF_INET6 as nat
        }),
{
    let bytes = native(addr) + padding;
    lemma_spans();
    match addr {
        Endpoint::V4 { ip, port } => {
            lemma_le_len(AF_INET as nat, 2);
            law_le_round_trip(AF_INET as nat, 2);
            assert(bytes.subrange(0, 2) =~= le(AF_INET as nat, 2));
            assert(bytes.subrange(4, 8) =~= ip@);
            assert(bytes[2] == network(port)[0] && bytes[3] == network(port)[1]);
        },
        Endpoint::V6 { segments, port, flow, scope } => {
            lemma_le_len(AF_INET6 as nat, 2);
            law_le_round_trip(AF_INET6 as nat, 2);
            lemma_le_len(flow as nat, 4);
            lemma_le_len(scope as nat, 4);
            law_le_round_trip(flow as nat, 4);
            law_le_round_trip(scope as nat, 4);
            assert(bytes.subrange(0, 2) =~= le(AF_INET6 as nat, 2));
            assert(bytes.subrange(4, 8) =~= le(flow as nat, 4));
            assert(bytes.subrange(24, 28) =~= le(scope as nat, 4));
            assert(bytes[2] == network(port)[0] && bytes[3] == network(port)[1]);
            if let Endpoint::V6 { segments: s2, .. } = back {
                assert forall|k: int| 0 <= k < 8 implies segments@[k] == s2@[k] by {
                    assert(bytes[8 + 2 * k] == groups(segments@)[2 * k]);
                    assert(bytes[9 + 2 * k] == groups(segments@)[2 * k + 1]);
                    assert((2 * k) / 2 == k && (2 * k + 1) / 2 == k && (2 * k) % 2 == 0 && (2 * k
                        + 1) % 2 == 1);
                }
                assert(segments@ =~= s2@);
            }
        },
    }
}

pub const SOCK_STREAM: i32 = 1;

pub const SOCK_DGRAM: i32 = 2;

/// What an adopted socket is, by its type and whether it listens.
pub fn classify(socket_type: i32, accepting: bool) -> (kind: Result<Kind, Error>)
    ensures
        kind == (if socket_type == SOCK_DGRAM {
            Ok(Kind::Udp)
        } else if socket_type == SOCK_STREAM {
            if accepting {
                Ok(Kind::Listener)
            } else {
                Ok(Kind::Tcp)
            }
        } else {
            Err(Error::plain(ErrorKind::Unsupported))
        }),
{
    if socket_type == SOCK_DGRAM {
        Ok(Kind::Udp)
    } else if socket_type == SOCK_STREAM {
        if accepting {
            Ok(Kind::Listener)
        } else {
            Ok(Kind::Tcp)
        }
    } else {
        Err(unsupported())
    }
}

/// What the system says about an adopted handle that is no socket.
#[derive(Clone, Copy, Debug, PartialEq, Eq, Structural)]
pub struct HandleFacts {
    /// It has a console mode.
    pub console: bool,
    /// It has a screen buffer.
    pub screen: bool,
    /// Its input and output mode could be read.
    pub mode_known: bool,
    /// It was opened for synchronous calls.
    pub synchronous: bool,
    pub pipe: bool,
}

/// An adopted handle: what it is, and whether it is console input. Its port is not known. An asynchronous handle that is no pipe is refused: a pending call on
/// it would outlive its buffer.
pub fn adopt(facts: HandleFacts) -> (adopted: Result<(Kind, bool), Error>)
    ensures
        adopted == (if facts.console {
            Ok((Kind::Sync, !facts.screen))
        } else if !facts.mode_known {
            Err(Error::plain(ErrorKind::Unsupported))
        } else if facts.synchronous {
            Ok((Kind::Sync, false))
        } else if facts.pipe {
            Ok((Kind::Pipe, false))
        } else {
            Err(Error::plain(ErrorKind::Unsupported))
        }),
{
    if facts.console {
        return Ok((Kind::Sync, !facts.screen));
    }
    if !facts.mode_known {
        return Err(unsupported());
    }
    if facts.synchronous {
        Ok((Kind::Sync, false))
    } else if facts.pipe {
        Ok((Kind::Pipe, false))
    } else {
        Err(unsupported())
    }
}

/// The forwarding of a routed handle's completion.
#[derive(Clone, Copy, Debug, PartialEq, Eq, Structural)]
pub struct Bridge {
    /// A wait on the event is registered.
    pub waiting: bool,
    pub error: i32,
    pub bytes: u32,
}

impl Bridge {
    /// Get ready for a native call; no earlier wait is left.
    pub fn prepare(&mut self)
        requires
            !old(self).waiting,
        ensures
            *final(self) == (Bridge { error: 0, ..*old(self) }),
    {
        self.error = 0;
    }

    /// The wait was registered, or not; then nothing is in flight any more.
    pub fn start(&mut self, registered: Result<(), Error>) -> (done: Result<(), Error>)
        ensures
            done == registered,
            final(self).waiting == registered is Ok,
            final(self).error == old(self).error,
            final(self).bytes == old(self).bytes,
    {
        self.waiting = registered.is_ok();
        registered
    }

    /// The event fired: keep what the native call transferred or why it failed.
    pub fn complete(&mut self, error: i32, bytes: u32)
        ensures
            *final(self) == (Bridge { error, bytes, ..*old(self) }),
    {
        self.error = error;
        self.bytes = bytes;
    }

    /// The result for the operation, once the wait is unregistered.
    pub fn finish(&mut self, otherwise: ErrorKind) -> (result: Result<u32, Error>)
        ensures
            *final(self) == (Bridge { waiting: false, ..*old(self) }),
            result == (if old(self).error == 0 {
                Ok(old(self).bytes)
            } else {
                Err(
                    Error {
                        kind: kind_of(old(self).error, otherwise),
                        os: Some(old(self).error),
                    },
                )
            }),
    {
        self.waiting = false;
        if self.error == 0 {
            Ok(self.bytes)
        } else {
            Err(error(self.error, otherwise))
        }
    }
}

/// How an address stands in memory: its family, its port with the high byte first, and its address
/// as it is read; what the system numbers itself has the low byte first.
pub proof fn law_native_addresses_are_laid_out(addr: Endpoint)
    ensures
        ({
            let bytes = native(addr);
            match addr {
                Endpoint::V4 { ip, port } => {
                    &&& bytes.len() == 16
                    &&& bytes[0] == 2 && bytes[1] == 0
                    &&& bytes[2] * 256 + bytes[3] == port
                    &&& forall|k: int| 0 <= k < 4 ==> bytes[4 + k] == #[trigger] ip@[k]
                    &&& forall|k: int| 8 <= k < 16 ==> #[trigger] bytes[k] == 0
                },
                Endpoint::V6 { segments, port, flow, scope } => {
                    &&& bytes.len() == 28
                    &&& bytes[0] == 23 && bytes[1] == 0
                    &&& bytes[2] * 256 + bytes[3] == port
                    &&& bytes[4] + 0x100 * bytes[5] + 0x1_0000 * bytes[6] + 0x100_0000 * bytes[7]
                        == flow
                    &&& forall|k: int|
                        0 <= k < 8 ==> bytes[8 + 2 * k] * 256 + bytes[9 + 2 * k]
                            == #[trigger] segments@[k]
                    &&& bytes[24] + 0x100 * bytes[25] + 0x1_0000 * bytes[26] + 0x100_0000
                        * bytes[27] == scope
                },
            }
        }),
{
    reveal_with_fuel(le, 5);
    let bytes = native(addr);
    match addr {
        Endpoint::V4 { ip, port } => {
            lemma_le_len(AF_INET as nat, 2);
            assert(bytes[2] == network(port)[0] && bytes[3] == network(port)[1]);
            assert forall|k: int| 0 <= k < 4 implies bytes[4 + k] == #[trigger] ip@[k] by {}
        },
        Endpoint::V6 { segments, port, flow, scope } => {
            lemma_le_len(AF_INET6 as nat, 2);
            lemma_le_len(flow as nat, 4);
            lemma_le_len(scope as nat, 4);
            assert(bytes[2] == network(port)[0] && bytes[3] == network(port)[1]);
            let f = le(flow as nat, 4);
            assert(bytes[4] == f[0] && bytes[5] == f[1] && bytes[6] == f[2] && bytes[7] == f[3]);
            lemma_number(flow);
            let s = le(scope as nat, 4);
            assert(bytes[24] == s[0] && bytes[25] == s[1] && bytes[26] == s[2] && bytes[27]
                == s[3]);
            lemma_number(scope);
            assert forall|k: int| 0 <= k < 8 implies bytes[8 + 2 * k] * 256 + bytes[9 + 2 * k]
                == #[trigger] segments@[k] by {
                assert(bytes[8 + 2 * k] == groups(segments@)[2 * k]);
                assert(bytes[9 + 2 * k] == groups(segments@)[2 * k + 1]);
                assert((2 * k) / 2 == k && (2 * k + 1) / 2 == k && (2 * k) % 2 == 0 && (2 * k + 1)
                    % 2 == 1);
            }
        },
    }
}

/// Four bytes, the low one first.
proof fn lemma_number(value: u32)
    ensures
        ({
            let b = le(value as nat, 4);
            b[0] + 0x100 * b[1] + 0x1_0000 * b[2] + 0x100_0000 * b[3] == value
        }),
{
    reveal_with_fuel(le, 5);
    let b = le(value as nat, 4);
    assert(b[0] == value % 256);
    assert(b[1] == value / 256 % 256);
    assert(b[2] == value / 256 / 256 % 256);
    assert(b[3] == value / 256 / 256 / 256 % 256);
}

/// What the listed numbers mean, by what they mean; of any other the system library decides. The
/// number is kept with it.
pub proof fn law_numbers_mean_what_they_mean(code: i32, otherwise: ErrorKind)
    ensures
        ({
            let kind = kind_of(code, otherwise);
            &&& code == 1225 ==> kind == ErrorKind::ConnectionRefused
            &&& code == 64 || code == 1236 ==> kind == ErrorKind::ConnectionReset
            &&& code == 109 || code == 232 ==> kind == ErrorKind::BrokenPipe
            &&& code == 121 || code == 1460 ==> kind == ErrorKind::TimedOut
            &&& code == 995 ==> kind == ErrorKind::Cancelled
            &&& code == 8 || code == 1450 ==> kind == ErrorKind::ResourceLimit
            &&& !(code == 1225 || code == 64 || code == 1236 || code == 109 || code == 232 || code
                == 121 || code == 1460 || code == 995 || code == 8 || code == 1450) ==> kind
                == otherwise
        }),
{
}

} // verus!
