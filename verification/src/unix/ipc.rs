//! What an adopted descriptor is, and how one is passed over a local connection.
use crate::types::{invalid, unsupported, Error, ErrorKind};
use crate::readiness::io::Kind;
use vstd::prelude::*;

verus! {

/// The byte that goes with a passed connection.
pub const CONNECTION: u8 = 0x54;

/// The byte that goes with a passed listener.
pub const LISTENER: u8 = 0x55;

/// The address family of a socket.
#[derive(Clone, Copy, Debug, PartialEq, Eq, Structural)]
pub enum SocketFamily {
    Local,
    Ip,
    Other,
}

/// The type of a socket.
#[derive(Clone, Copy, Debug, PartialEq, Eq, Structural)]
pub enum SocketType {
    Stream,
    Datagram,
    Other,
}

/// What the system tells of a descriptor.
#[derive(Clone, Copy, Debug, PartialEq, Eq, Structural)]
pub enum Node {
    Socket { family: SocketFamily, socket_type: SocketType, listening: bool },
    Regular,
    Device { terminal: bool },
    Other,
}

/// What a descriptor is adopted as.
pub open spec fn kind_of(node: Node) -> Option<Kind> {
    match node {
        Node::Socket { family, socket_type, listening } => match (family, socket_type) {
            (SocketFamily::Local, SocketType::Stream) => Some(
                if listening {
                    Kind::PipeListener
                } else {
                    Kind::Pipe
                },
            ),
            (SocketFamily::Ip, SocketType::Stream) => Some(
                if listening {
                    Kind::Listener
                } else {
                    Kind::Tcp
                },
            ),
            (SocketFamily::Ip, SocketType::Datagram) => Some(Kind::Udp),
            _ => None,
        },
        Node::Regular => Some(Kind::File),
        Node::Device { terminal } => Some(
            if terminal {
                Kind::Stream
            } else {
                Kind::File
            },
        ),
        Node::Other => Some(Kind::Stream),
    }
}

/// A kind of socket.
pub open spec fn is_socket(kind: Kind) -> bool {
    !(kind is Stream || kind is File)
}

/// What a descriptor is adopted as. Sockets of other families or types are none of ours.
pub fn classify(node: Node) -> (kind: Result<Kind, Error>)
    ensures
        match kind {
            Ok(k) => kind_of(node) == Some(k),
            Err(e) => kind_of(node) is None && e == Error::plain(ErrorKind::Unsupported),
        },
{
    match node {
        Node::Socket { family, socket_type, listening } => match (family, socket_type) {
            (SocketFamily::Local, SocketType::Stream) => Ok(
                if listening {
                    Kind::PipeListener
                } else {
                    Kind::Pipe
                },
            ),
            (SocketFamily::Ip, SocketType::Stream) => Ok(
                if listening {
                    Kind::Listener
                } else {
                    Kind::Tcp
                },
            ),
            (SocketFamily::Ip, SocketType::Datagram) => Ok(Kind::Udp),
            _ => Err(unsupported()),
        },
        Node::Regular => Ok(Kind::File),
        Node::Device { terminal } => Ok(
            if terminal {
                Kind::Stream
            } else {
                Kind::File
            },
        ),
        Node::Other => Ok(Kind::Stream),
    }
}

/// Whether the status flags that a descriptor came with are put back when it goes. An
/// adopted one gets them back, whatever it is, and so does a stream or a file, which may be
/// shared with another process; a socket made here had no others.
pub fn restores_flags(kind: Kind, adopted: bool) -> (restores: bool)
    ensures
        restores == (adopted || !is_socket(kind)),
{
    adopted || match kind {
        Kind::Stream | Kind::File => true,
        _ => false,
    }
}

/// The byte that goes with a passed descriptor.
pub open spec fn marker_of(kind: Kind) -> u8 {
    if kind is Listener || kind is PipeListener {
        LISTENER
    } else {
        CONNECTION
    }
}

/// The byte that goes with a passed descriptor.
pub fn marker(kind: Kind) -> (byte: u8)
    ensures
        byte == marker_of(kind),
{
    match kind {
        Kind::Listener | Kind::PipeListener => LISTENER,
        _ => CONNECTION,
    }
}

/// Judge a send: the byte and its descriptor go together, or the connection is gone.
pub fn sent(n: usize) -> (done: Result<(), Error>)
    ensures
        match done {
            Ok(_) => n == 1,
            Err(e) => n != 1 && e == Error::plain(ErrorKind::BrokenPipe),
        },
{
    if n == 1 {
        Ok(())
    } else {
        Err(Error::new(ErrorKind::BrokenPipe))
    }
}

/// A message that passes exactly one descriptor.
pub open spec fn message_ok(n: int, byte: u8, count: int, truncated: bool) -> bool {
    n == 1 && (byte == CONNECTION || byte == LISTENER) && count == 1 && !truncated
}

/// Judge a received message: `n` bytes with `count` descriptors. Yields whether the
/// descriptor is said to listen.
pub fn received(n: usize, byte: u8, count: usize, truncated: bool) -> (listener: Result<
    bool,
    Error,
>)
    ensures
        match listener {
            Ok(l) => message_ok(n as int, byte, count as int, truncated) && l == (byte
                == LISTENER),
            Err(e) => !message_ok(n as int, byte, count as int, truncated) && e == Error::plain(
                ErrorKind::InvalidInput,
            ),
        },
{
    if n != 1 || (byte != CONNECTION && byte != LISTENER) || count != 1 || truncated {
        return Err(invalid());
    }
    Ok(byte == LISTENER)
}

/// Judge what was received: only sockets are taken over.
pub fn accept_kind(kind: Kind) -> (done: Result<Kind, Error>)
    ensures
        match done {
            Ok(k) => is_socket(kind) && k == kind,
            Err(e) => !is_socket(kind) && e == Error::plain(ErrorKind::Unsupported),
        },
{
    match kind {
        Kind::Stream | Kind::File => Err(unsupported()),
        _ => Ok(kind),
    }
}

/// The receiver of a passed socket learns whether it listens.
pub proof fn law_passed_kind_is_told(kind: Kind)
    requires
        is_socket(kind),
    ensures
        message_ok(1, marker_of(kind), 1, false),
        (marker_of(kind) == LISTENER) == (kind is Listener || kind is PipeListener),
{
}

/// Whether a broken-pipe signal has to be taken back: a write caused it, and none waited
/// before.
pub fn must_consume(failed: bool, broken: bool, waited_before: bool, waits_now: bool) -> (take: bool)
    ensures
        take == (failed && broken && !waited_before && waits_now),
{
    failed && broken && !waited_before && waits_now
}

/// A descriptor is adopted as what it is: a local or network stream that listens or not, a network
/// datagram socket, a file, or a stream of another sort. Any other socket is refused.
pub proof fn law_descriptors_are_what_they_are(node: Node)
    ensures
        ({
            let kind = kind_of(node);
            let local = node is Socket && node->family is Local && node->socket_type is Stream;
            let network = node is Socket && node->family is Ip && node->socket_type is Stream;
            &&& kind == Some(Kind::PipeListener) <==> local && node->listening
            &&& kind == Some(Kind::Pipe) <==> local && !node->listening
            &&& kind == Some(Kind::Listener) <==> network && node->listening
            &&& kind == Some(Kind::Tcp) <==> network && !node->listening
            &&& kind == Some(Kind::Udp) <==> node is Socket && node->family is Ip
                && node->socket_type is Datagram
            &&& kind == Some(Kind::File) <==> node is Regular || (node is Device && !node->terminal)
            &&& kind == Some(Kind::Stream) <==> node is Other || (node is Device && node->terminal)
            &&& node is Socket ==> (kind is Some ==> is_socket(kind->0))
            &&& !(node is Socket) ==> kind is Some && !is_socket(kind->0)
        }),
{
}

/// A message passes a socket when it is one whole byte, one of the two that are used for it, with
/// one descriptor, and what listens is told apart from what does not by its byte.
pub proof fn law_messages_pass_one_socket(n: int, byte: u8, count: int, truncated: bool, kind: Kind)
    ensures
        message_ok(n, byte, count, truncated) <==> n == 1 && count == 1 && !truncated && (byte
            == 0x54 || byte == 0x55),
        kind is Listener || kind is PipeListener ==> marker_of(kind) == 0x55,
        !(kind is Listener || kind is PipeListener) ==> marker_of(kind) == 0x54,
{
}

} // verus!
