//! What a host can ask a backend to open.
use crate::options::AcceptDefaults;
use crate::types::Endpoint;
use vstd::prelude::*;

verus! {

/// Whether an address may be bound while another socket has it.
#[derive(Clone, Copy, Debug, PartialEq, Eq, Structural)]
pub enum ReusePort {
    No,
    Share,
}

/// How to listen.
#[derive(Clone, Copy, Debug, PartialEq, Eq, Structural)]
pub struct ListenOpts {
    pub backlog: u32,
    pub reuse_port: ReusePort,
    pub accept_defaults: AcceptDefaults,
}

/// A standard stream of the host.
#[derive(Clone, Copy, Debug, PartialEq, Eq, Structural)]
pub enum Stdio {
    Stdin,
    Stdout,
    Stderr,
}

impl Stdio {
    /// The number of the stream.
    pub open spec fn spec_number(self) -> u32 {
        match self {
            Stdio::Stdin => 0,
            Stdio::Stdout => 1,
            Stdio::Stderr => 2,
        }
    }

    /// The number of the stream.
    pub fn number(self) -> (n: u32)
        ensures
            n == self.spec_number(),
    {
        match self {
            Stdio::Stdin => 0,
            Stdio::Stdout => 1,
            Stdio::Stderr => 2,
        }
    }
}

/// A transport to open. Names of local transports are checked by the backend.
#[derive(Debug)]
pub enum Open {
    Tcp { to: Endpoint, nodelay: bool },
    Listener { addr: Endpoint, opts: ListenOpts },
    Udp { from: Endpoint, reuse_port: ReusePort },
    Pipe(Vec<u8>),
    PipeListener { name: Vec<u8>, local: ListenOpts },
    Stdio(Stdio),
}

/// Modes of a terminal.
#[derive(Clone, Copy, Debug, PartialEq, Eq, Structural)]
pub enum TtyMode {
    /// As it was found.
    Normal,
    /// Unprocessed, but for signal keys.
    Raw,
    /// Unprocessed throughout.
    Io,
}

/// The size of a terminal, in characters.
#[derive(Clone, Copy, Debug, PartialEq, Eq, Structural)]
pub struct WindowSize {
    pub columns: u16,
    pub rows: u16,
}

} // verus!
