# turnloop

The decision core of an embeddable, completion-shaped event loop, written in Rust and
verified with Verus. The host performs every system call. The library owns the tables,
queues and rules that decide which call comes next, what its reply means, and which
completions the host is owed.

## Layout

- `src/types.rs`, `src/open.rs`, `src/options.rs`: handles, operations, completions, and
  what a transport is opened and configured with.
- `src/lanes.rs`, `src/queues.rs`, `src/payload.rs`, `src/bytes.rs`, `src/buffers.rs`,
  `src/counting.rs`:
  the data structures that the backends share.
- `src/turn.rs`: the stages of one turn of each backend, and its single wait.
- `src/readiness/`: the engine for systems that report readiness. `laws.rs` and `trace.rs`
  hold what is true of every run of it.
- `src/unix/`: polling, local connections, files, watches, children and signals on Unix.
  `poll.rs` puts them together to one poll.
- `src/iocp/`: the engine for systems that report completed calls, and what Windows needs
  around it.
- `src/wasi/`: components of both WASI generations: sockets, lookups, files and the
  canonical ABI. `drive.rs` is one attempt of the asynchronous generation, `run.rs` one pass
  over file-system requests.
- `src/web.rs`: browser and script hosts, whose callbacks complete operations.
- `tests/`: runs on concrete values.
- `app/`: a host of the readiness engine, for Linux alone.

## What is proved

Every function states what it returns and what it changes. Public proof functions named
`law_*` state what holds across calls: a request ends in exactly one terminal completion,
nothing follows it, operations of one direction complete in the order in which they came,
a turn waits at most once and fills no more than its capacity, a directory lists every entry
once, and a terminal completion comes only once the host or the kernel touches the memory of its
operation no more.
