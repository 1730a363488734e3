//! Verified decision core of an embeddable, completion-shaped event loop.
//!
//! The host performs every system call. This crate owns the tables, queues and
//! rules that decide which call comes next, what its reply means, and which
//! completions the host is owed. Each rule is stated as a contract and proved.
pub mod buffers;
pub mod bytes;
pub mod counting;
pub mod iocp;
pub mod lanes;
pub mod open;
pub mod options;
pub mod payload;
pub mod queues;
pub mod readiness;
pub mod turn;
pub mod types;
pub mod unix;
pub mod wasi;
pub mod web;
