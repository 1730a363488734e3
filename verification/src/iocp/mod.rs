//! The completion-port backend of Windows.
pub mod attach;
pub mod block;
pub mod child;
pub mod codes;
pub mod command;
pub mod console;
pub mod content;
pub mod engine;
pub mod environment;
pub mod integration;
pub mod io;
pub mod laws;
pub mod open;
pub mod pipes;
pub mod process;
pub mod service_trace;
pub mod services;
pub mod signals;
pub mod socket;
pub mod spawn;
pub mod timer;
pub mod trace;
pub mod watch;
pub mod watch_trace;
pub mod watches;
pub mod worker;
