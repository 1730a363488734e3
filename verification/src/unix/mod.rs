//! The readiness backend of Unix systems.
pub mod files;
pub mod fsevents;
pub mod inotify;
pub mod ipc;
pub mod open;
pub mod poll;
pub mod poller;
pub mod process;
pub mod ready_queue;
pub mod service_trace;
pub mod services;
pub mod signals;
pub mod spawn;
pub mod stream;
pub mod watch;
pub mod watch_trace;
