//! Completion over readiness: the engine that the Unix pollers and the polling component
//! backend share.
pub mod content;
pub mod engine;
pub mod io;
pub mod laws;
pub mod trace;
