//! Native status numbers that steer decisions.
use vstd::prelude::*;

verus! {

pub const ERROR_ACCESS_DENIED: i32 = 5;

pub const ERROR_NOT_ENOUGH_MEMORY: i32 = 8;

pub const ERROR_HANDLE_EOF: i32 = 38;

pub const ERROR_NETNAME_DELETED: i32 = 64;

pub const ERROR_BROKEN_PIPE: i32 = 109;

pub const ERROR_SEM_TIMEOUT: i32 = 121;

pub const ERROR_PIPE_BUSY: i32 = 231;

pub const ERROR_NO_DATA: i32 = 232;

pub const ERROR_PIPE_CONNECTED: i32 = 535;

pub const ERROR_OPERATION_ABORTED: i32 = 995;

pub const ERROR_IO_PENDING: i32 = 997;

pub const ERROR_NOT_FOUND: i32 = 1168;

pub const ERROR_CONNECTION_REFUSED: i32 = 1225;

pub const ERROR_CONNECTION_ABORTED: i32 = 1236;

pub const ERROR_NO_SYSTEM_RESOURCES: i32 = 1450;

pub const ERROR_TIMEOUT: i32 = 1460;

/// The exit code of a process that has not exited.
pub const STILL_ACTIVE: u32 = 259;

} // verus!
