//! Native error numbers of the component backends.
use crate::types::{Error, ErrorKind};
use vstd::prelude::*;

verus! {

pub const EACCES: i32 = 2;

pub const EAGAIN: i32 = 6;

pub const EBADF: i32 = 8;

pub const EEXIST: i32 = 20;

pub const EINVAL: i32 = 28;

pub const EIO: i32 = 29;

pub const EISDIR: i32 = 31;

pub const ENOENT: i32 = 44;

pub const ENOMEM: i32 = 48;

pub const ENOSPC: i32 = 51;

pub const ENOTDIR: i32 = 54;

pub const ENOTEMPTY: i32 = 55;

pub const ENOTSUP: i32 = 58;

pub const EPERM: i32 = 63;

/// What a number means on every system.
pub open spec fn kind_of(code: i32) -> ErrorKind {
    if code == EACCES || code == EPERM {
        ErrorKind::PermissionDenied
    } else if code == EEXIST {
        ErrorKind::AlreadyExists
    } else if code == ENOENT {
        ErrorKind::NotFound
    } else if code == ENOTDIR {
        ErrorKind::NotADirectory
    } else if code == EISDIR {
        ErrorKind::IsADirectory
    } else if code == ENOTEMPTY {
        ErrorKind::DirectoryNotEmpty
    } else if code == EINVAL {
        ErrorKind::InvalidInput
    } else if code == ENOTSUP {
        ErrorKind::Unsupported
    } else if code == EAGAIN {
        ErrorKind::WouldBlock
    } else if code == ENOMEM || code == ENOSPC {
        ErrorKind::ResourceLimit
    } else {
        ErrorKind::Other
    }
}

/// The error with this number.
pub open spec fn of_code(code: i32) -> Error {
    Error { kind: kind_of(code), os: Some(code) }
}

/// The error with this number; the number is kept.
pub fn error(code: i32) -> (e: Error)
    ensures
        e == of_code(code),
{
    let kind = if code == EACCES || code == EPERM {
        ErrorKind::PermissionDenied
    } else if code == EEXIST {
        ErrorKind::AlreadyExists
    } else if code == ENOENT {
        ErrorKind::NotFound
    } else if code == ENOTDIR {
        ErrorKind::NotADirectory
    } else if code == EISDIR {
        ErrorKind::IsADirectory
    } else if code == ENOTEMPTY {
        ErrorKind::DirectoryNotEmpty
    } else if code == EINVAL {
        ErrorKind::InvalidInput
    } else if code == ENOTSUP {
        ErrorKind::Unsupported
    } else if code == EAGAIN {
        ErrorKind::WouldBlock
    } else if code == ENOMEM || code == ENOSPC {
        ErrorKind::ResourceLimit
    } else {
        ErrorKind::Other
    };
    Error { kind, os: Some(code) }
}

/// The numbers of the file-system errors, in the order of their interface. The last one,
/// an error without a number of its own, reads as one of input or output.
pub open spec fn numbers() -> Seq<i32> {
    seq![
        2i32, 7, 8, 10, 16, 19, 20, 22, 25, 26, 27, 28, 29, 31, 32, 34, 35, 37, 43, 44, 46, 48, 51,
        54, 55, 56, 58, 59, 60, 61, 63, 64, 69, 70, 74, 75,
    ]
}

/// The number of a file-system error by its place in the 0.3 interface.
pub fn errno(place: u8) -> (code: i32)
    ensures
        code == (if place < 36 {
            numbers()[place as int]
        } else {
            EIO
        }),
{
    let table: [i32; 36] = [
        2, 7, 8, 10, 16, 19, 20, 22, 25, 26, 27, 28, 29, 31, 32, 34, 35, 37, 43, 44, 46, 48, 51, 54,
        55, 56, 58, 59, 60, 61, 63, 64, 69, 70, 74, 75,
    ];
    assert(table@ =~= numbers());
    if place < 36 {
        table[place as usize]
    } else {
        EIO
    }
}

/// The errors of the 0.2 file-system interface.
#[derive(Clone, Copy, Debug, PartialEq, Eq, Structural)]
pub enum Code {
    Access,
    WouldBlock,
    Already,
    BadDescriptor,
    Busy,
    Deadlock,
    Quota,
    Exist,
    FileTooLarge,
    IllegalByteSequence,
    InProgress,
    Interrupted,
    Invalid,
    Io,
    IsDirectory,
    Loop,
    TooManyLinks,
    MessageSize,
    NameTooLong,
    NoDevice,
    NoEntry,
    NoLock,
    InsufficientMemory,
    InsufficientSpace,
    NotDirectory,
    NotEmpty,
    NotRecoverable,
    Unsupported,
    NoTty,
    NoSuchDevice,
    Overflow,
    NotPermitted,
    Pipe,
    ReadOnly,
    InvalidSeek,
    TextFileBusy,
    CrossDevice,
}

/// The number of an error of the 0.2 interface.
pub open spec fn number_of(code: Code) -> i32 {
    match code {
        Code::Access => 2,
        Code::WouldBlock => 6,
        Code::Already => 7,
        Code::BadDescriptor => 8,
        Code::Busy => 10,
        Code::Deadlock => 16,
        Code::Quota => 19,
        Code::Exist => 20,
        Code::FileTooLarge => 22,
        Code::IllegalByteSequence => 25,
        Code::InProgress => 26,
        Code::Interrupted => 27,
        Code::Invalid => 28,
        Code::Io => 29,
        Code::IsDirectory => 31,
        Code::Loop => 32,
        Code::TooManyLinks => 34,
        Code::MessageSize => 35,
        Code::NameTooLong => 37,
        Code::NoDevice => 43,
        Code::NoEntry => 44,
        Code::NoLock => 46,
        Code::InsufficientMemory => 48,
        Code::InsufficientSpace => 51,
        Code::NotDirectory => 54,
        Code::NotEmpty => 55,
        Code::NotRecoverable => 56,
        Code::Unsupported => 58,
        Code::NoTty => 59,
        Code::NoSuchDevice => 60,
        Code::Overflow => 61,
        Code::NotPermitted => 63,
        Code::Pipe => 64,
        Code::ReadOnly => 69,
        Code::InvalidSeek => 70,
        Code::TextFileBusy => 74,
        Code::CrossDevice => 75,
    }
}

/// The number of an error of the 0.2 interface.
pub fn errno_of(code: Code) -> (n: i32)
    ensures
        n == number_of(code),
{
    match code {
        Code::Access => 2,
        Code::WouldBlock => 6,
        Code::Already => 7,
        Code::BadDescriptor => 8,
        Code::Busy => 10,
        Code::Deadlock => 16,
        Code::Quota => 19,
        Code::Exist => 20,
        Code::FileTooLarge => 22,
        Code::IllegalByteSequence => 25,
        Code::InProgress => 26,
        Code::Interrupted => 27,
        Code::Invalid => 28,
        Code::Io => 29,
        Code::IsDirectory => 31,
        Code::Loop => 32,
        Code::TooManyLinks => 34,
        Code::MessageSize => 35,
        Code::NameTooLong => 37,
        Code::NoDevice => 43,
        Code::NoEntry => 44,
        Code::NoLock => 46,
        Code::InsufficientMemory => 48,
        Code::InsufficientSpace => 51,
        Code::NotDirectory => 54,
        Code::NotEmpty => 55,
        Code::NotRecoverable => 56,
        Code::Unsupported => 58,
        Code::NoTty => 59,
        Code::NoSuchDevice => 60,
        Code::Overflow => 61,
        Code::NotPermitted => 63,
        Code::Pipe => 64,
        Code::ReadOnly => 69,
        Code::InvalidSeek => 70,
        Code::TextFileBusy => 74,
        Code::CrossDevice => 75,
    }
}

/// The place of an error in the 0.3 interface, which has no error for a call that would
/// block.
pub open spec fn place_of(code: Code) -> int {
    match code {
        Code::Access => 0,
        Code::WouldBlock => -1,
        Code::Already => 1,
        Code::BadDescriptor => 2,
        Code::Busy => 3,
        Code::Deadlock => 4,
        Code::Quota => 5,
        Code::Exist => 6,
        Code::FileTooLarge => 7,
        Code::IllegalByteSequence => 8,
        Code::InProgress => 9,
        Code::Interrupted => 10,
        Code::Invalid => 11,
        Code::Io => 12,
        Code::IsDirectory => 13,
        Code::Loop => 14,
        Code::TooManyLinks => 15,
        Code::MessageSize => 16,
        Code::NameTooLong => 17,
        Code::NoDevice => 18,
        Code::NoEntry => 19,
        Code::NoLock => 20,
        Code::InsufficientMemory => 21,
        Code::InsufficientSpace => 22,
        Code::NotDirectory => 23,
        Code::NotEmpty => 24,
        Code::NotRecoverable => 25,
        Code::Unsupported => 26,
        Code::NoTty => 27,
        Code::NoSuchDevice => 28,
        Code::Overflow => 29,
        Code::NotPermitted => 30,
        Code::Pipe => 31,
        Code::ReadOnly => 32,
        Code::InvalidSeek => 33,
        Code::TextFileBusy => 34,
        Code::CrossDevice => 35,
    }
}

/// Both interfaces give an error the same number.
pub proof fn law_interfaces_agree(code: Code)
    requires
        !(code is WouldBlock),
    ensures
        numbers()[place_of(code)] == number_of(code),
{
}

/// What each number means, by what it means; a number that means nothing else is another error. The
/// number is kept with it.
pub proof fn law_numbers_mean_what_they_mean(code: i32)
    ensures
        ({
            let kind = kind_of(code);
            &&& kind == ErrorKind::PermissionDenied <==> code == 2 || code == 63
            &&& kind == ErrorKind::WouldBlock <==> code == 6
            &&& kind == ErrorKind::AlreadyExists <==> code == 20
            &&& kind == ErrorKind::InvalidInput <==> code == 28
            &&& kind == ErrorKind::IsADirectory <==> code == 31
            &&& kind == ErrorKind::NotFound <==> code == 44
            &&& kind == ErrorKind::ResourceLimit <==> code == 48 || code == 51
            &&& kind == ErrorKind::NotADirectory <==> code == 54
            &&& kind == ErrorKind::DirectoryNotEmpty <==> code == 55
            &&& kind == ErrorKind::Unsupported <==> code == 58
            &&& code == 29 || code <= 0 || code > 75 ==> kind == ErrorKind::Other
            &&& of_code(code).os == Some(code)
            &&& of_code(code).kind == kind
        }),
{
}

/// Errors of the interface have different numbers, in the order of their names: no two are taken
/// for each other.
pub proof fn law_errors_are_told_apart(a: Code, b: Code, i: int, j: int)
    ensures
        number_of(a) == number_of(b) <==> a == b,
        place_of(a) < place_of(b) && !(a is WouldBlock) ==> number_of(a) < number_of(b),
        0 <= i < j < 36 ==> numbers()[i] < numbers()[j],
        numbers().len() == 36,
        number_of(Code::Access) == 2,
        number_of(Code::Exist) == 20,
        number_of(Code::Invalid) == 28,
        number_of(Code::Io) == 29,
        number_of(Code::NoEntry) == 44,
        number_of(Code::NotDirectory) == 54,
        number_of(Code::NotPermitted) == 63,
        number_of(Code::CrossDevice) == 75,
{
}

} // verus!
