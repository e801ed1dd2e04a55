//! The errors that a daemon chooses.

use vstd::prelude::*;
use crate::error::Error;

verus! {

pub const EAGAIN: i32 = 11;

pub const ENOSYS: i32 = 38;

pub const EPROTO: i32 = 71;

/// Whether a number is that of an error.
pub open spec fn is_errno(number: i32) -> bool {
    1 <= number <= 133 && number != 41 && number != 58
}

/// Asks `axerrno::LinuxError::try_from` whether a number is that of an error.  The
/// numbers that it takes are those of its table: from 1 to 133, but for two that
/// no error has.
#[verifier::external_body]
fn known(number: i32) -> (known: bool)
    ensures
        known == is_errno(number),
{
    axerrno::LinuxError::try_from(number).is_ok()
}

/// The error of a number, under its own name where it has one.
pub open spec fn named(number: i32) -> Error {
    if number == 1 {
        Error::OperationNotPermitted
    } else if number == 2 {
        Error::NotFound
    } else if number == 5 {
        Error::Io
    } else if number == 9 {
        Error::BadFileDescriptor
    } else if number == 11 {
        Error::WouldBlock
    } else if number == 12 {
        Error::NoMemory
    } else if number == 13 {
        Error::PermissionDenied
    } else if number == 14 {
        Error::BadAddress
    } else if number == 16 {
        Error::ResourceBusy
    } else if number == 17 {
        Error::AlreadyExists
    } else if number == 18 {
        Error::CrossesDevices
    } else if number == 19 {
        Error::NoSuchDevice
    } else if number == 20 {
        Error::NotADirectory
    } else if number == 21 {
        Error::IsADirectory
    } else if number == 22 {
        Error::InvalidInput
    } else if number == 25 {
        Error::NotATty
    } else if number == 28 {
        Error::StorageFull
    } else if number == 36 {
        Error::NameTooLong
    } else if number == 38 {
        Error::Unsupported
    } else if number == 39 {
        Error::DirectoryNotEmpty
    } else if number == 40 {
        Error::FilesystemLoop
    } else if number == 95 {
        Error::OperationNotSupported
    } else {
        Error::Errno(number)
    }
}

/// The error that a daemon's number stands for: that of the number, or an I/O
/// error where there is none.
pub open spec fn error_of(number: i32) -> Error {
    if is_errno(number) {
        named(number)
    } else {
        Error::Io
    }
}

/// The error that a daemon's number stands for.  What the daemon chose is kept, and
/// is not reported as a general failure.
pub fn of_errno(number: i32) -> (error: Error)
    ensures
        error == error_of(number),
{
    if !known(number) {
        return Error::Io;
    }
    match number {
        1 => Error::OperationNotPermitted,
        2 => Error::NotFound,
        5 => Error::Io,
        9 => Error::BadFileDescriptor,
        11 => Error::WouldBlock,
        12 => Error::NoMemory,
        13 => Error::PermissionDenied,
        14 => Error::BadAddress,
        16 => Error::ResourceBusy,
        17 => Error::AlreadyExists,
        18 => Error::CrossesDevices,
        19 => Error::NoSuchDevice,
        20 => Error::NotADirectory,
        21 => Error::IsADirectory,
        22 => Error::InvalidInput,
        25 => Error::NotATty,
        28 => Error::StorageFull,
        36 => Error::NameTooLong,
        38 => Error::Unsupported,
        39 => Error::DirectoryNotEmpty,
        40 => Error::FilesystemLoop,
        95 => Error::OperationNotSupported,
        _ => Error::Errno(number),
    }
}

} // verus!
