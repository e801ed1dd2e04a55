//! The failures that the pseudo file systems report to their callers.

use vstd::prelude::*;

verus! {

/// Why an operation was refused.
#[derive(Clone, Copy, Debug, PartialEq, Eq, Structural)]
pub enum Error {
    AlreadyExists,
    BadAddress,
    BadFileDescriptor,
    BadState,
    CrossesDevices,
    DirectoryNotEmpty,
    FilesystemLoop,
    InvalidInput,
    Io,
    IsADirectory,
    NameTooLong,
    NoMemory,
    NoSuchDevice,
    NotADirectory,
    NotATty,
    NotFound,
    OperationNotPermitted,
    OperationNotSupported,
    PermissionDenied,
    ResourceBusy,
    StorageFull,
    Unsupported,
    WouldBlock,
    /// An error number that has no name of its own above.
    Errno(i32),
}

} // verus!
