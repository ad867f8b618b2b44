use vstd::prelude::*;

verus! {

/// Errors surfaced by the one-shot operations and the device services.
///
/// `FileNotFound` and `InvalidPath` carry the offending path segment (or a
/// bare description); the unverified shell decorates them for display.
#[derive(Debug, Clone)]
pub enum Error {
    DeviceNotFound,
    FileNotFound(String),
    PermissionDenied,
    StorageFull,
    TransferFailed(String),
    Mtp(String),
    Io(String),
    InvalidPath(String),
}

/// The process exit status that each error kind maps to.
pub open spec fn spec_exit_code(e: Error) -> u8 {
    match e {
        Error::DeviceNotFound => 2,
        Error::FileNotFound(_) => 3,
        Error::PermissionDenied => 4,
        Error::StorageFull => 5,
        Error::TransferFailed(_) => 6,
        Error::Mtp(_) => 1,
        Error::Io(_) => 1,
        Error::InvalidPath(_) => 1,
    }
}

impl Error {
    /// Distinct exit status per error category, so scripted callers can
    /// branch on the failure kind.
    pub fn exit_code(&self) -> (code: u8)
        ensures
            code == spec_exit_code(*self),
    {
        match self {
            Error::DeviceNotFound => 2,
            Error::FileNotFound(_) => 3,
            Error::PermissionDenied => 4,
            Error::StorageFull => 5,
            Error::TransferFailed(_) => 6,
            Error::Mtp(_) => 1,
            Error::Io(_) => 1,
            Error::InvalidPath(_) => 1,
        }
    }
}

} // verus!
