//! The error taxonomy of the exchange engine.
//!
//! Every failure is returned to the caller; nothing is retried or swallowed.
//! A failed recovery is reported as a `ChainError` carrying both the
//! triggering failure and the recovery failure, so that neither is lost.

use vstd::prelude::*;

use crate::platform::PlatformError;

verus! {

/// A failure of the plain rename primitive, carrying the OS error code.
#[derive(Clone, Copy, Debug, PartialEq, Eq, Structural)]
pub struct OsError {
    pub code: i64,
}

/// What an exchange can fail with.
#[derive(Debug)]
pub enum Error {
    /// A filesystem operation failed; carries the underlying OS code.
    Fs(OsError),
    /// The native atomic primitive exists but reported a concrete error.
    PlatformError(PlatformError),
    /// The request itself is unusable, e.g. neither path has a parent
    /// directory that could host a temporary entry.
    LogicError(String),
    /// A primary failure plus a failure of the recovery from it.
    /// Both remain inspectable.
    ChainError(Box<Error>, Box<Error>),
    /// No native atomic primitive exists on this platform or build.
    NotImplemented,
}

impl Error {
    /// A short, fixed description of the error kind.
    pub fn description(&self) -> (r: &str)
        ensures
            match self {
                Error::LogicError(s) => r@ == s@,
                Error::NotImplemented => r@ == "Not supported on this platform"@,
                _ => r@ == "Could not exchange paths"@,
            },
    {
        match self {
            Error::Fs(_) | Error::PlatformError(_) | Error::ChainError(_, _) => {
                "Could not exchange paths"
            },
            Error::LogicError(s) => s.as_str(),
            Error::NotImplemented => "Not supported on this platform",
        }
    }
}

impl From<OsError> for Error {
    fn from(e: OsError) -> (r: Self) {
        Error::Fs(e)
    }
}

impl vstd::std_specs::convert::FromSpecImpl<OsError> for Error {
    open spec fn obeys_from_spec() -> bool {
        true
    }

    open spec fn from_spec(e: OsError) -> Self {
        Error::Fs(e)
    }
}

impl From<PlatformError> for Error {
    fn from(e: PlatformError) -> (r: Self) {
        Error::PlatformError(e)
    }
}

impl vstd::std_specs::convert::FromSpecImpl<PlatformError> for Error {
    open spec fn obeys_from_spec() -> bool {
        true
    }

    open spec fn from_spec(e: PlatformError) -> Self {
        Error::PlatformError(e)
    }
}

impl From<String> for Error {
    fn from(s: String) -> (r: Self) {
        Error::LogicError(s)
    }
}

impl vstd::std_specs::convert::FromSpecImpl<String> for Error {
    open spec fn obeys_from_spec() -> bool {
        true
    }

    open spec fn from_spec(s: String) -> Self {
        Error::LogicError(s)
    }
}

} // verus!
