//! The platform-native atomic exchange capability.
//!
//! A platform either has a native primitive that swaps two directory entries
//! in one indivisible step, or it does not. The capability is selected once,
//! at configuration time, and handed to the entry points as a value, so the
//! engine itself holds no hidden process-wide state. On a Linux build the
//! unverified shell probes the kernel's exchange-rename and classifies its
//! return through [`interpret_native_return`].

use vstd::prelude::*;

use crate::error::Error;
use crate::fs_model::FsModel;

verus! {

/// The OS error code for "function not implemented", by which a kernel
/// without the native exchange primitive answers.
pub const ENOSYS: i64 = 38;

/// A concrete error reported by the native atomic primitive, carrying the
/// native OS code. Distinct from the primitive being absent altogether.
#[derive(Clone, Copy, Debug, PartialEq, Eq, Structural)]
pub struct PlatformError {
    pub code: i64,
}

/// The native atomic exchange capability of the running platform, as the
/// caller configured it.
#[derive(Clone, Copy, Debug, PartialEq, Eq, Structural)]
pub enum NativeCapability {
    /// A working native primitive exists.
    Available,
    /// A native primitive exists but reports this error on every attempt.
    Failing(PlatformError),
    /// No native primitive exists on this platform or build.
    Absent,
}

/// What attempting the native atomic exchange does: how the result `r` and
/// the contents `m1` relate to the starting contents `m0` under capability
/// `cap`. Success swaps both names in one indivisible step and is owed
/// exactly when the capability works and both names exist; a native error
/// and an absent capability change nothing and stay distinct.
pub open spec fn native_xch_post(
    m0: Map<Seq<u8>, Seq<u8>>,
    cap: NativeCapability,
    p1: Seq<u8>,
    p2: Seq<u8>,
    r: Result<(), Error>,
    m1: Map<Seq<u8>, Seq<u8>>,
) -> bool {
    match cap {
        NativeCapability::Available => {
            if m0.contains_key(p1) && m0.contains_key(p2) {
                &&& r is Ok
                &&& m1 == crate::fs_model::swap_contents(m0, p1, p2)
            } else {
                &&& r matches Err(Error::PlatformError(pe)) && pe.code == crate::fs_model::ENOENT
                &&& m1 == m0
            }
        },
        NativeCapability::Failing(pe) => {
            &&& r matches Err(Error::PlatformError(q)) && q == pe
            &&& m1 == m0
        },
        NativeCapability::Absent => {
            &&& r matches Err(Error::NotImplemented)
            &&& m1 == m0
        },
    }
}

/// Attempt the native atomic exchange of `path1` and `path2` on `fs`.
///
/// With an available primitive the two entries change in a single step:
/// no intermediate arrangement of `fs` ever exists. A native error and an
/// absent capability leave `fs` untouched; the two are kept distinct so
/// that a caller never mistakes a real failure for a missing capability.
pub fn xch(fs: &mut FsModel, cap: &NativeCapability, path1: &Vec<u8>, path2: &Vec<u8>) -> (r:
    Result<(), Error>)
    ensures
        final(fs).denied() == old(fs).denied(),
        native_xch_post(old(fs).contents(), *cap, path1@, path2@, r, final(fs).contents()),
{
    match cap {
        NativeCapability::Available => {
            match fs.exchange(path1, path2) {
                Ok(()) => Ok(()),
                Err(e) => Err(Error::PlatformError(PlatformError { code: e.code })),
            }
        },
        NativeCapability::Failing(pe) => Err(Error::PlatformError(*pe)),
        NativeCapability::Absent => Err(Error::NotImplemented),
    }
}

/// Classify the raw return of a native exchange attempt.
///
/// A zero return is success. A kernel that lacks the exchange primitive
/// answers `ENOSYS`; that is reported as the capability being absent, so
/// that a fallback is known to be legitimate. Every other code is a real
/// native failure and is carried as such, never to be masked.
pub fn interpret_native_return(ret: i64, err_code: i64) -> (r: Result<(), Error>)
    ensures
        ret == 0 <==> r is Ok,
        ret != 0 && err_code == ENOSYS ==> r matches Err(Error::NotImplemented),
        ret != 0 && err_code != ENOSYS ==> (r matches Err(Error::PlatformError(pe)) && pe.code
            == err_code),
{
    if ret == 0 {
        Ok(())
    } else if err_code == ENOSYS {
        Err(Error::NotImplemented)
    } else {
        Err(Error::PlatformError(PlatformError { code: err_code }))
    }
}

} // verus!
