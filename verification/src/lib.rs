//! A library for exchanging the contents of two paths.
//!
//! The engine swaps what two path names refer to, preferring a
//! platform-native atomic primitive and, where the platform has none,
//! falling back to a rollback-protected sequence of three renames. The
//! engine itself is written and verified against a model filesystem
//! ([`fs_model::FsModel`]); an unverified shell maps its decisions onto the
//! real filesystem of the running platform.

use vstd::prelude::*;

mod error;
pub mod fs_model;
pub mod laws;
pub mod non_atomic;
pub mod paths;
pub mod platform;

pub use error::Error;
pub use error::OsError;

use fs_model::FsModel;
use platform::NativeCapability;

verus! {

/// Exchange the contents of the two paths, atomically or not at all.
///
/// The native capability is attempted and its answer returned unchanged: a
/// platform without the capability yields [`Error::NotImplemented`], and no
/// fallback is tried.
pub fn xch(fs: &mut FsModel, cap: &NativeCapability, path1: &Vec<u8>, path2: &Vec<u8>) -> (r:
    Result<(), Error>)
    ensures
        final(fs).denied() == old(fs).denied(),
        platform::native_xch_post(
            old(fs).contents(),
            *cap,
            path1@,
            path2@,
            r,
            final(fs).contents(),
        ),
{
    platform::xch(fs, cap, path1, path2)
}

/// Exchange the contents of the two paths, falling back if necessary.
///
/// The native capability is attempted first. Its answer — success or a
/// concrete native error — is returned unchanged: a real error is never
/// masked by a silent fallback. Only when the capability is absent does the
/// non-atomic three-rename transaction run instead, and only that branch
/// forgoes atomicity.
pub fn xch_non_atomic(fs: &mut FsModel, cap: &NativeCapability, path1: &Vec<u8>, path2: &Vec<
    u8,
>) -> (r: Result<(), Error>)
    ensures
        final(fs).denied() == old(fs).denied(),
        cap is Absent ==> non_atomic::fallback_xch_post(
            old(fs).contents(),
            old(fs).denied(),
            path1@,
            path2@,
            r,
            final(fs).contents(),
        ),
        !(cap is Absent) ==> platform::native_xch_post(
            old(fs).contents(),
            *cap,
            path1@,
            path2@,
            r,
            final(fs).contents(),
        ),
{
    let res = platform::xch(fs, cap, path1, path2);
    if let Err(Error::NotImplemented) = res {
        non_atomic::xch(fs, path1, path2)
    } else {
        res
    }
}

} // verus!
