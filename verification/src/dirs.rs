//! Per-user directory paths for the daemon's files.
//!
//! The daemon keeps its state under a `mutiny` directory inside the
//! user's data directory, and its socket under a `mutiny` directory
//! inside the user's runtime directory.  This module computes those
//! paths; the surrounding process resolves the base directories from
//! the platform's conventions, creates the directories, and restricts
//! them to the current user.

use vstd::prelude::*;
use vstd::string::StringExecFns;

verus! {

/// The daemon's private directory under a base directory.
fn private_app_dir(base: &str) -> (p: String)
    ensures
        p@ == base@ + "/mutiny"@,
{
    let s: String = base.to_owned();
    s.concat("/mutiny")
}

/// The daemon's directory under the user's data directory.
pub fn open_app_data_dir(user_data_dir: &str) -> (p: String)
    ensures
        p@ == user_data_dir@ + "/mutiny"@,
{
    private_app_dir(user_data_dir)
}

/// The daemon's directory under the user's runtime directory.
pub fn open_app_runtime_dir(user_runtime_dir: &str) -> (p: String)
    ensures
        p@ == user_runtime_dir@ + "/mutiny"@,
{
    private_app_dir(user_runtime_dir)
}

} // verus!
