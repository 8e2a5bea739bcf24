//! The errors of the library's operations.

use vstd::prelude::*;

verus! {

/// Why an operation of the library failed.
#[derive(Debug)]
pub enum CiError {
    /// The database file `entries.yaml` does not exist in directory `dir`.
    EntriesNotFound { dir: String },
    /// librime could not be reached (its API table is missing).
    RimeUnavailable,
    /// The loaded librime has no `sync_user_data` function.
    SyncUnsupported,
    /// librime's `sync_user_data` reported failure.
    SyncFailed,
}

} // verus!
