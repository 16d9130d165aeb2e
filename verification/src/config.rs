//! Settings that the library's logic reads.
use vstd::prelude::*;

verus! {

/// Where encrypted notes are synced: a Git remote and branch.
#[derive(Debug, Clone)]
pub struct SyncConfig {
    pub remote_url: String,
    pub branch: String,
}

} // verus!
