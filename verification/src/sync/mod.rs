//! What a sync reports when it is over.

pub mod server_mode;

use vstd::prelude::*;

verus! {

/// The report of a sync, as the command line shows it.
#[derive(Debug, Clone, PartialEq, Eq)]
pub struct SyncStats {
    pub files_scanned: u64,
    pub files_created: u64,
    pub files_updated: u64,
    pub files_deleted: usize,
    pub files_skipped: u64,
    pub bytes_transferred: u64,
    pub files_delta_synced: usize,
    pub delta_bytes_saved: u64,
    pub files_compressed: u64,
    pub compression_bytes_saved: u64,
    pub files_verified: u64,
    pub verification_failures: u64,
    /// How long the sync took, in milliseconds.
    pub duration_ms: u64,
    pub bytes_would_add: u64,
    pub bytes_would_change: u64,
    pub bytes_would_delete: u64,
    pub dirs_created: u64,
    pub symlinks_created: u64,
    /// What went wrong, one text for each failure.
    pub errors: Vec<String>,
}

} // verus!
