//! A sync through a server: what the session's counts mean in the report.

use crate::sync::SyncStats;
use vstd::prelude::*;

verus! {

/// The report of a sync that ran through a server. Every file that arrived
/// counts as scanned and as created; the time is left at zero for the
/// caller to fill in; a count that does not fit `usize` is cut to it.
pub fn make_sync_stats(stats: crate::streaming::channel::SyncStats) -> (r: SyncStats)
    ensures
        r.files_scanned == stats.files_ok,
        r.files_created == stats.files_ok,
        r.files_updated == 0,
        r.files_deleted == stats.deleted as usize,
        r.files_skipped == 0,
        r.bytes_transferred == stats.bytes_transferred,
        r.files_delta_synced == stats.delta_files as usize,
        r.delta_bytes_saved == stats.delta_bytes_saved,
        r.files_compressed == 0,
        r.compression_bytes_saved == 0,
        r.files_verified == 0,
        r.verification_failures == 0,
        r.duration_ms == 0,
        r.bytes_would_add == 0,
        r.bytes_would_change == 0,
        r.bytes_would_delete == 0,
        r.dirs_created == stats.dirs_created,
        r.symlinks_created == stats.symlinks_created,
        r.errors@.len() == 0,
{
    SyncStats {
        files_scanned: stats.files_ok,
        files_created: stats.files_ok,
        files_updated: 0,
        files_deleted: #[verifier::truncate]
        (stats.deleted as usize),
        files_skipped: 0,
        bytes_transferred: stats.bytes_transferred,
        files_delta_synced: #[verifier::truncate]
        (stats.delta_files as usize),
        delta_bytes_saved: stats.delta_bytes_saved,
        files_compressed: 0,
        compression_bytes_saved: 0,
        files_verified: 0,
        verification_failures: 0,
        duration_ms: 0,
        bytes_would_add: 0,
        bytes_would_change: 0,
        bytes_would_delete: 0,
        dirs_created: stats.dirs_created,
        symlinks_created: stats.symlinks_created,
        errors: Vec::new(),
    }
}

} // verus!
