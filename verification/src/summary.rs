//! What a sync did.

use vstd::prelude::*;

verus! {

/// What the sync of one entry did, in numbers of files.
#[derive(Clone, Copy, Debug, PartialEq, Eq, Structural)]
pub struct SyncSummary {
    pub scanned: usize,
    pub unchanged: usize,
    pub matched_remote: usize,
    pub uploaded: usize,
    pub downloaded: usize,
    pub trashed: usize,
    pub trashed_local: usize,
    pub skipped_symlinks: usize,
}

/// The view of a summary.
pub struct SummaryView {
    pub scanned: nat,
    pub unchanged: nat,
    pub matched_remote: nat,
    pub uploaded: nat,
    pub downloaded: nat,
    pub trashed: nat,
    pub trashed_local: nat,
    pub skipped_symlinks: nat,
}

impl View for SyncSummary {
    type V = SummaryView;

    open spec fn view(&self) -> SummaryView {
        SummaryView {
            scanned: self.scanned as nat,
            unchanged: self.unchanged as nat,
            matched_remote: self.matched_remote as nat,
            uploaded: self.uploaded as nat,
            downloaded: self.downloaded as nat,
            trashed: self.trashed as nat,
            trashed_local: self.trashed_local as nat,
            skipped_symlinks: self.skipped_symlinks as nat,
        }
    }
}

/// The summary of a scan: nothing was done yet.
pub open spec fn scan_summary(scanned: nat, skipped_symlinks: nat) -> SummaryView {
    SummaryView {
        scanned,
        unchanged: 0,
        matched_remote: 0,
        uploaded: 0,
        downloaded: 0,
        trashed: 0,
        trashed_local: 0,
        skipped_symlinks,
    }
}

impl Default for SyncSummary {
    fn default() -> (r: Self)
        ensures
            r@ == scan_summary(0, 0),
    {
        SyncSummary {
            scanned: 0,
            unchanged: 0,
            matched_remote: 0,
            uploaded: 0,
            downloaded: 0,
            trashed: 0,
            trashed_local: 0,
            skipped_symlinks: 0,
        }
    }
}

} // verus!
