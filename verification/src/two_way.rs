//! Syncing a local and a remote folder in both directions.

use crate::batches::chunked;
use crate::cleanup::{cleanup_prepared, execute_remote_trash, Cleanup, CleanupView, TrashItem};
use crate::cleanup::{TrashItemView, Trashed};
use crate::commits::{commit_checkpoints, commits_begun, commits_stepped, Commits};
use crate::config::{SyncConfig, SyncConfigView};
use crate::drive::{RemoteFile, RemoteFileView};
use crate::error::{outcome, Fault, SyncError};
use crate::exchange::{Progress, Reply, ReplyView, Request, RequestView};
use crate::excludes::{build_excludes, excluded, excludes_fault, Excludes};
use crate::fetch::{fetch_files, fetch_prepared, Fetch, FetchItem, FetchItemView, FetchView};
use crate::fetch::{Fetched, FetchedView};
use crate::inventory::{inventory_remote, inventory_started, Inventory, InventoryView, RemoteTree};
use crate::inventory::RemoteTreeView;
use crate::path_map::PathMap;
use crate::plan::{plan_two_way, two_way_view, LocalFile, LocalSnapshot, TwoWayAction};
use crate::readiness::{readiness_started, require_ready, Readiness};
use crate::removal::{removal_prepared, trash_local_files, Removal, RemovalView};
use crate::scan::{local_path, local_path_of, scan_local_files, scan_started, Scan, ScanView};
use crate::scan::{Scanned, ScannedView};
use crate::state::{FileCheckpoint, FileState, CHECKPOINT_BATCH_SIZE};
use crate::summary::{scan_summary, SummaryView, SyncSummary};
use crate::text::{clone_text, in_order, option_view, views, views_push};
use crate::uploads::{execute_uploads, uploads_prepared, PendingUpload, UploadTally};
use crate::uploads::{UploadTallyView, Uploads, UploadsView};
use vstd::prelude::*;

verus! {

/// The digest remembered for a file that is as it was. A digest that was never computed is not
/// one.
pub open spec fn remembered_digest(
    states: Map<Seq<char>, FileState<Seq<char>>>,
    file: LocalFile<Seq<char>>,
) -> Option<Seq<char>> {
    if states.contains_key(file.relative) && states[file.relative].sha1.len() > 0
        && states[file.relative].size == file.size && states[file.relative].mtime_ns
        == file.mtime_ns {
        Some(states[file.relative].sha1)
    } else {
        None
    }
}

/// The files whose paths are not excluded.
pub open spec fn unexcluded(
    patterns: Seq<Seq<char>>,
    files: Map<Seq<char>, RemoteFileView>,
) -> Map<Seq<char>, RemoteFileView> {
    files.restrict(Set::new(|path: Seq<char>| !excluded(patterns, path)))
}

/// What is to be done, sorted by kind.
pub struct Work {
    pub checkpoints: Vec<FileCheckpoint<String>>,
    pub uploads: Vec<PendingUpload<String>>,
    pub downloads: Vec<FetchItem>,
    pub remote_trash: Vec<TrashItem>,
    pub local_trash: Vec<String>,
}

/// The view of what is to be done.
#[verifier::ext_equal]
pub struct WorkView {
    pub checkpoints: Seq<FileCheckpoint<Seq<char>>>,
    pub uploads: Seq<PendingUpload<Seq<char>>>,
    pub downloads: Seq<FetchItemView>,
    pub remote_trash: Seq<TrashItemView>,
    pub local_trash: Seq<Seq<char>>,
}

impl View for Work {
    type V = WorkView;

    open spec fn view(&self) -> WorkView {
        WorkView {
            checkpoints: views(self.checkpoints@),
            uploads: views(self.uploads@),
            downloads: views(self.downloads@),
            remote_trash: views(self.remote_trash@),
            local_trash: views(self.local_trash@),
        }
    }
}

/// What a list of actions comes to.
pub open spec fn work_for(
    mirror: Seq<char>,
    local: Map<Seq<char>, LocalSnapshot<Seq<char>>>,
    remote: Map<Seq<char>, RemoteFileView>,
    actions: Seq<TwoWayAction<Seq<char>>>,
) -> WorkView
    decreases actions.len(),
{
    if actions.len() == 0 {
        WorkView {
            checkpoints: Seq::empty(),
            uploads: Seq::empty(),
            downloads: Seq::empty(),
            remote_trash: Seq::empty(),
            local_trash: Seq::empty(),
        }
    } else {
        let work = work_for(mirror, local, remote, actions.drop_last());
        match actions.last() {
            TwoWayAction::Checkpoint { path, sha1 } => WorkView {
                checkpoints: work.checkpoints.push(
                    FileCheckpoint {
                        mirror,
                        path,
                        size: local[path].file.size,
                        mtime_ns: local[path].file.mtime_ns,
                        sha1,
                    },
                ),
                ..work
            },
            TwoWayAction::Upload { path, sha1 } => WorkView {
                uploads: work.uploads.push(
                    PendingUpload { file: local[path].file, checkpoint_sha1: Some(sha1) },
                ),
                ..work
            },
            TwoWayAction::Download { path } => WorkView {
                downloads: work.downloads.push(
                    FetchItemView { path, file: remote[path], local: None },
                ),
                ..work
            },
            TwoWayAction::TrashRemote { path } => WorkView {
                remote_trash: work.remote_trash.push(TrashItemView { path, file: remote[path] }),
                ..work
            },
            TwoWayAction::TrashLocal { path } => WorkView {
                local_trash: work.local_trash.push(path),
                ..work
            },
        }
    }
}

/// What a two-way sync waits for.
enum TwoWayStage {
    Checking(Readiness<String>),
    LoadingStates,
    Scanning { states: PathMap<FileState<String>>, scan: Scan },
    Hashing {
        states: PathMap<FileState<String>>,
        scanned: Scanned,
        local: PathMap<LocalSnapshot<String>>,
        at: usize,
    },
    Listing {
        states: PathMap<FileState<String>>,
        scanned: Scanned,
        local: PathMap<LocalSnapshot<String>>,
        inventory: Inventory,
    },
    Committing {
        summary: SyncSummary,
        pending: Vec<PendingUpload<String>>,
        downloads: Vec<FetchItem>,
        remote_trash: Vec<TrashItem>,
        local_trash: Vec<String>,
        commits: Commits,
    },
    Uploading {
        summary: SyncSummary,
        downloads: Vec<FetchItem>,
        remote_trash: Vec<TrashItem>,
        local_trash: Vec<String>,
        uploads: Uploads,
    },
    Fetching {
        summary: SyncSummary,
        remote_trash: Vec<TrashItem>,
        local_trash: Vec<String>,
        fetch: Fetch,
    },
    Trashing { summary: SyncSummary, local_trash: Vec<String>, cleanup: Cleanup },
    Removing { summary: SyncSummary, removal: Removal },
}

/// The view of what a two-way sync waits for.
#[verifier::ext_equal]
pub enum TwoWayStageView {
    /// The local root and its marker.
    Checking(Readiness<Seq<char>>),
    /// What both sides last agreed on.
    LoadingStates,
    /// The local files.
    Scanning { states: Map<Seq<char>, FileState<Seq<char>>>, scan: ScanView },
    /// The digest of the local file at `at`.
    Hashing {
        states: Map<Seq<char>, FileState<Seq<char>>>,
        scanned: ScannedView,
        local: Map<Seq<char>, LocalSnapshot<Seq<char>>>,
        at: nat,
    },
    /// The remote tree.
    Listing {
        states: Map<Seq<char>, FileState<Seq<char>>>,
        scanned: ScannedView,
        local: Map<Seq<char>, LocalSnapshot<Seq<char>>>,
        inventory: InventoryView,
    },
    /// Files that agree being remembered.
    Committing {
        summary: SummaryView,
        pending: Seq<PendingUpload<Seq<char>>>,
        downloads: Seq<FetchItemView>,
        remote_trash: Seq<TrashItemView>,
        local_trash: Seq<Seq<char>>,
        commits: Seq<Seq<FileCheckpoint<Seq<char>>>>,
    },
    /// The uploads.
    Uploading {
        summary: SummaryView,
        downloads: Seq<FetchItemView>,
        remote_trash: Seq<TrashItemView>,
        local_trash: Seq<Seq<char>>,
        uploads: UploadsView,
    },
    /// The downloads.
    Fetching {
        summary: SummaryView,
        remote_trash: Seq<TrashItemView>,
        local_trash: Seq<Seq<char>>,
        fetch: FetchView,
    },
    /// Remote files being trashed.
    Trashing { summary: SummaryView, local_trash: Seq<Seq<char>>, cleanup: CleanupView },
    /// Local files being trashed.
    Removing { summary: SummaryView, removal: RemovalView },
}

impl View for TwoWayStage {
    type V = TwoWayStageView;

    closed spec fn view(&self) -> TwoWayStageView {
        match *self {
            TwoWayStage::Checking(check) => TwoWayStageView::Checking(check@),
            TwoWayStage::LoadingStates => TwoWayStageView::LoadingStates,
            TwoWayStage::Scanning { states, scan } => TwoWayStageView::Scanning {
                states: states@,
                scan: scan@,
            },
            TwoWayStage::Hashing { states, scanned, local, at } => TwoWayStageView::Hashing {
                states: states@,
                scanned: scanned@,
                local: local@,
                at: at as nat,
            },
            TwoWayStage::Listing { states, scanned, local, inventory } => {
                TwoWayStageView::Listing {
                    states: states@,
                    scanned: scanned@,
                    local: local@,
                    inventory: inventory@,
                }
            },
            TwoWayStage::Committing {
                summary,
                pending,
                downloads,
                remote_trash,
                local_trash,
                commits,
            } => TwoWayStageView::Committing {
                summary: summary@,
                pending: views(pending@),
                downloads: views(downloads@),
                remote_trash: views(remote_trash@),
                local_trash: views(local_trash@),
                commits: commits@,
            },
            TwoWayStage::Uploading { summary, downloads, remote_trash, local_trash, uploads } => {
                TwoWayStageView::Uploading {
                    summary: summary@,
                    downloads: views(downloads@),
                    remote_trash: views(remote_trash@),
                    local_trash: views(local_trash@),
                    uploads: uploads@,
                }
            },
            TwoWayStage::Fetching { summary, remote_trash, local_trash, fetch } => {
                TwoWayStageView::Fetching {
                    summary: summary@,
                    remote_trash: views(remote_trash@),
                    local_trash: views(local_trash@),
                    fetch: fetch@,
                }
            },
            TwoWayStage::Trashing { summary, local_trash, cleanup } => TwoWayStageView::Trashing {
                summary: summary@,
                local_trash: views(local_trash@),
                cleanup: cleanup@,
            },
            TwoWayStage::Removing { summary, removal } => TwoWayStageView::Removing {
                summary: summary@,
                removal: removal@,
            },
        }
    }
}

/// A two-way sync in progress. Everything is planned before anything is changed.
pub struct TwoWay {
    sync: SyncConfig,
    stage: TwoWayStage,
}

/// The view of a two-way sync in progress.
#[verifier::ext_equal]
pub struct TwoWayRun {
    pub sync: SyncConfigView,
    pub stage: TwoWayStageView,
}

impl View for TwoWay {
    type V = TwoWayRun;

    closed spec fn view(&self) -> TwoWayRun {
        TwoWayRun { sync: self.sync@, stage: self.stage@ }
    }
}

/// What a step of a two-way sync leads to.
pub type TwoWayOutcome = Result<Progress<TwoWayRun, RequestView, SummaryView>, Fault<Seq<char>>>;

impl TwoWayRun {
    /// Waits, in a stage, for the reply to a request.
    pub open spec fn asks(
        sync: SyncConfigView,
        stage: TwoWayStageView,
        request: RequestView,
    ) -> TwoWayOutcome {
        Ok(Progress::Ask(TwoWayRun { sync, stage }, request))
    }

    /// The states are known: goes on to the local files.
    pub open spec fn loaded(
        sync: SyncConfigView,
        states: Map<Seq<char>, FileState<Seq<char>>>,
    ) -> TwoWayOutcome {
        match excludes_fault(sync.name, sync.exclude) {
            Some(fault) => Err(fault),
            None => match scan_started(sync.local, sync.ready_marker, sync.exclude) {
                Progress::Ask(scan, request) => TwoWayRun::asks(
                    sync,
                    TwoWayStageView::Scanning { states, scan },
                    request,
                ),
                Progress::Done(_) => Err(Fault::UnexpectedReply),
            },
        }
    }

    /// Goes on with the digests of the local files from `at` on.
    pub open spec fn hashing(
        sync: SyncConfigView,
        states: Map<Seq<char>, FileState<Seq<char>>>,
        scanned: ScannedView,
        local: Map<Seq<char>, LocalSnapshot<Seq<char>>>,
        at: nat,
    ) -> TwoWayOutcome
        decreases in_order(scanned.files.dom()).len() - at,
    {
        let paths = in_order(scanned.files.dom());
        if at >= paths.len() {
            TwoWayRun::hashed(sync, states, scanned, local)
        } else {
            let path = paths[at as int];
            let file = scanned.files[path];
            match remembered_digest(states, file) {
                Some(sha1) => TwoWayRun::hashing(
                    sync,
                    states,
                    scanned,
                    local.insert(path, LocalSnapshot { file, sha1 }),
                    at + 1,
                ),
                None => TwoWayRun::asks(
                    sync,
                    TwoWayStageView::Hashing { states, scanned, local, at },
                    RequestView::Hash { path: local_path_of(sync.local, path) },
                ),
            }
        }
    }

    /// The local side is known: goes on to the remote tree.
    pub open spec fn hashed(
        sync: SyncConfigView,
        states: Map<Seq<char>, FileState<Seq<char>>>,
        scanned: ScannedView,
        local: Map<Seq<char>, LocalSnapshot<Seq<char>>>,
    ) -> TwoWayOutcome {
        match inventory_started(sync.name, sync.remote) {
            Progress::Ask(inventory, request) => TwoWayRun::asks(
                sync,
                TwoWayStageView::Listing { states, scanned, local, inventory },
                request,
            ),
            Progress::Done(_) => Err(Fault::UnexpectedReply),
        }
    }

    /// Both sides are known: plans, and goes on to what the plan asks for.
    pub open spec fn listed(
        sync: SyncConfigView,
        states: Map<Seq<char>, FileState<Seq<char>>>,
        scanned: ScannedView,
        local: Map<Seq<char>, LocalSnapshot<Seq<char>>>,
        tree: RemoteTreeView,
    ) -> TwoWayOutcome {
        let remote = unexcluded(scanned.patterns, tree.files);
        match two_way_view(sync, local, remote, states).plan() {
            Err(fault) => Err(fault),
            Ok(actions) => TwoWayRun::planned(
                sync,
                scan_summary(in_order(local.dom()).len(), scanned.symlinks.len()),
                work_for(sync.name, local, remote, actions),
            ),
        }
    }

    /// Remembers the files that agree.
    pub open spec fn planned(
        sync: SyncConfigView,
        summary: SummaryView,
        work: WorkView,
    ) -> TwoWayOutcome {
        let summary = SummaryView { unchanged: work.checkpoints.len(), ..summary };
        let batches = chunked(work.checkpoints, CHECKPOINT_BATCH_SIZE as int);
        match commits_begun(batches) {
            Progress::Ask(commits, request) => TwoWayRun::asks(
                sync,
                TwoWayStageView::Committing {
                    summary,
                    pending: work.uploads,
                    downloads: work.downloads,
                    remote_trash: work.remote_trash,
                    local_trash: work.local_trash,
                    commits,
                },
                request,
            ),
            Progress::Done(_) => TwoWayRun::committed(
                sync,
                summary,
                work.uploads,
                work.downloads,
                work.remote_trash,
                work.local_trash,
            ),
        }
    }

    /// Uploads.
    pub open spec fn committed(
        sync: SyncConfigView,
        summary: SummaryView,
        pending: Seq<PendingUpload<Seq<char>>>,
        downloads: Seq<FetchItemView>,
        remote_trash: Seq<TrashItemView>,
        local_trash: Seq<Seq<char>>,
    ) -> TwoWayOutcome {
        match uploads_prepared(sync, pending).begun() {
            Err(fault) => Err(fault),
            Ok(Progress::Ask(uploads, request)) => TwoWayRun::asks(
                sync,
                TwoWayStageView::Uploading {
                    summary,
                    downloads,
                    remote_trash,
                    local_trash,
                    uploads,
                },
                request,
            ),
            Ok(Progress::Done(tally)) => TwoWayRun::uploaded(
                sync,
                summary,
                downloads,
                remote_trash,
                local_trash,
                tally,
            ),
        }
    }

    /// Downloads.
    pub open spec fn uploaded(
        sync: SyncConfigView,
        summary: SummaryView,
        downloads: Seq<FetchItemView>,
        remote_trash: Seq<TrashItemView>,
        local_trash: Seq<Seq<char>>,
        tally: UploadTallyView,
    ) -> TwoWayOutcome {
        let summary = SummaryView {
            uploaded: tally.uploaded,
            matched_remote: tally.matched_remote,
            ..summary
        };
        match fetch_prepared(sync, downloads).advanced() {
            Err(fault) => Err(fault),
            Ok(Progress::Ask(fetch, request)) => TwoWayRun::asks(
                sync,
                TwoWayStageView::Fetching { summary, remote_trash, local_trash, fetch },
                request,
            ),
            Ok(Progress::Done(fetched)) => TwoWayRun::fetched(
                sync,
                summary,
                remote_trash,
                local_trash,
                fetched,
            ),
        }
    }

    /// Trashes remote files.
    pub open spec fn fetched(
        sync: SyncConfigView,
        summary: SummaryView,
        remote_trash: Seq<TrashItemView>,
        local_trash: Seq<Seq<char>>,
        fetched: FetchedView,
    ) -> TwoWayOutcome {
        let summary = SummaryView { downloaded: fetched.downloaded.len(), ..summary };
        match cleanup_prepared(sync, remote_trash).begun() {
            Err(fault) => Err(fault),
            Ok(Progress::Ask(cleanup, request)) => TwoWayRun::asks(
                sync,
                TwoWayStageView::Trashing { summary, local_trash, cleanup },
                request,
            ),
            Ok(Progress::Done(paths)) => TwoWayRun::cleaned(sync, summary, local_trash, paths),
        }
    }

    /// Trashes local files.
    pub open spec fn cleaned(
        sync: SyncConfigView,
        summary: SummaryView,
        local_trash: Seq<Seq<char>>,
        trashed: Seq<Seq<char>>,
    ) -> TwoWayOutcome {
        let summary = SummaryView { trashed: trashed.len(), ..summary };
        match removal_prepared(sync, local_trash).begun() {
            Progress::Ask(removal, request) => TwoWayRun::asks(
                sync,
                TwoWayStageView::Removing { summary, removal },
                request,
            ),
            Progress::Done(count) => TwoWayRun::removed(summary, count),
        }
    }

    /// All is done.
    pub open spec fn removed(summary: SummaryView, count: nat) -> TwoWayOutcome {
        Ok(Progress::Done(SummaryView { trashed_local: count, ..summary }))
    }

    /// Whether the counts stay in range when `reply` is added to them.
    pub open spec fn accepts(self, reply: ReplyView) -> bool {
        match self.stage {
            TwoWayStageView::Uploading { uploads, .. } => uploads.accepts(reply),
            _ => true,
        }
    }

    /// One step before the plan.
    pub open spec fn stepped_before(self, reply: ReplyView) -> TwoWayOutcome {
        let sync = self.sync;
        match self.stage {
            TwoWayStageView::Checking(check) => match check.stepped(reply) {
                Err(fault) => Err(fault),
                Ok(Progress::Ask(check, request)) => TwoWayRun::asks(
                    sync,
                    TwoWayStageView::Checking(check),
                    request,
                ),
                Ok(Progress::Done(_)) => TwoWayRun::asks(
                    sync,
                    TwoWayStageView::LoadingStates,
                    RequestView::LoadStates { mirror: sync.name },
                ),
            },
            TwoWayStageView::LoadingStates => match reply {
                ReplyView::States(states) => TwoWayRun::loaded(sync, states),
                _ => Err(Fault::UnexpectedReply),
            },
            TwoWayStageView::Scanning { states, scan } => match scan.stepped(reply) {
                Err(fault) => Err(fault),
                Ok(Progress::Ask(scan, request)) => TwoWayRun::asks(
                    sync,
                    TwoWayStageView::Scanning { states, scan },
                    request,
                ),
                Ok(Progress::Done(scanned)) => TwoWayRun::hashing(
                    sync,
                    states,
                    scanned,
                    Map::empty(),
                    0,
                ),
            },
            TwoWayStageView::Hashing { states, scanned, local, at } => match reply {
                ReplyView::Digest(sha1) => {
                    let paths = in_order(scanned.files.dom());
                    if at < paths.len() {
                        let path = paths[at as int];
                        TwoWayRun::hashing(
                            sync,
                            states,
                            scanned,
                            local.insert(
                                path,
                                LocalSnapshot { file: scanned.files[path], sha1 },
                            ),
                            at + 1,
                        )
                    } else {
                        Err(Fault::UnexpectedReply)
                    }
                },
                _ => Err(Fault::UnexpectedReply),
            },
            TwoWayStageView::Listing { states, scanned, local, inventory } => {
                match inventory.stepped(reply) {
                    Err(fault) => Err(fault),
                    Ok(Progress::Ask(inventory, request)) => TwoWayRun::asks(
                        sync,
                        TwoWayStageView::Listing { states, scanned, local, inventory },
                        request,
                    ),
                    Ok(Progress::Done(tree)) => TwoWayRun::listed(
                        sync,
                        states,
                        scanned,
                        local,
                        tree,
                    ),
                }
            },
            _ => Err(Fault::UnexpectedReply),
        }
    }

    /// One step after the plan.
    pub open spec fn stepped_after(self, reply: ReplyView) -> TwoWayOutcome {
        let sync = self.sync;
        match self.stage {
            TwoWayStageView::Committing {
                summary,
                pending,
                downloads,
                remote_trash,
                local_trash,
                commits,
            } => match commits_stepped(commits, reply) {
                Err(fault) => Err(fault),
                Ok(Progress::Ask(commits, request)) => TwoWayRun::asks(
                    sync,
                    TwoWayStageView::Committing {
                        summary,
                        pending,
                        downloads,
                        remote_trash,
                        local_trash,
                        commits,
                    },
                    request,
                ),
                Ok(Progress::Done(_)) => TwoWayRun::committed(
                    sync,
                    summary,
                    pending,
                    downloads,
                    remote_trash,
                    local_trash,
                ),
            },
            TwoWayStageView::Uploading {
                summary,
                downloads,
                remote_trash,
                local_trash,
                uploads,
            } => match uploads.stepped(reply) {
                Err(fault) => Err(fault),
                Ok(Progress::Ask(uploads, request)) => TwoWayRun::asks(
                    sync,
                    TwoWayStageView::Uploading {
                        summary,
                        downloads,
                        remote_trash,
                        local_trash,
                        uploads,
                    },
                    request,
                ),
                Ok(Progress::Done(tally)) => TwoWayRun::uploaded(
                    sync,
                    summary,
                    downloads,
                    remote_trash,
                    local_trash,
                    tally,
                ),
            },
            TwoWayStageView::Fetching { summary, remote_trash, local_trash, fetch } => {
                match fetch.stepped(reply) {
                    Err(fault) => Err(fault),
                    Ok(Progress::Ask(fetch, request)) => TwoWayRun::asks(
                        sync,
                        TwoWayStageView::Fetching { summary, remote_trash, local_trash, fetch },
                        request,
                    ),
                    Ok(Progress::Done(fetched)) => TwoWayRun::fetched(
                        sync,
                        summary,
                        remote_trash,
                        local_trash,
                        fetched,
                    ),
                }
            },
            TwoWayStageView::Trashing { summary, local_trash, cleanup } => {
                match cleanup.stepped(reply) {
                    Err(fault) => Err(fault),
                    Ok(Progress::Ask(cleanup, request)) => TwoWayRun::asks(
                        sync,
                        TwoWayStageView::Trashing { summary, local_trash, cleanup },
                        request,
                    ),
                    Ok(Progress::Done(paths)) => TwoWayRun::cleaned(
                        sync,
                        summary,
                        local_trash,
                        paths,
                    ),
                }
            },
            TwoWayStageView::Removing { summary, removal } => match removal.stepped(reply) {
                Err(fault) => Err(fault),
                Ok(Progress::Ask(removal, request)) => TwoWayRun::asks(
                    sync,
                    TwoWayStageView::Removing { summary, removal },
                    request,
                ),
                Ok(Progress::Done(count)) => TwoWayRun::removed(summary, count),
            },
            _ => Err(Fault::UnexpectedReply),
        }
    }

    /// Whether the plan is still to be made.
    pub open spec fn before_plan(self) -> bool {
        self.stage is Checking || self.stage is LoadingStates || self.stage is Scanning
            || self.stage is Hashing || self.stage is Listing
    }

    /// One step.
    pub open spec fn stepped(self, reply: ReplyView) -> TwoWayOutcome {
        if self.before_plan() {
            self.stepped_before(reply)
        } else {
            self.stepped_after(reply)
        }
    }
}

/// A two-way sync before anything was looked at.
pub open spec fn two_way_started(sync: SyncConfigView) -> Progress<
    TwoWayRun,
    RequestView,
    SummaryView,
> {
    Progress::Ask(
        TwoWayRun { sync, stage: TwoWayStageView::Checking(readiness_started(sync)) },
        RequestView::IsDirectory { path: sync.local },
    )
}

/// Starts to sync an entry in both directions.
pub fn sync_two_way(sync: &SyncConfig) -> (r: (TwoWay, Request))
    ensures
        Progress::<TwoWayRun, RequestView, SummaryView>::Ask(r.0@, r.1@) == two_way_started(sync@),
{
    let (check, request) = require_ready(sync);
    (TwoWay { sync: sync.clone(), stage: TwoWayStage::Checking(check) }, request)
}

fn without_excluded(excludes: &Excludes, files: &PathMap<RemoteFile>) -> (r: PathMap<RemoteFile>)
    ensures
        r@ == unexcluded(excludes@, files@),
{
    let total = files.len();
    let ghost keys = in_order(files@.dom());
    let ghost goal = unexcluded(excludes@, files@);
    let mut out: PathMap<RemoteFile> = PathMap::new();
    let mut i: usize = 0;
    assert(out@ =~= goal.restrict(keys.take(0).to_set()));
    while i < total
        invariant
            i <= total,
            total == keys.len(),
            keys == in_order(files@.dom()),
            goal == unexcluded(excludes@, files@),
            out@ == goal.restrict(keys.take(i as int).to_set()),
        decreases total - i,
    {
        let (path, file) = files.entry(i);
        let ghost done = keys.take(i as int);
        let ghost next = keys.take(i + 1);
        proof {
            assert(next =~= done.push(path@));
            assert forall|other: Seq<char>| next.to_set().contains(other) <==> (
            done.to_set().contains(other) || other == path@) by {
                if done.contains(other) {
                    let m = choose|m: int| 0 <= m < done.len() && done[m] == other;
                    assert(next[m] == other);
                }
                assert(next[i as int] == path@);
            }
        }
        if !excludes.is_match(path.as_str()) {
            out.insert(path.clone(), file.clone());
        }
        assert(out@ =~= goal.restrict(next.to_set()));
        i += 1;
    }
    assert(keys.take(i as int) =~= keys);
    assert(out@ =~= goal);
    out
}

fn work_of(
    mirror: &str,
    local: &PathMap<LocalSnapshot<String>>,
    remote: &PathMap<RemoteFile>,
    actions: Vec<TwoWayAction<String>>,
) -> (r: Work)
    requires
        forall|i: int|
            #![trigger actions@[i]]
            0 <= i < actions.len() ==> match actions@[i]@ {
                TwoWayAction::Checkpoint { path, .. } => local@.contains_key(path),
                TwoWayAction::Upload { path, .. } => local@.contains_key(path),
                TwoWayAction::Download { path } => remote@.contains_key(path),
                TwoWayAction::TrashRemote { path } => remote@.contains_key(path),
                TwoWayAction::TrashLocal { path } => local@.contains_key(path),
            },
    ensures
        r@ == work_for(mirror@, local@, remote@, views(actions@)),
{
    let ghost all = views(actions@);
    let mut work = Work {
        checkpoints: Vec::new(),
        uploads: Vec::new(),
        downloads: Vec::new(),
        remote_trash: Vec::new(),
        local_trash: Vec::new(),
    };
    assert(work@ =~= work_for(mirror@, local@, remote@, all.take(0)));
    for action in it: actions
        invariant
            it.seq() == actions@,
            all == views(actions@),
            forall|i: int|
                #![trigger actions@[i]]
                0 <= i < actions.len() ==> match actions@[i]@ {
                    TwoWayAction::Checkpoint { path, .. } => local@.contains_key(path),
                    TwoWayAction::Upload { path, .. } => local@.contains_key(path),
                    TwoWayAction::Download { path } => remote@.contains_key(path),
                    TwoWayAction::TrashRemote { path } => remote@.contains_key(path),
                    TwoWayAction::TrashLocal { path } => local@.contains_key(path),
                },
            work@ == work_for(mirror@, local@, remote@, all.take(it.index())),
    {
        let ghost next = all.take(it.index() + 1);
        assert(next.drop_last() =~= all.take(it.index()));
        assert(actions@[it.index()] == action);
        assert(all[it.index()] == action@);
        match action {
            TwoWayAction::Checkpoint { path, sha1 } => {
                if let Some(snapshot) = local.get(path.as_str()) {
                    let checkpoint = FileCheckpoint {
                        mirror: mirror.to_owned(),
                        path,
                        size: snapshot.file.size,
                        mtime_ns: snapshot.file.mtime_ns,
                        sha1,
                    };
                    proof {
                        views_push(work.checkpoints@, checkpoint);
                    }
                    work.checkpoints.push(checkpoint);
                }
            },
            TwoWayAction::Upload { path, sha1 } => {
                if let Some(snapshot) = local.get(path.as_str()) {
                    let upload = PendingUpload {
                        file: snapshot.file.clone(),
                        checkpoint_sha1: Some(sha1),
                    };
                    proof {
                        views_push(work.uploads@, upload);
                    }
                    work.uploads.push(upload);
                }
            },
            TwoWayAction::Download { path } => {
                if let Some(file) = remote.get(path.as_str()) {
                    let item = FetchItem { path, file: file.clone(), local: None };
                    proof {
                        views_push(work.downloads@, item);
                    }
                    work.downloads.push(item);
                }
            },
            TwoWayAction::TrashRemote { path } => {
                if let Some(file) = remote.get(path.as_str()) {
                    let item = TrashItem { path, file: file.clone() };
                    proof {
                        views_push(work.remote_trash@, item);
                    }
                    work.remote_trash.push(item);
                }
            },
            TwoWayAction::TrashLocal { path } => {
                proof {
                    views_push(work.local_trash@, path);
                }
                work.local_trash.push(path);
            },
        }
        assert(work@ =~= work_for(mirror@, local@, remote@, next));
    }
    assert(all.take(all.len() as int) =~= all);
    work
}

type TwoWayResult = Result<Progress<TwoWay, Request, SyncSummary>, SyncError>;

impl TwoWay {
    fn after_loading(sync: SyncConfig, states: PathMap<FileState<String>>) -> (r: TwoWayResult)
        ensures
            outcome(r) == TwoWayRun::loaded(sync@, states@),
    {
        let excludes = match build_excludes(&sync) {
            Ok(excludes) => excludes,
            Err(error) => {
                return Err(error);
            },
        };
        let marker = clone_text(&sync.ready_marker);
        let (scan, request) = scan_local_files(sync.local.as_str(), marker, excludes);
        Ok(Progress::Ask(TwoWay { sync, stage: TwoWayStage::Scanning { states, scan } }, request))
    }

    fn hash(
        sync: SyncConfig,
        states: PathMap<FileState<String>>,
        scanned: Scanned,
        local: PathMap<LocalSnapshot<String>>,
        at: usize,
    ) -> (r: TwoWayResult)
        ensures
            outcome(r) == TwoWayRun::hashing(sync@, states@, scanned@, local@, at as nat),
    {
        let total = scanned.files.len();
        let mut hashed = local;
        let mut next = at;
        let ghost goal = TwoWayRun::hashing(sync@, states@, scanned@, local@, at as nat);
        while next < total
            invariant
                total == in_order(scanned@.files.dom()).len(),
                goal == TwoWayRun::hashing(sync@, states@, scanned@, local@, at as nat),
                TwoWayRun::hashing(sync@, states@, scanned@, hashed@, next as nat) == goal,
            decreases total - next,
        {
            let (path, file) = scanned.files.entry(next);
            let remembered = match states.get(file.relative.as_str()) {
                Some(state) if !state.sha1.as_str().is_empty() && state.size == file.size
                    && state.mtime_ns == file.mtime_ns => Some(state.sha1.clone()),
                _ => None,
            };
            assert(option_view(remembered) == remembered_digest(states@, file@));
            match remembered {
                Some(sha1) => {
                    hashed.insert(path.clone(), LocalSnapshot { file: file.clone(), sha1 });
                    next += 1;
                },
                None => {
                    let path = local_path(sync.local.as_str(), path.as_str());
                    let stage = TwoWayStage::Hashing { states, scanned, local: hashed, at: next };
                    return Ok(Progress::Ask(TwoWay { sync, stage }, Request::Hash { path }));
                },
            }
        }
        let (inventory, request) = inventory_remote(sync.name.as_str(), sync.remote.as_str());
        let stage = TwoWayStage::Listing { states, scanned, local: hashed, inventory };
        Ok(Progress::Ask(TwoWay { sync, stage }, request))
    }

    fn after_listing(
        sync: SyncConfig,
        states: PathMap<FileState<String>>,
        scanned: Scanned,
        local: PathMap<LocalSnapshot<String>>,
        tree: RemoteTree,
    ) -> (r: TwoWayResult)
        ensures
            outcome(r) == TwoWayRun::listed(sync@, states@, scanned@, local@, tree@),
    {
        let remote = without_excluded(&scanned.excludes, &tree.files);
        let actions = match plan_two_way(&sync, &local, &remote, &states) {
            Ok(actions) => actions,
            Err(error) => {
                return Err(error);
            },
        };
        let mut summary = SyncSummary::default();
        summary.scanned = local.len();
        summary.skipped_symlinks = scanned.symlinks.len();
        let (known, held) = (remote.len(), states.len());
        proof {
            let input = two_way_view(sync@, local@, remote@, states@);
            input.plan_is_exact();
            assert forall|i: int| #![trigger actions@[i]] 0 <= i < actions.len() implies match actions@[i]@ {
                TwoWayAction::Checkpoint { path, .. } => local@.contains_key(path),
                TwoWayAction::Upload { path, .. } => local@.contains_key(path),
                TwoWayAction::Download { path } => remote@.contains_key(path),
                TwoWayAction::TrashRemote { path } => remote@.contains_key(path),
                TwoWayAction::TrashLocal { path } => local@.contains_key(path),
            } by {
                let action = input.plan()->Ok_0[i];
                assert(action == actions@[i]@);
                input.decision_is_about(action.target(), action);
            }
        }
        let work = work_of(sync.name.as_str(), &local, &remote, actions);
        TwoWay::after_planning(sync, summary, work)
    }

    fn after_planning(sync: SyncConfig, summary: SyncSummary, work: Work) -> (r: TwoWayResult)
        ensures
            outcome(r) == TwoWayRun::planned(sync@, summary@, work@),
    {
        let mut summary = summary;
        summary.unchanged = work.checkpoints.len();
        match commit_checkpoints(work.checkpoints) {
            Progress::Ask(commits, request) => Ok(
                Progress::Ask(
                    TwoWay {
                        sync,
                        stage: TwoWayStage::Committing {
                            summary,
                            pending: work.uploads,
                            downloads: work.downloads,
                            remote_trash: work.remote_trash,
                            local_trash: work.local_trash,
                            commits,
                        },
                    },
                    request,
                ),
            ),
            Progress::Done(_) => TwoWay::after_commits(
                sync,
                summary,
                work.uploads,
                work.downloads,
                work.remote_trash,
                work.local_trash,
            ),
        }
    }

    fn after_commits(
        sync: SyncConfig,
        summary: SyncSummary,
        pending: Vec<PendingUpload<String>>,
        downloads: Vec<FetchItem>,
        remote_trash: Vec<TrashItem>,
        local_trash: Vec<String>,
    ) -> (r: TwoWayResult)
        ensures
            outcome(r) == TwoWayRun::committed(
                sync@,
                summary@,
                views(pending@),
                views(downloads@),
                views(remote_trash@),
                views(local_trash@),
            ),
    {
        match execute_uploads(&sync, pending) {
            Err(error) => Err(error),
            Ok(Progress::Ask(uploads, request)) => Ok(
                Progress::Ask(
                    TwoWay {
                        sync,
                        stage: TwoWayStage::Uploading {
                            summary,
                            downloads,
                            remote_trash,
                            local_trash,
                            uploads,
                        },
                    },
                    request,
                ),
            ),
            Ok(Progress::Done(tally)) => TwoWay::after_uploads(
                sync,
                summary,
                downloads,
                remote_trash,
                local_trash,
                tally,
            ),
        }
    }

    fn after_uploads(
        sync: SyncConfig,
        summary: SyncSummary,
        downloads: Vec<FetchItem>,
        remote_trash: Vec<TrashItem>,
        local_trash: Vec<String>,
        tally: UploadTally,
    ) -> (r: TwoWayResult)
        ensures
            outcome(r) == TwoWayRun::uploaded(
                sync@,
                summary@,
                views(downloads@),
                views(remote_trash@),
                views(local_trash@),
                tally@,
            ),
    {
        let mut summary = summary;
        summary.uploaded = tally.uploaded;
        summary.matched_remote = tally.matched_remote;
        match fetch_files(&sync, downloads) {
            Err(error) => Err(error),
            Ok(Progress::Ask(fetch, request)) => Ok(
                Progress::Ask(
                    TwoWay {
                        sync,
                        stage: TwoWayStage::Fetching { summary, remote_trash, local_trash, fetch },
                    },
                    request,
                ),
            ),
            Ok(Progress::Done(fetched)) => TwoWay::after_fetch(
                sync,
                summary,
                remote_trash,
                local_trash,
                fetched,
            ),
        }
    }

    fn after_fetch(
        sync: SyncConfig,
        summary: SyncSummary,
        remote_trash: Vec<TrashItem>,
        local_trash: Vec<String>,
        fetched: Fetched,
    ) -> (r: TwoWayResult)
        ensures
            outcome(r) == TwoWayRun::fetched(
                sync@,
                summary@,
                views(remote_trash@),
                views(local_trash@),
                fetched@,
            ),
    {
        let mut summary = summary;
        summary.downloaded = fetched.downloaded.len();
        match execute_remote_trash(&sync, remote_trash) {
            Err(error) => Err(error),
            Ok(Progress::Ask(cleanup, request)) => Ok(
                Progress::Ask(
                    TwoWay { sync, stage: TwoWayStage::Trashing { summary, local_trash, cleanup } },
                    request,
                ),
            ),
            Ok(Progress::Done(trashed)) => TwoWay::after_cleanup(
                sync,
                summary,
                local_trash,
                trashed,
            ),
        }
    }

    fn after_cleanup(
        sync: SyncConfig,
        summary: SyncSummary,
        local_trash: Vec<String>,
        trashed: Trashed,
    ) -> (r: TwoWayResult)
        ensures
            outcome(r) == TwoWayRun::cleaned(sync@, summary@, views(local_trash@), trashed@),
    {
        let mut summary = summary;
        summary.trashed = trashed.paths.len();
        match trash_local_files(&sync, local_trash) {
            Progress::Ask(removal, request) => Ok(
                Progress::Ask(
                    TwoWay { sync, stage: TwoWayStage::Removing { summary, removal } },
                    request,
                ),
            ),
            Progress::Done(removed) => {
                summary.trashed_local = removed.count;
                Ok(Progress::Done(summary))
            },
        }
    }

    /// Whether the counts stay in range when `reply` is added to them.
    pub fn fits(&self, reply: &Reply) -> (r: bool)
        ensures
            r == self@.accepts(reply@),
    {
        match &self.stage {
            TwoWayStage::Uploading { uploads, .. } => uploads.fits(reply),
            _ => true,
        }
    }

    fn step_before(sync: SyncConfig, stage: TwoWayStage, reply: Reply) -> (r: TwoWayResult)
        ensures
            outcome(r) == (TwoWayRun { sync: sync@, stage: stage@ }).stepped_before(reply@),
    {
        match stage {
            TwoWayStage::Checking(check) => match check.next(reply) {
                Err(error) => Err(error),
                Ok(Progress::Ask(check, request)) => Ok(
                    Progress::Ask(TwoWay { sync, stage: TwoWayStage::Checking(check) }, request),
                ),
                Ok(Progress::Done(_)) => {
                    let mirror = sync.name.clone();
                    Ok(
                        Progress::Ask(
                            TwoWay { sync, stage: TwoWayStage::LoadingStates },
                            Request::LoadStates { mirror },
                        ),
                    )
                },
            },
            TwoWayStage::LoadingStates => match reply {
                Reply::States(states) => TwoWay::after_loading(sync, states),
                _ => Err(Fault::UnexpectedReply),
            },
            TwoWayStage::Scanning { states, scan } => match scan.next(reply) {
                Err(error) => Err(error),
                Ok(Progress::Ask(scan, request)) => Ok(
                    Progress::Ask(
                        TwoWay { sync, stage: TwoWayStage::Scanning { states, scan } },
                        request,
                    ),
                ),
                Ok(Progress::Done(scanned)) => TwoWay::hash(
                    sync,
                    states,
                    scanned,
                    PathMap::new(),
                    0,
                ),
            },
            TwoWayStage::Hashing { states, scanned, local, at } => match reply {
                Reply::Digest(sha1) => {
                    let mut local = local;
                    if at < scanned.files.len() {
                        let (path, file) = scanned.files.entry(at);
                        local.insert(path.clone(), LocalSnapshot { file: file.clone(), sha1 });
                        TwoWay::hash(sync, states, scanned, local, at + 1)
                    } else {
                        Err(Fault::UnexpectedReply)
                    }
                },
                _ => Err(Fault::UnexpectedReply),
            },
            TwoWayStage::Listing { states, scanned, local, inventory } => {
                match inventory.next(reply) {
                    Err(error) => Err(error),
                    Ok(Progress::Ask(inventory, request)) => Ok(
                        Progress::Ask(
                            TwoWay {
                                sync,
                                stage: TwoWayStage::Listing { states, scanned, local, inventory },
                            },
                            request,
                        ),
                    ),
                    Ok(Progress::Done(tree)) => TwoWay::after_listing(
                        sync,
                        states,
                        scanned,
                        local,
                        tree,
                    ),
                }
            },
            _ => Err(Fault::UnexpectedReply),
        }
    }

    fn step_after(sync: SyncConfig, stage: TwoWayStage, reply: Reply) -> (r: TwoWayResult)
        requires
            (TwoWayRun { sync: sync@, stage: stage@ }).accepts(reply@),
        ensures
            outcome(r) == (TwoWayRun { sync: sync@, stage: stage@ }).stepped_after(reply@),
    {
        match stage {
            TwoWayStage::Committing {
                summary,
                pending,
                downloads,
                remote_trash,
                local_trash,
                commits,
            } => match commits.next(reply) {
                Err(error) => Err(error),
                Ok(Progress::Ask(commits, request)) => Ok(
                    Progress::Ask(
                        TwoWay {
                            sync,
                            stage: TwoWayStage::Committing {
                                summary,
                                pending,
                                downloads,
                                remote_trash,
                                local_trash,
                                commits,
                            },
                        },
                        request,
                    ),
                ),
                Ok(Progress::Done(_)) => TwoWay::after_commits(
                    sync,
                    summary,
                    pending,
                    downloads,
                    remote_trash,
                    local_trash,
                ),
            },
            TwoWayStage::Uploading { summary, downloads, remote_trash, local_trash, uploads } => {
                match uploads.next(reply) {
                    Err(error) => Err(error),
                    Ok(Progress::Ask(uploads, request)) => Ok(
                        Progress::Ask(
                            TwoWay {
                                sync,
                                stage: TwoWayStage::Uploading {
                                    summary,
                                    downloads,
                                    remote_trash,
                                    local_trash,
                                    uploads,
                                },
                            },
                            request,
                        ),
                    ),
                    Ok(Progress::Done(tally)) => TwoWay::after_uploads(
                        sync,
                        summary,
                        downloads,
                        remote_trash,
                        local_trash,
                        tally,
                    ),
                }
            },
            TwoWayStage::Fetching { summary, remote_trash, local_trash, fetch } => {
                match fetch.next(reply) {
                    Err(error) => Err(error),
                    Ok(Progress::Ask(fetch, request)) => Ok(
                        Progress::Ask(
                            TwoWay {
                                sync,
                                stage: TwoWayStage::Fetching {
                                    summary,
                                    remote_trash,
                                    local_trash,
                                    fetch,
                                },
                            },
                            request,
                        ),
                    ),
                    Ok(Progress::Done(fetched)) => TwoWay::after_fetch(
                        sync,
                        summary,
                        remote_trash,
                        local_trash,
                        fetched,
                    ),
                }
            },
            TwoWayStage::Trashing { summary, local_trash, cleanup } => {
                match cleanup.next(reply) {
                    Err(error) => Err(error),
                    Ok(Progress::Ask(cleanup, request)) => Ok(
                        Progress::Ask(
                            TwoWay {
                                sync,
                                stage: TwoWayStage::Trashing { summary, local_trash, cleanup },
                            },
                            request,
                        ),
                    ),
                    Ok(Progress::Done(trashed)) => TwoWay::after_cleanup(
                        sync,
                        summary,
                        local_trash,
                        trashed,
                    ),
                }
            },
            TwoWayStage::Removing { summary, removal } => match removal.next(reply) {
                Err(error) => Err(error),
                Ok(Progress::Ask(removal, request)) => Ok(
                    Progress::Ask(
                        TwoWay { sync, stage: TwoWayStage::Removing { summary, removal } },
                        request,
                    ),
                ),
                Ok(Progress::Done(removed)) => {
                    let mut summary = summary;
                    summary.trashed_local = removed.count;
                    Ok(Progress::Done(summary))
                },
            },
            _ => Err(Fault::UnexpectedReply),
        }
    }

    /// Takes the reply to the last request, and goes on.
    pub fn next(self, reply: Reply) -> (r: Result<
        Progress<TwoWay, Request, SyncSummary>,
        SyncError,
    >)
        requires
            self@.accepts(reply@),
        ensures
            outcome(r) == self@.stepped(reply@),
    {
        let TwoWay { sync, stage } = self;
        let before = matches!(
            &stage,
            TwoWayStage::Checking(..) | TwoWayStage::LoadingStates | TwoWayStage::Scanning { .. }
            | TwoWayStage::Hashing { .. } | TwoWayStage::Listing { .. }
        );
        if before {
            TwoWay::step_before(sync, stage, reply)
        } else {
            TwoWay::step_after(sync, stage, reply)
        }
    }
}

} // verus!
