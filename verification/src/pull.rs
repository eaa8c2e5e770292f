//! Pulling a remote folder from the drive.

use crate::config::{DeletePolicy, SyncConfig, SyncConfigView};
use crate::error::{outcome, Fault, SyncError};
use crate::exchange::{Progress, Reply, ReplyView, Request, RequestView};
use crate::excludes::{build_excludes, excludes_fault, managed, managed_contains, managed_paths};
use crate::fetch::{fetch_files, fetch_prepared, Fetch, FetchItem, FetchItemView, FetchView};
use crate::fetch::{Fetched, FetchedView};
use crate::inventory::{inventory_remote, inventory_started, Inventory, InventoryView, RemoteTree};
use crate::inventory::RemoteTreeView;
use crate::path_map::PathMap;
use crate::plan::{lookup, LocalFile};
use crate::readiness::{readiness_started, require_ready, Readiness};
use crate::removal::{removal_prepared, trash_local_files, Removal, RemovalView};
use crate::scan::{scan_local_files, scan_started, Scan, ScanView, Scanned, ScannedView};
use crate::state::{stale_paths, unseen};
use crate::summary::{scan_summary, SummaryView, SyncSummary};
use crate::text::{clone_text, in_order, views, views_push};
use vstd::prelude::*;

verus! {

/// The remote paths that a pull looks at, in order.
pub open spec fn pulled_paths(patterns: Seq<Seq<char>>, tree: RemoteTreeView) -> Seq<Seq<char>> {
    managed(patterns, in_order(tree.files.dom()), Set::empty())
}

/// Remote files to fetch, with the local files at their places.
pub open spec fn fetch_items(
    paths: Seq<Seq<char>>,
    tree: RemoteTreeView,
    files: Map<Seq<char>, LocalFile<Seq<char>>>,
) -> Seq<FetchItemView> {
    paths.map_values(
        |path: Seq<char>|
            FetchItemView { path, file: tree.files[path], local: lookup(files, path) },
    )
}

/// The local files that the remote side does not have.
pub open spec fn local_only(
    files: Map<Seq<char>, LocalFile<Seq<char>>>,
    remote_paths: Seq<Seq<char>>,
) -> Seq<Seq<char>> {
    unseen(in_order(files.dom()), remote_paths.to_set())
}

/// What a pull waits for.
enum PullStage {
    Checking(Readiness<String>),
    Scanning(Scan),
    Listing { scanned: Scanned, inventory: Inventory },
    Fetching { summary: SyncSummary, gone: Vec<String>, fetch: Fetch },
    Removing { summary: SyncSummary, removal: Removal },
    Forgetting { summary: SyncSummary },
}

/// The view of what a pull waits for.
#[verifier::ext_equal]
pub enum PullStageView {
    /// The local root and its marker.
    Checking(Readiness<Seq<char>>),
    /// The local files.
    Scanning(ScanView),
    /// The remote tree.
    Listing { scanned: ScannedView, inventory: InventoryView },
    /// The remote files; then what is only there locally is up.
    Fetching { summary: SummaryView, gone: Seq<Seq<char>>, fetch: FetchView },
    /// Local files being trashed.
    Removing { summary: SummaryView, removal: RemovalView },
    /// Local files being forgotten.
    Forgetting { summary: SummaryView },
}

impl View for PullStage {
    type V = PullStageView;

    closed spec fn view(&self) -> PullStageView {
        match *self {
            PullStage::Checking(check) => PullStageView::Checking(check@),
            PullStage::Scanning(scan) => PullStageView::Scanning(scan@),
            PullStage::Listing { scanned, inventory } => PullStageView::Listing {
                scanned: scanned@,
                inventory: inventory@,
            },
            PullStage::Fetching { summary, gone, fetch } => PullStageView::Fetching {
                summary: summary@,
                gone: views(gone@),
                fetch: fetch@,
            },
            PullStage::Removing { summary, removal } => PullStageView::Removing {
                summary: summary@,
                removal: removal@,
            },
            PullStage::Forgetting { summary } => PullStageView::Forgetting { summary: summary@ },
        }
    }
}

/// A pull in progress. The drive is authoritative: new and changed remote files are downloaded, and
/// then, where deletions are carried over, local files that are gone remotely are trashed.
pub struct Pull {
    sync: SyncConfig,
    stage: PullStage,
}

/// The view of a pull in progress.
#[verifier::ext_equal]
pub struct PullView {
    pub sync: SyncConfigView,
    pub stage: PullStageView,
}

impl View for Pull {
    type V = PullView;

    closed spec fn view(&self) -> PullView {
        PullView { sync: self.sync@, stage: self.stage@ }
    }
}

/// What a step of a pull leads to.
pub type PullOutcome = Result<Progress<PullView, RequestView, SummaryView>, Fault<Seq<char>>>;

impl PullView {
    /// Waits, in a stage, for the reply to a request.
    pub open spec fn asks(
        sync: SyncConfigView,
        stage: PullStageView,
        request: RequestView,
    ) -> PullOutcome {
        Ok(Progress::Ask(PullView { sync, stage }, request))
    }

    /// The local root is there: goes on to its files.
    pub open spec fn checked(sync: SyncConfigView) -> PullOutcome {
        match excludes_fault(sync.name, sync.exclude) {
            Some(fault) => Err(fault),
            None => match scan_started(sync.local, sync.ready_marker, sync.exclude) {
                Progress::Ask(scan, request) => PullView::asks(
                    sync,
                    PullStageView::Scanning(scan),
                    request,
                ),
                Progress::Done(_) => Err(Fault::UnexpectedReply),
            },
        }
    }

    /// The local files are known: goes on to the remote tree.
    pub open spec fn scanned(sync: SyncConfigView, scanned: ScannedView) -> PullOutcome {
        match inventory_started(sync.name, sync.remote) {
            Progress::Ask(inventory, request) => PullView::asks(
                sync,
                PullStageView::Listing { scanned, inventory },
                request,
            ),
            Progress::Done(_) => Err(Fault::UnexpectedReply),
        }
    }

    /// Both sides are known: goes on to the remote files.
    pub open spec fn listed(
        sync: SyncConfigView,
        scanned: ScannedView,
        tree: RemoteTreeView,
    ) -> PullOutcome {
        let paths = pulled_paths(scanned.patterns, tree);
        let summary = scan_summary(in_order(scanned.files.dom()).len(), scanned.symlinks.len());
        let gone = local_only(scanned.files, paths);
        match fetch_prepared(sync, fetch_items(paths, tree, scanned.files)).advanced() {
            Err(fault) => Err(fault),
            Ok(Progress::Ask(fetch, request)) => PullView::asks(
                sync,
                PullStageView::Fetching { summary, gone, fetch },
                request,
            ),
            Ok(Progress::Done(fetched)) => PullView::fetched(sync, summary, gone, fetched),
        }
    }

    /// The remote files are here: goes on to what is only there locally.
    pub open spec fn fetched(
        sync: SyncConfigView,
        summary: SummaryView,
        gone: Seq<Seq<char>>,
        fetched: FetchedView,
    ) -> PullOutcome {
        let summary = SummaryView {
            unchanged: fetched.unchanged.len(),
            downloaded: fetched.downloaded.len(),
            ..summary
        };
        if sync.delete == DeletePolicy::Trash {
            match removal_prepared(sync, gone).begun() {
                Progress::Ask(removal, request) => PullView::asks(
                    sync,
                    PullStageView::Removing { summary, removal },
                    request,
                ),
                Progress::Done(count) => PullView::removed(summary, count),
            }
        } else if gone.len() == 0 {
            Ok(Progress::Done(summary))
        } else {
            PullView::asks(
                sync,
                PullStageView::Forgetting { summary },
                RequestView::DeleteStates { mirror: sync.name, paths: gone },
            )
        }
    }

    /// What was only there locally is trashed.
    pub open spec fn removed(summary: SummaryView, count: nat) -> PullOutcome {
        Ok(Progress::Done(SummaryView { trashed_local: count, ..summary }))
    }

    /// One step.
    pub open spec fn stepped(self, reply: ReplyView) -> PullOutcome {
        let sync = self.sync;
        match self.stage {
            PullStageView::Checking(check) => match check.stepped(reply) {
                Err(fault) => Err(fault),
                Ok(Progress::Ask(check, request)) => PullView::asks(
                    sync,
                    PullStageView::Checking(check),
                    request,
                ),
                Ok(Progress::Done(_)) => PullView::checked(sync),
            },
            PullStageView::Scanning(scan) => match scan.stepped(reply) {
                Err(fault) => Err(fault),
                Ok(Progress::Ask(scan, request)) => PullView::asks(
                    sync,
                    PullStageView::Scanning(scan),
                    request,
                ),
                Ok(Progress::Done(scanned)) => PullView::scanned(sync, scanned),
            },
            PullStageView::Listing { scanned, inventory } => match inventory.stepped(reply) {
                Err(fault) => Err(fault),
                Ok(Progress::Ask(inventory, request)) => PullView::asks(
                    sync,
                    PullStageView::Listing { scanned, inventory },
                    request,
                ),
                Ok(Progress::Done(tree)) => PullView::listed(sync, scanned, tree),
            },
            PullStageView::Fetching { summary, gone, fetch } => match fetch.stepped(reply) {
                Err(fault) => Err(fault),
                Ok(Progress::Ask(fetch, request)) => PullView::asks(
                    sync,
                    PullStageView::Fetching { summary, gone, fetch },
                    request,
                ),
                Ok(Progress::Done(fetched)) => PullView::fetched(sync, summary, gone, fetched),
            },
            PullStageView::Removing { summary, removal } => match removal.stepped(reply) {
                Err(fault) => Err(fault),
                Ok(Progress::Ask(removal, request)) => PullView::asks(
                    sync,
                    PullStageView::Removing { summary, removal },
                    request,
                ),
                Ok(Progress::Done(count)) => PullView::removed(summary, count),
            },
            PullStageView::Forgetting { summary } => match reply {
                ReplyView::Done => Ok(Progress::Done(summary)),
                _ => Err(Fault::UnexpectedReply),
            },
        }
    }
}

/// A pull before anything was looked at.
pub open spec fn pull_started(sync: SyncConfigView) -> Progress<
    PullView,
    RequestView,
    SummaryView,
> {
    Progress::Ask(
        PullView { sync, stage: PullStageView::Checking(readiness_started(sync)) },
        RequestView::IsDirectory { path: sync.local },
    )
}

/// Starts to pull an entry.
pub fn sync_pull(sync: &SyncConfig) -> (r: (Pull, Request))
    ensures
        Progress::<PullView, RequestView, SummaryView>::Ask(r.0@, r.1@) == pull_started(sync@),
{
    let (check, request) = require_ready(sync);
    (Pull { sync: sync.clone(), stage: PullStage::Checking(check) }, request)
}

fn items_to_fetch(
    paths: &Vec<String>,
    tree: &RemoteTree,
    files: &PathMap<LocalFile<String>>,
) -> (r: Vec<FetchItem>)
    requires
        forall|i: int|
            0 <= i < paths.len() ==> tree@.files.contains_key((#[trigger] paths@[i])@),
    ensures
        views(r@) == fetch_items(views(paths@), tree@, files@),
{
    let ghost goal = fetch_items(views(paths@), tree@, files@);
    let mut items: Vec<FetchItem> = Vec::new();
    let mut i: usize = 0;
    assert(views(items@) =~= goal.take(0));
    while i < paths.len()
        invariant
            i <= paths.len(),
            goal == fetch_items(views(paths@), tree@, files@),
            forall|i: int|
                0 <= i < paths.len() ==> tree@.files.contains_key((#[trigger] paths@[i])@),
            views(items@) == goal.take(i as int),
        decreases paths.len() - i,
    {
        let path = &paths[i];
        if let Some(file) = tree.files.get(path.as_str()) {
            let local = match files.get(path.as_str()) {
                Some(local) => Some(local.clone()),
                None => None,
            };
            let item = FetchItem { path: path.clone(), file: file.clone(), local };
            proof {
                views_push(items@, item);
                assert(goal.take(i + 1) =~= goal.take(i as int).push(item@));
            }
            items.push(item);
        }
        i += 1;
    }
    assert(goal.take(i as int) =~= goal);
    items
}

fn set_of(paths: &Vec<String>) -> (r: PathMap<()>)
    ensures
        r@.dom() == views(paths@).to_set(),
{
    let mut set: PathMap<()> = PathMap::new();
    let ghost all = views(paths@);
    let mut i: usize = 0;
    assert(set@.dom() =~= all.take(0).to_set());
    while i < paths.len()
        invariant
            i <= paths.len(),
            all == views(paths@),
            set@.dom() == all.take(i as int).to_set(),
        decreases paths.len() - i,
    {
        let ghost done = all.take(i as int);
        let ghost next = all.take(i + 1);
        let ghost path = paths@[i as int]@;
        set.insert(paths[i].clone(), ());
        proof {
            assert(next =~= done.push(path));
            assert forall|other: Seq<char>| next.contains(other) <==> (done.contains(other)
                || other == path) by {
                if done.contains(other) {
                    let k = choose|k: int| 0 <= k < done.len() && done[k] == other;
                    assert(next[k] == other);
                }
                assert(next[i as int] == path);
            }
            assert(set@.dom() =~= next.to_set());
        }
        i += 1;
    }
    assert(all.take(i as int) =~= all);
    set
}

type PullResult = Result<Progress<Pull, Request, SyncSummary>, SyncError>;

impl Pull {
    fn after_check(sync: SyncConfig) -> (r: PullResult)
        ensures
            outcome(r) == PullView::checked(sync@),
    {
        let excludes = match build_excludes(&sync) {
            Ok(excludes) => excludes,
            Err(error) => {
                return Err(error);
            },
        };
        let marker = clone_text(&sync.ready_marker);
        let (scan, request) = scan_local_files(sync.local.as_str(), marker, excludes);
        Ok(Progress::Ask(Pull { sync, stage: PullStage::Scanning(scan) }, request))
    }

    fn after_scan(sync: SyncConfig, scanned: Scanned) -> (r: PullResult)
        ensures
            outcome(r) == PullView::scanned(sync@, scanned@),
    {
        let (inventory, request) = inventory_remote(sync.name.as_str(), sync.remote.as_str());
        Ok(Progress::Ask(Pull { sync, stage: PullStage::Listing { scanned, inventory } }, request))
    }

    fn after_listing(sync: SyncConfig, scanned: Scanned, tree: RemoteTree) -> (r: PullResult)
        ensures
            outcome(r) == PullView::listed(sync@, scanned@, tree@),
    {
        let none: PathMap<()> = PathMap::new();
        assert(none@.dom() =~= Set::<Seq<char>>::empty());
        let all = tree.files.keys();
        let paths = managed_paths(&scanned.excludes, &all, &none);
        proof {
            assert forall|i: int| 0 <= i < paths.len() implies tree@.files.contains_key(
                (#[trigger] paths@[i])@,
            ) by {
                assert(views(paths@)[i] == paths@[i]@);
                managed_contains(
                    scanned@.patterns,
                    views(all@),
                    Set::empty(),
                    paths@[i]@,
                );
                assert(views(all@).to_set().contains(paths@[i]@));
            }
        }
        let mut summary = SyncSummary::default();
        summary.scanned = scanned.files.len();
        summary.skipped_symlinks = scanned.symlinks.len();
        let items = items_to_fetch(&paths, &tree, &scanned.files);
        let remote = set_of(&paths);
        let gone = stale_paths(scanned.files.keys(), &remote);
        match fetch_files(&sync, items) {
            Err(error) => Err(error),
            Ok(Progress::Ask(fetch, request)) => Ok(
                Progress::Ask(
                    Pull { sync, stage: PullStage::Fetching { summary, gone, fetch } },
                    request,
                ),
            ),
            Ok(Progress::Done(fetched)) => Pull::after_fetch(sync, summary, gone, fetched),
        }
    }

    fn after_fetch(
        sync: SyncConfig,
        summary: SyncSummary,
        gone: Vec<String>,
        fetched: Fetched,
    ) -> (r: PullResult)
        ensures
            outcome(r) == PullView::fetched(sync@, summary@, views(gone@), fetched@),
    {
        let mut summary = summary;
        summary.unchanged = fetched.unchanged.len();
        summary.downloaded = fetched.downloaded.len();
        if matches!(sync.delete, DeletePolicy::Trash) {
            match trash_local_files(&sync, gone) {
                Progress::Ask(removal, request) => Ok(
                    Progress::Ask(
                        Pull { sync, stage: PullStage::Removing { summary, removal } },
                        request,
                    ),
                ),
                Progress::Done(removed) => {
                    summary.trashed_local = removed.count;
                    Ok(Progress::Done(summary))
                },
            }
        } else if gone.len() == 0 {
            Ok(Progress::Done(summary))
        } else {
            let mirror = sync.name.clone();
            Ok(
                Progress::Ask(
                    Pull { sync, stage: PullStage::Forgetting { summary } },
                    Request::DeleteStates { mirror, paths: gone },
                ),
            )
        }
    }

    /// Takes the reply to the last request, and goes on.
    pub fn next(self, reply: Reply) -> (r: Result<Progress<Pull, Request, SyncSummary>, SyncError>)
        ensures
            outcome(r) == self@.stepped(reply@),
    {
        let Pull { sync, stage } = self;
        match stage {
            PullStage::Checking(check) => match check.next(reply) {
                Err(error) => Err(error),
                Ok(Progress::Ask(check, request)) => Ok(
                    Progress::Ask(Pull { sync, stage: PullStage::Checking(check) }, request),
                ),
                Ok(Progress::Done(_)) => Pull::after_check(sync),
            },
            PullStage::Scanning(scan) => match scan.next(reply) {
                Err(error) => Err(error),
                Ok(Progress::Ask(scan, request)) => Ok(
                    Progress::Ask(Pull { sync, stage: PullStage::Scanning(scan) }, request),
                ),
                Ok(Progress::Done(scanned)) => Pull::after_scan(sync, scanned),
            },
            PullStage::Listing { scanned, inventory } => match inventory.next(reply) {
                Err(error) => Err(error),
                Ok(Progress::Ask(inventory, request)) => Ok(
                    Progress::Ask(
                        Pull { sync, stage: PullStage::Listing { scanned, inventory } },
                        request,
                    ),
                ),
                Ok(Progress::Done(tree)) => Pull::after_listing(sync, scanned, tree),
            },
            PullStage::Fetching { summary, gone, fetch } => match fetch.next(reply) {
                Err(error) => Err(error),
                Ok(Progress::Ask(fetch, request)) => Ok(
                    Progress::Ask(
                        Pull { sync, stage: PullStage::Fetching { summary, gone, fetch } },
                        request,
                    ),
                ),
                Ok(Progress::Done(fetched)) => Pull::after_fetch(sync, summary, gone, fetched),
            },
            PullStage::Removing { summary, removal } => match removal.next(reply) {
                Err(error) => Err(error),
                Ok(Progress::Ask(removal, request)) => Ok(
                    Progress::Ask(
                        Pull { sync, stage: PullStage::Removing { summary, removal } },
                        request,
                    ),
                ),
                Ok(Progress::Done(removed)) => {
                    let mut summary = summary;
                    summary.trashed_local = removed.count;
                    Ok(Progress::Done(summary))
                },
            },
            PullStage::Forgetting { summary } => match reply {
                Reply::Done => Ok(Progress::Done(summary)),
                _ => Err(Fault::UnexpectedReply),
            },
        }
    }
}

} // verus!
