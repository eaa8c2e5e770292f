//! Pushing a local folder to the drive.

use crate::cleanup::{cleanup_prepared, execute_remote_trash, Cleanup, CleanupView, TrashItem};
use crate::cleanup::TrashItemView;
use crate::config::{DeletePolicy, SyncConfig, SyncConfigView};
use crate::error::{outcome, Fault, SyncError};
use crate::exchange::{Progress, Reply, ReplyView, Request, RequestView};
use crate::excludes::{build_excludes, excluded, excludes_fault, managed, managed_paths};
use crate::inventory::{inventory_remote, inventory_started, Inventory, InventoryView, RemoteTree};
use crate::inventory::RemoteTreeView;
use crate::path_map::PathMap;
use crate::plan::LocalFile;
use crate::readiness::{readiness_started, require_ready, Readiness};
use crate::scan::{scan_local_files, scan_started, Scan, ScanView, Scanned, ScannedView};
use crate::state::{stale_paths, unseen, FileState};
use crate::summary::{scan_summary, SummaryView, SyncSummary};
use crate::text::{clone_text, concat2, in_order, option_view, text_eq, views, views_push};
use crate::uploads::{execute_uploads, uploads_prepared, PendingUpload, UploadTally};
use crate::uploads::{UploadTallyView, Uploads, UploadsView};
use vstd::prelude::*;

verus! {

/// A file that is as it was when it was last remembered.
pub open spec fn unchanged_since(
    states: Map<Seq<char>, FileState<Seq<char>>>,
    file: LocalFile<Seq<char>>,
) -> bool {
    states.contains_key(file.relative) && states[file.relative].size == file.size
        && states[file.relative].mtime_ns == file.mtime_ns
}

/// The files among the first `count` paths that are to be uploaded.
pub open spec fn changed_among(
    files: Map<Seq<char>, LocalFile<Seq<char>>>,
    states: Map<Seq<char>, FileState<Seq<char>>>,
    paths: Seq<Seq<char>>,
    count: nat,
) -> Seq<PendingUpload<Seq<char>>>
    decreases count,
{
    if count == 0 {
        Seq::empty()
    } else {
        let rest = changed_among(files, states, paths, (count - 1) as nat);
        let file = files[paths[count - 1]];
        if unchanged_since(states, file) {
            rest
        } else {
            rest.push(PendingUpload { file, checkpoint_sha1: None })
        }
    }
}

/// The files to upload: those that are new, and those whose size or time is not what is remembered.
pub open spec fn changed_files(
    files: Map<Seq<char>, LocalFile<Seq<char>>>,
    states: Map<Seq<char>, FileState<Seq<char>>>,
) -> Seq<PendingUpload<Seq<char>>> {
    let paths = in_order(files.dom());
    changed_among(files, states, paths, paths.len())
}

/// The key under which the database remembers that the remote tree was compared once.
pub open spec fn baseline_key(name: Seq<char>) -> Seq<char> {
    "baseline:"@ + name
}

/// The remote files to trash: those that were pushed before and are gone locally, and, while the
/// remote tree was never compared, every other file that is not there locally.
pub open spec fn doomed(
    patterns: Seq<Seq<char>>,
    seen: Set<Seq<char>>,
    baseline: bool,
    stale: Seq<Seq<char>>,
    tree: RemoteTreeView,
) -> Set<Seq<char>> {
    Set::new(
        |path: Seq<char>|
            {
                &&& tree.files.contains_key(path)
                &&& !excluded(patterns, path)
                &&& stale.contains(path) || (!baseline && !seen.contains(path))
            },
    )
}

/// Remote files by their paths, in order.
pub open spec fn items_at(tree: RemoteTreeView, paths: Set<Seq<char>>) -> Seq<TrashItemView> {
    in_order(paths).map_values(|path: Seq<char>| TrashItemView { path, file: tree.files[path] })
}

/// What a push knows once uploads begin.
pub struct PushBase {
    scanned: Scanned,
    baseline: bool,
    tree: Option<RemoteTree>,
    summary: SyncSummary,
}

/// The view of what a push knows once uploads begin.
#[verifier::ext_equal]
pub struct PushBaseView {
    pub scanned: ScannedView,
    /// Whether the remote tree was compared in an earlier run.
    pub baseline: bool,
    pub tree: Option<RemoteTreeView>,
    pub summary: SummaryView,
}

impl View for PushBase {
    type V = PushBaseView;

    closed spec fn view(&self) -> PushBaseView {
        PushBaseView {
            scanned: self.scanned@,
            baseline: self.baseline,
            tree: option_view(self.tree),
            summary: self.summary@,
        }
    }
}

/// What a push waits for.
enum PushStage {
    Checking(Readiness<String>),
    Scanning(Scan),
    LoadingStates { scanned: Scanned },
    LoadingBaseline { scanned: Scanned, states: PathMap<FileState<String>> },
    Comparing { scanned: Scanned, states: PathMap<FileState<String>>, inventory: Inventory },
    Uploading { base: PushBase, uploads: Uploads },
    ListingStale { base: PushBase },
    Locating { base: PushBase, stale: Vec<String>, inventory: Inventory },
    Forgetting { summary: SyncSummary, items: Vec<TrashItem> },
    Trashing { summary: SyncSummary, cleanup: Cleanup },
    Finishing { summary: SyncSummary },
}

/// The view of what a push waits for.
#[verifier::ext_equal]
pub enum PushStageView {
    /// The local root and its marker.
    Checking(Readiness<Seq<char>>),
    /// The local files.
    Scanning(ScanView),
    /// What is remembered of them.
    LoadingStates { scanned: ScannedView },
    /// Whether the remote tree was compared before.
    LoadingBaseline { scanned: ScannedView, states: Map<Seq<char>, FileState<Seq<char>>> },
    /// The remote tree, to compare it.
    Comparing {
        scanned: ScannedView,
        states: Map<Seq<char>, FileState<Seq<char>>>,
        inventory: InventoryView,
    },
    /// The uploads.
    Uploading { base: PushBaseView, uploads: UploadsView },
    /// The paths remembered once the uploads are done.
    ListingStale { base: PushBaseView },
    /// The remote tree, to find what is gone locally.
    Locating { base: PushBaseView, stale: Seq<Seq<char>>, inventory: InventoryView },
    /// Paths being forgotten.
    Forgetting { summary: SummaryView, items: Seq<TrashItemView> },
    /// Remote files being trashed.
    Trashing { summary: SummaryView, cleanup: CleanupView },
    /// The comparison being put on record.
    Finishing { summary: SummaryView },
}

impl View for PushStage {
    type V = PushStageView;

    closed spec fn view(&self) -> PushStageView {
        match *self {
            PushStage::Checking(check) => PushStageView::Checking(check@),
            PushStage::Scanning(scan) => PushStageView::Scanning(scan@),
            PushStage::LoadingStates { scanned } => PushStageView::LoadingStates {
                scanned: scanned@,
            },
            PushStage::LoadingBaseline { scanned, states } => PushStageView::LoadingBaseline {
                scanned: scanned@,
                states: states@,
            },
            PushStage::Comparing { scanned, states, inventory } => PushStageView::Comparing {
                scanned: scanned@,
                states: states@,
                inventory: inventory@,
            },
            PushStage::Uploading { base, uploads } => PushStageView::Uploading {
                base: base@,
                uploads: uploads@,
            },
            PushStage::ListingStale { base } => PushStageView::ListingStale { base: base@ },
            PushStage::Locating { base, stale, inventory } => PushStageView::Locating {
                base: base@,
                stale: views(stale@),
                inventory: inventory@,
            },
            PushStage::Forgetting { summary, items } => PushStageView::Forgetting {
                summary: summary@,
                items: views(items@),
            },
            PushStage::Trashing { summary, cleanup } => PushStageView::Trashing {
                summary: summary@,
                cleanup: cleanup@,
            },
            PushStage::Finishing { summary } => PushStageView::Finishing { summary: summary@ },
        }
    }
}

/// A push in progress. The local folder is authoritative: new and changed files are uploaded, and
/// then, where deletions are carried over, remote files that are gone locally are trashed.
pub struct Push {
    sync: SyncConfig,
    stage: PushStage,
}

/// The view of a push in progress.
#[verifier::ext_equal]
pub struct PushView {
    pub sync: SyncConfigView,
    pub stage: PushStageView,
}

impl View for Push {
    type V = PushView;

    closed spec fn view(&self) -> PushView {
        PushView { sync: self.sync@, stage: self.stage@ }
    }
}

/// What a step of a push leads to.
pub type PushOutcome = Result<Progress<PushView, RequestView, SummaryView>, Fault<Seq<char>>>;

impl PushView {
    /// Waits, in another stage, for the reply to a request.
    pub open spec fn asks(
        sync: SyncConfigView,
        stage: PushStageView,
        request: RequestView,
    ) -> PushOutcome {
        Ok(Progress::Ask(PushView { sync, stage }, request))
    }

    /// The local root is there: goes on to its files.
    pub open spec fn checked(sync: SyncConfigView) -> PushOutcome {
        match excludes_fault(sync.name, sync.exclude) {
            Some(fault) => Err(fault),
            None => match scan_started(
                sync.local,
                sync.ready_marker,
                sync.exclude,
            ) {
                Progress::Ask(scan, request) => PushView::asks(
                    sync,
                    PushStageView::Scanning(scan),
                    request,
                ),
                Progress::Done(_) => Err(Fault::UnexpectedReply),
            },
        }
    }

    /// Everything is known that the uploads depend on: goes on to them.
    pub open spec fn reconciled(
        sync: SyncConfigView,
        scanned: ScannedView,
        states: Map<Seq<char>, FileState<Seq<char>>>,
        baseline: bool,
        tree: Option<RemoteTreeView>,
    ) -> PushOutcome {
        let changed = changed_files(scanned.files, states);
        let total = in_order(scanned.files.dom()).len();
        let base = PushBaseView {
            scanned,
            baseline,
            tree,
            summary: SummaryView {
                unchanged: (total - changed.len()) as nat,
                ..scan_summary(total, scanned.symlinks.len())
            },
        };
        match uploads_prepared(sync, changed).begun() {
            Err(fault) => Err(fault),
            Ok(Progress::Ask(uploads, request)) => PushView::asks(
                sync,
                PushStageView::Uploading { base, uploads },
                request,
            ),
            Ok(Progress::Done(tally)) => PushView::uploaded(sync, base, tally),
        }
    }

    /// Every upload succeeded: goes on to what is gone locally.
    pub open spec fn uploaded(
        sync: SyncConfigView,
        base: PushBaseView,
        tally: UploadTallyView,
    ) -> PushOutcome {
        let summary = SummaryView {
            uploaded: tally.uploaded,
            matched_remote: tally.matched_remote,
            ..base.summary
        };
        PushView::asks(
            sync,
            PushStageView::ListingStale { base: PushBaseView { summary, ..base } },
            RequestView::StatePaths { mirror: sync.name },
        )
    }

    /// The paths gone locally are known.
    pub open spec fn listed(
        sync: SyncConfigView,
        base: PushBaseView,
        stale: Seq<Seq<char>>,
    ) -> PushOutcome {
        if sync.delete == DeletePolicy::Trash {
            match base.tree {
                Some(tree) => PushView::located(sync, base, stale, tree),
                None => if stale.len() == 0 {
                    PushView::finished(sync, base.summary)
                } else {
                    match inventory_started(sync.name, sync.remote) {
                        Progress::Ask(inventory, request) => PushView::asks(
                            sync,
                            PushStageView::Locating { base, stale, inventory },
                            request,
                        ),
                        Progress::Done(_) => Err(Fault::UnexpectedReply),
                    }
                },
            }
        } else {
            PushView::forgotten(
                sync,
                base.summary,
                managed(base.scanned.patterns, stale, Set::empty()),
                Seq::empty(),
            )
        }
    }

    /// The remote files of the paths gone locally are known.
    pub open spec fn located(
        sync: SyncConfigView,
        base: PushBaseView,
        stale: Seq<Seq<char>>,
        tree: RemoteTreeView,
    ) -> PushOutcome {
        let seen = base.scanned.files.dom();
        PushView::forgotten(
            sync,
            base.summary,
            managed(base.scanned.patterns, stale, tree.files.dom()),
            items_at(tree, doomed(base.scanned.patterns, seen, base.baseline, stale, tree)),
        )
    }

    /// Forgets paths, and goes on to the files to trash.
    pub open spec fn forgotten(
        sync: SyncConfigView,
        summary: SummaryView,
        paths: Seq<Seq<char>>,
        items: Seq<TrashItemView>,
    ) -> PushOutcome {
        if paths.len() == 0 {
            PushView::trashed(sync, summary, items)
        } else {
            PushView::asks(
                sync,
                PushStageView::Forgetting { summary, items },
                RequestView::DeleteStates { mirror: sync.name, paths },
            )
        }
    }

    /// Trashes remote files.
    pub open spec fn trashed(
        sync: SyncConfigView,
        summary: SummaryView,
        items: Seq<TrashItemView>,
    ) -> PushOutcome {
        match cleanup_prepared(sync, items).begun() {
            Err(fault) => Err(fault),
            Ok(Progress::Ask(cleanup, request)) => PushView::asks(
                sync,
                PushStageView::Trashing { summary, cleanup },
                request,
            ),
            Ok(Progress::Done(paths)) => PushView::finished(
                sync,
                SummaryView { trashed: paths.len(), ..summary },
            ),
        }
    }

    /// Puts the comparison on record.
    pub open spec fn finished(sync: SyncConfigView, summary: SummaryView) -> PushOutcome {
        PushView::asks(
            sync,
            PushStageView::Finishing { summary },
            RequestView::SaveMetadata { key: baseline_key(sync.name), value: "1"@ },
        )
    }

    /// Whether the counts stay in range when `reply` is added to them.
    pub open spec fn accepts(self, reply: ReplyView) -> bool {
        self.stage matches PushStageView::Uploading { base, uploads } ==> uploads.accepts(reply)
    }

    /// One step.
    pub open spec fn stepped(self, reply: ReplyView) -> PushOutcome {
        let sync = self.sync;
        match self.stage {
            PushStageView::Checking(check) => match check.stepped(reply) {
                Err(fault) => Err(fault),
                Ok(Progress::Ask(check, request)) => PushView::asks(
                    sync,
                    PushStageView::Checking(check),
                    request,
                ),
                Ok(Progress::Done(_)) => PushView::checked(sync),
            },
            PushStageView::Scanning(scan) => match scan.stepped(reply) {
                Err(fault) => Err(fault),
                Ok(Progress::Ask(scan, request)) => PushView::asks(
                    sync,
                    PushStageView::Scanning(scan),
                    request,
                ),
                Ok(Progress::Done(scanned)) => PushView::asks(
                    sync,
                    PushStageView::LoadingStates { scanned },
                    RequestView::LoadStates { mirror: sync.name },
                ),
            },
            PushStageView::LoadingStates { scanned } => match reply {
                ReplyView::States(states) => PushView::asks(
                    sync,
                    PushStageView::LoadingBaseline { scanned, states },
                    RequestView::LoadMetadata { key: baseline_key(sync.name) },
                ),
                _ => Err(Fault::UnexpectedReply),
            },
            PushStageView::LoadingBaseline { scanned, states } => match reply {
                ReplyView::Value(value) => {
                    let baseline = value == Some("1"@);
                    if !baseline && sync.delete == DeletePolicy::Trash {
                        match inventory_started(sync.name, sync.remote) {
                            Progress::Ask(inventory, request) => PushView::asks(
                                sync,
                                PushStageView::Comparing { scanned, states, inventory },
                                request,
                            ),
                            Progress::Done(_) => Err(Fault::UnexpectedReply),
                        }
                    } else {
                        PushView::reconciled(sync, scanned, states, baseline, None)
                    }
                },
                _ => Err(Fault::UnexpectedReply),
            },
            PushStageView::Comparing { scanned, states, inventory } => match inventory.stepped(
                reply,
            ) {
                Err(fault) => Err(fault),
                Ok(Progress::Ask(inventory, request)) => PushView::asks(
                    sync,
                    PushStageView::Comparing { scanned, states, inventory },
                    request,
                ),
                Ok(Progress::Done(tree)) => PushView::reconciled(
                    sync,
                    scanned,
                    states,
                    false,
                    Some(tree),
                ),
            },
            PushStageView::Uploading { base, uploads } => match uploads.stepped(reply) {
                Err(fault) => Err(fault),
                Ok(Progress::Ask(uploads, request)) => PushView::asks(
                    sync,
                    PushStageView::Uploading { base, uploads },
                    request,
                ),
                Ok(Progress::Done(tally)) => PushView::uploaded(sync, base, tally),
            },
            PushStageView::ListingStale { base } => match reply {
                ReplyView::Paths(paths) => PushView::listed(
                    sync,
                    base,
                    unseen(paths, base.scanned.files.dom()),
                ),
                _ => Err(Fault::UnexpectedReply),
            },
            PushStageView::Locating { base, stale, inventory } => match inventory.stepped(reply) {
                Err(fault) => Err(fault),
                Ok(Progress::Ask(inventory, request)) => PushView::asks(
                    sync,
                    PushStageView::Locating { base, stale, inventory },
                    request,
                ),
                Ok(Progress::Done(tree)) => PushView::located(sync, base, stale, tree),
            },
            PushStageView::Forgetting { summary, items } => match reply {
                ReplyView::Done => PushView::trashed(sync, summary, items),
                _ => Err(Fault::UnexpectedReply),
            },
            PushStageView::Trashing { summary, cleanup } => match cleanup.stepped(reply) {
                Err(fault) => Err(fault),
                Ok(Progress::Ask(cleanup, request)) => PushView::asks(
                    sync,
                    PushStageView::Trashing { summary, cleanup },
                    request,
                ),
                Ok(Progress::Done(paths)) => PushView::finished(
                    sync,
                    SummaryView { trashed: paths.len(), ..summary },
                ),
            },
            PushStageView::Finishing { summary } => match reply {
                ReplyView::Done => Ok(Progress::Done(summary)),
                _ => Err(Fault::UnexpectedReply),
            },
        }
    }
}

/// A push before anything was looked at.
pub open spec fn push_started(mirror: SyncConfigView) -> Progress<
    PushView,
    RequestView,
    SummaryView,
> {
    Progress::Ask(
        PushView { sync: mirror, stage: PushStageView::Checking(readiness_started(mirror)) },
        RequestView::IsDirectory { path: mirror.local },
    )
}

/// Starts to push an entry.
pub fn sync_push(mirror: &SyncConfig) -> (r: (Push, Request))
    ensures
        Progress::<PushView, RequestView, SummaryView>::Ask(r.0@, r.1@) == push_started(mirror@),
{
    let (check, request) = require_ready(mirror);
    (Push { sync: mirror.clone(), stage: PushStage::Checking(check) }, request)
}

fn changed(
    files: &PathMap<LocalFile<String>>,
    states: &PathMap<FileState<String>>,
) -> (r: Vec<PendingUpload<String>>)
    ensures
        views(r@) == changed_files(files@, states@),
        r.len() <= in_order(files@.dom()).len(),
{
    let ghost paths = in_order(files@.dom());
    let total = files.len();
    let mut out: Vec<PendingUpload<String>> = Vec::new();
    let mut i: usize = 0;
    assert(views(out@) =~= changed_among(files@, states@, paths, 0));
    while i < total
        invariant
            i <= total,
            total == paths.len(),
            paths == in_order(files@.dom()),
            out.len() <= i,
            views(out@) == changed_among(files@, states@, paths, i as nat),
        decreases total - i,
    {
        let (_, file) = files.entry(i);
        let same = match states.get(file.relative.as_str()) {
            Some(state) => state.size == file.size && state.mtime_ns == file.mtime_ns,
            None => false,
        };
        if !same {
            let upload = PendingUpload { file: file.clone(), checkpoint_sha1: None };
            proof {
                views_push(out@, upload);
            }
            out.push(upload);
        }
        i += 1;
    }
    out
}

fn doomed_paths(base: &PushBase, stale: &Vec<String>, tree: &RemoteTree) -> (r: PathMap<()>)
    ensures
        r@.dom() == doomed(
            base@.scanned.patterns,
            base@.scanned.files.dom(),
            base@.baseline,
            views(stale@),
            tree@,
        ),
{
    let mut paths: PathMap<()> = PathMap::new();
    let ghost patterns = base@.scanned.patterns;
    let ghost seen = base@.scanned.files.dom();
    let ghost all = views(stale@);
    let mut i: usize = 0;
    assert(paths@.dom() =~= doomed(patterns, seen, true, all.take(0), tree@));
    while i < stale.len()
        invariant
            i <= stale.len(),
            all == views(stale@),
            patterns == base.scanned.excludes@,
            paths@.dom() == doomed(patterns, seen, true, all.take(i as int), tree@),
        decreases stale.len() - i,
    {
        let ghost path = stale@[i as int]@;
        let ghost done = all.take(i as int);
        let ghost next = all.take(i + 1);
        assert(next =~= done.push(path));
        assert forall|other: Seq<char>| next.contains(other) <==> (done.contains(other) || other
            == path) by {
            if done.contains(other) {
                let k = choose|k: int| 0 <= k < done.len() && done[k] == other;
                assert(next[k] == other);
            }
            assert(next[i as int] == path);
        }
        if !base.scanned.excludes.is_match(stale[i].as_str()) && tree.files.contains(
            stale[i].as_str(),
        ) {
            paths.insert(stale[i].clone(), ());
        }
        assert(paths@.dom() =~= doomed(patterns, seen, true, next, tree@));
        i += 1;
    }
    assert(all.take(i as int) =~= all);
    if !base.baseline {
        let total = tree.files.len();
        let ghost keys = in_order(tree@.files.dom());
        let ghost stale_part = doomed(patterns, seen, true, all, tree@);
        let mut k: usize = 0;
        while k < total
            invariant
                k <= total,
                total == keys.len(),
                keys == in_order(tree@.files.dom()),
                keys.to_set() == tree@.files.dom(),
                patterns == base.scanned.excludes@,
                seen == base.scanned.files@.dom(),
                stale_part == doomed(patterns, seen, true, all, tree@),
                forall|path: Seq<char>| #[trigger]
                    paths@.dom().contains(path) <==> (stale_part.contains(path) || (
                    keys.take(k as int).contains(path) && !excluded(patterns, path)
                        && !seen.contains(path))),
            decreases total - k,
        {
            let (path, _) = tree.files.entry(k);
            let ghost done = keys.take(k as int);
            let ghost next = keys.take(k + 1);
            assert(next =~= done.push(path@));
            assert forall|other: Seq<char>| next.contains(other) <==> (done.contains(other)
                || other == path@) by {
                if done.contains(other) {
                    let m = choose|m: int| 0 <= m < done.len() && done[m] == other;
                    assert(next[m] == other);
                }
                assert(next[k as int] == path@);
            }
            if !base.scanned.files.contains(path.as_str()) && !base.scanned.excludes.is_match(
                path.as_str(),
            ) {
                paths.insert(path.clone(), ());
            }
            k += 1;
        }
        proof {
            assert(keys.take(k as int) =~= keys);
            assert forall|path: Seq<char>| keys.contains(path) <==> tree@.files.contains_key(
                path,
            ) by {
                assert(keys.to_set().contains(path) == tree@.files.dom().contains(path));
            }
        }
    }
    assert(paths@.dom() =~= doomed(patterns, seen, base.baseline, all, tree@));
    paths
}

fn items_of(tree: &RemoteTree, paths: &PathMap<()>) -> (r: Vec<TrashItem>)
    requires
        forall|path: Seq<char>| #[trigger]
            paths@.contains_key(path) ==> tree@.files.contains_key(path),
    ensures
        views(r@) == items_at(tree@, paths@.dom()),
{
    let total = paths.len();
    let ghost goal = items_at(tree@, paths@.dom());
    let mut items: Vec<TrashItem> = Vec::new();
    let mut i: usize = 0;
    assert(views(items@) =~= goal.take(0));
    while i < total
        invariant
            i <= total,
            total == in_order(paths@.dom()).len(),
            goal == items_at(tree@, paths@.dom()),
            forall|path: Seq<char>| #[trigger]
                paths@.contains_key(path) ==> tree@.files.contains_key(path),
            views(items@) == goal.take(i as int),
        decreases total - i,
    {
        let (path, _) = paths.entry(i);
        if let Some(file) = tree.files.get(path.as_str()) {
            let item = TrashItem { path: path.clone(), file: file.clone() };
            proof {
                views_push(items@, item);
                assert(goal.take(i + 1) =~= goal.take(i as int).push(item@));
            }
            items.push(item);
        }
        i += 1;
    }
    assert(goal.take(i as int) =~= goal);
    items
}

fn key_for_baseline(name: &str) -> (r: String)
    ensures
        r@ == baseline_key(name@),
{
    concat2("baseline:", name)
}

type PushResult = Result<Progress<Push, Request, SyncSummary>, SyncError>;

impl Push {
    fn after_check(sync: SyncConfig) -> (r: PushResult)
        ensures
            outcome(r) == PushView::checked(sync@),
    {
        let excludes = match build_excludes(&sync) {
            Ok(excludes) => excludes,
            Err(error) => {
                return Err(error);
            },
        };
        let marker = clone_text(&sync.ready_marker);
        let (scan, request) = scan_local_files(sync.local.as_str(), marker, excludes);
        Ok(Progress::Ask(Push { sync, stage: PushStage::Scanning(scan) }, request))
    }

    fn reconcile(
        sync: SyncConfig,
        scanned: Scanned,
        states: PathMap<FileState<String>>,
        baseline: bool,
        tree: Option<RemoteTree>,
    ) -> (r: PushResult)
        ensures
            outcome(r) == PushView::reconciled(
                sync@,
                scanned@,
                states@,
                baseline,
                option_view(tree),
            ),
    {
        let uploads = changed(&scanned.files, &states);
        let total = scanned.files.len();
        let summary = SyncSummary {
            scanned: total,
            unchanged: total - uploads.len(),
            matched_remote: 0,
            uploaded: 0,
            downloaded: 0,
            trashed: 0,
            trashed_local: 0,
            skipped_symlinks: scanned.symlinks.len(),
        };
        let base = PushBase { scanned, baseline, tree, summary };
        match execute_uploads(&sync, uploads) {
            Err(error) => Err(error),
            Ok(Progress::Ask(uploads, request)) => Ok(
                Progress::Ask(Push { sync, stage: PushStage::Uploading { base, uploads } }, request),
            ),
            Ok(Progress::Done(tally)) => Push::after_uploads(sync, base, tally),
        }
    }

    fn after_uploads(sync: SyncConfig, base: PushBase, tally: UploadTally) -> (r: PushResult)
        ensures
            outcome(r) == PushView::uploaded(sync@, base@, tally@),
    {
        let mut base = base;
        base.summary.uploaded = tally.uploaded;
        base.summary.matched_remote = tally.matched_remote;
        let mirror = sync.name.clone();
        Ok(
            Progress::Ask(
                Push { sync, stage: PushStage::ListingStale { base } },
                Request::StatePaths { mirror },
            ),
        )
    }

    fn after_listing(sync: SyncConfig, base: PushBase, stale: Vec<String>) -> (r: PushResult)
        ensures
            outcome(r) == PushView::listed(sync@, base@, views(stale@)),
    {
        if matches!(sync.delete, DeletePolicy::Trash) {
            let mut base = base;
            let ghost before = base@;
            let mut tree: Option<RemoteTree> = None;
            std::mem::swap(&mut tree, &mut base.tree);
            match tree {
                Some(tree) => {
                    base.tree = None;
                    Push::after_locating(sync, base, stale, tree)
                },
                None => {
                    assert(base@ =~= before);
                    if stale.len() == 0 {
                        Push::finish(sync, base.summary)
                    } else {
                        let (inventory, request) = inventory_remote(
                            sync.name.as_str(),
                            sync.remote.as_str(),
                        );
                        Ok(
                            Progress::Ask(
                                Push {
                                    sync,
                                    stage: PushStage::Locating { base, stale, inventory },
                                },
                                request,
                            ),
                        )
                    }
                },
            }
        } else {
            let none: PathMap<()> = PathMap::new();
            assert(none@.dom() =~= Set::<Seq<char>>::empty());
            let paths = managed_paths(&base.scanned.excludes, &stale, &none);
            let items: Vec<TrashItem> = Vec::new();
            assert(views(items@) =~= Seq::<TrashItemView>::empty());
            Push::forget_then_trash(sync, base.summary, paths, items)
        }
    }

    fn after_locating(sync: SyncConfig, base: PushBase, stale: Vec<String>, tree: RemoteTree) -> (r:
        PushResult)
        ensures
            outcome(r) == PushView::located(sync@, base@, views(stale@), tree@),
    {
        let paths = managed_paths(&base.scanned.excludes, &stale, &tree.files);
        let doomed = doomed_paths(&base, &stale, &tree);
        let items = items_of(&tree, &doomed);
        Push::forget_then_trash(sync, base.summary, paths, items)
    }

    fn forget_then_trash(
        sync: SyncConfig,
        summary: SyncSummary,
        paths: Vec<String>,
        items: Vec<TrashItem>,
    ) -> (r: PushResult)
        ensures
            outcome(r) == PushView::forgotten(sync@, summary@, views(paths@), views(items@)),
    {
        if paths.len() == 0 {
            Push::trash(sync, summary, items)
        } else {
            let mirror = sync.name.clone();
            Ok(
                Progress::Ask(
                    Push { sync, stage: PushStage::Forgetting { summary, items } },
                    Request::DeleteStates { mirror, paths },
                ),
            )
        }
    }

    fn trash(sync: SyncConfig, summary: SyncSummary, items: Vec<TrashItem>) -> (r: PushResult)
        ensures
            outcome(r) == PushView::trashed(sync@, summary@, views(items@)),
    {
        match execute_remote_trash(&sync, items) {
            Err(error) => Err(error),
            Ok(Progress::Ask(cleanup, request)) => Ok(
                Progress::Ask(
                    Push { sync, stage: PushStage::Trashing { summary, cleanup } },
                    request,
                ),
            ),
            Ok(Progress::Done(trashed)) => {
                let mut summary = summary;
                summary.trashed = trashed.paths.len();
                Push::finish(sync, summary)
            },
        }
    }

    fn finish(sync: SyncConfig, summary: SyncSummary) -> (r: PushResult)
        ensures
            outcome(r) == PushView::finished(sync@, summary@),
    {
        let key = key_for_baseline(sync.name.as_str());
        Ok(
            Progress::Ask(
                Push { sync, stage: PushStage::Finishing { summary } },
                Request::SaveMetadata { key, value: "1".to_owned() },
            ),
        )
    }

    /// Whether the counts stay in range when `reply` is added to them.
    pub fn fits(&self, reply: &Reply) -> (r: bool)
        ensures
            r == self@.accepts(reply@),
    {
        match &self.stage {
            PushStage::Uploading { uploads, .. } => uploads.fits(reply),
            _ => true,
        }
    }

    /// Takes the reply to the last request, and goes on.
    pub fn next(self, reply: Reply) -> (r: Result<Progress<Push, Request, SyncSummary>, SyncError>)
        requires
            self@.accepts(reply@),
        ensures
            outcome(r) == self@.stepped(reply@),
    {
        let Push { sync, stage } = self;
        match stage {
            PushStage::Checking(check) => match check.next(reply) {
                Err(error) => Err(error),
                Ok(Progress::Ask(check, request)) => Ok(
                    Progress::Ask(Push { sync, stage: PushStage::Checking(check) }, request),
                ),
                Ok(Progress::Done(_)) => Push::after_check(sync),
            },
            PushStage::Scanning(scan) => match scan.next(reply) {
                Err(error) => Err(error),
                Ok(Progress::Ask(scan, request)) => Ok(
                    Progress::Ask(Push { sync, stage: PushStage::Scanning(scan) }, request),
                ),
                Ok(Progress::Done(scanned)) => {
                    let mirror = sync.name.clone();
                    Ok(
                        Progress::Ask(
                            Push { sync, stage: PushStage::LoadingStates { scanned } },
                            Request::LoadStates { mirror },
                        ),
                    )
                },
            },
            PushStage::LoadingStates { scanned } => match reply {
                Reply::States(states) => {
                    let key = key_for_baseline(sync.name.as_str());
                    Ok(
                        Progress::Ask(
                            Push { sync, stage: PushStage::LoadingBaseline { scanned, states } },
                            Request::LoadMetadata { key },
                        ),
                    )
                },
                _ => Err(Fault::UnexpectedReply),
            },
            PushStage::LoadingBaseline { scanned, states } => match reply {
                Reply::Value(value) => {
                    let baseline = match &value {
                        Some(value) => text_eq(value.as_str(), "1"),
                        None => false,
                    };
                    if !baseline && matches!(sync.delete, DeletePolicy::Trash) {
                        let (inventory, request) = inventory_remote(
                            sync.name.as_str(),
                            sync.remote.as_str(),
                        );
                        Ok(
                            Progress::Ask(
                                Push {
                                    sync,
                                    stage: PushStage::Comparing { scanned, states, inventory },
                                },
                                request,
                            ),
                        )
                    } else {
                        Push::reconcile(sync, scanned, states, baseline, None)
                    }
                },
                _ => Err(Fault::UnexpectedReply),
            },
            PushStage::Comparing { scanned, states, inventory } => match inventory.next(reply) {
                Err(error) => Err(error),
                Ok(Progress::Ask(inventory, request)) => Ok(
                    Progress::Ask(
                        Push { sync, stage: PushStage::Comparing { scanned, states, inventory } },
                        request,
                    ),
                ),
                Ok(Progress::Done(tree)) => Push::reconcile(
                    sync,
                    scanned,
                    states,
                    false,
                    Some(tree),
                ),
            },
            PushStage::Uploading { base, uploads } => match uploads.next(reply) {
                Err(error) => Err(error),
                Ok(Progress::Ask(uploads, request)) => Ok(
                    Progress::Ask(
                        Push { sync, stage: PushStage::Uploading { base, uploads } },
                        request,
                    ),
                ),
                Ok(Progress::Done(tally)) => Push::after_uploads(sync, base, tally),
            },
            PushStage::ListingStale { base } => match reply {
                Reply::Paths(paths) => {
                    let stale = stale_paths(paths, &base.scanned.files);
                    Push::after_listing(sync, base, stale)
                },
                _ => Err(Fault::UnexpectedReply),
            },
            PushStage::Locating { base, stale, inventory } => match inventory.next(reply) {
                Err(error) => Err(error),
                Ok(Progress::Ask(inventory, request)) => Ok(
                    Progress::Ask(
                        Push { sync, stage: PushStage::Locating { base, stale, inventory } },
                        request,
                    ),
                ),
                Ok(Progress::Done(tree)) => Push::after_locating(sync, base, stale, tree),
            },
            PushStage::Forgetting { summary, items } => match reply {
                Reply::Done => Push::trash(sync, summary, items),
                _ => Err(Fault::UnexpectedReply),
            },
            PushStage::Trashing { summary, cleanup } => match cleanup.next(reply) {
                Err(error) => Err(error),
                Ok(Progress::Ask(cleanup, request)) => Ok(
                    Progress::Ask(
                        Push { sync, stage: PushStage::Trashing { summary, cleanup } },
                        request,
                    ),
                ),
                Ok(Progress::Done(trashed)) => {
                    let mut summary = summary;
                    summary.trashed = trashed.paths.len();
                    Push::finish(sync, summary)
                },
            },
            PushStage::Finishing { summary } => match reply {
                Reply::Done => Ok(Progress::Done(summary)),
                _ => Err(Fault::UnexpectedReply),
            },
        }
    }
}

} // verus!
