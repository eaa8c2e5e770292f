//! What holds of every two-way sync, whatever it is answered.

use crate::batches::chunked;
use crate::cleanup::{cleanup_prepared, TrashItemView};
use crate::config::{DeletePolicy, SyncConfigView};
use crate::drive::{RemoteFileView, UploadFailureView};
use crate::error::Fault;
use crate::exchange::{Progress, ReplyView, RequestView};
use crate::fetch::{fetch_prepared, FetchItemView, FetchView, FetchedView};
use crate::inventory::RemoteTreeView;
use crate::places::path_joined;
use crate::plan::{two_way_view, LocalSnapshot, TwoWayAction};
use crate::readiness::{readiness_started, Readiness};
use crate::removal::removal_prepared;
use crate::scan::{local_path_of, ScannedView};
use crate::soundness::{bounded_batch, cleanup_begins, cleanup_prepares, cleanup_steps};
use crate::soundness::{commits_begin, commits_prepare, fetch_advances, fetch_prepares};
use crate::soundness::{fetch_request, fetch_steps, included, inventory_asks, only_looks, proper};
use crate::soundness::{removal_begins, removal_steps, scan_asks, scan_steps, sound_cleanup};
use crate::soundness::{sound_commits, sound_fetch, sound_removal, sound_scan, sound_scanned};
use crate::soundness::{sound_uploads, spares_excluded, uploads_ask, uploads_begin, uploads_prepare};
use crate::soundness::uploads_step;
use crate::state::{FileState, CHECKPOINT_BATCH_SIZE};
use crate::summary::{scan_summary, SummaryView};
use crate::text::{in_order, in_order_is_ordered};
use crate::trace::{ending, fails_at_once, fails_next, kept_by_steps, requests, Step};
use crate::two_way::{remembered_digest, two_way_started, unexcluded, work_for, TwoWayOutcome};
use crate::two_way::{TwoWayRun, TwoWayStageView, WorkView};
use crate::uploads::{uploads_prepared, PendingUpload, UploadTallyView, UploadsView};
use vstd::prelude::*;

verus! {

/// The step function of a two-way sync.
pub open spec fn two_way_step() -> Step<TwoWayRun, SummaryView> {
    |run: TwoWayRun, reply: ReplyView| run.stepped(reply)
}

/// The requests of a two-way sync of `sync` that is given `replies` one by one.
pub open spec fn two_way_requests(sync: SyncConfigView, replies: Seq<ReplyView>) -> Seq<
    RequestView,
> {
    requests(two_way_step(), two_way_started(sync), replies)
}

spec fn sound_local(
    sync: SyncConfigView,
    local: Map<Seq<char>, LocalSnapshot<Seq<char>>>,
) -> bool {
    forall|path: Seq<char>| #[trigger]
        local.contains_key(path) ==> included(sync, path) && local[path].file.relative == path
}

spec fn sound_pending(sync: SyncConfigView, uploads: Seq<PendingUpload<Seq<char>>>) -> bool {
    forall|i: int| 0 <= i < uploads.len() ==> included(sync, (#[trigger] uploads[i]).file.relative)
}

spec fn sound_downloads(sync: SyncConfigView, items: Seq<FetchItemView>) -> bool {
    forall|i: int| 0 <= i < items.len() ==> included(sync, (#[trigger] items[i]).path)
}

spec fn sound_remote_trash(sync: SyncConfigView, items: Seq<TrashItemView>) -> bool {
    &&& items.len() > 0 ==> sync.delete == DeletePolicy::Trash
    &&& forall|i: int| 0 <= i < items.len() ==> included(sync, (#[trigger] items[i]).path)
}

spec fn sound_local_trash(sync: SyncConfigView, paths: Seq<Seq<char>>) -> bool {
    &&& paths.len() > 0 ==> sync.delete == DeletePolicy::Trash
    &&& forall|i: int| 0 <= i < paths.len() ==> included(sync, #[trigger] paths[i])
}

spec fn sound_work(sync: SyncConfigView, work: WorkView) -> bool {
    &&& forall|i: int|
        0 <= i < work.checkpoints.len() ==> included(sync, (#[trigger] work.checkpoints[i]).path)
    &&& sound_pending(sync, work.uploads)
    &&& sound_downloads(sync, work.downloads)
    &&& sound_remote_trash(sync, work.remote_trash)
    &&& sound_local_trash(sync, work.local_trash)
}

spec fn sound_stage(sync: SyncConfigView, stage: TwoWayStageView) -> bool {
    match stage {
        TwoWayStageView::Checking(_) => true,
        TwoWayStageView::LoadingStates => true,
        TwoWayStageView::Scanning { scan, .. } => sound_scan(sync, scan),
        TwoWayStageView::Hashing { scanned, local, .. } => sound_scanned(sync, scanned)
            && sound_local(sync, local),
        TwoWayStageView::Listing { scanned, local, .. } => sound_scanned(sync, scanned)
            && sound_local(sync, local),
        TwoWayStageView::Committing {
            pending,
            downloads,
            remote_trash,
            local_trash,
            commits,
            ..
        } => {
            &&& sound_pending(sync, pending)
            &&& sound_downloads(sync, downloads)
            &&& sound_remote_trash(sync, remote_trash)
            &&& sound_local_trash(sync, local_trash)
            &&& sound_commits(sync, commits)
        },
        TwoWayStageView::Uploading { downloads, remote_trash, local_trash, uploads, .. } => {
            &&& sound_downloads(sync, downloads)
            &&& sound_remote_trash(sync, remote_trash)
            &&& sound_local_trash(sync, local_trash)
            &&& sound_uploads(sync, uploads)
        },
        TwoWayStageView::Fetching { remote_trash, local_trash, fetch, .. } => {
            &&& sound_remote_trash(sync, remote_trash)
            &&& sound_local_trash(sync, local_trash)
            &&& sound_fetch(sync, fetch)
        },
        TwoWayStageView::Trashing { local_trash, cleanup, .. } => {
            &&& sync.delete == DeletePolicy::Trash
            &&& sound_local_trash(sync, local_trash)
            &&& sound_cleanup(sync, cleanup)
        },
        TwoWayStageView::Removing { removal, .. } => {
            &&& sync.delete == DeletePolicy::Trash
            &&& sound_removal(sync, removal)
        },
    }
}

/// What a two-way sync may ask: what is proper, and nothing is trashed unless deletions are carried
/// over.
spec fn two_way_request(sync: SyncConfigView, request: RequestView) -> bool {
    &&& proper(sync, request)
    &&& request is TrashRemote || request is TrashLocal ==> sync.delete == DeletePolicy::Trash
}

spec fn sound_run(sync: SyncConfigView) -> spec_fn(TwoWayRun, RequestView) -> bool {
    |run: TwoWayRun, request: RequestView|
        run.sync == sync && sound_stage(sync, run.stage) && two_way_request(sync, request)
}

spec fn sound_outcome(sync: SyncConfigView, outcome: TwoWayOutcome) -> bool {
    outcome matches Ok(Progress::Ask(next, request)) ==> sound_run(sync)(next, request)
}

proof fn cleaned_is_sound(
    sync: SyncConfigView,
    summary: SummaryView,
    local_trash: Seq<Seq<char>>,
    trashed: Seq<Seq<char>>,
)
    requires
        sound_local_trash(sync, local_trash),
    ensures
        sound_outcome(sync, TwoWayRun::cleaned(sync, summary, local_trash, trashed)),
{
    removal_begins(sync, removal_prepared(sync, local_trash));
}

proof fn fetched_is_sound(
    sync: SyncConfigView,
    summary: SummaryView,
    remote_trash: Seq<TrashItemView>,
    local_trash: Seq<Seq<char>>,
    fetched: FetchedView,
)
    requires
        sound_remote_trash(sync, remote_trash),
        sound_local_trash(sync, local_trash),
    ensures
        sound_outcome(
            sync,
            TwoWayRun::fetched(sync, summary, remote_trash, local_trash, fetched),
        ),
{
    let run = cleanup_prepared(sync, remote_trash);
    cleanup_prepares(sync, remote_trash);
    cleanup_begins(sync, run);
    assert(remote_trash.len() == 0 ==> run.batches.len() == 0);
    let after = SummaryView { downloaded: fetched.downloaded.len(), ..summary };
    if let Ok(Progress::Done(paths)) = run.begun() {
        cleaned_is_sound(sync, after, local_trash, paths);
    }
}

proof fn uploaded_is_sound(
    sync: SyncConfigView,
    summary: SummaryView,
    downloads: Seq<FetchItemView>,
    remote_trash: Seq<TrashItemView>,
    local_trash: Seq<Seq<char>>,
    tally: UploadTallyView,
)
    requires
        sound_downloads(sync, downloads),
        sound_remote_trash(sync, remote_trash),
        sound_local_trash(sync, local_trash),
    ensures
        sound_outcome(
            sync,
            TwoWayRun::uploaded(sync, summary, downloads, remote_trash, local_trash, tally),
        ),
{
    let run = fetch_prepared(sync, downloads);
    fetch_prepares(sync, downloads);
    fetch_advances(sync, run);
    let after = SummaryView {
        uploaded: tally.uploaded,
        matched_remote: tally.matched_remote,
        ..summary
    };
    if let Ok(Progress::Done(fetched)) = run.advanced() {
        fetched_is_sound(sync, after, remote_trash, local_trash, fetched);
    }
}

proof fn committed_is_sound(
    sync: SyncConfigView,
    summary: SummaryView,
    pending: Seq<PendingUpload<Seq<char>>>,
    downloads: Seq<FetchItemView>,
    remote_trash: Seq<TrashItemView>,
    local_trash: Seq<Seq<char>>,
)
    requires
        sound_pending(sync, pending),
        sound_downloads(sync, downloads),
        sound_remote_trash(sync, remote_trash),
        sound_local_trash(sync, local_trash),
    ensures
        sound_outcome(
            sync,
            TwoWayRun::committed(sync, summary, pending, downloads, remote_trash, local_trash),
        ),
{
    let run = uploads_prepared(sync, pending);
    uploads_prepare(sync, pending);
    uploads_begin(sync, run);
    if let Ok(Progress::Done(tally)) = run.begun() {
        uploaded_is_sound(sync, summary, downloads, remote_trash, local_trash, tally);
    }
}

proof fn planned_is_sound(sync: SyncConfigView, summary: SummaryView, work: WorkView)
    requires
        sound_work(sync, work),
    ensures
        sound_outcome(sync, TwoWayRun::planned(sync, summary, work)),
{
    commits_prepare(sync, work.checkpoints);
    commits_begin(sync, chunked(work.checkpoints, CHECKPOINT_BATCH_SIZE as int));
    let after = SummaryView { unchanged: work.checkpoints.len(), ..summary };
    committed_is_sound(
        sync,
        after,
        work.uploads,
        work.downloads,
        work.remote_trash,
        work.local_trash,
    );
}

proof fn work_is_sound(
    sync: SyncConfigView,
    local: Map<Seq<char>, LocalSnapshot<Seq<char>>>,
    remote: Map<Seq<char>, RemoteFileView>,
    actions: Seq<TwoWayAction<Seq<char>>>,
)
    requires
        sound_local(sync, local),
        forall|i: int|
            0 <= i < actions.len() ==> {
                let path = (#[trigger] actions[i]).target();
                &&& included(sync, path)
                &&& actions[i] is Upload ==> local.contains_key(path)
                &&& actions[i] is TrashRemote || actions[i] is TrashLocal ==> sync.delete
                    == DeletePolicy::Trash
            },
    ensures
        sound_work(sync, work_for(sync.name, local, remote, actions)),
    decreases actions.len(),
{
    if actions.len() > 0 {
        let before = actions.drop_last();
        assert forall|i: int| 0 <= i < before.len() implies {
            let path = (#[trigger] before[i]).target();
            &&& included(sync, path)
            &&& before[i] is Upload ==> local.contains_key(path)
            &&& before[i] is TrashRemote || before[i] is TrashLocal ==> sync.delete
                == DeletePolicy::Trash
        } by {
            assert(before[i] == actions[i]);
        }
        work_is_sound(sync, local, remote, before);
        assert(included(sync, actions[actions.len() - 1].target()));
    }
}

proof fn listed_is_sound(
    sync: SyncConfigView,
    states: Map<Seq<char>, FileState<Seq<char>>>,
    scanned: ScannedView,
    local: Map<Seq<char>, LocalSnapshot<Seq<char>>>,
    tree: RemoteTreeView,
)
    requires
        sound_scanned(sync, scanned),
        sound_local(sync, local),
    ensures
        sound_outcome(sync, TwoWayRun::listed(sync, states, scanned, local, tree)),
{
    let remote = unexcluded(scanned.patterns, tree.files);
    let input = two_way_view(sync, local, remote, states);
    if let Ok(actions) = input.plan() {
        input.plan_has_reasons();
        assert forall|i: int| 0 <= i < actions.len() implies {
            let path = (#[trigger] actions[i]).target();
            &&& included(sync, path)
            &&& actions[i] is Upload ==> local.contains_key(path)
            &&& actions[i] is TrashRemote || actions[i] is TrashLocal ==> sync.delete
                == DeletePolicy::Trash
        } by {
            let action = input.plan()->Ok_0[i];
            input.decision_is_about(action.target(), action);
            if sync.delete == DeletePolicy::Keep {
                input.keep_never_trashes(action.target());
            }
        }
        work_is_sound(sync, local, remote, actions);
        planned_is_sound(
            sync,
            scan_summary(in_order(local.dom()).len(), scanned.symlinks.len()),
            work_for(sync.name, local, remote, actions),
        );
    }
}

proof fn hashing_is_sound(
    sync: SyncConfigView,
    states: Map<Seq<char>, FileState<Seq<char>>>,
    scanned: ScannedView,
    local: Map<Seq<char>, LocalSnapshot<Seq<char>>>,
    at: nat,
)
    requires
        sound_scanned(sync, scanned),
        sound_local(sync, local),
    ensures
        sound_outcome(sync, TwoWayRun::hashing(sync, states, scanned, local, at)),
    decreases in_order(scanned.files.dom()).len() - at,
{
    let paths = in_order(scanned.files.dom());
    if at < paths.len() {
        in_order_is_ordered(scanned.files.dom());
        let path = paths[at as int];
        assert(paths.to_set().contains(path));
        assert(scanned.files.contains_key(path));
        let file = scanned.files[path];
        if let Some(sha1) = remembered_digest(states, file) {
            hashing_is_sound(
                sync,
                states,
                scanned,
                local.insert(path, LocalSnapshot { file, sha1 }),
                at + 1,
            );
        }
    }
}

proof fn two_way_stays_sound_before(sync: SyncConfigView, run: TwoWayRun, reply: ReplyView)
    requires
        run.sync == sync,
        sound_stage(sync, run.stage),
    ensures
        sound_outcome(sync, run.stepped_before(reply)),
{
    match run.stage {
        TwoWayStageView::Scanning { states, scan } => {
            scan_steps(sync, scan, reply);
            if let Ok(Progress::Done(scanned)) = scan.stepped(reply) {
                hashing_is_sound(sync, states, scanned, Map::empty(), 0);
            }
        },
        TwoWayStageView::Hashing { states, scanned, local, at } => {
            let paths = in_order(scanned.files.dom());
            if at < paths.len() && reply is Digest {
                in_order_is_ordered(scanned.files.dom());
                let path = paths[at as int];
                assert(paths.to_set().contains(path));
                assert(scanned.files.contains_key(path));
                let sha1 = reply->Digest_0;
                hashing_is_sound(
                    sync,
                    states,
                    scanned,
                    local.insert(path, LocalSnapshot { file: scanned.files[path], sha1 }),
                    at + 1,
                );
            }
        },
        TwoWayStageView::Listing { states, scanned, local, inventory } => {
            inventory_asks(inventory, reply);
            if let Ok(Progress::Done(tree)) = inventory.stepped(reply) {
                listed_is_sound(sync, states, scanned, local, tree);
            }
        },
        _ => {},
    }
}

proof fn two_way_stays_sound_after(sync: SyncConfigView, run: TwoWayRun, reply: ReplyView)
    requires
        run.sync == sync,
        sound_stage(sync, run.stage),
    ensures
        sound_outcome(sync, run.stepped_after(reply)),
{
    match run.stage {
        TwoWayStageView::Committing {
            summary,
            pending,
            downloads,
            remote_trash,
            local_trash,
            commits,
        } => {
            commits_begin(sync, commits);
            committed_is_sound(sync, summary, pending, downloads, remote_trash, local_trash);
        },
        TwoWayStageView::Uploading { summary, downloads, remote_trash, local_trash, uploads } => {
            uploads_step(sync, uploads, reply);
            if let Ok(Progress::Done(tally)) = uploads.stepped(reply) {
                uploaded_is_sound(sync, summary, downloads, remote_trash, local_trash, tally);
            }
        },
        TwoWayStageView::Fetching { summary, remote_trash, local_trash, fetch } => {
            fetch_steps(sync, fetch, reply);
            if let Ok(Progress::Done(fetched)) = fetch.stepped(reply) {
                fetched_is_sound(sync, summary, remote_trash, local_trash, fetched);
            }
        },
        TwoWayStageView::Trashing { summary, local_trash, cleanup } => {
            cleanup_steps(sync, cleanup, reply);
            if let Ok(Progress::Done(paths)) = cleanup.stepped(reply) {
                cleaned_is_sound(sync, summary, local_trash, paths);
            }
        },
        TwoWayStageView::Removing { removal, .. } => {
            removal_steps(sync, removal, reply);
        },
        _ => {},
    }
}

proof fn two_way_asks_soundly(sync: SyncConfigView, replies: Seq<ReplyView>)
    ensures
        forall|i: int|
            0 <= i < two_way_requests(sync, replies).len() ==> two_way_request(
                sync,
                #[trigger] two_way_requests(sync, replies)[i],
            ),
{
    let step = two_way_step();
    let sound = sound_run(sync);
    let good = |request: RequestView| two_way_request(sync, request);
    assert forall|run: TwoWayRun, request: RequestView, reply: ReplyView|
        #![trigger sound(run, request), step(run, reply)]
        sound(run, request) implies (step(run, reply) matches Ok(Progress::Ask(next, asked))
        ==> sound(next, asked)) by {
        two_way_stays_sound_before(sync, run, reply);
        two_way_stays_sound_after(sync, run, reply);
    }
    kept_by_steps(step, sound, good, two_way_started(sync), replies);
    assert forall|i: int| 0 <= i < two_way_requests(sync, replies).len() implies two_way_request(
        sync,
        #[trigger] two_way_requests(sync, replies)[i],
    ) by {
        assert(good(requests(step, two_way_started(sync), replies)[i]));
    }
}

/// A two-way sync transfers, trashes, remembers and forgets only files at paths that are not
/// excluded.
pub proof fn two_way_leaves_excluded_paths_alone(sync: SyncConfigView, replies: Seq<ReplyView>)
    ensures
        forall|i: int|
            0 <= i < two_way_requests(sync, replies).len() ==> spares_excluded(
                sync,
                #[trigger] two_way_requests(sync, replies)[i],
            ),
{
    two_way_asks_soundly(sync, replies);
}

/// Every batch of a two-way sync is bounded and none is empty.
pub proof fn two_way_batches_are_bounded(sync: SyncConfigView, replies: Seq<ReplyView>)
    ensures
        forall|i: int|
            0 <= i < two_way_requests(sync, replies).len() ==> bounded_batch(
                #[trigger] two_way_requests(sync, replies)[i],
            ),
{
    two_way_asks_soundly(sync, replies);
}

/// A two-way sync trashes nothing on either side unless deletions are carried over.
pub proof fn two_way_only_trashes_when_told_to(sync: SyncConfigView, replies: Seq<ReplyView>)
    requires
        sync.delete == DeletePolicy::Keep,
    ensures
        forall|i: int|
            0 <= i < two_way_requests(sync, replies).len() ==> {
                let request = #[trigger] two_way_requests(sync, replies)[i];
                request !is TrashRemote && request !is TrashLocal
            },
{
    two_way_asks_soundly(sync, replies);
}

/// What is asked before the plan: it changes neither side nor what is remembered of files.
pub open spec fn harmless(request: RequestView) -> bool {
    only_looks(request) || request is ReplaceDirectories || request is ReleaseSession
}

proof fn hashing_is_harmless(
    sync: SyncConfigView,
    states: Map<Seq<char>, FileState<Seq<char>>>,
    scanned: ScannedView,
    local: Map<Seq<char>, LocalSnapshot<Seq<char>>>,
    at: nat,
)
    ensures
        TwoWayRun::hashing(sync, states, scanned, local, at) matches Ok(Progress::Ask(next, request))
            && next.before_plan() && harmless(request),
    decreases in_order(scanned.files.dom()).len() - at,
{
    let paths = in_order(scanned.files.dom());
    if at < paths.len() {
        let path = paths[at as int];
        let file = scanned.files[path];
        if let Some(sha1) = remembered_digest(states, file) {
            hashing_is_harmless(
                sync,
                states,
                scanned,
                local.insert(path, LocalSnapshot { file, sha1 }),
                at + 1,
            );
        }
    }
}

pub(crate) proof fn planning_is_harmless(run: TwoWayRun, reply: ReplyView)
    requires
        run.before_plan(),
    ensures
        run.stepped(reply) matches Ok(Progress::Ask(next, request)) ==> {
            &&& next.before_plan() ==> harmless(request)
            &&& run.stage !is Listing ==> next.before_plan()
        },
{
    match run.stage {
        TwoWayStageView::Scanning { states, scan } => {
            scan_asks(scan, reply);
            if let Ok(Progress::Done(scanned)) = scan.stepped(reply) {
                hashing_is_harmless(run.sync, states, scanned, Map::empty(), 0);
            }
        },
        TwoWayStageView::Hashing { states, scanned, local, at } => {
            let paths = in_order(scanned.files.dom());
            if at < paths.len() && reply is Digest {
                let path = paths[at as int];
                let sha1 = reply->Digest_0;
                hashing_is_harmless(
                    run.sync,
                    states,
                    scanned,
                    local.insert(path, LocalSnapshot { file: scanned.files[path], sha1 }),
                    at + 1,
                );
            }
        },
        TwoWayStageView::Listing { inventory, .. } => {
            inventory_asks(inventory, reply);
        },
        _ => {},
    }
}

spec fn no_conflict(outcome: TwoWayOutcome) -> bool {
    match outcome {
        Err(fault) => fault !is Conflict,
        Ok(Progress::Ask(next, _)) => !next.before_plan(),
        Ok(Progress::Done(_)) => true,
    }
}

proof fn no_conflict_after_fetch(
    sync: SyncConfigView,
    summary: SummaryView,
    remote_trash: Seq<TrashItemView>,
    local_trash: Seq<Seq<char>>,
    fetched: FetchedView,
)
    ensures
        no_conflict(TwoWayRun::fetched(sync, summary, remote_trash, local_trash, fetched)),
{
}

proof fn no_conflict_after_uploads(
    sync: SyncConfigView,
    summary: SummaryView,
    downloads: Seq<FetchItemView>,
    remote_trash: Seq<TrashItemView>,
    local_trash: Seq<Seq<char>>,
    tally: UploadTallyView,
)
    ensures
        no_conflict(
            TwoWayRun::uploaded(sync, summary, downloads, remote_trash, local_trash, tally),
        ),
{
    let after = SummaryView {
        uploaded: tally.uploaded,
        matched_remote: tally.matched_remote,
        ..summary
    };
    if let Ok(Progress::Done(fetched)) = fetch_prepared(sync, downloads).advanced() {
        no_conflict_after_fetch(sync, after, remote_trash, local_trash, fetched);
    }
}

proof fn no_conflict_after_commits(
    sync: SyncConfigView,
    summary: SummaryView,
    pending: Seq<PendingUpload<Seq<char>>>,
    downloads: Seq<FetchItemView>,
    remote_trash: Seq<TrashItemView>,
    local_trash: Seq<Seq<char>>,
)
    ensures
        no_conflict(
            TwoWayRun::committed(sync, summary, pending, downloads, remote_trash, local_trash),
        ),
{
    if let Ok(Progress::Done(tally)) = uploads_prepared(sync, pending).begun() {
        no_conflict_after_uploads(sync, summary, downloads, remote_trash, local_trash, tally);
    }
}

proof fn uploads_meet_no_conflict(run: UploadsView, reply: ReplyView)
    ensures
        run.stepped(reply) matches Err(fault) ==> fault !is Conflict,
{
    if let ReplyView::Uploaded(result) = reply {
        kept_meets_no_conflict(run, run.jobs[run.at as int].uploads, result.failures);
    }
}

proof fn kept_meets_no_conflict(
    run: UploadsView,
    uploads: Seq<PendingUpload<Seq<char>>>,
    failures: Seq<UploadFailureView>,
)
    ensures
        run.kept(uploads, failures) matches Err(fault) ==> fault !is Conflict,
    decreases uploads.len(),
{
    if uploads.len() > 0 {
        kept_meets_no_conflict(run, uploads.drop_last(), failures);
    }
}

proof fn fetch_meets_no_conflict(run: FetchView, reply: ReplyView)
    ensures
        run.stepped(reply) matches Err(fault) ==> fault !is Conflict,
{
}

proof fn no_conflict_after_plan(run: TwoWayRun, reply: ReplyView)
    requires
        !run.before_plan(),
    ensures
        no_conflict(run.stepped(reply)),
{
    let sync = run.sync;
    match run.stage {
        TwoWayStageView::Committing {
            summary,
            pending,
            downloads,
            remote_trash,
            local_trash,
            commits,
        } => {
            no_conflict_after_commits(
                sync,
                summary,
                pending,
                downloads,
                remote_trash,
                local_trash,
            );
        },
        TwoWayStageView::Uploading { summary, downloads, remote_trash, local_trash, uploads } => {
            uploads_meet_no_conflict(uploads, reply);
            if let Ok(Progress::Done(tally)) = uploads.stepped(reply) {
                no_conflict_after_uploads(
                    sync,
                    summary,
                    downloads,
                    remote_trash,
                    local_trash,
                    tally,
                );
            }
        },
        TwoWayStageView::Fetching { summary, remote_trash, local_trash, fetch } => {
            fetch_meets_no_conflict(fetch, reply);
            if let Ok(Progress::Done(fetched)) = fetch.stepped(reply) {
                no_conflict_after_fetch(sync, summary, remote_trash, local_trash, fetched);
            }
        },
        _ => {},
    }
}

proof fn planned_run_ends_without_conflict(
    at: Progress<TwoWayRun, RequestView, SummaryView>,
    replies: Seq<ReplyView>,
)
    requires
        at matches Progress::Ask(run, _) ==> !run.before_plan(),
    ensures
        ending(two_way_step(), at, replies) matches Some(Err(fault)) ==> fault !is Conflict,
    decreases replies.len(),
{
    if let Progress::Ask(run, _) = at {
        if replies.len() > 0 {
            no_conflict_after_plan(run, replies[0]);
            if let Ok(next) = two_way_step()(run, replies[0]) {
                planned_run_ends_without_conflict(next, replies.drop_first());
            }
        }
    }
}

proof fn conflict_is_harmless_from(
    at: Progress<TwoWayRun, RequestView, SummaryView>,
    replies: Seq<ReplyView>,
)
    requires
        at matches Progress::Ask(run, request) ==> run.before_plan() && harmless(request),
        ending(two_way_step(), at, replies) matches Some(Err(fault)) && fault is Conflict,
    ensures
        forall|i: int|
            0 <= i < requests(two_way_step(), at, replies).len() ==> harmless(
                #[trigger] requests(two_way_step(), at, replies)[i],
            ),
    decreases replies.len(),
{
    let step = two_way_step();
    let all = requests(step, at, replies);
    if let Progress::Ask(run, request) = at {
        if let Ok(next) = step(run, replies[0]) {
            planning_is_harmless(run, replies[0]);
            if let Progress::Ask(after, asked) = next {
                if !after.before_plan() {
                    planned_run_ends_without_conflict(next, replies.drop_first());
                }
            }
            conflict_is_harmless_from(next, replies.drop_first());
            let rest = requests(step, next, replies.drop_first());
            assert forall|i: int| 0 <= i < all.len() implies harmless(#[trigger] all[i]) by {
                if i > 0 {
                    assert(all[i] == rest[i - 1]);
                }
            }
        }
    }
}

/// A two-way sync that ends in a conflict has changed nothing: everything was planned first, and
/// until then nothing was moved on either side and nothing remembered or forgotten of any file.
pub proof fn conflict_changes_nothing(sync: SyncConfigView, replies: Seq<ReplyView>)
    requires
        ending(two_way_step(), two_way_started(sync), replies) matches Some(Err(fault))
            && fault is Conflict,
    ensures
        forall|i: int|
            0 <= i < two_way_requests(sync, replies).len() ==> harmless(
                #[trigger] two_way_requests(sync, replies)[i],
            ),
{
    conflict_is_harmless_from(two_way_started(sync), replies);
}

/// A digest that a push left out is rebuilt: the file is hashed before anything is planned.
pub proof fn omitted_digest_is_rebuilt(
    sync: SyncConfigView,
    states: Map<Seq<char>, FileState<Seq<char>>>,
    scanned: ScannedView,
    local: Map<Seq<char>, LocalSnapshot<Seq<char>>>,
    at: nat,
)
    requires
        at < in_order(scanned.files.dom()).len(),
        states[scanned.files[in_order(scanned.files.dom())[at as int]].relative].sha1.len() == 0,
    ensures
        TwoWayRun::hashing(sync, states, scanned, local, at) == TwoWayRun::asks(
            sync,
            TwoWayStageView::Hashing { states, scanned, local, at },
            RequestView::Hash {
                path: local_path_of(sync.local, in_order(scanned.files.dom())[at as int]),
            },
        ),
{
}

/// A local root that is not there ends a two-way sync before it looks at anything else.
pub proof fn missing_root_stops_a_two_way_sync(sync: SyncConfigView, replies: Seq<ReplyView>)
    requires
        replies.len() > 0,
        replies[0] == ReplyView::Flag(false),
    ensures
        two_way_requests(sync, replies) == seq![RequestView::IsDirectory { path: sync.local }],
        ending(two_way_step(), two_way_started(sync), replies) == Some(
            Err::<SummaryView, Fault<Seq<char>>>(Fault::RootMissing { root: sync.local }),
        ),
{
    let fault = Fault::RootMissing { root: sync.local };
    assert(readiness_started(sync).stepped(replies[0]) == Err::<
        Progress<Readiness<Seq<char>>, RequestView, ()>,
        Fault<Seq<char>>,
    >(fault));
    fails_at_once(
        two_way_step(),
        TwoWayRun { sync, stage: TwoWayStageView::Checking(readiness_started(sync)) },
        RequestView::IsDirectory { path: sync.local },
        replies,
        fault,
    );
}

/// A readiness marker that is not there ends a two-way sync before it looks at anything but the
/// root.
pub proof fn missing_marker_stops_a_two_way_sync(sync: SyncConfigView, replies: Seq<ReplyView>)
    requires
        sync.ready_marker is Some,
        replies.len() > 1,
        replies[0] == ReplyView::Flag(true),
        replies[1] == ReplyView::Flag(false),
    ensures
        two_way_requests(sync, replies) == seq![
            RequestView::IsDirectory { path: sync.local },
            RequestView::IsFile { path: path_joined(sync.local, sync.ready_marker->0) },
        ],
        ending(two_way_step(), two_way_started(sync), replies) == Some(
            Err::<SummaryView, Fault<Seq<char>>>(
                Fault::MarkerMissing { marker: path_joined(sync.local, sync.ready_marker->0) },
            ),
        ),
{
    let marker = path_joined(sync.local, sync.ready_marker->0);
    let first = readiness_started(sync);
    let second = Readiness { root_found: true, ..first };
    assert(first.stepped(replies[0]) == Ok::<
        Progress<Readiness<Seq<char>>, RequestView, ()>,
        Fault<Seq<char>>,
    >(Progress::Ask(second, RequestView::IsFile { path: marker })));
    assert(second.stepped(replies[1]) == Err::<
        Progress<Readiness<Seq<char>>, RequestView, ()>,
        Fault<Seq<char>>,
    >(Fault::MarkerMissing { marker }));
    fails_next(
        two_way_step(),
        TwoWayRun { sync, stage: TwoWayStageView::Checking(first) },
        RequestView::IsDirectory { path: sync.local },
        TwoWayRun { sync, stage: TwoWayStageView::Checking(second) },
        RequestView::IsFile { path: marker },
        replies,
        Fault::MarkerMissing { marker },
    );
}

/// Where a two-way sync is when it asks for an upload.
spec fn asked_in_place(run: TwoWayRun, request: RequestView) -> bool {
    request is Upload ==> (run.stage matches TwoWayStageView::Uploading { uploads, .. }
        && uploads.stage is Sending)
}

spec fn asks_in_place(outcome: TwoWayOutcome) -> bool {
    outcome matches Ok(Progress::Ask(next, request)) ==> asked_in_place(next, request)
}

proof fn fetched_asks_in_place(
    sync: SyncConfigView,
    summary: SummaryView,
    remote_trash: Seq<TrashItemView>,
    local_trash: Seq<Seq<char>>,
    fetched: FetchedView,
)
    ensures
        asks_in_place(TwoWayRun::fetched(sync, summary, remote_trash, local_trash, fetched)),
{
}

proof fn uploaded_asks_in_place(
    sync: SyncConfigView,
    summary: SummaryView,
    downloads: Seq<FetchItemView>,
    remote_trash: Seq<TrashItemView>,
    local_trash: Seq<Seq<char>>,
    tally: UploadTallyView,
)
    ensures
        asks_in_place(
            TwoWayRun::uploaded(sync, summary, downloads, remote_trash, local_trash, tally),
        ),
{
    let after = SummaryView {
        uploaded: tally.uploaded,
        matched_remote: tally.matched_remote,
        ..summary
    };
    if let Ok(Progress::Done(fetched)) = fetch_prepared(sync, downloads).advanced() {
        fetched_asks_in_place(sync, after, remote_trash, local_trash, fetched);
    }
}

proof fn committed_asks_in_place(
    sync: SyncConfigView,
    summary: SummaryView,
    pending: Seq<PendingUpload<Seq<char>>>,
    downloads: Seq<FetchItemView>,
    remote_trash: Seq<TrashItemView>,
    local_trash: Seq<Seq<char>>,
)
    ensures
        asks_in_place(
            TwoWayRun::committed(sync, summary, pending, downloads, remote_trash, local_trash),
        ),
{
    if let Ok(Progress::Done(tally)) = uploads_prepared(sync, pending).begun() {
        uploaded_asks_in_place(sync, summary, downloads, remote_trash, local_trash, tally);
    }
}

proof fn listed_asks_in_place(
    sync: SyncConfigView,
    states: Map<Seq<char>, FileState<Seq<char>>>,
    scanned: ScannedView,
    local: Map<Seq<char>, LocalSnapshot<Seq<char>>>,
    tree: RemoteTreeView,
)
    ensures
        asks_in_place(TwoWayRun::listed(sync, states, scanned, local, tree)),
{
    let remote = unexcluded(scanned.patterns, tree.files);
    if let Ok(actions) = two_way_view(sync, local, remote, states).plan() {
        let work = work_for(sync.name, local, remote, actions);
        let summary = SummaryView {
            unchanged: work.checkpoints.len(),
            ..scan_summary(in_order(local.dom()).len(), scanned.symlinks.len())
        };
        committed_asks_in_place(
            sync,
            summary,
            work.uploads,
            work.downloads,
            work.remote_trash,
            work.local_trash,
        );
    }
}

proof fn fetch_asks(run: FetchView, reply: ReplyView)
    ensures
        run.stepped(reply) matches Ok(Progress::Ask(_, request)) ==> fetch_request(request),
{
}

proof fn two_way_asks_in_place(run: TwoWayRun, reply: ReplyView)
    ensures
        asks_in_place(run.stepped(reply)),
{
    let sync = run.sync;
    if run.before_plan() {
        if let TwoWayStageView::Listing { states, scanned, local, inventory } = run.stage {
            inventory_asks(inventory, reply);
            if let Ok(Progress::Done(tree)) = inventory.stepped(reply) {
                listed_asks_in_place(sync, states, scanned, local, tree);
            }
        } else {
            planning_is_harmless(run, reply);
        }
    } else {
        match run.stage {
            TwoWayStageView::Committing {
                summary,
                pending,
                downloads,
                remote_trash,
                local_trash,
                ..
            } => {
                committed_asks_in_place(
                    sync,
                    summary,
                    pending,
                    downloads,
                    remote_trash,
                    local_trash,
                );
            },
            TwoWayStageView::Uploading {
                summary,
                downloads,
                remote_trash,
                local_trash,
                uploads,
            } => {
                uploads_ask(uploads, reply);
                if let Ok(Progress::Done(tally)) = uploads.stepped(reply) {
                    uploaded_asks_in_place(
                        sync,
                        summary,
                        downloads,
                        remote_trash,
                        local_trash,
                        tally,
                    );
                }
            },
            TwoWayStageView::Fetching { summary, remote_trash, local_trash, fetch } => {
                fetch_asks(fetch, reply);
                if let Ok(Progress::Done(fetched)) = fetch.stepped(reply) {
                    fetched_asks_in_place(sync, summary, remote_trash, local_trash, fetched);
                }
            },
            _ => {},
        }
    }
}

/// Requests that a two-way sync makes only after its uploads.
pub open spec fn after_uploads(request: RequestView) -> bool {
    request is Download || request is Install || request is TrashRemote || request is TrashLocal
}

spec fn tainted(run: TwoWayRun) -> bool {
    run.stage matches TwoWayStageView::Uploading { uploads, .. } && uploads.failures.len() > 0
}

proof fn tainted_run_only_uploads(run: TwoWayRun, request: RequestView, replies: Seq<ReplyView>)
    requires
        tainted(run),
        !after_uploads(request),
    ensures
        forall|k: int|
            0 <= k < requests(two_way_step(), Progress::Ask(run, request), replies).len()
                ==> !after_uploads(
                #[trigger] requests(two_way_step(), Progress::Ask(run, request), replies)[k],
            ),
{
    let step = two_way_step();
    let sound = |run: TwoWayRun, request: RequestView| tainted(run) && !after_uploads(request);
    let good = |request: RequestView| !after_uploads(request);
    assert forall|run: TwoWayRun, request: RequestView, reply: ReplyView|
        #![trigger sound(run, request), step(run, reply)]
        sound(run, request) implies (step(run, reply) matches Ok(Progress::Ask(next, asked))
        ==> sound(next, asked)) by {
        uploads_ask(run.stage->Uploading_uploads, reply);
    }
    let at = Progress::<TwoWayRun, RequestView, SummaryView>::Ask(run, request);
    kept_by_steps(step, sound, good, at, replies);
    assert forall|k: int| 0 <= k < requests(step, at, replies).len() implies !after_uploads(
        #[trigger] requests(step, at, replies)[k],
    ) by {
        assert(good(requests(step, at, replies)[k]));
    }
}

proof fn only_uploads_from(
    at: Progress<TwoWayRun, RequestView, SummaryView>,
    replies: Seq<ReplyView>,
    i: int,
    j: int,
)
    requires
        at matches Progress::Ask(run, request) ==> asked_in_place(run, request),
        0 <= i < j < requests(two_way_step(), at, replies).len(),
        i < replies.len(),
        requests(two_way_step(), at, replies)[i] is Upload,
        replies[i] matches ReplyView::Uploaded(result) && result.failures.len() > 0,
    ensures
        !after_uploads(requests(two_way_step(), at, replies)[j]),
    decreases replies.len(),
{
    let step = two_way_step();
    let all = requests(step, at, replies);
    if let Progress::Ask(run, request) = at {
        if let Ok(next) = step(run, replies[0]) {
            let rest = requests(step, next, replies.drop_first());
            assert(forall|k: int| 0 < k < all.len() ==> all[k] == rest[k - 1]);
            two_way_asks_in_place(run, replies[0]);
            if i == 0 {
                assert(all[0] == request);
                let uploads = run.stage->Uploading_uploads;
                uploads_ask(uploads, replies[0]);
                if let Progress::Ask(after, asked) = next {
                    tainted_run_only_uploads(after, asked, replies.drop_first());
                }
            } else {
                assert(replies.drop_first()[i - 1] == replies[i]);
                only_uploads_from(next, replies.drop_first(), i - 1, j - 1);
            }
        }
    }
}

/// Once a file of an upload failed, a two-way sync brings nothing down and trashes nothing.
pub proof fn failed_upload_prevents_the_rest(
    sync: SyncConfigView,
    replies: Seq<ReplyView>,
    i: int,
    j: int,
)
    requires
        0 <= i < j < two_way_requests(sync, replies).len(),
        i < replies.len(),
        two_way_requests(sync, replies)[i] is Upload,
        replies[i] matches ReplyView::Uploaded(result) && result.failures.len() > 0,
    ensures
        !after_uploads(two_way_requests(sync, replies)[j]),
{
    only_uploads_from(two_way_started(sync), replies, i, j);
}

} // verus!
