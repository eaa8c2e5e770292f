//! What holds of every pull, whatever it is answered.

use crate::config::{DeletePolicy, SyncConfigView};
use crate::error::Fault;
use crate::exchange::{Progress, ReplyView, RequestView};
use crate::excludes::managed_contains;
use crate::fetch::{fetch_prepared, FetchedView};
use crate::inventory::RemoteTreeView;
use crate::places::path_joined;
use crate::pull::{fetch_items, local_only, pull_started, pulled_paths, PullOutcome, PullStageView};
use crate::pull::PullView;
use crate::readiness::{readiness_started, Readiness};
use crate::removal::removal_prepared;
use crate::scan::ScannedView;
use crate::soundness::{bounded_batch, fetch_advances, fetch_prepares, fetch_steps, included};
use crate::soundness::{inventory_steps, proper, removal_begins, removal_steps, scan_steps};
use crate::soundness::{sound_fetch, sound_removal, sound_scan, sound_scanned, spares_excluded};
use crate::state::unseen;
use crate::summary::{scan_summary, SummaryView};
use crate::text::{in_order, in_order_is_ordered};
use crate::trace::{ending, fails_at_once, fails_next, kept_by_steps, requests, Step};
use vstd::prelude::*;

verus! {

/// The step function of a pull.
pub open spec fn pull_step() -> Step<PullView, SummaryView> {
    |run: PullView, reply: ReplyView| run.stepped(reply)
}

/// The requests of a pull of `sync` that is given `replies` one by one.
pub open spec fn pull_requests(sync: SyncConfigView, replies: Seq<ReplyView>) -> Seq<RequestView> {
    requests(pull_step(), pull_started(sync), replies)
}

spec fn all_included(sync: SyncConfigView, paths: Seq<Seq<char>>) -> bool {
    forall|i: int| 0 <= i < paths.len() ==> included(sync, #[trigger] paths[i])
}

spec fn sound_stage(sync: SyncConfigView, stage: PullStageView) -> bool {
    match stage {
        PullStageView::Checking(_) => true,
        PullStageView::Scanning(scan) => sound_scan(sync, scan),
        PullStageView::Listing { scanned, inventory } => sound_scanned(sync, scanned)
            && inventory.tree.files.dom().finite(),
        PullStageView::Fetching { gone, fetch, .. } => all_included(sync, gone) && sound_fetch(
            sync,
            fetch,
        ),
        PullStageView::Removing { removal, .. } => sync.delete == DeletePolicy::Trash
            && sound_removal(sync, removal),
        PullStageView::Forgetting { .. } => true,
    }
}

/// What a pull may ask: what is proper, nothing that changes the remote side, and no local file is
/// trashed unless deletions are carried over.
spec fn pull_request(sync: SyncConfigView, request: RequestView) -> bool {
    &&& proper(sync, request)
    &&& request !is Upload && request !is CreateFolder && request !is TrashRemote
    &&& request is TrashLocal ==> sync.delete == DeletePolicy::Trash
}

spec fn sound_pull(sync: SyncConfigView) -> spec_fn(PullView, RequestView) -> bool {
    |run: PullView, request: RequestView|
        run.sync == sync && sound_stage(sync, run.stage) && pull_request(sync, request)
}

spec fn sound_outcome(sync: SyncConfigView, outcome: PullOutcome) -> bool {
    outcome matches Ok(Progress::Ask(next, request)) ==> sound_pull(sync)(next, request)
}

proof fn fetched_is_sound(
    sync: SyncConfigView,
    summary: SummaryView,
    gone: Seq<Seq<char>>,
    fetched: FetchedView,
)
    requires
        all_included(sync, gone),
    ensures
        sound_outcome(sync, PullView::fetched(sync, summary, gone, fetched)),
{
    removal_begins(sync, removal_prepared(sync, gone));
}

/// What is left over of a list is of the list.
pub proof fn unseen_comes_from(paths: Seq<Seq<char>>, seen: Set<Seq<char>>, path: Seq<char>)
    ensures
        unseen(paths, seen).contains(path) <==> paths.contains(path) && !seen.contains(path),
    decreases paths.len(),
{
    if paths.len() > 0 {
        let before = paths.drop_last();
        let rest = unseen(before, seen);
        let all = unseen(paths, seen);
        unseen_comes_from(before, seen, path);
        if before.contains(path) {
            let k = choose|k: int| 0 <= k < before.len() && before[k] == path;
            assert(paths[k] == path);
        }
        if paths.contains(path) && path != paths.last() {
            let k = choose|k: int| 0 <= k < paths.len() && paths[k] == path;
            assert(before[k] == path);
        }
        if rest.contains(path) {
            let k = choose|k: int| 0 <= k < rest.len() && rest[k] == path;
            assert(all[k] == path);
        }
        if all.contains(path) && path != paths.last() {
            let k = choose|k: int| 0 <= k < all.len() && all[k] == path;
            assert(rest[k] == path);
        }
        if path == paths.last() {
            assert(paths[paths.len() - 1] == path);
            if !seen.contains(path) {
                assert(all[rest.len() as int] == path);
            }
        }
    }
}

proof fn listed_is_sound(sync: SyncConfigView, scanned: ScannedView, tree: RemoteTreeView)
    requires
        sound_scanned(sync, scanned),
    ensures
        sound_outcome(sync, PullView::listed(sync, scanned, tree)),
{
    let paths = pulled_paths(scanned.patterns, tree);
    let items = fetch_items(paths, tree, scanned.files);
    let gone = local_only(scanned.files, paths);
    let all = in_order(scanned.files.dom());
    in_order_is_ordered(scanned.files.dom());
    assert forall|i: int| 0 <= i < items.len() implies included(sync, (#[trigger] items[i]).path) by {
        managed_contains(sync.exclude, in_order(tree.files.dom()), Set::empty(), paths[i]);
        assert(paths.contains(paths[i]));
    }
    assert forall|i: int| 0 <= i < gone.len() implies included(sync, #[trigger] gone[i]) by {
        unseen_comes_from(all, paths.to_set(), gone[i]);
        assert(gone.contains(gone[i]));
        assert(all.to_set().contains(gone[i]));
        assert(scanned.files.contains_key(gone[i]));
    }
    fetch_prepares(sync, items);
    fetch_advances(sync, fetch_prepared(sync, items));
    let summary = scan_summary(all.len(), scanned.symlinks.len());
    if let Ok(Progress::Done(fetched)) = fetch_prepared(sync, items).advanced() {
        fetched_is_sound(sync, summary, gone, fetched);
    }
}

proof fn pull_stays_sound(sync: SyncConfigView, run: PullView, reply: ReplyView)
    requires
        run.sync == sync,
        sound_stage(sync, run.stage),
    ensures
        sound_outcome(sync, run.stepped(reply)),
{
    match run.stage {
        PullStageView::Checking(_) => {},
        PullStageView::Scanning(scan) => {
            scan_steps(sync, scan, reply);
        },
        PullStageView::Listing { scanned, inventory } => {
            inventory_steps(inventory, reply);
            if let Ok(Progress::Done(tree)) = inventory.stepped(reply) {
                listed_is_sound(sync, scanned, tree);
            }
        },
        PullStageView::Fetching { summary, gone, fetch } => {
            fetch_steps(sync, fetch, reply);
            if let Ok(Progress::Done(fetched)) = fetch.stepped(reply) {
                fetched_is_sound(sync, summary, gone, fetched);
            }
        },
        PullStageView::Removing { removal, .. } => {
            removal_steps(sync, removal, reply);
        },
        PullStageView::Forgetting { .. } => {},
    }
}

proof fn pull_asks_soundly(sync: SyncConfigView, replies: Seq<ReplyView>)
    ensures
        forall|i: int|
            0 <= i < pull_requests(sync, replies).len() ==> pull_request(
                sync,
                #[trigger] pull_requests(sync, replies)[i],
            ),
{
    let step = pull_step();
    let sound = sound_pull(sync);
    let good = |request: RequestView| pull_request(sync, request);
    assert forall|run: PullView, request: RequestView, reply: ReplyView|
        #![trigger sound(run, request), step(run, reply)]
        sound(run, request) implies (step(run, reply) matches Ok(Progress::Ask(next, asked))
        ==> sound(next, asked)) by {
        pull_stays_sound(sync, run, reply);
    }
    kept_by_steps(step, sound, good, pull_started(sync), replies);
    assert forall|i: int| 0 <= i < pull_requests(sync, replies).len() implies pull_request(
        sync,
        #[trigger] pull_requests(sync, replies)[i],
    ) by {
        assert(good(requests(step, pull_started(sync), replies)[i]));
    }
}

/// A pull downloads, installs, trashes, remembers and forgets only files at paths that are not
/// excluded.
pub proof fn pull_leaves_excluded_paths_alone(sync: SyncConfigView, replies: Seq<ReplyView>)
    ensures
        forall|i: int|
            0 <= i < pull_requests(sync, replies).len() ==> spares_excluded(
                sync,
                #[trigger] pull_requests(sync, replies)[i],
            ),
{
    pull_asks_soundly(sync, replies);
}

/// Every transaction of a pull is bounded and none is empty.
pub proof fn pull_batches_are_bounded(sync: SyncConfigView, replies: Seq<ReplyView>)
    ensures
        forall|i: int|
            0 <= i < pull_requests(sync, replies).len() ==> bounded_batch(
                #[trigger] pull_requests(sync, replies)[i],
            ),
{
    pull_asks_soundly(sync, replies);
}

/// A pull changes nothing remotely, and trashes nothing locally unless deletions are carried over.
pub proof fn pull_only_trashes_when_told_to(sync: SyncConfigView, replies: Seq<ReplyView>)
    ensures
        forall|i: int|
            0 <= i < pull_requests(sync, replies).len() ==> {
                let request = #[trigger] pull_requests(sync, replies)[i];
                &&& request !is Upload
                &&& request !is CreateFolder
                &&& request !is TrashRemote
                &&& sync.delete == DeletePolicy::Keep ==> request !is TrashLocal
            },
{
    pull_asks_soundly(sync, replies);
}

/// A local root that is not there ends a pull before it looks at anything else.
pub proof fn missing_root_stops_a_pull(sync: SyncConfigView, replies: Seq<ReplyView>)
    requires
        replies.len() > 0,
        replies[0] == ReplyView::Flag(false),
    ensures
        pull_requests(sync, replies) == seq![RequestView::IsDirectory { path: sync.local }],
        ending(pull_step(), pull_started(sync), replies) == Some(
            Err::<SummaryView, Fault<Seq<char>>>(Fault::RootMissing { root: sync.local }),
        ),
{
    let fault = Fault::RootMissing { root: sync.local };
    assert(readiness_started(sync).stepped(replies[0]) == Err::<
        Progress<Readiness<Seq<char>>, RequestView, ()>,
        Fault<Seq<char>>,
    >(fault));
    fails_at_once(
        pull_step(),
        PullView { sync, stage: PullStageView::Checking(readiness_started(sync)) },
        RequestView::IsDirectory { path: sync.local },
        replies,
        fault,
    );
}

/// A readiness marker that is not there ends a pull before it looks at anything but the root.
pub proof fn missing_marker_stops_a_pull(sync: SyncConfigView, replies: Seq<ReplyView>)
    requires
        sync.ready_marker is Some,
        replies.len() > 1,
        replies[0] == ReplyView::Flag(true),
        replies[1] == ReplyView::Flag(false),
    ensures
        pull_requests(sync, replies) == seq![
            RequestView::IsDirectory { path: sync.local },
            RequestView::IsFile { path: path_joined(sync.local, sync.ready_marker->0) },
        ],
        ending(pull_step(), pull_started(sync), replies) == Some(
            Err::<SummaryView, Fault<Seq<char>>>(
                Fault::MarkerMissing { marker: path_joined(sync.local, sync.ready_marker->0) },
            ),
        ),
{
    let marker = path_joined(sync.local, sync.ready_marker->0);
    let first = readiness_started(sync);
    let second = Readiness { root_found: true, ..first };
    assert(first.stepped(replies[0]) == Ok::<
        Progress<Readiness<Seq<char>>, RequestView, ()>,
        Fault<Seq<char>>,
    >(Progress::Ask(second, RequestView::IsFile { path: marker })));
    assert(second.stepped(replies[1]) == Err::<
        Progress<Readiness<Seq<char>>, RequestView, ()>,
        Fault<Seq<char>>,
    >(Fault::MarkerMissing { marker }));
    fails_next(
        pull_step(),
        PullView { sync, stage: PullStageView::Checking(first) },
        RequestView::IsDirectory { path: sync.local },
        PullView { sync, stage: PullStageView::Checking(second) },
        RequestView::IsFile { path: marker },
        replies,
        Fault::MarkerMissing { marker },
    );
}

} // verus!
