//! What holds of every push, whatever it is answered.

use crate::cleanup::{cleanup_prepared, TrashItemView};
use crate::config::{DeletePolicy, SyncConfigView};
use crate::error::Fault;
use crate::exchange::{Progress, ReplyView, RequestView};
use crate::excludes::{managed, managed_contains};
use crate::inventory::RemoteTreeView;
use crate::places::path_joined;
use crate::plan::LocalFile;
use crate::push::{changed_among, changed_files, doomed, items_at, push_started, unchanged_since};
use crate::push::{PushBaseView, PushOutcome, PushStageView, PushView};
use crate::readiness::{readiness_started, Readiness};
use crate::scan::ScannedView;
use crate::soundness::{bounded_batch, cleanup_begins, cleanup_prepares, cleanup_steps, included};
use crate::soundness::{included_place, inventory_asks, inventory_steps, proper, scan_asks};
use crate::soundness::{scan_steps, sound_cleanup, sound_scan, sound_scanned, sound_uploads};
use crate::soundness::{spares_excluded, uploads_ask, uploads_begin, uploads_prepare, uploads_step};
use crate::state::{committed, unseen, FileCheckpoint, FileState};
use crate::summary::SummaryView;
use crate::text::{in_order, in_order_is_ordered};
use crate::trace::{ending, fails_at_once, fails_next, kept_by_steps, requests, Step};
use crate::uploads::{uploads_prepared, PendingUpload};
use vstd::prelude::*;

verus! {

/// The step function of a push.
pub open spec fn push_step() -> Step<PushView, SummaryView> {
    |run: PushView, reply: ReplyView| run.stepped(reply)
}

/// The requests of a push of `mirror` that is given `replies` one by one.
pub open spec fn push_requests(mirror: SyncConfigView, replies: Seq<ReplyView>) -> Seq<
    RequestView,
> {
    requests(push_step(), push_started(mirror), replies)
}

/// Where a push stands, and that everything before was as it should be.
spec fn sound_stage(sync: SyncConfigView, stage: PushStageView) -> bool {
    match stage {
        PushStageView::Checking(_) => true,
        PushStageView::Scanning(scan) => sound_scan(sync, scan),
        PushStageView::LoadingStates { scanned } => sound_scanned(sync, scanned),
        PushStageView::LoadingBaseline { scanned, .. } => sound_scanned(sync, scanned),
        PushStageView::Comparing { scanned, inventory, .. } => {
            &&& sync.delete == DeletePolicy::Trash
            &&& sound_scanned(sync, scanned)
            &&& inventory.tree.files.dom().finite()
        },
        PushStageView::Uploading { base, uploads } => sound_base(sync, base) && sound_uploads(
            sync,
            uploads,
        ),
        PushStageView::ListingStale { base } => sound_base(sync, base),
        PushStageView::Locating { base, inventory, .. } => {
            &&& sync.delete == DeletePolicy::Trash
            &&& sound_base(sync, base)
            &&& inventory.tree.files.dom().finite()
        },
        PushStageView::Forgetting { items, .. } => sound_items(sync, items),
        PushStageView::Trashing { cleanup, .. } => sync.delete == DeletePolicy::Trash
            && sound_cleanup(sync, cleanup),
        PushStageView::Finishing { .. } => true,
    }
}

spec fn sound_base(sync: SyncConfigView, base: PushBaseView) -> bool {
    &&& sound_scanned(sync, base.scanned)
    &&& base.tree matches Some(tree) ==> tree.files.dom().finite()
}

spec fn sound_items(sync: SyncConfigView, items: Seq<TrashItemView>) -> bool {
    &&& items.len() > 0 ==> sync.delete == DeletePolicy::Trash
    &&& forall|i: int| 0 <= i < items.len() ==> included(sync, (#[trigger] items[i]).path)
}

/// What a push may ask: what is proper; the metadata of files that are not excluded, but never
/// their content; and nothing is trashed unless deletions are carried over.
spec fn push_request(sync: SyncConfigView, request: RequestView) -> bool {
    &&& proper(sync, request)
    &&& request !is Hash && request !is Install && request !is Download
    &&& request !is TrashLocal
    &&& request matches RequestView::Stat { path } ==> included_place(sync, path)
    &&& request is TrashRemote ==> sync.delete == DeletePolicy::Trash
}

spec fn sound_push(sync: SyncConfigView) -> spec_fn(PushView, RequestView) -> bool {
    |run: PushView, request: RequestView|
        run.sync == sync && sound_stage(sync, run.stage) && push_request(sync, request)
}

spec fn sound_outcome(sync: SyncConfigView, outcome: PushOutcome) -> bool {
    outcome matches Ok(Progress::Ask(next, request)) ==> sound_push(sync)(next, request)
}

proof fn trashed_is_sound(sync: SyncConfigView, summary: SummaryView, items: Seq<TrashItemView>)
    requires
        sound_items(sync, items),
    ensures
        sound_outcome(sync, PushView::trashed(sync, summary, items)),
{
    cleanup_prepares(sync, items);
    cleanup_begins(sync, cleanup_prepared(sync, items));
    assert(items.len() == 0 ==> cleanup_prepared(sync, items).batches.len() == 0);
}

proof fn forgotten_is_sound(
    sync: SyncConfigView,
    summary: SummaryView,
    paths: Seq<Seq<char>>,
    items: Seq<TrashItemView>,
)
    requires
        sound_items(sync, items),
        forall|i: int| 0 <= i < paths.len() ==> included(sync, #[trigger] paths[i]),
    ensures
        sound_outcome(sync, PushView::forgotten(sync, summary, paths, items)),
{
    trashed_is_sound(sync, summary, items);
}

proof fn managed_is_included(sync: SyncConfigView, paths: Seq<Seq<char>>, except: Set<Seq<char>>)
    ensures
        forall|i: int|
            0 <= i < managed(sync.exclude, paths, except).len() ==> included(
                sync,
                #[trigger] managed(sync.exclude, paths, except)[i],
            ),
{
    let left = managed(sync.exclude, paths, except);
    assert forall|i: int| 0 <= i < left.len() implies included(sync, #[trigger] left[i]) by {
        managed_contains(sync.exclude, paths, except, left[i]);
    }
}

proof fn located_is_sound(
    sync: SyncConfigView,
    base: PushBaseView,
    stale: Seq<Seq<char>>,
    tree: RemoteTreeView,
)
    requires
        sync.delete == DeletePolicy::Trash,
        sound_base(sync, base),
        tree.files.dom().finite(),
    ensures
        sound_outcome(sync, PushView::located(sync, base, stale, tree)),
{
    let seen = base.scanned.files.dom();
    let paths = doomed(base.scanned.patterns, seen, base.baseline, stale, tree);
    let items = items_at(tree, paths);
    assert(paths.subset_of(tree.files.dom()));
    vstd::set_lib::lemma_set_subset_finite(tree.files.dom(), paths);
    in_order_is_ordered(paths);
    assert forall|i: int| 0 <= i < items.len() implies included(sync, (#[trigger] items[i]).path) by {
        let path = in_order(paths)[i];
        assert(in_order(paths).to_set().contains(path));
    }
    managed_is_included(sync, stale, tree.files.dom());
    forgotten_is_sound(
        sync,
        base.summary,
        managed(base.scanned.patterns, stale, tree.files.dom()),
        items,
    );
}

proof fn listed_is_sound(sync: SyncConfigView, base: PushBaseView, stale: Seq<Seq<char>>)
    requires
        sound_base(sync, base),
    ensures
        sound_outcome(sync, PushView::listed(sync, base, stale)),
{
    if sync.delete == DeletePolicy::Trash {
        if let Some(tree) = base.tree {
            located_is_sound(sync, base, stale, tree);
        }
    } else {
        managed_is_included(sync, stale, Set::empty());
        forgotten_is_sound(
            sync,
            base.summary,
            managed(base.scanned.patterns, stale, Set::empty()),
            Seq::empty(),
        );
    }
}

proof fn changed_come_from(
    files: Map<Seq<char>, LocalFile<Seq<char>>>,
    states: Map<Seq<char>, FileState<Seq<char>>>,
    paths: Seq<Seq<char>>,
    count: nat,
)
    requires
        count <= paths.len(),
    ensures
        forall|i: int|
            0 <= i < changed_among(files, states, paths, count).len() ==> exists|k: int|
                0 <= k < count && (#[trigger] changed_among(files, states, paths, count)[i]).file
                    == files[#[trigger] paths[k]],
        changed_among(files, states, paths, count).len() <= count,
    decreases count,
{
    if count > 0 {
        changed_come_from(files, states, paths, (count - 1) as nat);
        let before = changed_among(files, states, paths, (count - 1) as nat);
        let all = changed_among(files, states, paths, count);
        assert forall|i: int| 0 <= i < all.len() implies exists|k: int|
            0 <= k < count && (#[trigger] all[i]).file == files[#[trigger] paths[k]] by {
            if i < before.len() {
                assert(all[i] == before[i]);
                let k = choose|k: int|
                    0 <= k < count - 1 && before[i].file == files[#[trigger] paths[k]];
                assert(0 <= k < count);
            } else {
                assert(all[i].file == files[paths[count - 1]]);
            }
        }
    }
}

proof fn reconciled_is_sound(
    sync: SyncConfigView,
    scanned: ScannedView,
    states: Map<Seq<char>, FileState<Seq<char>>>,
    baseline: bool,
    tree: Option<RemoteTreeView>,
)
    requires
        sound_scanned(sync, scanned),
        tree matches Some(tree) ==> tree.files.dom().finite(),
    ensures
        sound_outcome(sync, PushView::reconciled(sync, scanned, states, baseline, tree)),
{
    let changed = changed_files(scanned.files, states);
    let paths = in_order(scanned.files.dom());
    in_order_is_ordered(scanned.files.dom());
    changed_come_from(scanned.files, states, paths, paths.len());
    assert forall|i: int| 0 <= i < changed.len() implies included(
        sync,
        (#[trigger] changed[i]).file.relative,
    ) by {
        let k = choose|k: int|
            0 <= k < paths.len() && changed_among(
                scanned.files,
                states,
                paths,
                paths.len(),
            )[i].file == scanned.files[#[trigger] paths[k]];
        assert(paths.to_set().contains(paths[k]));
        assert(scanned.files.contains_key(paths[k]));
    }
    uploads_prepare(sync, changed);
    uploads_begin(sync, uploads_prepared(sync, changed));
}

proof fn push_stays_sound(sync: SyncConfigView, run: PushView, reply: ReplyView)
    requires
        run.sync == sync,
        sound_stage(sync, run.stage),
    ensures
        sound_outcome(sync, run.stepped(reply)),
{
    match run.stage {
        PushStageView::Checking(_) => {},
        PushStageView::Scanning(scan) => {
            scan_steps(sync, scan, reply);
        },
        PushStageView::LoadingStates { .. } => {},
        PushStageView::LoadingBaseline { scanned, states } => {
            if let ReplyView::Value(value) = reply {
                reconciled_is_sound(sync, scanned, states, value == Some("1"@), None);
            }
        },
        PushStageView::Comparing { scanned, states, inventory } => {
            inventory_steps(inventory, reply);
            if let Ok(Progress::Done(tree)) = inventory.stepped(reply) {
                reconciled_is_sound(sync, scanned, states, false, Some(tree));
            }
        },
        PushStageView::Uploading { base, uploads } => {
            uploads_step(sync, uploads, reply);
        },
        PushStageView::ListingStale { base } => {
            if let ReplyView::Paths(paths) = reply {
                listed_is_sound(
                    sync,
                    base,
                    unseen(paths, base.scanned.files.dom()),
                );
            }
        },
        PushStageView::Locating { base, stale, inventory } => {
            inventory_steps(inventory, reply);
            if let Ok(Progress::Done(tree)) = inventory.stepped(reply) {
                located_is_sound(sync, base, stale, tree);
            }
        },
        PushStageView::Forgetting { summary, items } => {
            trashed_is_sound(sync, summary, items);
        },
        PushStageView::Trashing { summary, cleanup } => {
            cleanup_steps(sync, cleanup, reply);
        },
        PushStageView::Finishing { .. } => {},
    }
}

proof fn push_asks_soundly(mirror: SyncConfigView, replies: Seq<ReplyView>)
    ensures
        forall|i: int|
            0 <= i < push_requests(mirror, replies).len() ==> push_request(
                mirror,
                #[trigger] push_requests(mirror, replies)[i],
            ),
{
    let step = push_step();
    let sound = sound_push(mirror);
    let good = |request: RequestView| push_request(mirror, request);
    assert forall|run: PushView, request: RequestView, reply: ReplyView|
        #![trigger sound(run, request), step(run, reply)]
        sound(run, request) implies (step(run, reply) matches Ok(Progress::Ask(next, asked))
        ==> sound(next, asked)) by {
        push_stays_sound(mirror, run, reply);
    }
    kept_by_steps(step, sound, good, push_started(mirror), replies);
    assert forall|i: int| 0 <= i < push_requests(mirror, replies).len() implies push_request(
        mirror,
        #[trigger] push_requests(mirror, replies)[i],
    ) by {
        assert(good(requests(step, push_started(mirror), replies)[i]));
    }
}

/// A push uploads, trashes, remembers and forgets only files at paths that are not excluded, reads
/// no content, and looks at no file that is excluded.
pub proof fn push_leaves_excluded_paths_alone(mirror: SyncConfigView, replies: Seq<ReplyView>)
    ensures
        forall|i: int|
            0 <= i < push_requests(mirror, replies).len() ==> {
                let request = #[trigger] push_requests(mirror, replies)[i];
                &&& spares_excluded(mirror, request)
                &&& request !is Hash
                &&& request matches RequestView::Stat { path } ==> included_place(mirror, path)
            },
{
    push_asks_soundly(mirror, replies);
}

/// Every batch of a push is bounded and none is empty.
pub proof fn push_batches_are_bounded(mirror: SyncConfigView, replies: Seq<ReplyView>)
    ensures
        forall|i: int|
            0 <= i < push_requests(mirror, replies).len() ==> bounded_batch(
                #[trigger] push_requests(mirror, replies)[i],
            ),
{
    push_asks_soundly(mirror, replies);
}

/// A push changes nothing locally, and trashes nothing remotely unless deletions are carried over.
pub proof fn push_only_trashes_when_told_to(mirror: SyncConfigView, replies: Seq<ReplyView>)
    ensures
        forall|i: int|
            0 <= i < push_requests(mirror, replies).len() ==> {
                let request = #[trigger] push_requests(mirror, replies)[i];
                &&& request !is TrashLocal
                &&& request !is Install
                &&& mirror.delete == DeletePolicy::Keep ==> request !is TrashRemote
            },
{
    push_asks_soundly(mirror, replies);
}

/// Where a push is when it asks for an upload.
spec fn asked_in_place(run: PushView, request: RequestView) -> bool {
    request is Upload ==> (run.stage matches PushStageView::Uploading { uploads, .. }
        && uploads.stage is Sending)
}

/// A push some upload of which failed.
spec fn tainted(run: PushView) -> bool {
    run.stage matches PushStageView::Uploading { uploads, .. } && uploads.failures.len() > 0
}

proof fn push_asks_in_place(run: PushView, reply: ReplyView)
    ensures
        run.stepped(reply) matches Ok(Progress::Ask(next, request)) ==> asked_in_place(
            next,
            request,
        ),
{
    match run.stage {
        PushStageView::Scanning(scan) => {
            scan_asks(scan, reply);
        },
        PushStageView::Comparing { inventory, .. } => {
            inventory_asks(inventory, reply);
        },
        PushStageView::Locating { inventory, .. } => {
            inventory_asks(inventory, reply);
        },
        PushStageView::Uploading { uploads, .. } => {
            uploads_ask(uploads, reply);
        },
        _ => {},
    }
}

proof fn tainted_push_never_trashes(
    run: PushView,
    request: RequestView,
    replies: Seq<ReplyView>,
)
    requires
        tainted(run),
        request !is TrashRemote,
    ensures
        forall|k: int|
            0 <= k < requests(push_step(), Progress::Ask(run, request), replies).len() ==> (
            #[trigger] requests(push_step(), Progress::Ask(run, request), replies)[k])
                !is TrashRemote,
{
    let step = push_step();
    let sound = |run: PushView, request: RequestView| tainted(run) && request !is TrashRemote;
    let good = |request: RequestView| request !is TrashRemote;
    assert forall|run: PushView, request: RequestView, reply: ReplyView|
        #![trigger sound(run, request), step(run, reply)]
        sound(run, request) implies (step(run, reply) matches Ok(Progress::Ask(next, asked))
        ==> sound(next, asked)) by {
        uploads_ask(run.stage->Uploading_uploads, reply);
    }
    let at = Progress::<PushView, RequestView, SummaryView>::Ask(run, request);
    kept_by_steps(step, sound, good, at, replies);
    assert forall|k: int| 0 <= k < requests(step, at, replies).len() implies (
    #[trigger] requests(step, at, replies)[k]) !is TrashRemote by {
        assert(good(requests(step, at, replies)[k]));
    }
}

proof fn no_cleanup_from(
    at: Progress<PushView, RequestView, SummaryView>,
    replies: Seq<ReplyView>,
    i: int,
    j: int,
)
    requires
        at matches Progress::Ask(run, request) ==> asked_in_place(run, request),
        0 <= i < j < requests(push_step(), at, replies).len(),
        i < replies.len(),
        requests(push_step(), at, replies)[i] is Upload,
        replies[i] matches ReplyView::Uploaded(result) && result.failures.len() > 0,
    ensures
        requests(push_step(), at, replies)[j] !is TrashRemote,
    decreases replies.len(),
{
    let step = push_step();
    let all = requests(step, at, replies);
    if let Progress::Ask(run, request) = at {
        if let Ok(next) = step(run, replies[0]) {
            let rest = requests(step, next, replies.drop_first());
            assert(forall|k: int| 0 < k < all.len() ==> all[k] == rest[k - 1]);
            push_asks_in_place(run, replies[0]);
            if i == 0 {
                assert(all[0] == request);
                let uploads = run.stage->Uploading_uploads;
                uploads_ask(uploads, replies[0]);
                if let Progress::Ask(after, asked) = next {
                    tainted_push_never_trashes(after, asked, replies.drop_first());
                }
            } else {
                assert(replies.drop_first()[i - 1] == replies[i]);
                no_cleanup_from(next, replies.drop_first(), i - 1, j - 1);
            }
        }
    }
}

/// Once a file of an upload failed, the push moves nothing to the trash.
pub proof fn failed_upload_prevents_cleanup(
    mirror: SyncConfigView,
    replies: Seq<ReplyView>,
    i: int,
    j: int,
)
    requires
        0 <= i < j < push_requests(mirror, replies).len(),
        i < replies.len(),
        push_requests(mirror, replies)[i] is Upload,
        replies[i] matches ReplyView::Uploaded(result) && result.failures.len() > 0,
    ensures
        push_requests(mirror, replies)[j] !is TrashRemote,
{
    no_cleanup_from(push_started(mirror), replies, i, j);
}

/// A push that is past its uploads.
spec fn past_uploads(run: PushView) -> bool {
    run.stage is ListingStale || run.stage is Locating || run.stage is Forgetting
        || run.stage is Trashing || run.stage is Finishing
}

spec fn trash_in_place(run: PushView, request: RequestView) -> bool {
    request is TrashRemote ==> past_uploads(run)
}

proof fn push_trashes_in_place(run: PushView, reply: ReplyView)
    ensures
        run.stepped(reply) matches Ok(Progress::Ask(next, request)) ==> trash_in_place(
            next,
            request,
        ) && (past_uploads(run) ==> past_uploads(next) && request !is Upload),
{
    match run.stage {
        PushStageView::Scanning(scan) => {
            scan_asks(scan, reply);
        },
        PushStageView::Comparing { inventory, .. } => {
            inventory_asks(inventory, reply);
        },
        PushStageView::Locating { inventory, .. } => {
            inventory_asks(inventory, reply);
        },
        PushStageView::Uploading { uploads, .. } => {
            uploads_ask(uploads, reply);
        },
        _ => {},
    }
}

proof fn past_uploads_stays(run: PushView, request: RequestView, replies: Seq<ReplyView>)
    requires
        past_uploads(run),
        request !is Upload,
    ensures
        forall|k: int|
            0 <= k < requests(push_step(), Progress::Ask(run, request), replies).len() ==> (
            #[trigger] requests(push_step(), Progress::Ask(run, request), replies)[k]) !is Upload,
{
    let step = push_step();
    let sound = |run: PushView, request: RequestView| past_uploads(run) && request !is Upload;
    let good = |request: RequestView| request !is Upload;
    assert forall|run: PushView, request: RequestView, reply: ReplyView|
        #![trigger sound(run, request), step(run, reply)]
        sound(run, request) implies (step(run, reply) matches Ok(Progress::Ask(next, asked))
        ==> sound(next, asked)) by {
        push_trashes_in_place(run, reply);
    }
    let at = Progress::<PushView, RequestView, SummaryView>::Ask(run, request);
    kept_by_steps(step, sound, good, at, replies);
    assert forall|k: int| 0 <= k < requests(step, at, replies).len() implies (
    #[trigger] requests(step, at, replies)[k]) !is Upload by {
        assert(good(requests(step, at, replies)[k]));
    }
}

proof fn cleanup_last_from(
    at: Progress<PushView, RequestView, SummaryView>,
    replies: Seq<ReplyView>,
    i: int,
    j: int,
)
    requires
        at matches Progress::Ask(run, request) ==> trash_in_place(run, request),
        0 <= i < j < requests(push_step(), at, replies).len(),
        requests(push_step(), at, replies)[i] is TrashRemote,
    ensures
        requests(push_step(), at, replies)[j] !is Upload,
    decreases replies.len(),
{
    let step = push_step();
    let all = requests(step, at, replies);
    if let Progress::Ask(run, request) = at {
        if i == 0 {
            assert(all[0] == request);
            past_uploads_stays(run, request, replies);
        } else if let Ok(next) = step(run, replies[0]) {
            let rest = requests(step, next, replies.drop_first());
            assert(forall|k: int| 0 < k < all.len() ==> all[k] == rest[k - 1]);
            push_trashes_in_place(run, replies[0]);
            cleanup_last_from(next, replies.drop_first(), i - 1, j - 1);
        }
    }
}

/// Remote cleanup begins only after the last upload.
pub proof fn cleanup_follows_every_upload(
    mirror: SyncConfigView,
    replies: Seq<ReplyView>,
    i: int,
    j: int,
)
    requires
        0 <= i < j < push_requests(mirror, replies).len(),
        push_requests(mirror, replies)[i] is TrashRemote,
    ensures
        push_requests(mirror, replies)[j] !is Upload,
{
    cleanup_last_from(push_started(mirror), replies, i, j);
}

/// A local root that is not there ends a push before it looks at anything else.
pub proof fn missing_root_stops_a_push(mirror: SyncConfigView, replies: Seq<ReplyView>)
    requires
        replies.len() > 0,
        replies[0] == ReplyView::Flag(false),
    ensures
        push_requests(mirror, replies) == seq![RequestView::IsDirectory { path: mirror.local }],
        ending(push_step(), push_started(mirror), replies) == Some(
            Err::<SummaryView, Fault<Seq<char>>>(Fault::RootMissing { root: mirror.local }),
        ),
{
    let run = PushView {
        sync: mirror,
        stage: PushStageView::Checking(readiness_started(mirror)),
    };
    let fault = Fault::RootMissing { root: mirror.local };
    assert(readiness_started(mirror).stepped(replies[0]) == Err::<
        Progress<Readiness<Seq<char>>, RequestView, ()>,
        Fault<Seq<char>>,
    >(fault));
    fails_at_once(
        push_step(),
        run,
        RequestView::IsDirectory { path: mirror.local },
        replies,
        fault,
    );
}

/// A readiness marker that is not there ends a push before it looks at anything but the root.
pub proof fn missing_marker_stops_a_push(mirror: SyncConfigView, replies: Seq<ReplyView>)
    requires
        mirror.ready_marker is Some,
        replies.len() > 1,
        replies[0] == ReplyView::Flag(true),
        replies[1] == ReplyView::Flag(false),
    ensures
        push_requests(mirror, replies) == seq![
            RequestView::IsDirectory { path: mirror.local },
            RequestView::IsFile { path: path_joined(mirror.local, mirror.ready_marker->0) },
        ],
        ending(push_step(), push_started(mirror), replies) == Some(
            Err::<SummaryView, Fault<Seq<char>>>(
                Fault::MarkerMissing { marker: path_joined(mirror.local, mirror.ready_marker->0) },
            ),
        ),
{
    let marker = path_joined(mirror.local, mirror.ready_marker->0);
    let first = readiness_started(mirror);
    let second = Readiness { root_found: true, ..first };
    assert(first.stepped(replies[0]) == Ok::<
        Progress<Readiness<Seq<char>>, RequestView, ()>,
        Fault<Seq<char>>,
    >(Progress::Ask(second, RequestView::IsFile { path: marker })));
    assert(second.stepped(replies[1]) == Err::<
        Progress<Readiness<Seq<char>>, RequestView, ()>,
        Fault<Seq<char>>,
    >(Fault::MarkerMissing { marker }));
    fails_next(
        push_step(),
        PushView { sync: mirror, stage: PushStageView::Checking(first) },
        RequestView::IsDirectory { path: mirror.local },
        PushView { sync: mirror, stage: PushStageView::Checking(second) },
        RequestView::IsFile { path: marker },
        replies,
        Fault::MarkerMissing { marker },
    );
}

proof fn committed_holds(
    states: Map<Seq<char>, FileState<Seq<char>>>,
    checkpoints: Seq<FileCheckpoint<Seq<char>>>,
    path: Seq<char>,
    size: u64,
    mtime_ns: i64,
)
    requires
        forall|i: int|
            0 <= i < checkpoints.len() && (#[trigger] checkpoints[i]).path == path
                ==> checkpoints[i].size == size && checkpoints[i].mtime_ns == mtime_ns,
        (states.contains_key(path) && states[path].size == size && states[path].mtime_ns
            == mtime_ns) || exists|i: int|
            0 <= i < checkpoints.len() && (#[trigger] checkpoints[i]).path == path,
    ensures
        committed(states, checkpoints).contains_key(path),
        committed(states, checkpoints)[path].size == size,
        committed(states, checkpoints)[path].mtime_ns == mtime_ns,
    decreases checkpoints.len(),
{
    if checkpoints.len() > 0 {
        let before = checkpoints.drop_last();
        assert(checkpoints[checkpoints.len() - 1] == checkpoints.last());
        if checkpoints.last().path != path {
            assert forall|i: int|
                0 <= i < before.len() && (#[trigger] before[i]).path == path implies before[i].size
                == size && before[i].mtime_ns == mtime_ns by {
                assert(before[i] == checkpoints[i]);
            }
            if exists|i: int| 0 <= i < checkpoints.len() && (#[trigger] checkpoints[i]).path
                == path {
                let i = choose|i: int|
                    0 <= i < checkpoints.len() && (#[trigger] checkpoints[i]).path == path;
                assert(before[i].path == path);
            }
            committed_holds(states, before, path, size, mtime_ns);
        }
    }
}

proof fn changed_holds(
    files: Map<Seq<char>, LocalFile<Seq<char>>>,
    states: Map<Seq<char>, FileState<Seq<char>>>,
    paths: Seq<Seq<char>>,
    count: nat,
    k: int,
)
    requires
        0 <= k < count <= paths.len(),
        !unchanged_since(states, files[paths[k]]),
    ensures
        exists|i: int|
            0 <= i < changed_among(files, states, paths, count).len() && (
            #[trigger] changed_among(files, states, paths, count)[i]).file == files[paths[k]],
    decreases count,
{
    let before = changed_among(files, states, paths, (count - 1) as nat);
    let all = changed_among(files, states, paths, count);
    if k < count - 1 {
        changed_holds(files, states, paths, (count - 1) as nat, k);
        let i = choose|i: int|
            0 <= i < before.len() && (#[trigger] before[i]).file == files[paths[k]];
        assert(all[i] == before[i]);
    } else {
        assert(all[before.len() as int].file == files[paths[k]]);
    }
}

proof fn unchanged_gives_nothing(
    files: Map<Seq<char>, LocalFile<Seq<char>>>,
    states: Map<Seq<char>, FileState<Seq<char>>>,
    paths: Seq<Seq<char>>,
    count: nat,
)
    requires
        count <= paths.len(),
        forall|k: int|
            0 <= k < count ==> unchanged_since(states, files[#[trigger] paths[k]]),
    ensures
        changed_among(files, states, paths, count) == Seq::<PendingUpload<Seq<char>>>::empty(),
    decreases count,
{
    if count > 0 {
        unchanged_gives_nothing(files, states, paths, (count - 1) as nat);
    }
}

/// Files are uploaded once: when everything that was to be uploaded is remembered, a further push
/// of the same files has nothing to upload.
pub proof fn remembered_files_are_not_uploaded_again(
    sync: SyncConfigView,
    files: Map<Seq<char>, LocalFile<Seq<char>>>,
    states: Map<Seq<char>, FileState<Seq<char>>>,
)
    requires
        files.dom().finite(),
        forall|path: Seq<char>| #[trigger]
            files.contains_key(path) ==> files[path].relative == path,
    ensures
        ({
            let uploads = changed_files(files, states);
            let run = uploads_prepared(sync, uploads);
            let checkpoints = uploads.map_values(
                |upload: PendingUpload<Seq<char>>| run.checkpoint(upload),
            );
            changed_files(files, committed(states, checkpoints)) == Seq::<
                PendingUpload<Seq<char>>,
            >::empty()
        }),
{
    let uploads = changed_files(files, states);
    let run = uploads_prepared(sync, uploads);
    let checkpoints = uploads.map_values(
        |upload: PendingUpload<Seq<char>>| run.checkpoint(upload),
    );
    let paths = in_order(files.dom());
    in_order_is_ordered(files.dom());
    changed_come_from(files, states, paths, paths.len());
    let after = committed(states, checkpoints);
    assert forall|k: int| 0 <= k < paths.len() implies unchanged_since(
        after,
        files[#[trigger] paths[k]],
    ) by {
        let path = paths[k];
        assert(paths.to_set().contains(path));
        let file = files[path];
        assert forall|i: int|
            0 <= i < checkpoints.len() && (#[trigger] checkpoints[i]).path == path implies checkpoints[i].size
            == file.size && checkpoints[i].mtime_ns == file.mtime_ns by {
            let upload = changed_among(files, states, paths, paths.len())[i];
            assert(checkpoints[i] == run.checkpoint(upload));
            let m = choose|m: int|
                0 <= m < paths.len() && changed_among(files, states, paths, paths.len())[i].file
                    == files[#[trigger] paths[m]];
            assert(paths.to_set().contains(paths[m]));
            assert(files.contains_key(paths[m]));
        }
        if !unchanged_since(states, file) {
            changed_holds(files, states, paths, paths.len(), k);
            let i = choose|i: int|
                0 <= i < changed_among(files, states, paths, paths.len()).len() && (
                #[trigger] changed_among(files, states, paths, paths.len())[i]).file == file;
            assert(checkpoints[i] == run.checkpoint(uploads[i]));
            assert(checkpoints[i].path == path);
        }
        committed_holds(states, checkpoints, path, file.size, file.mtime_ns);
    }
    unchanged_gives_nothing(files, after, paths, paths.len());
}

} // verus!
