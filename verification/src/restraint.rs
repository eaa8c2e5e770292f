//! A run does nothing that it was not to do.

use crate::batches::chunked;
use crate::cleanup::{cleanup_prepared, trash_targets, CleanupView, TrashItemView, TRASH_BATCH_SIZE};
use crate::config::SyncConfigView;
use crate::drive::{RemoteFileView, TrashTargetView};
use crate::exchange::{Progress, ReplyView, RequestView};
use crate::fetch::{fetch_prepared, FetchItemView, FetchStage, FetchView};
use crate::inventory::RemoteTreeView;
use crate::paths::drive_path;
use crate::plan::{two_way_view, LocalFile, LocalSnapshot, TwoWayAction};
use crate::pull::{local_only, pulled_paths, PullStageView, PullView};
use crate::pull_laws::pull_step;
use crate::push::{changed_among, changed_files, doomed, items_at, unchanged_since, PushBaseView};
use crate::push::{PushStageView, PushView};
use crate::push_laws::push_step;
use crate::scan::{local_path_of, ScannedView};
use crate::soundness::{chunks_come_from, inventory_asks, sound_job, upload_jobs_are_sound};
use crate::state::FileState;
use crate::text::{in_order, in_order_is_ordered};
use crate::trace::{kept_by_steps, requests};
use crate::two_way::{unexcluded, work_for, TwoWayRun, TwoWayStageView, WorkView};
use crate::two_way_laws::two_way_step;
use crate::uploads::{uploads_prepared, PendingUpload, UploadsView};
use vstd::prelude::*;

verus! {

/// An upload command whose files are all among `uploads`; any other request.
pub open spec fn sends_only(
    request: RequestView,
    root: Seq<char>,
    uploads: Seq<PendingUpload<Seq<char>>>,
) -> bool {
    request matches RequestView::Upload { files, .. } ==> forall|i: int|
        0 <= i < files.len() ==> is_sent(#[trigger] files[i], root, uploads)
}

/// A local file that is among `uploads`.
pub open spec fn is_sent(
    file: Seq<char>,
    root: Seq<char>,
    uploads: Seq<PendingUpload<Seq<char>>>,
) -> bool {
    exists|u: int|
        0 <= u < uploads.len() && file == local_path_of(
            root,
            (#[trigger] uploads[u]).file.relative,
        )
}

/// A trash command whose files are all among `items`; any other request.
pub open spec fn trashes_only(
    request: RequestView,
    remote: Seq<char>,
    items: Seq<TrashItemView>,
) -> bool {
    request matches RequestView::TrashRemote { targets } ==> forall|i: int|
        0 <= i < targets.len() ==> is_trashed(#[trigger] targets[i], remote, items)
}

/// A remote file that is among `items`.
pub open spec fn is_trashed(
    target: TrashTargetView,
    remote: Seq<char>,
    items: Seq<TrashItemView>,
) -> bool {
    exists|k: int|
        0 <= k < items.len() && target == (TrashTargetView {
            remote_path: drive_path(remote, (#[trigger] items[k]).path),
            uid: items[k].file.uid,
        })
}

/// A removal of a local file at one of `paths`; any other request.
pub open spec fn removes_only(
    request: RequestView,
    root: Seq<char>,
    paths: Seq<Seq<char>>,
) -> bool {
    request matches RequestView::TrashLocal { path } ==> exists|k: int|
        0 <= k < paths.len() && path == local_path_of(root, #[trigger] paths[k])
}

/// A file put in the place of one of `items`; any other request.
pub open spec fn installs_only(
    request: RequestView,
    root: Seq<char>,
    items: Seq<FetchItemView>,
) -> bool {
    request matches RequestView::Install { target, .. } ==> exists|k: int|
        0 <= k < items.len() && target == local_path_of(root, (#[trigger] items[k]).path)
}

spec fn limited_uploads(
    run: UploadsView,
    root: Seq<char>,
    uploads: Seq<PendingUpload<Seq<char>>>,
) -> bool {
    &&& run.root == root
    &&& forall|j: int|
        #![trigger run.jobs[j]]
        0 <= j < run.jobs.len() ==> forall|i: int|
            0 <= i < run.jobs[j].uploads.len() ==> uploads.contains(
                #[trigger] run.jobs[j].uploads[i],
            )
}

proof fn sent_is_limited(run: UploadsView, root: Seq<char>, uploads: Seq<PendingUpload<Seq<char>>>)
    requires
        limited_uploads(run, root, uploads),
        run.at < run.jobs.len(),
    ensures
        run.sent() matches Ok(Progress::Ask(next, asked)) && limited_uploads(next, root, uploads)
            && sends_only(asked, root, uploads) && asked is Upload,
{
    let job = run.jobs[run.at as int];
    let files = run.sources(job.uploads);
    assert forall|i: int| 0 <= i < files.len() implies is_sent(
        #[trigger] files[i],
        root,
        uploads,
    ) by {
        assert(uploads.contains(run.jobs[run.at as int].uploads[i]));
        let u = choose|u: int| 0 <= u < uploads.len() && uploads[u] == job.uploads[i];
        assert(files[i] == local_path_of(root, uploads[u].file.relative));
    }
}

proof fn begun_uploads_are_limited(
    run: UploadsView,
    root: Seq<char>,
    uploads: Seq<PendingUpload<Seq<char>>>,
)
    requires
        limited_uploads(run, root, uploads),
    ensures
        run.begun() matches Ok(Progress::Ask(next, asked)) ==> limited_uploads(next, root, uploads)
            && sends_only(asked, root, uploads) && asked !is TrashRemote && asked !is TrashLocal
            && asked !is Install,
{
    if run.at < run.jobs.len() {
        sent_is_limited(run, root, uploads);
    }
}

proof fn uploads_are_limited(
    run: UploadsView,
    root: Seq<char>,
    uploads: Seq<PendingUpload<Seq<char>>>,
    reply: ReplyView,
)
    requires
        limited_uploads(run, root, uploads),
    ensures
        run.stepped(reply) matches Ok(Progress::Ask(next, asked)) ==> limited_uploads(
            next,
            root,
            uploads,
        ) && sends_only(asked, root, uploads) && asked !is TrashRemote && asked !is TrashLocal
            && asked !is Install,
{
    if run.at < run.jobs.len() {
        sent_is_limited(run, root, uploads);
        begun_uploads_are_limited(UploadsView { at: run.at + 1, ..run }, root, uploads);
        if let ReplyView::Uploaded(result) = reply {
            begun_uploads_are_limited(
                UploadsView { at: run.at + 1, ..run.tallied(result) },
                root,
                uploads,
            );
        }
    }
}

proof fn prepared_uploads_are_limited(
    sync: SyncConfigView,
    uploads: Seq<PendingUpload<Seq<char>>>,
)
    ensures
        limited_uploads(uploads_prepared(sync, uploads), sync.local, uploads),
{
    let run = uploads_prepared(sync, uploads);
    upload_jobs_are_sound(uploads);
    assert forall|j: int| #![trigger run.jobs[j]] 0 <= j < run.jobs.len() implies (forall|i: int|
        0 <= i < run.jobs[j].uploads.len() ==> uploads.contains(
            #[trigger] run.jobs[j].uploads[i],
        )) by {
        assert(sound_job(run.jobs[j], uploads));
    }
}

spec fn limited_cleanup(run: CleanupView, remote: Seq<char>, items: Seq<TrashItemView>) -> bool {
    &&& run.remote == remote
    &&& forall|b: int|
        #![trigger run.batches[b]]
        0 <= b < run.batches.len() ==> forall|i: int|
            0 <= i < run.batches[b].len() ==> items.contains(#[trigger] run.batches[b][i])
}

proof fn begun_cleanup_is_limited(run: CleanupView, remote: Seq<char>, items: Seq<TrashItemView>)
    requires
        limited_cleanup(run, remote, items),
    ensures
        run.begun() matches Ok(Progress::Ask(next, asked)) ==> limited_cleanup(next, remote, items)
            && trashes_only(asked, remote, items) && asked is TrashRemote,
{
    if run.at < run.batches.len() {
        let batch = run.batches[run.at as int];
        let targets = trash_targets(remote, batch);
        assert forall|i: int| 0 <= i < targets.len() implies is_trashed(
            #[trigger] targets[i],
            remote,
            items,
        ) by {
            assert(items.contains(run.batches[run.at as int][i]));
            let k = choose|k: int| 0 <= k < items.len() && items[k] == batch[i];
            assert(targets[i].uid == items[k].file.uid);
        }
    }
}

proof fn cleanup_is_limited(
    run: CleanupView,
    remote: Seq<char>,
    items: Seq<TrashItemView>,
    reply: ReplyView,
)
    requires
        limited_cleanup(run, remote, items),
    ensures
        run.stepped(reply) matches Ok(Progress::Ask(next, asked)) ==> limited_cleanup(
            next,
            remote,
            items,
        ) && trashes_only(asked, remote, items) && (asked is TrashRemote || asked is DeleteStates),
{
    if run.at < run.batches.len() {
        begun_cleanup_is_limited(CleanupView { at: run.at + 1, ..run }, remote, items);
        if let ReplyView::Trashed(result) = reply {
            begun_cleanup_is_limited(
                CleanupView { at: run.at + 1, ..run.tallied(result) },
                remote,
                items,
            );
        }
    }
}

proof fn prepared_cleanup_is_limited(sync: SyncConfigView, items: Seq<TrashItemView>)
    ensures
        limited_cleanup(cleanup_prepared(sync, items), sync.remote, items),
{
    let size = TRASH_BATCH_SIZE as int;
    chunks_come_from(items, size);
    let run = cleanup_prepared(sync, items);
    assert forall|b: int| #![trigger run.batches[b]] 0 <= b < run.batches.len() implies (forall|
        i: int,
    |
        0 <= i < run.batches[b].len() ==> items.contains(#[trigger] run.batches[b][i])) by {
        assert forall|i: int| 0 <= i < run.batches[b].len() implies items.contains(
            #[trigger] run.batches[b][i],
        ) by {
            assert(items.contains(chunked(items, size)[b][i]));
        }
    }
}

spec fn limited_fetch(run: FetchView, sync: SyncConfigView, items: Seq<FetchItemView>) -> bool {
    &&& run.sync == sync
    &&& run.items == items
    &&& run.stage matches FetchStage::Downloading(download) ==> run.at < items.len()
        && download.target == local_path_of(sync.local, items[run.at as int].path)
}

proof fn advanced_fetch_is_limited(run: FetchView, sync: SyncConfigView, items: Seq<FetchItemView>)
    requires
        run.sync == sync,
        run.items == items,
    ensures
        run.advanced() matches Ok(Progress::Ask(next, asked)) ==> limited_fetch(next, sync, items)
            && installs_only(asked, sync.local, items) && asked !is Upload && asked !is TrashRemote
            && asked !is TrashLocal,
{
}

proof fn fetch_is_limited(
    run: FetchView,
    sync: SyncConfigView,
    items: Seq<FetchItemView>,
    reply: ReplyView,
)
    requires
        limited_fetch(run, sync, items),
    ensures
        run.stepped(reply) matches Ok(Progress::Ask(next, asked)) ==> limited_fetch(
            next,
            sync,
            items,
        ) && installs_only(asked, sync.local, items) && asked !is Upload && asked !is TrashRemote
            && asked !is TrashLocal,
{
    if run.at < items.len() {
        assert(installs_only(
            RequestView::Install {
                staged: Seq::empty(),
                target: local_path_of(sync.local, items[run.at as int].path),
            },
            sync.local,
            items,
        ));
    }
}

proof fn changed_come_from_changes(
    files: Map<Seq<char>, LocalFile<Seq<char>>>,
    states: Map<Seq<char>, FileState<Seq<char>>>,
    paths: Seq<Seq<char>>,
    count: nat,
)
    requires
        count <= paths.len(),
        forall|k: int| 0 <= k < count ==> files.contains_key(#[trigger] paths[k]),
    ensures
        forall|i: int|
            0 <= i < changed_among(files, states, paths, count).len() ==> exists|path: Seq<char>|
                files.contains_key(path) && !unchanged_since(states, files[path]) && (
                #[trigger] changed_among(files, states, paths, count)[i]).file
                    == #[trigger] files[path],
    decreases count,
{
    if count > 0 {
        changed_come_from_changes(files, states, paths, (count - 1) as nat);
        let rest = changed_among(files, states, paths, (count - 1) as nat);
        let all = changed_among(files, states, paths, count);
        assert forall|i: int| 0 <= i < all.len() implies exists|path: Seq<char>|
            files.contains_key(path) && !unchanged_since(states, files[path]) && (
            #[trigger] all[i]).file == #[trigger] files[path] by {
            if i < rest.len() {
                assert(all[i] == rest[i]);
            } else {
                assert(files.contains_key(paths[count - 1]));
                assert(all[i].file == files[paths[count - 1]]);
            }
        }
    }
}

/// A local file that is new or has changed.
pub open spec fn is_changed(
    file: Seq<char>,
    root: Seq<char>,
    files: Map<Seq<char>, LocalFile<Seq<char>>>,
    states: Map<Seq<char>, FileState<Seq<char>>>,
) -> bool {
    exists|path: Seq<char>|
        files.contains_key(path) && !unchanged_since(states, files[path]) && file == local_path_of(
            root,
            (#[trigger] files[path]).relative,
        )
}

/// An upload command whose files are all new or have changed; any other request.
pub open spec fn sends_changes(
    request: RequestView,
    root: Seq<char>,
    files: Map<Seq<char>, LocalFile<Seq<char>>>,
    states: Map<Seq<char>, FileState<Seq<char>>>,
) -> bool {
    request matches RequestView::Upload { files: sent, .. } ==> forall|k: int|
        0 <= k < sent.len() ==> is_changed(#[trigger] sent[k], root, files, states)
}

/// A push sends no file but those that are new or have changed.
pub proof fn only_changed_files_are_sent(
    sync: SyncConfigView,
    scanned: ScannedView,
    states: Map<Seq<char>, FileState<Seq<char>>>,
    baseline: bool,
    tree: Option<RemoteTreeView>,
    replies: Seq<ReplyView>,
)
    requires
        scanned.files.dom().finite(),
        PushView::reconciled(sync, scanned, states, baseline, tree) is Ok,
    ensures
        ({
            let start = PushView::reconciled(sync, scanned, states, baseline, tree)->Ok_0;
            forall|i: int|
                0 <= i < requests(push_step(), start, replies).len() ==> sends_changes(
                    #[trigger] requests(push_step(), start, replies)[i],
                    sync.local,
                    scanned.files,
                    states,
                )
        }),
{
    let start = PushView::reconciled(sync, scanned, states, baseline, tree)->Ok_0;
    let files = scanned.files;
    let paths = in_order(files.dom());
    let uploads = changed_files(files, states);
    in_order_is_ordered(files.dom());
    assert forall|k: int| 0 <= k < paths.len() implies files.contains_key(#[trigger] paths[k]) by {
        assert(paths.to_set().contains(paths[k]));
    }
    changed_come_from_changes(files, states, paths, paths.len());
    prepared_uploads_are_limited(sync, uploads);
    begun_uploads_are_limited(uploads_prepared(sync, uploads), sync.local, uploads);
    let step = push_step();
    let sound = |run: PushView, request: RequestView|
        {
            &&& sends_only(request, sync.local, uploads)
            &&& match run.stage {
                PushStageView::Uploading { uploads: sending, .. } => limited_uploads(
                    sending,
                    sync.local,
                    uploads,
                ),
                PushStageView::ListingStale { .. } => true,
                PushStageView::Locating { .. } => true,
                PushStageView::Forgetting { .. } => true,
                PushStageView::Trashing { .. } => true,
                PushStageView::Finishing { .. } => true,
                _ => false,
            }
        };
    let good = |request: RequestView| sends_only(request, sync.local, uploads);
    assert forall|run: PushView, request: RequestView, reply: ReplyView|
        #![trigger sound(run, request), step(run, reply)]
        sound(run, request) implies (step(run, reply) matches Ok(Progress::Ask(next, asked))
        ==> sound(next, asked)) by {
        match run.stage {
            PushStageView::Uploading { uploads: sending, .. } => uploads_are_limited(
                sending,
                sync.local,
                uploads,
                reply,
            ),
            PushStageView::Locating { inventory, .. } => inventory_asks(inventory, reply),
            _ => {},
        }
    }
    kept_by_steps(step, sound, good, start, replies);
    let asked = requests(step, start, replies);
    assert forall|i: int| 0 <= i < asked.len() implies sends_changes(
        #[trigger] asked[i],
        sync.local,
        files,
        states,
    ) by {
        assert(good(asked[i]));
        if let RequestView::Upload { files: sent, .. } = asked[i] {
            assert forall|k: int| 0 <= k < sent.len() implies is_changed(
                #[trigger] sent[k],
                sync.local,
                files,
                states,
            ) by {
                assert(is_sent(sent[k], sync.local, uploads));
                let u = choose|u: int|
                    0 <= u < uploads.len() && sent[k] == local_path_of(
                        sync.local,
                        (#[trigger] uploads[u]).file.relative,
                    );
                let path = choose|path: Seq<char>|
                    files.contains_key(path) && !unchanged_since(states, files[path])
                        && uploads[u].file == #[trigger] files[path];
                assert(sent[k] == local_path_of(sync.local, files[path].relative));
            }
        }
    }
}

/// The remote file at one of `paths`.
pub open spec fn is_target(
    target: TrashTargetView,
    remote: Seq<char>,
    tree: RemoteTreeView,
    paths: Set<Seq<char>>,
) -> bool {
    exists|path: Seq<char>| #[trigger]
        paths.contains(path) && target == (TrashTargetView {
            remote_path: drive_path(remote, path),
            uid: tree.files[path].uid,
        })
}

/// A trash command whose files are all at `paths`; any other request.
pub open spec fn trashes_at(
    request: RequestView,
    remote: Seq<char>,
    tree: RemoteTreeView,
    paths: Set<Seq<char>>,
) -> bool {
    request matches RequestView::TrashRemote { targets } ==> forall|k: int|
        0 <= k < targets.len() ==> is_target(#[trigger] targets[k], remote, tree, paths)
}

/// A push moves no remote file to the trash but those that are gone locally: files that were pushed
/// before, and, as long as the remote tree was never compared, files that were never local.
pub proof fn only_doomed_files_are_trashed(
    sync: SyncConfigView,
    base: PushBaseView,
    stale: Seq<Seq<char>>,
    tree: RemoteTreeView,
    replies: Seq<ReplyView>,
)
    requires
        tree.files.dom().finite(),
        PushView::located(sync, base, stale, tree) is Ok,
    ensures
        ({
            let start = PushView::located(sync, base, stale, tree)->Ok_0;
            let gone = doomed(
                base.scanned.patterns,
                base.scanned.files.dom(),
                base.baseline,
                stale,
                tree,
            );
            forall|i: int|
                0 <= i < requests(push_step(), start, replies).len() ==> trashes_at(
                    #[trigger] requests(push_step(), start, replies)[i],
                    sync.remote,
                    tree,
                    gone,
                )
        }),
{
    let start = PushView::located(sync, base, stale, tree)->Ok_0;
    let gone = doomed(
        base.scanned.patterns,
        base.scanned.files.dom(),
        base.baseline,
        stale,
        tree,
    );
    assert(gone.subset_of(tree.files.dom()));
    vstd::set_lib::lemma_set_subset_finite(tree.files.dom(), gone);
    in_order_is_ordered(gone);
    let paths = in_order(gone);
    let items = items_at(tree, gone);
    prepared_cleanup_is_limited(sync, items);
    begun_cleanup_is_limited(cleanup_prepared(sync, items), sync.remote, items);
    let step = push_step();
    let sound = |run: PushView, request: RequestView|
        {
            &&& run.sync == sync
            &&& trashes_only(request, sync.remote, items)
            &&& match run.stage {
                PushStageView::Forgetting { items: left, .. } => left == items,
                PushStageView::Trashing { cleanup, .. } => limited_cleanup(
                    cleanup,
                    sync.remote,
                    items,
                ),
                PushStageView::Finishing { .. } => true,
                _ => false,
            }
        };
    let good = |request: RequestView| trashes_only(request, sync.remote, items);
    assert forall|run: PushView, request: RequestView, reply: ReplyView|
        #![trigger sound(run, request), step(run, reply)]
        sound(run, request) implies (step(run, reply) matches Ok(Progress::Ask(next, asked))
        ==> sound(next, asked)) by {
        if let PushStageView::Trashing { cleanup, .. } = run.stage {
            cleanup_is_limited(cleanup, sync.remote, items, reply);
        }
    }
    kept_by_steps(step, sound, good, start, replies);
    let asked = requests(step, start, replies);
    assert forall|i: int| 0 <= i < asked.len() implies trashes_at(
        #[trigger] asked[i],
        sync.remote,
        tree,
        gone,
    ) by {
        assert(good(asked[i]));
        if let RequestView::TrashRemote { targets } = asked[i] {
            assert forall|k: int| 0 <= k < targets.len() implies is_target(
                #[trigger] targets[k],
                sync.remote,
                tree,
                gone,
            ) by {
                assert(is_trashed(targets[k], sync.remote, items));
                let m = choose|m: int|
                    0 <= m < items.len() && targets[k] == (TrashTargetView {
                        remote_path: drive_path(sync.remote, (#[trigger] items[m]).path),
                        uid: items[m].file.uid,
                    });
                assert(paths.to_set().contains(paths[m]));
                assert(gone.contains(items[m].path));
            }
        }
    }
}

/// A pull moves no local file to the trash but those that are gone remotely.
pub proof fn only_gone_files_are_removed(
    sync: SyncConfigView,
    scanned: ScannedView,
    tree: RemoteTreeView,
    replies: Seq<ReplyView>,
)
    requires
        PullView::listed(sync, scanned, tree) is Ok,
    ensures
        ({
            let start = PullView::listed(sync, scanned, tree)->Ok_0;
            let lost = local_only(scanned.files, pulled_paths(scanned.patterns, tree));
            forall|i: int|
                0 <= i < requests(pull_step(), start, replies).len() ==> removes_only(
                    #[trigger] requests(pull_step(), start, replies)[i],
                    sync.local,
                    lost,
                )
        }),
{
    let start = PullView::listed(sync, scanned, tree)->Ok_0;
    let lost = local_only(scanned.files, pulled_paths(scanned.patterns, tree));
    let step = pull_step();
    let sound = |run: PullView, request: RequestView|
        {
            &&& run.sync == sync
            &&& removes_only(request, sync.local, lost)
            &&& match run.stage {
                PullStageView::Fetching { gone, fetch, .. } => gone == lost && limited_fetch(
                    fetch,
                    sync,
                    fetch.items,
                ),
                PullStageView::Removing { removal, .. } => removal.root == sync.local
                    && removal.paths == lost,
                PullStageView::Forgetting { .. } => true,
                _ => false,
            }
        };
    let good = |request: RequestView| removes_only(request, sync.local, lost);
    assert forall|run: PullView, request: RequestView, reply: ReplyView|
        #![trigger sound(run, request), step(run, reply)]
        sound(run, request) implies (step(run, reply) matches Ok(Progress::Ask(next, asked))
        ==> sound(next, asked)) by {
        if let PullStageView::Fetching { fetch, .. } = run.stage {
            fetch_is_limited(fetch, sync, fetch.items, reply);
        }
    }
    kept_by_steps(step, sound, good, start, replies);
    assert forall|i: int| 0 <= i < requests(step, start, replies).len() implies removes_only(
        #[trigger] requests(step, start, replies)[i],
        sync.local,
        lost,
    ) by {
        assert(good(requests(step, start, replies)[i]));
    }
}

/// A local file whose upload is planned.
pub open spec fn is_planned_upload(
    file: Seq<char>,
    root: Seq<char>,
    local: Map<Seq<char>, LocalSnapshot<Seq<char>>>,
    actions: Seq<TwoWayAction<Seq<char>>>,
) -> bool {
    exists|path: Seq<char>, sha1: Seq<char>| #[trigger]
        actions.contains(TwoWayAction::Upload { path, sha1 }) && file == local_path_of(
            root,
            local[path].file.relative,
        )
}

/// A remote file that is planned to go to the trash.
pub open spec fn is_planned_trash(
    target: TrashTargetView,
    remote_root: Seq<char>,
    remote: Map<Seq<char>, RemoteFileView>,
    actions: Seq<TwoWayAction<Seq<char>>>,
) -> bool {
    exists|path: Seq<char>| #[trigger]
        actions.contains(TwoWayAction::TrashRemote { path }) && target == (TrashTargetView {
            remote_path: drive_path(remote_root, path),
            uid: remote[path].uid,
        })
}

/// A request that changes no file on either side, or changes only files that an action is about.
pub open spec fn is_planned(
    request: RequestView,
    sync: SyncConfigView,
    local: Map<Seq<char>, LocalSnapshot<Seq<char>>>,
    remote: Map<Seq<char>, RemoteFileView>,
    actions: Seq<TwoWayAction<Seq<char>>>,
) -> bool {
    match request {
        RequestView::Upload { files, .. } => forall|k: int|
            0 <= k < files.len() ==> is_planned_upload(
                #[trigger] files[k],
                sync.local,
                local,
                actions,
            ),
        RequestView::TrashRemote { targets } => forall|k: int|
            0 <= k < targets.len() ==> is_planned_trash(
                #[trigger] targets[k],
                sync.remote,
                remote,
                actions,
            ),
        RequestView::TrashLocal { path: place } => exists|path: Seq<char>| #[trigger]
            actions.contains(TwoWayAction::TrashLocal { path }) && place == local_path_of(
                sync.local,
                path,
            ),
        RequestView::Install { target, .. } => exists|path: Seq<char>| #[trigger]
            actions.contains(TwoWayAction::Download { path }) && target == local_path_of(
                sync.local,
                path,
            ),
        _ => true,
    }
}

spec fn work_has_reasons(
    work: WorkView,
    local: Map<Seq<char>, LocalSnapshot<Seq<char>>>,
    remote: Map<Seq<char>, RemoteFileView>,
    actions: Seq<TwoWayAction<Seq<char>>>,
) -> bool {
    &&& forall|k: int|
        0 <= k < work.uploads.len() ==> exists|path: Seq<char>, sha1: Seq<char>| #[trigger]
            actions.contains(TwoWayAction::Upload { path, sha1 }) && (
            #[trigger] work.uploads[k]).file == local[path].file
    &&& forall|k: int|
        0 <= k < work.downloads.len() ==> actions.contains(
            TwoWayAction::Download { path: (#[trigger] work.downloads[k]).path },
        )
    &&& forall|k: int|
        0 <= k < work.remote_trash.len() ==> actions.contains(
            TwoWayAction::TrashRemote { path: (#[trigger] work.remote_trash[k]).path },
        ) && work.remote_trash[k].file == remote[work.remote_trash[k].path]
    &&& forall|k: int|
        0 <= k < work.local_trash.len() ==> actions.contains(
            TwoWayAction::TrashLocal { path: #[trigger] work.local_trash[k] },
        )
}

proof fn work_comes_from(
    mirror: Seq<char>,
    local: Map<Seq<char>, LocalSnapshot<Seq<char>>>,
    remote: Map<Seq<char>, RemoteFileView>,
    actions: Seq<TwoWayAction<Seq<char>>>,
)
    ensures
        work_has_reasons(work_for(mirror, local, remote, actions), local, remote, actions),
    decreases actions.len(),
{
    if actions.len() > 0 {
        let before = actions.drop_last();
        work_comes_from(mirror, local, remote, before);
        let work = work_for(mirror, local, remote, before);
        let all = work_for(mirror, local, remote, actions);
        assert(forall|action: TwoWayAction<Seq<char>>|
            before.contains(action) ==> #[trigger] actions.contains(action));
        assert(actions.contains(actions.last()));
        assert forall|k: int| 0 <= k < all.uploads.len() implies exists|
            path: Seq<char>,
            sha1: Seq<char>,
        | #[trigger]
            actions.contains(TwoWayAction::Upload { path, sha1 }) && (
            #[trigger] all.uploads[k]).file == local[path].file by {
            if k < work.uploads.len() {
                assert(all.uploads[k] == work.uploads[k]);
                let (path, sha1) = choose|path: Seq<char>, sha1: Seq<char>| #[trigger]
                    before.contains(TwoWayAction::Upload { path, sha1 })
                        && work.uploads[k].file == local[path].file;
                assert(actions.contains(TwoWayAction::Upload { path, sha1 }));
            } else {
                let action = actions.last();
                assert(actions.contains(
                    TwoWayAction::Upload { path: action->Upload_path, sha1: action->Upload_sha1 },
                ));
            }
        }
        assert forall|k: int| 0 <= k < all.downloads.len() implies actions.contains(
            TwoWayAction::Download { path: (#[trigger] all.downloads[k]).path },
        ) by {
            if k < work.downloads.len() {
                assert(all.downloads[k] == work.downloads[k]);
            }
        }
        assert forall|k: int| 0 <= k < all.remote_trash.len() implies actions.contains(
            TwoWayAction::TrashRemote { path: (#[trigger] all.remote_trash[k]).path },
        ) && all.remote_trash[k].file == remote[all.remote_trash[k].path] by {
            if k < work.remote_trash.len() {
                assert(all.remote_trash[k] == work.remote_trash[k]);
            }
        }
        assert forall|k: int| 0 <= k < all.local_trash.len() implies actions.contains(
            TwoWayAction::TrashLocal { path: #[trigger] all.local_trash[k] },
        ) by {
            if k < work.local_trash.len() {
                assert(all.local_trash[k] == work.local_trash[k]);
            }
        }
    }
}

spec fn serves(request: RequestView, sync: SyncConfigView, work: WorkView) -> bool {
    &&& sends_only(request, sync.local, work.uploads)
    &&& installs_only(request, sync.local, work.downloads)
    &&& trashes_only(request, sync.remote, work.remote_trash)
    &&& removes_only(request, sync.local, work.local_trash)
}

proof fn what_serves_is_planned(
    request: RequestView,
    sync: SyncConfigView,
    local: Map<Seq<char>, LocalSnapshot<Seq<char>>>,
    remote: Map<Seq<char>, RemoteFileView>,
    actions: Seq<TwoWayAction<Seq<char>>>,
    work: WorkView,
)
    requires
        work_has_reasons(work, local, remote, actions),
        serves(request, sync, work),
    ensures
        is_planned(request, sync, local, remote, actions),
{
    match request {
        RequestView::Upload { files, .. } => {
            assert forall|k: int| 0 <= k < files.len() implies is_planned_upload(
                #[trigger] files[k],
                sync.local,
                local,
                actions,
            ) by {
                assert(is_sent(files[k], sync.local, work.uploads));
            }
        },
        RequestView::TrashRemote { targets } => {
            assert forall|k: int| 0 <= k < targets.len() implies is_planned_trash(
                #[trigger] targets[k],
                sync.remote,
                remote,
                actions,
            ) by {
                assert(is_trashed(targets[k], sync.remote, work.remote_trash));
            }
        },
        _ => {},
    }
}

/// A two-way sync sends, installs and trashes no file but those that its plan says so of.
pub proof fn only_planned_changes_are_made(
    sync: SyncConfigView,
    states: Map<Seq<char>, FileState<Seq<char>>>,
    scanned: ScannedView,
    local: Map<Seq<char>, LocalSnapshot<Seq<char>>>,
    tree: RemoteTreeView,
    replies: Seq<ReplyView>,
)
    requires
        TwoWayRun::listed(sync, states, scanned, local, tree) is Ok,
    ensures
        ({
            let start = TwoWayRun::listed(sync, states, scanned, local, tree)->Ok_0;
            let remote = unexcluded(scanned.patterns, tree.files);
            let actions = two_way_view(sync, local, remote, states).plan()->Ok_0;
            forall|i: int|
                0 <= i < requests(two_way_step(), start, replies).len() ==> is_planned(
                    #[trigger] requests(two_way_step(), start, replies)[i],
                    sync,
                    local,
                    remote,
                    actions,
                )
        }),
{
    let start = TwoWayRun::listed(sync, states, scanned, local, tree)->Ok_0;
    let remote = unexcluded(scanned.patterns, tree.files);
    let actions = two_way_view(sync, local, remote, states).plan()->Ok_0;
    let work = work_for(sync.name, local, remote, actions);
    work_comes_from(sync.name, local, remote, actions);
    prepared_uploads_are_limited(sync, work.uploads);
    begun_uploads_are_limited(uploads_prepared(sync, work.uploads), sync.local, work.uploads);
    advanced_fetch_is_limited(fetch_prepared(sync, work.downloads), sync, work.downloads);
    prepared_cleanup_is_limited(sync, work.remote_trash);
    begun_cleanup_is_limited(
        cleanup_prepared(sync, work.remote_trash),
        sync.remote,
        work.remote_trash,
    );
    let step = two_way_step();
    let sound = |run: TwoWayRun, request: RequestView|
        {
            &&& run.sync == sync
            &&& serves(request, sync, work)
            &&& match run.stage {
                TwoWayStageView::Committing {
                    pending,
                    downloads,
                    remote_trash,
                    local_trash,
                    ..
                } => pending == work.uploads && downloads == work.downloads && remote_trash
                    == work.remote_trash && local_trash == work.local_trash,
                TwoWayStageView::Uploading { downloads, remote_trash, local_trash, uploads, .. } =>
                    downloads == work.downloads && remote_trash == work.remote_trash
                        && local_trash == work.local_trash && limited_uploads(
                        uploads,
                        sync.local,
                        work.uploads,
                    ),
                TwoWayStageView::Fetching { remote_trash, local_trash, fetch, .. } => remote_trash
                    == work.remote_trash && local_trash == work.local_trash && limited_fetch(
                    fetch,
                    sync,
                    work.downloads,
                ),
                TwoWayStageView::Trashing { local_trash, cleanup, .. } => local_trash
                    == work.local_trash && limited_cleanup(
                    cleanup,
                    sync.remote,
                    work.remote_trash,
                ),
                TwoWayStageView::Removing { removal, .. } => removal.root == sync.local
                    && removal.paths == work.local_trash,
                _ => false,
            }
        };
    let good = |request: RequestView| serves(request, sync, work);
    assert forall|run: TwoWayRun, request: RequestView, reply: ReplyView|
        #![trigger sound(run, request), step(run, reply)]
        sound(run, request) implies (step(run, reply) matches Ok(Progress::Ask(next, asked))
        ==> sound(next, asked)) by {
        match run.stage {
            TwoWayStageView::Uploading { uploads, .. } => uploads_are_limited(
                uploads,
                sync.local,
                work.uploads,
                reply,
            ),
            TwoWayStageView::Fetching { fetch, .. } => fetch_is_limited(
                fetch,
                sync,
                work.downloads,
                reply,
            ),
            TwoWayStageView::Trashing { cleanup, .. } => cleanup_is_limited(
                cleanup,
                sync.remote,
                work.remote_trash,
                reply,
            ),
            _ => {},
        }
    }
    kept_by_steps(step, sound, good, start, replies);
    let asked = requests(step, start, replies);
    assert forall|i: int| 0 <= i < asked.len() implies is_planned(
        #[trigger] asked[i],
        sync,
        local,
        remote,
        actions,
    ) by {
        assert(good(asked[i]));
        what_serves_is_planned(asked[i], sync, local, remote, actions, work);
    }
}

} // verus!
