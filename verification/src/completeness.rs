//! What a run has done that comes to a good end: everything that was to be done.

use crate::batches::chunked;
use crate::cleanup::{cleanup_prepared, trash_targets, CleanupView, TrashItemView, TRASH_BATCH_SIZE};
use crate::commits::commits_begun;
use crate::config::{DeletePolicy, SyncConfigView};
use crate::drive::{RemoteFileView, TrashTargetView};
use crate::exchange::{Progress, ReplyView, RequestView};
use crate::fetch::{fetch_prepared, known_to_match, FetchItemView, FetchStage, FetchView};
use crate::fetch::FetchedView;
use crate::inventory::RemoteTreeView;
use crate::paths::drive_path;
use crate::plan::{lookup, two_way_view, LocalFile, LocalSnapshot, TwoWayAction};
use crate::pull::{fetch_items, local_only, pulled_paths, PullStageView, PullView};
use crate::pull_laws::pull_step;
use crate::push::{changed_among, changed_files, doomed, items_at, unchanged_since, PushBaseView};
use crate::push::{PushStageView, PushView};
use crate::push_laws::push_step;
use crate::removal::{removal_prepared, RemovalView};
use crate::scan::{local_path_of, ScannedView};
use crate::state::{checkpoint_pushed, FileCheckpoint, FileState, CHECKPOINT_BATCH_SIZE};
use crate::summary::{scan_summary, SummaryView};
use crate::text::{in_order, in_order_is_ordered, same_ignoring_case};
use crate::trace::{ending, requests, settled_by_the_end};
use crate::two_way::{unexcluded, work_for, TwoWayRun, TwoWayStageView, WorkView};
use crate::two_way_laws::two_way_step;
use crate::upload_laws::{chunks_hold_every_item, commits_to, every_upload_is_sent};
use crate::uploads::{upload_jobs, uploads_prepared, PendingUpload, UploadsView};
use vstd::prelude::*;

verus! {

/// An upload command with the local file at a path below `root`.
pub open spec fn sends(request: RequestView, root: Seq<char>, path: Seq<char>) -> bool {
    request matches RequestView::Upload { files, .. } && files.contains(local_path_of(root, path))
}

spec fn owes_upload(run: UploadsView, upload: PendingUpload<Seq<char>>, job: int) -> bool {
    &&& 0 <= job < run.jobs.len()
    &&& run.jobs[job].uploads.contains(upload)
    &&& run.at < job || (run.at == job && run.stage is Ensuring)
}

proof fn sent_with_its_files(run: UploadsView, upload: PendingUpload<Seq<char>>)
    requires
        run.at < run.jobs.len(),
        run.jobs[run.at as int].uploads.contains(upload),
    ensures
        run.sent() matches Ok(Progress::Ask(_, asked)) && sends(
            asked,
            run.root,
            upload.file.relative,
        ),
{
    let uploads = run.jobs[run.at as int].uploads;
    let i = choose|i: int| 0 <= i < uploads.len() && uploads[i] == upload;
    assert(run.sources(uploads)[i] == local_path_of(run.root, upload.file.relative));
}

proof fn begun_uploads_owe(run: UploadsView, upload: PendingUpload<Seq<char>>, job: int)
    requires
        run.at <= job < run.jobs.len(),
        run.jobs[job].uploads.contains(upload),
    ensures
        run.begun() matches Ok(Progress::Ask(next, asked)) && next.root == run.root && (owes_upload(
            next,
            upload,
            job,
        ) || sends(asked, run.root, upload.file.relative)),
{
    if run.at == job {
        sent_with_its_files(run, upload);
    }
}

proof fn uploads_owe(
    run: UploadsView,
    upload: PendingUpload<Seq<char>>,
    job: int,
    reply: ReplyView,
)
    requires
        owes_upload(run, upload, job),
    ensures
        match run.stepped(reply) {
            Err(_) => true,
            Ok(Progress::Done(_)) => false,
            Ok(Progress::Ask(next, asked)) => next.root == run.root && (owes_upload(
                next,
                upload,
                job,
            ) || sends(asked, run.root, upload.file.relative)),
        },
{
    if run.at == job {
        sent_with_its_files(run, upload);
    } else {
        begun_uploads_owe(UploadsView { at: run.at + 1, ..run }, upload, job);
        if let ReplyView::Uploaded(result) = reply {
            begun_uploads_owe(
                UploadsView { at: run.at + 1, ..run.tallied(result) },
                upload,
                job,
            );
        }
    }
}

proof fn changed_file_is_listed(
    files: Map<Seq<char>, LocalFile<Seq<char>>>,
    states: Map<Seq<char>, FileState<Seq<char>>>,
    paths: Seq<Seq<char>>,
    count: nat,
    k: int,
)
    requires
        0 <= k < count <= paths.len(),
        !unchanged_since(states, files[paths[k]]),
    ensures
        changed_among(files, states, paths, count).contains(
            PendingUpload { file: files[paths[k]], checkpoint_sha1: None },
        ),
    decreases count,
{
    let upload = PendingUpload { file: files[paths[k]], checkpoint_sha1: None };
    let all = changed_among(files, states, paths, count);
    if k < count - 1 {
        changed_file_is_listed(files, states, paths, (count - 1) as nat, k);
        let rest = changed_among(files, states, paths, (count - 1) as nat);
        let i = choose|i: int| 0 <= i < rest.len() && rest[i] == upload;
        assert(all[i] == upload);
    } else {
        assert(all[all.len() - 1] == upload);
    }
}

/// A push that comes to a good end has sent every file that is new or has changed.
pub proof fn every_changed_file_is_sent(
    sync: SyncConfigView,
    scanned: ScannedView,
    states: Map<Seq<char>, FileState<Seq<char>>>,
    baseline: bool,
    tree: Option<RemoteTreeView>,
    replies: Seq<ReplyView>,
    path: Seq<char>,
)
    requires
        scanned.files.dom().finite(),
        scanned.files.contains_key(path),
        !unchanged_since(states, scanned.files[path]),
        PushView::reconciled(sync, scanned, states, baseline, tree) matches Ok(start) && ending(
            push_step(),
            start,
            replies,
        ) matches Some(Ok(_)),
    ensures
        ({
            let start = PushView::reconciled(sync, scanned, states, baseline, tree)->Ok_0;
            exists|i: int|
                0 <= i < requests(push_step(), start, replies).len() && sends(
                    #[trigger] requests(push_step(), start, replies)[i],
                    sync.local,
                    scanned.files[path].relative,
                )
        }),
{
    let start = PushView::reconciled(sync, scanned, states, baseline, tree)->Ok_0;
    let paths = in_order(scanned.files.dom());
    in_order_is_ordered(scanned.files.dom());
    assert(paths.to_set().contains(path));
    let k = choose|k: int| 0 <= k < paths.len() && paths[k] == path;
    changed_file_is_listed(scanned.files, states, paths, paths.len(), k);
    let uploads = changed_files(scanned.files, states);
    let upload = PendingUpload { file: scanned.files[path], checkpoint_sha1: None };
    let u = choose|u: int| 0 <= u < uploads.len() && uploads[u] == upload;
    every_upload_is_sent(uploads, u);
    let job = choose|j: int|
        0 <= j < upload_jobs(uploads).len() && (#[trigger] upload_jobs(uploads)[j]).uploads.contains(
            upload,
        );
    let run = uploads_prepared(sync, uploads);
    begun_uploads_owe(run, upload, job);
    let step = push_step();
    let owes = |run: PushView, request: RequestView|
        run.stage matches PushStageView::Uploading { uploads, .. } && uploads.root == sync.local
            && owes_upload(uploads, upload, job);
    let met = |request: RequestView| sends(request, sync.local, upload.file.relative);
    let excused = |request: RequestView, reply: ReplyView| false;
    assert forall|run: PushView, request: RequestView, reply: ReplyView|
        #![trigger owes(run, request), step(run, reply)]
        owes(run, request) && !excused(request, reply) implies match step(run, reply) {
        Err(_) => true,
        Ok(Progress::Done(_)) => false,
        Ok(Progress::Ask(next, asked)) => owes(next, asked) || met(asked),
    } by {
        uploads_owe(run.stage->Uploading_uploads, upload, job, reply);
    }
    settled_by_the_end(step, owes, met, excused, start, replies);
    let i = choose|i: int|
        0 <= i < requests(step, start, replies).len() && (met(
            #[trigger] requests(step, start, replies)[i],
        ) || (i < replies.len() && excused(requests(step, start, replies)[i], replies[i])));
    assert(sends(requests(step, start, replies)[i], sync.local, upload.file.relative));
}


/// A trash command with a remote file.
pub open spec fn trashes(request: RequestView, remote: Seq<char>, item: TrashItemView) -> bool {
    request matches RequestView::TrashRemote { targets } && targets.contains(
        TrashTargetView { remote_path: drive_path(remote, item.path), uid: item.file.uid },
    )
}

spec fn owes_trash(run: CleanupView, item: TrashItemView, batch: int) -> bool {
    &&& 0 <= batch < run.batches.len()
    &&& run.batches[batch].contains(item)
    &&& run.at < batch
}

proof fn begun_cleanup_owes(run: CleanupView, item: TrashItemView, batch: int)
    requires
        run.at <= batch < run.batches.len(),
        run.batches[batch].contains(item),
    ensures
        run.begun() matches Ok(Progress::Ask(next, asked)) && next.remote == run.remote && (
        owes_trash(next, item, batch) || trashes(asked, run.remote, item)),
{
    if run.at == batch {
        let items = run.batches[batch];
        let i = choose|i: int| 0 <= i < items.len() && items[i] == item;
        assert(trash_targets(run.remote, items)[i] == TrashTargetView {
            remote_path: drive_path(run.remote, item.path),
            uid: item.file.uid,
        });
    }
}

proof fn cleanup_owes(run: CleanupView, item: TrashItemView, batch: int, reply: ReplyView)
    requires
        owes_trash(run, item, batch),
    ensures
        match run.stepped(reply) {
            Err(_) => true,
            Ok(Progress::Done(_)) => false,
            Ok(Progress::Ask(next, asked)) => next.remote == run.remote && (owes_trash(
                next,
                item,
                batch,
            ) || trashes(asked, run.remote, item)),
        },
{
    begun_cleanup_owes(CleanupView { at: run.at + 1, ..run }, item, batch);
    if let ReplyView::Trashed(result) = reply {
        begun_cleanup_owes(CleanupView { at: run.at + 1, ..run.tallied(result) }, item, batch);
    }
}

proof fn prepared_cleanup_owes(sync: SyncConfigView, items: Seq<TrashItemView>, k: int) -> (batch:
    int)
    requires
        0 <= k < items.len(),
    ensures
        ({
            let run = cleanup_prepared(sync, items);
            &&& 0 <= batch < run.batches.len()
            &&& run.batches[batch].contains(items[k])
        }),
{
    let size = TRASH_BATCH_SIZE as int;
    chunks_hold_every_item(items, size, k);
    choose|b: int|
        0 <= b < chunked(items, size).len() && (#[trigger] chunked(items, size)[b]).contains(
            items[k],
        )
}

/// A push that comes to a good end, and that carries deletions over, has moved to the trash every
/// remote file that is gone locally.
pub proof fn every_doomed_file_is_trashed(
    sync: SyncConfigView,
    base: PushBaseView,
    stale: Seq<Seq<char>>,
    tree: RemoteTreeView,
    replies: Seq<ReplyView>,
    path: Seq<char>,
)
    requires
        tree.files.dom().finite(),
        doomed(
            base.scanned.patterns,
            base.scanned.files.dom(),
            base.baseline,
            stale,
            tree,
        ).contains(path),
        PushView::located(sync, base, stale, tree) matches Ok(start) && ending(
            push_step(),
            start,
            replies,
        ) matches Some(Ok(_)),
    ensures
        ({
            let start = PushView::located(sync, base, stale, tree)->Ok_0;
            exists|i: int|
                0 <= i < requests(push_step(), start, replies).len() && trashes(
                    #[trigger] requests(push_step(), start, replies)[i],
                    sync.remote,
                    TrashItemView { path, file: tree.files[path] },
                )
        }),
{
    let start = PushView::located(sync, base, stale, tree)->Ok_0;
    let gone = doomed(
        base.scanned.patterns,
        base.scanned.files.dom(),
        base.baseline,
        stale,
        tree,
    );
    assert(gone.subset_of(tree.files.dom()));
    vstd::set_lib::lemma_set_subset_finite(tree.files.dom(), gone);
    in_order_is_ordered(gone);
    let paths = in_order(gone);
    assert(paths.to_set().contains(path));
    let k = choose|k: int| 0 <= k < paths.len() && paths[k] == path;
    let items = items_at(tree, gone);
    let item = TrashItemView { path, file: tree.files[path] };
    assert(items[k] == item);
    let batch = prepared_cleanup_owes(sync, items, k);
    begun_cleanup_owes(cleanup_prepared(sync, items), item, batch);
    let step = push_step();
    let owes = |run: PushView, request: RequestView|
        run.sync == sync && match run.stage {
            PushStageView::Forgetting { items: left, .. } => left == items,
            PushStageView::Trashing { cleanup, .. } => cleanup.remote == sync.remote && owes_trash(
                cleanup,
                item,
                batch,
            ),
            _ => false,
        };
    let met = |request: RequestView| trashes(request, sync.remote, item);
    let excused = |request: RequestView, reply: ReplyView| false;
    assert forall|run: PushView, request: RequestView, reply: ReplyView|
        #![trigger owes(run, request), step(run, reply)]
        owes(run, request) && !excused(request, reply) implies match step(run, reply) {
        Err(_) => true,
        Ok(Progress::Done(_)) => false,
        Ok(Progress::Ask(next, asked)) => owes(next, asked) || met(asked),
    } by {
        if let PushStageView::Trashing { cleanup, .. } = run.stage {
            cleanup_owes(cleanup, item, batch, reply);
        }
    }
    settled_by_the_end(step, owes, met, excused, start, replies);
    let i = choose|i: int|
        0 <= i < requests(step, start, replies).len() && (met(
            #[trigger] requests(step, start, replies)[i],
        ) || (i < replies.len() && excused(requests(step, start, replies)[i], replies[i])));
    assert(trashes(requests(step, start, replies)[i], sync.remote, item));
}

/// A file put in its local place below `root`.
pub open spec fn installs(request: RequestView, root: Seq<char>, path: Seq<char>) -> bool {
    request matches RequestView::Install { target, .. } && target == local_path_of(root, path)
}

/// An answer by which the local file at the place of a remote file is the same: what is remembered
/// of it, or its digest.
pub open spec fn found_same(
    sync: SyncConfigView,
    item: FetchItemView,
    request: RequestView,
    reply: ReplyView,
) -> bool {
    item.local matches Some(local) && {
        ||| {
            &&& request == RequestView::LoadState { mirror: sync.name, path: item.path }
            &&& reply matches ReplyView::State(state)
            &&& known_to_match(state, local, item.file)
        }
        ||| {
            &&& request == RequestView::Hash { path: local_path_of(sync.local, item.path) }
            &&& reply matches ReplyView::Digest(digest)
            &&& same_ignoring_case(digest, item.file.sha1)
            &&& local.size == item.file.claimed_size
        }
    }
}

spec fn owes_file(run: FetchView, request: RequestView, k: int) -> bool {
    let item = run.items[k];
    let target = local_path_of(run.sync.local, item.path);
    &&& 0 <= k < run.items.len()
    &&& run.at <= k
    &&& run.at == k ==> match run.stage {
        FetchStage::Loading => request == RequestView::LoadState {
            mirror: run.sync.name,
            path: item.path,
        },
        FetchStage::Hashing => request == RequestView::Hash { path: target },
        FetchStage::Downloading(download) => {
            &&& download.target == target
            &&& download.stage !is Installing
            &&& download.stage !is Reading
        },
        FetchStage::Committing => true,
        FetchStage::Flushing => false,
    }
}

proof fn advanced_fetch_owes(run: FetchView, k: int)
    requires
        run.at <= k < run.items.len(),
    ensures
        run.advanced() matches Ok(Progress::Ask(next, asked)) && next.sync == run.sync && next.items
            == run.items && owes_file(next, asked, k),
{
}

proof fn recorded_fetch_owes(run: FetchView, size: u64, mtime_ns: i64, k: int)
    requires
        run.at < k < run.items.len(),
    ensures
        run.recorded(size, mtime_ns) matches Ok(Progress::Ask(next, asked)) && next.sync == run.sync
            && next.items == run.items && owes_file(next, asked, k),
{
    let item = run.items[run.at as int];
    let (pending, _) = checkpoint_pushed(
        run.pending,
        FileCheckpoint {
            mirror: run.sync.name,
            path: item.path,
            size,
            mtime_ns,
            sha1: item.file.sha1,
        },
    );
    advanced_fetch_owes(FetchView { at: run.at + 1, pending, ..run }, k);
}

proof fn fetch_owes(run: FetchView, request: RequestView, k: int, reply: ReplyView)
    requires
        owes_file(run, request, k),
        !found_same(run.sync, run.items[k], request, reply),
    ensures
        match run.stepped(reply) {
            Err(_) => true,
            Ok(Progress::Done(_)) => false,
            Ok(Progress::Ask(next, asked)) => {
                &&& next.sync == run.sync
                &&& next.items == run.items
                &&& owes_file(next, asked, k) || installs(
                    asked,
                    run.sync.local,
                    run.items[k].path,
                )
            },
        },
{
    advanced_fetch_owes(run, k);
    if run.at < k {
        let path = run.items[run.at as int].path;
        let matched = FetchView {
            fetched: FetchedView { unchanged: run.fetched.unchanged.push(path), ..run.fetched },
            ..run
        };
        let downloaded = FetchView {
            fetched: FetchedView { downloaded: run.fetched.downloaded.push(path), ..run.fetched },
            ..run
        };
        assert forall|size: u64, mtime_ns: i64| true implies (#[trigger] matched.recorded(
            size,
            mtime_ns,
        ) matches Ok(Progress::Ask(next, asked)) && next.sync == run.sync && next.items == run.items
            && owes_file(next, asked, k)) by {
            recorded_fetch_owes(matched, size, mtime_ns, k);
        }
        assert forall|size: u64, mtime_ns: i64| true implies (#[trigger] downloaded.recorded(
            size,
            mtime_ns,
        ) matches Ok(Progress::Ask(next, asked)) && next.sync == run.sync && next.items == run.items
            && owes_file(next, asked, k)) by {
            recorded_fetch_owes(downloaded, size, mtime_ns, k);
        }
    }
}

/// A pull that comes to a good end has put in its place every remote file that is not excluded, but
/// for those that were found to be there already.
pub proof fn every_remote_file_is_installed(
    sync: SyncConfigView,
    scanned: ScannedView,
    tree: RemoteTreeView,
    replies: Seq<ReplyView>,
    path: Seq<char>,
)
    requires
        pulled_paths(scanned.patterns, tree).contains(path),
        PullView::listed(sync, scanned, tree) matches Ok(start) && ending(
            pull_step(),
            start,
            replies,
        ) matches Some(Ok(_)),
    ensures
        ({
            let start = PullView::listed(sync, scanned, tree)->Ok_0;
            let asked = requests(pull_step(), start, replies);
            let item = FetchItemView {
                path,
                file: tree.files[path],
                local: lookup(scanned.files, path),
            };
            exists|i: int|
                0 <= i < asked.len() && (installs(#[trigger] asked[i], sync.local, path) || (i
                    < replies.len() && found_same(sync, item, asked[i], replies[i])))
        }),
{
    let start = PullView::listed(sync, scanned, tree)->Ok_0;
    let paths = pulled_paths(scanned.patterns, tree);
    let items = fetch_items(paths, tree, scanned.files);
    let k = choose|k: int| 0 <= k < paths.len() && paths[k] == path;
    let item = items[k];
    advanced_fetch_owes(fetch_prepared(sync, items), k);
    let step = pull_step();
    let owes = |run: PullView, request: RequestView|
        run.stage matches PullStageView::Fetching { fetch, .. } && fetch.sync == sync && fetch.items
            == items && owes_file(fetch, request, k);
    let met = |request: RequestView| installs(request, sync.local, path);
    let excused = |request: RequestView, reply: ReplyView| found_same(sync, item, request, reply);
    assert forall|run: PullView, request: RequestView, reply: ReplyView|
        #![trigger owes(run, request), step(run, reply)]
        owes(run, request) && !excused(request, reply) implies match step(run, reply) {
        Err(_) => true,
        Ok(Progress::Done(_)) => false,
        Ok(Progress::Ask(next, asked)) => owes(next, asked) || met(asked),
    } by {
        fetch_owes(run.stage->Fetching_fetch, request, k, reply);
    }
    settled_by_the_end(step, owes, met, excused, start, replies);
    let asked = requests(step, start, replies);
    let i = choose|i: int|
        0 <= i < asked.len() && (met(#[trigger] asked[i]) || (i < replies.len() && excused(
            asked[i],
            replies[i],
        )));
    assert(installs(asked[i], sync.local, path) || (i < replies.len() && found_same(
        sync,
        item,
        asked[i],
        replies[i],
    )));
}


/// A local file moved to the trash of the desktop.
pub open spec fn removes(request: RequestView, root: Seq<char>, path: Seq<char>) -> bool {
    request == RequestView::TrashLocal { path: local_path_of(root, path) }
}

spec fn owes_removal(run: RemovalView, path: Seq<char>, k: int) -> bool {
    0 <= k < run.paths.len() && run.paths[k] == path && run.at < k
}

proof fn begun_removal_owes(run: RemovalView, path: Seq<char>, k: int)
    requires
        run.at <= k < run.paths.len(),
        run.paths[k] == path,
    ensures
        run.begun() matches Progress::Ask(next, asked) && next.root == run.root && (owes_removal(
            next,
            path,
            k,
        ) || removes(asked, run.root, path)),
{
}

proof fn removal_owes(run: RemovalView, path: Seq<char>, k: int, reply: ReplyView)
    requires
        owes_removal(run, path, k),
    ensures
        match run.stepped(reply) {
            Err(_) => true,
            Ok(Progress::Done(_)) => false,
            Ok(Progress::Ask(next, asked)) => next.root == run.root && (owes_removal(next, path, k)
                || removes(asked, run.root, path)),
        },
{
    begun_removal_owes(RemovalView { at: run.at + 1, ..run }, path, k);
}

/// A pull that comes to a good end, and that carries deletions over, has moved to the trash every
/// local file that is gone remotely.
pub proof fn every_gone_file_is_removed(
    sync: SyncConfigView,
    scanned: ScannedView,
    tree: RemoteTreeView,
    replies: Seq<ReplyView>,
    path: Seq<char>,
)
    requires
        sync.delete == DeletePolicy::Trash,
        local_only(scanned.files, pulled_paths(scanned.patterns, tree)).contains(path),
        PullView::listed(sync, scanned, tree) matches Ok(start) && ending(
            pull_step(),
            start,
            replies,
        ) matches Some(Ok(_)),
    ensures
        ({
            let start = PullView::listed(sync, scanned, tree)->Ok_0;
            let asked = requests(pull_step(), start, replies);
            exists|i: int| 0 <= i < asked.len() && removes(#[trigger] asked[i], sync.local, path)
        }),
{
    let start = PullView::listed(sync, scanned, tree)->Ok_0;
    let lost = local_only(scanned.files, pulled_paths(scanned.patterns, tree));
    let k = choose|k: int| 0 <= k < lost.len() && lost[k] == path;
    begun_removal_owes(removal_prepared(sync, lost), path, k);
    let step = pull_step();
    let owes = |run: PullView, request: RequestView|
        run.sync == sync && match run.stage {
            PullStageView::Fetching { gone, .. } => gone == lost,
            PullStageView::Removing { removal, .. } => removal.root == sync.local && owes_removal(
                removal,
                path,
                k,
            ),
            _ => false,
        };
    let met = |request: RequestView| removes(request, sync.local, path);
    let excused = |request: RequestView, reply: ReplyView| false;
    assert forall|run: PullView, request: RequestView, reply: ReplyView|
        #![trigger owes(run, request), step(run, reply)]
        owes(run, request) && !excused(request, reply) implies match step(run, reply) {
        Err(_) => true,
        Ok(Progress::Done(_)) => false,
        Ok(Progress::Ask(next, asked)) => owes(next, asked) || met(asked),
    } by {
        if let PullStageView::Removing { removal, .. } = run.stage {
            removal_owes(removal, path, k, reply);
        }
    }
    settled_by_the_end(step, owes, met, excused, start, replies);
    let asked = requests(step, start, replies);
    let i = choose|i: int|
        0 <= i < asked.len() && (met(#[trigger] asked[i]) || (i < replies.len() && excused(
            asked[i],
            replies[i],
        )));
    assert(removes(asked[i], sync.local, path));
}

/// A request that carries out an action of a plan.
pub open spec fn carries_out(
    request: RequestView,
    sync: SyncConfigView,
    local: Map<Seq<char>, LocalSnapshot<Seq<char>>>,
    remote: Map<Seq<char>, RemoteFileView>,
    action: TwoWayAction<Seq<char>>,
) -> bool {
    match action {
        TwoWayAction::Checkpoint { path, sha1 } => commits_to(
            request,
            FileCheckpoint {
                mirror: sync.name,
                path,
                size: local[path].file.size,
                mtime_ns: local[path].file.mtime_ns,
                sha1,
            },
        ),
        TwoWayAction::Upload { path, .. } => sends(request, sync.local, local[path].file.relative),
        TwoWayAction::Download { path } => installs(request, sync.local, path),
        TwoWayAction::TrashRemote { path } => trashes(
            request,
            sync.remote,
            TrashItemView { path, file: remote[path] },
        ),
        TwoWayAction::TrashLocal { path } => removes(request, sync.local, path),
    }
}

/// The work that an action of a plan asks for is part of the work for the plan.
pub(crate) proof fn work_holds(
    mirror: Seq<char>,
    local: Map<Seq<char>, LocalSnapshot<Seq<char>>>,
    remote: Map<Seq<char>, RemoteFileView>,
    actions: Seq<TwoWayAction<Seq<char>>>,
    action: TwoWayAction<Seq<char>>,
)
    requires
        actions.contains(action),
    ensures
        ({
            let work = work_for(mirror, local, remote, actions);
            match action {
                TwoWayAction::Checkpoint { path, sha1 } => work.checkpoints.contains(
                    FileCheckpoint {
                        mirror,
                        path,
                        size: local[path].file.size,
                        mtime_ns: local[path].file.mtime_ns,
                        sha1,
                    },
                ),
                TwoWayAction::Upload { path, sha1 } => work.uploads.contains(
                    PendingUpload { file: local[path].file, checkpoint_sha1: Some(sha1) },
                ),
                TwoWayAction::Download { path } => work.downloads.contains(
                    FetchItemView { path, file: remote[path], local: None },
                ),
                TwoWayAction::TrashRemote { path } => work.remote_trash.contains(
                    TrashItemView { path, file: remote[path] },
                ),
                TwoWayAction::TrashLocal { path } => work.local_trash.contains(path),
            }
        }),
    decreases actions.len(),
{
    let work = work_for(mirror, local, remote, actions);
    let before = work_for(mirror, local, remote, actions.drop_last());
    let i = choose|i: int| 0 <= i < actions.len() && actions[i] == action;
    if i < actions.len() - 1 {
        assert(actions.drop_last()[i] == action);
        work_holds(mirror, local, remote, actions.drop_last(), action);
        longer_holds(before.checkpoints, work.checkpoints);
        longer_holds(before.uploads, work.uploads);
        longer_holds(before.downloads, work.downloads);
        longer_holds(before.remote_trash, work.remote_trash);
        longer_holds(before.local_trash, work.local_trash);
    } else {
        match action {
            TwoWayAction::Checkpoint { .. } => {
                assert(work.checkpoints.last() == work.checkpoints[work.checkpoints.len() - 1]);
            },
            TwoWayAction::Upload { .. } => {
                assert(work.uploads.last() == work.uploads[work.uploads.len() - 1]);
            },
            TwoWayAction::Download { .. } => {
                assert(work.downloads.last() == work.downloads[work.downloads.len() - 1]);
            },
            TwoWayAction::TrashRemote { .. } => {
                assert(work.remote_trash.last() == work.remote_trash[work.remote_trash.len() - 1]);
            },
            TwoWayAction::TrashLocal { .. } => {
                assert(work.local_trash.last() == work.local_trash[work.local_trash.len() - 1]);
            },
        }
    }
}

proof fn longer_holds<T>(list: Seq<T>, longer: Seq<T>)
    requires
        list.len() <= longer.len(),
        list =~= longer.take(list.len() as int),
    ensures
        forall|item: T| list.contains(item) ==> #[trigger] longer.contains(item),
{
    assert forall|item: T| list.contains(item) implies #[trigger] longer.contains(item) by {
        let k = choose|k: int| 0 <= k < list.len() && list[k] == item;
        assert(longer[k] == item);
    }
}


spec fn owes_commit(
    batches: Seq<Seq<FileCheckpoint<Seq<char>>>>,
    checkpoint: FileCheckpoint<Seq<char>>,
) -> bool {
    exists|b: int| 0 <= b < batches.len() && (#[trigger] batches[b]).contains(checkpoint)
}

proof fn begun_commits_owe(
    batches: Seq<Seq<FileCheckpoint<Seq<char>>>>,
    checkpoint: FileCheckpoint<Seq<char>>,
    b: int,
)
    requires
        0 <= b < batches.len(),
        batches[b].contains(checkpoint),
    ensures
        commits_begun(batches) matches Progress::Ask(next, asked) && (owes_commit(next, checkpoint)
            || commits_to(asked, checkpoint)),
{
    if b > 0 {
        assert(batches.drop_first()[b - 1] == batches[b]);
    }
}

spec fn keeps_work(run: TwoWayRun, work: WorkView) -> bool {
    match run.stage {
        TwoWayStageView::Committing { pending, downloads, remote_trash, local_trash, .. } => {
            &&& pending == work.uploads
            &&& downloads == work.downloads
            &&& remote_trash == work.remote_trash
            &&& local_trash == work.local_trash
        },
        TwoWayStageView::Uploading { downloads, remote_trash, local_trash, .. } => {
            &&& downloads == work.downloads
            &&& remote_trash == work.remote_trash
            &&& local_trash == work.local_trash
        },
        TwoWayStageView::Fetching { remote_trash, local_trash, .. } => {
            &&& remote_trash == work.remote_trash
            &&& local_trash == work.local_trash
        },
        TwoWayStageView::Trashing { local_trash, .. } => local_trash == work.local_trash,
        TwoWayStageView::Removing { .. } => true,
        _ => false,
    }
}

proof fn planned_uploads_are_sent(
    sync: SyncConfigView,
    summary: SummaryView,
    work: WorkView,
    replies: Seq<ReplyView>,
    u: int,
)
    requires
        0 <= u < work.uploads.len(),
        TwoWayRun::planned(sync, summary, work) matches Ok(start) && ending(
            two_way_step(),
            start,
            replies,
        ) matches Some(Ok(_)),
    ensures
        ({
            let start = TwoWayRun::planned(sync, summary, work)->Ok_0;
            let asked = requests(two_way_step(), start, replies);
            exists|i: int| 0 <= i < asked.len() && sends(
                #[trigger] asked[i],
                sync.local,
                work.uploads[u].file.relative,
            )
        }),
{
    let start = TwoWayRun::planned(sync, summary, work)->Ok_0;
    let upload = work.uploads[u];
    every_upload_is_sent(work.uploads, u);
    let job = choose|j: int|
        0 <= j < upload_jobs(work.uploads).len() && (#[trigger] upload_jobs(
            work.uploads,
        )[j]).uploads.contains(upload);
    begun_uploads_owe(uploads_prepared(sync, work.uploads), upload, job);
    let step = two_way_step();
    let owes = |run: TwoWayRun, request: RequestView|
        run.sync == sync && keeps_work(run, work) && match run.stage {
            TwoWayStageView::Committing { .. } => true,
            TwoWayStageView::Uploading { uploads, .. } => uploads.root == sync.local && owes_upload(
                uploads,
                upload,
                job,
            ),
            _ => false,
        };
    let met = |request: RequestView| sends(request, sync.local, upload.file.relative);
    let excused = |request: RequestView, reply: ReplyView| false;
    assert forall|run: TwoWayRun, request: RequestView, reply: ReplyView|
        #![trigger owes(run, request), step(run, reply)]
        owes(run, request) && !excused(request, reply) implies match step(run, reply) {
        Err(_) => true,
        Ok(Progress::Done(_)) => false,
        Ok(Progress::Ask(next, asked)) => owes(next, asked) || met(asked),
    } by {
        if let TwoWayStageView::Uploading { uploads, .. } = run.stage {
            uploads_owe(uploads, upload, job, reply);
        }
    }
    settled_by_the_end(step, owes, met, excused, start, replies);
    let asked = requests(step, start, replies);
    let i = choose|i: int|
        0 <= i < asked.len() && (met(#[trigger] asked[i]) || (i < replies.len() && excused(
            asked[i],
            replies[i],
        )));
    assert(sends(
                asked[i],
                sync.local,
                work.uploads[u].file.relative,
            ));
}

proof fn planned_downloads_are_installed(
    sync: SyncConfigView,
    summary: SummaryView,
    work: WorkView,
    replies: Seq<ReplyView>,
    k: int,
)
    requires
        0 <= k < work.downloads.len(),
        work.downloads[k].local is None,
        TwoWayRun::planned(sync, summary, work) matches Ok(start) && ending(
            two_way_step(),
            start,
            replies,
        ) matches Some(Ok(_)),
    ensures
        ({
            let start = TwoWayRun::planned(sync, summary, work)->Ok_0;
            let asked = requests(two_way_step(), start, replies);
            exists|i: int| 0 <= i < asked.len() && installs(
                #[trigger] asked[i],
                sync.local,
                work.downloads[k].path,
            )
        }),
{
    let start = TwoWayRun::planned(sync, summary, work)->Ok_0;
    let path = work.downloads[k].path;
    advanced_fetch_owes(fetch_prepared(sync, work.downloads), k);
    let step = two_way_step();
    let owes = |run: TwoWayRun, request: RequestView|
        run.sync == sync && keeps_work(run, work) && match run.stage {
            TwoWayStageView::Committing { .. } => true,
            TwoWayStageView::Uploading { .. } => true,
            TwoWayStageView::Fetching { fetch, .. } => {
                &&& fetch.sync == sync
                &&& fetch.items == work.downloads
                &&& owes_file(fetch, request, k)
            },
            _ => false,
        };
    let met = |request: RequestView| installs(request, sync.local, path);
    let excused = |request: RequestView, reply: ReplyView| false;
    assert forall|run: TwoWayRun, request: RequestView, reply: ReplyView|
        #![trigger owes(run, request), step(run, reply)]
        owes(run, request) && !excused(request, reply) implies match step(run, reply) {
        Err(_) => true,
        Ok(Progress::Done(_)) => false,
        Ok(Progress::Ask(next, asked)) => owes(next, asked) || met(asked),
    } by {
        if let TwoWayStageView::Fetching { fetch, .. } = run.stage {
            fetch_owes(fetch, request, k, reply);
        }
    }
    settled_by_the_end(step, owes, met, excused, start, replies);
    let asked = requests(step, start, replies);
    let i = choose|i: int|
        0 <= i < asked.len() && (met(#[trigger] asked[i]) || (i < replies.len() && excused(
            asked[i],
            replies[i],
        )));
    assert(installs(
                asked[i],
                sync.local,
                work.downloads[k].path,
            ));
}

proof fn planned_remote_trash_is_moved(
    sync: SyncConfigView,
    summary: SummaryView,
    work: WorkView,
    replies: Seq<ReplyView>,
    k: int,
)
    requires
        0 <= k < work.remote_trash.len(),
        TwoWayRun::planned(sync, summary, work) matches Ok(start) && ending(
            two_way_step(),
            start,
            replies,
        ) matches Some(Ok(_)),
    ensures
        ({
            let start = TwoWayRun::planned(sync, summary, work)->Ok_0;
            let asked = requests(two_way_step(), start, replies);
            exists|i: int| 0 <= i < asked.len() && trashes(
                #[trigger] asked[i],
                sync.remote,
                work.remote_trash[k],
            )
        }),
{
    let start = TwoWayRun::planned(sync, summary, work)->Ok_0;
    let item = work.remote_trash[k];
    let batch = prepared_cleanup_owes(sync, work.remote_trash, k);
    begun_cleanup_owes(cleanup_prepared(sync, work.remote_trash), item, batch);
    let step = two_way_step();
    let owes = |run: TwoWayRun, request: RequestView|
        run.sync == sync && keeps_work(run, work) && match run.stage {
            TwoWayStageView::Committing { .. } => true,
            TwoWayStageView::Uploading { .. } => true,
            TwoWayStageView::Fetching { .. } => true,
            TwoWayStageView::Trashing { cleanup, .. } => cleanup.remote == sync.remote
                && owes_trash(cleanup, item, batch),
            _ => false,
        };
    let met = |request: RequestView| trashes(request, sync.remote, item);
    let excused = |request: RequestView, reply: ReplyView| false;
    assert forall|run: TwoWayRun, request: RequestView, reply: ReplyView|
        #![trigger owes(run, request), step(run, reply)]
        owes(run, request) && !excused(request, reply) implies match step(run, reply) {
        Err(_) => true,
        Ok(Progress::Done(_)) => false,
        Ok(Progress::Ask(next, asked)) => owes(next, asked) || met(asked),
    } by {
        if let TwoWayStageView::Trashing { cleanup, .. } = run.stage {
            cleanup_owes(cleanup, item, batch, reply);
        }
    }
    settled_by_the_end(step, owes, met, excused, start, replies);
    let asked = requests(step, start, replies);
    let i = choose|i: int|
        0 <= i < asked.len() && (met(#[trigger] asked[i]) || (i < replies.len() && excused(
            asked[i],
            replies[i],
        )));
    assert(trashes(
                asked[i],
                sync.remote,
                work.remote_trash[k],
            ));
}

proof fn planned_local_trash_is_moved(
    sync: SyncConfigView,
    summary: SummaryView,
    work: WorkView,
    replies: Seq<ReplyView>,
    k: int,
)
    requires
        0 <= k < work.local_trash.len(),
        TwoWayRun::planned(sync, summary, work) matches Ok(start) && ending(
            two_way_step(),
            start,
            replies,
        ) matches Some(Ok(_)),
    ensures
        ({
            let start = TwoWayRun::planned(sync, summary, work)->Ok_0;
            let asked = requests(two_way_step(), start, replies);
            exists|i: int| 0 <= i < asked.len() && removes(
                #[trigger] asked[i],
                sync.local,
                work.local_trash[k],
            )
        }),
{
    let start = TwoWayRun::planned(sync, summary, work)->Ok_0;
    let path = work.local_trash[k];
    begun_removal_owes(removal_prepared(sync, work.local_trash), path, k);
    let step = two_way_step();
    let owes = |run: TwoWayRun, request: RequestView|
        run.sync == sync && keeps_work(run, work) && match run.stage {
            TwoWayStageView::Committing { .. } => true,
            TwoWayStageView::Uploading { .. } => true,
            TwoWayStageView::Fetching { .. } => true,
            TwoWayStageView::Trashing { .. } => true,
            TwoWayStageView::Removing { removal, .. } => removal.root == sync.local && owes_removal(
                removal,
                path,
                k,
            ),
            _ => false,
        };
    let met = |request: RequestView| removes(request, sync.local, path);
    let excused = |request: RequestView, reply: ReplyView| false;
    assert forall|run: TwoWayRun, request: RequestView, reply: ReplyView|
        #![trigger owes(run, request), step(run, reply)]
        owes(run, request) && !excused(request, reply) implies match step(run, reply) {
        Err(_) => true,
        Ok(Progress::Done(_)) => false,
        Ok(Progress::Ask(next, asked)) => owes(next, asked) || met(asked),
    } by {
        if let TwoWayStageView::Removing { removal, .. } = run.stage {
            removal_owes(removal, path, k, reply);
        }
    }
    settled_by_the_end(step, owes, met, excused, start, replies);
    let asked = requests(step, start, replies);
    let i = choose|i: int|
        0 <= i < asked.len() && (met(#[trigger] asked[i]) || (i < replies.len() && excused(
            asked[i],
            replies[i],
        )));
    assert(removes(
                asked[i],
                sync.local,
                work.local_trash[k],
            ));
}

proof fn planned_checkpoints_are_committed(
    sync: SyncConfigView,
    summary: SummaryView,
    work: WorkView,
    replies: Seq<ReplyView>,
    k: int,
)
    requires
        0 <= k < work.checkpoints.len(),
        TwoWayRun::planned(sync, summary, work) matches Ok(start) && ending(
            two_way_step(),
            start,
            replies,
        ) matches Some(Ok(_)),
    ensures
        ({
            let start = TwoWayRun::planned(sync, summary, work)->Ok_0;
            let asked = requests(two_way_step(), start, replies);
            exists|i: int| 0 <= i < asked.len() && commits_to(
                #[trigger] asked[i],
                work.checkpoints[k],
            )
        }),
{
    let start = TwoWayRun::planned(sync, summary, work)->Ok_0;
    let checkpoint = work.checkpoints[k];
    let size = CHECKPOINT_BATCH_SIZE as int;
    let batches = chunked(work.checkpoints, size);
    chunks_hold_every_item(work.checkpoints, size, k);
    let b = choose|b: int|
        0 <= b < batches.len() && (#[trigger] batches[b]).contains(checkpoint);
    begun_commits_owe(batches, checkpoint, b);
    let step = two_way_step();
    let owes = |run: TwoWayRun, request: RequestView|
        run.sync == sync && keeps_work(run, work) && match run.stage {
            TwoWayStageView::Committing { commits, .. } => owes_commit(commits, checkpoint),
            _ => false,
        };
    let met = |request: RequestView| commits_to(request, checkpoint);
    let excused = |request: RequestView, reply: ReplyView| false;
    assert forall|run: TwoWayRun, request: RequestView, reply: ReplyView|
        #![trigger owes(run, request), step(run, reply)]
        owes(run, request) && !excused(request, reply) implies match step(run, reply) {
        Err(_) => true,
        Ok(Progress::Done(_)) => false,
        Ok(Progress::Ask(next, asked)) => owes(next, asked) || met(asked),
    } by {
        let commits = run.stage->Committing_commits;
        let b = choose|b: int|
            0 <= b < commits.len() && (#[trigger] commits[b]).contains(checkpoint);
        begun_commits_owe(commits, checkpoint, b);
    }
    settled_by_the_end(step, owes, met, excused, start, replies);
    let asked = requests(step, start, replies);
    let i = choose|i: int|
        0 <= i < asked.len() && (met(#[trigger] asked[i]) || (i < replies.len() && excused(
            asked[i],
            replies[i],
        )));
    assert(commits_to(
                asked[i],
                work.checkpoints[k],
            ));
}

/// A two-way sync that comes to a good end has carried out every action of its plan.
pub proof fn every_action_is_carried_out(
    sync: SyncConfigView,
    states: Map<Seq<char>, FileState<Seq<char>>>,
    scanned: ScannedView,
    local: Map<Seq<char>, LocalSnapshot<Seq<char>>>,
    tree: RemoteTreeView,
    replies: Seq<ReplyView>,
    action: TwoWayAction<Seq<char>>,
)
    requires
        two_way_view(sync, local, unexcluded(scanned.patterns, tree.files), states).plan() matches Ok(
            actions,
        ) && actions.contains(action),
        TwoWayRun::listed(sync, states, scanned, local, tree) matches Ok(start) && ending(
            two_way_step(),
            start,
            replies,
        ) matches Some(Ok(_)),
    ensures
        ({
            let start = TwoWayRun::listed(sync, states, scanned, local, tree)->Ok_0;
            let remote = unexcluded(scanned.patterns, tree.files);
            exists|i: int|
                0 <= i < requests(two_way_step(), start, replies).len() && carries_out(
                    #[trigger] requests(two_way_step(), start, replies)[i],
                    sync,
                    local,
                    remote,
                    action,
                )
        }),
{
    let remote = unexcluded(scanned.patterns, tree.files);
    let actions = two_way_view(sync, local, remote, states).plan()->Ok_0;
    let summary = scan_summary(in_order(local.dom()).len(), scanned.symlinks.len());
    let work = work_for(sync.name, local, remote, actions);
    let start = TwoWayRun::planned(sync, summary, work)->Ok_0;
    let asked = requests(two_way_step(), start, replies);
    work_holds(sync.name, local, remote, actions, action);
    let i = match action {
        TwoWayAction::Checkpoint { path, sha1 } => {
            let checkpoint = FileCheckpoint {
                mirror: sync.name,
                path,
                size: local[path].file.size,
                mtime_ns: local[path].file.mtime_ns,
                sha1,
            };
            let k = choose|k: int|
                0 <= k < work.checkpoints.len() && work.checkpoints[k] == checkpoint;
            planned_checkpoints_are_committed(sync, summary, work, replies, k);
            choose|i: int|
                0 <= i < asked.len() && commits_to(#[trigger] asked[i], work.checkpoints[k])
        },
        TwoWayAction::Upload { path, sha1 } => {
            let upload = PendingUpload { file: local[path].file, checkpoint_sha1: Some(sha1) };
            let k = choose|k: int| 0 <= k < work.uploads.len() && work.uploads[k] == upload;
            planned_uploads_are_sent(sync, summary, work, replies, k);
            choose|i: int|
                0 <= i < asked.len() && sends(
                    #[trigger] asked[i],
                    sync.local,
                    work.uploads[k].file.relative,
                )
        },
        TwoWayAction::Download { path } => {
            let item = FetchItemView { path, file: remote[path], local: None };
            let k = choose|k: int| 0 <= k < work.downloads.len() && work.downloads[k] == item;
            planned_downloads_are_installed(sync, summary, work, replies, k);
            choose|i: int|
                0 <= i < asked.len() && installs(
                    #[trigger] asked[i],
                    sync.local,
                    work.downloads[k].path,
                )
        },
        TwoWayAction::TrashRemote { path } => {
            let item = TrashItemView { path, file: remote[path] };
            let k = choose|k: int| 0 <= k < work.remote_trash.len() && work.remote_trash[k] == item;
            planned_remote_trash_is_moved(sync, summary, work, replies, k);
            choose|i: int|
                0 <= i < asked.len() && trashes(
                    #[trigger] asked[i],
                    sync.remote,
                    work.remote_trash[k],
                )
        },
        TwoWayAction::TrashLocal { path } => {
            let k = choose|k: int| 0 <= k < work.local_trash.len() && work.local_trash[k] == path;
            planned_local_trash_is_moved(sync, summary, work, replies, k);
            choose|i: int|
                0 <= i < asked.len() && removes(#[trigger] asked[i], sync.local, work.local_trash[k])
        },
    };
    assert(carries_out(asked[i], sync, local, remote, action));
}

} // verus!
