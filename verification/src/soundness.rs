//! What every part of a sync keeps: excluded paths are left alone, and batches stay bounded.

use crate::batches::{chunked, chunked_is_a_partition};
use crate::cleanup::{cleanup_prepared, moved_paths, trash_targets, CleanupView, TrashItemView};
use crate::cleanup::TRASH_BATCH_SIZE;
use crate::commits::commits_begun;
use crate::config::SyncConfigView;
use crate::directories::EnsureView;
use crate::download::DownloadView;
use crate::drive::{node_file, UploadFailureView};
use crate::exchange::{Progress, ReplyView, RequestView};
use crate::excludes::excluded;
use crate::fetch::{fetch_prepared, FetchItemView, FetchStage, FetchView, FetchedView};
use crate::inventory::{InventoryStage, InventoryView, RemoteTreeView};
use crate::paths::{child_of, drive_path, parent_of};
use crate::plan::LocalFile;
use crate::removal::RemovalView;
use crate::scan::{file_at, local_path_of, ScanChoice, ScanStage, ScanView, ScannedView};
use crate::state::{checkpoint_pushed, FileCheckpoint, CHECKPOINT_BATCH_SIZE};
use crate::text::in_order;
use crate::uploads::{folder_jobs, jobs_for, upload_jobs, upload_parents, uploads_below};
use crate::uploads::{uploads_prepared, PendingUpload, UploadJobView, UploadsStage, UploadsView};
use crate::uploads::UPLOAD_BATCH_SIZE;
use vstd::prelude::*;

verus! {

/// A path that no exclude pattern of the entry matches.
pub open spec fn included(sync: SyncConfigView, path: Seq<char>) -> bool {
    !excluded(sync.exclude, path)
}

/// The local place of a path that is not excluded.
pub open spec fn included_place(sync: SyncConfigView, place: Seq<char>) -> bool {
    exists|path: Seq<char>|
        included(sync, path) && place == #[trigger] local_path_of(sync.local, path)
}

/// The remote place of a path that is not excluded.
pub open spec fn included_remote(sync: SyncConfigView, place: Seq<char>) -> bool {
    exists|path: Seq<char>|
        included(sync, path) && place == #[trigger] drive_path(sync.remote, path)
}

/// A request that moves, changes or remembers only files at paths that are not excluded.
pub open spec fn spares_excluded(sync: SyncConfigView, request: RequestView) -> bool {
    match request {
        RequestView::Upload { files, .. } => forall|i: int|
            0 <= i < files.len() ==> included_place(sync, #[trigger] files[i]),
        RequestView::TrashRemote { targets } => forall|i: int|
            0 <= i < targets.len() ==> included_remote(sync, (#[trigger] targets[i]).remote_path),
        RequestView::TrashLocal { path } => included_place(sync, path),
        RequestView::Install { target, .. } => included_place(sync, target),
        RequestView::Download { path, .. } => included_remote(sync, path),
        RequestView::Commit { checkpoints } => forall|i: int|
            0 <= i < checkpoints.len() ==> included(sync, (#[trigger] checkpoints[i]).path),
        RequestView::DeleteStates { paths, .. } => forall|i: int|
            0 <= i < paths.len() ==> included(sync, #[trigger] paths[i]),
        _ => true,
    }
}

/// A request whose batch is neither empty nor larger than its bound.
pub open spec fn bounded_batch(request: RequestView) -> bool {
    match request {
        RequestView::Upload { files, .. } => 0 < files.len() <= UPLOAD_BATCH_SIZE,
        RequestView::TrashRemote { targets } => 0 < targets.len() <= TRASH_BATCH_SIZE,
        RequestView::Commit { checkpoints } => 0 < checkpoints.len() <= CHECKPOINT_BATCH_SIZE,
        _ => true,
    }
}

/// A request that keeps to both.
pub open spec fn proper(sync: SyncConfigView, request: RequestView) -> bool {
    spares_excluded(sync, request) && bounded_batch(request)
}

/// Requests that only look: they move nothing and remember nothing.
pub open spec fn only_looks(request: RequestView) -> bool {
    match request {
        RequestView::IsDirectory { .. } => true,
        RequestView::IsFile { .. } => true,
        RequestView::ListDirectory { .. } => true,
        RequestView::Stat { .. } => true,
        RequestView::Hash { .. } => true,
        RequestView::LoadStates { .. } => true,
        RequestView::LoadState { .. } => true,
        RequestView::StatePaths { .. } => true,
        RequestView::LoadMetadata { .. } => true,
        RequestView::KnowsDirectory { .. } => true,
        RequestView::List { .. } => true,
        RequestView::Info { .. } => true,
        _ => false,
    }
}

/// Local files by their paths, none excluded.
pub open spec fn sound_files(
    sync: SyncConfigView,
    files: Map<Seq<char>, LocalFile<Seq<char>>>,
) -> bool {
    &&& files.dom().finite()
    &&& forall|path: Seq<char>| #[trigger]
        files.contains_key(path) ==> included(sync, path) && files[path].relative == path
}

/// A scan of an entry that has met only what it should.
pub open spec fn sound_scan(sync: SyncConfigView, scan: ScanView) -> bool {
    &&& scan.root == sync.local
    &&& scan.patterns == sync.exclude
    &&& sound_files(sync, scan.files)
    &&& scan.stage matches ScanStage::Reading { path } ==> included(sync, path)
}

/// What a scan asks: the entries of a directory that is the root or not excluded, and the metadata
/// of a file that is not excluded.
pub open spec fn sound_scan_request(sync: SyncConfigView, request: RequestView) -> bool {
    match request {
        RequestView::ListDirectory { path } => path == sync.local || included_place(sync, path),
        RequestView::Stat { path } => included_place(sync, path),
        _ => false,
    }
}

/// A finished scan of an entry.
pub open spec fn sound_scanned(sync: SyncConfigView, scanned: ScannedView) -> bool {
    scanned.patterns == sync.exclude && sound_files(sync, scanned.files)
}

proof fn scan_advances(sync: SyncConfigView, scan: ScanView)
    requires
        scan.root == sync.local,
        scan.patterns == sync.exclude,
        sound_files(sync, scan.files),
    ensures
        scan.advanced() matches Ok(Progress::Ask(next, request)) ==> sound_scan(sync, next)
            && sound_scan_request(sync, request),
        scan.advanced() matches Ok(Progress::Done(scanned)) ==> sound_scanned(sync, scanned),
    decreases scan.todo.len(),
{
    if scan.todo.len() > 0 {
        let item = scan.todo.last();
        let path = scan.path_of(item);
        let rest = ScanView { todo: scan.todo.drop_last(), ..scan };
        match scan.choice(item) {
            ScanChoice::Skip => scan_advances(sync, rest),
            ScanChoice::Count => scan_advances(
                sync,
                ScanView { symlinks: scan.symlinks.push(path), ..rest },
            ),
            _ => {
                if scan.choice(item) is Enter || scan.choice(item) is Take {
                    assert(included(sync, path));
                    assert(local_path_of(sync.local, path) == local_path_of(scan.root, path));
                    assert(included_place(sync, local_path_of(scan.root, path)));
                }
            },
        }
    }
}

/// A scan stays sound.
pub proof fn scan_steps(sync: SyncConfigView, scan: ScanView, reply: ReplyView)
    requires
        sound_scan(sync, scan),
    ensures
        scan.stepped(reply) matches Ok(Progress::Ask(next, request)) ==> sound_scan(sync, next)
            && sound_scan_request(sync, request),
        scan.stepped(reply) matches Ok(Progress::Done(scanned)) ==> sound_scanned(sync, scanned),
{
    match (scan.stage, reply) {
        (ScanStage::Listing { directory }, ReplyView::Entries(entries)) => {
            scan_advances(sync, scan.with_listing(directory, entries));
        },
        (ScanStage::Reading { path }, ReplyView::Stat(stat)) => {
            if let Ok(file) = file_at(path, stat) {
                scan_advances(sync, ScanView { files: scan.files.insert(path, file), ..scan });
            }
        },
        _ => {},
    }
}

proof fn inventory_advances(run: InventoryView)
    requires
        run.tree.files.dom().finite(),
    ensures
        run.advanced() matches Ok(Progress::Ask(next, request)) && (request is List
            || request is ReplaceDirectories) && next.tree.files.dom().finite(),
    decreases run.todo.len(),
{
    if run.todo.len() > 0 {
        let node = run.todo.last().node;
        let path = child_of(run.todo.last().directory, node.name->0);
        let rest = InventoryView {
            todo: run.todo.drop_last(),
            visited: run.visited.insert(node.uid),
            ..run
        };
        inventory_advances(rest);
        if let Some(file) = node_file(Some(node)) {
            inventory_advances(
                InventoryView {
                    tree: RemoteTreeView {
                        files: run.tree.files.insert(path, file),
                        ..run.tree
                    },
                    ..rest
                },
            );
        }
    }
}

/// An inventory asks only for folders, puts them on record and gives the session up; its tree is
/// finite.
pub proof fn inventory_steps(run: InventoryView, reply: ReplyView)
    requires
        run.tree.files.dom().finite(),
    ensures
        run.stepped(reply) matches Ok(Progress::Ask(next, request)) ==> (request is List
            || request is ReplaceDirectories || request is ReleaseSession)
            && next.tree.files.dom().finite(),
        run.stepped(reply) matches Ok(Progress::Done(tree)) ==> tree.files.dom().finite(),
{
    match (run.stage, reply) {
        (
            InventoryStage::Listing { directory },
            ReplyView::Nodes(nodes),
        ) => {
            inventory_advances(run.with_listing(directory, nodes));
        },
        _ => {},
    }
}

/// A scan asks only for entries and metadata.
pub proof fn scan_asks(scan: ScanView, reply: ReplyView)
    ensures
        scan.stepped(reply) matches Ok(Progress::Ask(_, request)) ==> request is ListDirectory
            || request is Stat,
{
    match (scan.stage, reply) {
        (ScanStage::Listing { directory }, ReplyView::Entries(entries)) => {
            scan_goes_on(scan.with_listing(directory, entries));
        },
        (ScanStage::Reading { path }, ReplyView::Stat(stat)) => {
            if let Ok(file) = file_at(path, stat) {
                scan_goes_on(
                    ScanView { files: scan.files.insert(path, file), ..scan },
                );
            }
        },
        _ => {},
    }
}

proof fn scan_goes_on(scan: ScanView)
    ensures
        scan.advanced() matches Ok(Progress::Ask(_, request)) ==> request is ListDirectory
            || request is Stat,
    decreases scan.todo.len(),
{
    if scan.todo.len() > 0 {
        let rest = ScanView { todo: scan.todo.drop_last(), ..scan };
        let path = scan.path_of(scan.todo.last());
        scan_goes_on(rest);
        scan_goes_on(ScanView { symlinks: scan.symlinks.push(path), ..rest });
    }
}

/// An inventory asks only for folders, puts them on record and gives the session up.
pub proof fn inventory_asks(run: InventoryView, reply: ReplyView)
    ensures
        run.stepped(reply) matches Ok(Progress::Ask(_, request)) ==> request is List
            || request is ReplaceDirectories || request is ReleaseSession,
{
    match (run.stage, reply) {
        (InventoryStage::Listing { directory }, ReplyView::Nodes(nodes)) => {
            inventory_goes_on(run.with_listing(directory, nodes));
        },
        _ => {},
    }
}

proof fn inventory_goes_on(run: InventoryView)
    ensures
        run.advanced() matches Ok(Progress::Ask(_, request)) ==> request is List
            || request is ReplaceDirectories,
    decreases run.todo.len(),
{
    if run.todo.len() > 0 {
        let node = run.todo.last().node;
        let path = child_of(run.todo.last().directory, node.name->0);
        let rest = InventoryView {
            todo: run.todo.drop_last(),
            visited: run.visited.insert(node.uid),
            ..run
        };
        inventory_goes_on(rest);
        if let Some(file) = node_file(Some(node)) {
            inventory_goes_on(
                InventoryView {
                    tree: RemoteTreeView {
                        files: run.tree.files.insert(path, file),
                        ..run.tree
                    },
                    ..rest
                },
            );
        }
    }
}

/// What a search for a folder asks.
pub open spec fn folder_request(request: RequestView) -> bool {
    request is KnowsDirectory || request is Info || request is CreateFolder
        || request is SaveDirectory
}

/// A search for a folder asks only about folders.
pub proof fn ensure_steps(run: EnsureView, reply: ReplyView)
    ensures
        run.stepped(reply) matches Ok(Progress::Ask(_, request)) ==> folder_request(request),
{
}

/// Items of a batch are items of the list that was cut.
pub proof fn chunks_come_from<T>(items: Seq<T>, size: int)
    requires
        size > 0,
    ensures
        forall|b: int, i: int|
            #![trigger chunked(items, size)[b][i]]
            0 <= b < chunked(items, size).len() && 0 <= i < chunked(items, size)[b].len()
                ==> items.contains(chunked(items, size)[b][i]),
    decreases items.len(),
{
    let batches = chunked(items, size);
    assert forall|b: int, i: int|
        #![trigger batches[b][i]]
        0 <= b < batches.len() && 0 <= i < batches[b].len() implies items.contains(
        batches[b][i],
    ) by {
        if items.len() <= size {
            assert(items[i] == batches[b][i]);
        } else if b == 0 {
            assert(items[i] == batches[b][i]);
        } else {
            chunks_come_from(items.skip(size), size);
            let rest = chunked(items.skip(size), size);
            assert(batches[b] == rest[b - 1]);
            assert(items.skip(size).contains(rest[b - 1][i]));
            let k = choose|k: int|
                0 <= k < items.skip(size).len() && items.skip(size)[k] == rest[b - 1][i];
            assert(items[k + size] == batches[b][i]);
        }
    }
}

proof fn below_comes_from(uploads: Seq<PendingUpload<Seq<char>>>, parent: Seq<char>, i: int)
    requires
        0 <= i < uploads_below(uploads, parent).len(),
    ensures
        uploads.contains(uploads_below(uploads, parent)[i]),
        parent_of(uploads_below(uploads, parent)[i].file.relative) == parent,
    decreases uploads.len(),
{
    if uploads.len() > 0 {
        let rest = uploads_below(uploads.drop_last(), parent);
        if i < rest.len() {
            below_comes_from(uploads.drop_last(), parent, i);
            let k = choose|k: int|
                0 <= k < uploads.drop_last().len() && uploads.drop_last()[k] == rest[i];
            assert(uploads[k] == rest[i]);
        } else {
            assert(uploads[uploads.len() - 1] == uploads.last());
        }
    }
}

/// An upload command as it should be: files of its folder, taken from a list, not too many.
pub open spec fn sound_job(job: UploadJobView, uploads: Seq<PendingUpload<Seq<char>>>) -> bool {
    &&& 0 < job.uploads.len() <= UPLOAD_BATCH_SIZE
    &&& forall|i: int|
        0 <= i < job.uploads.len() ==> uploads.contains(#[trigger] job.uploads[i])
            && parent_of(job.uploads[i].file.relative) == job.parent
}

proof fn jobs_are_sound(
    uploads: Seq<PendingUpload<Seq<char>>>,
    parents: Seq<Seq<char>>,
    count: nat,
)
    ensures
        forall|j: int|
            0 <= j < jobs_for(uploads, parents, count).len() ==> sound_job(
                #[trigger] jobs_for(uploads, parents, count)[j],
                uploads,
            ),
    decreases count,
{
    if count > 0 {
        let parent = parents[count - 1];
        let before = jobs_for(uploads, parents, (count - 1) as nat);
        let below = uploads_below(uploads, parent);
        let folder = folder_jobs(parent, below);
        let all = jobs_for(uploads, parents, count);
        let batches = chunked(below, UPLOAD_BATCH_SIZE as int);
        jobs_are_sound(uploads, parents, (count - 1) as nat);
        chunked_is_a_partition(below, UPLOAD_BATCH_SIZE as int);
        chunks_come_from(below, UPLOAD_BATCH_SIZE as int);
        assert forall|j: int| 0 <= j < all.len() implies sound_job(#[trigger] all[j], uploads) by {
            if j < before.len() {
                assert(all[j] == before[j]);
            } else {
                let b = j - before.len();
                assert(all[j] == folder[b]);
                assert(all[j].uploads == batches[b]);
                assert forall|i: int| 0 <= i < all[j].uploads.len() implies uploads.contains(
                    #[trigger] all[j].uploads[i],
                ) && parent_of(all[j].uploads[i].file.relative) == all[j].parent by {
                    assert(below.contains(batches[b][i]));
                    let k = choose|k: int| 0 <= k < below.len() && below[k] == batches[b][i];
                    below_comes_from(uploads, parent, k);
                }
            }
        }
    }
}

/// Upload commands are bounded, none is empty, and each holds files of one folder that were to be
/// uploaded.
pub proof fn upload_jobs_are_sound(uploads: Seq<PendingUpload<Seq<char>>>)
    ensures
        forall|j: int|
            0 <= j < upload_jobs(uploads).len() ==> sound_job(
                #[trigger] upload_jobs(uploads)[j],
                uploads,
            ),
{
    let parents = in_order(upload_parents(uploads));
    jobs_are_sound(uploads, parents, parents.len());
}

/// Uploads of an entry that touch only what they should.
pub open spec fn sound_uploads(sync: SyncConfigView, run: UploadsView) -> bool {
    &&& run.mirror == sync.name
    &&& run.root == sync.local
    &&& run.remote == sync.remote
    &&& forall|j: int|
        #![trigger run.jobs[j]]
        0 <= j < run.jobs.len() ==> 0 < run.jobs[j].uploads.len() <= UPLOAD_BATCH_SIZE && forall|
            i: int,
        |
            0 <= i < run.jobs[j].uploads.len() ==> included(
                sync,
                (#[trigger] run.jobs[j].uploads[i]).file.relative,
            )
}

/// Uploads of files that are not excluded start sound.
pub proof fn uploads_prepare(sync: SyncConfigView, uploads: Seq<PendingUpload<Seq<char>>>)
    requires
        forall|i: int|
            0 <= i < uploads.len() ==> included(sync, (#[trigger] uploads[i]).file.relative),
    ensures
        sound_uploads(sync, uploads_prepared(sync, uploads)),
{
    upload_jobs_are_sound(uploads);
    let run = uploads_prepared(sync, uploads);
    assert forall|j: int| #![trigger run.jobs[j]] 0 <= j < run.jobs.len() implies 0
        < run.jobs[j].uploads.len() <= UPLOAD_BATCH_SIZE && forall|i: int|
        0 <= i < run.jobs[j].uploads.len() ==> included(
            sync,
            (#[trigger] run.jobs[j].uploads[i]).file.relative,
        ) by {
        assert(sound_job(upload_jobs(uploads)[j], uploads));
        assert forall|i: int| 0 <= i < run.jobs[j].uploads.len() implies included(
            sync,
            (#[trigger] run.jobs[j].uploads[i]).file.relative,
        ) by {
            assert(uploads.contains(run.jobs[j].uploads[i]));
        }
    }
}

/// Sound uploads turn to sound commands.
pub proof fn uploads_begin(sync: SyncConfigView, run: UploadsView)
    requires
        sound_uploads(sync, run),
    ensures
        run.begun() matches Ok(Progress::Ask(next, request)) ==> sound_uploads(sync, next)
            && proper(sync, request) && (request is Upload || folder_request(request)),
{
    if run.at < run.jobs.len() {
        uploads_send(sync, run);
    }
}

proof fn uploads_send(sync: SyncConfigView, run: UploadsView)
    requires
        sound_uploads(sync, run),
        run.at < run.jobs.len(),
    ensures
        run.sent() matches Ok(Progress::Ask(next, request)) && sound_uploads(sync, next) && proper(
            sync,
            request,
        ) && request is Upload,
{
    let job = run.jobs[run.at as int];
    let files = run.sources(job.uploads);
    assert forall|i: int| 0 <= i < files.len() implies included_place(sync, #[trigger] files[i]) by {
        let upload = run.jobs[run.at as int].uploads[i];
        assert(included(sync, upload.file.relative));
        assert(files[i] == local_path_of(sync.local, upload.file.relative));
    }
}

proof fn kept_comes_from(
    sync: SyncConfigView,
    run: UploadsView,
    uploads: Seq<PendingUpload<Seq<char>>>,
    failures: Seq<UploadFailureView>,
)
    requires
        forall|i: int|
            0 <= i < uploads.len() ==> included(sync, (#[trigger] uploads[i]).file.relative),
    ensures
        run.kept(uploads, failures) matches Ok(checkpoints) ==> {
            &&& checkpoints.len() <= uploads.len()
            &&& forall|i: int|
                0 <= i < checkpoints.len() ==> included(sync, (#[trigger] checkpoints[i]).path)
        },
    decreases uploads.len(),
{
    if uploads.len() > 0 {
        kept_comes_from(sync, run, uploads.drop_last(), failures);
        assert(included(sync, uploads[uploads.len() - 1].file.relative));
    }
}

/// Uploads stay sound.
pub proof fn uploads_step(sync: SyncConfigView, run: UploadsView, reply: ReplyView)
    requires
        sound_uploads(sync, run),
    ensures
        run.stepped(reply) matches Ok(Progress::Ask(next, request)) ==> sound_uploads(sync, next)
            && proper(sync, request) && (request is Upload || request is Commit || folder_request(
            request,
        )),
{
    if run.at < run.jobs.len() {
        uploads_send(sync, run);
        match (run.stage, reply) {
            (UploadsStage::Ensuring(ensure), _) => {
                ensure_steps(ensure, reply);
            },
            (UploadsStage::Sending, ReplyView::Uploaded(result)) => {
                let job = run.jobs[run.at as int];
                kept_comes_from(sync, run, job.uploads, result.failures);
                let after = run.tallied(result);
                uploads_begin(sync, UploadsView { at: after.at + 1, ..after });
            },
            (UploadsStage::Committing, ReplyView::Done) => {
                uploads_begin(sync, UploadsView { at: run.at + 1, ..run });
            },
            _ => {},
        }
    }
}

/// Uploads ask for nothing but their commands, folders and checkpoints, and keep failures in mind:
/// with one they never come to a good end.
pub proof fn uploads_ask(run: UploadsView, reply: ReplyView)
    ensures
        run.stepped(reply) matches Ok(Progress::Ask(next, request)) ==> {
            &&& request is Upload ==> next.stage is Sending
            &&& request is Upload || request is Commit || folder_request(request)
            &&& run.failures.len() > 0 ==> next.failures.len() > 0
        },
        run.stepped(reply) is Ok && run.stepped(reply)->Ok_0 is Done ==> run.failures.len() == 0
            && (run.stage is Sending && reply is Uploaded ==> reply->Uploaded_0.failures.len()
            == 0),
        run.stage is Sending && reply is Uploaded && reply->Uploaded_0.failures.len() > 0 ==> (
        run.stepped(reply) matches Ok(Progress::Ask(next, request)) ==> next.failures.len() > 0),
{
}

/// A cleanup of an entry that touches only what it should.
pub open spec fn sound_cleanup(sync: SyncConfigView, run: CleanupView) -> bool {
    &&& run.mirror == sync.name
    &&& run.remote == sync.remote
    &&& forall|b: int|
        #![trigger run.batches[b]]
        0 <= b < run.batches.len() ==> 0 < run.batches[b].len() <= TRASH_BATCH_SIZE && forall|
            i: int,
        |
            0 <= i < run.batches[b].len() ==> included(sync, (#[trigger] run.batches[b][i]).path)
}

/// A cleanup of files that are not excluded starts sound.
pub proof fn cleanup_prepares(sync: SyncConfigView, items: Seq<TrashItemView>)
    requires
        forall|i: int| 0 <= i < items.len() ==> included(sync, (#[trigger] items[i]).path),
    ensures
        sound_cleanup(sync, cleanup_prepared(sync, items)),
{
    let size = TRASH_BATCH_SIZE as int;
    chunked_is_a_partition(items, size);
    chunks_come_from(items, size);
    let run = cleanup_prepared(sync, items);
    assert forall|b: int| #![trigger run.batches[b]] 0 <= b < run.batches.len() implies 0
        < run.batches[b].len() <= TRASH_BATCH_SIZE && forall|i: int|
        0 <= i < run.batches[b].len() ==> included(sync, (#[trigger] run.batches[b][i]).path) by {
        assert forall|i: int| 0 <= i < run.batches[b].len() implies included(
            sync,
            (#[trigger] run.batches[b][i]).path,
        ) by {
            assert(items.contains(chunked(items, size)[b][i]));
        }
    }
}

/// A sound cleanup turns to sound batches.
pub proof fn cleanup_begins(sync: SyncConfigView, run: CleanupView)
    requires
        sound_cleanup(sync, run),
    ensures
        run.begun() matches Ok(Progress::Ask(next, request)) ==> sound_cleanup(sync, next)
            && proper(sync, request) && request is TrashRemote,
{
    if run.at < run.batches.len() {
        let batch = run.batches[run.at as int];
        let targets = trash_targets(run.remote, batch);
        assert forall|i: int| 0 <= i < targets.len() implies included_remote(
            sync,
            (#[trigger] targets[i]).remote_path,
        ) by {
            let item = run.batches[run.at as int][i];
            assert(included(sync, item.path));
            assert(targets[i].remote_path == drive_path(sync.remote, item.path));
        }
    }
}

proof fn moved_come_from(
    sync: SyncConfigView,
    batch: Seq<TrashItemView>,
    succeeded: Seq<Seq<char>>,
)
    requires
        forall|i: int| 0 <= i < batch.len() ==> included(sync, (#[trigger] batch[i]).path),
    ensures
        forall|i: int|
            0 <= i < moved_paths(batch, succeeded).len() ==> included(
                sync,
                #[trigger] moved_paths(batch, succeeded)[i],
            ),
    decreases batch.len(),
{
    if batch.len() > 0 {
        moved_come_from(sync, batch.drop_last(), succeeded);
        let before = moved_paths(batch.drop_last(), succeeded);
        let all = moved_paths(batch, succeeded);
        assert forall|i: int| 0 <= i < all.len() implies included(sync, #[trigger] all[i]) by {
            if i < before.len() {
                assert(all[i] == before[i]);
            } else {
                assert(included(sync, batch[batch.len() - 1].path));
            }
        }
    }
}

/// A cleanup stays sound.
pub proof fn cleanup_steps(sync: SyncConfigView, run: CleanupView, reply: ReplyView)
    requires
        sound_cleanup(sync, run),
    ensures
        run.stepped(reply) matches Ok(Progress::Ask(next, request)) ==> sound_cleanup(sync, next)
            && proper(sync, request) && (request is TrashRemote || request is DeleteStates),
{
    if run.at < run.batches.len() {
        match (run.forgetting, reply) {
            (false, ReplyView::Trashed(result)) => {
                moved_come_from(sync, run.batches[run.at as int], result.succeeded_uids);
                let after = run.tallied(result);
                cleanup_begins(sync, CleanupView { at: after.at + 1, ..after });
            },
            (true, ReplyView::Done) => {
                cleanup_begins(sync, CleanupView { at: run.at + 1, ..run });
            },
            _ => {},
        }
    }
}

/// A removal of local files of an entry that touches only what it should.
pub open spec fn sound_removal(sync: SyncConfigView, run: RemovalView) -> bool {
    &&& run.root == sync.local
    &&& forall|i: int| 0 <= i < run.paths.len() ==> included(sync, #[trigger] run.paths[i])
}

/// A sound removal turns to sound files.
pub proof fn removal_begins(sync: SyncConfigView, run: RemovalView)
    requires
        sound_removal(sync, run),
    ensures
        run.begun() matches Progress::Ask(next, request) ==> sound_removal(sync, next) && proper(
            sync,
            request,
        ) && request is TrashLocal,
{
    if run.at < run.paths.len() {
        let path = run.paths[run.at as int];
        assert(included(sync, path));
        assert(included_place(sync, local_path_of(sync.local, path)));
    }
}

/// A removal stays sound.
pub proof fn removal_steps(sync: SyncConfigView, run: RemovalView, reply: ReplyView)
    requires
        sound_removal(sync, run),
    ensures
        run.stepped(reply) matches Ok(Progress::Ask(next, request)) ==> sound_removal(sync, next)
            && proper(sync, request) && (request is TrashLocal || request is DeleteStates),
{
    removal_begins(sync, RemovalView { at: run.at + 1, ..run });
}

/// Checkpoints of paths that are not excluded, cut into batches.
pub open spec fn sound_commits(
    sync: SyncConfigView,
    batches: Seq<Seq<FileCheckpoint<Seq<char>>>>,
) -> bool {
    forall|b: int|
        #![trigger batches[b]]
        0 <= b < batches.len() ==> 0 < batches[b].len() <= CHECKPOINT_BATCH_SIZE && forall|i: int|
            0 <= i < batches[b].len() ==> included(sync, (#[trigger] batches[b][i]).path)
}

/// Commits of paths that are not excluded start sound.
pub proof fn commits_prepare(sync: SyncConfigView, checkpoints: Seq<FileCheckpoint<Seq<char>>>)
    requires
        forall|i: int|
            0 <= i < checkpoints.len() ==> included(sync, (#[trigger] checkpoints[i]).path),
    ensures
        sound_commits(sync, chunked(checkpoints, CHECKPOINT_BATCH_SIZE as int)),
{
    let size = CHECKPOINT_BATCH_SIZE as int;
    chunked_is_a_partition(checkpoints, size);
    chunks_come_from(checkpoints, size);
    let batches = chunked(checkpoints, size);
    assert forall|b: int| #![trigger batches[b]] 0 <= b < batches.len() implies 0
        < batches[b].len() <= CHECKPOINT_BATCH_SIZE && forall|i: int|
        0 <= i < batches[b].len() ==> included(sync, (#[trigger] batches[b][i]).path) by {
        assert forall|i: int| 0 <= i < batches[b].len() implies included(
            sync,
            (#[trigger] batches[b][i]).path,
        ) by {
            assert(checkpoints.contains(chunked(checkpoints, size)[b][i]));
        }
    }
}

/// Sound commits stay sound.
pub proof fn commits_begin(sync: SyncConfigView, batches: Seq<Seq<FileCheckpoint<Seq<char>>>>)
    requires
        sound_commits(sync, batches),
    ensures
        commits_begun(batches) matches Progress::Ask(next, request) ==> sound_commits(sync, next)
            && proper(sync, request) && request is Commit,
{
    if batches.len() > 0 {
        let rest = batches.drop_first();
        assert forall|b: int| #![trigger rest[b]] 0 <= b < rest.len() implies 0 < rest[b].len()
            <= CHECKPOINT_BATCH_SIZE && forall|i: int|
            0 <= i < rest[b].len() ==> included(sync, (#[trigger] rest[b][i]).path) by {
            assert(rest[b] == batches[b + 1]);
        }
    }
}

/// A fetch of an entry that touches only what it should.
pub open spec fn sound_fetch(sync: SyncConfigView, run: FetchView) -> bool {
    &&& run.sync == sync
    &&& forall|i: int| 0 <= i < run.items.len() ==> included(sync, (#[trigger] run.items[i]).path)
    &&& run.pending.len() < CHECKPOINT_BATCH_SIZE
    &&& forall|i: int|
        0 <= i < run.pending.len() ==> included(sync, (#[trigger] run.pending[i]).path)
    &&& run.stage matches FetchStage::Downloading(download) ==> sound_download(sync, download)
}

/// A download of a path that is not excluded.
pub open spec fn sound_download(sync: SyncConfigView, download: DownloadView) -> bool {
    &&& included(sync, download.relative)
    &&& download.target == local_path_of(sync.local, download.relative)
    &&& download.remote_path == drive_path(sync.remote, download.relative)
}

proof fn download_steps(sync: SyncConfigView, run: DownloadView, reply: ReplyView)
    requires
        sound_download(sync, run),
    ensures
        run.stepped(reply) matches Ok(Progress::Ask(next, request)) ==> sound_download(sync, next)
            && proper(sync, request) && fetch_request(request),
{
    assert(included_place(sync, run.target));
    assert(included_remote(sync, run.remote_path));
}

/// What a fetch asks.
pub open spec fn fetch_request(request: RequestView) -> bool {
    request is LoadState || request is Hash || request is Stage || request is Download
        || request is Stat || request is Install || request is Commit
}

/// A fetch of paths that are not excluded starts sound.
pub proof fn fetch_prepares(sync: SyncConfigView, items: Seq<FetchItemView>)
    requires
        forall|i: int| 0 <= i < items.len() ==> included(sync, (#[trigger] items[i]).path),
    ensures
        sound_fetch(sync, fetch_prepared(sync, items)),
{
}

/// A sound fetch turns to sound files.
pub proof fn fetch_advances(sync: SyncConfigView, run: FetchView)
    requires
        sound_fetch(sync, run),
    ensures
        run.advanced() matches Ok(Progress::Ask(next, request)) ==> sound_fetch(sync, next)
            && proper(sync, request) && fetch_request(request),
{
    if run.at < run.items.len() {
        assert(included(sync, run.items[run.at as int].path));
    }
}

proof fn fetch_records(sync: SyncConfigView, run: FetchView, size: u64, mtime_ns: i64)
    requires
        sound_fetch(sync, run),
        run.at < run.items.len(),
    ensures
        run.recorded(size, mtime_ns) matches Ok(Progress::Ask(next, request)) ==> sound_fetch(
            sync,
            next,
        ) && proper(sync, request) && fetch_request(request),
{
    let item = run.items[run.at as int];
    let checkpoint = FileCheckpoint {
        mirror: run.sync.name,
        path: item.path,
        size,
        mtime_ns,
        sha1: item.file.sha1,
    };
    assert(included(sync, run.items[run.at as int].path));
    let (pending, _) = checkpoint_pushed(run.pending, checkpoint);
    let joined = run.pending.push(checkpoint);
    assert forall|i: int| 0 <= i < joined.len() implies included(
        sync,
        (#[trigger] joined[i]).path,
    ) by {
        if i < run.pending.len() {
            assert(joined[i] == run.pending[i]);
        }
    }
    fetch_advances(sync, FetchView { at: run.at + 1, pending, ..run });
}

/// A fetch stays sound.
pub proof fn fetch_steps(sync: SyncConfigView, run: FetchView, reply: ReplyView)
    requires
        sound_fetch(sync, run),
    ensures
        run.stepped(reply) matches Ok(Progress::Ask(next, request)) ==> sound_fetch(sync, next)
            && proper(sync, request) && fetch_request(request),
{
    fetch_advances(sync, run);
    if run.at < run.items.len() {
        let item = run.items[run.at as int];
        assert(included(sync, run.items[run.at as int].path));
        let same = FetchedView {
            unchanged: run.fetched.unchanged.push(item.path),
            ..run.fetched
        };
        let brought = FetchedView {
            downloaded: run.fetched.downloaded.push(item.path),
            ..run.fetched
        };
        if let Some(local) = item.local {
            fetch_records(
                sync,
                FetchView { fetched: same, ..run },
                local.size,
                local.mtime_ns,
            );
        }
        if let FetchStage::Downloading(download) = run.stage {
            download_steps(sync, download, reply);
            if let Ok(Progress::Done(local)) = download.stepped(reply) {
                fetch_records(
                    sync,
                    FetchView { fetched: brought, ..run },
                    local.size,
                    local.mtime_ns,
                );
            }
        }
    }
}

} // verus!
