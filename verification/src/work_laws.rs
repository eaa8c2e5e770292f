//! What the parts of a sync ask for that change something: uploads, moves to the trash on both sides,
//! and what is remembered and forgotten with them.

use crate::batches::chunked;
use crate::cleanup::{cleanup_prepared, moved_paths, trash_targets, CleanupView, TrashItemView};
use crate::cleanup::TRASH_BATCH_SIZE;
use crate::config::SyncConfigView;
use crate::drive::TrashTargetView;
use crate::exchange::{Progress, ReplyView, RequestView};
use crate::fetch::{FetchItemView, FetchStage, FetchView, FetchedView};
use crate::paths::{drive_path, last_slash, parent_of};
use crate::removal::RemovalView;
use crate::scan::local_path_of;
use crate::soundness::{chunks_come_from, sound_job, upload_jobs_are_sound};
use crate::state::{checkpoint_pushed, FileCheckpoint};
use crate::upload_laws::{chunks_hold_every_item, every_upload_is_sent, exactly_successes_are_kept};
use crate::uploads::{upload_jobs, uploads_prepared, PendingUpload, UploadsView};
use vstd::prelude::*;

verus! {

/// The folder that a path is in: what stands before its last slash, and the root if there is none.
pub open spec fn lies_in(path: Seq<char>, folder: Seq<char>) -> bool {
    ||| folder.len() == 0 && forall|j: int| 0 <= j < path.len() ==> #[trigger] path[j] != '/'
    ||| {
        &&& folder.len() < path.len()
        &&& path[folder.len() as int] == '/'
        &&& folder == path.take(folder.len() as int)
        &&& forall|j: int| folder.len() < j < path.len() ==> #[trigger] path[j] != '/'
    }
}

/// There is a slash at the last slash of a path, and none behind it.
pub proof fn last_slash_is_last(path: Seq<char>)
    ensures
        -1 <= last_slash(path) < path.len(),
        last_slash(path) >= 0 ==> path[last_slash(path)] == '/',
        forall|j: int| last_slash(path) < j < path.len() ==> #[trigger] path[j] != '/',
    decreases path.len(),
{
    if path.len() > 0 && path.last() != '/' {
        let rest = path.drop_last();
        last_slash_is_last(rest);
        assert forall|j: int| last_slash(path) < j < path.len() implies #[trigger] path[j] != '/' by {
            if j < rest.len() {
                assert(rest[j] == path[j]);
            }
        }
    }
}

/// The folder of a path is the one that it lies in.
pub proof fn paths_lie_in_their_parent(path: Seq<char>)
    ensures
        lies_in(path, parent_of(path)),
{
    last_slash_is_last(path);
}

/// A file that is part of an upload command: its local place, and the folder on the drive that its
/// path is in.
pub open spec fn sent_as(
    sync: SyncConfigView,
    file: Seq<char>,
    parent: Seq<char>,
    path: Seq<char>,
) -> bool {
    &&& file == local_path_of(sync.local, path)
    &&& exists|folder: Seq<char>| #[trigger]
        lies_in(path, folder) && parent == drive_path(sync.remote, folder)
}

/// What is remembered of an upload: the file as it was found, and the digest if one is known.
pub open spec fn saved_as(
    sync: SyncConfigView,
    checkpoint: FileCheckpoint<Seq<char>>,
    upload: PendingUpload<Seq<char>>,
) -> bool {
    &&& checkpoint.mirror == sync.name
    &&& checkpoint.path == upload.file.relative
    &&& checkpoint.size == upload.file.size
    &&& checkpoint.mtime_ns == upload.file.mtime_ns
    &&& match upload.checkpoint_sha1 {
        Some(sha1) => checkpoint.sha1 == sha1,
        None => checkpoint.sha1.len() == 0,
    }
}

/// A file is sent by a request.
pub open spec fn sends_path(sync: SyncConfigView, request: RequestView, path: Seq<char>) -> bool {
    request matches RequestView::Upload { files, parent } && exists|k: int|
        0 <= k < files.len() && sent_as(sync, #[trigger] files[k], parent, path)
}

/// A file of an upload command that is wanted.
pub open spec fn sent_as_wanted(
    sync: SyncConfigView,
    file: Seq<char>,
    parent: Seq<char>,
    wanted: spec_fn(PendingUpload<Seq<char>>) -> bool,
) -> bool {
    exists|upload: PendingUpload<Seq<char>>| #[trigger]
        wanted(upload) && sent_as(sync, file, parent, upload.file.relative)
}

/// Something remembered of an upload that is wanted.
pub open spec fn saved_as_wanted(
    sync: SyncConfigView,
    checkpoint: FileCheckpoint<Seq<char>>,
    wanted: spec_fn(PendingUpload<Seq<char>>) -> bool,
) -> bool {
    exists|upload: PendingUpload<Seq<char>>| #[trigger]
        wanted(upload) && saved_as(sync, checkpoint, upload)
}

/// A request that sends and remembers only uploads that are wanted, or that is about folders.
pub open spec fn uploads_only(
    sync: SyncConfigView,
    request: RequestView,
    wanted: spec_fn(PendingUpload<Seq<char>>) -> bool,
) -> bool {
    match request {
        RequestView::Upload { files, parent } => forall|k: int|
            0 <= k < files.len() ==> sent_as_wanted(sync, #[trigger] files[k], parent, wanted),
        RequestView::Commit { checkpoints } => forall|k: int|
            0 <= k < checkpoints.len() ==> saved_as_wanted(
                sync,
                #[trigger] checkpoints[k],
                wanted,
            ),
        RequestView::KnowsDirectory { .. } => true,
        RequestView::Info { .. } => true,
        RequestView::CreateFolder { .. } => true,
        RequestView::SaveDirectory { .. } => true,
        _ => false,
    }
}

/// Uploads in progress, all wanted and each in the command of its folder.
pub open spec fn wanted_uploads(
    sync: SyncConfigView,
    run: UploadsView,
    wanted: spec_fn(PendingUpload<Seq<char>>) -> bool,
) -> bool {
    &&& run.mirror == sync.name
    &&& run.root == sync.local
    &&& run.remote == sync.remote
    &&& forall|j: int, i: int|
        #![trigger run.jobs[j].uploads[i]]
        0 <= j < run.jobs.len() && 0 <= i < run.jobs[j].uploads.len() ==> wanted(
            run.jobs[j].uploads[i],
        ) && lies_in(run.jobs[j].uploads[i].file.relative, run.jobs[j].parent)
}

/// Uploads that have not begun are those that were asked for.
pub proof fn uploads_start_wanted(
    sync: SyncConfigView,
    uploads: Seq<PendingUpload<Seq<char>>>,
    wanted: spec_fn(PendingUpload<Seq<char>>) -> bool,
)
    requires
        forall|u: int| 0 <= u < uploads.len() ==> wanted(#[trigger] uploads[u]),
    ensures
        wanted_uploads(sync, uploads_prepared(sync, uploads), wanted),
{
    let run = uploads_prepared(sync, uploads);
    upload_jobs_are_sound(uploads);
    assert forall|j: int, i: int|
        #![trigger run.jobs[j].uploads[i]]
        0 <= j < run.jobs.len() && 0 <= i < run.jobs[j].uploads.len() implies wanted(
        run.jobs[j].uploads[i],
    ) && lies_in(run.jobs[j].uploads[i].file.relative, run.jobs[j].parent) by {
        assert(sound_job(upload_jobs(uploads)[j], uploads));
        let upload = run.jobs[j].uploads[i];
        assert(uploads.contains(upload));
        let u = choose|u: int| 0 <= u < uploads.len() && uploads[u] == upload;
        assert(wanted(uploads[u]));
        paths_lie_in_their_parent(upload.file.relative);
    }
}

proof fn wanted_are_sent(
    sync: SyncConfigView,
    run: UploadsView,
    wanted: spec_fn(PendingUpload<Seq<char>>) -> bool,
)
    requires
        wanted_uploads(sync, run, wanted),
        run.at < run.jobs.len(),
    ensures
        run.sent() matches Ok(Progress::Ask(next, asked)) && wanted_uploads(sync, next, wanted)
            && uploads_only(sync, asked, wanted),
        forall|i: int|
            0 <= i < run.jobs[run.at as int].uploads.len() ==> sends_path(
                sync,
                run.sent()->Ok_0->Ask_1,
                (#[trigger] run.jobs[run.at as int].uploads[i]).file.relative,
            ),
{
    let job = run.jobs[run.at as int];
    let files = run.sources(job.uploads);
    let parent = drive_path(sync.remote, job.parent);
    assert forall|k: int| 0 <= k < files.len() implies sent_as_wanted(
        sync,
        #[trigger] files[k],
        parent,
        wanted,
    ) && sent_as(sync, files[k], parent, job.uploads[k].file.relative) by {
        let upload = run.jobs[run.at as int].uploads[k];
        assert(wanted(upload) && lies_in(upload.file.relative, job.parent));
        assert(sent_as(sync, files[k], parent, upload.file.relative));
    }
    let asked = run.sent()->Ok_0->Ask_1;
    assert(asked == RequestView::Upload { files, parent });
    assert forall|i: int| 0 <= i < job.uploads.len() implies sends_path(
        sync,
        asked,
        (#[trigger] job.uploads[i]).file.relative,
    ) by {
        assert(0 <= i < files.len());
        assert(sent_as(sync, asked->Upload_files[i], parent, job.uploads[i].file.relative));
    }
}

/// Uploads that turn to the command at hand ask only for what is wanted.
pub proof fn wanted_uploads_begin(
    sync: SyncConfigView,
    run: UploadsView,
    wanted: spec_fn(PendingUpload<Seq<char>>) -> bool,
)
    requires
        wanted_uploads(sync, run, wanted),
    ensures
        run.begun() matches Ok(Progress::Ask(next, asked)) ==> wanted_uploads(sync, next, wanted)
            && uploads_only(sync, asked, wanted),
{
    if run.at < run.jobs.len() {
        wanted_are_sent(sync, run, wanted);
    }
}

/// Uploads go on asking only for what is wanted.
pub proof fn wanted_uploads_go_on(
    sync: SyncConfigView,
    run: UploadsView,
    wanted: spec_fn(PendingUpload<Seq<char>>) -> bool,
    reply: ReplyView,
)
    requires
        wanted_uploads(sync, run, wanted),
    ensures
        run.stepped(reply) matches Ok(Progress::Ask(next, asked)) ==> wanted_uploads(
            sync,
            next,
            wanted,
        ) && uploads_only(sync, asked, wanted),
{
    if run.at < run.jobs.len() {
        wanted_are_sent(sync, run, wanted);
        wanted_uploads_begin(sync, UploadsView { at: run.at + 1, ..run }, wanted);
        if let ReplyView::Uploaded(result) = reply {
            let uploads = run.jobs[run.at as int].uploads;
            wanted_uploads_begin(
                sync,
                UploadsView { at: run.at + 1, ..run.tallied(result) },
                wanted,
            );
            if let Ok(checkpoints) = run.kept(uploads, result.failures) {
                exactly_successes_are_kept(run, uploads, result.failures);
                assert forall|k: int| 0 <= k < checkpoints.len() implies saved_as_wanted(
                    sync,
                    #[trigger] checkpoints[k],
                    wanted,
                ) by {
                    let all = run.kept(uploads, result.failures)->Ok_0;
                    let i = choose|i: int|
                        0 <= i < uploads.len() && run.checkpoint(#[trigger] uploads[i]) == all[k];
                    assert(wanted(run.jobs[run.at as int].uploads[i]));
                    assert(saved_as(sync, checkpoints[k], uploads[i]));
                }
            }
        }
    }
}

/// Uploads that still owe a file: it is in a command that is not sent yet.
pub open spec fn owes_path(run: UploadsView, upload: PendingUpload<Seq<char>>) -> bool {
    exists|j: int, i: int|
        {
            &&& 0 <= j < run.jobs.len()
            &&& 0 <= i < run.jobs[j].uploads.len()
            &&& #[trigger] run.jobs[j].uploads[i] == upload
            &&& run.at < j || (run.at == j && run.stage is Ensuring)
        }
}

proof fn begun_uploads_owe_path(
    sync: SyncConfigView,
    run: UploadsView,
    wanted: spec_fn(PendingUpload<Seq<char>>) -> bool,
    j: int,
    i: int,
)
    requires
        wanted_uploads(sync, run, wanted),
        run.at <= j < run.jobs.len(),
        0 <= i < run.jobs[j].uploads.len(),
    ensures
        run.begun() matches Ok(Progress::Ask(next, asked)) && (owes_path(
            next,
            run.jobs[j].uploads[i],
        ) || sends_path(sync, asked, run.jobs[j].uploads[i].file.relative)),
{
    let next = run.begun()->Ok_0->Ask_0;
    assert(next.jobs[j].uploads[i] == run.jobs[j].uploads[i]);
    if run.at == j {
        wanted_are_sent(sync, run, wanted);
    }
}

/// Uploads that have not begun owe every file that was asked for.
pub proof fn prepared_uploads_owe_path(
    sync: SyncConfigView,
    uploads: Seq<PendingUpload<Seq<char>>>,
    wanted: spec_fn(PendingUpload<Seq<char>>) -> bool,
    u: int,
)
    requires
        forall|v: int| 0 <= v < uploads.len() ==> wanted(#[trigger] uploads[v]),
        0 <= u < uploads.len(),
    ensures
        uploads_prepared(sync, uploads).begun() matches Ok(Progress::Ask(next, asked)) && (owes_path(
            next,
            uploads[u],
        ) || sends_path(sync, asked, uploads[u].file.relative)),
{
    let run = uploads_prepared(sync, uploads);
    uploads_start_wanted(sync, uploads, wanted);
    every_upload_is_sent(uploads, u);
    let j = choose|j: int|
        0 <= j < upload_jobs(uploads).len() && (#[trigger] upload_jobs(uploads)[j]).uploads.contains(
            uploads[u],
        );
    let job = run.jobs[j].uploads;
    let i = choose|i: int| 0 <= i < job.len() && job[i] == uploads[u];
    begun_uploads_owe_path(sync, run, wanted, j, i);
}

/// Uploads go on owing a file until they send it, and do not come to a good end before.
pub proof fn uploads_go_on_owing(
    sync: SyncConfigView,
    run: UploadsView,
    wanted: spec_fn(PendingUpload<Seq<char>>) -> bool,
    upload: PendingUpload<Seq<char>>,
    reply: ReplyView,
)
    requires
        wanted_uploads(sync, run, wanted),
        owes_path(run, upload),
    ensures
        match run.stepped(reply) {
            Err(_) => true,
            Ok(Progress::Done(_)) => false,
            Ok(Progress::Ask(next, asked)) => owes_path(next, upload) || sends_path(
                sync,
                asked,
                upload.file.relative,
            ),
        },
{
    let (j, i) = choose|j: int, i: int|
        {
            &&& 0 <= j < run.jobs.len()
            &&& 0 <= i < run.jobs[j].uploads.len()
            &&& #[trigger] run.jobs[j].uploads[i] == upload
            &&& run.at < j || (run.at == j && run.stage is Ensuring)
        };
    if run.at == j {
        wanted_are_sent(sync, run, wanted);
        if let Ok(Progress::Ask(next, _)) = run.stepped(reply) {
            assert(next.jobs[j].uploads[i] == upload);
        }
    } else {
        begun_uploads_owe_path(sync, UploadsView { at: run.at + 1, ..run }, wanted, j, i);
        if let ReplyView::Uploaded(result) = reply {
            begun_uploads_owe_path(
                sync,
                UploadsView { at: run.at + 1, ..run.tallied(result) },
                wanted,
                j,
                i,
            );
        }
        if let Ok(Progress::Ask(next, _)) = run.stepped(reply) {
            assert(next.jobs == run.jobs);
            assert(next.jobs[j].uploads[i] == upload);
        }
    }
}

/// A remote file that is part of a trash command.
pub open spec fn trashed_as(
    sync: SyncConfigView,
    target: TrashTargetView,
    item: TrashItemView,
) -> bool {
    target.remote_path == drive_path(sync.remote, item.path) && target.uid == item.file.uid
}

/// A remote file is moved to the trash by a request.
pub open spec fn trashes_item(
    sync: SyncConfigView,
    request: RequestView,
    item: TrashItemView,
) -> bool {
    request matches RequestView::TrashRemote { targets } && exists|k: int|
        0 <= k < targets.len() && trashed_as(sync, #[trigger] targets[k], item)
}

/// A target of a trash command that is to go.
pub open spec fn trashed_as_doomed(
    sync: SyncConfigView,
    target: TrashTargetView,
    doomed: spec_fn(TrashItemView) -> bool,
) -> bool {
    exists|item: TrashItemView| #[trigger] doomed(item) && trashed_as(sync, target, item)
}

/// The path of a remote file that is to go.
pub open spec fn path_of_doomed(
    path: Seq<char>,
    doomed: spec_fn(TrashItemView) -> bool,
) -> bool {
    exists|item: TrashItemView| #[trigger] doomed(item) && item.path == path
}

/// A request that trashes and forgets only remote files that are to go.
pub open spec fn trashes_only_doomed(
    sync: SyncConfigView,
    request: RequestView,
    doomed: spec_fn(TrashItemView) -> bool,
) -> bool {
    match request {
        RequestView::TrashRemote { targets } => forall|k: int|
            0 <= k < targets.len() ==> trashed_as_doomed(sync, #[trigger] targets[k], doomed),
        RequestView::DeleteStates { mirror, paths } => mirror == sync.name && forall|k: int|
            0 <= k < paths.len() ==> path_of_doomed(#[trigger] paths[k], doomed),
        _ => false,
    }
}

/// A cleanup in progress, of files that are to go.
pub open spec fn doomed_cleanup(
    sync: SyncConfigView,
    run: CleanupView,
    doomed: spec_fn(TrashItemView) -> bool,
) -> bool {
    &&& run.mirror == sync.name
    &&& run.remote == sync.remote
    &&& forall|b: int, i: int|
        #![trigger run.batches[b][i]]
        0 <= b < run.batches.len() && 0 <= i < run.batches[b].len() ==> doomed(run.batches[b][i])
}

/// A cleanup that has not begun is of the files that were asked for.
pub proof fn cleanup_starts_doomed(
    sync: SyncConfigView,
    items: Seq<TrashItemView>,
    doomed: spec_fn(TrashItemView) -> bool,
)
    requires
        forall|k: int| 0 <= k < items.len() ==> doomed(#[trigger] items[k]),
    ensures
        doomed_cleanup(sync, cleanup_prepared(sync, items), doomed),
{
    let run = cleanup_prepared(sync, items);
    let size = TRASH_BATCH_SIZE as int;
    chunks_come_from(items, size);
    assert forall|b: int, i: int|
        #![trigger run.batches[b][i]]
        0 <= b < run.batches.len() && 0 <= i < run.batches[b].len() implies doomed(
        run.batches[b][i],
    ) by {
        assert(items.contains(chunked(items, size)[b][i]));
        let k = choose|k: int| 0 <= k < items.len() && items[k] == run.batches[b][i];
        assert(doomed(items[k]));
    }
}

proof fn moved_paths_come_from(batch: Seq<TrashItemView>, succeeded: Seq<Seq<char>>, k: int)
    requires
        0 <= k < moved_paths(batch, succeeded).len(),
    ensures
        exists|i: int|
            0 <= i < batch.len() && (#[trigger] batch[i]).path == moved_paths(batch, succeeded)[k]
                && succeeded.contains(batch[i].file.uid),
    decreases batch.len(),
{
    let before = batch.drop_last();
    let rest = moved_paths(before, succeeded);
    if k < rest.len() {
        moved_paths_come_from(before, succeeded, k);
        let i = choose|i: int|
            0 <= i < before.len() && (#[trigger] before[i]).path == rest[k] && succeeded.contains(
                before[i].file.uid,
            );
        assert(batch[i] == before[i]);
    } else {
        assert(batch[batch.len() - 1] == batch.last());
    }
}

/// A cleanup that turns to the batch at hand trashes only what is to go.
pub proof fn doomed_cleanup_begins(
    sync: SyncConfigView,
    run: CleanupView,
    doomed: spec_fn(TrashItemView) -> bool,
)
    requires
        doomed_cleanup(sync, run, doomed),
    ensures
        run.begun() matches Ok(Progress::Ask(next, asked)) ==> {
            &&& doomed_cleanup(sync, next, doomed)
            &&& trashes_only_doomed(sync, asked, doomed)
            &&& forall|i: int|
                0 <= i < run.batches[run.at as int].len() ==> trashes_item(
                    sync,
                    asked,
                    #[trigger] run.batches[run.at as int][i],
                )
        },
{
    if run.at < run.batches.len() {
        let batch = run.batches[run.at as int];
        let targets = trash_targets(run.remote, batch);
        assert forall|k: int| 0 <= k < targets.len() implies trashed_as_doomed(
            sync,
            #[trigger] targets[k],
            doomed,
        ) && trashed_as(sync, targets[k], batch[k]) by {
            assert(doomed(run.batches[run.at as int][k]));
            assert(trashed_as(sync, targets[k], batch[k]));
        }
        let asked = run.begun()->Ok_0->Ask_1;
        assert(asked == RequestView::TrashRemote { targets });
        assert forall|i: int| 0 <= i < batch.len() implies trashes_item(
            sync,
            asked,
            #[trigger] batch[i],
        ) by {
            assert(0 <= i < targets.len());
            assert(trashed_as(sync, asked->targets[i], batch[i]));
        }
    }
}

/// A cleanup goes on trashing and forgetting only what is to go.
pub proof fn doomed_cleanup_goes_on(
    sync: SyncConfigView,
    run: CleanupView,
    doomed: spec_fn(TrashItemView) -> bool,
    reply: ReplyView,
)
    requires
        doomed_cleanup(sync, run, doomed),
    ensures
        run.stepped(reply) matches Ok(Progress::Ask(next, asked)) ==> doomed_cleanup(
            sync,
            next,
            doomed,
        ) && trashes_only_doomed(sync, asked, doomed),
{
    if run.at < run.batches.len() {
        doomed_cleanup_begins(sync, CleanupView { at: run.at + 1, ..run }, doomed);
        if let ReplyView::Trashed(result) = reply {
            let batch = run.batches[run.at as int];
            let paths = moved_paths(batch, result.succeeded_uids);
            doomed_cleanup_begins(
                sync,
                CleanupView { at: run.at + 1, ..run.tallied(result) },
                doomed,
            );
            assert forall|k: int| 0 <= k < paths.len() implies path_of_doomed(
                #[trigger] paths[k],
                doomed,
            ) by {
                moved_paths_come_from(batch, result.succeeded_uids, k);
                let i = choose|i: int|
                    0 <= i < batch.len() && (#[trigger] batch[i]).path == paths[k]
                        && result.succeeded_uids.contains(batch[i].file.uid);
                assert(doomed(run.batches[run.at as int][i]));
            }
        }
    }
}

/// A cleanup that still owes a file: it is in a batch that is not trashed yet.
pub open spec fn owes_item(run: CleanupView, item: TrashItemView) -> bool {
    exists|b: int, i: int|
        {
            &&& run.at < b < run.batches.len()
            &&& 0 <= i < run.batches[b].len()
            &&& #[trigger] run.batches[b][i] == item
        }
}

proof fn begun_cleanup_owes_item(
    sync: SyncConfigView,
    run: CleanupView,
    doomed: spec_fn(TrashItemView) -> bool,
    b: int,
    i: int,
)
    requires
        doomed_cleanup(sync, run, doomed),
        run.at <= b < run.batches.len(),
        0 <= i < run.batches[b].len(),
    ensures
        run.begun() matches Ok(Progress::Ask(next, asked)) && (owes_item(next, run.batches[b][i])
            || trashes_item(sync, asked, run.batches[b][i])),
{
    let next = run.begun()->Ok_0->Ask_0;
    assert(next.batches[b][i] == run.batches[b][i]);
    doomed_cleanup_begins(sync, run, doomed);
}

/// A cleanup that has not begun owes every file that was asked for.
pub proof fn prepared_cleanup_owes_item(
    sync: SyncConfigView,
    items: Seq<TrashItemView>,
    doomed: spec_fn(TrashItemView) -> bool,
    k: int,
)
    requires
        forall|m: int| 0 <= m < items.len() ==> doomed(#[trigger] items[m]),
        0 <= k < items.len(),
    ensures
        cleanup_prepared(sync, items).begun() matches Ok(Progress::Ask(next, asked)) && (owes_item(
            next,
            items[k],
        ) || trashes_item(sync, asked, items[k])),
{
    let run = cleanup_prepared(sync, items);
    let size = TRASH_BATCH_SIZE as int;
    cleanup_starts_doomed(sync, items, doomed);
    chunks_hold_every_item(items, size, k);
    let b = choose|b: int|
        0 <= b < chunked(items, size).len() && (#[trigger] chunked(items, size)[b]).contains(
            items[k],
        );
    let batch = run.batches[b];
    let i = choose|i: int| 0 <= i < batch.len() && batch[i] == items[k];
    begun_cleanup_owes_item(sync, run, doomed, b, i);
}

/// A cleanup goes on owing a file until it trashes it, and does not come to a good end before.
pub proof fn cleanup_goes_on_owing(
    sync: SyncConfigView,
    run: CleanupView,
    doomed: spec_fn(TrashItemView) -> bool,
    item: TrashItemView,
    reply: ReplyView,
)
    requires
        doomed_cleanup(sync, run, doomed),
        owes_item(run, item),
    ensures
        match run.stepped(reply) {
            Err(_) => true,
            Ok(Progress::Done(_)) => false,
            Ok(Progress::Ask(next, asked)) => owes_item(next, item) || trashes_item(
                sync,
                asked,
                item,
            ),
        },
{
    let (b, i) = choose|b: int, i: int|
        {
            &&& run.at < b < run.batches.len()
            &&& 0 <= i < run.batches[b].len()
            &&& #[trigger] run.batches[b][i] == item
        };
    begun_cleanup_owes_item(sync, CleanupView { at: run.at + 1, ..run }, doomed, b, i);
    if let ReplyView::Trashed(result) = reply {
        begun_cleanup_owes_item(
            sync,
            CleanupView { at: run.at + 1, ..run.tallied(result) },
            doomed,
            b,
            i,
        );
    }
    if let Ok(Progress::Ask(next, _)) = run.stepped(reply) {
        assert(next.batches == run.batches);
        assert(next.batches[b][i] == item);
    }
}

/// A request that trashes or forgets only local files at paths that are gone.
pub open spec fn removes_only_gone(
    sync: SyncConfigView,
    request: RequestView,
    gone: spec_fn(Seq<char>) -> bool,
) -> bool {
    match request {
        RequestView::TrashLocal { path } => exists|relative: Seq<char>| #[trigger]
            gone(relative) && path == local_path_of(sync.local, relative),
        RequestView::DeleteStates { mirror, paths } => mirror == sync.name && forall|k: int|
            0 <= k < paths.len() ==> gone(#[trigger] paths[k]),
        _ => false,
    }
}

/// A removal in progress, of files that are gone.
pub open spec fn gone_removal(
    sync: SyncConfigView,
    run: RemovalView,
    gone: spec_fn(Seq<char>) -> bool,
) -> bool {
    &&& run.mirror == sync.name
    &&& run.root == sync.local
    &&& forall|k: int| 0 <= k < run.paths.len() ==> gone(#[trigger] run.paths[k])
}

/// A removal asks only for files that are gone.
pub proof fn gone_removal_begins(
    sync: SyncConfigView,
    run: RemovalView,
    gone: spec_fn(Seq<char>) -> bool,
)
    requires
        gone_removal(sync, run, gone),
    ensures
        run.begun() matches Progress::Ask(next, asked) ==> gone_removal(sync, next, gone)
            && removes_only_gone(sync, asked, gone),
{
    if run.at < run.paths.len() {
        assert(gone(run.paths[run.at as int]));
    }
}

/// A removal goes on asking only for files that are gone.
pub proof fn gone_removal_goes_on(
    sync: SyncConfigView,
    run: RemovalView,
    gone: spec_fn(Seq<char>) -> bool,
    reply: ReplyView,
)
    requires
        gone_removal(sync, run, gone),
    ensures
        run.stepped(reply) matches Ok(Progress::Ask(next, asked)) ==> gone_removal(sync, next, gone)
            && removes_only_gone(sync, asked, gone),
{
    if run.at < run.paths.len() {
        assert(gone(run.paths[run.at as int]));
        gone_removal_begins(sync, RemovalView { at: run.at + 1, ..run }, gone);
    }
}

/// What is remembered of a remote file that was brought: its path and its digest.
pub open spec fn recorded_as(
    sync: SyncConfigView,
    checkpoint: FileCheckpoint<Seq<char>>,
    item: FetchItemView,
) -> bool {
    &&& checkpoint.mirror == sync.name
    &&& checkpoint.path == item.path
    &&& checkpoint.sha1 == item.file.sha1
}

/// Something remembered of a remote file that is wanted.
pub open spec fn recorded_as_wanted(
    sync: SyncConfigView,
    checkpoint: FileCheckpoint<Seq<char>>,
    wanted: spec_fn(FetchItemView) -> bool,
) -> bool {
    exists|item: FetchItemView| #[trigger] wanted(item) && recorded_as(sync, checkpoint, item)
}

/// The local place of a remote file that is wanted.
pub open spec fn place_of_wanted(
    sync: SyncConfigView,
    place: Seq<char>,
    wanted: spec_fn(FetchItemView) -> bool,
) -> bool {
    exists|item: FetchItemView| #[trigger]
        wanted(item) && place == local_path_of(sync.local, item.path)
}

/// The path on the drive of a remote file that is wanted.
pub open spec fn source_of_wanted(
    sync: SyncConfigView,
    source: Seq<char>,
    wanted: spec_fn(FetchItemView) -> bool,
) -> bool {
    exists|item: FetchItemView| #[trigger]
        wanted(item) && source == drive_path(sync.remote, item.path)
}

/// A request that brings and remembers only remote files that are wanted.
pub open spec fn fetches_only(
    sync: SyncConfigView,
    request: RequestView,
    wanted: spec_fn(FetchItemView) -> bool,
) -> bool {
    match request {
        RequestView::LoadState { mirror, .. } => mirror == sync.name,
        RequestView::Hash { .. } => true,
        RequestView::Stat { .. } => true,
        RequestView::Stage { target } => place_of_wanted(sync, target, wanted),
        RequestView::Install { target, .. } => place_of_wanted(sync, target, wanted),
        RequestView::Download { path, .. } => source_of_wanted(sync, path, wanted),
        RequestView::Commit { checkpoints } => forall|k: int|
            0 <= k < checkpoints.len() ==> recorded_as_wanted(
                sync,
                #[trigger] checkpoints[k],
                wanted,
            ),
        _ => false,
    }
}

/// A fetch in progress, of remote files that are wanted.
pub open spec fn wanted_fetch(
    sync: SyncConfigView,
    run: FetchView,
    wanted: spec_fn(FetchItemView) -> bool,
) -> bool {
    &&& run.sync == sync
    &&& forall|k: int| 0 <= k < run.items.len() ==> wanted(#[trigger] run.items[k])
    &&& forall|k: int|
        0 <= k < run.pending.len() ==> recorded_as_wanted(sync, #[trigger] run.pending[k], wanted)
    &&& run.stage matches FetchStage::Downloading(download) ==> {
        &&& run.at < run.items.len()
        &&& download.target == local_path_of(sync.local, run.items[run.at as int].path)
        &&& download.remote_path == drive_path(sync.remote, run.items[run.at as int].path)
    }
}

/// A fetch that turns to the file at hand asks only for what is wanted.
pub proof fn wanted_fetch_begins(
    sync: SyncConfigView,
    run: FetchView,
    wanted: spec_fn(FetchItemView) -> bool,
)
    requires
        run.sync == sync,
        forall|k: int| 0 <= k < run.items.len() ==> wanted(#[trigger] run.items[k]),
        forall|k: int|
            0 <= k < run.pending.len() ==> recorded_as_wanted(
                sync,
                #[trigger] run.pending[k],
                wanted,
            ),
    ensures
        run.advanced() matches Ok(Progress::Ask(next, asked)) ==> wanted_fetch(sync, next, wanted)
            && fetches_only(sync, asked, wanted),
{
    if run.at < run.items.len() {
        assert(wanted(run.items[run.at as int]));
    }
}

proof fn wanted_fetch_records(
    sync: SyncConfigView,
    run: FetchView,
    wanted: spec_fn(FetchItemView) -> bool,
    size: u64,
    mtime_ns: i64,
)
    requires
        wanted_fetch(sync, run, wanted),
        run.at < run.items.len(),
    ensures
        run.recorded(size, mtime_ns) matches Ok(Progress::Ask(next, asked)) ==> wanted_fetch(
            sync,
            next,
            wanted,
        ) && fetches_only(sync, asked, wanted),
{
    let item = run.items[run.at as int];
    let checkpoint = FileCheckpoint {
        mirror: sync.name,
        path: item.path,
        size,
        mtime_ns,
        sha1: item.file.sha1,
    };
    let all = run.pending.push(checkpoint);
    assert(wanted(item));
    assert(recorded_as(sync, checkpoint, item));
    assert forall|k: int| 0 <= k < all.len() implies recorded_as_wanted(
        sync,
        #[trigger] all[k],
        wanted,
    ) by {
        if k < run.pending.len() {
            assert(all[k] == run.pending[k]);
        }
    }
    let (pending, _) = checkpoint_pushed(run.pending, checkpoint);
    wanted_fetch_begins(sync, FetchView { at: run.at + 1, pending, ..run }, wanted);
}

/// A fetch goes on asking only for what is wanted.
pub proof fn wanted_fetch_goes_on(
    sync: SyncConfigView,
    run: FetchView,
    wanted: spec_fn(FetchItemView) -> bool,
    reply: ReplyView,
)
    requires
        wanted_fetch(sync, run, wanted),
    ensures
        run.stepped(reply) matches Ok(Progress::Ask(next, asked)) ==> wanted_fetch(
            sync,
            next,
            wanted,
        ) && fetches_only(sync, asked, wanted),
{
    wanted_fetch_begins(sync, run, wanted);
    if run.at < run.items.len() {
        let item = run.items[run.at as int];
        let path = item.path;
        assert(wanted(item));
        assert(place_of_wanted(sync, local_path_of(sync.local, path), wanted));
        assert(source_of_wanted(sync, drive_path(sync.remote, path), wanted));
        let matched = FetchView {
            fetched: FetchedView { unchanged: run.fetched.unchanged.push(path), ..run.fetched },
            ..run
        };
        let downloaded = FetchView {
            fetched: FetchedView { downloaded: run.fetched.downloaded.push(path), ..run.fetched },
            ..run
        };
        if let Some(local) = item.local {
            wanted_fetch_records(sync, matched, wanted, local.size, local.mtime_ns);
        }
        if let FetchStage::Downloading(download) = run.stage {
            if let Ok(Progress::Done(local)) = download.stepped(reply) {
                wanted_fetch_records(sync, downloaded, wanted, local.size, local.mtime_ns);
            }
        }
    }
}

/// A remote file is put on record by a request.
pub open spec fn records_item(
    sync: SyncConfigView,
    request: RequestView,
    item: FetchItemView,
) -> bool {
    request matches RequestView::Commit { checkpoints } && holds_record(sync, checkpoints, item)
}

/// A remote file is among checkpoints.
pub open spec fn holds_record(
    sync: SyncConfigView,
    checkpoints: Seq<FileCheckpoint<Seq<char>>>,
    item: FetchItemView,
) -> bool {
    exists|c: int|
        0 <= c < checkpoints.len() && recorded_as(sync, #[trigger] checkpoints[c], item)
}

/// A fetch that still has to put a remote file on record.
pub open spec fn owes_record(sync: SyncConfigView, run: FetchView, k: int) -> bool {
    &&& run.sync == sync
    &&& 0 <= k < run.items.len()
    &&& run.at <= k || holds_record(sync, run.pending, run.items[k])
    &&& run.stage is Flushing ==> run.pending.len() == 0
}

/// A fetch that turns to the file at hand does not come to an end before everything is on record.
pub proof fn fetch_begins_owing_record(sync: SyncConfigView, run: FetchView, k: int)
    requires
        owes_record(sync, run, k),
    ensures
        run.advanced() matches Ok(Progress::Ask(next, asked)) && next.items == run.items && (
        owes_record(sync, next, k) || records_item(sync, asked, run.items[k])),
{
}

proof fn recorded_owes_record(
    sync: SyncConfigView,
    run: FetchView,
    size: u64,
    mtime_ns: i64,
    k: int,
)
    requires
        owes_record(sync, run, k),
        run.at < run.items.len(),
        run.stage !is Flushing,
    ensures
        run.recorded(size, mtime_ns) matches Ok(Progress::Ask(next, asked)) && next.items
            == run.items && (owes_record(sync, next, k) || records_item(sync, asked, run.items[k])),
{
    let item = run.items[run.at as int];
    let checkpoint = FileCheckpoint {
        mirror: sync.name,
        path: item.path,
        size,
        mtime_ns,
        sha1: item.file.sha1,
    };
    let all = run.pending.push(checkpoint);
    let wanted = run.items[k];
    assert(all[run.pending.len() as int] == checkpoint);
    if holds_record(sync, run.pending, wanted) {
        let c = choose|c: int|
            0 <= c < run.pending.len() && recorded_as(sync, #[trigger] run.pending[c], wanted);
        assert(all[c] == run.pending[c]);
        assert(holds_record(sync, all, wanted));
    } else if run.at == k {
        assert(recorded_as(sync, all[run.pending.len() as int], wanted));
        assert(holds_record(sync, all, wanted));
    }
    let (pending, batch) = checkpoint_pushed(run.pending, checkpoint);
    let next = FetchView { at: run.at + 1, pending, ..run };
    if batch is None {
        fetch_begins_owing_record(sync, next, k);
    }
}

/// A fetch goes on until everything is on record.
pub proof fn fetch_goes_on_owing_record(
    sync: SyncConfigView,
    run: FetchView,
    k: int,
    reply: ReplyView,
)
    requires
        owes_record(sync, run, k),
    ensures
        match run.stepped(reply) {
            Err(_) => true,
            Ok(Progress::Done(_)) => false,
            Ok(Progress::Ask(next, asked)) => next.items == run.items && (owes_record(
                sync,
                next,
                k,
            ) || records_item(sync, asked, run.items[k])),
        },
{
    fetch_begins_owing_record(sync, run, k);
    if run.at < run.items.len() && run.stage !is Flushing {
        let item = run.items[run.at as int];
        let path = item.path;
        let matched = FetchView {
            fetched: FetchedView { unchanged: run.fetched.unchanged.push(path), ..run.fetched },
            ..run
        };
        let downloaded = FetchView {
            fetched: FetchedView { downloaded: run.fetched.downloaded.push(path), ..run.fetched },
            ..run
        };
        if let Some(local) = item.local {
            recorded_owes_record(sync, matched, local.size, local.mtime_ns, k);
        }
        if let FetchStage::Downloading(download) = run.stage {
            if let Ok(Progress::Done(local)) = download.stepped(reply) {
                recorded_owes_record(sync, downloaded, local.size, local.mtime_ns, k);
            }
        }
    }
}

} // verus!
