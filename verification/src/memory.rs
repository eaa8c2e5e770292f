//! What is remembered of files once a two-way sync has come to a good end.

use crate::batches::chunked;
use crate::cleanup::{cleanup_prepared, moved_paths, CleanupView, TrashItemView, TRASH_BATCH_SIZE};
use crate::commits::commits_begun;
use crate::completeness::work_holds;
use crate::config::SyncConfigView;
use crate::drive::{RemoteFileView, UploadFailureView};
use crate::exchange::{Progress, ReplyView, RequestView};
use crate::fetch::{fetch_prepared, FetchItemView, FetchStage, FetchView, FetchedView};
use crate::findings::Findings;
use crate::plan::{LocalSnapshot, TwoWayAction};
use crate::removal::removal_prepared;
use crate::soundness::{chunks_come_from, sound_job, upload_jobs_are_sound};
use crate::state::{committed, FileCheckpoint, FileState, CHECKPOINT_BATCH_SIZE};
use crate::summary::{scan_summary, SummaryView};
use crate::text::in_order;
use crate::trace::{ending, requests, Step};
use crate::two_way::{work_for, TwoWayOutcome, TwoWayRun, TwoWayStageView, WorkView};
use crate::two_way_laws::two_way_step;
use crate::upload_laws::{chunks_hold_every_item, every_upload_is_sent};
use crate::uploads::{failed_name, upload_jobs, uploads_prepared, PendingUpload, UploadTallyView};
use crate::uploads::{UploadsStage, UploadsView};
use vstd::prelude::*;

verus! {

/// What is remembered of the files of an entry after a request was carried out.
pub open spec fn remembered_after(
    states: Map<Seq<char>, FileState<Seq<char>>>,
    request: RequestView,
) -> Map<Seq<char>, FileState<Seq<char>>> {
    match request {
        RequestView::Commit { checkpoints } => committed(states, checkpoints),
        RequestView::DeleteStates { paths, .. } => states.remove_keys(paths.to_set()),
        _ => states,
    }
}

/// What is remembered of the files of an entry after requests were carried out one by one.
pub open spec fn remembered(
    states: Map<Seq<char>, FileState<Seq<char>>>,
    asked: Seq<RequestView>,
) -> Map<Seq<char>, FileState<Seq<char>>>
    decreases asked.len(),
{
    if asked.len() == 0 {
        states
    } else {
        remembered(remembered_after(states, asked[0]), asked.drop_first())
    }
}

/// A digest that is remembered of a path.
pub open spec fn knows(
    states: Map<Seq<char>, FileState<Seq<char>>>,
    path: Seq<char>,
    sha1: Seq<char>,
) -> bool {
    states.contains_key(path) && states[path].sha1 == sha1
}

spec fn agrees(checkpoints: Seq<FileCheckpoint<Seq<char>>>, path: Seq<char>, sha1: Seq<char>) -> bool {
    forall|i: int|
        0 <= i < checkpoints.len() && (#[trigger] checkpoints[i]).path == path
            ==> checkpoints[i].sha1 == sha1
}

spec fn about(checkpoints: Seq<FileCheckpoint<Seq<char>>>, path: Seq<char>) -> bool {
    exists|i: int| 0 <= i < checkpoints.len() && (#[trigger] checkpoints[i]).path == path
}

proof fn commit_makes_known(
    states: Map<Seq<char>, FileState<Seq<char>>>,
    checkpoints: Seq<FileCheckpoint<Seq<char>>>,
    path: Seq<char>,
    sha1: Seq<char>,
)
    requires
        agrees(checkpoints, path, sha1),
        knows(states, path, sha1) || about(checkpoints, path),
    ensures
        knows(committed(states, checkpoints), path, sha1),
    decreases checkpoints.len(),
{
    if checkpoints.len() > 0 {
        let rest = checkpoints.drop_last();
        assert(agrees(rest, path, sha1)) by {
            assert forall|i: int|
                0 <= i < rest.len() && (#[trigger] rest[i]).path == path implies rest[i].sha1
                == sha1 by {
                assert(rest[i] == checkpoints[i]);
            }
        }
        if checkpoints.last().path != path {
            if about(checkpoints, path) {
                let i = choose|i: int|
                    0 <= i < checkpoints.len() && (#[trigger] checkpoints[i]).path == path;
                assert(rest[i].path == path);
            }
            commit_makes_known(states, rest, path, sha1);
        } else {
            assert(checkpoints[checkpoints.len() - 1].sha1 == sha1);
        }
    }
}

spec fn spares(request: RequestView, path: Seq<char>, sha1: Seq<char>) -> bool {
    match request {
        RequestView::Commit { checkpoints } => agrees(checkpoints, path, sha1),
        RequestView::DeleteStates { paths, .. } => !paths.contains(path),
        _ => true,
    }
}

spec fn settles(request: RequestView, path: Seq<char>) -> bool {
    request matches RequestView::Commit { checkpoints } && about(checkpoints, path)
}

proof fn known_by_the_end<S, T>(
    step: Step<S, T>,
    spared: spec_fn(S, RequestView) -> bool,
    owes: spec_fn(S) -> bool,
    at: Progress<S, RequestView, T>,
    replies: Seq<ReplyView>,
    states: Map<Seq<char>, FileState<Seq<char>>>,
    path: Seq<char>,
    sha1: Seq<char>,
)
    requires
        match at {
            Progress::Ask(run, request) => spared(run, request) && (knows(states, path, sha1)
                || owes(run) || settles(request, path)),
            Progress::Done(_) => knows(states, path, sha1),
        },
        forall|run: S, request: RequestView| #[trigger]
            spared(run, request) ==> spares(request, path, sha1),
        forall|run: S, request: RequestView, reply: ReplyView|
            #![trigger spared(run, request), step(run, reply)]
            spared(run, request) ==> match step(run, reply) {
                Err(_) => true,
                Ok(Progress::Ask(next, asked)) => spared(next, asked) && (owes(run) ==> owes(next)
                    || settles(asked, path)),
                Ok(Progress::Done(_)) => !owes(run),
            },
        ending(step, at, replies) matches Some(Ok(_)),
    ensures
        knows(remembered(states, requests(step, at, replies)), path, sha1),
    decreases replies.len(),
{
    let all = requests(step, at, replies);
    if let Progress::Ask(run, request) = at {
        assert(spared(run, request));
        let after = remembered_after(states, request);
        if knows(states, path, sha1) || settles(request, path) {
            if let RequestView::Commit { checkpoints } = request {
                commit_makes_known(states, checkpoints, path, sha1);
            }
            assert(knows(after, path, sha1));
        }
        let next = step(run, replies[0])->Ok_0;
        let rest = requests(step, next, replies.drop_first());
        assert(all[0] == request);
        assert(all.drop_first() =~= rest);
        known_by_the_end(
            step,
            spared,
            owes,
            next,
            replies.drop_first(),
            after,
            path,
            sha1,
        );
    } else {
        assert(all.len() == 0);
    }
}

spec fn uploads_agree(
    uploads: Seq<PendingUpload<Seq<char>>>,
    path: Seq<char>,
    sha1: Seq<char>,
) -> bool {
    forall|i: int|
        0 <= i < uploads.len() && (#[trigger] uploads[i]).file.relative == path
            ==> uploads[i].checkpoint_sha1 == Some(sha1)
}

spec fn uploads_hold(uploads: Seq<PendingUpload<Seq<char>>>, path: Seq<char>) -> bool {
    exists|i: int| 0 <= i < uploads.len() && (#[trigger] uploads[i]).file.relative == path
}

spec fn downloads_agree(items: Seq<FetchItemView>, path: Seq<char>, sha1: Seq<char>) -> bool {
    forall|i: int|
        0 <= i < items.len() && (#[trigger] items[i]).path == path ==> items[i].file.sha1 == sha1
}

spec fn downloads_hold(items: Seq<FetchItemView>, from: int, path: Seq<char>) -> bool {
    exists|i: int| from <= i < items.len() && (#[trigger] items[i]).path == path
}

spec fn trash_spares(items: Seq<TrashItemView>, path: Seq<char>) -> bool {
    forall|i: int| 0 <= i < items.len() ==> (#[trigger] items[i]).path != path
}

/// Work in which a path has one digest, and is not trashed.
spec fn work_agrees(work: WorkView, path: Seq<char>, sha1: Seq<char>) -> bool {
    &&& agrees(work.checkpoints, path, sha1)
    &&& uploads_agree(work.uploads, path, sha1)
    &&& downloads_agree(work.downloads, path, sha1)
    &&& trash_spares(work.remote_trash, path)
    &&& !work.local_trash.contains(path)
}

spec fn jobs_agree(run: UploadsView, path: Seq<char>, sha1: Seq<char>) -> bool {
    forall|j: int|
        #![trigger run.jobs[j]]
        0 <= j < run.jobs.len() ==> uploads_agree(run.jobs[j].uploads, path, sha1)
}

spec fn jobs_hold(run: UploadsView, from: int, path: Seq<char>) -> bool {
    exists|j: int|
        #![trigger run.jobs[j]]
        from <= j < run.jobs.len() && uploads_hold(run.jobs[j].uploads, path)
}

spec fn uploads_owe(run: UploadsView, path: Seq<char>) -> bool {
    ||| run.failures.len() > 0
    ||| jobs_hold(run, run.at as int + 1, path)
    ||| run.stage !is Committing && jobs_hold(run, run.at as int, path)
}

proof fn begun_uploads_owe(run: UploadsView, path: Seq<char>, sha1: Seq<char>)
    requires
        jobs_agree(run, path, sha1),
    ensures
        match run.begun() {
            Err(_) => true,
            Ok(Progress::Ask(next, asked)) => {
                &&& jobs_agree(next, path, sha1)
                &&& spares(asked, path, sha1)
                &&& run.failures.len() > 0 || jobs_hold(run, run.at as int, path) ==> uploads_owe(
                    next,
                    path,
                )
            },
            Ok(Progress::Done(_)) => run.failures.len() == 0 && !jobs_hold(
                run,
                run.at as int,
                path,
            ),
        },
{
    if let Ok(Progress::Ask(next, asked)) = run.begun() {
        assert(next.jobs == run.jobs && next.at == run.at && next.failures == run.failures);
        if jobs_hold(run, run.at as int, path) {
            let j = choose|j: int|
                #![trigger run.jobs[j]]
                run.at <= j < run.jobs.len() && uploads_hold(run.jobs[j].uploads, path);
            assert(uploads_hold(next.jobs[j].uploads, path));
        }
        assert forall|j: int| #![trigger next.jobs[j]] 0 <= j < next.jobs.len() implies uploads_agree(
            next.jobs[j].uploads,
            path,
            sha1,
        ) by {
            assert(uploads_agree(run.jobs[j].uploads, path, sha1));
        }
    }
}

proof fn kept_agrees(
    run: UploadsView,
    uploads: Seq<PendingUpload<Seq<char>>>,
    failures: Seq<UploadFailureView>,
    path: Seq<char>,
    sha1: Seq<char>,
)
    requires
        uploads_agree(uploads, path, sha1),
        run.kept(uploads, failures) is Ok,
    ensures
        agrees(run.kept(uploads, failures)->Ok_0, path, sha1),
        uploads_hold(uploads, path) ==> failures.len() > 0 || about(
            run.kept(uploads, failures)->Ok_0,
            path,
        ),
    decreases uploads.len(),
{
    if uploads.len() > 0 {
        let rest = uploads.drop_last();
        let kept = run.kept(uploads, failures)->Ok_0;
        let before = run.kept(rest, failures)->Ok_0;
        assert(uploads_agree(rest, path, sha1)) by {
            assert forall|i: int|
                0 <= i < rest.len() && (#[trigger] rest[i]).file.relative == path implies
                rest[i].checkpoint_sha1 == Some(sha1) by {
                assert(rest[i] == uploads[i]);
            }
        }
        kept_agrees(run, rest, failures, path, sha1);
        assert(uploads[uploads.len() - 1] == uploads.last());
        assert forall|i: int| 0 <= i < kept.len() && (#[trigger] kept[i]).path == path implies
            kept[i].sha1 == sha1 by {
            if i < before.len() {
                assert(kept[i] == before[i]);
            }
        }
        if uploads_hold(uploads, path) && failures.len() == 0 {
            let i = choose|i: int|
                0 <= i < uploads.len() && (#[trigger] uploads[i]).file.relative == path;
            assert(!failed_name(failures, run.reported_name(uploads.last())->0));
            if i < rest.len() {
                assert(rest[i].file.relative == path);
                let k = choose|k: int| 0 <= k < before.len() && (#[trigger] before[k]).path == path;
                assert(kept[k].path == path);
            } else {
                assert(kept[before.len() as int].path == path);
            }
        }
    }
}

proof fn uploads_settle(run: UploadsView, path: Seq<char>, sha1: Seq<char>, reply: ReplyView)
    requires
        jobs_agree(run, path, sha1),
    ensures
        match run.stepped(reply) {
            Err(_) => true,
            Ok(Progress::Ask(next, asked)) => {
                &&& jobs_agree(next, path, sha1)
                &&& spares(asked, path, sha1)
                &&& uploads_owe(run, path) ==> uploads_owe(next, path) || settles(asked, path)
            },
            Ok(Progress::Done(_)) => !uploads_owe(run, path),
        },
{
    if run.at < run.jobs.len() {
        let uploads = run.jobs[run.at as int].uploads;
        assert(jobs_hold(run, run.at as int, path) ==> uploads_hold(uploads, path) || jobs_hold(
            run,
            run.at as int + 1,
            path,
        ));
        match (run.stage, reply) {
            (UploadsStage::Sending, ReplyView::Uploaded(result)) => {
                if let Ok(kept) = run.kept(uploads, result.failures) {
                    kept_agrees(run, uploads, result.failures, path, sha1);
                    let told = run.tallied(result);
                    let next = UploadsView { at: run.at + 1, ..told };
                    assert(jobs_agree(told, path, sha1));
                    assert(jobs_agree(next, path, sha1));
                    if jobs_hold(run, run.at as int + 1, path) {
                        let j = choose|j: int|
                            #![trigger run.jobs[j]]
                            run.at + 1 <= j < run.jobs.len() && uploads_hold(
                                run.jobs[j].uploads,
                                path,
                            );
                        assert(uploads_hold(next.jobs[j].uploads, path));
                        assert(uploads_hold(told.jobs[j].uploads, path));
                        assert(jobs_hold(next, next.at as int, path));
                    }
                    begun_uploads_owe(next, path, sha1);
                    let waiting = UploadsView {
                        stage: UploadsStage::Committing,
                        ..told
                    };
                    assert(jobs_agree(waiting, path, sha1));
                    if jobs_hold(run, run.at as int + 1, path) {
                        let j = choose|j: int|
                            #![trigger run.jobs[j]]
                            run.at + 1 <= j < run.jobs.len() && uploads_hold(
                                run.jobs[j].uploads,
                                path,
                            );
                        assert(uploads_hold(waiting.jobs[j].uploads, path));
                    }
                }
            },
            (UploadsStage::Committing, ReplyView::Done) => {
                let next = UploadsView { at: run.at + 1, ..run };
                assert(jobs_agree(next, path, sha1));
                if jobs_hold(run, run.at as int + 1, path) {
                    let j = choose|j: int|
                        #![trigger run.jobs[j]]
                        run.at + 1 <= j < run.jobs.len() && uploads_hold(
                            run.jobs[j].uploads,
                            path,
                        );
                    assert(uploads_hold(next.jobs[j].uploads, path));
                }
                begun_uploads_owe(next, path, sha1);
            },
            _ => {
                if let Ok(Progress::Ask(next, _)) = run.stepped(reply) {
                    assert(next.jobs == run.jobs && next.at == run.at && next.failures
                        == run.failures && next.stage !is Committing);
                    assert(jobs_agree(next, path, sha1));
                    if jobs_hold(run, run.at as int, path) {
                        let j = choose|j: int|
                            #![trigger run.jobs[j]]
                            run.at <= j < run.jobs.len() && uploads_hold(
                                run.jobs[j].uploads,
                                path,
                            );
                        assert(uploads_hold(next.jobs[j].uploads, path));
                    }
                    if jobs_hold(run, run.at as int + 1, path) {
                        let j = choose|j: int|
                            #![trigger run.jobs[j]]
                            run.at + 1 <= j < run.jobs.len() && uploads_hold(
                                run.jobs[j].uploads,
                                path,
                            );
                        assert(uploads_hold(next.jobs[j].uploads, path));
                    }
                }
            },
        }
    }
}

spec fn fetch_owes(run: FetchView, path: Seq<char>) -> bool {
    about(run.pending, path) || downloads_hold(run.items, run.at as int, path)
}

spec fn flushed(run: FetchView) -> bool {
    run.stage is Flushing ==> run.pending.len() == 0 && run.at >= run.items.len()
}

proof fn advanced_fetch_settles(run: FetchView, path: Seq<char>, sha1: Seq<char>)
    requires
        agrees(run.pending, path, sha1),
    ensures
        match run.advanced() {
            Err(_) => true,
            Ok(Progress::Ask(next, asked)) => {
                &&& next.items == run.items
                &&& flushed(next)
                &&& agrees(next.pending, path, sha1)
                &&& spares(asked, path, sha1)
                &&& fetch_owes(run, path) ==> fetch_owes(next, path) || settles(asked, path)
            },
            Ok(Progress::Done(_)) => !fetch_owes(run, path),
        },
{
}

proof fn recorded_fetch_settles(
    run: FetchView,
    size: u64,
    mtime_ns: i64,
    path: Seq<char>,
    sha1: Seq<char>,
)
    requires
        run.at < run.items.len(),
        agrees(run.pending, path, sha1),
        downloads_agree(run.items, path, sha1),
    ensures
        match run.recorded(size, mtime_ns) {
            Err(_) => true,
            Ok(Progress::Ask(next, asked)) => {
                &&& next.items == run.items
                &&& flushed(next)
                &&& agrees(next.pending, path, sha1)
                &&& spares(asked, path, sha1)
                &&& fetch_owes(run, path) ==> fetch_owes(next, path) || settles(asked, path)
            },
            Ok(Progress::Done(_)) => !fetch_owes(run, path),
        },
{
    let item = run.items[run.at as int];
    let all = run.pending.push(
        FileCheckpoint {
            mirror: run.sync.name,
            path: item.path,
            size,
            mtime_ns,
            sha1: item.file.sha1,
        },
    );
    assert forall|i: int| 0 <= i < all.len() && (#[trigger] all[i]).path == path implies all[i].sha1
        == sha1 by {
        if i < run.pending.len() {
            assert(all[i] == run.pending[i]);
        }
    }
    if about(run.pending, path) {
        let i = choose|i: int|
            0 <= i < run.pending.len() && (#[trigger] run.pending[i]).path == path;
        assert(all[i].path == path);
    }
    if item.path == path {
        assert(all[run.pending.len() as int].path == path);
    }
    if downloads_hold(run.items, run.at as int, path) && item.path != path {
        let i = choose|i: int|
            run.at <= i < run.items.len() && (#[trigger] run.items[i]).path == path;
        assert(downloads_hold(run.items, run.at as int + 1, path));
    }
    let next = FetchView { at: run.at + 1, pending: all, ..run };
    advanced_fetch_settles(next, path, sha1);
}

proof fn fetch_settles(run: FetchView, path: Seq<char>, sha1: Seq<char>, reply: ReplyView)
    requires
        agrees(run.pending, path, sha1),
        downloads_agree(run.items, path, sha1),
        flushed(run),
    ensures
        match run.stepped(reply) {
            Err(_) => true,
            Ok(Progress::Ask(next, asked)) => {
                &&& next.items == run.items
                &&& flushed(next)
                &&& agrees(next.pending, path, sha1)
                &&& spares(asked, path, sha1)
                &&& fetch_owes(run, path) ==> fetch_owes(next, path) || settles(asked, path)
            },
            Ok(Progress::Done(_)) => !fetch_owes(run, path),
        },
{
    if run.at < run.items.len() {
        let here = run.items[run.at as int].path;
        let same = FetchView {
            fetched: FetchedView {
                unchanged: run.fetched.unchanged.push(here),
                ..run.fetched
            },
            ..run
        };
        let new = FetchView {
            fetched: FetchedView {
                downloaded: run.fetched.downloaded.push(here),
                ..run.fetched
            },
            ..run
        };
        match (run.stage, reply) {
            (FetchStage::Loading, ReplyView::State(_)) => {
                if let Some(local) = run.items[run.at as int].local {
                    recorded_fetch_settles(same, local.size, local.mtime_ns, path, sha1);
                }
            },
            (FetchStage::Hashing, ReplyView::Digest(_)) => {
                if let Some(local) = run.items[run.at as int].local {
                    recorded_fetch_settles(same, local.size, local.mtime_ns, path, sha1);
                }
            },
            (FetchStage::Downloading(download), _) => {
                if let Ok(Progress::Done(local)) = download.stepped(reply) {
                    recorded_fetch_settles(new, local.size, local.mtime_ns, path, sha1);
                }
            },
            _ => {
                advanced_fetch_settles(run, path, sha1);
            },
        }
    } else {
        advanced_fetch_settles(run, path, sha1);
    }
}

spec fn cleanup_spares(run: CleanupView, path: Seq<char>) -> bool {
    forall|b: int|
        #![trigger run.batches[b]]
        0 <= b < run.batches.len() ==> trash_spares(run.batches[b], path)
}

proof fn moved_spares(batch: Seq<TrashItemView>, succeeded: Seq<Seq<char>>, path: Seq<char>)
    requires
        trash_spares(batch, path),
    ensures
        !moved_paths(batch, succeeded).contains(path),
    decreases batch.len(),
{
    if batch.len() > 0 {
        let rest = batch.drop_last();
        assert(trash_spares(rest, path)) by {
            assert forall|i: int| 0 <= i < rest.len() implies (#[trigger] rest[i]).path != path by {
                assert(rest[i] == batch[i]);
            }
        }
        moved_spares(rest, succeeded, path);
        let (moved, before) = (
            moved_paths(batch, succeeded),
            moved_paths(rest, succeeded),
        );
        if moved.contains(path) {
            let k = choose|k: int| 0 <= k < moved.len() && moved[k] == path;
            assert(batch[batch.len() - 1].path != path);
            assert(before[k] == path);
        }
    }
}

proof fn cleanup_settles(run: CleanupView, path: Seq<char>, sha1: Seq<char>, reply: ReplyView)
    requires
        cleanup_spares(run, path),
    ensures
        run.stepped(reply) matches Ok(Progress::Ask(next, asked)) ==> cleanup_spares(next, path)
            && spares(asked, path, sha1),
        run.begun() matches Ok(Progress::Ask(next, asked)) ==> cleanup_spares(next, path) && spares(
            asked,
            path,
            sha1,
        ),
{
    if run.at < run.batches.len() {
        if let ReplyView::Trashed(result) = reply {
            moved_spares(run.batches[run.at as int], result.succeeded_uids, path);
        }
    }
    if let Ok(Progress::Ask(next, _)) = run.stepped(reply) {
        assert(next.batches == run.batches);
    }
}

proof fn prepared_uploads_settle(
    sync: SyncConfigView,
    uploads: Seq<PendingUpload<Seq<char>>>,
    path: Seq<char>,
    sha1: Seq<char>,
)
    requires
        uploads_agree(uploads, path, sha1),
    ensures
        jobs_agree(uploads_prepared(sync, uploads), path, sha1),
        uploads_hold(uploads, path) ==> jobs_hold(uploads_prepared(sync, uploads), 0, path),
{
    let run = uploads_prepared(sync, uploads);
    upload_jobs_are_sound(uploads);
    assert forall|j: int| #![trigger run.jobs[j]] 0 <= j < run.jobs.len() implies uploads_agree(
        run.jobs[j].uploads,
        path,
        sha1,
    ) by {
        let batch = run.jobs[j].uploads;
        assert(sound_job(upload_jobs(uploads)[j], uploads));
        assert forall|i: int|
            0 <= i < batch.len() && (#[trigger] batch[i]).file.relative == path implies
            batch[i].checkpoint_sha1 == Some(sha1) by {
            assert(uploads.contains(batch[i]));
            let u = choose|u: int| 0 <= u < uploads.len() && uploads[u] == batch[i];
            assert(uploads[u].file.relative == path);
        }
    }
    if uploads_hold(uploads, path) {
        let i = choose|i: int|
            0 <= i < uploads.len() && (#[trigger] uploads[i]).file.relative == path;
        every_upload_is_sent(uploads, i);
        let j = choose|j: int|
            0 <= j < upload_jobs(uploads).len() && (#[trigger] upload_jobs(
                uploads,
            )[j]).uploads.contains(uploads[i]);
        let batch = run.jobs[j].uploads;
        let k = choose|k: int| 0 <= k < batch.len() && batch[k] == uploads[i];
        assert(batch[k].file.relative == path);
        assert(uploads_hold(run.jobs[j].uploads, path));
    }
}

proof fn prepared_cleanup_spares(
    sync: SyncConfigView,
    items: Seq<TrashItemView>,
    path: Seq<char>,
)
    requires
        trash_spares(items, path),
    ensures
        cleanup_spares(cleanup_prepared(sync, items), path),
{
    let run = cleanup_prepared(sync, items);
    let size = TRASH_BATCH_SIZE as int;
    chunks_come_from(items, size);
    assert forall|b: int| #![trigger run.batches[b]] 0 <= b < run.batches.len() implies trash_spares(
        run.batches[b],
        path,
    ) by {
        let batch = run.batches[b];
        assert forall|i: int| 0 <= i < batch.len() implies (#[trigger] batch[i]).path != path by {
            assert(items.contains(chunked(items, size)[b][i]));
            let k = choose|k: int| 0 <= k < items.len() && items[k] == batch[i];
            assert(items[k].path != path);
        }
    }
}

spec fn commits_agree(
    commits: Seq<Seq<FileCheckpoint<Seq<char>>>>,
    path: Seq<char>,
    sha1: Seq<char>,
) -> bool {
    forall|b: int|
        #![trigger commits[b]]
        0 <= b < commits.len() ==> agrees(commits[b], path, sha1)
}

spec fn commits_hold(commits: Seq<Seq<FileCheckpoint<Seq<char>>>>, path: Seq<char>) -> bool {
    exists|b: int| #![trigger commits[b]] 0 <= b < commits.len() && about(commits[b], path)
}

proof fn begun_commits_settle(
    commits: Seq<Seq<FileCheckpoint<Seq<char>>>>,
    path: Seq<char>,
    sha1: Seq<char>,
)
    requires
        commits_agree(commits, path, sha1),
    ensures
        match commits_begun(commits) {
            Progress::Ask(next, asked) => {
                &&& commits_agree(next, path, sha1)
                &&& spares(asked, path, sha1)
                &&& commits_hold(commits, path) ==> commits_hold(next, path) || settles(asked, path)
            },
            Progress::Done(_) => !commits_hold(commits, path),
        },
{
    if commits.len() > 0 {
        let rest = commits.drop_first();
        assert(agrees(commits[0], path, sha1));
        assert forall|b: int| #![trigger rest[b]] 0 <= b < rest.len() implies agrees(
            rest[b],
            path,
            sha1,
        ) by {
            assert(agrees(commits[b + 1], path, sha1));
        }
        if commits_hold(commits, path) {
            let b = choose|b: int|
                #![trigger commits[b]]
                0 <= b < commits.len() && about(commits[b], path);
            if b > 0 {
                assert(rest[b - 1] == commits[b]);
            }
        }
    }
}

proof fn prepared_commits_settle(
    checkpoints: Seq<FileCheckpoint<Seq<char>>>,
    path: Seq<char>,
    sha1: Seq<char>,
)
    requires
        agrees(checkpoints, path, sha1),
    ensures
        commits_agree(chunked(checkpoints, CHECKPOINT_BATCH_SIZE as int), path, sha1),
        about(checkpoints, path) ==> commits_hold(
            chunked(checkpoints, CHECKPOINT_BATCH_SIZE as int),
            path,
        ),
{
    let size = CHECKPOINT_BATCH_SIZE as int;
    let commits = chunked(checkpoints, size);
    chunks_come_from(checkpoints, size);
    assert forall|b: int| #![trigger commits[b]] 0 <= b < commits.len() implies agrees(
        commits[b],
        path,
        sha1,
    ) by {
        let batch = commits[b];
        assert forall|i: int| 0 <= i < batch.len() && (#[trigger] batch[i]).path == path implies
            batch[i].sha1 == sha1 by {
            assert(checkpoints.contains(chunked(checkpoints, size)[b][i]));
            let k = choose|k: int| 0 <= k < checkpoints.len() && checkpoints[k] == batch[i];
            assert(checkpoints[k].path == path);
        }
    }
    if about(checkpoints, path) {
        let i = choose|i: int|
            0 <= i < checkpoints.len() && (#[trigger] checkpoints[i]).path == path;
        chunks_hold_every_item(checkpoints, size, i);
        let b = choose|b: int|
            0 <= b < commits.len() && (#[trigger] commits[b]).contains(checkpoints[i]);
        let batch = commits[b];
        let k = choose|k: int| 0 <= k < batch.len() && batch[k] == checkpoints[i];
        assert(batch[k].path == path);
        assert(about(commits[b], path));
    }
}

spec fn run_spares(
    run: TwoWayRun,
    sync: SyncConfigView,
    work: WorkView,
    path: Seq<char>,
    sha1: Seq<char>,
) -> bool {
    run.sync == sync && match run.stage {
        TwoWayStageView::Committing {
            pending,
            downloads,
            remote_trash,
            local_trash,
            commits,
            ..
        } => {
            &&& pending == work.uploads
            &&& downloads == work.downloads
            &&& remote_trash == work.remote_trash
            &&& local_trash == work.local_trash
            &&& commits_agree(commits, path, sha1)
        },
        TwoWayStageView::Uploading { downloads, remote_trash, local_trash, uploads, .. } => {
            &&& downloads == work.downloads
            &&& remote_trash == work.remote_trash
            &&& local_trash == work.local_trash
            &&& jobs_agree(uploads, path, sha1)
        },
        TwoWayStageView::Fetching { remote_trash, local_trash, fetch, .. } => {
            &&& remote_trash == work.remote_trash
            &&& local_trash == work.local_trash
            &&& fetch.items == work.downloads
            &&& agrees(fetch.pending, path, sha1)
            &&& flushed(fetch)
        },
        TwoWayStageView::Trashing { local_trash, cleanup, .. } => {
            &&& local_trash == work.local_trash
            &&& cleanup_spares(cleanup, path)
        },
        TwoWayStageView::Removing { removal, .. } => removal.paths == work.local_trash,
        _ => false,
    }
}

spec fn run_owes(run: TwoWayRun, work: WorkView, path: Seq<char>) -> bool {
    match run.stage {
        TwoWayStageView::Committing { commits, .. } => commits_hold(commits, path) || uploads_hold(
            work.uploads,
            path,
        ) || downloads_hold(work.downloads, 0, path),
        TwoWayStageView::Uploading { uploads, .. } => uploads_owe(uploads, path) || downloads_hold(
            work.downloads,
            0,
            path,
        ),
        TwoWayStageView::Fetching { fetch, .. } => fetch_owes(fetch, path),
        _ => false,
    }
}

/// What a step leads to, for a path that is still to be remembered or not.
spec fn well_led(
    outcome: TwoWayOutcome,
    owed: bool,
    sync: SyncConfigView,
    work: WorkView,
    path: Seq<char>,
    sha1: Seq<char>,
) -> bool {
    match outcome {
        Err(_) => true,
        Ok(Progress::Ask(next, asked)) => {
            &&& run_spares(next, sync, work, path, sha1)
            &&& spares(asked, path, sha1)
            &&& owed ==> run_owes(next, work, path) || settles(asked, path)
        },
        Ok(Progress::Done(_)) => !owed,
    }
}

proof fn fetched_is_led(
    sync: SyncConfigView,
    work: WorkView,
    path: Seq<char>,
    sha1: Seq<char>,
    summary: SummaryView,
    fetched: FetchedView,
)
    requires
        work_agrees(work, path, sha1),
    ensures
        well_led(
            TwoWayRun::fetched(sync, summary, work.remote_trash, work.local_trash, fetched),
            false,
            sync,
            work,
            path,
            sha1,
        ),
        forall|summary: SummaryView, paths: Seq<Seq<char>>|
            well_led(
                #[trigger] TwoWayRun::cleaned(sync, summary, work.local_trash, paths),
                false,
                sync,
                work,
                path,
                sha1,
            ),
{
    prepared_cleanup_spares(sync, work.remote_trash, path);
    cleanup_settles(cleanup_prepared(sync, work.remote_trash), path, sha1, ReplyView::Done);
    assert(removal_prepared(sync, work.local_trash).begun() matches Progress::Ask(next, asked)
        ==> next.paths == work.local_trash && spares(asked, path, sha1));
}

proof fn uploaded_is_led(
    sync: SyncConfigView,
    work: WorkView,
    path: Seq<char>,
    sha1: Seq<char>,
    summary: SummaryView,
    tally: UploadTallyView,
)
    requires
        work_agrees(work, path, sha1),
    ensures
        well_led(
            TwoWayRun::uploaded(
                sync,
                summary,
                work.downloads,
                work.remote_trash,
                work.local_trash,
                tally,
            ),
            downloads_hold(work.downloads, 0, path),
            sync,
            work,
            path,
            sha1,
        ),
{
    let fetch = fetch_prepared(sync, work.downloads);
    advanced_fetch_settles(fetch, path, sha1);
    let counted = SummaryView {
        uploaded: tally.uploaded,
        matched_remote: tally.matched_remote,
        ..summary
    };
    if let Ok(Progress::Done(fetched)) = fetch.advanced() {
        fetched_is_led(sync, work, path, sha1, counted, fetched);
    }
}

proof fn committed_is_led(
    sync: SyncConfigView,
    work: WorkView,
    path: Seq<char>,
    sha1: Seq<char>,
    summary: SummaryView,
)
    requires
        work_agrees(work, path, sha1),
    ensures
        well_led(
            TwoWayRun::committed(
                sync,
                summary,
                work.uploads,
                work.downloads,
                work.remote_trash,
                work.local_trash,
            ),
            uploads_hold(work.uploads, path) || downloads_hold(work.downloads, 0, path),
            sync,
            work,
            path,
            sha1,
        ),
{
    let uploads = uploads_prepared(sync, work.uploads);
    prepared_uploads_settle(sync, work.uploads, path, sha1);
    begun_uploads_owe(uploads, path, sha1);
    if let Ok(Progress::Done(tally)) = uploads.begun() {
        uploaded_is_led(sync, work, path, sha1, summary, tally);
    }
}

proof fn two_way_settles(
    run: TwoWayRun,
    sync: SyncConfigView,
    work: WorkView,
    path: Seq<char>,
    sha1: Seq<char>,
    reply: ReplyView,
)
    requires
        work_agrees(work, path, sha1),
        run_spares(run, sync, work, path, sha1),
    ensures
        well_led(run.stepped(reply), run_owes(run, work, path), sync, work, path, sha1),
{
    match run.stage {
        TwoWayStageView::Committing { summary, commits, .. } => {
            begun_commits_settle(commits, path, sha1);
            committed_is_led(sync, work, path, sha1, summary);
        },
        TwoWayStageView::Uploading { summary, uploads, .. } => {
            uploads_settle(uploads, path, sha1, reply);
            if let Ok(Progress::Done(tally)) = uploads.stepped(reply) {
                uploaded_is_led(sync, work, path, sha1, summary, tally);
            }
        },
        TwoWayStageView::Fetching { summary, fetch, .. } => {
            fetch_settles(fetch, path, sha1, reply);
            if let Ok(Progress::Done(fetched)) = fetch.stepped(reply) {
                fetched_is_led(sync, work, path, sha1, summary, fetched);
            }
        },
        TwoWayStageView::Trashing { summary, cleanup, .. } => {
            cleanup_settles(cleanup, path, sha1, reply);
            if let Ok(Progress::Done(paths)) = cleanup.stepped(reply) {
                fetched_is_led(
                    sync,
                    work,
                    path,
                    sha1,
                    summary,
                    FetchedView { unchanged: Seq::empty(), downloaded: Seq::empty() },
                );
                assert(run.stepped(reply) == TwoWayRun::cleaned(
                    sync,
                    summary,
                    work.local_trash,
                    paths,
                ));
            }
        },
        TwoWayStageView::Removing { removal, .. } => {
            if removal.at < removal.paths.len() {
                let one = seq![removal.paths[removal.at as int]];
                assert(!one.contains(path)) by {
                    if one.contains(path) {
                        assert(work.local_trash.contains(path));
                    }
                }
            }
        },
        _ => {},
    }
}

proof fn planned_work_is_remembered(
    sync: SyncConfigView,
    summary: SummaryView,
    work: WorkView,
    replies: Seq<ReplyView>,
    states: Map<Seq<char>, FileState<Seq<char>>>,
    path: Seq<char>,
    sha1: Seq<char>,
)
    requires
        work_agrees(work, path, sha1),
        about(work.checkpoints, path) || uploads_hold(work.uploads, path) || downloads_hold(
            work.downloads,
            0,
            path,
        ),
        TwoWayRun::planned(sync, summary, work) matches Ok(start) && ending(
            two_way_step(),
            start,
            replies,
        ) matches Some(Ok(_)),
    ensures
        knows(
            remembered(
                states,
                requests(two_way_step(), TwoWayRun::planned(sync, summary, work)->Ok_0, replies),
            ),
            path,
            sha1,
        ),
{
    let start = TwoWayRun::planned(sync, summary, work)->Ok_0;
    let counted = SummaryView { unchanged: work.checkpoints.len(), ..summary };
    let batches = chunked(work.checkpoints, CHECKPOINT_BATCH_SIZE as int);
    prepared_commits_settle(work.checkpoints, path, sha1);
    begun_commits_settle(batches, path, sha1);
    committed_is_led(sync, work, path, sha1, counted);
    let step = two_way_step();
    let spared = |run: TwoWayRun, request: RequestView|
        run_spares(run, sync, work, path, sha1) && spares(request, path, sha1);
    let owes = |run: TwoWayRun| run_owes(run, work, path);
    assert forall|run: TwoWayRun, request: RequestView, reply: ReplyView|
        #![trigger spared(run, request), step(run, reply)]
        spared(run, request) implies match step(run, reply) {
        Err(_) => true,
        Ok(Progress::Ask(next, asked)) => spared(next, asked) && (owes(run) ==> owes(next)
            || settles(asked, path)),
        Ok(Progress::Done(_)) => !owes(run),
    } by {
        two_way_settles(run, sync, work, path, sha1, reply);
    }
    known_by_the_end(step, spared, owes, start, replies, states, path, sha1);
}

proof fn work_agrees_with_plan(
    mirror: Seq<char>,
    local: Map<Seq<char>, LocalSnapshot<Seq<char>>>,
    remote: Map<Seq<char>, RemoteFileView>,
    actions: Seq<TwoWayAction<Seq<char>>>,
    path: Seq<char>,
    sha1: Seq<char>,
)
    requires
        forall|i: int|
            0 <= i < actions.len() && (#[trigger] actions[i]).target() == path ==> leaves_digest(
                actions[i],
                remote,
                sha1,
            ),
        forall|i: int|
            0 <= i < actions.len() && (#[trigger] actions[i]) is Upload
                ==> local[actions[i].target()].file.relative == actions[i].target(),
    ensures
        work_agrees(work_for(mirror, local, remote, actions), path, sha1),
    decreases actions.len(),
{
    if actions.len() > 0 {
        let before = actions.drop_last();
        assert forall|i: int|
            0 <= i < before.len() && (#[trigger] before[i]).target() == path implies leaves_digest(
            before[i],
            remote,
            sha1,
        ) by {
            assert(before[i] == actions[i]);
        }
        assert forall|i: int| 0 <= i < before.len() && (#[trigger] before[i]) is Upload implies
            local[before[i].target()].file.relative == before[i].target() by {
            assert(before[i] == actions[i]);
        }
        work_agrees_with_plan(mirror, local, remote, before, path, sha1);
        let work = work_for(mirror, local, remote, before);
        let all = work_for(mirror, local, remote, actions);
        let last = actions[actions.len() - 1];
        assert(last.target() == path ==> leaves_digest(last, remote, sha1));
        assert(last is Upload ==> local[last.target()].file.relative == last.target());
        assert forall|i: int|
            0 <= i < all.checkpoints.len() && (#[trigger] all.checkpoints[i]).path == path implies
            all.checkpoints[i].sha1 == sha1 by {
            if i < work.checkpoints.len() {
                assert(all.checkpoints[i] == work.checkpoints[i]);
            }
        }
        assert forall|i: int|
            0 <= i < all.uploads.len() && (#[trigger] all.uploads[i]).file.relative == path implies
            all.uploads[i].checkpoint_sha1 == Some(sha1) by {
            if i < work.uploads.len() {
                assert(all.uploads[i] == work.uploads[i]);
            }
        }
        assert forall|i: int|
            0 <= i < all.downloads.len() && (#[trigger] all.downloads[i]).path == path implies
            all.downloads[i].file.sha1 == sha1 by {
            if i < work.downloads.len() {
                assert(all.downloads[i] == work.downloads[i]);
            }
        }
        assert forall|i: int| 0 <= i < all.remote_trash.len() implies (
        #[trigger] all.remote_trash[i]).path != path by {
            if i < work.remote_trash.len() {
                assert(all.remote_trash[i] == work.remote_trash[i]);
            }
        }
        if all.local_trash.contains(path) {
            let i = choose|i: int| 0 <= i < all.local_trash.len() && all.local_trash[i] == path;
            if i < work.local_trash.len() {
                assert(work.local_trash[i] == path);
            }
        }
    }
}

/// An action that leaves a file with a digest on both sides.
pub open spec fn leaves_digest(
    action: TwoWayAction<Seq<char>>,
    remote: Map<Seq<char>, RemoteFileView>,
    sha1: Seq<char>,
) -> bool {
    match action {
        TwoWayAction::Checkpoint { sha1: digest, .. } => digest == sha1,
        TwoWayAction::Upload { sha1: digest, .. } => digest == sha1,
        TwoWayAction::Download { path } => remote[path].sha1 == sha1,
        TwoWayAction::TrashRemote { .. } => false,
        TwoWayAction::TrashLocal { .. } => false,
    }
}

/// A two-way sync that comes to a good end has remembered the digest of every file that is on both
/// sides then, and has not forgotten it again.
pub proof fn every_digest_is_remembered(
    sync: SyncConfigView,
    found: Findings,
    replies: Seq<ReplyView>,
    action: TwoWayAction<Seq<char>>,
    sha1: Seq<char>,
)
    requires
        found.consistent(sync),
        found.states.dom().finite(),
        found.sides(sync).plan() matches Ok(actions) && actions.contains(action),
        leaves_digest(action, found.remote(), sha1),
        found.planned(sync) matches Ok(start) && ending(
            two_way_step(),
            start,
            replies,
        ) matches Some(Ok(_)),
    ensures
        knows(
            remembered(
                found.states,
                requests(two_way_step(), found.planned(sync)->Ok_0, replies),
            ),
            action.target(),
            sha1,
        ),
{
    let sides = found.sides(sync);
    let actions = sides.plan()->Ok_0;
    let path = action.target();
    let (local, remote) = (found.local, found.remote());
    let work = work_for(sync.name, local, remote, actions);
    let summary = scan_summary(in_order(local.dom()).len(), found.scanned.symlinks.len());
    found.sides_are_finite(sync);
    sides.plan_is_exact();
    let k = choose|k: int| 0 <= k < actions.len() && actions[k] == action;
    assert(sides.decision(sides.plan()->Ok_0[k].target()) is Ok);
    assert forall|i: int|
        0 <= i < actions.len() && (#[trigger] actions[i]).target() == path implies leaves_digest(
        actions[i],
        remote,
        sha1,
    ) by {
        assert(sides.decision(sides.plan()->Ok_0[i].target()) == sides.decision(
            sides.plan()->Ok_0[k].target(),
        ));
    }
    assert forall|i: int| 0 <= i < actions.len() && (#[trigger] actions[i]) is Upload implies
        local[actions[i].target()].file.relative == actions[i].target() by {
        let upload = sides.plan()->Ok_0[i];
        sides.decision_is_about(upload.target(), upload);
        assert(local.contains_key(upload.target()));
        assert(found.scanned.files.contains_key(upload.target()));
    }
    work_agrees_with_plan(sync.name, local, remote, actions, path, sha1);
    work_holds(sync.name, local, remote, actions, action);
    match action {
        TwoWayAction::Checkpoint { sha1, .. } => {
            let checkpoint = FileCheckpoint {
                mirror: sync.name,
                path,
                size: local[path].file.size,
                mtime_ns: local[path].file.mtime_ns,
                sha1,
            };
            let i = choose|i: int|
                0 <= i < work.checkpoints.len() && work.checkpoints[i] == checkpoint;
            assert(work.checkpoints[i].path == path);
        },
        TwoWayAction::Upload { sha1, .. } => {
            let upload = PendingUpload { file: local[path].file, checkpoint_sha1: Some(sha1) };
            let i = choose|i: int| 0 <= i < work.uploads.len() && work.uploads[i] == upload;
            assert(actions[k] is Upload);
            assert(work.uploads[i].file.relative == path);
        },
        TwoWayAction::Download { .. } => {
            let item = FetchItemView { path, file: remote[path], local: None };
            let i = choose|i: int| 0 <= i < work.downloads.len() && work.downloads[i] == item;
            assert(work.downloads[i].path == path);
        },
        _ => {},
    }
    planned_work_is_remembered(sync, summary, work, replies, found.states, path, sha1);
}

} // verus!
