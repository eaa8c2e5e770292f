//! What is made of what the drive reports: of uploads, of moves to the trash, and of commands.

use crate::cleanup::{moved_paths, CleanupView, TrashItemView};
use crate::cli::{failures_fault, is_transient, operations_checked, target_uids, trash_checked};
use crate::cli::{upload_checked, upload_names, CallKind, CallReplyView, CallRequestView, CallView};
use crate::cli::{OperationView, TransferView};
use crate::config::SyncConfigView;
use crate::drive::{TrashBatchView, TrashTargetView, UploadFailureView};
use crate::error::Fault;
use crate::exchange::{Progress, ReplyView, RequestView};
use crate::paths::file_name_of;
use crate::push::{push_started, PushStageView, PushView};
use crate::push_laws::push_step;
use crate::scan::local_path_of;
use crate::second_sync::reports_no_failure;
use crate::soundness::{ensure_steps, inventory_asks, scan_asks};
use crate::state::FileCheckpoint;
use crate::text::has_part;
use crate::trace::{ending, never_tainted, requests};
use crate::upload_laws::{exactly_successes_are_kept, succeeded};
use crate::uploads::{PendingUpload, UploadsStage, UploadsView};
use vstd::prelude::*;

verus! {

/// A file that a report names as failed, by the name that it has in its folder.
pub open spec fn named_as_failed(
    root: Seq<char>,
    upload: PendingUpload<Seq<char>>,
    failures: Seq<UploadFailureView>,
) -> bool {
    exists|f: int|
        0 <= f < failures.len() && file_name_of(local_path_of(root, upload.file.relative)) == Some(
            (#[trigger] failures[f]).name,
        )
}

/// What is remembered of an upload.
pub open spec fn remembers(
    mirror: Seq<char>,
    checkpoint: FileCheckpoint<Seq<char>>,
    upload: PendingUpload<Seq<char>>,
) -> bool {
    &&& checkpoint.mirror == mirror
    &&& checkpoint.path == upload.file.relative
    &&& checkpoint.size == upload.file.size
    &&& checkpoint.mtime_ns == upload.file.mtime_ns
    &&& upload.checkpoint_sha1 matches Some(sha1) ==> checkpoint.sha1 == sha1
    &&& upload.checkpoint_sha1 is None ==> checkpoint.sha1.len() == 0
}

/// An upload is remembered by one of several checkpoints.
pub open spec fn is_remembered(
    mirror: Seq<char>,
    checkpoints: Seq<FileCheckpoint<Seq<char>>>,
    upload: PendingUpload<Seq<char>>,
) -> bool {
    exists|k: int|
        0 <= k < checkpoints.len() && remembers(mirror, #[trigger] checkpoints[k], upload)
}

/// A checkpoint remembers one of several uploads, and one that is not named as failed.
pub open spec fn remembers_a_success(
    mirror: Seq<char>,
    root: Seq<char>,
    checkpoint: FileCheckpoint<Seq<char>>,
    uploads: Seq<PendingUpload<Seq<char>>>,
    failures: Seq<UploadFailureView>,
) -> bool {
    exists|i: int|
        0 <= i < uploads.len() && !named_as_failed(root, #[trigger] uploads[i], failures)
            && remembers(mirror, checkpoint, uploads[i])
}

/// Of an upload command those files are remembered that the report does not name as failed, and no
/// others.
pub proof fn failed_files_are_not_remembered(
    run: UploadsView,
    uploads: Seq<PendingUpload<Seq<char>>>,
    failures: Seq<UploadFailureView>,
)
    requires
        run.kept(uploads, failures) is Ok,
    ensures
        ({
            let kept = run.kept(uploads, failures)->Ok_0;
            &&& forall|i: int|
                0 <= i < uploads.len() && !named_as_failed(
                    run.root,
                    #[trigger] uploads[i],
                    failures,
                ) ==> is_remembered(run.mirror, kept, uploads[i])
            &&& forall|k: int|
                0 <= k < kept.len() ==> remembers_a_success(
                    run.mirror,
                    run.root,
                    #[trigger] kept[k],
                    uploads,
                    failures,
                )
        }),
{
    let kept = run.kept(uploads, failures)->Ok_0;
    exactly_successes_are_kept(run, uploads, failures);
    all_have_names(run, uploads, failures);
    assert forall|i: int|
        0 <= i < uploads.len() && !named_as_failed(
            run.root,
            #[trigger] uploads[i],
            failures,
        ) implies is_remembered(run.mirror, kept, uploads[i]) by {
        assert(run.reported_name(uploads[i]) is Some);
        assert(kept.contains(run.checkpoint(uploads[i])));
        let k = choose|k: int| 0 <= k < kept.len() && kept[k] == run.checkpoint(uploads[i]);
        assert(remembers(run.mirror, kept[k], uploads[i]));
    }
    assert forall|k: int| 0 <= k < kept.len() implies remembers_a_success(
        run.mirror,
        run.root,
        #[trigger] kept[k],
        uploads,
        failures,
    ) by {
        let all = run.kept(uploads, failures)->Ok_0;
        let i = choose|i: int|
            0 <= i < uploads.len() && succeeded(run, failures, #[trigger] uploads[i])
                && run.checkpoint(uploads[i]) == all[k];
        assert(!named_as_failed(run.root, uploads[i], failures));
        assert(remembers(run.mirror, kept[k], uploads[i]));
    }
}

proof fn all_have_names(
    run: UploadsView,
    uploads: Seq<PendingUpload<Seq<char>>>,
    failures: Seq<UploadFailureView>,
)
    requires
        run.kept(uploads, failures) is Ok,
    ensures
        forall|i: int|
            0 <= i < uploads.len() ==> run.reported_name(#[trigger] uploads[i]) is Some,
    decreases uploads.len(),
{
    if uploads.len() > 0 {
        let before = uploads.drop_last();
        all_have_names(run, before, failures);
        assert forall|i: int| 0 <= i < uploads.len() implies run.reported_name(
            #[trigger] uploads[i],
        ) is Some by {
            if i < before.len() {
                assert(before[i] == uploads[i]);
            }
        }
    }
}

proof fn moved_paths_are(batch: Seq<TrashItemView>, succeeded: Seq<Seq<char>>, path: Seq<char>)
    ensures
        moved_paths(batch, succeeded).contains(path) <==> exists|i: int|
            0 <= i < batch.len() && (#[trigger] batch[i]).path == path && succeeded.contains(
                batch[i].file.uid,
            ),
    decreases batch.len(),
{
    if batch.len() > 0 {
        let before = batch.drop_last();
        let rest = moved_paths(before, succeeded);
        let all = moved_paths(batch, succeeded);
        moved_paths_are(before, succeeded, path);
        if rest.contains(path) {
            let i = choose|i: int|
                0 <= i < before.len() && (#[trigger] before[i]).path == path && succeeded.contains(
                    before[i].file.uid,
                );
            assert(batch[i] == before[i]);
            let k = choose|k: int| 0 <= k < rest.len() && rest[k] == path;
            assert(all[k] == path);
        }
        if all.contains(path) && !rest.contains(path) {
            let k = choose|k: int| 0 <= k < all.len() && all[k] == path;
            if k < rest.len() {
                assert(rest[k] == path);
            }
            assert(batch[batch.len() - 1].path == path);
        }
        if exists|i: int|
            0 <= i < batch.len() && (#[trigger] batch[i]).path == path && succeeded.contains(
                batch[i].file.uid,
            ) {
            let i = choose|i: int|
                0 <= i < batch.len() && (#[trigger] batch[i]).path == path && succeeded.contains(
                    batch[i].file.uid,
                );
            if i < before.len() {
                assert(before[i] == batch[i]);
                let k = choose|k: int| 0 <= k < rest.len() && rest[k] == path;
                assert(all[k] == path);
            } else {
                assert(all[rest.len() as int] == path);
            }
        }
    }
}

/// After a trash command the files of the batch are forgotten that the report names as moved, and no
/// others.
pub proof fn moved_files_are_forgotten(
    run: CleanupView,
    result: TrashBatchView,
    path: Seq<char>,
)
    requires
        run.at < run.batches.len(),
        !run.forgetting,
    ensures
        ({
            let batch = run.batches[run.at as int];
            let moved = exists|i: int|
                0 <= i < batch.len() && (#[trigger] batch[i]).path == path
                    && result.succeeded_uids.contains(batch[i].file.uid);
            let asked = run.stepped(ReplyView::Trashed(result));
            moved <==> (asked matches Ok(
                Progress::Ask(_, RequestView::DeleteStates { mirror, paths }),
            ) && mirror == run.mirror && paths.contains(path))
        }),
{
    let batch = run.batches[run.at as int];
    moved_paths_are(batch, result.succeeded_uids, path);
}

spec fn in_place(run: PushView, request: RequestView) -> bool {
    &&& request is Upload <==> (run.stage matches PushStageView::Uploading { uploads, .. }
        && uploads.stage is Sending)
    &&& request is TrashRemote <==> (run.stage matches PushStageView::Trashing { cleanup, .. }
        && !cleanup.forgetting)
}

spec fn failing(run: PushView) -> bool {
    match run.stage {
        PushStageView::Uploading { uploads, .. } => uploads.failures.len() > 0,
        PushStageView::Trashing { cleanup, .. } => cleanup.failed.len() > 0,
        _ => false,
    }
}

proof fn push_keeps_failures(run: PushView, request: RequestView, reply: ReplyView)
    requires
        in_place(run, request),
    ensures
        match run.stepped(reply) {
            Err(_) => true,
            Ok(Progress::Ask(next, asked)) => in_place(next, asked) && (failing(run)
                || !reports_no_failure(request, reply) ==> failing(next)),
            Ok(Progress::Done(_)) => !failing(run) && reports_no_failure(request, reply),
        },
{
    match run.stage {
        PushStageView::Scanning(scan) => {
            scan_asks(scan, reply);
        },
        PushStageView::Comparing { inventory, .. } => {
            inventory_asks(inventory, reply);
        },
        PushStageView::Locating { inventory, .. } => {
            inventory_asks(inventory, reply);
        },
        PushStageView::Uploading { uploads, .. } => {
            if let UploadsStage::Ensuring(ensure) = uploads.stage {
                ensure_steps(ensure, reply);
            }
        },
        _ => {},
    }
}

/// In a push that comes to a good end no upload and no move to the trash was reported to have failed.
pub proof fn a_good_push_has_no_failures(sync: SyncConfigView, replies: Seq<ReplyView>)
    requires
        ending(push_step(), push_started(sync), replies) matches Some(Ok(_)),
    ensures
        requests(push_step(), push_started(sync), replies).len() <= replies.len(),
        forall|i: int|
            #![trigger requests(push_step(), push_started(sync), replies)[i]]
            0 <= i < requests(push_step(), push_started(sync), replies).len()
                ==> reports_no_failure(
                requests(push_step(), push_started(sync), replies)[i],
                replies[i],
            ),
{
    let sound = |run: PushView, request: RequestView| in_place(run, request);
    let tainted = |run: PushView| failing(run);
    let bad = |request: RequestView, reply: ReplyView| !reports_no_failure(request, reply);
    assert forall|run: PushView, request: RequestView, reply: ReplyView|
        #![trigger sound(run, request), push_step()(run, reply)]
        sound(run, request) implies match push_step()(run, reply) {
        Err(_) => true,
        Ok(Progress::Ask(next, asked)) => sound(next, asked) && (tainted(run) || bad(
            request,
            reply,
        ) ==> tainted(next)),
        Ok(Progress::Done(_)) => !tainted(run) && !bad(request, reply),
    } by {
        push_keeps_failures(run, request, reply);
    }
    never_tainted(push_step(), sound, tainted, bad, push_started(sync), replies);
    let asked = requests(push_step(), push_started(sync), replies);
    assert forall|i: int| 0 <= i < asked.len() implies reports_no_failure(
        #[trigger] asked[i],
        replies[i],
    ) by {
        assert(!bad(asked[i], replies[i]));
    }
}

/// What becomes of a command by what the client answers. Output is what it comes to. Without output,
/// a look at a node that is not there comes to nothing; a command that only reads is tried again, after
/// a wait and at most twice, if the client was not logged in yet or its database was busy; and any
/// other answer is a fault.
pub proof fn what_becomes_of_a_command(call: CallView, output: Seq<u8>, error: Seq<char>)
    requires
        !call.waiting,
    ensures
        ({
            let after = call.stepped(CallReplyView::Response { output, error });
            let missing = call.kind == CallKind::Info && "Node not found:"@.len() <= error.len()
                && error.take("Node not found:"@.len() as int) == "Node not found:"@;
            let busy = is_transient(error);
            &&& output.len() > 0 ==> after == Ok::<
                Progress<CallView, CallRequestView, Option<Seq<u8>>>,
                Fault<Seq<char>>,
            >(Progress::Done(Some(output)))
            &&& output.len() == 0 && missing ==> after == Ok::<
                Progress<CallView, CallRequestView, Option<Seq<u8>>>,
                Fault<Seq<char>>,
            >(Progress::Done(None))
            &&& output.len() == 0 && !missing && busy && call.kind != CallKind::Write
                && call.attempt < 3 ==> (after matches Ok(Progress::Ask(next, asked)) && asked is Wait
                && next.waiting && next.attempt == call.attempt && next.arguments == call.arguments
                && next.kind == call.kind)
            &&& output.len() == 0 && !missing && !(busy && call.kind != CallKind::Write
                && call.attempt < 3) ==> after == Err::<
                Progress<CallView, CallRequestView, Option<Seq<u8>>>,
                Fault<Seq<char>>,
            >(Fault::CommandFailed { error })
        }),
{
    let start = "Node not found:"@;
    if start.is_prefix_of(error) {
        assert(error.take(start.len() as int) =~= start);
    }
    if start.len() <= error.len() && error.take(start.len() as int) == start {
        assert(start =~= error.subrange(0, start.len() as int));
        assert(start.is_prefix_of(error));
    }
}

/// A failure to read may pass exactly if the message says, anywhere in it, that the client needs a
/// login first, that SQLite is busy, or that the database is locked.
pub proof fn which_failures_may_pass(message: Seq<char>, before: Seq<char>, after: Seq<char>)
    ensures
        message == before + "You need to login first"@ + after ==> is_transient(message),
        message == before + "SQLITE_BUSY"@ + after ==> is_transient(message),
        message == before + "database is locked"@ + after ==> is_transient(message),
        is_transient(message) ==> exists|from: int, text: Seq<char>|
            {
                &&& text == "You need to login first"@ || text == "SQLITE_BUSY"@ || text
                    == "database is locked"@
                &&& 0 <= from <= message.len() - text.len()
                &&& #[trigger] message.subrange(from, from + text.len()) == text
            },
{
    assert forall|text: Seq<char>| message == before + text + after implies #[trigger]
        has_part(message, text) by {
        let at = before.len() as int;
        assert(message.subrange(at, at + text.len()) =~= text);
    }
    if is_transient(message) {
        let text = if has_part(message, "You need to login first"@) {
            "You need to login first"@
        } else if has_part(message, "SQLITE_BUSY"@) {
            "SQLITE_BUSY"@
        } else {
            "database is locked"@
        };
        assert(has_part(message, text));
    }
}

/// Files that each have a name of their own.
pub open spec fn names_are_distinct(files: Seq<Seq<char>>) -> bool {
    &&& forall|i: int| 0 <= i < files.len() ==> file_name_of(#[trigger] files[i]) is Some
    &&& forall|i: int, j: int|
        0 <= i < j < files.len() ==> file_name_of(#[trigger] files[i]) != file_name_of(
            #[trigger] files[j],
        )
}

proof fn upload_names_are(files: Seq<Seq<char>>)
    ensures
        upload_names(files) is Ok <==> names_are_distinct(files),
        upload_names(files) matches Ok(names) ==> names.len() == files.len() && forall|i: int|
            0 <= i < files.len() ==> file_name_of(files[i]) == Some(#[trigger] names[i]),
    decreases files.len(),
{
    if files.len() > 0 {
        let before = files.drop_last();
        let last = files[files.len() - 1];
        upload_names_are(before);
        if names_are_distinct(files) {
            assert forall|i: int, j: int| 0 <= i < j < before.len() implies file_name_of(
                #[trigger] before[i],
            ) != file_name_of(#[trigger] before[j]) by {
                assert(before[i] == files[i] && before[j] == files[j]);
            }
            assert forall|i: int| 0 <= i < before.len() implies file_name_of(
                #[trigger] before[i],
            ) is Some by {
                assert(before[i] == files[i]);
            }
            assert(file_name_of(files[files.len() - 1]) is Some);
            let names = upload_names(before)->Ok_0;
            if names.contains(file_name_of(last)->0) {
                let k = choose|k: int|
                    0 <= k < names.len() && names[k] == file_name_of(last)->0;
                assert(file_name_of(before[k]) == Some(names[k]));
                assert(file_name_of(files[k]) == file_name_of(files[files.len() - 1]));
            }
        }
        if let Ok(names) = upload_names(files) {
            let earlier = upload_names(before)->Ok_0;
            assert forall|i: int| 0 <= i < files.len() implies file_name_of(files[i]) == Some(
                #[trigger] names[i],
            ) by {
                if i < before.len() {
                    assert(before[i] == files[i]);
                    assert(names[i] == earlier[i]);
                }
            }
            assert forall|i: int| 0 <= i < files.len() implies file_name_of(
                #[trigger] files[i],
            ) is Some by {
                assert(file_name_of(files[i]) == Some(names[i]));
            }
            assert forall|i: int, j: int| 0 <= i < j < files.len() implies file_name_of(
                #[trigger] files[i],
            ) != file_name_of(#[trigger] files[j]) by {
                assert(before[i] == files[i]);
                if j < before.len() {
                    assert(before[j] == files[j]);
                } else {
                    assert(earlier[i] == names[i]);
                    if file_name_of(files[i]) == file_name_of(files[j]) {
                        assert(earlier.contains(earlier[i]));
                    }
                }
            }
        }
    }
}

/// Failures that each name a file that was sent, and none twice.
pub open spec fn failures_are_of(
    files: Seq<Seq<char>>,
    failures: Seq<UploadFailureView>,
    count: nat,
) -> bool {
    &&& forall|k: int|
        0 <= k < count ==> exists|i: int|
            0 <= i < files.len() && file_name_of(#[trigger] files[i]) == Some(
                (#[trigger] failures[k]).name,
            )
    &&& forall|k: int, m: int|
        0 <= k < m < count ==> (#[trigger] failures[k]).name != (#[trigger] failures[m]).name
}

proof fn failures_fault_is(
    files: Seq<Seq<char>>,
    names: Seq<Seq<char>>,
    failures: Seq<UploadFailureView>,
    count: nat,
)
    requires
        upload_names(files) matches Ok(found) && found == names,
        count <= failures.len(),
    ensures
        failures_fault(names, failures, count) is None <==> failures_are_of(
            files,
            failures,
            count,
        ),
    decreases count,
{
    if count > 0 {
        let last = failures[count - 1].name;
        upload_names_are(files);
        failures_fault_is(files, names, failures, (count - 1) as nat);
        assert(names.contains(last) <==> exists|i: int|
            0 <= i < files.len() && file_name_of(#[trigger] files[i]) == Some(last)) by {
            if names.contains(last) {
                let i = choose|i: int| 0 <= i < names.len() && names[i] == last;
                assert(file_name_of(files[i]) == Some(names[i]));
            }
            if exists|i: int|
                0 <= i < files.len() && file_name_of(#[trigger] files[i]) == Some(last) {
                let i = choose|i: int|
                    0 <= i < files.len() && file_name_of(#[trigger] files[i]) == Some(last);
                assert(file_name_of(files[i]) == Some(names[i]));
            }
        }
        if failures_are_of(files, failures, count) {
            assert(failures_are_of(files, failures, (count - 1) as nat));
            assert(exists|i: int|
                0 <= i < files.len() && file_name_of(#[trigger] files[i]) == Some(
                    failures[count - 1].name,
                ));
        }
    }
}

/// A report on an upload is accepted exactly if the files that were sent have names of their own, the
/// numbers of files transferred, skipped and failed make up the files that were sent, every failure is
/// told of, and each failure names a file that was sent, none of them twice. What is accepted is taken
/// over as it is.
pub proof fn which_upload_reports_are_accepted(files: Seq<Seq<char>>, summary: TransferView)
    ensures
        upload_checked(files, summary) is Ok <==> {
            &&& names_are_distinct(files)
            &&& summary.failed_items == summary.failures.len()
            &&& summary.transferred_items + summary.skipped_items + summary.failed_items
                == files.len()
            &&& failures_are_of(files, summary.failures, summary.failures.len())
        },
        upload_checked(files, summary) matches Ok(result) ==> {
            &&& result.transferred_items == summary.transferred_items
            &&& result.skipped_items == summary.skipped_items
            &&& result.transferred_bytes == summary.transferred_bytes
            &&& result.failures == summary.failures
        },
{
    upload_names_are(files);
    if let Ok(names) = upload_names(files) {
        failures_fault_is(files, names, summary.failures, summary.failures.len());
    }
}

proof fn operations_are(uids: Seq<Seq<char>>, results: Seq<OperationView>, count: nat)
    requires
        count <= results.len(),
    ensures
        operations_checked(uids, results, count) is Ok <==> {
            &&& forall|k: int| 0 <= k < count ==> uids.contains((#[trigger] results[k]).uid)
            &&& forall|k: int, m: int|
                0 <= k < m < count ==> (#[trigger] results[k]).uid != (#[trigger] results[m]).uid
        },
        operations_checked(uids, results, count) matches Ok(outcome) ==> {
            &&& forall|uid: Seq<char>| #[trigger]
                outcome.succeeded_uids.contains(uid) <==> is_reported(results, count, uid, true)
            &&& forall|uid: Seq<char>| #[trigger]
                outcome.failed_uids.contains(uid) <==> is_reported(results, count, uid, false)
        },
    decreases count,
{
    if count == 0 {
        assert(forall|uid: Seq<char>, ok: bool| !#[trigger] is_reported(results, 0, uid, ok));
    } else {
        operations_are(uids, results, (count - 1) as nat);
        let last = results[count - 1];
        assert forall|uid: Seq<char>, ok: bool| #[trigger]
            is_reported(results, count, uid, ok) == (is_reported(
                results,
                (count - 1) as nat,
                uid,
                ok,
            ) || (last.uid == uid && last.ok == ok)) by {
            if is_reported(results, count, uid, ok) {
                let k = choose|k: int|
                    0 <= k < count && (#[trigger] results[k]).uid == uid && results[k].ok == ok;
                if k < count - 1 {
                    assert(is_reported(results, (count - 1) as nat, uid, ok));
                }
            }
            if is_reported(results, (count - 1) as nat, uid, ok) {
                let k = choose|k: int|
                    0 <= k < count - 1 && (#[trigger] results[k]).uid == uid && results[k].ok
                        == ok;
                assert(results[k].uid == uid);
            }
            if last.uid == uid && last.ok == ok {
                assert(results[count - 1].uid == uid);
            }
        }
        if let Ok(outcome) = operations_checked(uids, results, count) {
            let before = operations_checked(uids, results, (count - 1) as nat)->Ok_0;
            assert forall|uid: Seq<char>| #[trigger]
                outcome.succeeded_uids.contains(uid) == is_reported(
                    results,
                    count,
                    uid,
                    true,
                ) by {
                held_after_push(before.succeeded_uids, last.uid, uid);
                assert(is_reported(results, count, uid, true) == (is_reported(
                    results,
                    (count - 1) as nat,
                    uid,
                    true,
                ) || (last.uid == uid && last.ok)));
                assert(before.succeeded_uids.contains(uid) == is_reported(
                    results,
                    (count - 1) as nat,
                    uid,
                    true,
                ));
            }
            assert forall|uid: Seq<char>| #[trigger]
                outcome.failed_uids.contains(uid) == is_reported(results, count, uid, false) by {
                held_after_push(before.failed_uids, last.uid, uid);
                assert(is_reported(results, count, uid, false) == (is_reported(
                    results,
                    (count - 1) as nat,
                    uid,
                    false,
                ) || (last.uid == uid && !last.ok)));
                assert(before.failed_uids.contains(uid) == is_reported(
                    results,
                    (count - 1) as nat,
                    uid,
                    false,
                ));
            }
        }
    }
}

proof fn held_after_push(list: Seq<Seq<char>>, last: Seq<char>, item: Seq<char>)
    ensures
        list.push(last).contains(item) <==> list.contains(item) || item == last,
{
    let all = list.push(last);
    if list.contains(item) {
        let k = choose|k: int| 0 <= k < list.len() && list[k] == item;
        assert(all[k] == item);
    }
    if all.contains(item) && item != last {
        let k = choose|k: int| 0 <= k < all.len() && all[k] == item;
        assert(list[k] == item);
    }
    assert(all[list.len() as int] == last);
}

/// One of the first `count` reports says of a node that it was moved, or that it was not.
pub open spec fn is_reported(
    results: Seq<OperationView>,
    count: nat,
    uid: Seq<char>,
    ok: bool,
) -> bool {
    exists|k: int| 0 <= k < count && (#[trigger] results[k]).uid == uid && results[k].ok == ok
}

/// A report on a trash command is accepted exactly if it has one entry for each target, about one of
/// the targets, and none about the same one. What it says to be moved is what is taken to be moved,
/// and what it says to be left is what is taken to have failed.
pub proof fn which_trash_reports_are_accepted(
    targets: Seq<TrashTargetView>,
    results: Seq<OperationView>,
)
    ensures
        trash_checked(targets, results) is Ok <==> {
            &&& results.len() == targets.len()
            &&& forall|k: int|
                0 <= k < results.len() ==> exists|i: int|
                    0 <= i < targets.len() && (#[trigger] targets[i]).uid == (
                    #[trigger] results[k]).uid
            &&& forall|k: int, m: int|
                0 <= k < m < results.len() ==> (#[trigger] results[k]).uid != (
                #[trigger] results[m]).uid
        },
        trash_checked(targets, results) matches Ok(outcome) ==> {
            &&& forall|uid: Seq<char>| #[trigger]
                outcome.succeeded_uids.contains(uid) <==> is_reported(
                    results,
                    results.len(),
                    uid,
                    true,
                )
            &&& forall|uid: Seq<char>| #[trigger]
                outcome.failed_uids.contains(uid) <==> is_reported(
                    results,
                    results.len(),
                    uid,
                    false,
                )
        },
{
    let uids = target_uids(targets);
    operations_are(uids, results, results.len());
    assert forall|uid: Seq<char>| #[trigger] uids.contains(uid) == (exists|i: int|
        0 <= i < targets.len() && (#[trigger] targets[i]).uid == uid) by {
        if uids.contains(uid) {
            let i = choose|i: int| 0 <= i < uids.len() && uids[i] == uid;
            assert(targets[i].uid == uid);
        }
        if exists|i: int| 0 <= i < targets.len() && (#[trigger] targets[i]).uid == uid {
            let i = choose|i: int| 0 <= i < targets.len() && (#[trigger] targets[i]).uid == uid;
            assert(uids[i] == uid);
        }
    }
}

} // verus!
