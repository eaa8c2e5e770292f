//! What holds of every list of uploads.

use crate::batches::{chunked, chunked_is_a_partition, flattened};
use crate::drive::{UploadBatchView, UploadFailureView};
use crate::exchange::{Progress, ReplyView, RequestView};
use crate::paths::parent_of;
use crate::state::FileCheckpoint;
use crate::text::{in_order, in_order_is_ordered, ordered, text_lt, text_lt_irreflexive};
use crate::uploads::{failed_name, folder_jobs, jobs_for, upload_jobs, upload_parents};
use crate::uploads::{uploads_below, PendingUpload, UploadJobView, UploadsView, UPLOAD_BATCH_SIZE};
use vstd::prelude::*;

verus! {

/// An upload of a batch that succeeded.
pub open spec fn succeeded(
    run: UploadsView,
    failures: Seq<UploadFailureView>,
    upload: PendingUpload<Seq<char>>,
) -> bool {
    run.reported_name(upload) matches Some(name) && !failed_name(failures, name)
}

/// Of a batch exactly what succeeded is remembered: every upload that is not among the failures,
/// and nothing else.
pub proof fn exactly_successes_are_kept(
    run: UploadsView,
    uploads: Seq<PendingUpload<Seq<char>>>,
    failures: Seq<UploadFailureView>,
)
    requires
        run.kept(uploads, failures) is Ok,
    ensures
        forall|i: int|
            0 <= i < uploads.len() && succeeded(run, failures, #[trigger] uploads[i]) ==> run.kept(
                uploads,
                failures,
            )->Ok_0.contains(run.checkpoint(uploads[i])),
        forall|k: int|
            0 <= k < run.kept(uploads, failures)->Ok_0.len() ==> exists|i: int|
                0 <= i < uploads.len() && succeeded(run, failures, #[trigger] uploads[i])
                    && run.checkpoint(uploads[i]) == #[trigger] run.kept(uploads, failures)->Ok_0[k],
    decreases uploads.len(),
{
    if uploads.len() > 0 {
        let before = uploads.drop_last();
        exactly_successes_are_kept(run, before, failures);
        let rest = run.kept(before, failures)->Ok_0;
        let all = run.kept(uploads, failures)->Ok_0;
        assert forall|i: int|
            0 <= i < uploads.len() && succeeded(
                run,
                failures,
                #[trigger] uploads[i],
            ) implies all.contains(run.checkpoint(uploads[i])) by {
            if i < before.len() {
                assert(before[i] == uploads[i]);
                assert(rest.contains(run.checkpoint(before[i])));
                let k = choose|k: int|
                    0 <= k < rest.len() && rest[k] == run.checkpoint(before[i]);
                assert(all[k] == run.checkpoint(uploads[i]));
            } else {
                assert(all[rest.len() as int] == run.checkpoint(uploads[i]));
            }
        }
        assert forall|k: int| 0 <= k < all.len() implies exists|i: int|
            0 <= i < uploads.len() && succeeded(run, failures, #[trigger] uploads[i])
                && run.checkpoint(uploads[i]) == #[trigger] all[k] by {
            if k < rest.len() {
                assert(all[k] == rest[k]);
                let i = choose|i: int|
                    0 <= i < before.len() && succeeded(run, failures, #[trigger] before[i])
                        && run.checkpoint(before[i]) == rest[k];
                assert(uploads[i] == before[i]);
            } else {
                assert(succeeded(run, failures, uploads[uploads.len() - 1]));
            }
        }
    }
}

proof fn parents_hold(uploads: Seq<PendingUpload<Seq<char>>>, i: int)
    requires
        0 <= i < uploads.len(),
    ensures
        upload_parents(uploads).contains(parent_of(uploads[i].file.relative)),
    decreases uploads.len(),
{
    if i < uploads.len() - 1 {
        parents_hold(uploads.drop_last(), i);
        assert(uploads.drop_last()[i] == uploads[i]);
    }
}

proof fn parents_are_finite(uploads: Seq<PendingUpload<Seq<char>>>)
    ensures
        upload_parents(uploads).finite(),
    decreases uploads.len(),
{
    if uploads.len() > 0 {
        parents_are_finite(uploads.drop_last());
    }
}

proof fn below_holds(uploads: Seq<PendingUpload<Seq<char>>>, i: int)
    requires
        0 <= i < uploads.len(),
    ensures
        uploads_below(uploads, parent_of(uploads[i].file.relative)).contains(uploads[i]),
    decreases uploads.len(),
{
    let parent = parent_of(uploads[i].file.relative);
    let all = uploads_below(uploads, parent);
    let rest = uploads_below(uploads.drop_last(), parent);
    if i < uploads.len() - 1 {
        below_holds(uploads.drop_last(), i);
        assert(uploads.drop_last()[i] == uploads[i]);
        let k = choose|k: int| 0 <= k < rest.len() && rest[k] == uploads[i];
        assert(all[k] == uploads[i]);
    } else {
        assert(all[rest.len() as int] == uploads[i]);
    }
}

/// Every item of a list is in one of its batches.
pub proof fn chunks_hold_every_item<T>(items: Seq<T>, size: int, i: int)
    requires
        size > 0,
        0 <= i < items.len(),
    ensures
        exists|b: int|
            0 <= b < chunked(items, size).len() && (#[trigger] chunked(items, size)[b]).contains(
                items[i],
            ),
    decreases items.len(),
{
    let batches = chunked(items, size);
    if items.len() <= size {
        assert(batches[0].contains(items[i]));
    } else if i < size {
        assert(batches[0][i] == items[i]);
        assert(batches[0].contains(items[i]));
    } else {
        let rest = chunked(items.skip(size), size);
        chunks_hold_every_item(items.skip(size), size, i - size);
        assert(items.skip(size)[i - size] == items[i]);
        let b = choose|b: int| 0 <= b < rest.len() && (#[trigger] rest[b]).contains(items[i]);
        assert(batches[b + 1] == rest[b]);
        assert(batches[b + 1].contains(items[i]));
    }
}

proof fn jobs_hold(
    uploads: Seq<PendingUpload<Seq<char>>>,
    parents: Seq<Seq<char>>,
    count: nat,
    p: int,
    upload: PendingUpload<Seq<char>>,
)
    requires
        0 <= p < count <= parents.len(),
        uploads_below(uploads, parents[p]).contains(upload),
    ensures
        exists|j: int|
            0 <= j < jobs_for(uploads, parents, count).len() && (#[trigger] jobs_for(
                uploads,
                parents,
                count,
            )[j]).uploads.contains(upload),
    decreases count,
{
    let before = jobs_for(uploads, parents, (count - 1) as nat);
    let all = jobs_for(uploads, parents, count);
    if p < count - 1 {
        jobs_hold(uploads, parents, (count - 1) as nat, p, upload);
        let j = choose|j: int|
            0 <= j < before.len() && (#[trigger] before[j]).uploads.contains(upload);
        assert(all[j] == before[j]);
    } else {
        let below = uploads_below(uploads, parents[p]);
        let folder = folder_jobs(parents[p], below);
        let i = choose|i: int| 0 <= i < below.len() && below[i] == upload;
        chunks_hold_every_item(below, UPLOAD_BATCH_SIZE as int, i);
        let batches = chunked(below, UPLOAD_BATCH_SIZE as int);
        let b = choose|b: int| 0 <= b < batches.len() && (#[trigger] batches[b]).contains(upload);
        assert(folder[b].uploads == batches[b]);
        assert(all[before.len() + b] == folder[b]);
    }
}

/// Every file that is to be uploaded is in some upload command.
pub proof fn every_upload_is_sent(uploads: Seq<PendingUpload<Seq<char>>>, i: int)
    requires
        0 <= i < uploads.len(),
    ensures
        exists|j: int|
            0 <= j < upload_jobs(uploads).len() && (#[trigger] upload_jobs(
                uploads,
            )[j]).uploads.contains(uploads[i]),
{
    let parents = in_order(upload_parents(uploads));
    let parent = parent_of(uploads[i].file.relative);
    parents_hold(uploads, i);
    parents_are_finite(uploads);
    in_order_is_ordered(upload_parents(uploads));
    below_holds(uploads, i);
    assert(parents.to_set().contains(parent));
    let p = choose|p: int| 0 <= p < parents.len() && parents[p] == parent;
    jobs_hold(uploads, parents, parents.len(), p, uploads[i]);
    let jobs = jobs_for(uploads, parents, parents.len());
    let j = choose|j: int|
        0 <= j < jobs.len() && (#[trigger] jobs[j]).uploads.contains(uploads[i]);
    assert(upload_jobs(uploads)[j] == jobs[j]);
}

/// The uploads of the first `count` of a list of folders, folder by folder.
pub open spec fn by_folder(
    uploads: Seq<PendingUpload<Seq<char>>>,
    parents: Seq<Seq<char>>,
    count: nat,
) -> Seq<PendingUpload<Seq<char>>>
    decreases count,
{
    if count == 0 {
        Seq::empty()
    } else {
        by_folder(uploads, parents, (count - 1) as nat) + uploads_below(uploads, parents[count - 1])
    }
}

/// The files of upload commands, command by command.
pub open spec fn job_files(jobs: Seq<UploadJobView>) -> Seq<PendingUpload<Seq<char>>> {
    flattened(jobs.map_values(|job: UploadJobView| job.uploads))
}

proof fn flattened_joins<T>(a: Seq<Seq<T>>, b: Seq<Seq<T>>)
    ensures
        flattened(a + b) == flattened(a) + flattened(b),
    decreases a.len(),
{
    if a.len() == 0 {
        assert(a + b =~= b);
        assert(flattened(a) + flattened(b) =~= flattened(b));
    } else {
        flattened_joins(a.drop_first(), b);
        assert((a + b).drop_first() =~= a.drop_first() + b);
        assert(flattened(a + b) =~= flattened(a) + flattened(b));
    }
}

proof fn jobs_are_by_folder(
    uploads: Seq<PendingUpload<Seq<char>>>,
    parents: Seq<Seq<char>>,
    count: nat,
)
    requires
        count <= parents.len(),
    ensures
        job_files(jobs_for(uploads, parents, count)) == by_folder(uploads, parents, count),
    decreases count,
{
    let files = |job: UploadJobView| job.uploads;
    let all = jobs_for(uploads, parents, count);
    if count == 0 {
        assert(all.map_values(files) =~= Seq::<Seq<PendingUpload<Seq<char>>>>::empty());
    } else {
        let before = jobs_for(uploads, parents, (count - 1) as nat);
        let below = uploads_below(uploads, parents[count - 1]);
        let folder = folder_jobs(parents[count - 1], below);
        jobs_are_by_folder(uploads, parents, (count - 1) as nat);
        chunked_is_a_partition(below, UPLOAD_BATCH_SIZE as int);
        assert(folder.map_values(files) =~= chunked(below, UPLOAD_BATCH_SIZE as int));
        assert(all.map_values(files) =~= before.map_values(files) + folder.map_values(files));
        flattened_joins(before.map_values(files), folder.map_values(files));
    }
}

proof fn one_more_upload(
    uploads: Seq<PendingUpload<Seq<char>>>,
    parents: Seq<Seq<char>>,
    count: nat,
)
    requires
        uploads.len() > 0,
        count <= parents.len(),
        parents.no_duplicates(),
    ensures
        ({
            let before = by_folder(uploads.drop_last(), parents, count).to_multiset();
            by_folder(uploads, parents, count).to_multiset() == if parents.take(
                count as int,
            ).contains(parent_of(uploads.last().file.relative)) {
                before.insert(uploads.last())
            } else {
                before
            }
        }),
    decreases count,
{
    broadcast use vstd::seq_lib::group_to_multiset_ensures;

    let last = uploads.last();
    let parent = parent_of(last.file.relative);
    if count > 0 {
        let less = (count - 1) as nat;
        one_more_upload(uploads, parents, less);
        let (now, then) = (
            uploads_below(uploads, parents[less as int]),
            uploads_below(uploads.drop_last(), parents[less as int]),
        );
        let (done, was) = (
            by_folder(uploads, parents, less),
            by_folder(uploads.drop_last(), parents, less),
        );
        vstd::seq_lib::lemma_multiset_commutative(done, now);
        vstd::seq_lib::lemma_multiset_commutative(was, then);
        let (some, fewer) = (parents.take(count as int), parents.take(less as int));
        assert(some =~= fewer.push(parents[less as int]));
        if fewer.contains(parent) {
            let k = choose|k: int| 0 <= k < fewer.len() && fewer[k] == parent;
            assert(parents[k] == parent);
            assert(parents[less as int] != parent);
            assert(some[k] == parent);
            assert((done + now).to_multiset() =~= (was + then).to_multiset().insert(last));
        } else if parents[less as int] == parent {
            assert(some[less as int] == parent);
            assert(now == then.push(last));
            assert((done + now).to_multiset() =~= (was + then).to_multiset().insert(last));
        } else {
            assert(!some.contains(parent)) by {
                if some.contains(parent) {
                    let k = choose|k: int| 0 <= k < some.len() && some[k] == parent;
                    assert(fewer[k] == parent);
                }
            }
        }
    } else {
        assert(parents.take(0) =~= Seq::<Seq<char>>::empty());
    }
}

proof fn folders_hold_each_once(uploads: Seq<PendingUpload<Seq<char>>>, parents: Seq<Seq<char>>)
    requires
        parents.no_duplicates(),
        forall|i: int|
            0 <= i < uploads.len() ==> parents.contains(
                parent_of((#[trigger] uploads[i]).file.relative),
            ),
    ensures
        by_folder(uploads, parents, parents.len()).to_multiset() == uploads.to_multiset(),
    decreases uploads.len(),
{
    broadcast use vstd::seq_lib::group_to_multiset_ensures;

    if uploads.len() > 0 {
        let rest = uploads.drop_last();
        assert forall|i: int| 0 <= i < rest.len() implies parents.contains(
            parent_of((#[trigger] rest[i]).file.relative),
        ) by {
            assert(rest[i] == uploads[i]);
        }
        folders_hold_each_once(rest, parents);
        one_more_upload(uploads, parents, parents.len());
        assert(parents.take(parents.len() as int) =~= parents);
        assert(parents.contains(parent_of(uploads[uploads.len() - 1].file.relative)));
        assert(uploads =~= rest.push(uploads.last()));
    } else {
        nothing_by_folder(uploads, parents, parents.len());
        assert(by_folder(uploads, parents, parents.len()) =~= uploads);
    }
}

proof fn nothing_by_folder(
    uploads: Seq<PendingUpload<Seq<char>>>,
    parents: Seq<Seq<char>>,
    count: nat,
)
    requires
        uploads.len() == 0,
    ensures
        by_folder(uploads, parents, count).len() == 0,
    decreases count,
{
    if count > 0 {
        nothing_by_folder(uploads, parents, (count - 1) as nat);
    }
}

/// The upload commands, one after the other, are the uploads: folder by folder in the order of the
/// folders, those of a folder in their own order, and each upload once.
pub proof fn commands_are_the_uploads(uploads: Seq<PendingUpload<Seq<char>>>)
    ensures
        ({
            let parents = in_order(upload_parents(uploads));
            &&& ordered(parents)
            &&& job_files(upload_jobs(uploads)) == by_folder(uploads, parents, parents.len())
            &&& job_files(upload_jobs(uploads)).to_multiset() == uploads.to_multiset()
        }),
{
    let parents = in_order(upload_parents(uploads));
    parents_are_finite(uploads);
    in_order_is_ordered(upload_parents(uploads));
    jobs_are_by_folder(uploads, parents, parents.len());
    assert(parents.no_duplicates()) by {
        assert forall|i: int, j: int| 0 <= i < j < parents.len() implies parents[i] != parents[j] by {
            assert(text_lt(parents[i], parents[j]));
            text_lt_irreflexive(parents[i]);
        }
    }
    assert forall|i: int| 0 <= i < uploads.len() implies parents.contains(
        parent_of((#[trigger] uploads[i]).file.relative),
    ) by {
        parents_hold(uploads, i);
        assert(parents.to_set().contains(parent_of(uploads[i].file.relative)));
    }
    folders_hold_each_once(uploads, parents);
}

/// A transaction that saves a file state.
pub open spec fn commits_to(request: RequestView, checkpoint: FileCheckpoint<Seq<char>>) -> bool {
    request matches RequestView::Commit { checkpoints } && checkpoints.contains(checkpoint)
}

/// What a batch transferred is remembered before anything else is done, also when other files of
/// the batch failed.
pub proof fn successes_are_remembered_at_once(run: UploadsView, result: UploadBatchView, i: int)
    requires
        run.stage is Sending,
        run.at < run.jobs.len(),
        0 <= i < run.jobs[run.at as int].uploads.len(),
        succeeded(run, result.failures, run.jobs[run.at as int].uploads[i]),
        run.stepped(ReplyView::Uploaded(result)) is Ok,
    ensures
        run.stepped(ReplyView::Uploaded(result)) matches Ok(Progress::Ask(_, asked)) && commits_to(
            asked,
            run.checkpoint(run.jobs[run.at as int].uploads[i]),
        ),
{
    let uploads = run.jobs[run.at as int].uploads;
    exactly_successes_are_kept(run, uploads, result.failures);
    assert(succeeded(run, result.failures, uploads[i]));
    let kept = run.kept(uploads, result.failures)->Ok_0;
    let k = choose|k: int| 0 <= k < kept.len() && kept[k] == run.checkpoint(uploads[i]);
    assert(kept.len() > 0);
}

} // verus!
