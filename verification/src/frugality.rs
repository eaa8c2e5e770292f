//! What a push leaves out: digests that nothing asked for, and folders without files.

use crate::config::SyncConfigView;
use crate::directories::EnsureView;
use crate::exchange::{Progress, ReplyView, RequestView};
use crate::inventory::RemoteTreeView;
use crate::paths::{drive_path, name_of, parent_of};
use crate::plan::LocalFile;
use crate::push::{changed_among, changed_files, PushStageView, PushView};
use crate::push_laws::push_step;
use crate::scan::ScannedView;
use crate::soundness::{inventory_asks, sound_job, upload_jobs_are_sound};
use crate::state::FileState;
use crate::text::{in_order, in_order_is_ordered};
use crate::trace::{kept_by_steps, requests};
use crate::upload_laws::{exactly_successes_are_kept, succeeded};
use crate::uploads::{uploads_prepared, UploadJobView, UploadsStage, UploadsView};
use vstd::prelude::*;

verus! {

/// A request that remembers no digest.
pub open spec fn remembers_no_digest(request: RequestView) -> bool {
    request matches RequestView::Commit { checkpoints } ==> forall|i: int|
        0 <= i < checkpoints.len() ==> (#[trigger] checkpoints[i]).sha1.len() == 0
}

/// The folder of a path, and above it `steps` folders up.
pub open spec fn folder_above(path: Seq<char>, steps: nat) -> Seq<char>
    decreases steps,
{
    if steps == 0 {
        parent_of(path)
    } else {
        parent_of(folder_above(path, (steps - 1) as nat))
    }
}

/// A folder that is the folder of a path or above it.
pub open spec fn leads_to(folder: Seq<char>, path: Seq<char>) -> bool {
    exists|steps: nat| folder == #[trigger] folder_above(path, steps)
}

/// A request that makes no folder but one that leads to one of `files`.
pub open spec fn makes_no_idle_folder(
    request: RequestView,
    remote: Seq<char>,
    files: Map<Seq<char>, LocalFile<Seq<char>>>,
) -> bool {
    request matches RequestView::CreateFolder { parent, name } ==> exists|
        path: Seq<char>,
        folder: Seq<char>,
    |
        {
            &&& files.contains_key(path)
            &&& #[trigger] leads_to(folder, files[path].relative)
            &&& parent == drive_path(remote, parent_of(folder))
            &&& name == name_of(folder)
        }
}

spec fn climbs_from(run: EnsureView, remote: Seq<char>, path: Seq<char>) -> bool {
    &&& run.remote == remote
    &&& forall|i: int| 0 <= i < run.pending.len() ==> leads_to(#[trigger] run.pending[i], path)
}

proof fn folder_above_leads(folder: Seq<char>, path: Seq<char>)
    requires
        leads_to(folder, path),
    ensures
        leads_to(parent_of(folder), path),
{
    let steps = choose|steps: nat| folder == #[trigger] folder_above(path, steps);
    assert(folder_above(path, steps + 1) == parent_of(folder));
}

proof fn climbed_climbs(run: EnsureView, remote: Seq<char>, path: Seq<char>, folder: Seq<char>)
    requires
        climbs_from(run, remote, path),
        leads_to(folder, path),
    ensures
        run.climbed(folder) matches Progress::Ask(next, request) ==> climbs_from(next, remote, path)
            && request !is CreateFolder && request !is Commit,
{
}

proof fn ensure_climbs(
    run: EnsureView,
    remote: Seq<char>,
    files: Map<Seq<char>, LocalFile<Seq<char>>>,
    key: Seq<char>,
    reply: ReplyView,
)
    requires
        climbs_from(run, remote, files[key].relative),
        files.contains_key(key),
    ensures
        run.stepped(reply) matches Ok(Progress::Ask(next, request)) ==> {
            &&& climbs_from(next, remote, files[key].relative)
            &&& makes_no_idle_folder(request, remote, files)
            &&& request !is Commit
        },
{
    if run.pending.len() > 0 {
        let folder = run.pending.last();
        let path = files[key].relative;
        assert(leads_to(run.pending[run.pending.len() - 1], path));
        folder_above_leads(folder, path);
        climbed_climbs(run, remote, path, parent_of(folder));
    }
}

spec fn frugal_job(
    job: UploadJobView,
    files: Map<Seq<char>, LocalFile<Seq<char>>>,
) -> bool {
    &&& forall|i: int|
        0 <= i < job.uploads.len() ==> (#[trigger] job.uploads[i]).checkpoint_sha1 is None
    &&& exists|key: Seq<char>| #[trigger]
        files.contains_key(key) && parent_of(files[key].relative) == job.parent
}

spec fn frugal_uploads(
    run: UploadsView,
    remote: Seq<char>,
    files: Map<Seq<char>, LocalFile<Seq<char>>>,
) -> bool {
    &&& run.remote == remote
    &&& forall|j: int| 0 <= j < run.jobs.len() ==> frugal_job(#[trigger] run.jobs[j], files)
    &&& run.stage matches UploadsStage::Ensuring(ensure) ==> exists|key: Seq<char>| #[trigger]
        files.contains_key(key) && climbs_from(ensure, remote, files[key].relative)
}

spec fn frugal_request(
    request: RequestView,
    remote: Seq<char>,
    files: Map<Seq<char>, LocalFile<Seq<char>>>,
) -> bool {
    remembers_no_digest(request) && makes_no_idle_folder(request, remote, files)
}

proof fn begun_uploads_are_frugal(
    run: UploadsView,
    remote: Seq<char>,
    files: Map<Seq<char>, LocalFile<Seq<char>>>,
)
    requires
        frugal_uploads(UploadsView { stage: UploadsStage::Sending, ..run }, remote, files),
    ensures
        run.begun() matches Ok(Progress::Ask(next, request)) ==> frugal_uploads(next, remote, files)
            && frugal_request(request, remote, files),
{
    let sending = UploadsView { stage: UploadsStage::Sending, ..run };
    assert(sending.jobs == run.jobs);
    if run.at < run.jobs.len() {
        let job = run.jobs[run.at as int];
        assert(frugal_job(sending.jobs[run.at as int], files));
        let key = choose|key: Seq<char>| #[trigger]
            files.contains_key(key) && parent_of(files[key].relative) == job.parent;
        let path = files[key].relative;
        assert(folder_above(path, 0) == job.parent);
        assert(leads_to(job.parent, path));
    }
}

proof fn uploads_are_frugal(
    run: UploadsView,
    remote: Seq<char>,
    files: Map<Seq<char>, LocalFile<Seq<char>>>,
    reply: ReplyView,
)
    requires
        frugal_uploads(run, remote, files),
    ensures
        run.stepped(reply) matches Ok(Progress::Ask(next, request)) ==> frugal_uploads(
            next,
            remote,
            files,
        ) && frugal_request(request, remote, files),
{
    if run.at < run.jobs.len() {
        let job = run.jobs[run.at as int];
        assert(frugal_job(job, files));
        begun_uploads_are_frugal(UploadsView { at: run.at + 1, ..run }, remote, files);
        match (run.stage, reply) {
            (UploadsStage::Ensuring(ensure), _) => {
                let key = choose|key: Seq<char>| #[trigger]
                    files.contains_key(key) && climbs_from(ensure, remote, files[key].relative);
                ensure_climbs(ensure, remote, files, key, reply);
            },
            (UploadsStage::Sending, ReplyView::Uploaded(result)) => {
                begun_uploads_are_frugal(
                    UploadsView { at: run.at + 1, ..run.tallied(result) },
                    remote,
                    files,
                );
                if let Ok(checkpoints) = run.kept(job.uploads, result.failures) {
                    exactly_successes_are_kept(run, job.uploads, result.failures);
                    assert forall|k: int| 0 <= k < checkpoints.len() implies (
                    #[trigger] checkpoints[k]).sha1.len() == 0 by {
                        let i = choose|i: int|
                            0 <= i < job.uploads.len() && succeeded(
                                run,
                                result.failures,
                                #[trigger] job.uploads[i],
                            ) && run.checkpoint(job.uploads[i]) == checkpoints[k];
                        assert(job.uploads[i].checkpoint_sha1 is None);
                    }
                }
            },
            _ => {},
        }
    }
}

proof fn changed_have_no_digest(
    files: Map<Seq<char>, LocalFile<Seq<char>>>,
    states: Map<Seq<char>, FileState<Seq<char>>>,
    paths: Seq<Seq<char>>,
    count: nat,
)
    requires
        count <= paths.len(),
        forall|k: int| 0 <= k < count ==> files.contains_key(#[trigger] paths[k]),
    ensures
        forall|i: int|
            0 <= i < changed_among(files, states, paths, count).len() ==> {
                let upload = #[trigger] changed_among(files, states, paths, count)[i];
                &&& upload.checkpoint_sha1 is None
                &&& exists|key: Seq<char>| #[trigger]
                    files.contains_key(key) && files[key] == upload.file
            },
    decreases count,
{
    if count > 0 {
        changed_have_no_digest(files, states, paths, (count - 1) as nat);
        let rest = changed_among(files, states, paths, (count - 1) as nat);
        let all = changed_among(files, states, paths, count);
        assert forall|i: int| 0 <= i < all.len() implies {
            let upload = #[trigger] all[i];
            &&& upload.checkpoint_sha1 is None
            &&& exists|key: Seq<char>| #[trigger]
                files.contains_key(key) && files[key] == upload.file
        } by {
            if i < rest.len() {
                assert(all[i] == rest[i]);
            } else {
                assert(files.contains_key(paths[count - 1]));
            }
        }
    }
}

/// A push remembers no digest, which is what the client computes already, and makes no folder but
/// those that lead to a local file.
pub proof fn push_is_frugal(
    sync: SyncConfigView,
    scanned: ScannedView,
    states: Map<Seq<char>, FileState<Seq<char>>>,
    baseline: bool,
    tree: Option<RemoteTreeView>,
    replies: Seq<ReplyView>,
)
    requires
        scanned.files.dom().finite(),
        PushView::reconciled(sync, scanned, states, baseline, tree) is Ok,
    ensures
        ({
            let start = PushView::reconciled(sync, scanned, states, baseline, tree)->Ok_0;
            forall|i: int|
                0 <= i < requests(push_step(), start, replies).len() ==> {
                    let request = #[trigger] requests(push_step(), start, replies)[i];
                    &&& remembers_no_digest(request)
                    &&& makes_no_idle_folder(request, sync.remote, scanned.files)
                }
        }),
{
    let start = PushView::reconciled(sync, scanned, states, baseline, tree)->Ok_0;
    let files = scanned.files;
    let paths = in_order(files.dom());
    let uploads = changed_files(files, states);
    let run = uploads_prepared(sync, uploads);
    in_order_is_ordered(files.dom());
    assert forall|k: int| 0 <= k < paths.len() implies files.contains_key(#[trigger] paths[k]) by {
        assert(paths.to_set().contains(paths[k]));
    }
    changed_have_no_digest(files, states, paths, paths.len());
    upload_jobs_are_sound(uploads);
    assert forall|j: int| 0 <= j < run.jobs.len() implies frugal_job(#[trigger] run.jobs[j], files) by {
        let job = run.jobs[j];
        assert(sound_job(job, uploads));
        assert forall|i: int| 0 <= i < job.uploads.len() implies (
        #[trigger] job.uploads[i]).checkpoint_sha1 is None by {
            let u = choose|u: int| 0 <= u < uploads.len() && uploads[u] == job.uploads[i];
            assert(changed_among(files, states, paths, paths.len())[u].checkpoint_sha1 is None);
        }
        let u = choose|u: int| 0 <= u < uploads.len() && uploads[u] == job.uploads[0];
        let key = choose|key: Seq<char>| #[trigger]
            files.contains_key(key) && files[key] == changed_among(
                files,
                states,
                paths,
                paths.len(),
            )[u].file;
        assert(files.contains_key(key) && parent_of(files[key].relative) == job.parent);
    }
    begun_uploads_are_frugal(run, sync.remote, files);
    let step = push_step();
    let sound = |run: PushView, request: RequestView|
        {
            &&& frugal_request(request, sync.remote, files)
            &&& match run.stage {
                PushStageView::Uploading { uploads, .. } => frugal_uploads(
                    uploads,
                    sync.remote,
                    files,
                ),
                PushStageView::ListingStale { .. } => true,
                PushStageView::Locating { .. } => true,
                PushStageView::Forgetting { .. } => true,
                PushStageView::Trashing { .. } => true,
                PushStageView::Finishing { .. } => true,
                _ => false,
            }
        };
    let good = |request: RequestView| frugal_request(request, sync.remote, files);
    assert forall|run: PushView, request: RequestView, reply: ReplyView|
        #![trigger sound(run, request), step(run, reply)]
        sound(run, request) implies (step(run, reply) matches Ok(Progress::Ask(next, asked))
        ==> sound(next, asked)) by {
        match run.stage {
            PushStageView::Uploading { uploads, .. } => uploads_are_frugal(
                uploads,
                sync.remote,
                files,
                reply,
            ),
            PushStageView::Locating { inventory, .. } => inventory_asks(inventory, reply),
            _ => {},
        }
    }
    kept_by_steps(step, sound, good, start, replies);
    assert forall|i: int| 0 <= i < requests(step, start, replies).len() implies {
        let request = #[trigger] requests(step, start, replies)[i];
        &&& remembers_no_digest(request)
        &&& makes_no_idle_folder(request, sync.remote, files)
    } by {
        assert(good(requests(step, start, replies)[i]));
    }
}

} // verus!
