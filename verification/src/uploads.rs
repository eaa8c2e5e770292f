//! Uploading files in batches.

use crate::batches::{batch_views, chunked, cut};
use crate::config::{SyncConfig, SyncConfigView};
use crate::directories::{ensure_remote_directory, ensure_started, Ensure, EnsureView};
use crate::drive::{UploadBatchView, UploadFailure, UploadFailureView};
use crate::error::{outcome, Fault, SyncError};
use crate::exchange::{Progress, Reply, ReplyView, Request, RequestView};
use crate::path_map::PathMap;
use crate::paths::{drive_path, file_name, file_name_of, parent_of, relative_parent, remote_path};
use crate::plan::LocalFile;
use crate::scan::{local_path, local_path_of};
use crate::state::FileCheckpoint;
use crate::text::{in_order, option_view, ordered, text_eq, text_lt, text_lt_irreflexive, views};
use crate::text::views_push;
use vstd::prelude::*;

verus! {

/// The most files that one upload command takes.
pub const UPLOAD_BATCH_SIZE: usize = 32;

/// A local file to upload, and the digest to remember for it if one is known.
#[derive(Debug)]
pub struct PendingUpload<T> {
    pub file: LocalFile<T>,
    pub checkpoint_sha1: Option<T>,
}

impl View for PendingUpload<String> {
    type V = PendingUpload<Seq<char>>;

    open spec fn view(&self) -> PendingUpload<Seq<char>> {
        PendingUpload {
            file: self.file@,
            checkpoint_sha1: option_view(self.checkpoint_sha1),
        }
    }
}

/// One upload command: files of one folder.
#[derive(Debug)]
pub struct UploadJob {
    pub parent: String,
    pub uploads: Vec<PendingUpload<String>>,
    /// Whether this is the first command for the folder.
    pub opens: bool,
}

/// The view of an upload command.
#[verifier::ext_equal]
pub struct UploadJobView {
    pub parent: Seq<char>,
    pub uploads: Seq<PendingUpload<Seq<char>>>,
    pub opens: bool,
}

impl View for UploadJob {
    type V = UploadJobView;

    open spec fn view(&self) -> UploadJobView {
        UploadJobView { parent: self.parent@, uploads: views(self.uploads@), opens: self.opens }
    }
}

/// The uploads of one folder, in their order.
pub open spec fn uploads_below(
    uploads: Seq<PendingUpload<Seq<char>>>,
    parent: Seq<char>,
) -> Seq<PendingUpload<Seq<char>>>
    decreases uploads.len(),
{
    if uploads.len() == 0 {
        Seq::empty()
    } else {
        let rest = uploads_below(uploads.drop_last(), parent);
        if parent_of(uploads.last().file.relative) == parent {
            rest.push(uploads.last())
        } else {
            rest
        }
    }
}

/// The folders that uploads go to.
pub open spec fn upload_parents(uploads: Seq<PendingUpload<Seq<char>>>) -> Set<Seq<char>>
    decreases uploads.len(),
{
    if uploads.len() == 0 {
        Set::empty()
    } else {
        upload_parents(uploads.drop_last()).insert(parent_of(uploads.last().file.relative))
    }
}

/// The upload commands for one folder.
pub open spec fn folder_jobs(
    parent: Seq<char>,
    uploads: Seq<PendingUpload<Seq<char>>>,
) -> Seq<UploadJobView> {
    let batches = chunked(uploads, UPLOAD_BATCH_SIZE as int);
    Seq::new(
        batches.len(),
        |i: int| UploadJobView { parent, uploads: batches[i], opens: i == 0 },
    )
}

/// The upload commands for the first `count` of a list of folders.
pub open spec fn jobs_for(
    uploads: Seq<PendingUpload<Seq<char>>>,
    parents: Seq<Seq<char>>,
    count: nat,
) -> Seq<UploadJobView>
    decreases count,
{
    if count == 0 {
        Seq::empty()
    } else {
        let parent = parents[count - 1];
        jobs_for(uploads, parents, (count - 1) as nat) + folder_jobs(
            parent,
            uploads_below(uploads, parent),
        )
    }
}

/// The upload commands for a list of files: folder by folder in order, in bounded batches.
pub open spec fn upload_jobs(uploads: Seq<PendingUpload<Seq<char>>>) -> Seq<UploadJobView> {
    let parents = in_order(upload_parents(uploads));
    jobs_for(uploads, parents, parents.len())
}

struct Group {
    uploads: Vec<PendingUpload<String>>,
}

impl View for Group {
    type V = Seq<PendingUpload<Seq<char>>>;

    closed spec fn view(&self) -> Seq<PendingUpload<Seq<char>>> {
        views(self.uploads@)
    }
}

spec fn grouped(
    groups: Map<Seq<char>, Seq<PendingUpload<Seq<char>>>>,
    uploads: Seq<PendingUpload<Seq<char>>>,
) -> bool {
    &&& groups.dom() == upload_parents(uploads)
    &&& forall|parent: Seq<char>|
        groups.contains_key(parent) ==> #[trigger] groups[parent] == uploads_below(uploads, parent)
}

proof fn below_outside(uploads: Seq<PendingUpload<Seq<char>>>, parent: Seq<char>)
    requires
        !upload_parents(uploads).contains(parent),
    ensures
        uploads_below(uploads, parent) == Seq::<PendingUpload<Seq<char>>>::empty(),
    decreases uploads.len(),
{
    if uploads.len() > 0 {
        below_outside(uploads.drop_last(), parent);
    }
}

fn group_uploads(uploads: Vec<PendingUpload<String>>) -> (r: PathMap<Group>)
    ensures
        grouped(r@, views(uploads@)),
{
    let ghost all = views(uploads@);
    let mut groups: PathMap<Group> = PathMap::new();
    assert(all.take(0) =~= Seq::<PendingUpload<Seq<char>>>::empty());
    assert(groups@.dom() =~= upload_parents(all.take(0)));
    for upload in it: uploads
        invariant
            it.seq() == uploads@,
            all == views(uploads@),
            grouped(groups@, all.take(it.index())),
    {
        let ghost done = all.take(it.index());
        let ghost before = groups@;
        let ghost next = all.take(it.index() + 1);
        assert(upload@ == all[it.index()]);
        assert(next.drop_last() =~= done);
        let parent = relative_parent(upload.file.relative.as_str());
        let mut group = match groups.insert(parent.clone(), Group { uploads: Vec::new() }) {
            Some(group) => group,
            None => Group { uploads: Vec::new() },
        };
        proof {
            if !before.contains_key(parent@) {
                below_outside(done, parent@);
                assert(group@ =~= uploads_below(done, parent@));
            }
            views_push(group.uploads@, upload);
        }
        group.uploads.push(upload);
        assert(group@ == uploads_below(next, parent@));
        groups.insert(parent, group);
        proof {
            assert(groups@.dom() =~= upload_parents(next));
            assert forall|other: Seq<char>| groups@.contains_key(other) implies #[trigger] groups@[other]
                == uploads_below(next, other) by {
                if other != parent@ {
                    assert(before.contains_key(other));
                    assert(groups@[other] == before[other]);
                }
            }
        }
    }
    assert(all.take(all.len() as int) =~= all);
    groups
}

fn jobs_of(uploads: Vec<PendingUpload<String>>) -> (r: Vec<UploadJob>)
    ensures
        views(r@) == upload_jobs(views(uploads@)),
{
    let ghost all = views(uploads@);
    let mut groups = group_uploads(uploads);
    let parents = groups.keys();
    let ghost model = groups@;
    proof {
        assert forall|k: int| #![trigger parents@[k]] 0 <= k < parents.len() implies model.contains_key(
            parents@[k]@,
        ) by {
            assert(views(parents@)[k] == parents@[k]@);
            assert(views(parents@).to_set().contains(parents@[k]@));
        }
    }
    let mut jobs: Vec<UploadJob> = Vec::new();
    let mut i: usize = 0;
    assert(views(jobs@) =~= jobs_for(all, views(parents@), 0));
    while i < parents.len()
        invariant
            i <= parents.len(),
            grouped(model, all),
            views(parents@) == in_order(upload_parents(all)),
            views(parents@).to_set() == model.dom(),
            ordered(views(parents@)),
            forall|k: int|
                #![trigger parents@[k]]
                i <= k < parents.len() ==> groups@.contains_key(parents@[k]@)
                    && groups@[parents@[k]@] == model[parents@[k]@],
            views(jobs@) == jobs_for(all, views(parents@), i as nat),
        decreases parents.len() - i,
    {
        let ghost parent = parents@[i as int]@;
        let ghost started = views(jobs@);
        proof {
            assert(views(parents@)[i as int] == parent);
            assert(views(parents@).to_set().contains(parent));
        }
        let group = match groups.insert(parents[i].clone(), Group { uploads: Vec::new() }) {
            Some(group) => group,
            None => Group { uploads: Vec::new() },
        };
        assert(group@ == uploads_below(all, parent));
        let ghost folder = folder_jobs(parent, uploads_below(all, parent));
        let batches = cut(group.uploads, UPLOAD_BATCH_SIZE);
        let mut opens = true;
        assert(batch_views(batches@).len() == folder.len());
        for uploads in it: batches
            invariant
                it.seq() == batches@,
                i < parents.len(),
                parent == parents@[i as int]@,
                batch_views(batches@) == chunked(
                    uploads_below(all, parent),
                    UPLOAD_BATCH_SIZE as int,
                ),
                folder == folder_jobs(parent, uploads_below(all, parent)),
                opens == (it.index() == 0),
                views(jobs@) == started + folder.take(it.index()),
        {
            assert(views(uploads@) == batch_views(batches@)[it.index()]);
            let job = UploadJob { parent: parents[i].clone(), uploads, opens };
            proof {
                views_push(jobs@, job);
                assert(job@ =~= folder[it.index()]);
                assert(folder.take(it.index() + 1) =~= folder.take(it.index()).push(job@));
            }
            jobs.push(job);
            opens = false;
            assert(views(jobs@) =~= started + folder.take(it.index() + 1));
        }
        assert(folder.take(folder.len() as int) =~= folder);
        proof {
            assert forall|k: int|
                #![trigger parents@[k]]
                i + 1 <= k < parents.len() implies groups@.contains_key(parents@[k]@)
                && groups@[parents@[k]@] == model[parents@[k]@] by {
                text_lt_irreflexive(parent);
                assert(text_lt(views(parents@)[i as int], views(parents@)[k]));
            }
        }
        i += 1;
    }
    jobs
}

/// What became of all uploads.
#[derive(Clone, Copy, Debug)]
pub struct UploadTally {
    /// Files transferred.
    pub uploaded: usize,
    /// Files whose content the drive already had.
    pub matched_remote: usize,
}

/// The view of a tally.
pub struct UploadTallyView {
    pub uploaded: nat,
    pub matched_remote: nat,
}

impl View for UploadTally {
    type V = UploadTallyView;

    open spec fn view(&self) -> UploadTallyView {
        UploadTallyView {
            uploaded: self.uploaded as nat,
            matched_remote: self.matched_remote as nat,
        }
    }
}

/// What the uploads wait for.
#[derive(Debug)]
pub enum UploadsStage<E> {
    /// The folder of the command at hand being made sure of.
    Ensuring(E),
    /// The command at hand.
    Sending,
    /// What it transferred being remembered.
    Committing,
}

impl View for UploadsStage<Ensure> {
    type V = UploadsStage<EnsureView>;

    open spec fn view(&self) -> UploadsStage<EnsureView> {
        match *self {
            UploadsStage::Ensuring(ensure) => UploadsStage::Ensuring(ensure@),
            UploadsStage::Sending => UploadsStage::Sending,
            UploadsStage::Committing => UploadsStage::Committing,
        }
    }
}

/// Uploads in progress.
#[derive(Debug)]
pub struct Uploads {
    mirror: String,
    root: String,
    remote: String,
    jobs: Vec<UploadJob>,
    at: usize,
    stage: UploadsStage<Ensure>,
    tally: UploadTally,
    failures: Vec<UploadFailure>,
}

/// The view of uploads in progress.
#[verifier::ext_equal]
pub struct UploadsView {
    pub mirror: Seq<char>,
    pub root: Seq<char>,
    pub remote: Seq<char>,
    pub jobs: Seq<UploadJobView>,
    /// The command at hand.
    pub at: nat,
    pub stage: UploadsStage<EnsureView>,
    pub tally: UploadTallyView,
    pub failures: Seq<UploadFailureView>,
}

impl View for Uploads {
    type V = UploadsView;

    closed spec fn view(&self) -> UploadsView {
        UploadsView {
            mirror: self.mirror@,
            root: self.root@,
            remote: self.remote@,
            jobs: views(self.jobs@),
            at: self.at as nat,
            stage: self.stage@,
            tally: self.tally@,
            failures: views(self.failures@),
        }
    }
}

/// What a step of the uploads leads to.
pub type UploadsOutcome = Result<
    Progress<UploadsView, RequestView, UploadTallyView>,
    Fault<Seq<char>>,
>;

/// Whether a file is among those that failed.
pub open spec fn failed_name(failures: Seq<UploadFailureView>, name: Seq<char>) -> bool {
    exists|i: int| 0 <= i < failures.len() && (#[trigger] failures[i]).name == name
}

impl UploadsView {
    /// The file name under which a transfer of an upload is reported.
    pub open spec fn reported_name(self, upload: PendingUpload<Seq<char>>) -> Option<Seq<char>> {
        file_name_of(local_path_of(self.root, upload.file.relative))
    }

    /// What is remembered of an upload.
    pub open spec fn checkpoint(self, upload: PendingUpload<Seq<char>>) -> FileCheckpoint<
        Seq<char>,
    > {
        FileCheckpoint {
            mirror: self.mirror,
            path: upload.file.relative,
            size: upload.file.size,
            mtime_ns: upload.file.mtime_ns,
            sha1: match upload.checkpoint_sha1 {
                Some(sha1) => sha1,
                None => Seq::empty(),
            },
        }
    }

    /// What is remembered of a batch: every upload but those that failed.
    pub open spec fn kept(
        self,
        uploads: Seq<PendingUpload<Seq<char>>>,
        failures: Seq<UploadFailureView>,
    ) -> Result<Seq<FileCheckpoint<Seq<char>>>, Fault<Seq<char>>>
        decreases uploads.len(),
    {
        if uploads.len() == 0 {
            Ok(Seq::empty())
        } else {
            match self.kept(uploads.drop_last(), failures) {
                Err(fault) => Err(fault),
                Ok(rest) => match self.reported_name(uploads.last()) {
                    None => Err(Fault::UploadNoName),
                    Some(name) => if failed_name(failures, name) {
                        Ok(rest)
                    } else {
                        Ok(rest.push(self.checkpoint(uploads.last())))
                    },
                },
            }
        }
    }

    /// The local paths of a batch.
    pub open spec fn sources(self, uploads: Seq<PendingUpload<Seq<char>>>) -> Seq<Seq<char>> {
        uploads.map_values(
            |upload: PendingUpload<Seq<char>>| local_path_of(self.root, upload.file.relative),
        )
    }

    /// Sends the command at hand.
    pub open spec fn sent(self) -> UploadsOutcome {
        let job = self.jobs[self.at as int];
        Ok(
            Progress::Ask(
                UploadsView { stage: UploadsStage::Sending, ..self },
                RequestView::Upload {
                    files: self.sources(job.uploads),
                    parent: drive_path(self.remote, job.parent),
                },
            ),
        )
    }

    /// Turns to the command at hand, if one is left.
    pub open spec fn begun(self) -> UploadsOutcome {
        if self.at >= self.jobs.len() {
            if self.failures.len() == 0 {
                Ok(Progress::Done(self.tally))
            } else {
                Err(
                    Fault::UploadsFailed {
                        count: self.failures.len() as usize,
                        name: self.failures[0].name,
                        error: self.failures[0].error,
                    },
                )
            }
        } else if self.jobs[self.at as int].opens {
            match ensure_started(self.mirror, self.remote, self.jobs[self.at as int].parent) {
                Progress::Ask(ensure, request) => Ok(
                    Progress::Ask(
                        UploadsView { stage: UploadsStage::Ensuring(ensure), ..self },
                        request,
                    ),
                ),
                Progress::Done(_) => self.sent(),
            }
        } else {
            self.sent()
        }
    }

    /// The command after the one at hand.
    pub open spec fn moved_on(self) -> UploadsOutcome {
        UploadsView { at: self.at + 1, ..self }.begun()
    }

    /// With the result of the command at hand counted.
    pub open spec fn tallied(self, result: UploadBatchView) -> UploadsView {
        UploadsView {
            tally: UploadTallyView {
                uploaded: self.tally.uploaded + result.transferred_items as nat,
                matched_remote: self.tally.matched_remote + result.skipped_items as nat,
            },
            failures: self.failures + result.failures,
            ..self
        }
    }

    /// Whether the counts stay in range when `reply` is added to them.
    pub open spec fn accepts(self, reply: ReplyView) -> bool {
        reply matches ReplyView::Uploaded(result) ==> {
            &&& self.tally.uploaded + result.transferred_items <= usize::MAX
            &&& self.tally.matched_remote + result.skipped_items <= usize::MAX
        }
    }

    /// One step.
    pub open spec fn stepped(self, reply: ReplyView) -> UploadsOutcome {
        if self.at >= self.jobs.len() {
            Err(Fault::UnexpectedReply)
        } else {
            match (self.stage, reply) {
                (UploadsStage::Ensuring(ensure), reply) => match ensure.stepped(reply) {
                    Err(fault) => Err(fault),
                    Ok(Progress::Ask(ensure, request)) => Ok(
                        Progress::Ask(
                            UploadsView { stage: UploadsStage::Ensuring(ensure), ..self },
                            request,
                        ),
                    ),
                    Ok(Progress::Done(_)) => self.sent(),
                },
                (UploadsStage::Sending, ReplyView::Uploaded(result)) => match self.kept(
                    self.jobs[self.at as int].uploads,
                    result.failures,
                ) {
                    Err(fault) => Err(fault),
                    Ok(checkpoints) => if checkpoints.len() == 0 {
                        self.tallied(result).moved_on()
                    } else {
                        Ok(
                            Progress::Ask(
                                UploadsView {
                                    stage: UploadsStage::Committing,
                                    ..self.tallied(result)
                                },
                                RequestView::Commit { checkpoints },
                            ),
                        )
                    },
                },
                (UploadsStage::Committing, ReplyView::Done) => self.moved_on(),
                _ => Err(Fault::UnexpectedReply),
            }
        }
    }
}

/// Uploads that have not begun.
pub open spec fn uploads_prepared(
    sync: SyncConfigView,
    uploads: Seq<PendingUpload<Seq<char>>>,
) -> UploadsView {
    UploadsView {
        mirror: sync.name,
        root: sync.local,
        remote: sync.remote,
        jobs: upload_jobs(uploads),
        at: 0,
        stage: UploadsStage::Sending,
        tally: UploadTallyView { uploaded: 0, matched_remote: 0 },
        failures: Seq::empty(),
    }
}

/// Starts uploads: folder by folder, each made sure of first, in bounded batches. What a batch
/// transferred is remembered before the next is sent, also when other files of the batch failed;
/// failures are reported when all is done.
pub fn execute_uploads(sync: &SyncConfig, uploads: Vec<PendingUpload<String>>) -> (r: Result<
    Progress<Uploads, Request, UploadTally>,
    SyncError,
>)
    ensures
        outcome(r) == uploads_prepared(sync@, views(uploads@)).begun(),
{
    let run = Uploads {
        mirror: sync.name.clone(),
        root: sync.local.clone(),
        remote: sync.remote.clone(),
        jobs: jobs_of(uploads),
        at: 0,
        stage: UploadsStage::Sending,
        tally: UploadTally { uploaded: 0, matched_remote: 0 },
        failures: Vec::new(),
    };
    assert(run@.failures =~= Seq::<UploadFailureView>::empty());
    run.begin()
}

fn name_failed(failures: &Vec<UploadFailure>, name: &str) -> (r: bool)
    ensures
        r == failed_name(views(failures@), name@),
{
    let mut i: usize = 0;
    while i < failures.len()
        invariant
            i <= failures.len(),
            forall|k: int| 0 <= k < i ==> (#[trigger] views(failures@)[k]).name != name@,
        decreases failures.len() - i,
    {
        assert(views(failures@)[i as int].name == failures@[i as int].name@);
        if text_eq(failures[i].name.as_str(), name) {
            return true;
        }
        i += 1;
    }
    false
}

impl Uploads {
    fn begin(self) -> (r: Result<Progress<Uploads, Request, UploadTally>, SyncError>)
        ensures
            outcome(r) == self@.begun(),
    {
        let mut run = self;
        if run.at >= run.jobs.len() {
            if run.failures.len() == 0 {
                return Ok(Progress::Done(run.tally));
            }
            return Err(
                Fault::UploadsFailed {
                    count: run.failures.len(),
                    name: run.failures[0].name.clone(),
                    error: run.failures[0].error.clone(),
                },
            );
        }
        let ghost job = run@.jobs[run.at as int];
        assert(job == run.jobs@[run.at as int]@);
        if run.jobs[run.at].opens {
            match ensure_remote_directory(
                run.mirror.as_str(),
                run.remote.as_str(),
                run.jobs[run.at].parent.as_str(),
            ) {
                Progress::Ask(ensure, request) => {
                    run.stage = UploadsStage::Ensuring(ensure);
                    Ok(Progress::Ask(run, request))
                },
                Progress::Done(_) => run.send(),
            }
        } else {
            run.send()
        }
    }

    fn send(self) -> (r: Result<Progress<Uploads, Request, UploadTally>, SyncError>)
        requires
            self@.at < self@.jobs.len(),
        ensures
            outcome(r) == self@.sent(),
    {
        let mut run = self;
        let ghost job = run@.jobs[run.at as int];
        assert(job == run.jobs@[run.at as int]@);
        let mut files: Vec<String> = Vec::new();
        let mut i: usize = 0;
        assert(views(files@) =~= run@.sources(job.uploads).take(0));
        while i < run.jobs[run.at].uploads.len()
            invariant
                run.at < run.jobs.len(),
                job == run.jobs@[run.at as int]@,
                i <= job.uploads.len(),
                views(files@) == run@.sources(job.uploads).take(i as int),
            decreases job.uploads.len() - i,
        {
            let upload = &run.jobs[run.at].uploads[i];
            assert(upload@ == job.uploads[i as int]);
            let path = local_path(run.root.as_str(), upload.file.relative.as_str());
            proof {
                views_push(files@, path);
                assert(run@.sources(job.uploads).take(i + 1) =~= run@.sources(job.uploads).take(
                    i as int,
                ).push(path@));
            }
            files.push(path);
            i += 1;
        }
        assert(run@.sources(job.uploads).take(i as int) =~= run@.sources(job.uploads));
        let parent = remote_path(run.remote.as_str(), run.jobs[run.at].parent.as_str());
        run.stage = UploadsStage::Sending;
        Ok(Progress::Ask(run, Request::Upload { files, parent }))
    }

    fn move_on(self) -> (r: Result<Progress<Uploads, Request, UploadTally>, SyncError>)
        requires
            self@.at < self@.jobs.len(),
        ensures
            outcome(r) == self@.moved_on(),
    {
        let mut run = self;
        assert(run.at < run.jobs.len());
        run.at += 1;
        run.begin()
    }

    fn keep(&self, failures: &Vec<UploadFailure>) -> (r: Result<
        Vec<FileCheckpoint<String>>,
        SyncError,
    >)
        requires
            self@.at < self@.jobs.len(),
        ensures
            match r {
                Ok(checkpoints) => self@.kept(
                    self@.jobs[self@.at as int].uploads,
                    views(failures@),
                ) == Ok::<Seq<FileCheckpoint<Seq<char>>>, Fault<Seq<char>>>(views(checkpoints@)),
                Err(error) => self@.kept(self@.jobs[self@.at as int].uploads, views(failures@))
                    == Err::<Seq<FileCheckpoint<Seq<char>>>, Fault<Seq<char>>>(error@),
            },
    {
        let ghost uploads = self@.jobs[self.at as int].uploads;
        let ghost failed = views(failures@);
        assert(self@.jobs[self.at as int] == self.jobs@[self.at as int]@);
        let mut checkpoints: Vec<FileCheckpoint<String>> = Vec::new();
        let mut i: usize = 0;
        assert(views(checkpoints@) =~= Seq::<FileCheckpoint<Seq<char>>>::empty());
        while i < self.jobs[self.at].uploads.len()
            invariant
                self.at < self.jobs.len(),
                uploads == self.jobs@[self.at as int]@.uploads,
                uploads == self@.jobs[self@.at as int].uploads,
                failed == views(failures@),
                i <= uploads.len(),
                self@.kept(uploads.take(i as int), failed) == Ok::<
                    Seq<FileCheckpoint<Seq<char>>>,
                    Fault<Seq<char>>,
                >(views(checkpoints@)),
            decreases uploads.len() - i,
        {
            let upload = &self.jobs[self.at].uploads[i];
            assert(upload@ == uploads[i as int]);
            assert(uploads.take(i + 1).drop_last() =~= uploads.take(i as int));
            let path = local_path(self.root.as_str(), upload.file.relative.as_str());
            match file_name(path.as_str()) {
                None => {
                    proof {
                        self@.kept_stops(uploads, failed, i + 1);
                    }
                    return Err(Fault::UploadNoName);
                },
                Some(name) => {
                    if !name_failed(failures, name.as_str()) {
                        let sha1 = match &upload.checkpoint_sha1 {
                            Some(sha1) => sha1.clone(),
                            None => String::new(),
                        };
                        let checkpoint = FileCheckpoint {
                            mirror: self.mirror.clone(),
                            path: upload.file.relative.clone(),
                            size: upload.file.size,
                            mtime_ns: upload.file.mtime_ns,
                            sha1,
                        };
                        proof {
                            assert(upload.checkpoint_sha1 is None ==> sha1@ =~= Seq::<char>::empty());
                            views_push(checkpoints@, checkpoint);
                        }
                        checkpoints.push(checkpoint);
                    }
                },
            }
            i += 1;
        }
        assert(uploads.take(i as int) =~= uploads);
        Ok(checkpoints)
    }

    /// Whether the counts stay in range when `reply` is added to them.
    pub fn fits(&self, reply: &Reply) -> (r: bool)
        ensures
            r == self@.accepts(reply@),
    {
        match reply {
            Reply::Uploaded(result) => {
                result.transferred_items <= usize::MAX - self.tally.uploaded
                    && result.skipped_items <= usize::MAX - self.tally.matched_remote
            },
            _ => true,
        }
    }

    /// Takes the reply to the last request, and goes on.
    pub fn next(self, reply: Reply) -> (r: Result<Progress<Uploads, Request, UploadTally>, SyncError>)
        requires
            self@.accepts(reply@),
        ensures
            outcome(r) == self@.stepped(reply@),
    {
        let mut run = self;
        let ghost before = self@;
        if run.at >= run.jobs.len() {
            return Err(Fault::UnexpectedReply);
        }
        match (run.stage, reply) {
            (UploadsStage::Ensuring(ensure), reply) => match ensure.next(reply) {
                Err(error) => Err(error),
                Ok(Progress::Ask(ensure, request)) => {
                    run.stage = UploadsStage::Ensuring(ensure);
                    Ok(Progress::Ask(run, request))
                },
                Ok(Progress::Done(_)) => {
                    run.stage = UploadsStage::Sending;
                    run.send()
                },
            },
            (UploadsStage::Sending, Reply::Uploaded(result)) => {
                run.stage = UploadsStage::Sending;
                assert(run@ =~= before);
                match run.keep(&result.failures) {
                    Err(error) => Err(error),
                    Ok(checkpoints) => {
                        let mut failures = result.failures;
                        let ghost failed = failures@;
                        run.tally = UploadTally {
                            uploaded: run.tally.uploaded + result.transferred_items,
                            matched_remote: run.tally.matched_remote + result.skipped_items,
                        };
                        assert(views(run.failures@ + failed) =~= views(run.failures@) + views(
                            failed,
                        ));
                        run.failures.append(&mut failures);
                        assert(run@ =~= before.tallied(result@));
                        if checkpoints.len() == 0 {
                            run.move_on()
                        } else {
                            run.stage = UploadsStage::Committing;
                            Ok(Progress::Ask(run, Request::Commit { checkpoints }))
                        }
                    },
                }
            },
            (UploadsStage::Committing, Reply::Done) => {
                run.stage = UploadsStage::Committing;
                run.move_on()
            },
            _ => Err(Fault::UnexpectedReply),
        }
    }
}

impl UploadsView {
    proof fn kept_stops(
        self,
        uploads: Seq<PendingUpload<Seq<char>>>,
        failures: Seq<UploadFailureView>,
        count: int,
    )
        requires
            0 <= count <= uploads.len(),
            self.kept(uploads.take(count), failures) is Err,
        ensures
            self.kept(uploads, failures) == self.kept(uploads.take(count), failures),
        decreases uploads.len(),
    {
        if count == uploads.len() {
            assert(uploads.take(count) =~= uploads);
        } else {
            assert(uploads.drop_last().take(count) =~= uploads.take(count));
            self.kept_stops(uploads.drop_last(), failures, count);
        }
    }
}

} // verus!
