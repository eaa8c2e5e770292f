//! Bringing a remote file to its local place.

use crate::config::{SyncConfig, SyncConfigView};
use crate::drive::{RemoteFile, RemoteFileView};
use crate::error::{outcome, Fault, SyncError};
use crate::exchange::{Progress, Reply, ReplyView, Request, RequestView};
use crate::paths::{drive_path, file_name, file_name_of, remote_path};
use crate::places::{join_path, path_joined};
use crate::plan::LocalFile;
use crate::scan::{file_at, local_file, local_path, local_path_of};
use crate::text::{eq_ignore_ascii_case, same_ignoring_case};
use crate::trace::{requests, Step};
use vstd::prelude::*;

verus! {

/// What a download waits for.
#[derive(Debug)]
pub enum DownloadStage<T> {
    /// A directory to download into.
    Staging,
    /// The download into that directory.
    Fetching { directory: T },
    /// The size of what was downloaded.
    Measuring { staged: T },
    /// The digest of what was downloaded.
    Hashing { staged: T },
    /// The move to its place.
    Installing,
    /// The metadata of the file in its place.
    Reading,
}

impl View for DownloadStage<String> {
    type V = DownloadStage<Seq<char>>;

    open spec fn view(&self) -> DownloadStage<Seq<char>> {
        match *self {
            DownloadStage::Staging => DownloadStage::Staging,
            DownloadStage::Fetching { directory } => DownloadStage::Fetching {
                directory: directory@,
            },
            DownloadStage::Measuring { staged } => DownloadStage::Measuring { staged: staged@ },
            DownloadStage::Hashing { staged } => DownloadStage::Hashing { staged: staged@ },
            DownloadStage::Installing => DownloadStage::Installing,
            DownloadStage::Reading => DownloadStage::Reading,
        }
    }
}

/// A download. The file comes into a directory of its own first, and is moved to its place once its
/// size and digest are those that the drive claims.
#[derive(Debug)]
pub struct Download {
    remote_path: String,
    relative: String,
    target: String,
    file: RemoteFile,
    stage: DownloadStage<String>,
}

/// The view of a download.
#[verifier::ext_equal]
pub struct DownloadView {
    pub remote_path: Seq<char>,
    pub relative: Seq<char>,
    pub target: Seq<char>,
    pub file: RemoteFileView,
    pub stage: DownloadStage<Seq<char>>,
}

impl View for Download {
    type V = DownloadView;

    closed spec fn view(&self) -> DownloadView {
        DownloadView {
            remote_path: self.remote_path@,
            relative: self.relative@,
            target: self.target@,
            file: self.file@,
            stage: self.stage@,
        }
    }
}

/// What a step of a download leads to.
pub type DownloadOutcome = Result<
    Progress<DownloadView, RequestView, LocalFile<Seq<char>>>,
    Fault<Seq<char>>,
>;

impl DownloadView {
    /// The download in another stage.
    pub open spec fn at(self, stage: DownloadStage<Seq<char>>) -> DownloadView {
        DownloadView { stage, ..self }
    }

    /// One step.
    pub open spec fn stepped(self, reply: ReplyView) -> DownloadOutcome {
        match (self.stage, reply) {
            (DownloadStage::Staging, ReplyView::Staged { directory }) => Ok(
                Progress::Ask(
                    self.at(DownloadStage::Fetching { directory }),
                    RequestView::Download { path: self.remote_path, directory },
                ),
            ),
            (DownloadStage::Fetching { directory }, ReplyView::Done) => match file_name_of(
                self.target,
            ) {
                Some(name) => {
                    let staged = path_joined(directory, name);
                    Ok(
                        Progress::Ask(
                            self.at(DownloadStage::Measuring { staged }),
                            RequestView::Stat { path: staged },
                        ),
                    )
                },
                None => Err(Fault::DownloadNoName),
            },
            (DownloadStage::Measuring { staged }, ReplyView::Stat(stat)) => if stat.size
                == self.file.claimed_size {
                Ok(
                    Progress::Ask(
                        self.at(DownloadStage::Hashing { staged }),
                        RequestView::Hash { path: staged },
                    ),
                )
            } else {
                Err(
                    Fault::SizeMismatch {
                        path: self.relative,
                        expected: self.file.claimed_size,
                        got: stat.size,
                    },
                )
            },
            (DownloadStage::Hashing { staged }, ReplyView::Digest(digest)) => if same_ignoring_case(
                digest,
                self.file.sha1,
            ) {
                Ok(
                    Progress::Ask(
                        self.at(DownloadStage::Installing),
                        RequestView::Install { staged, target: self.target },
                    ),
                )
            } else {
                Err(Fault::DigestMismatch { path: self.relative })
            },
            (DownloadStage::Installing, ReplyView::Done) => Ok(
                Progress::Ask(
                    self.at(DownloadStage::Reading),
                    RequestView::Stat { path: self.target },
                ),
            ),
            (DownloadStage::Reading, ReplyView::Stat(stat)) => match file_at(self.relative, stat) {
                Ok(file) => Ok(Progress::Done(file)),
                Err(fault) => Err(fault),
            },
            _ => Err(Fault::UnexpectedReply),
        }
    }
}

/// The download of one path of an entry, before anything was done.
pub open spec fn download_started(
    sync: SyncConfigView,
    relative: Seq<char>,
    file: RemoteFileView,
) -> DownloadView {
    DownloadView {
        remote_path: drive_path(sync.remote, relative),
        relative,
        target: local_path_of(sync.local, relative),
        file,
        stage: DownloadStage::Staging,
    }
}

/// Starts the download of one path of an entry.
pub fn download_remote_file(sync: &SyncConfig, relative: &str, file: &RemoteFile) -> (r: (
    Download,
    Request,
))
    ensures
        r.0@ == download_started(sync@, relative@, file@),
        r.1@ == (RequestView::Stage { target: local_path_of(sync@.local, relative@) }),
{
    let target = local_path(sync.local.as_str(), relative);
    let run = Download {
        remote_path: remote_path(sync.remote.as_str(), relative),
        relative: relative.to_owned(),
        target: target.clone(),
        file: file.clone(),
        stage: DownloadStage::Staging,
    };
    (run, Request::Stage { target })
}

impl Download {
    /// Takes the reply to the last request, and goes on.
    pub fn next(self, reply: Reply) -> (r: Result<
        Progress<Download, Request, LocalFile<String>>,
        SyncError,
    >)
        ensures
            outcome(r) == self@.stepped(reply@),
    {
        let mut run = self;
        match (run.stage, reply) {
            (DownloadStage::Staging, Reply::Staged { directory }) => {
                let path = run.remote_path.clone();
                run.stage = DownloadStage::Fetching { directory: directory.clone() };
                Ok(Progress::Ask(run, Request::Download { path, directory }))
            },
            (DownloadStage::Fetching { directory }, Reply::Done) => match file_name(
                run.target.as_str(),
            ) {
                Some(name) => {
                    let staged = join_path(directory.as_str(), name.as_str());
                    run.stage = DownloadStage::Measuring { staged: staged.clone() };
                    Ok(Progress::Ask(run, Request::Stat { path: staged }))
                },
                None => Err(Fault::DownloadNoName),
            },
            (DownloadStage::Measuring { staged }, Reply::Stat(stat)) => {
                if stat.size != run.file.claimed_size {
                    return Err(
                        Fault::SizeMismatch {
                            path: run.relative,
                            expected: run.file.claimed_size,
                            got: stat.size,
                        },
                    );
                }
                run.stage = DownloadStage::Hashing { staged: staged.clone() };
                Ok(Progress::Ask(run, Request::Hash { path: staged }))
            },
            (DownloadStage::Hashing { staged }, Reply::Digest(digest)) => {
                if !eq_ignore_ascii_case(digest.as_str(), run.file.sha1.as_str()) {
                    return Err(Fault::DigestMismatch { path: run.relative });
                }
                let target = run.target.clone();
                run.stage = DownloadStage::Installing;
                Ok(Progress::Ask(run, Request::Install { staged, target }))
            },
            (DownloadStage::Installing, Reply::Done) => {
                let path = run.target.clone();
                run.stage = DownloadStage::Reading;
                Ok(Progress::Ask(run, Request::Stat { path }))
            },
            (DownloadStage::Reading, Reply::Stat(stat)) => match local_file(
                run.relative.as_str(),
                stat,
            ) {
                Ok(file) => Ok(Progress::Done(file)),
                Err(error) => Err(error),
            },
            _ => Err(Fault::UnexpectedReply),
        }
    }
}

/// The step function of a download.
pub open spec fn download_step() -> Step<DownloadView, LocalFile<Seq<char>>> {
    |run: DownloadView, reply: ReplyView| run.stepped(reply)
}

/// The requests of a download that is given `replies` one by one.
pub open spec fn download_requests(
    sync: SyncConfigView,
    relative: Seq<char>,
    file: RemoteFileView,
    replies: Seq<ReplyView>,
) -> Seq<RequestView> {
    requests(
        download_step(),
        Progress::Ask(
            download_started(sync, relative, file),
            RequestView::Stage { target: local_path_of(sync.local, relative) },
        ),
        replies,
    )
}

proof fn no_install_while_reading(run: DownloadView, request: RequestView, replies: Seq<ReplyView>)
    requires
        run.stage is Reading,
        request !is Install,
    ensures
        forall|i: int|
            0 <= i < requests(download_step(), Progress::Ask(run, request), replies).len() ==> (
            #[trigger] requests(download_step(), Progress::Ask(run, request), replies)[i])
                !is Install,
{
    let step = download_step();
    if replies.len() > 0 {
        if let Ok(next) = step(run, replies[0]) {
            assert(requests(step, next, replies.drop_first()).len() == 0);
        }
    }
}

/// A downloaded file is put in its place only when what was staged has the size and the digest
/// that the drive claims for it.
pub proof fn installed_content_is_verified(
    sync: SyncConfigView,
    relative: Seq<char>,
    file: RemoteFileView,
    replies: Seq<ReplyView>,
    i: int,
)
    requires
        0 <= i < download_requests(sync, relative, file, replies).len(),
        download_requests(sync, relative, file, replies)[i] is Install,
    ensures
        ({
            let asked = download_requests(sync, relative, file, replies);
            let staged = asked[i]->Install_staged;
            &&& i == 4
            &&& asked[i]->Install_target == local_path_of(sync.local, relative)
            &&& asked[2] == RequestView::Stat { path: staged }
            &&& replies[2] matches ReplyView::Stat(stat) && stat.size == file.claimed_size
            &&& asked[3] == RequestView::Hash { path: staged }
            &&& replies[3] matches ReplyView::Digest(digest) && same_ignoring_case(
                digest,
                file.sha1,
            )
        }),
{
    let step = download_step();
    let asked = download_requests(sync, relative, file, replies);
    let start = download_started(sync, relative, file);
    let r1 = replies.drop_first();
    let r2 = r1.drop_first();
    let r3 = r2.drop_first();
    let r4 = r3.drop_first();
    if replies.len() > 0 {
        if let Ok(Progress::Ask(s1, q1)) = step(start, replies[0]) {
            let t1 = requests(step, Progress::Ask(s1, q1), r1);
            assert(forall|k: int| 0 < k < asked.len() ==> asked[k] == t1[k - 1]);
            if r1.len() > 0 {
                assert(r1[0] == replies[1]);
                if let Ok(Progress::Ask(s2, q2)) = step(s1, r1[0]) {
                    let t2 = requests(step, Progress::Ask(s2, q2), r2);
                    assert(forall|k: int| 0 < k < t1.len() ==> t1[k] == t2[k - 1]);
                    if r2.len() > 0 {
                        assert(r2[0] == replies[2]);
                        if let Ok(Progress::Ask(s3, q3)) = step(s2, r2[0]) {
                            let t3 = requests(step, Progress::Ask(s3, q3), r3);
                            assert(forall|k: int| 0 < k < t2.len() ==> t2[k] == t3[k - 1]);
                            if r3.len() > 0 {
                                assert(r3[0] == replies[3]);
                                if let Ok(Progress::Ask(s4, q4)) = step(s3, r3[0]) {
                                    let t4 = requests(step, Progress::Ask(s4, q4), r4);
                                    assert(forall|k: int| 0 < k < t3.len() ==> t3[k] == t4[k - 1]);
                                    assert(asked[4] == q4);
                                    if r4.len() > 0 {
                                        if let Ok(Progress::Ask(s5, q5)) = step(s4, r4[0]) {
                                            no_install_while_reading(s5, q5, r4.drop_first());
                                            let t5 = requests(
                                                step,
                                                Progress::Ask(s5, q5),
                                                r4.drop_first(),
                                            );
                                            assert(forall|k: int|
                                                0 < k < t4.len() ==> t4[k] == t5[k - 1]);
                                        }
                                    }
                                }
                            }
                        }
                    }
                }
            }
        }
    }
}

} // verus!
