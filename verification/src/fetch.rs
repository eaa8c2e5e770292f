//! Bringing remote files to their local places, and remembering that both sides agree on them.

use crate::config::{SyncConfig, SyncConfigView};
use crate::download::{download_remote_file, download_started, Download, DownloadView};
use crate::drive::{RemoteFile, RemoteFileView};
use crate::error::{outcome, Fault, SyncError};
use crate::exchange::{Progress, Reply, ReplyView, Request, RequestView};
use crate::plan::LocalFile;
use crate::scan::{local_path, local_path_of};
use crate::state::{checkpoint_flushed, checkpoint_pushed, CheckpointBatch, FileCheckpoint};
use crate::state::FileState;
use crate::text::{eq_ignore_ascii_case, option_view, same_ignoring_case, views, views_push};
use vstd::prelude::*;

verus! {

/// A remote file to bring, and the local file at its place that may already be the same.
#[derive(Debug)]
pub struct FetchItem {
    pub path: String,
    pub file: RemoteFile,
    pub local: Option<LocalFile<String>>,
}

/// The view of a remote file to bring.
pub struct FetchItemView {
    pub path: Seq<char>,
    pub file: RemoteFileView,
    pub local: Option<LocalFile<Seq<char>>>,
}

impl View for FetchItem {
    type V = FetchItemView;

    open spec fn view(&self) -> FetchItemView {
        FetchItemView { path: self.path@, file: self.file@, local: option_view(self.local) }
    }
}

/// The paths that were found to be the same, and those that were downloaded.
#[derive(Debug)]
pub struct Fetched {
    pub unchanged: Vec<String>,
    pub downloaded: Vec<String>,
}

/// The view of what was fetched.
#[verifier::ext_equal]
pub struct FetchedView {
    pub unchanged: Seq<Seq<char>>,
    pub downloaded: Seq<Seq<char>>,
}

impl View for Fetched {
    type V = FetchedView;

    open spec fn view(&self) -> FetchedView {
        FetchedView { unchanged: views(self.unchanged@), downloaded: views(self.downloaded@) }
    }
}

/// What a fetch waits for.
#[derive(Debug)]
pub enum FetchStage<D> {
    /// What is remembered of the file at hand.
    Loading,
    /// The digest of the local file.
    Hashing,
    /// The download.
    Downloading(D),
    /// Files being remembered on the way.
    Committing,
    /// The last files being remembered.
    Flushing,
}

impl View for FetchStage<Download> {
    type V = FetchStage<DownloadView>;

    open spec fn view(&self) -> FetchStage<DownloadView> {
        match *self {
            FetchStage::Loading => FetchStage::Loading,
            FetchStage::Hashing => FetchStage::Hashing,
            FetchStage::Downloading(download) => FetchStage::Downloading(download@),
            FetchStage::Committing => FetchStage::Committing,
            FetchStage::Flushing => FetchStage::Flushing,
        }
    }
}

/// A fetch in progress.
pub struct Fetch {
    sync: SyncConfig,
    items: Vec<FetchItem>,
    at: usize,
    checkpoints: CheckpointBatch,
    fetched: Fetched,
    stage: FetchStage<Download>,
}

/// The view of a fetch in progress.
#[verifier::ext_equal]
pub struct FetchView {
    pub sync: SyncConfigView,
    pub items: Seq<FetchItemView>,
    /// The file at hand.
    pub at: nat,
    /// What waits to be remembered.
    pub pending: Seq<FileCheckpoint<Seq<char>>>,
    pub fetched: FetchedView,
    pub stage: FetchStage<DownloadView>,
}

impl View for Fetch {
    type V = FetchView;

    closed spec fn view(&self) -> FetchView {
        FetchView {
            sync: self.sync@,
            items: views(self.items@),
            at: self.at as nat,
            pending: self.checkpoints@,
            fetched: self.fetched@,
            stage: self.stage@,
        }
    }
}

/// What a step of a fetch leads to.
pub type FetchOutcome = Result<Progress<FetchView, RequestView, FetchedView>, Fault<Seq<char>>>;

/// A local file that is as it was when it was last found to be the remote file.
pub open spec fn known_to_match(
    state: Option<FileState<Seq<char>>>,
    local: LocalFile<Seq<char>>,
    remote: RemoteFileView,
) -> bool {
    match state {
        Some(state) => {
            &&& state.size == local.size
            &&& state.mtime_ns == local.mtime_ns
            &&& same_ignoring_case(state.sha1, remote.sha1)
            &&& state.size == remote.claimed_size
        },
        None => false,
    }
}

impl FetchView {
    /// In another stage.
    pub open spec fn in_stage(self, stage: FetchStage<DownloadView>) -> FetchView {
        FetchView { stage, ..self }
    }

    /// Turns to the file at hand, if one is left.
    pub open spec fn advanced(self) -> FetchOutcome {
        if self.at >= self.items.len() {
            match checkpoint_flushed(self.pending) {
                Some(checkpoints) => Ok(
                    Progress::Ask(
                        FetchView { pending: Seq::empty(), stage: FetchStage::Flushing, ..self },
                        RequestView::Commit { checkpoints },
                    ),
                ),
                None => Ok(Progress::Done(self.fetched)),
            }
        } else {
            let item = self.items[self.at as int];
            match item.local {
                Some(_) => Ok(
                    Progress::Ask(
                        self.in_stage(FetchStage::Loading),
                        RequestView::LoadState { mirror: self.sync.name, path: item.path },
                    ),
                ),
                None => self.downloading(),
            }
        }
    }

    /// Downloads the file at hand.
    pub open spec fn downloading(self) -> FetchOutcome {
        let item = self.items[self.at as int];
        Ok(
            Progress::Ask(
                self.in_stage(
                    FetchStage::Downloading(download_started(self.sync, item.path, item.file)),
                ),
                RequestView::Stage { target: local_path_of(self.sync.local, item.path) },
            ),
        )
    }

    /// Remembers the file at hand as it is locally now, and goes on to the next.
    pub open spec fn recorded(self, size: u64, mtime_ns: i64) -> FetchOutcome {
        let item = self.items[self.at as int];
        let (pending, batch) = checkpoint_pushed(
            self.pending,
            FileCheckpoint {
                mirror: self.sync.name,
                path: item.path,
                size,
                mtime_ns,
                sha1: item.file.sha1,
            },
        );
        let next = FetchView { at: self.at + 1, pending, ..self };
        match batch {
            Some(checkpoints) => Ok(
                Progress::Ask(
                    next.in_stage(FetchStage::Committing),
                    RequestView::Commit { checkpoints },
                ),
            ),
            None => next.advanced(),
        }
    }

    /// The file at hand is the same on both sides.
    pub open spec fn matched(self, local: LocalFile<Seq<char>>) -> FetchOutcome {
        let path = self.items[self.at as int].path;
        FetchView {
            fetched: FetchedView {
                unchanged: self.fetched.unchanged.push(path),
                ..self.fetched
            },
            ..self
        }.recorded(local.size, local.mtime_ns)
    }

    /// The file at hand was downloaded.
    pub open spec fn downloaded(self, local: LocalFile<Seq<char>>) -> FetchOutcome {
        let path = self.items[self.at as int].path;
        FetchView {
            fetched: FetchedView {
                downloaded: self.fetched.downloaded.push(path),
                ..self.fetched
            },
            ..self
        }.recorded(local.size, local.mtime_ns)
    }

    /// One step with a file at hand.
    pub open spec fn stepped_at(self, reply: ReplyView) -> FetchOutcome {
        let item = self.items[self.at as int];
        match (self.stage, reply) {
            (FetchStage::Loading, ReplyView::State(state)) => match item.local {
                Some(local) => if known_to_match(state, local, item.file) {
                    self.matched(local)
                } else {
                    Ok(
                        Progress::Ask(
                            self.in_stage(FetchStage::Hashing),
                            RequestView::Hash { path: local_path_of(self.sync.local, item.path) },
                        ),
                    )
                },
                None => Err(Fault::UnexpectedReply),
            },
            (FetchStage::Hashing, ReplyView::Digest(digest)) => match item.local {
                Some(local) => if same_ignoring_case(digest, item.file.sha1) && local.size
                    == item.file.claimed_size {
                    self.matched(local)
                } else {
                    self.downloading()
                },
                None => Err(Fault::UnexpectedReply),
            },
            (FetchStage::Downloading(download), reply) => match download.stepped(reply) {
                Err(fault) => Err(fault),
                Ok(Progress::Ask(download, request)) => Ok(
                    Progress::Ask(self.in_stage(FetchStage::Downloading(download)), request),
                ),
                Ok(Progress::Done(local)) => self.downloaded(local),
            },
            (FetchStage::Committing, ReplyView::Done) => self.advanced(),
            _ => Err(Fault::UnexpectedReply),
        }
    }

    /// One step.
    pub open spec fn stepped(self, reply: ReplyView) -> FetchOutcome {
        if self.at < self.items.len() {
            self.stepped_at(reply)
        } else {
            match (self.stage, reply) {
                (FetchStage::Committing, ReplyView::Done) => self.advanced(),
                (FetchStage::Flushing, ReplyView::Done) => Ok(Progress::Done(self.fetched)),
                _ => Err(Fault::UnexpectedReply),
            }
        }
    }
}

/// A fetch that has not begun.
pub open spec fn fetch_prepared(sync: SyncConfigView, items: Seq<FetchItemView>) -> FetchView {
    FetchView {
        sync,
        items,
        at: 0,
        pending: Seq::empty(),
        fetched: FetchedView { unchanged: Seq::empty(), downloaded: Seq::empty() },
        stage: FetchStage::Committing,
    }
}

/// Starts to fetch remote files. A file with a local one at its place is downloaded only if the
/// local one differs.
pub fn fetch_files(sync: &SyncConfig, items: Vec<FetchItem>) -> (r: Result<
    Progress<Fetch, Request, Fetched>,
    SyncError,
>)
    ensures
        outcome(r) == fetch_prepared(sync@, views(items@)).advanced(),
{
    let run = Fetch {
        sync: sync.clone(),
        items,
        at: 0,
        checkpoints: CheckpointBatch::new(),
        fetched: Fetched { unchanged: Vec::new(), downloaded: Vec::new() },
        stage: FetchStage::Committing,
    };
    assert(run@.fetched.unchanged =~= Seq::<Seq<char>>::empty());
    assert(run@.fetched.downloaded =~= Seq::<Seq<char>>::empty());
    run.advance()
}

impl Fetch {
    fn advance(self) -> (r: Result<Progress<Fetch, Request, Fetched>, SyncError>)
        ensures
            outcome(r) == self@.advanced(),
    {
        let mut run = self;
        if run.at >= run.items.len() {
            return match run.checkpoints.flush() {
                Some(checkpoints) => {
                    run.stage = FetchStage::Flushing;
                    Ok(Progress::Ask(run, Request::Commit { checkpoints }))
                },
                None => Ok(Progress::Done(run.fetched)),
            };
        }
        assert(run@.items[run.at as int] == run.items@[run.at as int]@);
        if run.items[run.at].local.is_some() {
            let mirror = run.sync.name.clone();
            let path = run.items[run.at].path.clone();
            run.stage = FetchStage::Loading;
            Ok(Progress::Ask(run, Request::LoadState { mirror, path }))
        } else {
            run.download()
        }
    }

    fn download(self) -> (r: Result<Progress<Fetch, Request, Fetched>, SyncError>)
        requires
            self@.at < self@.items.len(),
        ensures
            outcome(r) == self@.downloading(),
    {
        let mut run = self;
        assert(run@.items[run.at as int] == run.items@[run.at as int]@);
        let (download, request) = download_remote_file(
            &run.sync,
            run.items[run.at].path.as_str(),
            &run.items[run.at].file,
        );
        run.stage = FetchStage::Downloading(download);
        Ok(Progress::Ask(run, request))
    }

    fn record(self, size: u64, mtime_ns: i64) -> (r: Result<
        Progress<Fetch, Request, Fetched>,
        SyncError,
    >)
        requires
            self@.at < self@.items.len(),
        ensures
            outcome(r) == self@.recorded(size, mtime_ns),
    {
        let mut run = self;
        assert(run@.items[run.at as int] == run.items@[run.at as int]@);
        let batch = run.checkpoints.push(
            run.sync.name.as_str(),
            run.items[run.at].path.as_str(),
            size,
            mtime_ns,
            run.items[run.at].file.sha1.as_str(),
        );
        assert(run.at < run.items.len());
        run.at += 1;
        match batch {
            Some(checkpoints) => {
                run.stage = FetchStage::Committing;
                Ok(Progress::Ask(run, Request::Commit { checkpoints }))
            },
            None => run.advance(),
        }
    }

    fn found_same(self, size: u64, mtime_ns: i64) -> (r: Result<
        Progress<Fetch, Request, Fetched>,
        SyncError,
    >)
        requires
            self@.at < self@.items.len(),
        ensures
            forall|local: LocalFile<Seq<char>>|
                local.size == size && local.mtime_ns == mtime_ns ==> outcome(r)
                    == #[trigger] self@.matched(local),
    {
        let mut run = self;
        assert(run@.items[run.at as int] == run.items@[run.at as int]@);
        let path = run.items[run.at].path.clone();
        proof {
            views_push(run.fetched.unchanged@, path);
        }
        run.fetched.unchanged.push(path);
        run.record(size, mtime_ns)
    }

    fn step_at(self, reply: Reply) -> (r: Result<Progress<Fetch, Request, Fetched>, SyncError>)
        requires
            self@.at < self@.items.len(),
        ensures
            outcome(r) == self@.stepped_at(reply@),
    {
        let mut run = self;
        let ghost item = run@.items[run.at as int];
        assert(item == run.items@[run.at as int]@);
        match (run.stage, reply) {
            (FetchStage::Loading, Reply::State(state)) => {
                run.stage = FetchStage::Loading;
                match &run.items[run.at].local {
                    Some(local) => {
                        let file = &run.items[run.at].file;
                        let known = match &state {
                            Some(state) => state.size == local.size && state.mtime_ns
                                == local.mtime_ns && eq_ignore_ascii_case(
                                state.sha1.as_str(),
                                file.sha1.as_str(),
                            ) && state.size == file.claimed_size,
                            None => false,
                        };
                        let (size, mtime_ns) = (local.size, local.mtime_ns);
                        if known {
                            run.found_same(size, mtime_ns)
                        } else {
                            let path = local_path(
                                run.sync.local.as_str(),
                                run.items[run.at].path.as_str(),
                            );
                            run.stage = FetchStage::Hashing;
                            Ok(Progress::Ask(run, Request::Hash { path }))
                        }
                    },
                    None => Err(Fault::UnexpectedReply),
                }
            },
            (FetchStage::Hashing, Reply::Digest(digest)) => {
                run.stage = FetchStage::Hashing;
                match &run.items[run.at].local {
                    Some(local) => {
                        let file = &run.items[run.at].file;
                        let same = eq_ignore_ascii_case(digest.as_str(), file.sha1.as_str())
                            && local.size == file.claimed_size;
                        let (size, mtime_ns) = (local.size, local.mtime_ns);
                        if same {
                            run.found_same(size, mtime_ns)
                        } else {
                            run.download()
                        }
                    },
                    None => Err(Fault::UnexpectedReply),
                }
            },
            (FetchStage::Downloading(download), reply) => match download.next(reply) {
                Err(error) => Err(error),
                Ok(Progress::Ask(download, request)) => {
                    run.stage = FetchStage::Downloading(download);
                    Ok(Progress::Ask(run, request))
                },
                Ok(Progress::Done(local)) => {
                    run.stage = FetchStage::Committing;
                    let path = run.items[run.at].path.clone();
                    proof {
                        views_push(run.fetched.downloaded@, path);
                    }
                    run.fetched.downloaded.push(path);
                    run.record(local.size, local.mtime_ns)
                },
            },
            (FetchStage::Committing, Reply::Done) => {
                run.stage = FetchStage::Committing;
                run.advance()
            },
            _ => Err(Fault::UnexpectedReply),
        }
    }

    /// Takes the reply to the last request, and goes on.
    pub fn next(self, reply: Reply) -> (r: Result<Progress<Fetch, Request, Fetched>, SyncError>)
        ensures
            outcome(r) == self@.stepped(reply@),
    {
        if self.at < self.items.len() {
            self.step_at(reply)
        } else {
            let mut run = self;
            match (run.stage, reply) {
                (FetchStage::Committing, Reply::Done) => {
                    run.stage = FetchStage::Committing;
                    run.advance()
                },
                (FetchStage::Flushing, Reply::Done) => Ok(Progress::Done(run.fetched)),
                _ => Err(Fault::UnexpectedReply),
            }
        }
    }
}

} // verus!
