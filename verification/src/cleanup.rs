//! Moving remote files to the trash of the drive in batches.

use crate::batches::{batch_views, chunked, cut};
use crate::config::{SyncConfig, SyncConfigView};
use crate::drive::{RemoteFile, RemoteFileView, TrashBatchView, TrashTarget, TrashTargetView};
use crate::error::{outcome, Fault, SyncError};
use crate::exchange::{Progress, Reply, ReplyView, Request, RequestView};
use crate::paths::{drive_path, remote_path};
use crate::text::{clone_texts, holds, views, views_push};
use vstd::prelude::*;

verus! {

/// The most files that one trash command takes.
pub const TRASH_BATCH_SIZE: usize = 64;

/// A remote file to move to the trash.
#[derive(Debug)]
pub struct TrashItem {
    pub path: String,
    pub file: RemoteFile,
}

/// The view of a remote file to move to the trash.
pub struct TrashItemView {
    pub path: Seq<char>,
    pub file: RemoteFileView,
}

impl View for TrashItem {
    type V = TrashItemView;

    open spec fn view(&self) -> TrashItemView {
        TrashItemView { path: self.path@, file: self.file@ }
    }
}

/// A cleanup of the drive in progress.
#[derive(Debug)]
pub struct Cleanup {
    mirror: String,
    remote: String,
    batches: Vec<Vec<TrashItem>>,
    at: usize,
    forgetting: bool,
    trashed: Vec<String>,
    failed: Vec<String>,
}

/// The view of a cleanup in progress.
#[verifier::ext_equal]
pub struct CleanupView {
    pub mirror: Seq<char>,
    pub remote: Seq<char>,
    pub batches: Seq<Seq<TrashItemView>>,
    /// The batch at hand.
    pub at: nat,
    /// Whether the states of the batch at hand are being forgotten; else it is being trashed.
    pub forgetting: bool,
    /// The paths moved to the trash so far.
    pub trashed: Seq<Seq<char>>,
    /// The nodes that could not be moved.
    pub failed: Seq<Seq<char>>,
}

impl View for Cleanup {
    type V = CleanupView;

    closed spec fn view(&self) -> CleanupView {
        CleanupView {
            mirror: self.mirror@,
            remote: self.remote@,
            batches: batch_views(self.batches@),
            at: self.at as nat,
            forgetting: self.forgetting,
            trashed: views(self.trashed@),
            failed: views(self.failed@),
        }
    }
}

/// The paths that a cleanup moved to the trash.
#[derive(Debug)]
pub struct Trashed {
    pub paths: Vec<String>,
}

impl View for Trashed {
    type V = Seq<Seq<char>>;

    open spec fn view(&self) -> Seq<Seq<char>> {
        views(self.paths@)
    }
}

/// What a step of a cleanup leads to.
pub type CleanupOutcome = Result<
    Progress<CleanupView, RequestView, Seq<Seq<char>>>,
    Fault<Seq<char>>,
>;

/// The paths of a batch whose nodes were moved to the trash, in the order of the batch.
pub open spec fn moved_paths(batch: Seq<TrashItemView>, succeeded: Seq<Seq<char>>) -> Seq<Seq<char>>
    decreases batch.len(),
{
    if batch.len() == 0 {
        Seq::empty()
    } else {
        let rest = moved_paths(batch.drop_last(), succeeded);
        if succeeded.contains(batch.last().file.uid) {
            rest.push(batch.last().path)
        } else {
            rest
        }
    }
}

/// The targets of a batch.
pub open spec fn trash_targets(remote: Seq<char>, batch: Seq<TrashItemView>) -> Seq<
    TrashTargetView,
> {
    batch.map_values(
        |item: TrashItemView|
            TrashTargetView { remote_path: drive_path(remote, item.path), uid: item.file.uid },
    )
}

impl CleanupView {
    /// Turns to the batch at hand, if one is left.
    pub open spec fn begun(self) -> CleanupOutcome {
        if self.at >= self.batches.len() {
            if self.failed.len() == 0 {
                Ok(Progress::Done(self.trashed))
            } else {
                Err(Fault::TrashFailed { count: self.failed.len() as usize })
            }
        } else {
            Ok(
                Progress::Ask(
                    CleanupView { forgetting: false, ..self },
                    RequestView::TrashRemote {
                        targets: trash_targets(self.remote, self.batches[self.at as int]),
                    },
                ),
            )
        }
    }

    /// With the result of the batch at hand counted.
    pub open spec fn tallied(self, result: TrashBatchView) -> CleanupView {
        CleanupView {
            trashed: self.trashed + moved_paths(
                self.batches[self.at as int],
                result.succeeded_uids,
            ),
            failed: self.failed + result.failed_uids,
            ..self
        }
    }

    /// The batch after the one at hand.
    pub open spec fn moved_on(self) -> CleanupOutcome {
        CleanupView { at: self.at + 1, ..self }.begun()
    }

    /// One step.
    pub open spec fn stepped(self, reply: ReplyView) -> CleanupOutcome {
        if self.at >= self.batches.len() {
            Err(Fault::UnexpectedReply)
        } else {
            match (self.forgetting, reply) {
                (false, ReplyView::Trashed(result)) => {
                    let paths = moved_paths(self.batches[self.at as int], result.succeeded_uids);
                    if paths.len() == 0 {
                        self.tallied(result).moved_on()
                    } else {
                        Ok(
                            Progress::Ask(
                                CleanupView { forgetting: true, ..self.tallied(result) },
                                RequestView::DeleteStates { mirror: self.mirror, paths },
                            ),
                        )
                    }
                },
                (true, ReplyView::Done) => self.moved_on(),
                _ => Err(Fault::UnexpectedReply),
            }
        }
    }
}

/// A cleanup that has not begun.
pub open spec fn cleanup_prepared(sync: SyncConfigView, items: Seq<TrashItemView>) -> CleanupView {
    CleanupView {
        mirror: sync.name,
        remote: sync.remote,
        batches: chunked(items, TRASH_BATCH_SIZE as int),
        at: 0,
        forgetting: false,
        trashed: Seq::empty(),
        failed: Seq::empty(),
    }
}

/// Starts to move remote files to the trash of the drive, in bounded batches. The states of the
/// files that were moved are forgotten after each batch; failures are reported when all is done.
pub fn execute_remote_trash(sync: &SyncConfig, items: Vec<TrashItem>) -> (r: Result<
    Progress<Cleanup, Request, Trashed>,
    SyncError,
>)
    ensures
        outcome(r) == cleanup_prepared(sync@, views(items@)).begun(),
{
    let run = Cleanup {
        mirror: sync.name.clone(),
        remote: sync.remote.clone(),
        batches: cut(items, TRASH_BATCH_SIZE),
        at: 0,
        forgetting: false,
        trashed: Vec::new(),
        failed: Vec::new(),
    };
    assert(run@.trashed =~= Seq::<Seq<char>>::empty());
    assert(run@.failed =~= Seq::<Seq<char>>::empty());
    run.begin()
}

fn moved(batch: &Vec<TrashItem>, succeeded: &Vec<String>) -> (r: Vec<String>)
    ensures
        views(r@) == moved_paths(views(batch@), views(succeeded@)),
{
    let ghost all = views(batch@);
    let mut paths: Vec<String> = Vec::new();
    let mut i: usize = 0;
    assert(views(paths@) =~= moved_paths(all.take(0), views(succeeded@)));
    while i < batch.len()
        invariant
            i <= batch.len(),
            all == views(batch@),
            views(paths@) == moved_paths(all.take(i as int), views(succeeded@)),
        decreases batch.len() - i,
    {
        assert(all.take(i + 1).drop_last() =~= all.take(i as int));
        assert(all[i as int] == batch@[i as int]@);
        if holds(succeeded, batch[i].file.uid.as_str()) {
            let path = batch[i].path.clone();
            proof {
                views_push(paths@, path);
            }
            paths.push(path);
        }
        i += 1;
    }
    assert(all.take(i as int) =~= all);
    paths
}

fn targets_of(remote: &str, batch: &Vec<TrashItem>) -> (r: Vec<TrashTarget>)
    ensures
        views(r@) == trash_targets(remote@, views(batch@)),
{
    let ghost all = trash_targets(remote@, views(batch@));
    let mut targets: Vec<TrashTarget> = Vec::new();
    let mut i: usize = 0;
    assert(views(targets@) =~= all.take(0));
    while i < batch.len()
        invariant
            i <= batch.len(),
            all == trash_targets(remote@, views(batch@)),
            views(targets@) == all.take(i as int),
        decreases batch.len() - i,
    {
        let target = TrashTarget {
            remote_path: remote_path(remote, batch[i].path.as_str()),
            uid: batch[i].file.uid.clone(),
        };
        proof {
            views_push(targets@, target);
            assert(all.take(i + 1) =~= all.take(i as int).push(target@));
        }
        targets.push(target);
        i += 1;
    }
    assert(all.take(i as int) =~= all);
    targets
}

impl Cleanup {
    fn begin(self) -> (r: Result<Progress<Cleanup, Request, Trashed>, SyncError>)
        ensures
            outcome(r) == self@.begun(),
    {
        let mut run = self;
        if run.at >= run.batches.len() {
            if run.failed.len() == 0 {
                return Ok(Progress::Done(Trashed { paths: run.trashed }));
            }
            return Err(Fault::TrashFailed { count: run.failed.len() });
        }
        assert(run@.batches[run.at as int] == views(run.batches@[run.at as int]@));
        let targets = targets_of(run.remote.as_str(), &run.batches[run.at]);
        run.forgetting = false;
        Ok(Progress::Ask(run, Request::TrashRemote { targets }))
    }

    fn move_on(self) -> (r: Result<Progress<Cleanup, Request, Trashed>, SyncError>)
        requires
            self@.at < self@.batches.len(),
        ensures
            outcome(r) == self@.moved_on(),
    {
        let mut run = self;
        assert(run.at < run.batches.len());
        run.at += 1;
        run.begin()
    }

    /// Takes the reply to the last request, and goes on.
    pub fn next(self, reply: Reply) -> (r: Result<Progress<Cleanup, Request, Trashed>, SyncError>)
        ensures
            outcome(r) == self@.stepped(reply@),
    {
        let mut run = self;
        let ghost before = self@;
        if run.at >= run.batches.len() {
            return Err(Fault::UnexpectedReply);
        }
        match (run.forgetting, reply) {
            (false, Reply::Trashed(result)) => {
                assert(run@.batches[run.at as int] == views(run.batches@[run.at as int]@));
                let paths = moved(&run.batches[run.at], &result.succeeded_uids);
                let mut trashed = clone_texts(&paths);
                let mut failed = result.failed_uids;
                assert(views(run.trashed@ + trashed@) =~= views(run.trashed@) + views(trashed@));
                assert(views(run.failed@ + failed@) =~= views(run.failed@) + views(failed@));
                run.trashed.append(&mut trashed);
                run.failed.append(&mut failed);
                assert(run@ =~= before.tallied(result@));
                if paths.len() == 0 {
                    run.move_on()
                } else {
                    let mirror = run.mirror.clone();
                    run.forgetting = true;
                    Ok(Progress::Ask(run, Request::DeleteStates { mirror, paths }))
                }
            },
            (true, Reply::Done) => run.move_on(),
            _ => Err(Fault::UnexpectedReply),
        }
    }
}

} // verus!
