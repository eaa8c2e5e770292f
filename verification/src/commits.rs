//! Remembering files in bounded transactions.

use crate::batches::{batch_views, chunked, cut};
use crate::error::{outcome, Fault, SyncError};
use crate::exchange::{Progress, Reply, ReplyView, Request, RequestView};
use crate::state::{FileCheckpoint, CHECKPOINT_BATCH_SIZE};
use crate::text::views;
use vstd::prelude::*;

verus! {

/// Checkpoints on their way into the database, batch by batch.
#[derive(Debug)]
pub struct Commits {
    batches: Vec<Vec<FileCheckpoint<String>>>,
}

impl View for Commits {
    type V = Seq<Seq<FileCheckpoint<Seq<char>>>>;

    /// The batches still to commit, in order.
    closed spec fn view(&self) -> Seq<Seq<FileCheckpoint<Seq<char>>>> {
        batch_views(self.batches@).reverse()
    }
}

/// What a step of the commits leads to.
pub type CommitsProgress = Progress<Seq<Seq<FileCheckpoint<Seq<char>>>>, RequestView, ()>;

/// Turns to the next batch, if one is left.
pub open spec fn commits_begun(batches: Seq<Seq<FileCheckpoint<Seq<char>>>>) -> CommitsProgress {
    if batches.len() == 0 {
        Progress::Done(())
    } else {
        Progress::Ask(batches.drop_first(), RequestView::Commit { checkpoints: batches[0] })
    }
}

/// One step.
pub open spec fn commits_stepped(
    batches: Seq<Seq<FileCheckpoint<Seq<char>>>>,
    reply: ReplyView,
) -> Result<CommitsProgress, Fault<Seq<char>>> {
    if reply is Done {
        Ok(commits_begun(batches))
    } else {
        Err(Fault::UnexpectedReply)
    }
}

/// Starts to commit checkpoints.
pub fn commit_checkpoints(checkpoints: Vec<FileCheckpoint<String>>) -> (r: Progress<
    Commits,
    Request,
    (),
>)
    ensures
        r@ == commits_begun(chunked(views(checkpoints@), CHECKPOINT_BATCH_SIZE as int)),
{
    let batches = cut(checkpoints, CHECKPOINT_BATCH_SIZE);
    let ghost all = batch_views(batches@);
    let mut reversed: Vec<Vec<FileCheckpoint<String>>> = Vec::new();
    let mut batches = batches;
    assert(batch_views(batches@) =~= all.take(batches.len() as int));
    while batches.len() > 0
        invariant
            batches.len() <= all.len(),
            batch_views(batches@) == all.take(batches.len() as int),
            batch_views(reversed@) == all.skip(batches.len() as int).reverse(),
        decreases batches.len(),
    {
        let ghost left = batch_views(batches@);
        let batch = batches.pop().unwrap();
        assert(views(batch@) == left.last());
        let ghost done = batch_views(reversed@);
        reversed.push(batch);
        assert(batch_views(reversed@) =~= done.push(left.last()));
        assert(batch_views(batches@) =~= all.take(batches.len() as int));
        assert(batch_views(reversed@) =~= all.skip(batches.len() as int).reverse());
    }
    let run = Commits { batches: reversed };
    assert(run@ =~= all);
    run.begin()
}

impl Commits {
    fn begin(self) -> (r: Progress<Commits, Request, ()>)
        ensures
            r@ == commits_begun(self@),
    {
        let mut run = self;
        match run.batches.pop() {
            Some(checkpoints) => {
                assert(views(checkpoints@) == self@[0]);
                assert(run@ =~= self@.drop_first());
                Progress::Ask(run, Request::Commit { checkpoints })
            },
            None => Progress::Done(()),
        }
    }

    /// Takes the reply to the last request, and goes on.
    pub fn next(self, reply: Reply) -> (r: Result<Progress<Commits, Request, ()>, SyncError>)
        ensures
            outcome(r) == commits_stepped(self@, reply@),
    {
        match reply {
            Reply::Done => Ok(self.begin()),
            _ => Err(Fault::UnexpectedReply),
        }
    }
}

} // verus!
