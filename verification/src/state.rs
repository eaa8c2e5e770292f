//! What a sync remembers between runs.

use crate::batches::{chunked, chunked_prefix};
use crate::path_map::PathMap;
use crate::text::{views, views_push};
use vstd::prelude::*;

verus! {

/// The most checkpoints that one transaction commits.
pub const CHECKPOINT_BATCH_SIZE: usize = 256;

/// A file as it was when both sides last agreed on it. The digest is empty when it was never
/// computed.
#[derive(Debug)]
pub struct FileState<T> {
    pub size: u64,
    pub mtime_ns: i64,
    pub sha1: T,
}

impl View for FileState<String> {
    type V = FileState<Seq<char>>;

    open spec fn view(&self) -> FileState<Seq<char>> {
        FileState { size: self.size, mtime_ns: self.mtime_ns, sha1: self.sha1@ }
    }
}

/// The state of a file, on its way into the database.
#[derive(Debug)]
pub struct FileCheckpoint<T> {
    pub mirror: T,
    pub path: T,
    pub size: u64,
    pub mtime_ns: i64,
    pub sha1: T,
}

impl View for FileCheckpoint<String> {
    type V = FileCheckpoint<Seq<char>>;

    open spec fn view(&self) -> FileCheckpoint<Seq<char>> {
        FileCheckpoint {
            mirror: self.mirror@,
            path: self.path@,
            size: self.size,
            mtime_ns: self.mtime_ns,
            sha1: self.sha1@,
        }
    }
}

/// The file states of one mirror once checkpoints are committed in order.
pub open spec fn committed(
    states: Map<Seq<char>, FileState<Seq<char>>>,
    checkpoints: Seq<FileCheckpoint<Seq<char>>>,
) -> Map<Seq<char>, FileState<Seq<char>>>
    decreases checkpoints.len(),
{
    if checkpoints.len() == 0 {
        states
    } else {
        let last = checkpoints.last();
        committed(states, checkpoints.drop_last()).insert(
            last.path,
            FileState { size: last.size, mtime_ns: last.mtime_ns, sha1: last.sha1 },
        )
    }
}

/// What is left pending, and what is committed, when a checkpoint joins those that are pending.
pub open spec fn checkpoint_pushed<T>(pending: Seq<T>, item: T) -> (Seq<T>, Option<Seq<T>>) {
    let all = pending.push(item);
    if all.len() >= CHECKPOINT_BATCH_SIZE {
        (Seq::empty(), Some(all))
    } else {
        (all, None)
    }
}

/// What is committed when the pending checkpoints are flushed.
pub open spec fn checkpoint_flushed<T>(pending: Seq<T>) -> Option<Seq<T>> {
    if pending.len() == 0 {
        None
    } else {
        Some(pending)
    }
}

/// Checkpoints waiting to be committed together.
pub struct CheckpointBatch {
    pending: Vec<FileCheckpoint<String>>,
}

impl View for CheckpointBatch {
    type V = Seq<FileCheckpoint<Seq<char>>>;

    closed spec fn view(&self) -> Seq<FileCheckpoint<Seq<char>>> {
        views(self.pending@)
    }
}

/// The view of the checkpoints that a transaction is to commit.
pub open spec fn transaction_view(batch: Option<Vec<FileCheckpoint<String>>>) -> Option<
    Seq<FileCheckpoint<Seq<char>>>,
> {
    match batch {
        Some(batch) => Some(views(batch@)),
        None => None,
    }
}

impl CheckpointBatch {
    #[verifier::type_invariant]
    spec fn bounded(self) -> bool {
        self.pending@.len() < CHECKPOINT_BATCH_SIZE
    }

    /// Nothing pending.
    pub fn new() -> (r: Self)
        ensures
            r@ == Seq::<FileCheckpoint<Seq<char>>>::empty(),
    {
        let r = CheckpointBatch { pending: Vec::new() };
        assert(r@ =~= Seq::<FileCheckpoint<Seq<char>>>::empty());
        r
    }

    /// Adds a checkpoint. Returns the checkpoints to commit in one transaction once there are
    /// enough of them.
    pub fn push(&mut self, mirror: &str, path: &str, size: u64, mtime_ns: i64, sha1: &str) -> (r:
        Option<Vec<FileCheckpoint<String>>>)
        ensures
            (final(self)@, transaction_view(r)) == checkpoint_pushed(
                old(self)@,
                FileCheckpoint { mirror: mirror@, path: path@, size, mtime_ns, sha1: sha1@ },
            ),
    {
        proof {
            use_type_invariant(&*self);
        }
        let checkpoint = FileCheckpoint {
            mirror: mirror.to_owned(),
            path: path.to_owned(),
            size,
            mtime_ns,
            sha1: sha1.to_owned(),
        };
        let mut pending: Vec<FileCheckpoint<String>> = Vec::new();
        std::mem::swap(&mut pending, &mut self.pending);
        proof {
            views_push(pending@, checkpoint);
        }
        pending.push(checkpoint);
        if pending.len() >= CHECKPOINT_BATCH_SIZE {
            assert(self@ =~= Seq::<FileCheckpoint<Seq<char>>>::empty());
            Some(pending)
        } else {
            self.pending = pending;
            None
        }
    }

    /// Takes what is pending, to commit it in one transaction.
    pub fn flush(&mut self) -> (r: Option<Vec<FileCheckpoint<String>>>)
        ensures
            final(self)@ == Seq::<FileCheckpoint<Seq<char>>>::empty(),
            transaction_view(r) == checkpoint_flushed(old(self)@),
    {
        let mut pending: Vec<FileCheckpoint<String>> = Vec::new();
        std::mem::swap(&mut pending, &mut self.pending);
        assert(self@ =~= Seq::<FileCheckpoint<Seq<char>>>::empty());
        if pending.len() == 0 {
            None
        } else {
            Some(pending)
        }
    }
}

/// The transactions that commit a list of checkpoints, pushed one by one and then flushed.
pub open spec fn transactions<T>(pending: Seq<T>, items: Seq<T>) -> Seq<Seq<T>>
    decreases items.len(),
{
    if items.len() == 0 {
        match checkpoint_flushed(pending) {
            Some(batch) => seq![batch],
            None => Seq::empty(),
        }
    } else {
        let (left, batch) = checkpoint_pushed(pending, items[0]);
        let rest = transactions(left, items.drop_first());
        match batch {
            Some(batch) => seq![batch] + rest,
            None => rest,
        }
    }
}

/// Checkpoints are committed in bounded transactions: as many as it takes, each full but the last,
/// and together they hold every checkpoint once and in order.
pub proof fn checkpoints_are_chunked<T>(pending: Seq<T>, items: Seq<T>)
    requires
        pending.len() < CHECKPOINT_BATCH_SIZE,
    ensures
        transactions(pending, items) == chunked(pending + items, CHECKPOINT_BATCH_SIZE as int),
    decreases items.len(),
{
    let size = CHECKPOINT_BATCH_SIZE as int;
    let all = pending + items;
    if items.len() == 0 {
        assert(all =~= pending);
        assert(transactions(pending, items) =~= chunked(all, size));
    } else {
        let (left, batch) = checkpoint_pushed(pending, items[0]);
        let joined = pending.push(items[0]);
        let rest = items.drop_first();
        assert(all =~= joined + rest);
        checkpoints_are_chunked(left, rest);
        if batch is Some {
            assert(all.take(size) =~= joined);
            assert(all.skip(size) =~= left + rest);
            chunked_prefix(all, size);
        }
    }
}

/// The paths of the database that a scan did not see, in the order of the database.
pub open spec fn unseen(paths: Seq<Seq<char>>, seen: Set<Seq<char>>) -> Seq<Seq<char>>
    decreases paths.len(),
{
    if paths.len() == 0 {
        Seq::empty()
    } else {
        let rest = unseen(paths.drop_last(), seen);
        if seen.contains(paths.last()) {
            rest
        } else {
            rest.push(paths.last())
        }
    }
}

/// The paths of the database that a scan did not see.
pub fn stale_paths<V: View>(paths: Vec<String>, seen: &PathMap<V>) -> (r: Vec<String>)
    ensures
        views(r@) == unseen(views(paths@), seen@.dom()),
{
    let ghost all = views(paths@);
    let mut stale: Vec<String> = Vec::new();
    assert(views(stale@) =~= unseen(all.take(0), seen@.dom()));
    for path in it: paths
        invariant
            it.seq() == paths@,
            all == views(paths@),
            views(stale@) == unseen(all.take(it.index()), seen@.dom()),
    {
        assert(all.take(it.index() + 1).drop_last() =~= all.take(it.index()));
        assert(all[it.index()] == path@);
        if !seen.contains(path.as_str()) {
            proof {
                views_push(stale@, path);
            }
            stale.push(path);
        }
    }
    assert(all.take(all.len() as int) =~= all);
    stale
}

} // verus!
