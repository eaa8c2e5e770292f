//! Moving local files to the trash of the desktop.

use crate::config::{SyncConfig, SyncConfigView};
use crate::error::{outcome, Fault, SyncError};
use crate::exchange::{Progress, Reply, ReplyView, Request, RequestView};
use crate::scan::{local_path, local_path_of};
use crate::text::views;
use vstd::prelude::*;

verus! {

/// Local files on their way to the trash, one by one; the state of each is forgotten after it.
#[derive(Debug)]
pub struct Removal {
    mirror: String,
    root: String,
    paths: Vec<String>,
    at: usize,
    forgetting: bool,
}

/// The view of local files on their way to the trash.
#[verifier::ext_equal]
pub struct RemovalView {
    pub mirror: Seq<char>,
    pub root: Seq<char>,
    pub paths: Seq<Seq<char>>,
    /// The file at hand.
    pub at: nat,
    /// Whether its state is being forgotten; else it is being trashed.
    pub forgetting: bool,
}

impl View for Removal {
    type V = RemovalView;

    closed spec fn view(&self) -> RemovalView {
        RemovalView {
            mirror: self.mirror@,
            root: self.root@,
            paths: views(self.paths@),
            at: self.at as nat,
            forgetting: self.forgetting,
        }
    }
}

/// What a step of a removal leads to. The result is how many files were trashed.
pub type RemovalProgress = Progress<RemovalView, RequestView, nat>;

impl RemovalView {
    /// Turns to the file at hand, if one is left.
    pub open spec fn begun(self) -> RemovalProgress {
        if self.at >= self.paths.len() {
            Progress::Done(self.paths.len())
        } else {
            Progress::Ask(
                RemovalView { forgetting: false, ..self },
                RequestView::TrashLocal {
                    path: local_path_of(self.root, self.paths[self.at as int]),
                },
            )
        }
    }

    /// One step.
    pub open spec fn stepped(self, reply: ReplyView) -> Result<RemovalProgress, Fault<Seq<char>>> {
        if self.at >= self.paths.len() || reply !is Done {
            Err(Fault::UnexpectedReply)
        } else if self.forgetting {
            Ok(RemovalView { at: self.at + 1, ..self }.begun())
        } else {
            Ok(
                Progress::Ask(
                    RemovalView { forgetting: true, ..self },
                    RequestView::DeleteStates {
                        mirror: self.mirror,
                        paths: seq![self.paths[self.at as int]],
                    },
                ),
            )
        }
    }
}

/// A removal that has not begun.
pub open spec fn removal_prepared(sync: SyncConfigView, paths: Seq<Seq<char>>) -> RemovalView {
    RemovalView { mirror: sync.name, root: sync.local, paths, at: 0, forgetting: false }
}

/// The number of files trashed.
#[derive(Clone, Copy, Debug)]
pub struct Removed {
    pub count: usize,
}

impl View for Removed {
    type V = nat;

    open spec fn view(&self) -> nat {
        self.count as nat
    }
}

/// Starts to move local files to the trash.
pub fn trash_local_files(sync: &SyncConfig, paths: Vec<String>) -> (r: Progress<
    Removal,
    Request,
    Removed,
>)
    ensures
        r@ == removal_prepared(sync@, views(paths@)).begun(),
{
    Removal {
        mirror: sync.name.clone(),
        root: sync.local.clone(),
        paths,
        at: 0,
        forgetting: false,
    }.begin()
}

impl Removal {
    fn begin(self) -> (r: Progress<Removal, Request, Removed>)
        ensures
            r@ == self@.begun(),
    {
        let mut run = self;
        if run.at >= run.paths.len() {
            return Progress::Done(Removed { count: run.paths.len() });
        }
        let path = local_path(run.root.as_str(), run.paths[run.at].as_str());
        run.forgetting = false;
        Progress::Ask(run, Request::TrashLocal { path })
    }

    /// Takes the reply to the last request, and goes on.
    pub fn next(self, reply: Reply) -> (r: Result<Progress<Removal, Request, Removed>, SyncError>)
        ensures
            outcome(r) == self@.stepped(reply@),
    {
        let mut run = self;
        match reply {
            Reply::Done if run.at < run.paths.len() => {
                if run.forgetting {
                    run.at += 1;
                    Ok(run.begin())
                } else {
                    let mut paths: Vec<String> = Vec::new();
                    paths.push(run.paths[run.at].clone());
                    assert(views(paths@) =~= seq![run@.paths[run.at as int]]);
                    let mirror = run.mirror.clone();
                    run.forgetting = true;
                    Ok(Progress::Ask(run, Request::DeleteStates { mirror, paths }))
                }
            },
            _ => Err(Fault::UnexpectedReply),
        }
    }
}

} // verus!
