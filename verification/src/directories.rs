//! Making sure that a remote folder is there.

use crate::error::{outcome, Fault, SyncError};
use crate::exchange::{Progress, Reply, ReplyView, Request, RequestView};
use crate::paths::{drive_path, name_of, parent_of, relative_name, relative_parent, remote_path};
use crate::text::{text_eq, views, views_push};
use vstd::prelude::*;

verus! {

/// What the search for a folder waits for.
#[derive(Clone, Copy, Debug, PartialEq, Eq, Structural)]
pub enum EnsureStage {
    /// Whether the folder at hand is on record.
    Climbing,
    /// What is at its path.
    Looking,
    /// The folder being made.
    Creating,
    /// The folder being put on record.
    Saving,
}

/// Makes sure that a remote folder is there: looks upwards for a folder that is on record, then
/// comes down again and makes what is missing.
#[derive(Debug)]
pub struct Ensure {
    mirror: String,
    remote: String,
    stage: EnsureStage,
    pending: Vec<String>,
}

/// The view of the search.
#[verifier::ext_equal]
pub struct EnsureView {
    pub mirror: Seq<char>,
    pub remote: Seq<char>,
    pub stage: EnsureStage,
    /// The folders not known to be there, deepest first; the last is at hand.
    pub pending: Seq<Seq<char>>,
}

impl View for Ensure {
    type V = EnsureView;

    closed spec fn view(&self) -> EnsureView {
        EnsureView {
            mirror: self.mirror@,
            remote: self.remote@,
            stage: self.stage,
            pending: views(self.pending@),
        }
    }
}

/// What a step of the search leads to.
pub type EnsureProgress = Progress<EnsureView, RequestView, ()>;

impl EnsureView {
    /// Looks for `path`, or comes down from the root.
    pub open spec fn climbed(self, path: Seq<char>) -> EnsureProgress {
        if path.len() == 0 {
            self.descended()
        } else {
            Progress::Ask(
                EnsureView { stage: EnsureStage::Climbing, pending: self.pending.push(path), ..self },
                RequestView::KnowsDirectory { mirror: self.mirror, path },
            )
        }
    }

    /// Goes on to the folder at hand.
    pub open spec fn descended(self) -> EnsureProgress {
        if self.pending.len() == 0 {
            Progress::Done(())
        } else {
            Progress::Ask(
                EnsureView { stage: EnsureStage::Looking, ..self },
                RequestView::Info { path: drive_path(self.remote, self.pending.last()) },
            )
        }
    }

    /// Puts the folder at hand on record.
    pub open spec fn saved(self) -> EnsureProgress {
        Progress::Ask(
            EnsureView { stage: EnsureStage::Saving, ..self },
            RequestView::SaveDirectory { mirror: self.mirror, path: self.pending.last() },
        )
    }

    /// The search without the folder at hand.
    pub open spec fn settled(self) -> EnsureView {
        EnsureView { pending: self.pending.drop_last(), ..self }
    }

    /// One step.
    pub open spec fn stepped(self, reply: ReplyView) -> Result<EnsureProgress, Fault<Seq<char>>> {
        let path = self.pending.last();
        if self.pending.len() == 0 {
            Err(Fault::UnexpectedReply)
        } else {
            match (self.stage, reply) {
                (EnsureStage::Climbing, ReplyView::Flag(known)) => if known {
                    Ok(self.settled().descended())
                } else {
                    Ok(self.climbed(parent_of(path)))
                },
                (EnsureStage::Looking, ReplyView::Node(Some(node))) => if node.kind == "folder"@ {
                    Ok(self.saved())
                } else {
                    Err(Fault::NotFolder { remote: drive_path(self.remote, path) })
                },
                (EnsureStage::Looking, ReplyView::Node(None)) => Ok(
                    Progress::Ask(
                        EnsureView { stage: EnsureStage::Creating, ..self },
                        RequestView::CreateFolder {
                            parent: drive_path(self.remote, parent_of(path)),
                            name: name_of(path),
                        },
                    ),
                ),
                (EnsureStage::Creating, ReplyView::Done) => Ok(self.saved()),
                (EnsureStage::Saving, ReplyView::Done) => Ok(self.settled().descended()),
                _ => Err(Fault::UnexpectedReply),
            }
        }
    }
}

/// The search for a folder before anything was looked at. The root is always there.
pub open spec fn ensure_started(
    mirror: Seq<char>,
    remote: Seq<char>,
    relative: Seq<char>,
) -> EnsureProgress {
    EnsureView { mirror, remote, stage: EnsureStage::Climbing, pending: Seq::empty() }.climbed(
        relative,
    )
}

/// Starts to make sure that a remote folder is there.
pub fn ensure_remote_directory(mirror: &str, remote: &str, relative: &str) -> (r: Progress<
    Ensure,
    Request,
    (),
>)
    ensures
        r@ == ensure_started(mirror@, remote@, relative@),
{
    let run = Ensure {
        mirror: mirror.to_owned(),
        remote: remote.to_owned(),
        stage: EnsureStage::Climbing,
        pending: Vec::new(),
    };
    assert(run@.pending =~= Seq::<Seq<char>>::empty());
    run.climb(relative.to_owned())
}

impl Ensure {
    fn climb(self, path: String) -> (r: Progress<Ensure, Request, ()>)
        ensures
            r@ == self@.climbed(path@),
    {
        if path.as_str().is_empty() {
            return self.descend();
        }
        let mut run = self;
        let wanted = path.clone();
        proof {
            views_push(run.pending@, path);
        }
        run.pending.push(path);
        run.stage = EnsureStage::Climbing;
        let mirror = run.mirror.clone();
        Progress::Ask(run, Request::KnowsDirectory { mirror, path: wanted })
    }

    fn descend(self) -> (r: Progress<Ensure, Request, ()>)
        ensures
            r@ == self@.descended(),
    {
        let mut run = self;
        if run.pending.len() == 0 {
            return Progress::Done(());
        }
        let path = remote_path(run.remote.as_str(), run.pending[run.pending.len() - 1].as_str());
        run.stage = EnsureStage::Looking;
        Progress::Ask(run, Request::Info { path })
    }

    fn save(self) -> (r: Progress<Ensure, Request, ()>)
        requires
            self@.pending.len() > 0,
        ensures
            r@ == self@.saved(),
    {
        let mut run = self;
        let path = run.pending[run.pending.len() - 1].clone();
        let mirror = run.mirror.clone();
        run.stage = EnsureStage::Saving;
        Progress::Ask(run, Request::SaveDirectory { mirror, path })
    }

    fn settle(self) -> (r: Ensure)
        requires
            self@.pending.len() > 0,
        ensures
            r@ == self@.settled(),
    {
        let mut run = self;
        run.pending.pop();
        assert(run@ =~= self@.settled());
        run
    }

    /// Takes the reply to the last request, and goes on.
    pub fn next(self, reply: Reply) -> (r: Result<Progress<Ensure, Request, ()>, SyncError>)
        ensures
            outcome(r) == self@.stepped(reply@),
    {
        let mut run = self;
        if run.pending.len() == 0 {
            return Err(Fault::UnexpectedReply);
        }
        let path = run.pending[run.pending.len() - 1].clone();
        match (run.stage, reply) {
            (EnsureStage::Climbing, Reply::Flag(known)) => if known {
                Ok(run.settle().descend())
            } else {
                Ok(run.climb(relative_parent(path.as_str())))
            },
            (EnsureStage::Looking, Reply::Node(Some(node))) => if text_eq(
                node.kind.as_str(),
                "folder",
            ) {
                Ok(run.save())
            } else {
                Err(Fault::NotFolder { remote: remote_path(run.remote.as_str(), path.as_str()) })
            },
            (EnsureStage::Looking, Reply::Node(None)) => {
                let above = relative_parent(path.as_str());
                let parent = remote_path(run.remote.as_str(), above.as_str());
                let name = relative_name(path.as_str());
                run.stage = EnsureStage::Creating;
                Ok(Progress::Ask(run, Request::CreateFolder { parent, name }))
            },
            (EnsureStage::Creating, Reply::Done) => Ok(run.save()),
            (EnsureStage::Saving, Reply::Done) => Ok(run.settle().descend()),
            _ => Err(Fault::UnexpectedReply),
        }
    }
}

} // verus!
