//! Whether a local root is there to be synced.

use crate::config::{SyncConfig, SyncConfigView};
use crate::error::{outcome, Fault, SyncError};
use crate::exchange::{Progress, Reply, ReplyView, Request, RequestView};
use crate::places::{join_path, path_joined};
use crate::text::option_view;
use vstd::prelude::*;

verus! {

/// A check of the local root and of its readiness marker.
#[derive(Debug)]
pub struct Readiness<T> {
    pub root: T,
    /// Where the marker is to be.
    pub marker: Option<T>,
    /// Whether the root was found, so that the marker is what is waited for.
    pub root_found: bool,
}

impl View for Readiness<String> {
    type V = Readiness<Seq<char>>;

    open spec fn view(&self) -> Readiness<Seq<char>> {
        Readiness {
            root: self.root@,
            marker: option_view(self.marker),
            root_found: self.root_found,
        }
    }
}

/// What a step of the check leads to.
pub type ReadinessOutcome = Result<
    Progress<Readiness<Seq<char>>, RequestView, ()>,
    Fault<Seq<char>>,
>;

impl Readiness<Seq<char>> {
    /// One step: a missing root and a missing marker are faults.
    pub open spec fn stepped(self, reply: ReplyView) -> ReadinessOutcome {
        match reply {
            ReplyView::Flag(found) => match self.marker {
                None => if found {
                    Ok(Progress::Done(()))
                } else {
                    Err(Fault::RootMissing { root: self.root })
                },
                Some(marker) => if self.root_found {
                    if found {
                        Ok(Progress::Done(()))
                    } else {
                        Err(Fault::MarkerMissing { marker })
                    }
                } else if found {
                    Ok(
                        Progress::Ask(
                            Readiness { root_found: true, ..self },
                            RequestView::IsFile { path: marker },
                        ),
                    )
                } else {
                    Err(Fault::RootMissing { root: self.root })
                },
            },
            _ => Err(Fault::UnexpectedReply),
        }
    }
}

/// The check of an entry, before anything was looked at.
pub open spec fn readiness_started(mirror: SyncConfigView) -> Readiness<Seq<char>> {
    Readiness {
        root: mirror.local,
        marker: match mirror.ready_marker {
            Some(marker) => Some(path_joined(mirror.local, marker)),
            None => None,
        },
        root_found: false,
    }
}

/// Starts the check of an entry.
pub fn require_ready(mirror: &SyncConfig) -> (r: (Readiness<String>, Request))
    ensures
        r.0@ == readiness_started(mirror@),
        r.1@ == (RequestView::IsDirectory { path: mirror@.local }),
{
    let marker = match &mirror.ready_marker {
        Some(marker) => Some(join_path(mirror.local.as_str(), marker.as_str())),
        None => None,
    };
    (
        Readiness { root: mirror.local.clone(), marker, root_found: false },
        Request::IsDirectory { path: mirror.local.clone() },
    )
}

impl Readiness<String> {
    /// Takes the reply to the last request, and goes on.
    pub fn next(self, reply: Reply) -> (r: Result<
        Progress<Readiness<String>, Request, ()>,
        SyncError,
    >)
        ensures
            outcome(r) == self@.stepped(reply@),
    {
        match reply {
            Reply::Flag(found) => match self.marker {
                None => if found {
                    Ok(Progress::Done(()))
                } else {
                    Err(Fault::RootMissing { root: self.root })
                },
                Some(marker) => if self.root_found {
                    if found {
                        Ok(Progress::Done(()))
                    } else {
                        Err(Fault::MarkerMissing { marker })
                    }
                } else if found {
                    let path = marker.clone();
                    Ok(
                        Progress::Ask(
                            Readiness { root: self.root, marker: Some(marker), root_found: true },
                            Request::IsFile { path },
                        ),
                    )
                } else {
                    Err(Fault::RootMissing { root: self.root })
                },
            },
            _ => Err(Fault::UnexpectedReply),
        }
    }
}

} // verus!
