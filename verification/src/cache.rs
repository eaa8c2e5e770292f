//! Switching the caches of the command line client to write-ahead logging.

use crate::config::Config;
use crate::error::{outcome, Fault, SyncError};
use crate::exchange::Progress;
use crate::places::{cli_cache_dir, join_path, path_joined, proton_cli_cache_dir};
use crate::text::{eq_ignore_ascii_case, option_view, same_ignoring_case};
use vstd::prelude::*;

verus! {

/// The view of a place that may not be wanted.
pub open spec fn wanted_place(r: Result<Option<String>, SyncError>) -> Result<
    Option<Seq<char>>,
    Fault<Seq<char>>,
> {
    match r {
        Ok(place) => Ok(option_view(place)),
        Err(error) => Err(error@),
    }
}

/// The directory whose caches are to be switched, from `PROTON_DRIVE_CACHE_DIR`, `XDG_CACHE_HOME`
/// and `HOME`; none if the configuration does not want it.
pub fn optimize_cli_cache(
    config: &Config,
    proton_drive_cache_dir: Option<String>,
    xdg_cache_home: Option<String>,
    home: Option<String>,
) -> (r: Result<Option<String>, SyncError>)
    ensures
        wanted_place(r) == (if config.optimize_cli_cache {
            match cli_cache_dir(
                option_view(proton_drive_cache_dir),
                option_view(xdg_cache_home),
                option_view(home),
            ) {
                Ok(place) => Ok(Some(place)),
                Err(fault) => Err(fault),
            }
        } else {
            Ok(None)
        }),
{
    if !config.optimize_cli_cache {
        return Ok(None);
    }
    match proton_cli_cache_dir(proton_drive_cache_dir, xdg_cache_home, home) {
        Ok(place) => Ok(Some(place)),
        Err(error) => Err(error),
    }
}

/// Something that the switch needs done.
#[derive(Debug)]
pub enum CacheRequest<T> {
    /// Is there a file at a path? Answered by `CacheReply::Found`.
    IsFile { path: T },
    /// Ask a database for write-ahead logging. Answered by `CacheReply::Mode`.
    EnableWal { path: T },
}

impl View for CacheRequest<String> {
    type V = CacheRequest<Seq<char>>;

    open spec fn view(&self) -> CacheRequest<Seq<char>> {
        match *self {
            CacheRequest::IsFile { path } => CacheRequest::IsFile { path: path@ },
            CacheRequest::EnableWal { path } => CacheRequest::EnableWal { path: path@ },
        }
    }
}

/// The answer to a request of the switch.
#[derive(Debug)]
pub enum CacheReply<T> {
    Found(bool),
    /// The mode that the database is in now.
    Mode(T),
}

impl View for CacheReply<String> {
    type V = CacheReply<Seq<char>>;

    open spec fn view(&self) -> CacheReply<Seq<char>> {
        match *self {
            CacheReply::Found(found) => CacheReply::Found(found),
            CacheReply::Mode(mode) => CacheReply::Mode(mode@),
        }
    }
}

/// A switch in progress.
#[derive(Debug)]
pub struct CacheSwitch<T> {
    pub directory: T,
    /// Whether the second cache is at hand; else the first.
    pub second: bool,
    /// Whether the cache at hand was found, so that its mode is what is waited for.
    pub found: bool,
    /// Whether the first cache was switched.
    pub switched: bool,
}

impl View for CacheSwitch<String> {
    type V = CacheSwitch<Seq<char>>;

    open spec fn view(&self) -> CacheSwitch<Seq<char>> {
        CacheSwitch {
            directory: self.directory@,
            second: self.second,
            found: self.found,
            switched: self.switched,
        }
    }
}

/// How many caches were switched.
#[derive(Clone, Copy, Debug)]
pub struct Switched {
    pub count: usize,
}

impl View for Switched {
    type V = nat;

    open spec fn view(&self) -> nat {
        self.count as nat
    }
}

/// What a step of the switch leads to.
pub type CacheOutcome = Result<
    Progress<CacheSwitch<Seq<char>>, CacheRequest<Seq<char>>, nat>,
    Fault<Seq<char>>,
>;

impl CacheSwitch<Seq<char>> {
    /// The cache at hand.
    pub open spec fn cache(self) -> Seq<char> {
        path_joined(
            self.directory,
            if self.second {
                "cache-crypto.sqlite"@
            } else {
                "cache-entities.sqlite"@
            },
        )
    }

    /// Done with the cache at hand.
    pub open spec fn moved_on(self, switched: bool) -> CacheOutcome {
        if self.second {
            Ok(
                Progress::Done(
                    if self.switched {
                        1
                    } else {
                        0nat
                    } + if switched {
                        1
                    } else {
                        0nat
                    },
                ),
            )
        } else {
            let next = CacheSwitch { second: true, found: false, switched, ..self };
            Ok(Progress::Ask(next, CacheRequest::IsFile { path: next.cache() }))
        }
    }

    /// One step.
    pub open spec fn stepped(self, reply: CacheReply<Seq<char>>) -> CacheOutcome {
        match (self.found, reply) {
            (false, CacheReply::Found(found)) => if found {
                Ok(
                    Progress::Ask(
                        CacheSwitch { found: true, ..self },
                        CacheRequest::EnableWal { path: self.cache() },
                    ),
                )
            } else {
                self.moved_on(false)
            },
            (true, CacheReply::Mode(mode)) => if same_ignoring_case(mode, "wal"@) {
                self.moved_on(true)
            } else {
                Err(Fault::WalRejected { path: self.cache(), mode })
            },
            _ => Err(Fault::UnexpectedReply),
        }
    }
}

/// A switch before anything was looked at.
pub open spec fn switch_started(directory: Seq<char>) -> CacheSwitch<Seq<char>> {
    CacheSwitch { directory, second: false, found: false, switched: false }
}

/// Starts to switch the caches in a directory. A cache that is not there is passed over; one that
/// refuses is a fault.
pub fn optimize_cli_cache_dir(cache_dir: &str) -> (r: (
    CacheSwitch<String>,
    CacheRequest<String>,
))
    ensures
        r.0@ == switch_started(cache_dir@),
        r.1@ == (CacheRequest::IsFile { path: switch_started(cache_dir@).cache() }),
{
    let run = CacheSwitch {
        directory: cache_dir.to_owned(),
        second: false,
        found: false,
        switched: false,
    };
    let path = run.cache_path();
    (run, CacheRequest::IsFile { path })
}

impl CacheSwitch<String> {
    fn cache_path(&self) -> (r: String)
        ensures
            r@ == self@.cache(),
    {
        if self.second {
            join_path(self.directory.as_str(), "cache-crypto.sqlite")
        } else {
            join_path(self.directory.as_str(), "cache-entities.sqlite")
        }
    }

    fn move_on(self, switched: bool) -> (r: Result<
        Progress<CacheSwitch<String>, CacheRequest<String>, Switched>,
        SyncError,
    >)
        ensures
            outcome(r) == self@.moved_on(switched),
    {
        if self.second {
            let first: usize = if self.switched {
                1
            } else {
                0
            };
            let second: usize = if switched {
                1
            } else {
                0
            };
            return Ok(Progress::Done(Switched { count: first + second }));
        }
        let next = CacheSwitch { directory: self.directory, second: true, found: false, switched };
        let path = next.cache_path();
        Ok(Progress::Ask(next, CacheRequest::IsFile { path }))
    }

    /// Takes the reply to the last request, and goes on.
    pub fn next(self, reply: CacheReply<String>) -> (r: Result<
        Progress<CacheSwitch<String>, CacheRequest<String>, Switched>,
        SyncError,
    >)
        ensures
            outcome(r) == self@.stepped(reply@),
    {
        let mut run = self;
        match (run.found, reply) {
            (false, CacheReply::Found(found)) => {
                if found {
                    let path = run.cache_path();
                    run.found = true;
                    Ok(Progress::Ask(run, CacheRequest::EnableWal { path }))
                } else {
                    run.move_on(false)
                }
            },
            (true, CacheReply::Mode(mode)) => {
                if eq_ignore_ascii_case(mode.as_str(), "wal") {
                    run.move_on(true)
                } else {
                    Err(Fault::WalRejected { path: run.cache_path(), mode })
                }
            },
            _ => Err(Fault::UnexpectedReply),
        }
    }
}

} // verus!
