//! Taking stock of a remote tree.

use crate::drive::{node_file, remote_file, RemoteFile, RemoteFileView, RemoteNode, RemoteNodeView};
use crate::error::{outcome, Fault, SyncError};
use crate::exchange::{Progress, Reply, ReplyView, Request, RequestView};
use crate::path_map::PathMap;
use crate::paths::{child_of, drive_path, join_relative, remote_path};
use crate::text::{contains_char, in_order, text_eq, views, views_push};
use vstd::prelude::*;

verus! {

/// The files and folders of a remote tree, by their paths below its root.
pub struct RemoteTree {
    pub files: PathMap<RemoteFile>,
    pub directories: PathMap<()>,
}

/// The view of a remote tree.
#[verifier::ext_equal]
pub struct RemoteTreeView {
    pub files: Map<Seq<char>, RemoteFileView>,
    pub directories: Set<Seq<char>>,
}

impl View for RemoteTree {
    type V = RemoteTreeView;

    open spec fn view(&self) -> RemoteTreeView {
        RemoteTreeView { files: self.files@, directories: self.directories@.dom() }
    }
}

/// A node that is still to be looked at, and the folder that it is in.
#[derive(Debug)]
pub struct FoundNode {
    pub directory: String,
    pub node: RemoteNode,
}

/// The view of a node that is still to be looked at.
#[verifier::ext_equal]
pub struct FoundNodeView {
    pub directory: Seq<char>,
    pub node: RemoteNodeView,
}

impl View for FoundNode {
    type V = FoundNodeView;

    open spec fn view(&self) -> FoundNodeView {
        FoundNodeView { directory: self.directory@, node: self.node@ }
    }
}

/// What an inventory waits for.
#[derive(Debug)]
pub enum InventoryStage<T> {
    /// The nodes of a folder.
    Listing { directory: T },
    /// The folders being put on record.
    Recording,
    /// The session being given up.
    Releasing,
}

impl View for InventoryStage<String> {
    type V = InventoryStage<Seq<char>>;

    open spec fn view(&self) -> InventoryStage<Seq<char>> {
        match *self {
            InventoryStage::Listing { directory } => InventoryStage::Listing {
                directory: directory@,
            },
            InventoryStage::Recording => InventoryStage::Recording,
            InventoryStage::Releasing => InventoryStage::Releasing,
        }
    }
}

/// An inventory of a remote tree. A node that was met before is passed over, so that a tree with a
/// loop in it comes to an end.
pub struct Inventory {
    mirror: String,
    remote: String,
    stage: InventoryStage<String>,
    todo: Vec<FoundNode>,
    visited: PathMap<()>,
    tree: RemoteTree,
}

/// The view of an inventory.
#[verifier::ext_equal]
pub struct InventoryView {
    pub mirror: Seq<char>,
    pub remote: Seq<char>,
    pub stage: InventoryStage<Seq<char>>,
    /// What is still to be looked at; the last comes first.
    pub todo: Seq<FoundNodeView>,
    /// The nodes met so far.
    pub visited: Set<Seq<char>>,
    pub tree: RemoteTreeView,
}

impl View for Inventory {
    type V = InventoryView;

    closed spec fn view(&self) -> InventoryView {
        InventoryView {
            mirror: self.mirror@,
            remote: self.remote@,
            stage: self.stage@,
            todo: views(self.todo@),
            visited: self.visited@.dom(),
            tree: self.tree@,
        }
    }
}

/// What a step of an inventory leads to.
pub type InventoryOutcome = Result<
    Progress<InventoryView, RequestView, RemoteTreeView>,
    Fault<Seq<char>>,
>;

/// A node whose name can be part of a path.
pub open spec fn well_named(node: RemoteNodeView) -> bool {
    node.name_ok && node.name is Some && !node.name->0.contains('/')
}

impl InventoryView {
    /// Goes on with what is still to be looked at.
    pub open spec fn advanced(self) -> InventoryOutcome
        decreases self.todo.len(),
    {
        if self.todo.len() == 0 {
            Ok(
                Progress::Ask(
                    InventoryView { stage: InventoryStage::Recording, ..self },
                    RequestView::ReplaceDirectories {
                        mirror: self.mirror,
                        paths: in_order(self.tree.directories),
                    },
                ),
            )
        } else {
            let node = self.todo.last().node;
            let path = child_of(self.todo.last().directory, node.name->0);
            let rest = InventoryView {
                todo: self.todo.drop_last(),
                visited: self.visited.insert(node.uid),
                ..self
            };
            if self.visited.contains(node.uid) || !well_named(node) {
                rest.advanced()
            } else if node.kind == "folder"@ {
                Ok(
                    Progress::Ask(
                        InventoryView {
                            stage: InventoryStage::Listing { directory: path },
                            tree: RemoteTreeView {
                                directories: self.tree.directories.insert(path),
                                ..self.tree
                            },
                            ..rest
                        },
                        RequestView::List { path: drive_path(self.remote, path) },
                    ),
                )
            } else {
                match node_file(Some(node)) {
                    Some(file) => InventoryView {
                        tree: RemoteTreeView {
                            files: self.tree.files.insert(path, file),
                            ..self.tree
                        },
                        ..rest
                    }.advanced(),
                    None => rest.advanced(),
                }
            }
        }
    }

    /// The nodes of a folder on top of what is still to be looked at, so that they are taken in
    /// the order in which they were listed.
    pub open spec fn with_listing(self, directory: Seq<char>, nodes: Seq<RemoteNodeView>) -> InventoryView {
        InventoryView {
            todo: self.todo + nodes.reverse().map_values(
                |node: RemoteNodeView| FoundNodeView { directory, node },
            ),
            ..self
        }
    }

    /// One step.
    pub open spec fn stepped(self, reply: ReplyView) -> InventoryOutcome {
        match (self.stage, reply) {
            (InventoryStage::Listing { directory }, ReplyView::Nodes(nodes)) => self.with_listing(
                directory,
                nodes,
            ).advanced(),
            (InventoryStage::Recording, ReplyView::Done) => Ok(
                Progress::Ask(
                    InventoryView { stage: InventoryStage::Releasing, ..self },
                    RequestView::ReleaseSession,
                ),
            ),
            (InventoryStage::Releasing, ReplyView::Done) => Ok(Progress::Done(self.tree)),
            _ => Err(Fault::UnexpectedReply),
        }
    }
}

/// An inventory that has seen nothing yet. The root is among its directories.
pub open spec fn inventory_started(mirror: Seq<char>, remote: Seq<char>) -> Progress<
    InventoryView,
    RequestView,
    RemoteTreeView,
> {
    Progress::Ask(
        InventoryView {
            mirror,
            remote,
            stage: InventoryStage::Listing { directory: Seq::empty() },
            todo: Seq::empty(),
            visited: Set::empty(),
            tree: RemoteTreeView {
                files: Map::empty(),
                directories: Set::empty().insert(Seq::empty()),
            },
        },
        RequestView::List { path: drive_path(remote, Seq::empty()) },
    )
}

/// Starts an inventory of a remote tree.
pub fn inventory_remote(mirror: &str, remote: &str) -> (r: (Inventory, Request))
    ensures
        Progress::<InventoryView, RequestView, RemoteTreeView>::Ask(r.0@, r.1@)
            == inventory_started(mirror@, remote@),
{
    let mut directories: PathMap<()> = PathMap::new();
    let root = String::new();
    assert(root@ =~= Seq::<char>::empty());
    directories.insert(root, ());
    let inventory = Inventory {
        mirror: mirror.to_owned(),
        remote: remote.to_owned(),
        stage: InventoryStage::Listing { directory: String::new() },
        todo: Vec::new(),
        visited: PathMap::new(),
        tree: RemoteTree { files: PathMap::new(), directories },
    };
    let top = remote_path(remote, "");
    proof {
        reveal_strlit("");
        assert(""@ =~= Seq::<char>::empty());
        assert(inventory@.stage->directory =~= Seq::<char>::empty());
        assert(inventory@.todo =~= Seq::<FoundNodeView>::empty());
        assert(inventory@.visited =~= Set::<Seq<char>>::empty());
        assert(inventory@.tree.directories =~= Set::<Seq<char>>::empty().insert(Seq::empty()));
    }
    (inventory, Request::List { path: top })
}

impl Inventory {
    fn advance(self) -> (r: Result<Progress<Inventory, Request, RemoteTree>, SyncError>)
        ensures
            outcome(r) == self@.advanced(),
    {
        let mut run = self;
        let ghost goal = self@.advanced();
        while run.todo.len() > 0
            invariant
                goal == self@.advanced(),
                run@.advanced() == goal,
            decreases run.todo.len(),
        {
            let ghost before = run@;
            proof {
                reveal_strlit("file");
                reveal_strlit("folder");
            }
            let found = run.todo.pop().unwrap();
            assert(found@ == before.todo.last());
            let met = run.visited.contains(found.node.uid.as_str());
            run.visited.insert(found.node.uid.clone(), ());
            assert(run@ =~= InventoryView {
                todo: before.todo.drop_last(),
                visited: before.visited.insert(found@.node.uid),
                ..before
            });
            if met || !found.node.name.ok {
                continue ;
            }
            let path = match &found.node.name.value {
                Some(name) if !contains_char(name.as_str(), '/') => join_relative(
                    found.directory.as_str(),
                    name.as_str(),
                ),
                _ => {
                    continue ;
                },
            };
            if text_eq(found.node.kind.as_str(), "folder") {
                let place = remote_path(run.remote.as_str(), path.as_str());
                run.tree.directories.insert(path.clone(), ());
                run.stage = InventoryStage::Listing { directory: path };
                assert(run@.tree.directories =~= before.tree.directories.insert(path@));
                return Ok(Progress::Ask(run, Request::List { path: place }));
            }
            if let Some(file) = remote_file(Some(found.node)) {
                run.tree.files.insert(path, file);
            }
        }
        let paths = run.tree.directories.keys();
        let mirror = run.mirror.clone();
        run.stage = InventoryStage::Recording;
        Ok(Progress::Ask(run, Request::ReplaceDirectories { mirror, paths }))
    }

    /// Takes the reply to the last request, and goes on.
    pub fn next(self, reply: Reply) -> (r: Result<Progress<Inventory, Request, RemoteTree>, SyncError>)
        ensures
            outcome(r) == self@.stepped(reply@),
    {
        let mut run = self;
        let ghost before = self@;
        match (&run.stage, reply) {
            (InventoryStage::Listing { directory }, Reply::Nodes(nodes)) => {
                let ghost place = directory@;
                let ghost all = views(nodes@);
                let mut nodes = nodes;
                let mut todo: Vec<FoundNode> = Vec::new();
                assert(views(nodes@) =~= all.take(nodes.len() as int));
                while nodes.len() > 0
                    invariant
                        nodes.len() <= all.len(),
                        views(nodes@) == all.take(nodes.len() as int),
                        place == directory@,
                        views(todo@) == all.skip(nodes.len() as int).reverse().map_values(
                            |node: RemoteNodeView| FoundNodeView { directory: place, node },
                        ),
                    decreases nodes.len(),
                {
                    let ghost left = views(nodes@);
                    let node = nodes.pop().unwrap();
                    assert(node@ == left.last());
                    let found = FoundNode { directory: directory.clone(), node };
                    proof {
                        views_push(todo@, found);
                    }
                    todo.push(found);
                    assert(views(nodes@) =~= all.take(nodes.len() as int));
                    assert(views(todo@) =~= all.skip(nodes.len() as int).reverse().map_values(
                        |node: RemoteNodeView| FoundNodeView { directory: place, node },
                    ));
                }
                assert(all.skip(0) =~= all);
                assert(views(run.todo@ + todo@) =~= views(run.todo@) + views(todo@));
                run.todo.append(&mut todo);
                assert(run@ =~= before.with_listing(place, all));
                run.advance()
            },
            (InventoryStage::Recording, Reply::Done) => {
                run.stage = InventoryStage::Releasing;
                Ok(Progress::Ask(run, Request::ReleaseSession))
            },
            (InventoryStage::Releasing, Reply::Done) => Ok(Progress::Done(run.tree)),
            _ => Err(Fault::UnexpectedReply),
        }
    }
}

impl InventoryView {
    proof fn advance_visits(self)
        ensures
            self.advanced() matches Ok(Progress::Ask(next, request)) && {
                &&& self.visited.subset_of(next.visited)
                &&& request is List ==> exists|uid: Seq<char>| #[trigger]
                    next.visited.contains(uid) && !self.visited.contains(uid)
            },
        decreases self.todo.len(),
    {
        if self.todo.len() > 0 {
            let node = self.todo.last().node;
            let path = child_of(self.todo.last().directory, node.name->0);
            let rest = InventoryView {
                todo: self.todo.drop_last(),
                visited: self.visited.insert(node.uid),
                ..self
            };
            assert(self.visited.subset_of(rest.visited));
            if self.visited.contains(node.uid) || !well_named(node) {
                assert(self.advanced() == rest.advanced());
                rest.advance_visits();
            } else if node.kind == "folder"@ {
                let next = InventoryView {
                    stage: InventoryStage::Listing { directory: path },
                    tree: RemoteTreeView {
                        directories: self.tree.directories.insert(path),
                        ..self.tree
                    },
                    ..rest
                };
                assert(self.advanced() matches Ok(Progress::Ask(run, _)) && run == next);
                assert(next.visited.contains(node.uid));
            } else {
                match node_file(Some(node)) {
                    Some(file) => {
                        let taken = InventoryView {
                            tree: RemoteTreeView {
                                files: self.tree.files.insert(path, file),
                                ..self.tree
                            },
                            ..rest
                        };
                        assert(self.advanced() == taken.advanced());
                        taken.advance_visits();
                    },
                    None => {
                        assert(self.advanced() == rest.advanced());
                        rest.advance_visits();
                    },
                }
            }
        }
    }
}

/// An inventory comes to an end even if folders contain each other: it lists a further folder only
/// on meeting a node that it had not met before.
pub proof fn listing_meets_a_new_node(run: InventoryView, reply: ReplyView)
    ensures
        run.stepped(reply) matches Ok(Progress::Ask(next, request)) ==> {
            &&& run.visited.subset_of(next.visited)
            &&& request is List ==> exists|uid: Seq<char>| #[trigger]
                next.visited.contains(uid) && !run.visited.contains(uid)
        },
{
    if let (InventoryStage::Listing { directory }, ReplyView::Nodes(nodes)) = (run.stage, reply) {
        run.with_listing(directory, nodes).advance_visits();
    }
}

} // verus!
