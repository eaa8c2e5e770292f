//! What the drive reports, and the interface that a drive offers.

use crate::error::SyncError;
use crate::text::{option_view, text_eq, views};
use vstd::prelude::*;

verus! {

/// A value that the drive may have failed to decrypt.
#[derive(Clone, Debug)]
pub struct ResultValue<T> {
    pub ok: bool,
    pub value: Option<T>,
}

/// A file or folder on the drive.
#[derive(Clone, Debug)]
pub struct RemoteNode {
    pub uid: String,
    pub name: ResultValue<String>,
    pub kind: String,
    pub total_storage_size: Option<u64>,
    pub active_revision: Option<RemoteRevision>,
}

/// The current content of a remote file.
#[derive(Clone, Debug)]
pub struct RemoteRevision {
    pub uid: String,
    pub storage_size: u64,
    pub claimed_size: u64,
    pub claimed_modification_time: Option<String>,
    pub claimed_digests: RemoteDigests,
}

/// The digests that the uploader claimed.
#[derive(Clone, Debug)]
pub struct RemoteDigests {
    pub sha1: String,
    pub sha1_verified: Option<bool>,
}

/// What a sync needs to know of a remote file.
#[derive(Debug)]
pub struct RemoteFile {
    pub uid: String,
    pub sha1: String,
    pub claimed_size: u64,
}

/// The view of a remote file.
pub struct RemoteFileView {
    pub uid: Seq<char>,
    pub sha1: Seq<char>,
    pub claimed_size: u64,
}

impl View for RemoteFile {
    type V = RemoteFileView;

    open spec fn view(&self) -> RemoteFileView {
        RemoteFileView { uid: self.uid@, sha1: self.sha1@, claimed_size: self.claimed_size }
    }
}

impl Clone for RemoteFile {
    fn clone(&self) -> (r: Self)
        ensures
            r@ == self@,
    {
        RemoteFile {
            uid: self.uid.clone(),
            sha1: self.sha1.clone(),
            claimed_size: self.claimed_size,
        }
    }
}

/// The view of a node: what a sync reads of it.
pub struct RemoteNodeView {
    pub uid: Seq<char>,
    pub name_ok: bool,
    pub name: Option<Seq<char>>,
    pub kind: Seq<char>,
    pub content: Option<RemoteFileView>,
}

impl View for RemoteNode {
    type V = RemoteNodeView;

    open spec fn view(&self) -> RemoteNodeView {
        RemoteNodeView {
            uid: self.uid@,
            name_ok: self.name.ok,
            name: option_view(self.name.value),
            kind: self.kind@,
            content: match self.active_revision {
                Some(revision) => Some(
                    RemoteFileView {
                        uid: self.uid@,
                        sha1: revision.claimed_digests.sha1@,
                        claimed_size: revision.claimed_size,
                    },
                ),
                None => None,
            },
        }
    }
}

/// A file that an upload batch could not transfer.
#[derive(Clone, Debug)]
pub struct UploadFailure {
    pub name: String,
    pub error: String,
}

/// The view of an upload failure.
pub struct UploadFailureView {
    pub name: Seq<char>,
    pub error: Seq<char>,
}

impl View for UploadFailure {
    type V = UploadFailureView;

    open spec fn view(&self) -> UploadFailureView {
        UploadFailureView { name: self.name@, error: self.error@ }
    }
}

/// What became of an upload batch.
#[derive(Clone, Debug)]
pub struct UploadBatchResult {
    pub transferred_items: usize,
    pub skipped_items: usize,
    pub transferred_bytes: u64,
    pub failures: Vec<UploadFailure>,
}

/// The view of the result of an upload batch.
#[verifier::ext_equal]
pub struct UploadBatchView {
    pub transferred_items: usize,
    pub skipped_items: usize,
    pub transferred_bytes: u64,
    pub failures: Seq<UploadFailureView>,
}

impl View for UploadBatchResult {
    type V = UploadBatchView;

    open spec fn view(&self) -> UploadBatchView {
        UploadBatchView {
            transferred_items: self.transferred_items,
            skipped_items: self.skipped_items,
            transferred_bytes: self.transferred_bytes,
            failures: views(self.failures@),
        }
    }
}

impl Default for UploadBatchResult {
    fn default() -> (r: Self)
        ensures
            r.transferred_items == 0,
            r.skipped_items == 0,
            r.transferred_bytes == 0,
            r.failures@.len() == 0,
    {
        UploadBatchResult {
            transferred_items: 0,
            skipped_items: 0,
            transferred_bytes: 0,
            failures: Vec::new(),
        }
    }
}

/// A remote file on its way to the trash.
#[derive(Clone, Debug)]
pub struct TrashTarget {
    pub remote_path: String,
    pub uid: String,
}

/// The view of a trash target.
pub struct TrashTargetView {
    pub remote_path: Seq<char>,
    pub uid: Seq<char>,
}

impl View for TrashTarget {
    type V = TrashTargetView;

    open spec fn view(&self) -> TrashTargetView {
        TrashTargetView { remote_path: self.remote_path@, uid: self.uid@ }
    }
}

/// What became of a trash batch.
#[derive(Clone, Debug)]
pub struct TrashBatchResult {
    pub succeeded_uids: Vec<String>,
    pub failed_uids: Vec<String>,
}

/// The view of the result of a trash batch.
#[verifier::ext_equal]
pub struct TrashBatchView {
    pub succeeded_uids: Seq<Seq<char>>,
    pub failed_uids: Seq<Seq<char>>,
}

impl View for TrashBatchResult {
    type V = TrashBatchView;

    open spec fn view(&self) -> TrashBatchView {
        TrashBatchView {
            succeeded_uids: views(self.succeeded_uids@),
            failed_uids: views(self.failed_uids@),
        }
    }
}

impl Default for TrashBatchResult {
    fn default() -> (r: Self)
        ensures
            r.succeeded_uids@.len() == 0,
            r.failed_uids@.len() == 0,
    {
        TrashBatchResult { succeeded_uids: Vec::new(), failed_uids: Vec::new() }
    }
}

/// A remote drive. Paths on the drive are written as `remote_path` writes them.
pub trait DriveClient {
    /// The nodes of a folder.
    fn list(&mut self, remote_path: &str) -> Result<Vec<RemoteNode>, SyncError>;

    /// The node at a path, if there is one.
    fn info(&mut self, remote_path: &str) -> Result<Option<RemoteNode>, SyncError>;

    /// Makes a folder.
    fn create_folder(&mut self, parent_path: &str, name: &str) -> Result<(), SyncError>;

    /// Uploads local files into one folder.
    fn upload_many(&mut self, local_paths: &Vec<String>, remote_parent: &str) -> Result<
        UploadBatchResult,
        SyncError,
    >;

    /// Downloads a file into a local folder.
    fn download(&mut self, remote_path: &str, local_parent: &str) -> Result<(), SyncError>;

    /// Moves files to the trash.
    fn trash_many(&mut self, targets: &Vec<TrashTarget>) -> Result<TrashBatchResult, SyncError>;

    /// Gives up what the client holds between commands. A client that holds nothing can leave this
    /// as it is: it succeeds and changes nothing.
    fn release_session(&mut self) -> (r: Result<(), SyncError>)
        default_ensures
            r is Ok,
            &*final(self) == &*old(self),
    {
        Ok(())
    }
}

/// The file that a node stands for: none for a folder, or for a file without content.
pub open spec fn node_file(node: Option<RemoteNodeView>) -> Option<RemoteFileView> {
    match node {
        Some(node) => if node.kind == "file"@ {
            node.content
        } else {
            None
        },
        None => None,
    }
}

/// The file that a node stands for.
pub fn remote_file(node: Option<RemoteNode>) -> (r: Option<RemoteFile>)
    ensures
        option_view(r) == node_file(option_view(node)),
{
    match node {
        None => None,
        Some(node) => {
            if !text_eq(node.kind.as_str(), "file") {
                return None;
            }
            match node.active_revision {
                None => None,
                Some(revision) => Some(
                    RemoteFile {
                        uid: node.uid,
                        sha1: revision.claimed_digests.sha1,
                        claimed_size: revision.claimed_size,
                    },
                ),
            }
        },
    }
}

} // verus!
