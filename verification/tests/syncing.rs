//! Syncs against a local tree, a state database and a drive that live in memory.

use pdrive_sync::config::{
    validate_config, Config, ConflictPolicy, DeletePolicy, SyncConfig, SyncMode,
};
use pdrive_sync::digest::FileDigest;
use pdrive_sync::drive::{
    RemoteDigests, RemoteFile, RemoteNode, RemoteRevision, ResultValue, TrashBatchResult,
    TrashTarget, UploadBatchResult, UploadFailure,
};
use pdrive_sync::error::SyncError;
use pdrive_sync::exchange::{DirEntry, EntryKind, FileStat, Progress, Reply, Request};
use pdrive_sync::path_map::PathMap;
use pdrive_sync::plan::{plan_two_way, LocalFile, LocalSnapshot, TwoWayAction};
use pdrive_sync::pull::{sync_pull, Pull};
use pdrive_sync::push::{sync_push, Push};
use pdrive_sync::scan::local_file;
use pdrive_sync::state::{CheckpointBatch, FileState, CHECKPOINT_BATCH_SIZE};
use pdrive_sync::summary::SyncSummary;
use pdrive_sync::sync::sync_all;
use pdrive_sync::two_way::{sync_two_way, TwoWay};
use pdrive_sync::cleanup::TRASH_BATCH_SIZE;
use pdrive_sync::uploads::UPLOAD_BATCH_SIZE;
use std::collections::{BTreeMap, BTreeSet, HashSet};

fn sha1_text(content: &[u8]) -> String {
    FileDigest::new().update(content).finish()
}

fn last_segment(path: &str) -> String {
    path.rsplit('/').next().unwrap().to_string()
}

#[derive(Default)]
struct MockDrive {
    files: BTreeMap<String, RemoteFile>,
    contents: BTreeMap<String, Vec<u8>>,
    directories: BTreeSet<String>,
    uploads: Vec<String>,
    upload_batches: Vec<Vec<String>>,
    downloads: Vec<String>,
    trashed: Vec<String>,
    trash_batches: Vec<Vec<String>>,
    fail_upload: bool,
    fail_upload_names: HashSet<String>,
    fail_after_upload: bool,
    info_calls: usize,
    released_sessions: usize,
}

impl MockDrive {
    fn with_root(root: &str) -> Self {
        Self {
            directories: BTreeSet::from([root.to_string()]),
            ..Self::default()
        }
    }

    fn file_node(path: &str, file: &RemoteFile) -> RemoteNode {
        RemoteNode {
            uid: file.uid.clone(),
            name: ResultValue {
                ok: true,
                value: Some(last_segment(path)),
            },
            kind: "file".to_string(),
            total_storage_size: Some(file.claimed_size),
            active_revision: Some(RemoteRevision {
                uid: format!("revision:{path}"),
                storage_size: file.claimed_size,
                claimed_size: file.claimed_size,
                claimed_modification_time: None,
                claimed_digests: RemoteDigests {
                    sha1: file.sha1.clone(),
                    sha1_verified: Some(true),
                },
            }),
        }
    }

    fn folder_node(path: &str) -> RemoteNode {
        RemoteNode {
            uid: format!("uid:{path}"),
            name: ResultValue {
                ok: true,
                value: Some(last_segment(path)),
            },
            kind: "folder".to_string(),
            total_storage_size: None,
            active_revision: None,
        }
    }

    fn insert_file(&mut self, path: String, content: &[u8]) {
        self.files.insert(
            path.clone(),
            RemoteFile {
                uid: format!("uid:{path}"),
                sha1: sha1_text(content),
                claimed_size: content.len() as u64,
            },
        );
        self.contents.insert(path, content.to_vec());
    }

    fn list(&mut self, remote_path: &str) -> Vec<RemoteNode> {
        let prefix = format!("{}/", remote_path.trim_end_matches('/'));
        let mut nodes = Vec::new();
        for directory in &self.directories {
            if directory != remote_path
                && directory.starts_with(&prefix)
                && !directory[prefix.len()..].contains('/')
            {
                nodes.push(Self::folder_node(directory));
            }
        }
        for (path, file) in &self.files {
            if path.starts_with(&prefix) && !path[prefix.len()..].contains('/') {
                nodes.push(Self::file_node(path, file));
            }
        }
        nodes
    }

    fn info(&mut self, remote_path: &str) -> Option<RemoteNode> {
        self.info_calls += 1;
        if let Some(file) = self.files.get(remote_path) {
            return Some(Self::file_node(remote_path, file));
        }
        if self.directories.contains(remote_path) {
            return Some(Self::folder_node(remote_path));
        }
        None
    }

    fn create_folder(&mut self, parent_path: &str, name: &str) {
        self.directories
            .insert(format!("{}/{}", parent_path.trim_end_matches('/'), name));
    }

    fn upload_many(
        &mut self,
        local_paths: &[String],
        remote_parent: &str,
        local: &BTreeMap<String, (Vec<u8>, u64)>,
    ) -> Result<UploadBatchResult, String> {
        if self.fail_upload {
            return Ok(UploadBatchResult {
                failures: local_paths
                    .iter()
                    .map(|path| UploadFailure {
                        name: last_segment(path),
                        error: "simulated upload failure".to_owned(),
                    })
                    .collect(),
                ..UploadBatchResult::default()
            });
        }
        self.upload_batches.push(local_paths.to_vec());
        let mut result = UploadBatchResult::default();
        for local_path in local_paths {
            let name = last_segment(local_path);
            if self.fail_upload_names.contains(&name) {
                result.failures.push(UploadFailure {
                    name,
                    error: "simulated upload failure".to_owned(),
                });
                continue;
            }
            let path = format!("{}/{}", remote_parent.trim_end_matches('/'), name);
            let (content, _) = &local[local_path];
            let digest = sha1_text(content);
            if self.files.get(&path).is_some_and(|file| {
                file.sha1 == digest && file.claimed_size == content.len() as u64
            }) {
                result.skipped_items += 1;
                continue;
            }
            self.insert_file(path.clone(), content);
            self.uploads.push(path);
            result.transferred_items += 1;
            result.transferred_bytes += content.len() as u64;
        }
        if self.fail_after_upload {
            return Err("simulated failure after accepted upload".to_owned());
        }
        Ok(result)
    }

    fn trash_many(&mut self, targets: &[TrashTarget]) -> TrashBatchResult {
        self.trash_batches.push(
            targets
                .iter()
                .map(|target| target.remote_path.clone())
                .collect(),
        );
        let mut result = TrashBatchResult::default();
        for target in targets {
            if self.files.remove(&target.remote_path).is_some() {
                self.contents.remove(&target.remote_path);
                self.trashed.push(target.remote_path.clone());
                result.succeeded_uids.push(target.uid.clone());
            } else {
                result.failed_uids.push(target.uid.clone());
            }
        }
        result
    }
}

/// A stored file state: size, modification time and digest.
type Stored = (u64, i64, String);

struct Fixture {
    local: String,
    clock: u64,
    /// The content and the modification time of each local file, by its absolute path.
    disk: BTreeMap<String, (Vec<u8>, u64)>,
    trashed_local: Vec<String>,
    states: BTreeMap<(String, String), Stored>,
    commits: usize,
    directories: BTreeSet<(String, String)>,
    metadata: BTreeMap<String, String>,
    mirror: SyncConfig,
}

impl Fixture {
    fn new() -> Self {
        let local = "/tmp/stuff".to_owned();
        let mirror = SyncConfig {
            name: "stuff".to_string(),
            mode: SyncMode::Push,
            local: local.clone(),
            remote: "/my-files/Desktop/stuff".to_string(),
            ready_marker: Some(".ready".to_owned()),
            delete: DeletePolicy::Keep,
            conflict: ConflictPolicy::Fail,
            exclude: Vec::new(),
        };
        let mut fixture = Self {
            local,
            clock: 1_700_000_000,
            disk: BTreeMap::new(),
            trashed_local: Vec::new(),
            states: BTreeMap::new(),
            commits: 0,
            directories: BTreeSet::new(),
            metadata: BTreeMap::new(),
            mirror,
        };
        fixture.write(".ready", "");
        fixture
    }

    fn write(&mut self, relative: &str, content: &str) -> String {
        let path = format!("{}/{relative}", self.local);
        self.rewrite(&path, content);
        path
    }

    fn rewrite(&mut self, path: &str, content: &str) {
        self.clock += 1;
        self.disk
            .insert(path.to_owned(), (content.as_bytes().to_vec(), self.clock));
    }

    fn remove(&mut self, path: &str) {
        self.disk.remove(path).unwrap();
    }

    fn read(&self, path: &str) -> String {
        String::from_utf8(self.disk[path].0.clone()).unwrap()
    }

    fn state(&self, path: &str) -> Option<&Stored> {
        self.states
            .get(&(self.mirror.name.clone(), path.to_owned()))
    }

    fn entries(&self, directory: &str) -> Vec<DirEntry> {
        let prefix = format!("{directory}/");
        let mut seen = BTreeMap::new();
        for path in self.disk.keys() {
            if let Some(rest) = path.strip_prefix(&prefix) {
                match rest.split_once('/') {
                    Some((name, _)) => seen.insert(name.to_owned(), EntryKind::Directory),
                    None => seen.insert(rest.to_owned(), EntryKind::File),
                };
            }
        }
        seen.into_iter()
            .map(|(name, kind)| DirEntry {
                name: name.into_bytes(),
                kind,
            })
            .collect()
    }

    fn perform(&mut self, drive: &mut MockDrive, request: Request) -> Result<Reply, String> {
        Ok(match request {
            Request::IsDirectory { path } => Reply::Flag(path == self.local),
            Request::IsFile { path } => Reply::Flag(self.disk.contains_key(&path)),
            Request::ListDirectory { path } => Reply::Entries(self.entries(&path)),
            Request::Stat { path } => {
                let (content, modified) = self
                    .disk
                    .get(&path)
                    .ok_or_else(|| format!("no file at {path}"))?;
                Reply::Stat(FileStat {
                    size: content.len() as u64,
                    modified: Some((*modified, 0)),
                })
            }
            Request::Hash { path } => Reply::Digest(sha1_text(&self.disk[&path].0)),
            Request::Stage { target } => {
                let parent = target.rsplit_once('/').unwrap().0;
                Reply::Staged {
                    directory: format!("{parent}/.pdrive-sync-download-1"),
                }
            }
            Request::Install { staged, target } => {
                let file = self.disk.remove(&staged).unwrap();
                self.disk.insert(target, file);
                Reply::Done
            }
            Request::TrashLocal { path } => {
                self.remove(&path);
                self.trashed_local.push(path);
                Reply::Done
            }
            Request::LoadStates { mirror } => {
                let mut states = PathMap::new();
                for ((owner, path), (size, mtime_ns, sha1)) in &self.states {
                    if *owner == mirror {
                        states.insert(
                            path.clone(),
                            FileState {
                                size: *size,
                                mtime_ns: *mtime_ns,
                                sha1: sha1.clone(),
                            },
                        );
                    }
                }
                Reply::States(states)
            }
            Request::LoadState { mirror, path } => Reply::State(
                self.states
                    .get(&(mirror, path))
                    .map(|(size, mtime_ns, sha1)| FileState {
                        size: *size,
                        mtime_ns: *mtime_ns,
                        sha1: sha1.clone(),
                    }),
            ),
            Request::StatePaths { mirror } => Reply::Paths(
                self.states
                    .keys()
                    .filter(|(owner, _)| *owner == mirror)
                    .map(|(_, path)| path.clone())
                    .collect(),
            ),
            Request::Commit { checkpoints } => {
                self.commits += 1;
                for checkpoint in checkpoints {
                    self.states.insert(
                        (checkpoint.mirror, checkpoint.path),
                        (checkpoint.size, checkpoint.mtime_ns, checkpoint.sha1),
                    );
                }
                Reply::Done
            }
            Request::DeleteStates { mirror, paths } => {
                for path in paths {
                    self.states.remove(&(mirror.clone(), path));
                }
                Reply::Done
            }
            Request::LoadMetadata { key } => Reply::Value(self.metadata.get(&key).cloned()),
            Request::SaveMetadata { key, value } => {
                self.metadata.insert(key, value);
                Reply::Done
            }
            Request::KnowsDirectory { mirror, path } => {
                Reply::Flag(self.directories.contains(&(mirror, path)))
            }
            Request::SaveDirectory { mirror, path } => {
                self.directories.insert((mirror, path));
                Reply::Done
            }
            Request::ReplaceDirectories { mirror, paths } => {
                self.directories.retain(|(owner, _)| *owner != mirror);
                for path in paths {
                    assert!(self.directories.insert((mirror.clone(), path)));
                }
                Reply::Done
            }
            Request::List { path } => Reply::Nodes(drive.list(&path)),
            Request::Info { path } => Reply::Node(drive.info(&path)),
            Request::CreateFolder { parent, name } => {
                drive.create_folder(&parent, &name);
                Reply::Done
            }
            Request::Upload { files, parent } => {
                Reply::Uploaded(drive.upload_many(&files, &parent, &self.disk)?)
            }
            Request::Download { path, directory } => {
                let content = drive
                    .contents
                    .get(&path)
                    .ok_or_else(|| "mock remote content is missing".to_owned())?
                    .clone();
                self.clock += 1;
                self.disk.insert(
                    format!("{directory}/{}", last_segment(&path)),
                    (content, self.clock),
                );
                drive.downloads.push(path);
                Reply::Done
            }
            Request::TrashRemote { targets } => Reply::Trashed(drive.trash_many(&targets)),
            Request::ReleaseSession => {
                drive.released_sessions += 1;
                Reply::Done
            }
        })
    }

    fn push(&mut self, drive: &mut MockDrive) -> Result<SyncSummary, String> {
        let (run, request) = sync_push(&self.mirror);
        self.finish(drive, run, request)
    }

    fn pull(&mut self, drive: &mut MockDrive) -> Result<SyncSummary, String> {
        let (run, request) = sync_pull(&self.mirror);
        self.finish(drive, run, request)
    }

    fn two_way(&mut self, drive: &mut MockDrive) -> Result<SyncSummary, String> {
        let (run, request) = sync_two_way(&self.mirror);
        self.finish(drive, run, request)
    }

    fn finish<R: Run>(
        &mut self,
        drive: &mut MockDrive,
        run: R,
        request: Request,
    ) -> Result<SyncSummary, String> {
        let (mut run, mut request) = (run, request);
        loop {
            let reply = self.perform(drive, request)?;
            match run.step(reply).map_err(|error| error.message())? {
                Progress::Ask(next, further) => {
                    run = next;
                    request = further;
                }
                Progress::Done(summary) => return Ok(summary),
            }
        }
    }
}

/// A sync of one entry.
trait Run: Sized {
    fn step(self, reply: Reply) -> Result<Progress<Self, Request, SyncSummary>, SyncError>;
}

impl Run for Push {
    fn step(self, reply: Reply) -> Result<Progress<Self, Request, SyncSummary>, SyncError> {
        assert!(self.fits(&reply));
        self.next(reply)
    }
}

impl Run for Pull {
    fn step(self, reply: Reply) -> Result<Progress<Self, Request, SyncSummary>, SyncError> {
        self.next(reply)
    }
}

impl Run for TwoWay {
    fn step(self, reply: Reply) -> Result<Progress<Self, Request, SyncSummary>, SyncError> {
        assert!(self.fits(&reply));
        self.next(reply)
    }
}

fn config_of(sync: SyncConfig) -> Config {
    Config {
        proton_drive_bin: "proton-drive".to_owned(),
        optimize_cli_cache: true,
        notifications: true,
        state_db: None,
        success_file: None,
        syncs: vec![sync],
    }
}

#[test]
fn matching_remote_file_is_checkpointed_without_upload() {
    let mut fixture = Fixture::new();
    let path = fixture.write("already-there.txt", "same content");
    let mut drive = MockDrive::with_root(&fixture.mirror.remote);
    drive.files.insert(
        format!("{}/already-there.txt", fixture.mirror.remote),
        RemoteFile {
            uid: format!("uid:{}/already-there.txt", fixture.mirror.remote),
            sha1: sha1_text(fixture.read(&path).as_bytes()),
            claimed_size: fixture.read(&path).len() as u64,
        },
    );

    let summary = fixture.push(&mut drive).unwrap();

    assert_eq!(summary.matched_remote, 1);
    assert_eq!(summary.uploaded, 0);
    assert!(drive.uploads.is_empty());
}

#[test]
fn unchanged_file_uploads_only_once() {
    let mut fixture = Fixture::new();
    fixture.write("new.txt", "content");
    let mut drive = MockDrive::with_root(&fixture.mirror.remote);

    let first = fixture.push(&mut drive).unwrap();
    let second = fixture.push(&mut drive).unwrap();

    assert_eq!(first.uploaded, 1);
    assert_eq!(second.unchanged, 1);
    assert_eq!(drive.uploads.len(), 1);
}

#[test]
fn changed_metadata_with_same_digest_does_not_upload() {
    let mut fixture = Fixture::new();
    let path = fixture.write("touched.txt", "same");
    let mut drive = MockDrive::with_root(&fixture.mirror.remote);
    fixture.push(&mut drive).unwrap();
    let before = drive.uploads.len();

    let original = fixture.read(&path);
    fixture.rewrite(&path, &original);
    let summary = fixture.push(&mut drive).unwrap();

    assert_eq!(summary.matched_remote, 1);
    assert_eq!(drive.uploads.len(), before);
}

#[test]
fn changed_content_uploads_one_new_revision() {
    let mut fixture = Fixture::new();
    let path = fixture.write("changed.txt", "before");
    let mut drive = MockDrive::with_root(&fixture.mirror.remote);
    fixture.push(&mut drive).unwrap();

    fixture.rewrite(&path, "after with different size");
    let summary = fixture.push(&mut drive).unwrap();

    assert_eq!(summary.uploaded, 1);
    assert_eq!(drive.uploads.len(), 2);
}

#[test]
fn push_reconciles_files_in_bounded_batches_without_remote_info_calls() {
    let mut fixture = Fixture::new();
    for index in 0..(UPLOAD_BATCH_SIZE + 1) {
        fixture.write(&format!("file-{index:02}.txt"), "content");
    }
    let mut drive = MockDrive::with_root(&fixture.mirror.remote);

    let summary = fixture.push(&mut drive).unwrap();

    assert_eq!(summary.uploaded, UPLOAD_BATCH_SIZE + 1);
    assert_eq!(drive.info_calls, 0);
    assert_eq!(
        drive
            .upload_batches
            .iter()
            .map(Vec::len)
            .collect::<Vec<_>>(),
        vec![UPLOAD_BATCH_SIZE, 1]
    );
    assert_eq!(fixture.states.len(), UPLOAD_BATCH_SIZE + 1);
    assert!(fixture.states.values().all(|state| state.2.is_empty()));
}

#[test]
fn successful_files_are_checkpointed_when_a_batch_partially_fails() {
    let mut fixture = Fixture::new();
    fixture.write("good.txt", "uploaded");
    fixture.write("retry.txt", "retry later");
    let mut drive = MockDrive::with_root(&fixture.mirror.remote);
    drive.fail_upload_names.insert("retry.txt".to_owned());

    assert!(fixture.push(&mut drive).is_err());

    assert!(fixture.state("good.txt").is_some());
    assert!(fixture.state("retry.txt").is_none());
}

#[test]
fn failed_upload_prevents_remote_cleanup() {
    let mut fixture = Fixture::new();
    fixture.mirror.delete = DeletePolicy::Trash;
    let stale = fixture.write("keep-until-success.txt", "existing");
    let mut drive = MockDrive::with_root(&fixture.mirror.remote);
    fixture.push(&mut drive).unwrap();

    fixture.remove(&stale);
    fixture.write("retry.txt", "retry later");
    drive.fail_upload_names.insert("retry.txt".to_owned());

    assert!(fixture.push(&mut drive).is_err());
    assert!(drive.trashed.is_empty());
    assert!(drive
        .files
        .contains_key(&format!("{}/keep-until-success.txt", fixture.mirror.remote)));
}

#[test]
fn remote_cleanup_uses_bounded_batches() {
    let mut fixture = Fixture::new();
    fixture.mirror.delete = DeletePolicy::Trash;
    let mut paths = Vec::new();
    for index in 0..(TRASH_BATCH_SIZE + 1) {
        paths.push(fixture.write(&format!("file-{index:02}.txt"), "content"));
    }
    let mut drive = MockDrive::with_root(&fixture.mirror.remote);
    fixture.push(&mut drive).unwrap();
    for path in paths {
        fixture.remove(&path);
    }
    drive.trash_batches.clear();

    let summary = fixture.push(&mut drive).unwrap();

    assert_eq!(summary.trashed, TRASH_BATCH_SIZE + 1);
    assert_eq!(
        drive.trash_batches.iter().map(Vec::len).collect::<Vec<_>>(),
        vec![TRASH_BATCH_SIZE, 1]
    );
    assert!(fixture.states.is_empty());
}

#[test]
fn local_deletion_moves_managed_remote_file_to_trash() {
    let mut fixture = Fixture::new();
    fixture.mirror.delete = DeletePolicy::Trash;
    let path = fixture.write("remove.txt", "content");
    let mut drive = MockDrive::with_root(&fixture.mirror.remote);
    fixture.push(&mut drive).unwrap();
    fixture.remove(&path);

    let summary = fixture.push(&mut drive).unwrap();

    assert_eq!(summary.trashed, 1);
    assert_eq!(
        drive.trashed,
        vec![format!("{}/remove.txt", fixture.mirror.remote)]
    );
}

fn insert_unknown_file(drive: &mut MockDrive, fixture: &Fixture) {
    drive.files.insert(
        format!("{}/remote-only.txt", fixture.mirror.remote),
        RemoteFile {
            uid: format!("uid:{}/remote-only.txt", fixture.mirror.remote),
            sha1: "unknown".to_string(),
            claimed_size: 7,
        },
    );
}

#[test]
fn unknown_remote_file_is_not_trashed() {
    let mut fixture = Fixture::new();
    let mut drive = MockDrive::with_root(&fixture.mirror.remote);
    insert_unknown_file(&mut drive, &fixture);

    let summary = fixture.push(&mut drive).unwrap();

    assert_eq!(summary.trashed, 0);
    assert!(drive.trashed.is_empty());
}

#[test]
fn exact_mirror_trashes_untracked_remote_file_during_baseline() {
    let mut fixture = Fixture::new();
    fixture.mirror.delete = DeletePolicy::Trash;
    let mut drive = MockDrive::with_root(&fixture.mirror.remote);
    insert_unknown_file(&mut drive, &fixture);

    let summary = fixture.push(&mut drive).unwrap();

    assert_eq!(summary.trashed, 1);
    assert_eq!(
        drive.trashed,
        vec![format!("{}/remote-only.txt", fixture.mirror.remote)]
    );
}

#[test]
fn failed_upload_is_not_checkpointed() {
    let mut fixture = Fixture::new();
    fixture.write("retry.txt", "content");
    let mut drive = MockDrive::with_root(&fixture.mirror.remote);
    drive.fail_upload = true;

    let error = fixture.push(&mut drive).unwrap_err();
    assert_eq!(
        error,
        "1 uploads failed; first failure was retry.txt: simulated upload failure"
    );
    assert!(fixture.state("retry.txt").is_none());
}

#[test]
fn accepted_upload_with_failed_command_is_not_uploaded_again() {
    let mut fixture = Fixture::new();
    let path = fixture.write("ambiguous.txt", "before");
    let mut drive = MockDrive::with_root(&fixture.mirror.remote);
    fixture.push(&mut drive).unwrap();

    fixture.rewrite(&path, "after with different size");
    drive.fail_after_upload = true;
    assert!(fixture.push(&mut drive).is_err());
    assert_eq!(drive.uploads.len(), 2);

    drive.fail_after_upload = false;
    let summary = fixture.push(&mut drive).unwrap();

    assert_eq!(summary.matched_remote, 1);
    assert_eq!(summary.uploaded, 0);
    assert_eq!(drive.uploads.len(), 2);
}

#[test]
fn pull_downloads_remote_change_then_uses_checkpoint() {
    let mut fixture = Fixture::new();
    fixture.mirror.mode = SyncMode::Pull;
    let path = fixture.write("pulled.txt", "local old");
    let remote_path = format!("{}/pulled.txt", fixture.mirror.remote);
    let mut drive = MockDrive::with_root(&fixture.mirror.remote);
    drive.insert_file(remote_path.clone(), b"remote current");

    let first = fixture.pull(&mut drive).unwrap();
    let second = fixture.pull(&mut drive).unwrap();

    assert_eq!(fixture.read(&path), "remote current");
    assert_eq!(first.downloaded, 1);
    assert_eq!(second.unchanged, 1);
    assert_eq!(drive.downloads, vec![remote_path]);
}

#[test]
fn two_way_transfers_only_the_side_changed_since_checkpoint() {
    let mut fixture = Fixture::new();
    fixture.mirror.mode = SyncMode::TwoWay;
    let path = fixture.write("shared.txt", "initial");
    let remote_path = format!("{}/shared.txt", fixture.mirror.remote);
    let mut drive = MockDrive::with_root(&fixture.mirror.remote);
    fixture.two_way(&mut drive).unwrap();

    drive.insert_file(remote_path.clone(), b"remote edit");
    let pulled = fixture.two_way(&mut drive).unwrap();
    assert_eq!(pulled.downloaded, 1);
    assert_eq!(fixture.read(&path), "remote edit");

    fixture.rewrite(&path, "local edit");
    let pushed = fixture.two_way(&mut drive).unwrap();
    assert_eq!(pushed.uploaded, 1);
    assert_eq!(drive.contents[&remote_path], b"local edit");
}

#[test]
fn two_way_rebuilds_the_digest_omitted_by_push() {
    let mut fixture = Fixture::new();
    fixture.write("shared.txt", "content");
    let mut drive = MockDrive::with_root(&fixture.mirror.remote);
    fixture.push(&mut drive).unwrap();
    assert!(fixture.state("shared.txt").unwrap().2.is_empty());

    fixture.mirror.mode = SyncMode::TwoWay;
    let summary = fixture.two_way(&mut drive).unwrap();

    assert_eq!(summary.unchanged, 1);
    assert_eq!(drive.uploads.len(), 1);
    assert!(!fixture.state("shared.txt").unwrap().2.is_empty());
    assert_eq!(
        fixture.state("shared.txt").unwrap().2,
        "040f06fd774092478d450774f5ba30c5da78acc8"
    );
}

#[test]
fn two_way_detects_conflict_before_transfer() {
    let mut fixture = Fixture::new();
    fixture.mirror.mode = SyncMode::TwoWay;
    let path = fixture.write("conflict.txt", "initial");
    let remote_path = format!("{}/conflict.txt", fixture.mirror.remote);
    let mut drive = MockDrive::with_root(&fixture.mirror.remote);
    fixture.two_way(&mut drive).unwrap();
    let uploads_before = drive.uploads.len();

    fixture.rewrite(&path, "local edit");
    drive.insert_file(remote_path, b"remote edit");
    let error = fixture.two_way(&mut drive).unwrap_err();

    assert!(error.contains("two-way conflict"));
    assert_eq!(error, "two-way conflict at conflict.txt");
    assert_eq!(drive.uploads.len(), uploads_before);
    assert!(drive.downloads.is_empty());
}

#[test]
fn two_way_local_deletion_moves_remote_to_trash() {
    let mut fixture = Fixture::new();
    fixture.mirror.mode = SyncMode::TwoWay;
    fixture.mirror.delete = DeletePolicy::Trash;
    let path = fixture.write("deleted-locally.txt", "initial");
    let remote_path = format!("{}/deleted-locally.txt", fixture.mirror.remote);
    let mut drive = MockDrive::with_root(&fixture.mirror.remote);
    fixture.two_way(&mut drive).unwrap();
    fixture.remove(&path);

    let summary = fixture.two_way(&mut drive).unwrap();

    assert_eq!(summary.trashed, 1);
    assert_eq!(drive.trashed, vec![remote_path]);
}

#[test]
fn two_way_remote_deletion_plans_local_trash() {
    let mut fixture = Fixture::new();
    fixture.mirror.mode = SyncMode::TwoWay;
    fixture.mirror.delete = DeletePolicy::Trash;
    let path = fixture.write("deleted-remotely.txt", "initial");
    let remote_path = format!("{}/deleted-remotely.txt", fixture.mirror.remote);
    let mut drive = MockDrive::with_root(&fixture.mirror.remote);
    fixture.two_way(&mut drive).unwrap();
    drive.files.remove(&remote_path);
    drive.contents.remove(&remote_path);

    let mut states = PathMap::new();
    let (size, mtime_ns, sha1) = fixture.state("deleted-remotely.txt").unwrap().clone();
    states.insert(
        "deleted-remotely.txt".to_owned(),
        FileState {
            size,
            mtime_ns,
            sha1,
        },
    );
    let (content, modified) = fixture.disk[&path].clone();
    let file = local_file(
        "deleted-remotely.txt",
        FileStat {
            size: content.len() as u64,
            modified: Some((modified, 0)),
        },
    )
    .unwrap();
    let sha1 = sha1_text(&content);
    let mut local = PathMap::new();
    local.insert(file.relative.clone(), LocalSnapshot { file, sha1 });
    let actions = plan_two_way(&fixture.mirror, &local, &PathMap::new(), &states).unwrap();

    assert_eq!(
        actions,
        vec![TwoWayAction::TrashLocal {
            path: "deleted-remotely.txt".to_string()
        }]
    );
}

#[test]
fn missing_ready_marker_blocks_sync_before_remote_changes() {
    let mut fixture = Fixture::new();
    let marker = format!("{}/.ready", fixture.local);
    fixture.remove(&marker);
    fixture.write("local.txt", "content");
    let mut drive = MockDrive::with_root(&fixture.mirror.remote);

    let error = fixture.push(&mut drive).unwrap_err();
    assert_eq!(error, "readiness marker is missing: /tmp/stuff/.ready");
    assert!(drive.uploads.is_empty());
    assert!(drive.trashed.is_empty());
}

#[test]
fn excluded_paths_are_not_read_or_trashed() {
    let mut fixture = Fixture::new();
    fixture.mirror.delete = DeletePolicy::Trash;
    fixture.mirror.exclude = vec!["private/**".to_owned()];
    fixture.write("private/secret.img", "secret");
    let remote_path = format!("{}/private/secret.img", fixture.mirror.remote);
    let mut drive = MockDrive::with_root(&fixture.mirror.remote);
    drive
        .directories
        .insert(format!("{}/private", fixture.mirror.remote));
    drive.insert_file(remote_path.clone(), b"remote secret");

    let summary = fixture.push(&mut drive).unwrap();

    assert_eq!(summary.scanned, 0);
    assert!(!drive.trashed.contains(&remote_path));
}

#[test]
fn invalid_exclude_pattern_is_rejected() {
    let mut fixture = Fixture::new();
    fixture.mirror.exclude = vec!["[".to_owned()];
    let config = config_of(fixture.mirror);

    let error = validate_config(&config).unwrap_err();
    assert_eq!(
        error.message(),
        "sync stuff has invalid exclude pattern \"[\": \
         error parsing glob '[': unclosed character class; missing ']'"
    );
}

#[test]
fn checkpoints_use_bounded_transactions() {
    let mut checkpoints = CheckpointBatch::new();
    let mut transactions = Vec::new();

    for index in 0..(CHECKPOINT_BATCH_SIZE * 2 + 1) {
        transactions.extend(checkpoints.push(
            "stuff",
            &format!("file-{index}"),
            index as u64,
            index as i64,
            "digest",
        ));
    }
    transactions.extend(checkpoints.flush());

    let count: usize = transactions.iter().map(Vec::len).sum();
    assert_eq!(count, CHECKPOINT_BATCH_SIZE * 2 + 1);
    assert_eq!(transactions.len(), 3);
    assert!(checkpoints.flush().is_none());
    assert_eq!(transactions[2][0].path, "file-512");
    assert_eq!(transactions[2][0].mirror, "stuff");
    assert_eq!(transactions[2][0].size, 512);
    assert_eq!(transactions[2][0].mtime_ns, 512);
    assert_eq!(transactions[2][0].sha1, "digest");
}

#[test]
fn pushed_folders_are_made_once_and_remembered() {
    let mut fixture = Fixture::new();
    fixture.write("a/b/one.txt", "one");
    fixture.write("a/two.txt", "two");
    let mut drive = MockDrive::with_root(&fixture.mirror.remote);

    let summary = fixture.push(&mut drive).unwrap();

    assert_eq!(summary.scanned, 2);
    assert_eq!(summary.uploaded, 2);
    assert_eq!(
        drive.uploads,
        vec![
            format!("{}/a/two.txt", fixture.mirror.remote),
            format!("{}/a/b/one.txt", fixture.mirror.remote),
        ]
    );
    assert_eq!(drive.info_calls, 2);
    assert!(drive
        .directories
        .contains(&format!("{}/a/b", fixture.mirror.remote)));

    fixture.write("a/b/three.txt", "three");
    fixture.push(&mut drive).unwrap();
    assert_eq!(drive.info_calls, 2);
}

#[test]
fn a_file_in_the_place_of_a_folder_stops_a_push() {
    let mut fixture = Fixture::new();
    fixture.write("a/one.txt", "one");
    let mut drive = MockDrive::with_root(&fixture.mirror.remote);
    drive.insert_file(format!("{}/a", fixture.mirror.remote), b"not a folder");

    assert_eq!(
        fixture.push(&mut drive).unwrap_err(),
        "remote path exists but is not a folder: /my-files/Desktop/stuff/a"
    );
    assert!(drive.uploads.is_empty());
}

#[test]
fn push_keeps_remote_files_that_it_is_not_told_to_trash() {
    let mut fixture = Fixture::new();
    let path = fixture.write("gone.txt", "content");
    let mut drive = MockDrive::with_root(&fixture.mirror.remote);
    fixture.push(&mut drive).unwrap();
    fixture.remove(&path);

    let summary = fixture.push(&mut drive).unwrap();

    assert_eq!(summary.trashed, 0);
    assert!(drive.trashed.is_empty());
    assert!(fixture.state("gone.txt").is_none());
    assert!(drive
        .files
        .contains_key(&format!("{}/gone.txt", fixture.mirror.remote)));
}

#[test]
fn a_trash_failure_is_reported_and_its_state_is_kept() {
    let mut fixture = Fixture::new();
    fixture.mirror.delete = DeletePolicy::Trash;
    fixture.write("one.txt", "one");
    let mut drive = MockDrive::with_root(&fixture.mirror.remote);
    fixture.push(&mut drive).unwrap();

    let (run, request) = sync_push(&fixture.mirror);
    let (mut run, mut request) = (run, request);
    let path = format!("{}/one.txt", fixture.local);
    fixture.remove(&path);
    let error = loop {
        let reply = match request {
            Request::TrashRemote { targets } => Reply::Trashed(TrashBatchResult {
                succeeded_uids: Vec::new(),
                failed_uids: targets.into_iter().map(|target| target.uid).collect(),
            }),
            other => fixture.perform(&mut drive, other).unwrap(),
        };
        assert!(run.fits(&reply));
        match run.next(reply) {
            Ok(Progress::Ask(next, further)) => {
                run = next;
                request = further;
            }
            Ok(Progress::Done(_)) => panic!("the push was to fail"),
            Err(error) => break error,
        }
    };
    assert_eq!(
        error.message(),
        "1 remote files could not be moved to trash"
    );
    assert!(fixture.state("one.txt").is_some());
}

#[test]
fn pull_trashes_local_files_only_when_told_to() {
    let mut fixture = Fixture::new();
    fixture.mirror.mode = SyncMode::Pull;
    let path = fixture.write("local-only.txt", "content");
    let mut drive = MockDrive::with_root(&fixture.mirror.remote);

    let kept = fixture.pull(&mut drive).unwrap();
    assert_eq!(kept.trashed_local, 0);
    assert!(fixture.trashed_local.is_empty());

    fixture.mirror.delete = DeletePolicy::Trash;
    let trashed = fixture.pull(&mut drive).unwrap();
    assert_eq!(trashed.trashed_local, 1);
    assert_eq!(fixture.trashed_local, vec![path]);
}

#[test]
fn pull_checkpoints_in_bounded_transactions() {
    let mut fixture = Fixture::new();
    fixture.mirror.mode = SyncMode::Pull;
    let mut drive = MockDrive::with_root(&fixture.mirror.remote);
    for index in 0..(CHECKPOINT_BATCH_SIZE + 1) {
        drive.insert_file(
            format!("{}/file-{index:03}.txt", fixture.mirror.remote),
            b"content",
        );
    }

    let summary = fixture.pull(&mut drive).unwrap();

    assert_eq!(summary.downloaded, CHECKPOINT_BATCH_SIZE + 1);
    assert_eq!(fixture.commits, 2);
    assert_eq!(fixture.states.len(), CHECKPOINT_BATCH_SIZE + 1);
    assert_eq!(drive.released_sessions, 1);
}

#[test]
fn a_download_with_the_wrong_content_is_not_installed() {
    let mut fixture = Fixture::new();
    fixture.mirror.mode = SyncMode::Pull;
    let path = fixture.write("pulled.txt", "old");
    let remote_path = format!("{}/pulled.txt", fixture.mirror.remote);
    let mut drive = MockDrive::with_root(&fixture.mirror.remote);
    drive.insert_file(remote_path.clone(), b"current");

    drive
        .contents
        .insert(remote_path.clone(), b"currenT".to_vec());
    assert_eq!(
        fixture.pull(&mut drive).unwrap_err(),
        "downloaded SHA-1 mismatch for pulled.txt"
    );
    drive.contents.insert(remote_path, b"longer one".to_vec());
    assert_eq!(
        fixture.pull(&mut drive).unwrap_err(),
        "downloaded size mismatch for pulled.txt: expected 7, got 10"
    );
    assert_eq!(fixture.read(&path), "old");
    assert!(fixture.state("pulled.txt").is_none());
}

#[test]
fn two_way_conflicts_follow_the_policy() {
    let mut fixture = Fixture::new();
    fixture.mirror.mode = SyncMode::TwoWay;
    let path = fixture.write("both.txt", "initial");
    let remote_path = format!("{}/both.txt", fixture.mirror.remote);
    let mut drive = MockDrive::with_root(&fixture.mirror.remote);
    fixture.two_way(&mut drive).unwrap();

    fixture.rewrite(&path, "local edit");
    drive.insert_file(remote_path.clone(), b"remote edit");
    fixture.mirror.conflict = ConflictPolicy::LocalWins;
    assert_eq!(fixture.two_way(&mut drive).unwrap().uploaded, 1);
    assert_eq!(drive.contents[&remote_path], b"local edit");

    fixture.rewrite(&path, "local again");
    drive.insert_file(remote_path, b"remote again");
    fixture.mirror.conflict = ConflictPolicy::RemoteWins;
    assert_eq!(fixture.two_way(&mut drive).unwrap().downloaded, 1);
    assert_eq!(fixture.read(&path), "remote again");
}

#[test]
fn two_way_copies_missing_files_back_when_nothing_is_to_be_trashed() {
    let mut fixture = Fixture::new();
    fixture.mirror.mode = SyncMode::TwoWay;
    let path = fixture.write("kept.txt", "content");
    let remote_path = format!("{}/kept.txt", fixture.mirror.remote);
    let mut drive = MockDrive::with_root(&fixture.mirror.remote);
    fixture.two_way(&mut drive).unwrap();

    fixture.remove(&path);
    assert_eq!(fixture.two_way(&mut drive).unwrap().downloaded, 1);
    assert_eq!(fixture.read(&path), "content");

    drive.files.remove(&remote_path);
    drive.contents.remove(&remote_path);
    assert_eq!(fixture.two_way(&mut drive).unwrap().uploaded, 1);
    assert_eq!(drive.contents[&remote_path], b"content");
}

#[test]
fn two_way_remote_deletion_trashes_the_unchanged_local_file() {
    let mut fixture = Fixture::new();
    fixture.mirror.mode = SyncMode::TwoWay;
    fixture.mirror.delete = DeletePolicy::Trash;
    let path = fixture.write("gone.txt", "content");
    let remote_path = format!("{}/gone.txt", fixture.mirror.remote);
    let mut drive = MockDrive::with_root(&fixture.mirror.remote);
    fixture.two_way(&mut drive).unwrap();
    drive.files.remove(&remote_path);

    fixture.rewrite(&path, "changed");
    assert_eq!(
        fixture.two_way(&mut drive).unwrap_err(),
        "two-way conflict at gone.txt"
    );
    fixture.rewrite(&path, "content");
    let summary = fixture.two_way(&mut drive).unwrap();
    assert_eq!(summary.trashed_local, 1);
    assert_eq!(fixture.trashed_local, vec![path]);
    assert!(fixture.state("gone.txt").is_none());
}

#[test]
fn a_plan_decides_path_by_path() {
    let mut sync = Fixture::new().mirror;
    sync.mode = SyncMode::TwoWay;
    let snapshot = |path: &str, sha1: &str| LocalSnapshot {
        file: LocalFile {
            relative: path.to_owned(),
            size: 1,
            mtime_ns: 0,
        },
        sha1: sha1.to_owned(),
    };
    let remote_file = |sha1: &str| RemoteFile {
        uid: "uid".to_owned(),
        sha1: sha1.to_owned(),
        claimed_size: 1,
    };
    let state = |sha1: &str| FileState {
        size: 1,
        mtime_ns: 0,
        sha1: sha1.to_owned(),
    };
    let mut local = PathMap::new();
    local.insert("same".to_owned(), snapshot("same", "AA"));
    local.insert("edited".to_owned(), snapshot("edited", "bb"));
    local.insert("stale".to_owned(), snapshot("stale", "aa"));
    local.insert("new".to_owned(), snapshot("new", "cc"));
    let mut remote = PathMap::new();
    remote.insert("same".to_owned(), remote_file("aa"));
    remote.insert("edited".to_owned(), remote_file("aa"));
    remote.insert("stale".to_owned(), remote_file("dd"));
    remote.insert("theirs".to_owned(), remote_file("ee"));
    let mut states = PathMap::new();
    states.insert("edited".to_owned(), state("AA"));
    states.insert("stale".to_owned(), state("aa"));
    states.insert("forgotten".to_owned(), state("aa"));

    let actions = plan_two_way(&sync, &local, &remote, &states).unwrap();

    assert_eq!(
        actions,
        vec![
            TwoWayAction::Upload {
                path: "edited".to_owned(),
                sha1: "bb".to_owned()
            },
            TwoWayAction::Upload {
                path: "new".to_owned(),
                sha1: "cc".to_owned()
            },
            TwoWayAction::Checkpoint {
                path: "same".to_owned(),
                sha1: "AA".to_owned()
            },
            TwoWayAction::Download {
                path: "stale".to_owned()
            },
            TwoWayAction::Download {
                path: "theirs".to_owned()
            },
        ]
    );
}

#[test]
fn a_missing_local_root_stops_every_mode() {
    for mode in [SyncMode::Push, SyncMode::Pull, SyncMode::TwoWay] {
        let mut fixture = Fixture::new();
        fixture.mirror.mode = mode;
        fixture.mirror.local = "/tmp/elsewhere".to_owned();
        let mut drive = MockDrive::with_root(&fixture.mirror.remote);
        let outcome = match mode {
            SyncMode::Push => fixture.push(&mut drive),
            SyncMode::Pull => fixture.pull(&mut drive),
            SyncMode::TwoWay => fixture.two_way(&mut drive),
        };
        assert_eq!(
            outcome.unwrap_err(),
            "local root is missing: /tmp/elsewhere"
        );
    }
}

#[test]
fn every_entry_of_a_configuration_is_synced_in_order() {
    let mut fixture = Fixture::new();
    fixture.write("one.txt", "one");
    let mut drive = MockDrive::with_root(&fixture.mirror.remote);
    let mut second = fixture.mirror.clone();
    second.name = "back".to_owned();
    second.mode = SyncMode::Pull;
    let mut config = config_of(fixture.mirror.clone());
    config.syncs.push(second);

    let mut progress = sync_all(&config).unwrap();
    let summaries = loop {
        match progress {
            Progress::Ask(run, request) => {
                let reply = fixture.perform(&mut drive, request).unwrap();
                assert!(run.fits(&reply));
                progress = run.next(reply).unwrap();
            }
            Progress::Done(summaries) => break summaries,
        }
    };

    assert_eq!(summaries.entries.len(), 2);
    assert_eq!(summaries.entries[0].0, "stuff");
    assert_eq!(summaries.entries[0].1.uploaded, 1);
    assert_eq!(summaries.entries[1].0, "back");
    assert_eq!(summaries.entries[1].1.unchanged, 1);
}

#[test]
fn a_failed_entry_is_named() {
    let mut fixture = Fixture::new();
    let marker = format!("{}/.ready", fixture.local);
    fixture.remove(&marker);
    let mut drive = MockDrive::with_root(&fixture.mirror.remote);
    let config = config_of(fixture.mirror.clone());

    let mut progress = sync_all(&config).unwrap();
    let error = loop {
        match progress {
            Progress::Ask(run, request) => {
                let reply = fixture.perform(&mut drive, request).unwrap();
                assert!(run.fits(&reply));
                progress = match run.next(reply) {
                    Ok(progress) => progress,
                    Err(error) => break error,
                };
            }
            Progress::Done(_) => panic!("the sync was to fail"),
        }
    };
    assert_eq!(
        error.message(),
        "sync stuff failed: readiness marker is missing: /tmp/stuff/.ready"
    );
}

#[test]
fn an_unexpected_reply_is_refused() {
    let fixture = Fixture::new();
    let (run, request) = sync_push(&fixture.mirror);
    assert!(matches!(request, Request::IsDirectory { path } if path == "/tmp/stuff"));
    let Err(error) = run.next(Reply::Done) else {
        panic!("the reply was to be refused");
    };
    assert_eq!(error.message(), "a request was answered with something else");
}

#[test]
fn a_count_that_leaves_its_range_is_noticed() {
    let mut fixture = Fixture::new();
    fixture.write("a/one.txt", "one");
    fixture.write("b/two.txt", "two");
    let mut drive = MockDrive::with_root(&fixture.mirror.remote);
    let (mut run, mut request) = sync_push(&fixture.mirror);
    let mut batches = 0;
    loop {
        let reply = match request {
            Request::Upload { .. } => {
                batches += 1;
                Reply::Uploaded(UploadBatchResult {
                    transferred_items: usize::MAX,
                    ..UploadBatchResult::default()
                })
            }
            other => fixture.perform(&mut drive, other).unwrap(),
        };
        if !run.fits(&reply) {
            break;
        }
        match run.next(reply).unwrap() {
            Progress::Ask(next, further) => {
                run = next;
                request = further;
            }
            Progress::Done(_) => panic!("the counts were to overflow"),
        }
    }
    assert_eq!(batches, 2);
}

#[test]
fn folders_without_files_are_not_made() {
    let mut fixture = Fixture::new();
    fixture.mirror.exclude = vec!["*.tmp".to_owned()];
    fixture.write("scratch/deep/only.tmp", "skipped");
    fixture.write("kept/file.txt", "kept");
    let mut drive = MockDrive::with_root(&fixture.mirror.remote);

    fixture.push(&mut drive).unwrap();

    assert_eq!(
        drive.directories.iter().collect::<Vec<_>>(),
        vec![
            &fixture.mirror.remote,
            &format!("{}/kept", fixture.mirror.remote)
        ]
    );
}

#[test]
fn a_two_way_sync_leaves_nothing_to_do() {
    let mut fixture = Fixture::new();
    fixture.mirror.mode = SyncMode::TwoWay;
    fixture.mirror.delete = DeletePolicy::Trash;
    fixture.mirror.conflict = ConflictPolicy::LocalWins;
    fixture.write("mine.txt", "mine");
    let both = fixture.write("both.txt", "same");
    let mut drive = MockDrive::with_root(&fixture.mirror.remote);
    drive.insert_file(format!("{}/theirs.txt", fixture.mirror.remote), b"theirs");
    fixture.two_way(&mut drive).unwrap();
    fixture.rewrite(&both, "changed here");
    drive.insert_file(
        format!("{}/both.txt", fixture.mirror.remote),
        b"changed there",
    );
    drive
        .files
        .remove(&format!("{}/theirs.txt", fixture.mirror.remote));
    let first = fixture.two_way(&mut drive).unwrap();
    assert_eq!(
        (first.uploaded, first.downloaded, first.trashed_local),
        (1, 0, 1)
    );

    let (states, uploads) = (fixture.states.clone(), drive.uploads.len());
    let (downloads, trashed) = (drive.downloads.len(), drive.trashed.len());
    for (delete, conflict) in [
        (DeletePolicy::Trash, ConflictPolicy::LocalWins),
        (DeletePolicy::Keep, ConflictPolicy::RemoteWins),
        (DeletePolicy::Trash, ConflictPolicy::Fail),
    ] {
        fixture.mirror.delete = delete;
        fixture.mirror.conflict = conflict;
        let second = fixture.two_way(&mut drive).unwrap();

        assert_eq!(second.unchanged, 2);
        assert_eq!(second.scanned, 2);
        assert_eq!(second.uploaded + second.matched_remote, 0);
        assert_eq!(second.downloaded, 0);
        assert_eq!(second.trashed + second.trashed_local, 0);
        assert_eq!(fixture.states, states);
        assert_eq!(drive.uploads.len(), uploads);
        assert_eq!(drive.downloads.len(), downloads);
        assert_eq!(drive.trashed.len(), trashed);
    }
}

#[test]
fn every_remote_change_is_pulled() {
    let mut fixture = Fixture::new();
    fixture.mirror.mode = SyncMode::Pull;
    fixture.mirror.delete = DeletePolicy::Trash;
    fixture.mirror.exclude = vec!["kept/**".to_owned()];
    fixture.write("same.txt", "same");
    let stale = fixture.write("stale.txt", "stale");
    let gone = fixture.write("gone.txt", "gone");
    let kept = fixture.write("kept/local.txt", "kept");
    let mut drive = MockDrive::with_root(&fixture.mirror.remote);
    let root = fixture.mirror.remote.clone();
    drive.directories.insert(format!("{root}/new"));
    drive.directories.insert(format!("{root}/kept"));
    drive.insert_file(format!("{root}/same.txt"), b"same");
    drive.insert_file(format!("{root}/stale.txt"), b"fresh");
    drive.insert_file(format!("{root}/new/file.txt"), b"new");
    drive.insert_file(format!("{root}/kept/remote.txt"), b"kept");

    let summary = fixture.pull(&mut drive).unwrap();

    assert_eq!(summary.unchanged, 1);
    assert_eq!(summary.downloaded, 2);
    assert_eq!(fixture.trashed_local, vec![gone]);
    assert_eq!(fixture.read(&stale), "fresh");
    assert_eq!(
        fixture.read(&format!("{}/new/file.txt", fixture.local)),
        "new"
    );
    assert_eq!(fixture.read(&kept), "kept");
    assert!(!fixture
        .disk
        .contains_key(&format!("{}/kept/remote.txt", fixture.local)));
}
