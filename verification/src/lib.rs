//! Scheduled folder sync on top of the Proton Drive command line client.
//!
//! An entry of the configuration names a local folder and a folder on the drive, and is pushed,
//! pulled or synced in both directions. This library decides everything that such a sync does. It
//! touches neither disk, database, drive nor clock: a sync is a value that asks for one thing at a
//! time (`exchange::Request`) and is stepped with the answer (`exchange::Reply`) until it is done
//! or has failed. The program around it performs the requests.
//!
//! Every step is specified as a function on views, so whole runs can be reasoned about. `world`
//! says what there is on disk and on the drive, in words of its own; `scan_laws`, `inventory_laws`,
//! `plan_laws`, `push_outcomes`, `pull_outcomes` and `two_way_outcomes` say what a run that is
//! answered truly finds there and does about it. `push_laws`, `pull_laws`, `two_way_laws`,
//! `upload_laws`, `completeness`, `integrity`, `restraint`, `frugality`, `memory`, `limits`,
//! `record_laws` and `summary_laws` state what holds of every run, whatever it is answered,
//! `failure_laws` why one fails, and `second_sync` what holds of one run after another. `sync_laws`
//! is about all entries in turn, and `place_laws`, `config_laws`, `directory_laws`, `report_laws`
//! and `client_laws` about the parts.
//!
//! - Configuration: `config`, `excludes`, `entries`, `places`.
//! - Texts and paths: `text`, `paths`, `path_map`, `quoting`, `batches`.
//! - The drive and its client: `drive`, `cli`, `prompt`, `cache`.
//! - Parts of a sync: `readiness`, `scan`, `inventory`, `directories`, `uploads`, `download`,
//!   `fetch`, `commits`, `cleanup`, `removal`, `state`, `digest`, `summary`.
//! - Syncs: `push`, `pull`, `plan` and `two_way`, and all entries in turn: `sync`.
//! - The service around it: `service`, `interval`, `notify`.
//! - How runs are reasoned about: `trace`, `soundness`, `findings`, `work_laws`.

pub mod batches;
pub mod cache;
pub mod cleanup;
pub mod cli;
pub mod client_laws;
pub mod commits;
pub mod completeness;
pub mod config;
pub mod config_laws;
pub mod digest;
pub mod directories;
pub mod directory_laws;
pub mod download;
pub mod drive;
pub mod entries;
pub mod error;
pub mod exchange;
pub mod excludes;
pub mod failure_laws;
pub mod fetch;
pub mod findings;
pub mod frugality;
pub mod integrity;
pub mod interval;
pub mod inventory;
pub mod inventory_laws;
pub mod limits;
pub mod memory;
pub mod notify;
pub mod path_map;
pub mod paths;
pub mod place_laws;
pub mod places;
pub mod plan;
pub mod plan_laws;
pub mod prompt;
pub mod pull;
pub mod pull_laws;
pub mod pull_outcomes;
pub mod push;
pub mod push_laws;
pub mod push_outcomes;
pub mod quoting;
pub mod readiness;
pub mod record_laws;
pub mod removal;
pub mod report_laws;
pub mod restraint;
pub mod scan;
pub mod scan_laws;
pub mod second_sync;
pub mod service;
pub mod soundness;
pub mod state;
pub mod summary;
pub mod summary_laws;
pub mod sync;
pub mod sync_laws;
pub mod text;
pub mod trace;
pub mod two_way;
pub mod two_way_laws;
pub mod two_way_outcomes;
pub mod upload_laws;
pub mod uploads;
pub mod work_laws;
pub mod world;

pub use cache::{optimize_cli_cache, optimize_cli_cache_dir};
pub use config::{validate_config, Config, ConflictPolicy, DeletePolicy, SyncConfig, SyncMode};
pub use drive::{DriveClient, RemoteDigests, RemoteFile, RemoteNode, RemoteRevision, ResultValue};
pub use drive::{TrashBatchResult, TrashTarget, UploadBatchResult, UploadFailure};
pub use error::SyncError;
pub use exchange::{Progress, Reply, Request};
pub use places::{default_config_path, default_state_dir, resolved_state_paths};
pub use pull::sync_pull;
pub use push::sync_push;
pub use summary::SyncSummary;
pub use sync::sync_all;
pub use two_way::sync_two_way;
