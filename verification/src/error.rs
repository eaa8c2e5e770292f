//! What can go wrong, and how it is worded.

use crate::text::{decimal, decimal_text};
use vstd::prelude::*;

verus! {

/// A fault, over the type of its texts.
#[derive(Debug)]
pub enum Fault<T> {
    /// The configuration has no entries.
    NoSyncs,
    /// An entry has a blank name.
    EmptyName,
    /// Two entries share a name.
    DuplicateName { name: T },
    /// The remote path of an entry is not absolute, or is the root.
    BadRemote { name: T },
    /// The readiness marker of an entry is an absolute path.
    AbsoluteMarker { name: T },
    /// An exclude pattern of an entry is not a glob.
    BadPattern { name: T, pattern: T, error: T },
    /// The exclude patterns of an entry cannot be used together.
    BadExcludes { name: T, error: T },
    /// Entries asked for that are not configured.
    UnknownSyncs { names: T },
    /// The local root is not a directory.
    RootMissing { root: T },
    /// The readiness marker is not there.
    MarkerMissing { marker: T },
    /// Both sides of a path changed.
    Conflict { path: T },
    /// A conflict was to be resolved for a path that neither side has.
    NoSide,
    /// A local path is not valid UTF-8.
    LocalNotUtf8,
    /// A file was modified before the Unix epoch.
    BeforeEpoch,
    /// A modification time that the state database cannot hold.
    MtimeRange,
    /// A remote path that should be a folder is something else.
    NotFolder { remote: T },
    /// A downloaded file has the wrong size.
    SizeMismatch { path: T, expected: u64, got: u64 },
    /// A downloaded file has the wrong content.
    DigestMismatch { path: T },
    /// A path to download to has no file name.
    DownloadNoName,
    /// Some uploads failed.
    UploadsFailed { count: usize, name: T, error: T },
    /// Some remote files could not be moved to trash.
    TrashFailed { count: usize },
    /// A path to upload has no file name that is valid UTF-8.
    UploadNoName,
    /// An upload batch names a file twice.
    UploadDuplicate { name: T },
    /// The counts of an upload reply do not add up.
    UploadCounts { files: usize, transferred: usize, skipped: usize, failed: usize, details: usize },
    /// An upload reply names a file that was not in the batch.
    UploadUnknown { name: T },
    /// An upload reply names a failed file twice.
    UploadRepeated { name: T },
    /// A download reply does not report one transfer.
    DownloadCounts { transferred: usize, failed: usize },
    /// A trash batch names a node twice.
    TrashDuplicate,
    /// A trash reply has the wrong number of results.
    TrashCounts { results: usize, targets: usize },
    /// A trash reply names a node that was not in the batch.
    TrashUnknown,
    /// A trash reply names a node twice.
    TrashRepeated,
    /// The command line client failed.
    CommandFailed { error: T },
    /// An argument that the client's prompt cannot take.
    NewlineArgument,
    /// A cache database that stays out of write-ahead mode.
    WalRejected { path: T, mode: T },
    /// The home directory is not known.
    NoHome,
    /// An interval of no length.
    ZeroDuration,
    /// An interval that cannot be read.
    BadDuration { error: T },
    /// No service manager answers.
    NoServiceManager,
    /// The service is not healthy.
    Unhealthy { manager: T },
    /// An entry failed.
    SyncFailed { name: T, fault: Box<Fault<T>> },
    /// A run was answered something that it did not ask for.
    UnexpectedReply,
    /// The drive reported an error.
    Drive { error: T },
}

/// A fault with owned texts.
pub type SyncError = Fault<String>;

impl Fault<String> {
    /// The fault with every text that it carries.
    pub open spec fn texts(self) -> Fault<Seq<char>>
        decreases self,
    {
        match self {
            Fault::NoSyncs => Fault::NoSyncs,
            Fault::EmptyName => Fault::EmptyName,
            Fault::DuplicateName { name } => Fault::DuplicateName { name: name@ },
            Fault::BadRemote { name } => Fault::BadRemote { name: name@ },
            Fault::AbsoluteMarker { name } => Fault::AbsoluteMarker { name: name@ },
            Fault::BadPattern { name, pattern, error } => Fault::BadPattern {
                name: name@,
                pattern: pattern@,
                error: error@,
            },
            Fault::BadExcludes { name, error } => Fault::BadExcludes {
                name: name@,
                error: error@,
            },
            Fault::UnknownSyncs { names } => Fault::UnknownSyncs { names: names@ },
            Fault::RootMissing { root } => Fault::RootMissing { root: root@ },
            Fault::MarkerMissing { marker } => Fault::MarkerMissing { marker: marker@ },
            Fault::Conflict { path } => Fault::Conflict { path: path@ },
            Fault::NoSide => Fault::NoSide,
            Fault::LocalNotUtf8 => Fault::LocalNotUtf8,
            Fault::BeforeEpoch => Fault::BeforeEpoch,
            Fault::MtimeRange => Fault::MtimeRange,
            Fault::NotFolder { remote } => Fault::NotFolder { remote: remote@ },
            Fault::SizeMismatch { path, expected, got } => Fault::SizeMismatch {
                path: path@,
                expected,
                got,
            },
            Fault::DigestMismatch { path } => Fault::DigestMismatch { path: path@ },
            Fault::DownloadNoName => Fault::DownloadNoName,
            Fault::UploadsFailed { count, name, error } => Fault::UploadsFailed {
                count,
                name: name@,
                error: error@,
            },
            Fault::TrashFailed { count } => Fault::TrashFailed { count },
            Fault::UploadNoName => Fault::UploadNoName,
            Fault::UploadDuplicate { name } => Fault::UploadDuplicate { name: name@ },
            Fault::UploadCounts { files, transferred, skipped, failed, details } => {
                Fault::UploadCounts { files, transferred, skipped, failed, details }
            },
            Fault::UploadUnknown { name } => Fault::UploadUnknown { name: name@ },
            Fault::UploadRepeated { name } => Fault::UploadRepeated { name: name@ },
            Fault::DownloadCounts { transferred, failed } => Fault::DownloadCounts {
                transferred,
                failed,
            },
            Fault::TrashDuplicate => Fault::TrashDuplicate,
            Fault::TrashCounts { results, targets } => Fault::TrashCounts { results, targets },
            Fault::TrashUnknown => Fault::TrashUnknown,
            Fault::TrashRepeated => Fault::TrashRepeated,
            Fault::CommandFailed { error } => Fault::CommandFailed { error: error@ },
            Fault::NewlineArgument => Fault::NewlineArgument,
            Fault::WalRejected { path, mode } => Fault::WalRejected { path: path@, mode: mode@ },
            Fault::NoHome => Fault::NoHome,
            Fault::ZeroDuration => Fault::ZeroDuration,
            Fault::BadDuration { error } => Fault::BadDuration { error: error@ },
            Fault::NoServiceManager => Fault::NoServiceManager,
            Fault::Unhealthy { manager } => Fault::Unhealthy { manager: manager@ },
            Fault::SyncFailed { name, fault } => Fault::SyncFailed {
                name: name@,
                fault: Box::new(fault.texts()),
            },
            Fault::UnexpectedReply => Fault::UnexpectedReply,
            Fault::Drive { error } => Fault::Drive { error: error@ },
        }
    }
}

impl Fault<Seq<char>> {
    /// The fault without the reason that `globset` gives for a list of patterns that it cannot
    /// build. Which of several reasons it gives may depend on the order in which a hash map is
    /// walked; everything else about a fault is a matter of what was asked.
    pub open spec fn without_reason(self) -> Fault<Seq<char>>
        decreases self,
    {
        match self {
            Fault::BadExcludes { name, .. } => Fault::BadExcludes { name, error: Seq::empty() },
            Fault::SyncFailed { name, fault } => Fault::SyncFailed {
                name,
                fault: Box::new(fault.without_reason()),
            },
            _ => self,
        }
    }
}

impl View for Fault<String> {
    type V = Fault<Seq<char>>;

    open spec fn view(&self) -> Fault<Seq<char>> {
        self.texts().without_reason()
    }
}

/// The view of a result: the views of its value and of its fault.
pub open spec fn outcome<T: View>(r: Result<T, SyncError>) -> Result<T::V, Fault<Seq<char>>> {
    match r {
        Ok(value) => Ok(value@),
        Err(error) => Err(error@),
    }
}

/// A text as the `Debug` format of `str` writes it.
pub uninterp spec fn debug_text(text: Seq<char>) -> Seq<char>;

/// `format!` with the `Debug` format of `str`: the text in quotes, with escapes where they are
/// needed. Which characters are escaped is left to the standard library; the result depends on
/// the text alone.
#[verifier::external_body]
fn quoted_for_debug(text: &str) -> (r: String)
    ensures
        r@ == debug_text(text@),
{
    format!("{text:?}")
}

impl Fault<Seq<char>> {
    /// How a fault is worded.
    pub open spec fn wording(self) -> Seq<char>
        decreases self,
    {
        match self {
            Fault::NoSyncs => "configuration has no [[sync]] entries"@,
            Fault::EmptyName => "sync name cannot be empty"@,
            Fault::DuplicateName { name } => "duplicate sync name: "@ + name,
            Fault::BadRemote { name } => {
                "sync "@
                    + name
                    + " remote path must be an absolute non-root path"@
            },
            Fault::AbsoluteMarker { name } => "sync "@ + name + " ready_marker must be relative"@,
            Fault::BadPattern { name, pattern, error } => {
                "sync "@
                    + name
                    + " has invalid exclude pattern "@
                    + debug_text(pattern)
                    + ": "@
                    + error
            },
            Fault::BadExcludes { name, error } => {
                "failed to build excludes for sync "@
                    + name
                    + ": "@
                    + error
            },
            Fault::UnknownSyncs { names } => "unknown configured syncs: "@ + names,
            Fault::RootMissing { root } => "local root is missing: "@ + root,
            Fault::MarkerMissing { marker } => "readiness marker is missing: "@ + marker,
            Fault::Conflict { path } => "two-way conflict at "@ + path,
            Fault::NoSide => "two-way conflict has neither side"@,
            Fault::LocalNotUtf8 => "local path is not valid UTF-8"@,
            Fault::BeforeEpoch => {
                "file modification time is before the Unix epoch: second time provided was later than self"@
            },
            Fault::MtimeRange => {
                "file modification time does not fit in SQLite: out of range integral type conversion attempted"@
            },
            Fault::NotFolder { remote } => "remote path exists but is not a folder: "@ + remote,
            Fault::SizeMismatch { path, expected, got } => {
                "downloaded size mismatch for "@
                    + path
                    + ": expected "@
                    + decimal(expected as nat)
                    + ", got "@
                    + decimal(got as nat)
            },
            Fault::DigestMismatch { path } => "downloaded SHA-1 mismatch for "@ + path,
            Fault::DownloadNoName => "local download target has no name"@,
            Fault::UploadsFailed { count, name, error } => {
                decimal(count as nat)
                    + " uploads failed; first failure was "@
                    + name
                    + ": "@
                    + error
            },
            Fault::TrashFailed { count } => {
                decimal(count as nat)
                    + " remote files could not be moved to trash"@
            },
            Fault::UploadNoName => "local upload path has no UTF-8 file name"@,
            Fault::UploadDuplicate { name } => {
                "upload batch contains duplicate file name "@
                    + debug_text(name)
            },
            Fault::UploadCounts { files, transferred, skipped, failed, details } => {
                "Proton Drive upload returned inconsistent counts for "@
                    + decimal(files as nat)
                    + " files: transferred="@
                    + decimal(transferred as nat)
                    + " skipped="@
                    + decimal(skipped as nat)
                    + " failed="@
                    + decimal(failed as nat)
                    + " failure_details="@
                    + decimal(details as nat)
            },
            Fault::UploadUnknown { name } => {
                "Proton Drive upload reported failure for unknown file "@
                    + debug_text(name)
            },
            Fault::UploadRepeated { name } => {
                "Proton Drive upload reported duplicate failure for "@
                    + debug_text(name)
            },
            Fault::DownloadCounts { transferred, failed } => {
                "Proton Drive download reported transferred="@
                    + decimal(transferred as nat)
                    + " failed="@
                    + decimal(failed as nat)
            },
            Fault::TrashDuplicate => "trash batch contains duplicate node UID"@,
            Fault::TrashCounts { results, targets } => {
                "Proton Drive trash returned "@
                    + decimal(results as nat)
                    + " results for "@
                    + decimal(targets as nat)
                    + " targets"@
            },
            Fault::TrashUnknown => "Proton Drive trash returned an unknown node UID"@,
            Fault::TrashRepeated => "Proton Drive trash returned a duplicate node UID"@,
            Fault::CommandFailed { error } => "Proton Drive CLI command failed: "@ + error,
            Fault::NewlineArgument => "Proton Drive REPL arguments cannot contain newlines"@,
            Fault::WalRejected { path, mode } => {
                "Proton Drive cache "@
                    + path
                    + " rejected WAL mode: "@
                    + mode
            },
            Fault::NoHome => "HOME is not set"@,
            Fault::ZeroDuration => "duration must be greater than zero"@,
            Fault::BadDuration { error } => error,
            Fault::NoServiceManager => {
                "no running systemd, dinit, or OpenRC user service manager was detected"@
            },
            Fault::Unhealthy { manager } => manager + " reported an inactive or failed service"@,
            Fault::SyncFailed { name, fault } => "sync "@ + name + " failed: "@ + fault.wording(),
            Fault::UnexpectedReply => "a request was answered with something else"@,
            Fault::Drive { error } => error,
        }
    }
}

impl Fault<String> {
    /// How a fault is worded.
    pub fn message(&self) -> (r: String)
        ensures
            r@ == self.texts().wording(),
        decreases self,
    {
        match self {
            Fault::NoSyncs => "configuration has no [[sync]] entries".to_owned(),
            Fault::EmptyName => "sync name cannot be empty".to_owned(),
            Fault::DuplicateName { name } => {
                let mut text = "duplicate sync name: ".to_owned();
                text.append(name.as_str());
                text
            },
            Fault::BadRemote { name } => {
                let mut text = "sync ".to_owned();
                text.append(name.as_str());
                text.append(" remote path must be an absolute non-root path");
                text
            },
            Fault::AbsoluteMarker { name } => {
                let mut text = "sync ".to_owned();
                text.append(name.as_str());
                text.append(" ready_marker must be relative");
                text
            },
            Fault::BadPattern { name, pattern, error } => {
                let mut text = "sync ".to_owned();
                text.append(name.as_str());
                text.append(" has invalid exclude pattern ");
                text.append(quoted_for_debug(pattern.as_str()).as_str());
                text.append(": ");
                text.append(error.as_str());
                text
            },
            Fault::BadExcludes { name, error } => {
                let mut text = "failed to build excludes for sync ".to_owned();
                text.append(name.as_str());
                text.append(": ");
                text.append(error.as_str());
                text
            },
            Fault::UnknownSyncs { names } => {
                let mut text = "unknown configured syncs: ".to_owned();
                text.append(names.as_str());
                text
            },
            Fault::RootMissing { root } => {
                let mut text = "local root is missing: ".to_owned();
                text.append(root.as_str());
                text
            },
            Fault::MarkerMissing { marker } => {
                let mut text = "readiness marker is missing: ".to_owned();
                text.append(marker.as_str());
                text
            },
            Fault::Conflict { path } => {
                let mut text = "two-way conflict at ".to_owned();
                text.append(path.as_str());
                text
            },
            Fault::NoSide => "two-way conflict has neither side".to_owned(),
            Fault::LocalNotUtf8 => "local path is not valid UTF-8".to_owned(),
            Fault::BeforeEpoch => {
                "file modification time is before the Unix epoch: second time provided was later than self".to_owned()
            },
            Fault::MtimeRange => {
                "file modification time does not fit in SQLite: out of range integral type conversion attempted".to_owned()
            },
            Fault::NotFolder { remote } => {
                let mut text = "remote path exists but is not a folder: ".to_owned();
                text.append(remote.as_str());
                text
            },
            Fault::SizeMismatch { path, expected, got } => {
                let mut text = "downloaded size mismatch for ".to_owned();
                text.append(path.as_str());
                text.append(": expected ");
                text.append(decimal_text(*expected as u64).as_str());
                text.append(", got ");
                text.append(decimal_text(*got as u64).as_str());
                text
            },
            Fault::DigestMismatch { path } => {
                let mut text = "downloaded SHA-1 mismatch for ".to_owned();
                text.append(path.as_str());
                text
            },
            Fault::DownloadNoName => "local download target has no name".to_owned(),
            Fault::UploadsFailed { count, name, error } => {
                let mut text = decimal_text(*count as u64);
                text.append(" uploads failed; first failure was ");
                text.append(name.as_str());
                text.append(": ");
                text.append(error.as_str());
                text
            },
            Fault::TrashFailed { count } => {
                let mut text = decimal_text(*count as u64);
                text.append(" remote files could not be moved to trash");
                text
            },
            Fault::UploadNoName => "local upload path has no UTF-8 file name".to_owned(),
            Fault::UploadDuplicate { name } => {
                let mut text = "upload batch contains duplicate file name ".to_owned();
                text.append(quoted_for_debug(name.as_str()).as_str());
                text
            },
            Fault::UploadCounts { files, transferred, skipped, failed, details } => {
                let mut text = "Proton Drive upload returned inconsistent counts for ".to_owned();
                text.append(decimal_text(*files as u64).as_str());
                text.append(" files: transferred=");
                text.append(decimal_text(*transferred as u64).as_str());
                text.append(" skipped=");
                text.append(decimal_text(*skipped as u64).as_str());
                text.append(" failed=");
                text.append(decimal_text(*failed as u64).as_str());
                text.append(" failure_details=");
                text.append(decimal_text(*details as u64).as_str());
                text
            },
            Fault::UploadUnknown { name } => {
                let mut text = "Proton Drive upload reported failure for unknown file ".to_owned();
                text.append(quoted_for_debug(name.as_str()).as_str());
                text
            },
            Fault::UploadRepeated { name } => {
                let mut text = "Proton Drive upload reported duplicate failure for ".to_owned();
                text.append(quoted_for_debug(name.as_str()).as_str());
                text
            },
            Fault::DownloadCounts { transferred, failed } => {
                let mut text = "Proton Drive download reported transferred=".to_owned();
                text.append(decimal_text(*transferred as u64).as_str());
                text.append(" failed=");
                text.append(decimal_text(*failed as u64).as_str());
                text
            },
            Fault::TrashDuplicate => "trash batch contains duplicate node UID".to_owned(),
            Fault::TrashCounts { results, targets } => {
                let mut text = "Proton Drive trash returned ".to_owned();
                text.append(decimal_text(*results as u64).as_str());
                text.append(" results for ");
                text.append(decimal_text(*targets as u64).as_str());
                text.append(" targets");
                text
            },
            Fault::TrashUnknown => "Proton Drive trash returned an unknown node UID".to_owned(),
            Fault::TrashRepeated => "Proton Drive trash returned a duplicate node UID".to_owned(),
            Fault::CommandFailed { error } => {
                let mut text = "Proton Drive CLI command failed: ".to_owned();
                text.append(error.as_str());
                text
            },
            Fault::NewlineArgument => {
                "Proton Drive REPL arguments cannot contain newlines".to_owned()
            },
            Fault::WalRejected { path, mode } => {
                let mut text = "Proton Drive cache ".to_owned();
                text.append(path.as_str());
                text.append(" rejected WAL mode: ");
                text.append(mode.as_str());
                text
            },
            Fault::NoHome => "HOME is not set".to_owned(),
            Fault::ZeroDuration => "duration must be greater than zero".to_owned(),
            Fault::BadDuration { error } => error.clone(),
            Fault::NoServiceManager => {
                "no running systemd, dinit, or OpenRC user service manager was detected".to_owned()
            },
            Fault::Unhealthy { manager } => {
                let mut text = manager.clone();
                text.append(" reported an inactive or failed service");
                text
            },
            Fault::SyncFailed { name, fault } => {
                let mut text = "sync ".to_owned();
                text.append(name.as_str());
                text.append(" failed: ");
                text.append(fault.message().as_str());
                text
            },
            Fault::UnexpectedReply => "a request was answered with something else".to_owned(),
            Fault::Drive { error } => error.clone(),
        }
    }
}

} // verus!
