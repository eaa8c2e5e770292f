//! Finding the files below a local root.

use crate::error::{outcome, Fault, SyncError};
use crate::exchange::{DirEntry, DirEntryView, EntryKind, FileStat, Progress, Reply, ReplyView};
use crate::exchange::{Request, RequestView};
use crate::excludes::{excluded, Excludes};
use crate::path_map::PathMap;
use crate::paths::{child_of, join_relative, names_same_path, same_path};
use crate::places::{join_path, path_joined};
use crate::plan::LocalFile;
use crate::text::{option_view, views, views_push};
use vstd::prelude::*;
use vstd::utf8::{decode_utf8, valid_utf8};

verus! {

/// The error of `String::from_utf8`.
#[verifier::external_type_specification]
#[verifier::external_body]
pub struct ExFromUtf8Error(std::string::FromUtf8Error);

/// `String::from_utf8` reads bytes as UTF-8: it gives the text where they are valid, and an error
/// where they are not.
pub assume_specification[ String::from_utf8 ](vec: Vec<u8>) -> (r: Result<
    String,
    std::string::FromUtf8Error,
>)
    ensures
        r is Ok == valid_utf8(vec@),
        r matches Ok(text) ==> text@ == decode_utf8(vec@),
;

/// Whether a name comes before another: by the first byte that differs, else the shorter first.
pub open spec fn name_lt(a: Seq<u8>, b: Seq<u8>) -> bool
    decreases a.len(),
{
    b.len() > 0 && (a.len() == 0 || a[0] < b[0] || (a[0] == b[0] && name_lt(
        a.drop_first(),
        b.drop_first(),
    )))
}

proof fn name_le_lt(a: Seq<u8>, b: Seq<u8>, c: Seq<u8>)
    requires
        !name_lt(b, a),
        name_lt(b, c),
    ensures
        name_lt(a, c),
    decreases a.len(),
{
    if a.len() > 0 && b.len() > 0 && a[0] == b[0] && b[0] == c[0] {
        name_le_lt(a.drop_first(), b.drop_first(), c.drop_first());
    }
}

fn name_less(a: &Vec<u8>, b: &Vec<u8>) -> (r: bool)
    ensures
        r == name_lt(a@, b@),
{
    let mut i: usize = 0;
    assert(a@.skip(0) =~= a@);
    assert(b@.skip(0) =~= b@);
    while i < a.len() && i < b.len()
        invariant
            i <= a.len(),
            i <= b.len(),
            name_lt(a@, b@) == name_lt(a@.skip(i as int), b@.skip(i as int)),
        decreases a.len() - i,
    {
        assert(a@.skip(i as int).drop_first() =~= a@.skip(i + 1));
        assert(b@.skip(i as int).drop_first() =~= b@.skip(i + 1));
        if a[i] != b[i] {
            return a[i] < b[i];
        }
        i += 1;
    }
    i < b.len()
}

/// No entry comes after one with a greater name.
pub open spec fn sorted_by_name(entries: Seq<DirEntryView>) -> bool {
    forall|i: int, j: int|
        0 <= i < j < entries.len() ==> !name_lt(
            (#[trigger] entries[j]).name,
            (#[trigger] entries[i]).name,
        )
}

/// A sorted list with one more entry, before those whose names are not less.
pub open spec fn with_entry(sorted: Seq<DirEntryView>, entry: DirEntryView) -> Seq<DirEntryView>
    decreases sorted.len(),
{
    if sorted.len() > 0 && name_lt(sorted[0].name, entry.name) {
        seq![sorted[0]] + with_entry(sorted.drop_first(), entry)
    } else {
        seq![entry] + sorted
    }
}

/// Entries in the order of their names; those of one name keep their order.
pub open spec fn by_name(entries: Seq<DirEntryView>) -> Seq<DirEntryView>
    decreases entries.len(),
{
    if entries.len() == 0 {
        Seq::empty()
    } else {
        with_entry(by_name(entries.drop_first()), entries[0])
    }
}

proof fn with_entry_at(sorted: Seq<DirEntryView>, entry: DirEntryView, at: int)
    requires
        0 <= at <= sorted.len(),
        forall|i: int| 0 <= i < at ==> name_lt((#[trigger] sorted[i]).name, entry.name),
        at < sorted.len() ==> !name_lt(sorted[at].name, entry.name),
    ensures
        with_entry(sorted, entry) == sorted.insert(at, entry),
    decreases sorted.len(),
{
    if at > 0 {
        let rest = sorted.drop_first();
        assert forall|i: int| 0 <= i < at - 1 implies name_lt(
            (#[trigger] rest[i]).name,
            entry.name,
        ) by {
            assert(rest[i] == sorted[i + 1]);
        }
        with_entry_at(rest, entry, at - 1);
        assert(sorted.insert(at, entry) =~= seq![sorted[0]] + rest.insert(at - 1, entry));
    } else {
        assert(sorted.insert(0, entry) =~= seq![entry] + sorted);
    }
}

proof fn with_entry_sorts(sorted: Seq<DirEntryView>, entry: DirEntryView)
    requires
        sorted_by_name(sorted),
    ensures
        sorted_by_name(with_entry(sorted, entry)),
        with_entry(sorted, entry).to_multiset() == sorted.to_multiset().insert(entry),
        forall|k: int|
            0 <= k < with_entry(sorted, entry).len() ==> (#[trigger] with_entry(sorted, entry)[k])
                == entry || sorted.contains(with_entry(sorted, entry)[k]),
    decreases sorted.len(),
{
    broadcast use vstd::seq_lib::group_to_multiset_ensures;

    let all = with_entry(sorted, entry);
    if sorted.len() > 0 && name_lt(sorted[0].name, entry.name) {
        let rest = sorted.drop_first();
        assert forall|i: int, j: int| 0 <= i < j < rest.len() implies !name_lt(
            (#[trigger] rest[j]).name,
            (#[trigger] rest[i]).name,
        ) by {
            assert(rest[i] == sorted[i + 1] && rest[j] == sorted[j + 1]);
        }
        with_entry_sorts(rest, entry);
        let more = with_entry(rest, entry);
        assert forall|k: int| 0 <= k < all.len() implies (#[trigger] all[k]) == entry
            || sorted.contains(all[k]) by {
            if k > 0 {
                assert(all[k] == more[k - 1]);
                if all[k] != entry {
                    let m = choose|m: int| 0 <= m < rest.len() && rest[m] == all[k];
                    assert(sorted[m + 1] == all[k]);
                }
            } else {
                assert(all[0] == sorted[0]);
            }
        }
        assert forall|i: int, j: int| 0 <= i < j < all.len() implies !name_lt(
            (#[trigger] all[j]).name,
            (#[trigger] all[i]).name,
        ) by {
            assert(all[j] == more[j - 1]);
            if i > 0 {
                assert(all[i] == more[i - 1]);
            } else if all[j] == entry {
                if name_lt(entry.name, sorted[0].name) {
                    name_lt_asymmetric(entry.name, sorted[0].name);
                }
            } else {
                let m = choose|m: int| 0 <= m < rest.len() && rest[m] == more[j - 1];
                assert(sorted[m + 1] == all[j]);
            }
        }
        assert(sorted =~= seq![sorted[0]] + rest);
        vstd::seq_lib::lemma_multiset_commutative(seq![sorted[0]], rest);
        vstd::seq_lib::lemma_multiset_commutative(seq![sorted[0]], more);
        assert(all.to_multiset() =~= sorted.to_multiset().insert(entry));
    } else {
        assert forall|k: int| 0 <= k < all.len() implies (#[trigger] all[k]) == entry
            || sorted.contains(all[k]) by {
            if k > 0 {
                assert(all[k] == sorted[k - 1]);
            }
        }
        assert forall|i: int, j: int| 0 <= i < j < all.len() implies !name_lt(
            (#[trigger] all[j]).name,
            (#[trigger] all[i]).name,
        ) by {
            assert(all[j] == sorted[j - 1]);
            if i > 0 {
                assert(all[i] == sorted[i - 1]);
            } else if name_lt(sorted[j - 1].name, entry.name) {
                if j > 1 {
                    name_le_lt(sorted[0].name, sorted[j - 1].name, entry.name);
                }
            }
        }
        vstd::seq_lib::lemma_multiset_commutative(seq![entry], sorted);
        assert(seq![entry] =~= Seq::<DirEntryView>::empty().push(entry));
        assert(all.to_multiset() =~= sorted.to_multiset().insert(entry));
    }
}

proof fn name_lt_asymmetric(a: Seq<u8>, b: Seq<u8>)
    requires
        name_lt(a, b),
    ensures
        !name_lt(b, a),
    decreases a.len(),
{
    if a.len() > 0 && a[0] == b[0] {
        name_lt_asymmetric(a.drop_first(), b.drop_first());
    }
}

/// Entries are looked at in the order of their names, each as often as it was listed.
pub proof fn by_name_sorts(entries: Seq<DirEntryView>)
    ensures
        sorted_by_name(by_name(entries)),
        by_name(entries).to_multiset() == entries.to_multiset(),
    decreases entries.len(),
{
    broadcast use vstd::seq_lib::group_to_multiset_ensures;

    if entries.len() > 0 {
        let rest = entries.drop_first();
        by_name_sorts(rest);
        with_entry_sorts(by_name(rest), entries[0]);
        assert(entries =~= seq![entries[0]] + rest);
        vstd::seq_lib::lemma_multiset_commutative(seq![entries[0]], rest);
        assert(seq![entries[0]] =~= Seq::<DirEntryView>::empty().push(entries[0]));
        assert(by_name(entries).to_multiset() =~= entries.to_multiset());
    } else {
        assert(by_name(entries) =~= entries);
    }
}

fn sort_entries(listed: Vec<DirEntry>) -> (r: Vec<DirEntry>)
    ensures
        views(r@) == by_name(views(listed@)),
{
    let ghost all = views(listed@);
    let mut listed = listed;
    let mut sorted: Vec<DirEntry> = Vec::new();
    assert(all.skip(all.len() as int) =~= Seq::<DirEntryView>::empty());
    assert(views(sorted@) =~= by_name(all.skip(all.len() as int)));
    assert(views(listed@) =~= all.take(all.len() as int));
    while listed.len() > 0
        invariant
            listed.len() <= all.len(),
            views(listed@) == all.take(listed.len() as int),
            views(sorted@) == by_name(all.skip(listed.len() as int)),
        decreases listed.len(),
    {
        let ghost left = views(listed@);
        let ghost k = listed.len() as int;
        let entry = listed.pop().unwrap();
        assert(entry@ == left[k - 1]);
        proof {
            by_name_sorts(all.skip(k));
            assert(all.skip(k - 1).drop_first() =~= all.skip(k));
        }
        let at = entry_position(&sorted, &entry.name);
        proof {
            with_entry_at(views(sorted@), entry@, at as int);
            assert(views(sorted@.insert(at as int, entry)) =~= views(sorted@).insert(
                at as int,
                entry@,
            ));
        }
        sorted.insert(at, entry);
        assert(views(listed@) =~= all.take(listed.len() as int));
    }
    assert(all.skip(0) =~= all);
    sorted
}

fn entry_position(sorted: &Vec<DirEntry>, name: &Vec<u8>) -> (r: usize)
    requires
        sorted_by_name(views(sorted@)),
    ensures
        r <= sorted.len(),
        forall|i: int| 0 <= i < r ==> name_lt((#[trigger] views(sorted@)[i]).name, name@),
        r < sorted.len() ==> !name_lt(views(sorted@)[r as int].name, name@),
{
    let mut low: usize = 0;
    let mut high: usize = sorted.len();
    let ghost all = views(sorted@);
    while low < high
        invariant
            all == views(sorted@),
            sorted_by_name(all),
            low <= high <= sorted.len(),
            forall|i: int| 0 <= i < low ==> name_lt((#[trigger] all[i]).name, name@),
            forall|i: int|
                high <= i < sorted.len() ==> !name_lt((#[trigger] all[i]).name, name@),
        decreases high - low,
    {
        let middle = low + (high - low) / 2;
        assert(all[middle as int].name == sorted@[middle as int].name@);
        if name_less(&sorted[middle].name, name) {
            assert forall|i: int| 0 <= i < middle + 1 implies name_lt(
                (#[trigger] all[i]).name,
                name@,
            ) by {
                if i < middle {
                    name_le_lt(all[i].name, all[middle as int].name, name@);
                }
            }
            low = middle + 1;
        } else {
            assert forall|i: int| middle <= i < sorted.len() implies !name_lt(
                (#[trigger] all[i]).name,
                name@,
            ) by {
                if i > middle && name_lt(all[i].name, name@) {
                    name_le_lt(all[middle as int].name, all[i].name, name@);
                }
            }
            high = middle;
        }
    }
    low
}

/// The modification time in nanoseconds since the Unix epoch, as the state database holds it.
pub open spec fn modified_ns(modified: Option<(u64, u32)>) -> Result<i64, Fault<Seq<char>>> {
    match modified {
        None => Err(Fault::BeforeEpoch),
        Some((seconds, nanos)) => {
            let total = seconds * 1_000_000_000 + nanos;
            if total <= i64::MAX {
                Ok(total as i64)
            } else {
                Err(Fault::MtimeRange)
            }
        },
    }
}

fn mtime_ns(modified: Option<(u64, u32)>) -> (r: Result<i64, SyncError>)
    ensures
        match r {
            Ok(time) => modified_ns(modified) == Ok::<i64, Fault<Seq<char>>>(time),
            Err(error) => modified_ns(modified) == Err::<i64, Fault<Seq<char>>>(error@),
        },
{
    match modified {
        None => Err(Fault::BeforeEpoch),
        Some((seconds, nanos)) => {
            let total: u128 = seconds as u128 * 1_000_000_000 + nanos as u128;
            if total <= 0x7fff_ffff_ffff_ffff {
                Ok(total as i64)
            } else {
                Err(Fault::MtimeRange)
            }
        },
    }
}

/// A local file, from its path and its metadata.
pub open spec fn file_at(relative: Seq<char>, stat: FileStat) -> Result<
    LocalFile<Seq<char>>,
    Fault<Seq<char>>,
> {
    match modified_ns(stat.modified) {
        Ok(mtime_ns) => Ok(LocalFile { relative, size: stat.size, mtime_ns }),
        Err(fault) => Err(fault),
    }
}

/// A local file, from its path and its metadata.
pub fn local_file(relative: &str, stat: FileStat) -> (r: Result<LocalFile<String>, SyncError>)
    ensures
        outcome(r) == file_at(relative@, stat),
{
    match mtime_ns(stat.modified) {
        Ok(mtime_ns) => Ok(LocalFile { relative: relative.to_owned(), size: stat.size, mtime_ns }),
        Err(error) => Err(error),
    }
}

/// The place of a path below a local root.
pub open spec fn local_path_of(root: Seq<char>, relative: Seq<char>) -> Seq<char> {
    if relative.len() == 0 {
        root
    } else {
        path_joined(root, relative)
    }
}

/// The place of a path below a local root.
pub fn local_path(root: &str, relative: &str) -> (r: String)
    ensures
        r@ == local_path_of(root@, relative@),
{
    if relative.is_empty() {
        root.to_owned()
    } else {
        join_path(root, relative)
    }
}

/// An entry that is still to be looked at, and the directory that it is in.
#[derive(Debug)]
pub struct ScanItem {
    pub directory: String,
    pub entry: DirEntry,
}

/// The view of an entry that is still to be looked at.
#[verifier::ext_equal]
pub struct ScanItemView {
    pub directory: Seq<char>,
    pub entry: DirEntryView,
}

impl View for ScanItem {
    type V = ScanItemView;

    open spec fn view(&self) -> ScanItemView {
        ScanItemView { directory: self.directory@, entry: self.entry@ }
    }
}

/// What a scan waits for.
#[derive(Debug)]
pub enum ScanStage<T> {
    /// The entries of a directory.
    Listing { directory: T },
    /// The metadata of a file.
    Reading { path: T },
}

impl View for ScanStage<String> {
    type V = ScanStage<Seq<char>>;

    open spec fn view(&self) -> ScanStage<Seq<char>> {
        match *self {
            ScanStage::Listing { directory } => ScanStage::Listing { directory: directory@ },
            ScanStage::Reading { path } => ScanStage::Reading { path: path@ },
        }
    }
}

/// A scan of the files below a local root. Excluded paths, symbolic links, the readiness marker and
/// what is neither file nor directory are left out; an excluded directory is not even listed.
pub struct Scan {
    root: String,
    marker: Option<String>,
    excludes: Excludes,
    stage: ScanStage<String>,
    todo: Vec<ScanItem>,
    files: PathMap<LocalFile<String>>,
    symlinks: Vec<String>,
}

/// The view of a scan.
#[verifier::ext_equal]
pub struct ScanView {
    pub root: Seq<char>,
    pub marker: Option<Seq<char>>,
    pub patterns: Seq<Seq<char>>,
    pub stage: ScanStage<Seq<char>>,
    /// What is still to be looked at; the last comes first.
    pub todo: Seq<ScanItemView>,
    pub files: Map<Seq<char>, LocalFile<Seq<char>>>,
    pub symlinks: Seq<Seq<char>>,
}

impl View for Scan {
    type V = ScanView;

    closed spec fn view(&self) -> ScanView {
        ScanView {
            root: self.root@,
            marker: option_view(self.marker),
            patterns: self.excludes@,
            stage: self.stage@,
            todo: views(self.todo@),
            files: self.files@,
            symlinks: views(self.symlinks@),
        }
    }
}

/// What a scan found.
pub struct Scanned {
    pub files: PathMap<LocalFile<String>>,
    pub symlinks: Vec<String>,
    pub excludes: Excludes,
}

/// The view of what a scan found.
#[verifier::ext_equal]
pub struct ScannedView {
    pub files: Map<Seq<char>, LocalFile<Seq<char>>>,
    pub symlinks: Seq<Seq<char>>,
    pub patterns: Seq<Seq<char>>,
}

impl View for Scanned {
    type V = ScannedView;

    open spec fn view(&self) -> ScannedView {
        ScannedView {
            files: self.files@,
            symlinks: views(self.symlinks@),
            patterns: self.excludes@,
        }
    }
}

/// What a step of a scan leads to.
pub type ScanOutcome = Result<Progress<ScanView, RequestView, ScannedView>, Fault<Seq<char>>>;

/// What is done with an entry.
pub enum ScanChoice {
    /// Its name is not valid UTF-8.
    Reject,
    /// Nothing.
    Skip,
    /// It is counted as a symbolic link.
    Count,
    /// It is a directory to go into.
    Enter,
    /// It is a file to take up.
    Take,
}

impl ScanView {
    /// The path of an entry below the root.
    pub open spec fn path_of(self, item: ScanItemView) -> Seq<char> {
        child_of(item.directory, decode_utf8(item.entry.name))
    }

    /// What is done with an entry.
    pub open spec fn choice(self, item: ScanItemView) -> ScanChoice {
        let path = self.path_of(item);
        if !valid_utf8(item.entry.name) {
            ScanChoice::Reject
        } else if excluded(self.patterns, path) {
            ScanChoice::Skip
        } else {
            match item.entry.kind {
                EntryKind::Symlink => ScanChoice::Count,
                EntryKind::Directory => ScanChoice::Enter,
                EntryKind::Other => ScanChoice::Skip,
                EntryKind::File => if self.marker is Some && same_path(path, self.marker->0) {
                    ScanChoice::Skip
                } else {
                    ScanChoice::Take
                },
            }
        }
    }

    /// Goes on with what is still to be looked at.
    pub open spec fn advanced(self) -> ScanOutcome
        decreases self.todo.len(),
    {
        if self.todo.len() == 0 {
            Ok(
                Progress::Done(
                    ScannedView {
                        files: self.files,
                        symlinks: self.symlinks,
                        patterns: self.patterns,
                    },
                ),
            )
        } else {
            let item = self.todo.last();
            let path = self.path_of(item);
            let rest = ScanView { todo: self.todo.drop_last(), ..self };
            match self.choice(item) {
                ScanChoice::Reject => Err(Fault::LocalNotUtf8),
                ScanChoice::Skip => rest.advanced(),
                ScanChoice::Count => ScanView {
                    symlinks: self.symlinks.push(path),
                    ..rest
                }.advanced(),
                ScanChoice::Enter => Ok(
                    Progress::Ask(
                        ScanView { stage: ScanStage::Listing { directory: path }, ..rest },
                        RequestView::ListDirectory { path: local_path_of(self.root, path) },
                    ),
                ),
                ScanChoice::Take => Ok(
                    Progress::Ask(
                        ScanView { stage: ScanStage::Reading { path }, ..rest },
                        RequestView::Stat { path: local_path_of(self.root, path) },
                    ),
                ),
            }
        }
    }

    /// The entries of a directory on top of what is still to be looked at, so that they are taken
    /// in the order of their names.
    pub open spec fn with_listing(self, directory: Seq<char>, entries: Seq<DirEntryView>) -> ScanView {
        let sorted = by_name(entries);
        ScanView {
            todo: self.todo + sorted.reverse().map_values(
                |entry: DirEntryView| ScanItemView { directory, entry },
            ),
            ..self
        }
    }

    /// One step.
    pub open spec fn stepped(self, reply: ReplyView) -> ScanOutcome {
        match (self.stage, reply) {
            (ScanStage::Listing { directory }, ReplyView::Entries(entries)) => self.with_listing(
                directory,
                entries,
            ).advanced(),
            (ScanStage::Reading { path }, ReplyView::Stat(stat)) => match file_at(path, stat) {
                Ok(file) => ScanView { files: self.files.insert(path, file), ..self }.advanced(),
                Err(fault) => Err(fault),
            },
            _ => Err(Fault::UnexpectedReply),
        }
    }
}

/// A scan that has seen nothing yet.
pub open spec fn scan_started(
    root: Seq<char>,
    marker: Option<Seq<char>>,
    patterns: Seq<Seq<char>>,
) -> Progress<ScanView, RequestView, ScannedView> {
    Progress::Ask(
        ScanView {
            root,
            marker,
            patterns,
            stage: ScanStage::Listing { directory: Seq::empty() },
            todo: Seq::empty(),
            files: Map::empty(),
            symlinks: Seq::empty(),
        },
        RequestView::ListDirectory { path: root },
    )
}

/// Starts a scan of the files below a local root.
pub fn scan_local_files(root: &str, marker: Option<String>, excludes: Excludes) -> (r: (
    Scan,
    Request,
))
    ensures
        Progress::<ScanView, RequestView, ScannedView>::Ask(r.0@, r.1@) == scan_started(
            root@,
            option_view(marker),
            excludes@,
        ),
{
    let scan = Scan {
        root: root.to_owned(),
        marker,
        excludes,
        stage: ScanStage::Listing { directory: String::new() },
        todo: Vec::new(),
        files: PathMap::new(),
        symlinks: Vec::new(),
    };
    assert(scan@.stage->directory =~= Seq::<char>::empty());
    assert(scan@.todo =~= Seq::<ScanItemView>::empty());
    assert(scan@.symlinks =~= Seq::<Seq<char>>::empty());
    (scan, Request::ListDirectory { path: root.to_owned() })
}

impl Scan {
    fn advance(self) -> (r: Result<Progress<Scan, Request, Scanned>, SyncError>)
        ensures
            outcome(r) == self@.advanced(),
    {
        let mut scan = self;
        let ghost goal = self@.advanced();
        while scan.todo.len() > 0
            invariant
                goal == self@.advanced(),
                scan@.advanced() == goal,
            decreases scan.todo.len(),
        {
            let ghost before = scan@;
            let item = scan.todo.pop().unwrap();
            assert(item@ == before.todo.last());
            assert(scan@ =~= ScanView { todo: before.todo.drop_last(), ..before });
            let kind = item.entry.kind;
            let name = match String::from_utf8(item.entry.name) {
                Ok(name) => name,
                Err(_) => {
                    return Err(Fault::LocalNotUtf8);
                },
            };
            let path = join_relative(item.directory.as_str(), name.as_str());
            if scan.excludes.is_match(path.as_str()) {
                continue ;
            }
            match kind {
                EntryKind::Symlink => {
                    proof {
                        views_push(scan.symlinks@, path);
                    }
                    scan.symlinks.push(path);
                },
                EntryKind::Directory => {
                    let place = local_path(scan.root.as_str(), path.as_str());
                    scan.stage = ScanStage::Listing { directory: path };
                    return Ok(Progress::Ask(scan, Request::ListDirectory { path: place }));
                },
                EntryKind::Other => {},
                EntryKind::File => {
                    let marked = match &scan.marker {
                        Some(marker) => names_same_path(path.as_str(), marker.as_str()),
                        None => false,
                    };
                    if !marked {
                        let place = local_path(scan.root.as_str(), path.as_str());
                        scan.stage = ScanStage::Reading { path };
                        return Ok(Progress::Ask(scan, Request::Stat { path: place }));
                    }
                },
            }
        }
        Ok(
            Progress::Done(
                Scanned { files: scan.files, symlinks: scan.symlinks, excludes: scan.excludes },
            ),
        )
    }

    /// Takes the reply to the last request, and goes on.
    pub fn next(self, reply: Reply) -> (r: Result<Progress<Scan, Request, Scanned>, SyncError>)
        ensures
            outcome(r) == self@.stepped(reply@),
    {
        let mut scan = self;
        let ghost before = self@;
        match (&scan.stage, reply) {
            (ScanStage::Listing { directory }, Reply::Entries(entries)) => {
                let ghost place = directory@;
                let ghost listed = views(entries@);
                let mut sorted = sort_entries(entries);
                let ghost all = views(sorted@);
                let mut todo: Vec<ScanItem> = Vec::new();
                while sorted.len() > 0
                    invariant
                        sorted.len() <= all.len(),
                        views(sorted@) == all.take(sorted.len() as int),
                        place == directory@,
                        views(todo@) == all.skip(sorted.len() as int).reverse().map_values(
                            |entry: DirEntryView| ScanItemView { directory: place, entry },
                        ),
                    decreases sorted.len(),
                {
                    let ghost left = views(sorted@);
                    let entry = sorted.pop().unwrap();
                    assert(entry@ == left.last());
                    let item = ScanItem { directory: directory.clone(), entry };
                    proof {
                        views_push(todo@, item);
                    }
                    todo.push(item);
                    assert(views(sorted@) =~= all.take(sorted.len() as int));
                    assert(views(todo@) =~= all.skip(
                        sorted.len() as int,
                    ).reverse().map_values(
                        |entry: DirEntryView| ScanItemView { directory: place, entry },
                    ));
                }
                assert(all.skip(0) =~= all);
                proof {
                    assert(views(scan.todo@ + todo@) =~= views(scan.todo@) + views(todo@));
                }
                scan.todo.append(&mut todo);
                assert(scan@ =~= before.with_listing(place, listed));
                scan.advance()
            },
            (ScanStage::Reading { path }, Reply::Stat(stat)) => {
                match local_file(path.as_str(), stat) {
                    Ok(file) => {
                        let key = path.clone();
                        scan.files.insert(key, file);
                        scan.advance()
                    },
                    Err(error) => Err(error),
                }
            },
            _ => Err(Fault::UnexpectedReply),
        }
    }
}

} // verus!
