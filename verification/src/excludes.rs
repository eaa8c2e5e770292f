//! Exclude patterns, matched by the `globset` crate.

use crate::config::SyncConfig;
use crate::error::{Fault, SyncError};
use crate::path_map::PathMap;
use crate::text::{views, views_push};
use vstd::prelude::*;

verus! {

/// `globset::Glob`: one parsed pattern.
#[verifier::external_type_specification]
#[verifier::external_body]
pub struct ExGlob(globset::Glob);

/// `globset::GlobSetBuilder`: patterns on their way into a set.
#[verifier::external_type_specification]
#[verifier::external_body]
pub struct ExGlobSetBuilder(globset::GlobSetBuilder);

/// `globset::GlobSet`: patterns compiled for matching.
#[verifier::external_type_specification]
#[verifier::external_body]
pub struct ExGlobSet(globset::GlobSet);

/// The pattern that a parsed glob was made from.
pub uninterp spec fn glob_text(glob: globset::Glob) -> Seq<char>;

/// The patterns added to a builder, in order.
pub uninterp spec fn builder_patterns(builder: globset::GlobSetBuilder) -> Seq<Seq<char>>;

/// The patterns that a set was built from, in order.
pub uninterp spec fn set_patterns(set: globset::GlobSet) -> Seq<Seq<char>>;

/// How `globset::Glob::new` words its rejection of a pattern; nothing for a pattern that it accepts.
pub uninterp spec fn glob_error(pattern: Seq<char>) -> Option<Seq<char>>;

/// Whether `globset::GlobSetBuilder::build` accepts a list of patterns.
pub uninterp spec fn set_builds(patterns: Seq<Seq<char>>) -> bool;

/// Whether one pattern, alone in a set, matches a path.
pub uninterp spec fn glob_matches(pattern: Seq<char>, path: Seq<char>) -> bool;

/// `globset::Glob::new`: parses a pattern with the default options. Which patterns it accepts, and
/// how it words the error of one that it rejects, depends on the pattern alone and is left to
/// `glob_error`; the glob keeps the pattern that it was made from.
#[verifier::external_body]
fn parse_glob(pattern: &str) -> (r: Result<globset::Glob, String>)
    ensures
        match r {
            Ok(glob) => glob_error(pattern@) is None && glob_text(glob) == pattern@,
            Err(error) => glob_error(pattern@) == Some(error@),
        },
{
    match globset::Glob::new(pattern) {
        Ok(glob) => Ok(glob),
        Err(error) => Err(error.to_string()),
    }
}

/// `globset::GlobSetBuilder::new`: a builder with no patterns.
#[verifier::external_body]
fn new_builder() -> (r: globset::GlobSetBuilder)
    ensures
        builder_patterns(r) == Seq::<Seq<char>>::empty(),
{
    globset::GlobSetBuilder::new()
}

/// `globset::GlobSetBuilder::add`: adds a pattern after those that are there.
#[verifier::external_body]
fn add_glob(builder: &mut globset::GlobSetBuilder, glob: globset::Glob)
    ensures
        builder_patterns(*final(builder)) == builder_patterns(*old(builder)).push(glob_text(glob)),
{
    builder.add(glob);
}

/// `globset::GlobSetBuilder::build`: compiles the patterns into a set that holds them. Which lists
/// it accepts is left to `set_builds`; the empty list is always accepted. Nothing is said of how the
/// error of another list is worded: patterns are compiled in the order of a hash map, and the first
/// that fails is reported.
#[verifier::external_body]
fn build_set(builder: &globset::GlobSetBuilder) -> (r: Result<globset::GlobSet, String>)
    ensures
        r is Ok == set_builds(builder_patterns(*builder)),
        builder_patterns(*builder).len() == 0 ==> r is Ok,
        r matches Ok(set) ==> set_patterns(set) == builder_patterns(*builder),
{
    match builder.build() {
        Ok(set) => Ok(set),
        Err(error) => Err(error.to_string()),
    }
}

/// `globset::GlobSet::is_match`: whether any pattern of the set matches the path. What a single
/// pattern matches is left to `glob_matches`.
#[verifier::external_body]
fn set_is_match(set: &globset::GlobSet, path: &str) -> (r: bool)
    ensures
        r == (exists|i: int|
            0 <= i < set_patterns(*set).len() && glob_matches(
                #[trigger] set_patterns(*set)[i],
                path@,
            )),
{
    set.is_match(path)
}

/// Whether some pattern of a list matches a path.
pub open spec fn excluded(patterns: Seq<Seq<char>>, path: Seq<char>) -> bool {
    exists|i: int| 0 <= i < patterns.len() && glob_matches(#[trigger] patterns[i], path)
}

/// The first pattern from `from` on that is not a glob.
pub open spec fn first_bad_pattern(patterns: Seq<Seq<char>>, from: int) -> Option<Seq<char>>
    decreases patterns.len() - from,
{
    if from < 0 || from >= patterns.len() {
        None
    } else if glob_error(patterns[from]) is Some {
        Some(patterns[from])
    } else {
        first_bad_pattern(patterns, from + 1)
    }
}

/// What is wrong with the exclude patterns of the entry called `name`, without the reason for a
/// list that cannot be built.
pub open spec fn excludes_fault(name: Seq<char>, patterns: Seq<Seq<char>>) -> Option<
    Fault<Seq<char>>,
> {
    match first_bad_pattern(patterns, 0) {
        Some(pattern) => Some(
            Fault::BadPattern { name, pattern, error: glob_error(pattern)->Some_0 },
        ),
        None => if set_builds(patterns) {
            None
        } else {
            Some(Fault::BadExcludes { name, error: Seq::empty() })
        },
    }
}

/// The compiled exclude patterns of one entry.
pub struct Excludes {
    set: globset::GlobSet,
}

impl View for Excludes {
    type V = Seq<Seq<char>>;

    closed spec fn view(&self) -> Seq<Seq<char>> {
        set_patterns(self.set)
    }
}

impl Excludes {
    /// Whether a path is left untouched on both sides.
    pub fn is_match(&self, path: &str) -> (r: bool)
        ensures
            r == excluded(self@, path@),
    {
        set_is_match(&self.set, path)
    }
}

/// Takes a set of patterns, or the reason why there is none, as the excludes of the entry called
/// `name`.
pub fn excludes_of(name: &str, built: Result<globset::GlobSet, String>) -> (r: Result<
    Excludes,
    SyncError,
>)
    ensures
        match built {
            Ok(set) => r matches Ok(excludes) && excludes@ == set_patterns(set),
            Err(error) => r matches Err(fault) && fault.texts() == (Fault::BadExcludes {
                name: name@,
                error: error@,
            }),
        },
{
    match built {
        Ok(set) => Ok(Excludes { set }),
        Err(error) => Err(Fault::BadExcludes { name: name.to_owned(), error }),
    }
}

/// Compiles the exclude patterns of an entry.
pub fn build_excludes(sync: &SyncConfig) -> (r: Result<Excludes, SyncError>)
    ensures
        match r {
            Ok(excludes) => {
                &&& excludes_fault(sync@.name, sync@.exclude) is None
                &&& excludes@ == sync@.exclude
            },
            Err(error) => excludes_fault(sync@.name, sync@.exclude) == Some(error@),
        },
        sync@.exclude.len() == 0 ==> r is Ok,
{
    let mut builder = new_builder();
    let mut i: usize = 0;
    assert(sync@.exclude.take(0) =~= Seq::<Seq<char>>::empty());
    while i < sync.exclude.len()
        invariant
            i <= sync.exclude.len(),
            builder_patterns(builder) == sync@.exclude.take(i as int),
            first_bad_pattern(sync@.exclude, 0) == first_bad_pattern(sync@.exclude, i as int),
        decreases sync.exclude.len() - i,
    {
        let pattern = &sync.exclude[i];
        match parse_glob(pattern.as_str()) {
            Ok(glob) => {
                add_glob(&mut builder, glob);
                assert(sync@.exclude.take(i as int).push(pattern@) =~= sync@.exclude.take(i + 1));
            },
            Err(error) => {
                return Err(
                    Fault::BadPattern { name: sync.name.clone(), pattern: pattern.clone(), error },
                );
            },
        }
        i += 1;
    }
    assert(sync@.exclude.take(i as int) =~= sync@.exclude);
    let built = build_set(&builder);
    excludes_of(sync.name.as_str(), built)
}

/// The paths of a list that are not excluded and not in a set, in the order of the list.
pub open spec fn managed(
    patterns: Seq<Seq<char>>,
    paths: Seq<Seq<char>>,
    except: Set<Seq<char>>,
) -> Seq<Seq<char>>
    decreases paths.len(),
{
    if paths.len() == 0 {
        Seq::empty()
    } else {
        let rest = managed(patterns, paths.drop_last(), except);
        if excluded(patterns, paths.last()) || except.contains(paths.last()) {
            rest
        } else {
            rest.push(paths.last())
        }
    }
}

/// The paths of a list that are not excluded and not in a set, in the order of the list.
pub fn managed_paths<V: View>(
    excludes: &Excludes,
    paths: &Vec<String>,
    except: &PathMap<V>,
) -> (r: Vec<String>)
    ensures
        views(r@) == managed(excludes@, views(paths@), except@.dom()),
{
    let ghost all = views(paths@);
    let mut out: Vec<String> = Vec::new();
    let mut i: usize = 0;
    assert(views(out@) =~= managed(excludes@, all.take(0), except@.dom()));
    while i < paths.len()
        invariant
            i <= paths.len(),
            all == views(paths@),
            views(out@) == managed(excludes@, all.take(i as int), except@.dom()),
        decreases paths.len() - i,
    {
        assert(all.take(i + 1).drop_last() =~= all.take(i as int));
        assert(all[i as int] == paths@[i as int]@);
        if !excludes.is_match(paths[i].as_str()) && !except.contains(paths[i].as_str()) {
            let path = paths[i].clone();
            proof {
                views_push(out@, path);
            }
            out.push(path);
        }
        i += 1;
    }
    assert(all.take(i as int) =~= all);
    out
}

/// Exactly the paths of the list that are neither excluded nor in the set are left.
pub proof fn managed_contains(
    patterns: Seq<Seq<char>>,
    paths: Seq<Seq<char>>,
    except: Set<Seq<char>>,
    path: Seq<char>,
)
    ensures
        managed(patterns, paths, except).contains(path) <==> paths.contains(path) && !excluded(
            patterns,
            path,
        ) && !except.contains(path),
    decreases paths.len(),
{
    if paths.len() > 0 {
        managed_contains(patterns, paths.drop_last(), except, path);
        let rest = managed(patterns, paths.drop_last(), except);
        let all = managed(patterns, paths, except);
        if paths.drop_last().contains(path) {
            let k = choose|k: int| 0 <= k < paths.len() - 1 && paths.drop_last()[k] == path;
            assert(paths[k] == path);
        }
        if paths.contains(path) && path != paths.last() {
            let k = choose|k: int| 0 <= k < paths.len() && paths[k] == path;
            assert(paths.drop_last()[k] == path);
        }
        if all.contains(path) && path != paths.last() {
            let k = choose|k: int| 0 <= k < all.len() && all[k] == path;
            assert(rest[k] == path);
        }
        if rest.contains(path) {
            let k = choose|k: int| 0 <= k < rest.len() && rest[k] == path;
            assert(all[k] == path);
        }
        if path == paths.last() {
            assert(paths[paths.len() - 1] == path);
            if !excluded(patterns, path) && !except.contains(path) {
                assert(all[rest.len() as int] == path);
            } else if all.contains(path) {
                assert(rest.contains(path));
            }
        }
    }
}

} // verus!
