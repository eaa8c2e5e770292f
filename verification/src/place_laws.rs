//! How places are written, and how texts are ordered.

use crate::error::Fault;
use crate::paths::{drive_path, file_name_of, last_slash, name_of, parent_of, path_parts};
use crate::places::{cli_cache_dir, path_joined, state_dir};
use crate::quoting::{escaped, escaped_char, Escape};
use crate::scan::local_path_of;
use crate::text::{text_lt, trimmed_end};
use crate::work_laws::{lies_in, paths_lie_in_their_parent};
use vstd::prelude::*;

verus! {

/// A path seen from a base: it stands for itself if it begins with a slash or the base is empty, and
/// else it is put behind the base, with one slash between them.
pub proof fn a_path_is_put_behind_its_base(base: Seq<char>, path: Seq<char>)
    ensures
        path.len() > 0 && path[0] == '/' ==> path_joined(base, path) == path,
        base.len() == 0 ==> path_joined(base, path) == path,
        base.len() > 0 && base[base.len() - 1] == '/' && !(path.len() > 0 && path[0] == '/')
            ==> path_joined(base, path) == base + path,
        base.len() > 0 && base[base.len() - 1] != '/' && !(path.len() > 0 && path[0] == '/')
            ==> path_joined(base, path) == base + seq!['/'] + path,
{
    reveal_strlit("/");
    assert("/"@ =~= seq!['/']);
}

/// The local place of a path is the root for the empty path, and else the path seen from the root.
pub proof fn a_local_place_is_below_the_root(root: Seq<char>, path: Seq<char>)
    ensures
        path.len() == 0 ==> local_path_of(root, path) == root,
        path.len() > 0 && path[0] != '/' && root.len() > 0 && root[root.len() - 1] != '/'
            ==> local_path_of(root, path) == root + seq!['/'] + path,
        path.len() > 0 && path[0] != '/' && root.len() > 0 && root[root.len() - 1] == '/'
            ==> local_path_of(root, path) == root + path,
{
    a_path_is_put_behind_its_base(root, path);
}

proof fn trimmed_slashes(root: Seq<char>)
    ensures
        ({
            let base = trimmed_end(root, '/');
            &&& base.len() <= root.len()
            &&& base == root.take(base.len() as int)
            &&& base.len() > 0 ==> base[base.len() - 1] != '/'
            &&& forall|i: int| base.len() <= i < root.len() ==> #[trigger] root[i] == '/'
        }),
    decreases root.len(),
{
    if root.len() > 0 && root.last() == '/' {
        let rest = root.drop_last();
        trimmed_slashes(rest);
        let base = trimmed_end(root, '/');
        assert(base =~= root.take(base.len() as int));
        assert forall|i: int| base.len() <= i < root.len() implies #[trigger] root[i] == '/' by {
            if i < rest.len() {
                assert(rest[i] == root[i]);
            }
        }
    } else {
        assert(root.take(root.len() as int) =~= root);
    }
}

proof fn plain_text_stays(text: Seq<char>)
    requires
        forall|i: int| 0 <= i < text.len() ==> #[trigger] text[i] != '\\',
    ensures
        escaped(Escape::Path, text) == text,
    decreases text.len(),
{
    if text.len() > 0 {
        let rest = text.drop_first();
        assert forall|i: int| 0 <= i < rest.len() implies #[trigger] rest[i] != '\\' by {
            assert(rest[i] == text[i + 1]);
        }
        plain_text_stays(rest);
        assert(escaped(Escape::Path, text) =~= text);
    }
}

/// The path of a file on the drive is the root without the slashes at its end, and, unless the file is
/// the root itself, a slash and the path of the file. A path without a backslash is written as it is.
pub proof fn a_drive_path_is_below_the_root(root: Seq<char>, path: Seq<char>, base: Seq<char>)
    requires
        base.len() <= root.len(),
        base == root.take(base.len() as int),
        base.len() > 0 ==> base[base.len() - 1] != '/',
        forall|i: int| base.len() <= i < root.len() ==> #[trigger] root[i] == '/',
        forall|i: int| 0 <= i < path.len() ==> #[trigger] path[i] != '\\',
    ensures
        path.len() == 0 ==> drive_path(root, path) == base,
        path.len() > 0 ==> drive_path(root, path) == base + seq!['/'] + path,
{
    let trimmed = trimmed_end(root, '/');
    trimmed_slashes(root);
    if trimmed.len() < base.len() {
        assert(root[base.len() - 1] == '/');
        assert(base[base.len() - 1] == root[base.len() - 1]);
    }
    if base.len() < trimmed.len() {
        assert(root[trimmed.len() - 1] == '/');
        assert(trimmed[trimmed.len() - 1] == root[trimmed.len() - 1]);
    }
    plain_text_stays(path);
    reveal_strlit("/");
    assert("/"@ =~= seq!['/']);
}

/// A text is written piece by piece, whatever the rule is.
pub proof fn texts_are_written_piece_by_piece(rule: Escape, a: Seq<char>, b: Seq<char>)
    ensures
        escaped(rule, a + b) == escaped(rule, a) + escaped(rule, b),
    decreases a.len(),
{
    if a.len() == 0 {
        assert(a + b =~= b);
        assert(escaped(rule, a + b) =~= escaped(rule, a) + escaped(rule, b));
    } else {
        assert((a + b).drop_first() =~= a.drop_first() + b);
        texts_are_written_piece_by_piece(rule, a.drop_first(), b);
        assert(escaped(rule, a + b) =~= escaped(rule, a) + escaped(rule, b));
    }
}

/// What each character is written as. On the drive a backslash stands before a backslash, and in a
/// single segment before a slash too; in double quotes it stands before a backslash and a quote; in a
/// unit file percent and dollar signs are doubled as well; in single quotes for a shell a single quote
/// is closed around, put in double quotes and opened again. Any other character stands for itself.
pub proof fn what_a_character_is_written_as(c: char)
    ensures
        c == '\\' ==> {
            &&& escaped(Escape::Path, seq![c]) == seq!['\\', '\\']
            &&& escaped(Escape::Segment, seq![c]) == seq!['\\', '\\']
            &&& escaped(Escape::Quoted, seq![c]) == seq!['\\', '\\']
            &&& escaped(Escape::Unit, seq![c]) == seq!['\\', '\\']
        },
        c != '\\' ==> escaped(Escape::Path, seq![c]) == seq![c],
        c == '/' ==> escaped(Escape::Segment, seq![c]) == seq!['\\', '/'],
        c != '\\' && c != '/' ==> escaped(Escape::Segment, seq![c]) == seq![c],
        c == '"' ==> {
            &&& escaped(Escape::Quoted, seq![c]) == seq!['\\', '"']
            &&& escaped(Escape::Unit, seq![c]) == seq!['\\', '"']
        },
        c != '\\' && c != '"' ==> escaped(Escape::Quoted, seq![c]) == seq![c],
        c == '%' || c == '$' ==> escaped(Escape::Unit, seq![c]) == seq![c, c],
        c != '\\' && c != '"' && c != '%' && c != '$' ==> escaped(Escape::Unit, seq![c]) == seq![c],
        c == '\'' ==> escaped(Escape::Shell, seq![c]) == seq!['\'', '"', '\'', '"', '\''],
        c != '\'' ==> escaped(Escape::Shell, seq![c]) == seq![c],
{
    reveal_with_fuel(escaped, 2);
    assert(seq![c].drop_first() =~= Seq::<char>::empty());
    assert forall|rule: Escape| #[trigger] escaped(rule, seq![c]) == escaped_char(rule, c) by {
        assert(escaped(rule, seq![c]) =~= escaped_char(rule, c));
    }
}

/// A text comes before another if it is the beginning of it, or if it has the smaller character where
/// they first differ.
pub proof fn how_texts_are_ordered(a: Seq<char>, b: Seq<char>, k: int)
    requires
        0 <= k <= a.len(),
        k <= b.len(),
        forall|i: int| 0 <= i < k ==> #[trigger] a[i] == #[trigger] b[i],
    ensures
        k == a.len() && k < b.len() ==> text_lt(a, b) && !text_lt(b, a),
        k < a.len() && k < b.len() && a[k] < b[k] ==> text_lt(a, b) && !text_lt(b, a),
        k == a.len() && k == b.len() ==> !text_lt(a, b),
    decreases a.len(),
{
    if k > 0 {
        let (rest, other) = (a.drop_first(), b.drop_first());
        assert(a[0] == b[0]);
        assert forall|i: int| 0 <= i < k - 1 implies #[trigger] rest[i] == #[trigger] other[i] by {
            assert(rest[i] == a[i + 1] && other[i] == b[i + 1]);
        }
        how_texts_are_ordered(rest, other, k - 1);
    }
}

/// The name of a file is what stands behind the last slash of its path, if that is something and not
/// a step to the same folder or the one above.
pub proof fn the_name_of_a_file(path: Seq<char>, folder: Seq<char>, name: Seq<char>)
    requires
        lies_in(path, folder),
        path == if folder.len() == 0 && !(path.len() > 0 && path[0] == '/') {
            name
        } else {
            folder + seq!['/'] + name
        },
        name.len() > 0,
        name != "."@,
        name != ".."@,
    ensures
        file_name_of(path) == Some(name),
{
    paths_lie_in_their_parent(path);
    let at = last_slash(path);
    assert(lies_in(path, parent_of(path)));
    if folder.len() == 0 && !(path.len() > 0 && path[0] == '/') {
        assert forall|j: int| 0 <= j < path.len() implies #[trigger] path[j] != '/' by {}
        slash_is_at(path, -1);
    } else {
        slash_is_at(path, folder.len() as int);
    }
    assert(name_of(path) =~= name);
    assert(path_parts(path).last() == name);
}

proof fn slash_is_at(path: Seq<char>, at: int)
    requires
        -1 <= at < path.len(),
        at >= 0 ==> path[at] == '/',
        forall|j: int| at < j < path.len() ==> #[trigger] path[j] != '/',
    ensures
        last_slash(path) == at,
    decreases path.len(),
{
    if path.len() > 0 && at < path.len() - 1 {
        let rest = path.drop_last();
        assert(path[path.len() - 1] != '/');
        assert forall|j: int| at < j < rest.len() implies #[trigger] rest[j] != '/' by {
            assert(rest[j] == path[j]);
        }
        slash_is_at(rest, at);
    }
}

/// The state of the program is in `pdrive-sync` below the state directory that the environment names,
/// and else in `.local/state/pdrive-sync` below the home directory.
pub proof fn where_the_state_is(named: Option<Seq<char>>, home: Option<Seq<char>>)
    ensures
        named matches Some(base) ==> state_dir(named, home) == Ok::<Seq<char>, Fault<Seq<char>>>(
            path_joined(base, "pdrive-sync"@),
        ),
        named is None ==> (home matches Some(base) ==> state_dir(named, home) == Ok::<
            Seq<char>,
            Fault<Seq<char>>,
        >(path_joined(base, ".local/state/pdrive-sync"@))),
        named is None && home is None ==> state_dir(named, home) == Err::<
            Seq<char>,
            Fault<Seq<char>>,
        >(Fault::NoHome),
{
}

/// The cache of the client is where its own variable says, else in `proton-drive-cli` below the cache
/// directory that the environment names, else in `.cache/proton-drive-cli` below the home directory.
pub proof fn where_the_cache_is(
    own: Option<Seq<char>>,
    named: Option<Seq<char>>,
    home: Option<Seq<char>>,
)
    ensures
        own matches Some(place) ==> cli_cache_dir(own, named, home) == Ok::<
            Seq<char>,
            Fault<Seq<char>>,
        >(place),
        own is None ==> (named matches Some(base) ==> cli_cache_dir(own, named, home) == Ok::<
            Seq<char>,
            Fault<Seq<char>>,
        >(path_joined(base, "proton-drive-cli"@))),
        own is None && named is None ==> (home matches Some(base) ==> cli_cache_dir(
            own,
            named,
            home,
        ) == Ok::<Seq<char>, Fault<Seq<char>>>(path_joined(base, ".cache/proton-drive-cli"@))),
        own is None && named is None && home is None ==> cli_cache_dir(own, named, home) == Err::<
            Seq<char>,
            Fault<Seq<char>>,
        >(Fault::NoHome),
{
}

/// The parts of a path are the names in it, one after the other: those of its folder, and its own name
/// behind them.
pub proof fn the_parts_of_a_path(folder: Seq<char>, name: Seq<char>)
    requires
        name.len() > 0,
        forall|i: int| 0 <= i < name.len() ==> #[trigger] name[i] != '/',
    ensures
        path_parts(Seq::empty()) == Seq::<Seq<char>>::empty(),
        path_parts(name) == seq![name],
        folder.len() > 0 && name != "."@ ==> path_parts(folder + seq!['/'] + name) == path_parts(
            folder,
        ).push(name),
        folder.len() > 0 ==> path_parts(folder + seq!['/']) == path_parts(folder),
        folder.len() > 0 && name == "."@ ==> path_parts(folder + seq!['/'] + name) == path_parts(
            folder,
        ),
{
    let path = folder + seq!['/'] + name;
    let at = folder.len() as int;
    reveal_with_fuel(path_parts, 2);
    slash_is_at(name, -1);
    assert(name_of(name) =~= name);
    assert(parent_of(name) =~= Seq::<char>::empty());
    assert(path_parts(name) =~= seq![name]);
    assert forall|j: int| at < j < path.len() implies #[trigger] path[j] != '/' by {
        assert(path[j] == name[j - at - 1]);
    }
    slash_is_at(path, at);
    assert(name_of(path) =~= name);
    assert(parent_of(path) =~= folder);
    let bare = folder + seq!['/'];
    slash_is_at(bare, at);
    assert(name_of(bare) =~= Seq::<char>::empty());
    assert(parent_of(bare) =~= folder);
}

} // verus!
