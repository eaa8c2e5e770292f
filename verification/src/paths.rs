//! Paths below the two roots of a sync, and how they are written on the drive.
//!
//! A relative path is a list of segments with `/` between neighbours; the empty path is the root.

use crate::quoting::{escape, escaped, escaped_is_injective, Escape};
use crate::text::{begins_with, chars_of, concat3, option_view, starts_with_char, text_eq, text_of};
use crate::text::{trim_end_char, trimmed_end, views, views_push};
use vstd::prelude::*;

verus! {

/// The index of the last `/` of a path, or `-1`.
pub open spec fn last_slash(path: Seq<char>) -> int
    decreases path.len(),
{
    if path.len() == 0 {
        -1
    } else if path.last() == '/' {
        path.len() - 1
    } else {
        last_slash(path.drop_last())
    }
}

/// The path without its last segment; the root for a path of one segment.
pub open spec fn parent_of(path: Seq<char>) -> Seq<char> {
    if last_slash(path) < 0 {
        Seq::empty()
    } else {
        path.take(last_slash(path))
    }
}

/// The last segment of a path.
pub open spec fn name_of(path: Seq<char>) -> Seq<char> {
    path.skip(last_slash(path) + 1)
}

/// The path of an entry of a directory.
pub open spec fn child_of(parent: Seq<char>, name: Seq<char>) -> Seq<char> {
    if parent.len() == 0 {
        name
    } else {
        parent + "/"@ + name
    }
}

/// A relative path as it is written on the drive, below `root`.
pub open spec fn drive_path(root: Seq<char>, relative: Seq<char>) -> Seq<char> {
    if relative.len() == 0 {
        trimmed_end(root, '/')
    } else {
        trimmed_end(root, '/') + "/"@ + escaped(Escape::Path, relative)
    }
}

/// The parts of a path: what stands between its slashes, but for nothing at all and single dots.
/// A dot that starts the path counts.
pub open spec fn path_parts(path: Seq<char>) -> Seq<Seq<char>>
    decreases path.len(),
    via path_parts_decreases
{
    if path.len() == 0 {
        Seq::empty()
    } else {
        let name = name_of(path);
        let before = path_parts(parent_of(path));
        if name.len() == 0 || (name == "."@ && last_slash(path) >= 0) {
            before
        } else {
            before.push(name)
        }
    }
}

#[via_fn]
proof fn path_parts_decreases(path: Seq<char>) {
    if path.len() > 0 {
        parent_is_shorter(path);
    }
}

/// Two ways to write one path.
pub open spec fn same_path(a: Seq<char>, b: Seq<char>) -> bool {
    begins_with(a, '/') == begins_with(b, '/') && path_parts(a) == path_parts(b)
}

/// The last part of a path, unless the path ends in a step up or has no part.
pub open spec fn file_name_of(path: Seq<char>) -> Option<Seq<char>> {
    let parts = path_parts(path);
    if parts.len() == 0 || parts.last() == ".."@ || parts.last() == "."@ {
        None
    } else {
        Some(parts.last())
    }
}

proof fn last_slash_bounds(path: Seq<char>)
    ensures
        -1 <= last_slash(path) < path.len(),
        last_slash(path) >= 0 ==> path[last_slash(path)] == '/',
        forall|i: int| last_slash(path) < i < path.len() ==> #[trigger] path[i] != '/',
    decreases path.len(),
{
    if path.len() > 0 && path.last() != '/' {
        last_slash_bounds(path.drop_last());
        assert forall|i: int| last_slash(path) < i < path.len() implies #[trigger] path[i]
            != '/' by {
            if i < path.len() - 1 {
                assert(path.drop_last()[i] == path[i]);
            }
        }
    }
}

fn slash_position(chars: &Vec<char>) -> (r: Option<usize>)
    ensures
        match r {
            Some(at) => at == last_slash(chars@) && at < chars.len(),
            None => last_slash(chars@) == -1,
        },
{
    let mut end: usize = chars.len();
    assert(chars@.take(end as int) =~= chars@);
    while end > 0
        invariant
            end <= chars.len(),
            last_slash(chars@) == last_slash(chars@.take(end as int)),
        decreases end,
    {
        if chars[end - 1] == '/' {
            return Some(end - 1);
        }
        assert(chars@.take(end as int).drop_last() =~= chars@.take(end - 1));
        end -= 1;
    }
    None
}

/// The path without its last segment; the root for a path of one segment.
pub fn relative_parent(path: &str) -> (r: String)
    ensures
        r@ == parent_of(path@),
{
    let chars = chars_of(path);
    match slash_position(&chars) {
        Some(at) => {
            assert(chars@.subrange(0, at as int) =~= chars@.take(at as int));
            text_of(&chars, 0, at)
        },
        None => String::new(),
    }
}

/// The last segment of a path.
pub fn relative_name(path: &str) -> (r: String)
    ensures
        r@ == name_of(path@),
{
    let chars = chars_of(path);
    let from = match slash_position(&chars) {
        Some(at) => at + 1,
        None => 0,
    };
    assert(chars@.subrange(from as int, chars@.len() as int) =~= chars@.skip(from as int));
    text_of(&chars, from, chars.len())
}

/// The path of an entry of a directory.
pub fn join_relative(parent: &str, name: &str) -> (r: String)
    ensures
        r@ == child_of(parent@, name@),
{
    if parent.is_empty() {
        name.to_owned()
    } else {
        concat3(parent, "/", name)
    }
}

/// One segment of a path as it is written on the drive.
pub fn escape_remote_segment(segment: &str) -> (r: String)
    ensures
        r@ == escaped(Escape::Segment, segment@),
{
    escape(Escape::Segment, segment)
}

/// A relative path as it is written on the drive, below `root`. Each segment is escaped; the
/// slashes between them are not.
pub fn remote_path(root: &str, relative: &str) -> (r: String)
    ensures
        r@ == drive_path(root@, relative@),
{
    let base = trim_end_char(root, '/');
    if relative.is_empty() {
        base
    } else {
        let written = escape(Escape::Path, relative);
        concat3(base.as_str(), "/", written.as_str())
    }
}

fn parts_of(path: &str) -> (r: Vec<String>)
    ensures
        views(r@) == path_parts(path@),
    decreases path@.len(),
{
    if path.is_empty() {
        let r: Vec<String> = Vec::new();
        assert(views(r@) =~= path_parts(path@));
        return r;
    }
    proof {
        parent_is_shorter(path@);
    }
    let chars = chars_of(path);
    let parent = relative_parent(path);
    let name = relative_name(path);
    let mut parts = parts_of(parent.as_str());
    let nested = slash_position(&chars).is_some();
    if name.as_str().is_empty() || (nested && text_eq(name.as_str(), ".")) {
        return parts;
    }
    proof {
        views_push(parts@, name);
    }
    parts.push(name);
    parts
}

/// Whether two texts name one path: repeated and trailing slashes do not count, nor do single dots
/// after the start.
pub fn names_same_path(a: &str, b: &str) -> (r: bool)
    ensures
        r == same_path(a@, b@),
{
    if starts_with_char(a, '/') != starts_with_char(b, '/') {
        return false;
    }
    let left = parts_of(a);
    let right = parts_of(b);
    if left.len() != right.len() {
        assert(views(left@).len() != views(right@).len());
        return false;
    }
    let mut i: usize = 0;
    while i < left.len()
        invariant
            i <= left.len() == right.len(),
            views(left@) == path_parts(a@),
            views(right@) == path_parts(b@),
            forall|k: int| 0 <= k < i ==> views(left@)[k] == #[trigger] views(right@)[k],
        decreases left.len() - i,
    {
        if !text_eq(left[i].as_str(), right[i].as_str()) {
            assert(views(left@)[i as int] != views(right@)[i as int]);
            return false;
        }
        assert(views(left@)[i as int] == views(right@)[i as int]);
        i += 1;
    }
    assert(views(left@) =~= views(right@));
    true
}

/// The last part of a path, unless the path ends in a step up or has no part.
pub fn file_name(path: &str) -> (r: Option<String>)
    ensures
        option_view(r) == file_name_of(path@),
{
    let mut parts = parts_of(path);
    let ghost all = views(parts@);
    match parts.pop() {
        None => None,
        Some(last) => {
            assert(last@ == all.last());
            if text_eq(last.as_str(), "..") || text_eq(last.as_str(), ".") {
                None
            } else {
                Some(last)
            }
        },
    }
}

/// A parent is shorter than its path.
pub proof fn parent_is_shorter(path: Seq<char>)
    requires
        path.len() > 0,
    ensures
        parent_of(path).len() < path.len(),
{
    last_slash_bounds(path);
}

/// A directory is the parent of its entries, and an entry keeps its name.
pub proof fn parent_of_child(parent: Seq<char>, name: Seq<char>)
    requires
        !name.contains('/'),
    ensures
        parent_of(child_of(parent, name)) == parent,
        name_of(child_of(parent, name)) == name,
{
    reveal_strlit("/");
    let path = child_of(parent, name);
    last_slash_bounds(path);
    let at = last_slash(path);
    if parent.len() == 0 {
        assert(path == name);
        if at >= 0 {
            assert(name.contains(path[at]));
        }
        assert(name.skip(0) =~= name);
        assert(parent_of(path) =~= parent);
    } else {
        let k = parent.len() as int;
        assert(path[k] == '/');
        if at > k {
            assert(path[at] == name[at - k - 1]);
            assert(name.contains(path[at]));
        }
        assert(at == k);
        assert(path.take(at) =~= parent);
        assert(path.skip(at + 1) =~= name);
    }
}

/// A path is an entry of its parent, but for one directly below the root whose name is all that
/// follows a leading slash.
pub proof fn child_of_parent(path: Seq<char>)
    requires
        path.len() > 0,
        path[0] != '/',
    ensures
        child_of(parent_of(path), name_of(path)) == path,
        !name_of(path).contains('/'),
{
    reveal_strlit("/");
    last_slash_bounds(path);
    let at = last_slash(path);
    if at < 0 {
        assert(path.skip(0) =~= path);
    } else {
        assert(at > 0);
        assert(path.take(at) + "/"@ + path.skip(at + 1) =~= path);
    }
    let name = name_of(path);
    if name.contains('/') {
        let i = choose|i: int| 0 <= i < name.len() && name[i] == '/';
        assert(path[at + 1 + i] == '/');
    }
}

/// Different relative paths are written differently on the drive.
pub proof fn drive_path_is_injective(root: Seq<char>, a: Seq<char>, b: Seq<char>)
    requires
        drive_path(root, a) == drive_path(root, b),
    ensures
        a == b,
{
    reveal_strlit("/");
    let base = trimmed_end(root, '/');
    if a.len() > 0 && b.len() > 0 {
        let k = base.len() as int + 1;
        assert(drive_path(root, a).skip(k) =~= escaped(Escape::Path, a));
        assert(drive_path(root, b).skip(k) =~= escaped(Escape::Path, b));
        escaped_is_injective(Escape::Path, a, b);
    } else {
        assert(a.len() > 0 ==> drive_path(root, a).len() > base.len());
        assert(b.len() > 0 ==> drive_path(root, b).len() > base.len());
        assert(a =~= b);
    }
}

/// A path is written as its segments, each escaped, with slashes between them.
pub proof fn escaped_path_by_segments(parent: Seq<char>, name: Seq<char>)
    requires
        parent.len() > 0,
        !name.contains('/'),
    ensures
        escaped(Escape::Path, child_of(parent, name)) == escaped(Escape::Path, parent) + "/"@
            + escaped(Escape::Segment, name),
{
    reveal_strlit("/");
    escaped_concat(Escape::Path, parent + "/"@, name);
    escaped_concat(Escape::Path, parent, "/"@);
    reveal_with_fuel(escaped, 2);
    assert("/"@.drop_first() =~= Seq::<char>::empty());
    assert(escaped(Escape::Path, "/"@) =~= "/"@);
    segment_as_path(name);
}

proof fn escaped_concat(rule: Escape, a: Seq<char>, b: Seq<char>)
    ensures
        escaped(rule, a + b) == escaped(rule, a) + escaped(rule, b),
    decreases a.len(),
{
    if a.len() == 0 {
        assert(a + b =~= b);
        assert(escaped(rule, a) + escaped(rule, b) =~= escaped(rule, b));
    } else {
        assert((a + b).drop_first() =~= a.drop_first() + b);
        escaped_concat(rule, a.drop_first(), b);
        assert(escaped(rule, a + b) =~= escaped(rule, a) + escaped(rule, b));
    }
}

proof fn segment_as_path(name: Seq<char>)
    requires
        !name.contains('/'),
    ensures
        escaped(Escape::Path, name) == escaped(Escape::Segment, name),
    decreases name.len(),
{
    if name.len() > 0 {
        assert(name.contains(name[0]));
        assert forall|c: char| name.drop_first().contains(c) implies name.contains(c) by {
            let i = choose|i: int| 0 <= i < name.drop_first().len() && name.drop_first()[i] == c;
            assert(name[i + 1] == c);
        }
        segment_as_path(name.drop_first());
    }
}

} // verus!
