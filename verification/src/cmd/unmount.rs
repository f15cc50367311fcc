//! `unisonfs unmount`: which mount is meant.

use crate::paths::{file_name, name_in};
use crate::pattern::{before_first, contains, cut_first, first_at, split_first, until};
use crate::text::{copy_text, lines_of, opt_view, same_text, split_lines, texts, trim, trimmed};
use vstd::prelude::*;

verus! {

/// The tag that a path or a bare tag names.
pub open spec fn tag_in(path: Seq<char>) -> Seq<char> {
    match name_in(path) {
        Some(n) => n,
        None => path,
    }
}

/// The tag that a path or a bare tag names.
pub fn tag_of(path: &str) -> (r: String)
    ensures
        r@ == tag_in(path@),
{
    match file_name(path) {
        Some(n) => n,
        None => copy_text(path),
    }
}

/// The path in a line of the system's mount table, where the line is of a
/// loopback NFS mount:
///
/// ```text
/// 127.0.0.1:/ on /path (nfs, ...)
/// 127.0.0.1:/ on /path type nfs (rw,...)
/// ```
pub open spec fn mounted_at(line: Seq<char>) -> Option<Seq<char>> {
    if first_at(line, "127.0.0.1:/"@) is None {
        None
    } else {
        match cut_first(line, " on "@) {
            Some((_, rest)) => Some(
                trimmed(before_first(before_first(before_first(rest, " on "@), " type "@), " ("@)),
            ),
            None => None,
        }
    }
}

/// The line is of a loopback NFS mount whose path ends with `tag`.
pub open spec fn is_mount_of(line: Seq<char>, tag: Seq<char>) -> bool {
    match mounted_at(line) {
        Some(path) => path.len() > 0 && name_in(path) == Some(tag),
        None => false,
    }
}

/// The path of the first line from `i` on that is of the mount.
pub open spec fn first_mount(lines: Seq<Seq<char>>, tag: Seq<char>, i: int) -> Option<Seq<char>>
    decreases lines.len() - i,
{
    if i < 0 || i >= lines.len() {
        None
    } else if is_mount_of(lines[i], tag) {
        mounted_at(lines[i])
    } else {
        first_mount(lines, tag, i + 1)
    }
}

fn read_line(line: &str) -> (r: Option<String>)
    ensures
        opt_view(r) == mounted_at(line@),
{
    if !contains(line, "127.0.0.1:/") {
        return None;
    }
    match split_first(line, " on ") {
        Some((_, rest)) => {
            let a = until(rest.as_str(), " on ");
            let b = until(a.as_str(), " type ");
            let c = until(b.as_str(), " (");
            Some(trim(c.as_str()))
        },
        None => None,
    }
}

/// Finds the path of a mount by its tag in the output of `mount`.
pub fn find_mount(table: &str, tag: &str) -> (r: Option<String>)
    ensures
        opt_view(r) == first_mount(lines_of(table@), tag@, 0),
{
    let lines = split_lines(table);
    let ghost all = texts(lines@);
    let mut i: usize = 0;
    while i < lines.len()
        invariant
            i <= lines@.len(),
            all == texts(lines@),
            all == lines_of(table@),
            first_mount(all, tag@, 0) == first_mount(all, tag@, i as int),
        decreases lines@.len() - i,
    {
        assert(all[i as int] == lines@[i as int]@);
        match read_line(lines[i].as_str()) {
            Some(path) => {
                if !path.as_str().is_empty() {
                    match file_name(path.as_str()) {
                        Some(n) => {
                            if same_text(n.as_str(), tag) {
                                return Some(path);
                            }
                        },
                        None => {},
                    }
                }
            },
            None => {},
        }
        i += 1;
    }
    None
}

/// Where the path of the mount comes from.
#[derive(Debug, Clone, Copy, PartialEq, Eq, Structural)]
pub enum MountSource {
    /// The argument is the path.
    Argument,
    /// The mount table, and the daemon's status where the table has nothing.
    TableOrDaemon,
}

/// An argument is the path itself.
pub open spec fn names_path(is_absolute: bool, exists_: bool) -> bool {
    is_absolute || exists_
}

/// An argument that is absolute or exists is the path itself; any other is a
/// tag.
pub fn mount_source(is_absolute: bool, exists_: bool) -> (r: MountSource)
    ensures
        r == (if is_absolute || exists_ {
            MountSource::Argument
        } else {
            MountSource::TableOrDaemon
        }),
        r is Argument <==> names_path(is_absolute, exists_),
{
    if is_absolute || exists_ {
        MountSource::Argument
    } else {
        MountSource::TableOrDaemon
    }
}

/// A path that is found ends with the tag that was looked for.
pub proof fn law_found_mount_has_tag(lines: Seq<Seq<char>>, tag: Seq<char>, i: int)
    requires
        0 <= i,
        first_mount(lines, tag, i) is Some,
    ensures
        name_in(first_mount(lines, tag, i)->0) == Some(tag),
    decreases lines.len() - i,
{
    if i < lines.len() && !is_mount_of(lines[i], tag) {
        law_found_mount_has_tag(lines, tag, i + 1);
    }
}

} // verus!
