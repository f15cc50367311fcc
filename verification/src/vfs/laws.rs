//! What the operations of an in-memory filesystem promise their callers.

use super::error::{are_known, errno_of, error_text, Errnos, VfsErrorView};
use super::mem::{bare_tree, lemma_data_sum_empty, lemma_data_sum_insert};
use super::mode::{
    lemma_default_modes, lemma_with_permissions, with_permissions, S_IFMT,
};
use super::tree::{
    attrs_set, content_cut, content_read, content_written, data_sum, dir_made, dir_removed, entry,
    file_made, is_dir_node, lemma_added, lemma_drop_entry, link_target, linked, looked_up,
    node_ok, not_opened, renamed, symlink_made, tree_ok, unlinked, Node, Tree, ROOT,
};
use super::types::{
    blocks_for, requested_time, type_of_mode, FileAttr, FileType, SetAttr, TimeOrNow, Timestamp,
};
use vstd::prelude::*;
use vstd::utf8::encode_utf8;

verus! {

// ── Attributes ──────────────────────────────────────────────────────────────

/// The blocks of a file hold its bytes, and none of them is unused.
pub proof fn law_blocks_hold_the_bytes(size: u64)
    ensures
        blocks_for(size) * 512 >= size,
        blocks_for(size) * 512 < size + 512,
{
}

/// A mode word is of one file type, which its permission bits have no part in.
pub proof fn law_permissions_keep_the_type(mode: u32, wanted: u32)
    ensures
        type_of_mode(with_permissions(mode, wanted)) == type_of_mode(mode),
        with_permissions(mode, wanted) & !S_IFMT == wanted & !S_IFMT,
        with_permissions(with_permissions(mode, wanted), mode) == mode,
{
    lemma_with_permissions(mode, wanted);
    lemma_with_permissions(with_permissions(mode, wanted), mode);
    let m = with_permissions(with_permissions(mode, wanted), mode);
    assert(m & S_IFMT == mode & S_IFMT && m & !S_IFMT == mode & !S_IFMT);
    assert((m & 0o170000 == mode & 0o170000 && m & !0o170000u32 == mode & !0o170000u32) ==> m
        == mode) by (bit_vector);
}

/// A time that was given is taken, and the time of the request where it was not.
pub proof fn law_wanted_time_is_taken(ts: Timestamp, now: Timestamp)
    ensures
        requested_time(TimeOrNow::Time(ts), now) == ts,
        requested_time(TimeOrNow::Now, now) == now,
{
}

/// An attribute update changes what it names and the time of the last change, and
/// nothing else. A new size cuts the content or fills it up with zeros.
pub proof fn law_attributes_are_set(t: Tree, ino: u64, a: SetAttr, now: Timestamp)
    ensures
        !t.inodes.contains_key(ino) ==> attrs_set(t, ino, a, now) == (
            t,
            Err::<FileAttr, VfsErrorView>(VfsErrorView::NotFound),
        ),
        t.inodes.contains_key(ino) ==> {
            let (u, r) = attrs_set(t, ino, a, now);
            let before = t.inodes[ino];
            let after = u.inodes[ino];
            &&& r == Ok::<FileAttr, VfsErrorView>(after.attr)
            &&& after.attr.ctime == now
            &&& after.attr.ino == before.attr.ino
            &&& after.attr.nlink == before.attr.nlink
            &&& after.attr.rdev == before.attr.rdev
            &&& after.attr.blksize == before.attr.blksize
            &&& type_of_mode(after.attr.mode) == type_of_mode(before.attr.mode)
            &&& a.mode is None ==> after.attr.mode == before.attr.mode
            &&& a.mode is Some ==> after.attr.mode & !S_IFMT == a.mode->0 & !S_IFMT
            &&& after.attr.uid == (if a.uid is Some {
                a.uid->0
            } else {
                before.attr.uid
            })
            &&& after.attr.gid == (if a.gid is Some {
                a.gid->0
            } else {
                before.attr.gid
            })
            &&& a.atime is None ==> after.attr.atime == before.attr.atime
            &&& a.atime is Some ==> after.attr.atime == requested_time(a.atime->0, now)
            &&& a.mtime is None ==> after.attr.mtime == before.attr.mtime
            &&& a.mtime is Some ==> after.attr.mtime == requested_time(a.mtime->0, now)
            &&& a.size is None ==> after.attr.size == before.attr.size && after.attr.blocks
                == before.attr.blocks && after.data == before.data
            &&& a.size is Some ==> after.attr.size == a.size->0 && after.attr.blocks == blocks_for(
                a.size->0,
            )
            &&& a.size is Some && before.data is Some ==> {
                &&& after.data is Some
                &&& after.data->0.len() == a.size->0
                &&& forall|i: int|
                    0 <= i < a.size->0 ==> #[trigger] after.data->0[i] == (if i
                        < before.data->0.len() {
                        before.data->0[i]
                    } else {
                        0
                    })
            }
            &&& after.children == before.children && after.target == before.target
            &&& forall|j: u64| j != ino ==> #[trigger] u.inodes.get(j) == t.inodes.get(j)
            &&& u.next == t.next
        },
{
    if t.inodes.contains_key(ino) && a.mode is Some {
        lemma_with_permissions(t.inodes[ino].attr.mode, a.mode->0);
    }
    let u = attrs_set(t, ino, a, now).0;
    assert forall|j: u64| j != ino implies #[trigger] u.inodes.get(j) == t.inodes.get(j) by {}
}

// ── Names that are made ─────────────────────────────────────────────────────

/// Both trees have the same entries, save for one name.
pub open spec fn same_entries_but(t: Tree, u: Tree, parent: u64, name: Seq<char>) -> bool {
    forall|p: u64, n: Seq<char>|
        (p, n) != (parent, name) ==> #[trigger] entry(u, p, n) == entry(t, p, n)
}

/// The inodes of `t` other than `a` and `b` are in `u` as they were.
pub open spec fn same_nodes_but(t: Tree, u: Tree, a: u64, b: u64) -> bool {
    forall|j: u64| j != a && j != b ==> #[trigger] u.inodes.get(j) == t.inodes.get(j)
}

/// A file is made in a directory unless its name is longer than a name can be. It
/// is empty, has one link, and belongs to whom it was made for. Where the name is
/// there already, nothing changes and its attributes are given.
pub proof fn law_file_is_made(
    t: Tree,
    parent: u64,
    name: Seq<char>,
    uid: u32,
    gid: u32,
    now: Timestamp,
)
    requires
        tree_ok(t),
        t.next < u64::MAX,
    ensures
        ({
            let (u, r) = file_made(t, parent, name, uid, gid, now);
            &&& encode_utf8(name).len() > 255 ==> r == Err::<FileAttr, VfsErrorView>(
                VfsErrorView::NameTooLong,
            )
            &&& r is Err ==> u == t
            &&& encode_utf8(name).len() <= 255 && !t.inodes.contains_key(parent) ==> r == Err::<
                FileAttr,
                VfsErrorView,
            >(VfsErrorView::NotFound)
            &&& encode_utf8(name).len() <= 255 && t.inodes.contains_key(parent) && !is_dir_node(
                t.inodes[parent],
            ) ==> r == Err::<FileAttr, VfsErrorView>(VfsErrorView::NotDirectory)
            &&& encode_utf8(name).len() <= 255 && t.inodes.contains_key(parent) && is_dir_node(
                t.inodes[parent],
            ) ==> {
                &&& r is Ok
                &&& looked_up(u, parent, name) == Some(r->Ok_0)
                &&& entry(t, parent, name) is Some ==> u == t
                &&& entry(t, parent, name) is None ==> {
                    let ino = t.next;
                    &&& !t.inodes.contains_key(ino)
                    &&& entry(u, parent, name) == Some(ino)
                    &&& u.inodes[ino].data == Some(Seq::<u8>::empty())
                    &&& type_of_mode(r->Ok_0.mode) == FileType::Regular
                    &&& r->Ok_0.ino == ino && r->Ok_0.nlink == 1 && r->Ok_0.size == 0
                    &&& r->Ok_0.uid == uid && r->Ok_0.gid == gid
                    &&& r->Ok_0.atime == now && r->Ok_0.mtime == now && r->Ok_0.ctime == now
                    &&& u.inodes[parent].attr == t.inodes[parent].attr
                    &&& same_entries_but(t, u, parent, name)
                    &&& same_nodes_but(t, u, parent, ino)
                }
            }
        }),
{
    lemma_default_modes();
    if t.inodes.contains_key(parent) && is_dir_node(t.inodes[parent]) {
        assert(node_ok(t, parent));
        if entry(t, parent, name) is None && encode_utf8(name).len() <= 255 {
            let (u, r) = file_made(t, parent, name, uid, gid, now);
            lemma_added(t, parent, name, super::tree::file_node(t.next, uid, gid, now));
            if t.inodes.contains_key(t.next) {
                assert(node_ok(t, t.next));
            }
            lemma_added_alone(t, parent, name, super::tree::file_node(t.next, uid, gid, now));
        }
    }
}

/// What is added to a directory changes no other name and no other inode.
proof fn lemma_added_alone(t: Tree, parent: u64, name: Seq<char>, node: Node)
    requires
        tree_ok(t),
        t.inodes.contains_key(parent),
        t.inodes[parent].children is Some,
        node.children is Some ==> node.children->0 == Map::<Seq<char>, u64>::empty(),
    ensures
        ({
            let u = super::tree::added(t, parent, name, node);
            &&& same_entries_but(t, u, parent, name)
            &&& same_nodes_but(t, u, parent, t.next)
            &&& u.inodes[parent].attr == t.inodes[parent].attr
        }),
{
    let u = super::tree::added(t, parent, name, node);
    assert(node_ok(t, parent));
    if t.inodes.contains_key(t.next) {
        assert(node_ok(t, t.next));
    }
    assert forall|p: u64, n: Seq<char>| (p, n) != (parent, name) implies #[trigger] entry(u, p, n)
        == entry(t, p, n) by {
        if p == parent {
            let before = t.inodes[parent].children->0;
            assert(n != name);
            assert(before.insert(name, t.next).get(n) == before.get(n));
        } else if p == t.next {
            assert(entry(u, p, n) is None);
        }
    }
    assert forall|j: u64| j != parent && j != t.next implies #[trigger] u.inodes.get(j)
        == t.inodes.get(j) by {}
}

/// A directory is made in a directory under a new name. It is empty, and its
/// parent has a link more.
pub proof fn law_directory_is_made(
    t: Tree,
    parent: u64,
    name: Seq<char>,
    uid: u32,
    gid: u32,
    now: Timestamp,
)
    requires
        tree_ok(t),
        t.next < u64::MAX,
        t.inodes.contains_key(parent) && is_dir_node(t.inodes[parent]),
        t.inodes[parent].attr.nlink < u32::MAX,
    ensures
        ({
            let (u, r) = dir_made(t, parent, name, uid, gid, now);
            &&& encode_utf8(name).len() > 255 ==> r == Err::<FileAttr, VfsErrorView>(
                VfsErrorView::NameTooLong,
            )
            &&& r is Err ==> u == t
            &&& encode_utf8(name).len() <= 255 && entry(t, parent, name) is Some ==> r == Err::<
                FileAttr,
                VfsErrorView,
            >(VfsErrorView::AlreadyExists)
            &&& encode_utf8(name).len() <= 255 && entry(t, parent, name) is None ==> {
                let ino = t.next;
                &&& r is Ok
                &&& entry(u, parent, name) == Some(ino)
                &&& looked_up(u, parent, name) == Some(r->Ok_0)
                &&& u.inodes[ino].children == Some(Map::<Seq<char>, u64>::empty())
                &&& type_of_mode(r->Ok_0.mode) == FileType::Directory
                &&& r->Ok_0.ino == ino && r->Ok_0.nlink == 2
                &&& r->Ok_0.uid == uid && r->Ok_0.gid == gid
                &&& r->Ok_0.atime == now && r->Ok_0.mtime == now && r->Ok_0.ctime == now
                &&& u.inodes[parent].attr.nlink == t.inodes[parent].attr.nlink + 1
                &&& same_entries_but(t, u, parent, name)
                &&& same_nodes_but(t, u, parent, ino)
            }
        }),
{
    lemma_default_modes();
    assert(node_ok(t, parent));
    if entry(t, parent, name) is None && encode_utf8(name).len() <= 255 {
        let node = super::tree::dir_node(t.next, uid, gid, now);
        lemma_added(t, parent, name, node);
        lemma_added_alone(t, parent, name, node);
        let t1 = super::tree::added(t, parent, name, node);
        let u = dir_made(t, parent, name, uid, gid, now).0;
        assert forall|p: u64, n: Seq<char>| #[trigger] entry(u, p, n) == entry(t1, p, n) by {}
        assert forall|j: u64| j != parent && j != t.next implies #[trigger] u.inodes.get(j)
            == t.inodes.get(j) by {
            assert(t1.inodes.get(j) == t.inodes.get(j));
        }
    }
}

/// A symbolic link is made in a directory under a new name. It leads to its target
/// and is as long as that.
pub proof fn law_symlink_is_made(
    t: Tree,
    parent: u64,
    name: Seq<char>,
    target: Seq<char>,
    uid: u32,
    gid: u32,
    now: Timestamp,
)
    requires
        tree_ok(t),
        t.next < u64::MAX,
        t.inodes.contains_key(parent) && is_dir_node(t.inodes[parent]),
        encode_utf8(target).len() <= u64::MAX,
    ensures
        ({
            let (u, r) = symlink_made(t, parent, name, target, uid, gid, now);
            &&& r is Err ==> u == t
            &&& entry(t, parent, name) is Some ==> r == Err::<FileAttr, VfsErrorView>(
                VfsErrorView::AlreadyExists,
            )
            &&& entry(t, parent, name) is None ==> {
                let ino = t.next;
                &&& r is Ok
                &&& entry(u, parent, name) == Some(ino)
                &&& looked_up(u, parent, name) == Some(r->Ok_0)
                &&& link_target(u, ino) == Some(target)
                &&& r->Ok_0.size == encode_utf8(target).len()
                &&& type_of_mode(r->Ok_0.mode) == FileType::Symlink
                &&& r->Ok_0.ino == ino && r->Ok_0.nlink == 1
                &&& r->Ok_0.uid == uid && r->Ok_0.gid == gid
                &&& same_entries_but(t, u, parent, name)
                &&& same_nodes_but(t, u, parent, ino)
            }
        }),
{
    lemma_default_modes();
    assert(node_ok(t, parent));
    if entry(t, parent, name) is None {
        let node = super::tree::link_node(t.next, target, uid, gid, now);
        lemma_added(t, parent, name, node);
        lemma_added_alone(t, parent, name, node);
    }
}

/// A file gets a further name. Both lead to it, and it has a link more.
pub proof fn law_file_is_linked(t: Tree, ino: u64, parent: u64, name: Seq<char>)
    requires
        tree_ok(t),
        t.inodes.contains_key(ino) && t.inodes[ino].attr.nlink < u32::MAX,
        t.inodes.contains_key(parent) && is_dir_node(t.inodes[parent]),
    ensures
        ({
            let (u, r) = linked(t, ino, parent, name);
            &&& r is Err ==> u == t
            &&& is_dir_node(t.inodes[ino]) ==> r == Err::<FileAttr, VfsErrorView>(
                VfsErrorView::IsDirectory,
            )
            &&& !is_dir_node(t.inodes[ino]) && entry(t, parent, name) is Some ==> r == Err::<
                FileAttr,
                VfsErrorView,
            >(VfsErrorView::AlreadyExists)
            &&& !is_dir_node(t.inodes[ino]) && entry(t, parent, name) is None ==> {
                &&& r is Ok
                &&& entry(u, parent, name) == Some(ino)
                &&& looked_up(u, parent, name) == Some(r->Ok_0)
                &&& r->Ok_0 == (FileAttr {
                    nlink: (t.inodes[ino].attr.nlink + 1) as u32,
                    ..t.inodes[ino].attr
                })
                &&& u.inodes[ino].data == t.inodes[ino].data
                &&& same_entries_but(t, u, parent, name)
                &&& same_nodes_but(t, u, parent, ino)
            }
        }),
{
    assert(node_ok(t, parent));
    assert(node_ok(t, ino));
    if !is_dir_node(t.inodes[ino]) && entry(t, parent, name) is None {
        let u = linked(t, ino, parent, name).0;
        let before = t.inodes[parent].children->0;
        assert forall|p: u64, n: Seq<char>| (p, n) != (parent, name) implies #[trigger] entry(
            u,
            p,
            n,
        ) == entry(t, p, n) by {
            if p == parent {
                assert(before.insert(name, ino).get(n) == before.get(n));
            }
        }
        assert forall|j: u64| j != parent && j != ino implies #[trigger] u.inodes.get(j)
            == t.inodes.get(j) by {}
    }
}

// ── Names that go ───────────────────────────────────────────────────────────

/// An unlinked name is gone. The file is still there, with a link less, unless
/// that was its last. Other names and files are as they were.
pub proof fn law_name_is_unlinked(t: Tree, parent: u64, name: Seq<char>)
    requires
        tree_ok(t),
    ensures
        ({
            let (u, r) = unlinked(t, parent, name);
            &&& r is Err ==> u == t
            &&& !t.inodes.contains_key(parent) ==> r == Err::<(), VfsErrorView>(
                VfsErrorView::NotFound,
            )
            &&& t.inodes.contains_key(parent) && is_dir_node(t.inodes[parent]) && entry(
                t,
                parent,
                name,
            ) is None ==> r == Err::<(), VfsErrorView>(VfsErrorView::NotFound)
            &&& entry(t, parent, name) is Some ==> {
                let ino = entry(t, parent, name)->0;
                &&& is_dir_node(t.inodes[ino]) ==> r == Err::<(), VfsErrorView>(
                    VfsErrorView::IsDirectory,
                )
                &&& !is_dir_node(t.inodes[ino]) ==> {
                    &&& r is Ok
                    &&& entry(u, parent, name) is None
                    &&& t.inodes[ino].attr.nlink <= 1 ==> !u.inodes.contains_key(ino)
                    &&& t.inodes[ino].attr.nlink > 1 ==> u.inodes.get(ino) == Some(
                        Node {
                            attr: FileAttr {
                                nlink: (t.inodes[ino].attr.nlink - 1) as u32,
                                ..t.inodes[ino].attr
                            },
                            ..t.inodes[ino]
                        },
                    )
                    &&& u.inodes[parent].attr == t.inodes[parent].attr
                    &&& same_entries_but(t, u, parent, name)
                    &&& same_nodes_but(t, u, parent, ino)
                }
            }
        }),
{
    if entry(t, parent, name) is Some {
        let ino = entry(t, parent, name)->0;
        assert(node_ok(t, parent));
        assert(t.inodes.contains_key(ino));
        assert(node_ok(t, ino));
        if !is_dir_node(t.inodes[ino]) {
            let u = unlinked(t, parent, name).0;
            let before = t.inodes[parent].children->0;
            assert(ino != parent);
            assert forall|p: u64, n: Seq<char>| (p, n) != (parent, name) implies #[trigger] entry(
                u,
                p,
                n,
            ) == entry(t, p, n) by {
                if p == parent {
                    assert(before.remove(name).get(n) == before.get(n));
                }
            }
            assert forall|j: u64| j != parent && j != ino implies #[trigger] u.inodes.get(j)
                == t.inodes.get(j) by {}
        }
    }
}

/// Only an empty directory is removed. Its parent has a link less.
pub proof fn law_directory_is_removed(t: Tree, parent: u64, name: Seq<char>)
    requires
        tree_ok(t),
        entry(t, parent, name) is Some,
    ensures
        ({
            let (u, r) = dir_removed(t, parent, name);
            let ino = entry(t, parent, name)->0;
            &&& r is Err ==> u == t
            &&& !is_dir_node(t.inodes[ino]) ==> r == Err::<(), VfsErrorView>(
                VfsErrorView::NotDirectory,
            )
            &&& is_dir_node(t.inodes[ino]) && (exists|n: Seq<char>| entry(t, ino, n) is Some)
                ==> r == Err::<(), VfsErrorView>(VfsErrorView::NotEmpty)
            &&& is_dir_node(t.inodes[ino]) && ino != parent && (forall|n: Seq<char>|
                entry(t, ino, n) is None) ==> {
                &&& r is Ok
                &&& entry(u, parent, name) is None
                &&& !u.inodes.contains_key(ino)
                &&& t.inodes[parent].attr.nlink > 0 ==> u.inodes[parent].attr == (FileAttr {
                    nlink: (t.inodes[parent].attr.nlink - 1) as u32,
                    ..t.inodes[parent].attr
                })
                &&& same_entries_but(t, u, parent, name)
                &&& same_nodes_but(t, u, parent, ino)
            }
        }),
{
    let ino = entry(t, parent, name)->0;
    assert(node_ok(t, parent));
    assert(t.inodes.contains_key(ino));
    assert(node_ok(t, ino));
    if is_dir_node(t.inodes[ino]) {
        let inside = t.inodes[ino].children->0;
        let none = Map::<Seq<char>, u64>::empty();
        if exists|n: Seq<char>| entry(t, ino, n) is Some {
            let n = choose|n: Seq<char>| entry(t, ino, n) is Some;
            assert(inside.contains_key(n) && !none.contains_key(n));
        }
        if ino != parent && forall|n: Seq<char>| entry(t, ino, n) is None {
            assert forall|n: Seq<char>| !#[trigger] inside.contains_key(n) by {
                assert(entry(t, ino, n) is None);
            }
            assert(inside =~= none);
            let u = dir_removed(t, parent, name).0;
            let before = t.inodes[parent].children->0;
            assert forall|p: u64, n: Seq<char>| (p, n) != (parent, name) implies #[trigger] entry(
                u,
                p,
                n,
            ) == entry(t, p, n) by {
                if p == parent {
                    assert(before.remove(name).get(n) == before.get(n));
                }
            }
            assert forall|j: u64| j != parent && j != ino implies #[trigger] u.inodes.get(j)
                == t.inodes.get(j) by {}
        }
    }
}

/// A renamed entry leads to the same inode under its new name, and the old name is
/// gone. The inode and all other names are as they were.
pub proof fn law_entry_is_renamed(
    t: Tree,
    old_parent: u64,
    old_name: Seq<char>,
    new_parent: u64,
    new_name: Seq<char>,
)
    requires
        tree_ok(t),
        t.inodes.contains_key(new_parent) && is_dir_node(t.inodes[new_parent]),
        (old_parent, old_name) != (new_parent, new_name),
        entry(t, new_parent, new_name) is None,
    ensures
        ({
            let (u, r) = renamed(t, old_parent, old_name, new_parent, new_name);
            &&& r is Err ==> u == t
            &&& r is Ok <==> entry(t, old_parent, old_name) is Some
            &&& entry(t, old_parent, old_name) is Some ==> {
                let ino = entry(t, old_parent, old_name)->0;
                &&& entry(u, new_parent, new_name) == Some(ino)
                &&& entry(u, old_parent, old_name) is None
                &&& forall|p: u64, n: Seq<char>|
                    (p, n) != (old_parent, old_name) && (p, n) != (new_parent, new_name)
                        ==> #[trigger] entry(u, p, n) == entry(t, p, n)
                &&& forall|j: u64| #[trigger]
                    u.inodes.contains_key(j) == t.inodes.contains_key(j)
                &&& forall|j: u64| #[trigger]
                    t.inodes.contains_key(j) ==> u.inodes[j].attr == t.inodes[j].attr
                        && u.inodes[j].data == t.inodes[j].data && u.inodes[j].target
                        == t.inodes[j].target
            }
        }),
{
    assert(node_ok(t, new_parent));
    if entry(t, old_parent, old_name) is Some {
        assert(node_ok(t, old_parent));
        lemma_drop_entry(t, old_parent, old_name);
        let t1 = super::tree::with_node(
            t,
            old_parent,
            super::tree::without_child(t.inodes[old_parent], old_name),
        );
        assert(entry(t1, new_parent, new_name) == entry(t, new_parent, new_name));
        let u = renamed(t, old_parent, old_name, new_parent, new_name).0;
        let before = t1.inodes[new_parent].children->0;
        let ino = entry(t, old_parent, old_name)->0;
        assert forall|p: u64, n: Seq<char>| (p, n) != (new_parent, new_name) implies #[trigger] entry(
            u,
            p,
            n,
        ) == entry(t1, p, n) by {
            if p == new_parent {
                assert(before.insert(new_name, ino).get(n) == before.get(n));
            }
        }
        assert(entry(u, old_parent, old_name) is None);
    }
}

// ── Content ─────────────────────────────────────────────────────────────────

/// What was written to a file is read back. What stood outside it stands there
/// still, and a gap before it is read as zeros. The size is the length of the
/// content.
pub proof fn law_content_is_written(
    t: Tree,
    ino: u64,
    offset: int,
    data: Seq<u8>,
    now: Timestamp,
    i: int,
)
    requires
        t.inodes.contains_key(ino) && t.inodes[ino].data is Some,
        0 <= offset,
        data.len() <= u32::MAX,
        offset + data.len() <= u64::MAX,
        t.inodes[ino].data->0.len() <= u64::MAX,
        0 <= i,
    ensures
        ({
            let (u, r) = content_written(t, ino, offset, data, now);
            let d = t.inodes[ino].data->0;
            let end = offset + data.len();
            &&& r == Ok::<u32, VfsErrorView>(data.len() as u32)
            &&& content_read(u, ino, offset, data.len() as int) == Ok::<Seq<u8>, VfsErrorView>(data)
            &&& u.inodes[ino].data is Some
            &&& u.inodes[ino].data->0.len() == (if end > d.len() {
                end as nat
            } else {
                d.len()
            })
            &&& u.inodes[ino].attr.size == u.inodes[ino].data->0.len()
            &&& u.inodes[ino].attr.blocks == blocks_for(u.inodes[ino].attr.size)
            &&& u.inodes[ino].attr.mtime == now && u.inodes[ino].attr.ctime == now
            &&& u.inodes[ino].attr.atime == t.inodes[ino].attr.atime && u.inodes[ino].attr.mode
                == t.inodes[ino].attr.mode && u.inodes[ino].attr.nlink == t.inodes[ino].attr.nlink
            &&& i < d.len() && (i < offset || i >= end) ==> u.inodes[ino].data->0[i] == d[i]
            &&& d.len() <= i < offset && data.len() > 0 ==> u.inodes[ino].data->0[i] == 0
            &&& same_nodes_but(t, u, ino, ino)
        }),
{
    let (u, r) = content_written(t, ino, offset, data, now);
    let after = u.inodes[ino].data->0;
    assert(super::tree::data_read(after, offset, data.len() as int) =~= data);
    assert forall|j: u64| j != ino implies #[trigger] u.inodes.get(j) == t.inodes.get(j) by {}
}

/// A read gives the bytes from its offset on: as many as were wanted, or those up
/// to the end.
pub proof fn law_content_is_read(t: Tree, ino: u64, offset: int, size: int, i: int)
    requires
        t.inodes.contains_key(ino) && t.inodes[ino].data is Some,
        0 <= offset,
        0 <= size,
    ensures
        ({
            let d = t.inodes[ino].data->0;
            let r = content_read(t, ino, offset, size);
            &&& r is Ok
            &&& offset + size <= d.len() ==> r->Ok_0.len() == size
            &&& offset <= d.len() < offset + size ==> r->Ok_0.len() == d.len() - offset
            &&& d.len() < offset ==> r->Ok_0.len() == 0
            &&& 0 <= i < r->Ok_0.len() ==> r->Ok_0[i] == d[offset + i]
        }),
{
}

/// A file that is cut or extended keeps what stands before its new end. What it is
/// extended by is zeros.
pub proof fn law_content_is_cut(t: Tree, ino: u64, size: u64, i: int)
    requires
        t.inodes.contains_key(ino) && t.inodes[ino].data is Some,
        0 <= i < size,
    ensures
        ({
            let (u, r) = content_cut(t, ino, size);
            let d = t.inodes[ino].data->0;
            &&& r is Ok
            &&& u.inodes[ino].data is Some
            &&& u.inodes[ino].data->0.len() == size
            &&& u.inodes[ino].data->0[i] == (if i < d.len() {
                d[i]
            } else {
                0
            })
            &&& u.inodes[ino].attr.size == size && u.inodes[ino].attr.blocks == blocks_for(size)
            &&& same_nodes_but(t, u, ino, ino)
        }),
{
    let u = content_cut(t, ino, size).0;
    assert forall|j: u64| j != ino implies #[trigger] u.inodes.get(j) == t.inodes.get(j) by {}
}

/// What has no content can neither be read nor written nor cut, and is left alone.
pub proof fn law_only_files_have_content(
    t: Tree,
    ino: u64,
    offset: int,
    data: Seq<u8>,
    size: u64,
    now: Timestamp,
)
    requires
        t.inodes.contains_key(ino) ==> t.inodes[ino].data is None,
    ensures
        content_read(t, ino, offset, size as int) is Err,
        content_written(t, ino, offset, data, now).1 is Err,
        content_written(t, ino, offset, data, now).0 == t,
        content_cut(t, ino, size).1 is Err,
        content_cut(t, ino, size).0 == t,
        !t.inodes.contains_key(ino) ==> content_read(t, ino, offset, size as int) == Err::<
            Seq<u8>,
            VfsErrorView,
        >(VfsErrorView::NotFound),
{
}

/// What is there and is no directory can be opened.
pub proof fn law_files_are_opened(t: Tree, ino: u64)
    ensures
        not_opened(t, ino) is None <==> t.inodes.contains_key(ino) && !is_dir_node(t.inodes[ino]),
        !t.inodes.contains_key(ino) ==> not_opened(t, ino) == Some(VfsErrorView::NotFound),
        t.inodes.contains_key(ino) && is_dir_node(t.inodes[ino]) ==> not_opened(t, ino) == Some(
            VfsErrorView::IsDirectory,
        ),
{
}

/// A new filesystem has a root directory with nothing in it, and no content. What
/// is added to a filesystem adds its length to the bytes in use.
pub proof fn law_bytes_in_use_add_up(t: Tree, ino: u64, node: Node, now: Timestamp)
    requires
        !t.inodes.contains_key(ino),
    ensures
        data_sum(bare_tree(now).inodes, 0x1_0000_0000_0000_0000) == 0,
        bare_tree(now).inodes.contains_key(ROOT) && is_dir_node(bare_tree(now).inodes[ROOT]),
        forall|name: Seq<char>| (#[trigger] entry(bare_tree(now), ROOT, name)) is None,
        data_sum(t.inodes.insert(ino, node), 0x1_0000_0000_0000_0000) == data_sum(
            t.inodes,
            0x1_0000_0000_0000_0000,
        ) + (if node.data is Some {
            node.data->0.len() as int
        } else {
            0
        }),
{
    lemma_default_modes();
    lemma_data_sum_empty(0x1_0000_0000_0000_0000);
    let root = super::tree::dir_node(ROOT, 0, 0, now);
    lemma_data_sum_insert(Map::empty(), ROOT, root, 0x1_0000_0000_0000_0000);
    assert(bare_tree(now).inodes =~= Map::<u64, Node>::empty().insert(ROOT, root));
    lemma_data_sum_insert(t.inodes, ino, node, 0x1_0000_0000_0000_0000);
}

// ── Errors ──────────────────────────────────────────────────────────────────

/// An error of the operating system is handed on as it came. Other errors have a
/// number that is not zero, and errors that a caller tells apart have different
/// ones.
pub proof fn law_error_numbers(a: VfsErrorView, b: VfsErrorView, n: i32, text: Seq<char>, t: Errnos)
    requires
        are_known(t),
        !(a is Io),
        !(b is Io),
    ensures
        errno_of(VfsErrorView::Io(Some(n), text), t) == n,
        errno_of(a, t) > 0,
        errno_of(VfsErrorView::NotFound, t) == t.enoent,
        errno_of(VfsErrorView::NotEmpty, t) == t.enotempty,
        errno_of(VfsErrorView::AlreadyExists, t) == t.eexist,
        errno_of(a, t) == t.eio <==> a is Database || a is Other,
        errno_of(a, t) == errno_of(b, t) && errno_of(a, t) != t.eio ==> (a is NotFound <==> b
            is NotFound) && (a is AlreadyExists <==> b is AlreadyExists) && (a is NotDirectory <==> b
            is NotDirectory) && (a is IsDirectory <==> b is IsDirectory) && (a is NotEmpty <==> b
            is NotEmpty) && (a is InvalidArgument <==> b is InvalidArgument) && (a
            is PermissionDenied <==> b is PermissionDenied) && (a is NameTooLong <==> b
            is NameTooLong),
{
}

/// The description of an error that holds a text ends with the text.
pub proof fn law_descriptions_end_with_the_text(text: Seq<char>, os: Option<i32>)
    ensures
        crate::text::has_suffix(error_text(VfsErrorView::InvalidArgument(text)), text),
        crate::text::has_suffix(error_text(VfsErrorView::Io(os, text)), text),
        crate::text::has_suffix(error_text(VfsErrorView::Other(text)), text),
{
    let a = error_text(VfsErrorView::InvalidArgument(text));
    let b = error_text(VfsErrorView::Io(os, text));
    let c = error_text(VfsErrorView::Other(text));
    assert(a.skip(a.len() - text.len()) =~= text);
    assert(b.skip(b.len() - text.len()) =~= text);
    assert(c.skip(c.len() - text.len()) =~= text);
}

} // verus!
