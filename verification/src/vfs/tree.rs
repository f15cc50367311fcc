//! The tree of an in-memory filesystem: what its operations do to it, and what
//! all of them keep.

use super::error::VfsErrorView;
use super::mode::{
    lemma_default_modes, with_permissions, DEFAULT_DIR_MODE, DEFAULT_FILE_MODE,
    DEFAULT_SYMLINK_MODE, MAX_NAME_LEN,
};
use super::types::{
    blocks_for, fresh_attr, requested_time, type_of_mode, FileAttr, FileType, SetAttr, Timestamp,
};
use vstd::prelude::*;
use vstd::set_lib::lemma_len_subset;
use vstd::utf8::encode_utf8;

verus! {

/// An inode: its attributes, and its entries, content or target by its type.
pub struct Node {
    pub attr: FileAttr,
    pub children: Option<Map<Seq<char>, u64>>,
    pub data: Option<Seq<u8>>,
    pub target: Option<Seq<char>>,
}

/// The inodes of a filesystem and the number of the next one.
pub struct Tree {
    pub inodes: Map<u64, Node>,
    pub next: u64,
}

/// The number of the root directory.
pub const ROOT: u64 = 1;

/// The inode that `name` names in directory `parent`.
pub open spec fn entry(t: Tree, parent: u64, name: Seq<char>) -> Option<u64> {
    match t.inodes.get(parent) {
        Some(node) => match node.children {
            Some(children) => children.get(name),
            None => None,
        },
        None => None,
    }
}

/// The directory entries that name `ino`.
pub open spec fn refs(t: Tree, ino: u64) -> Set<(u64, Seq<char>)> {
    Set::new(|k: (u64, Seq<char>)| entry(t, k.0, k.1) == Some(ino))
}

pub open spec fn is_dir_node(node: Node) -> bool {
    type_of_mode(node.attr.mode) == FileType::Directory
}

/// How many directory entries may name an inode: none the root, one any other
/// directory, and as many as it has links any other inode.
pub open spec fn max_refs(ino: u64, node: Node) -> nat {
    if ino == ROOT {
        0
    } else if is_dir_node(node) {
        1
    } else {
        node.attr.nlink as nat
    }
}

/// An inode has its own number, below the next one, and has entries if and only
/// if it is a directory.
pub open spec fn node_ok(t: Tree, ino: u64) -> bool {
    &&& ino < t.next
    &&& t.inodes[ino].attr.ino == ino
    &&& (t.inodes[ino].children is Some) == is_dir_node(t.inodes[ino])
}

/// What every operation keeps: the root is there and is a directory, every
/// inode is in order, every entry names an inode that exists, and no inode is
/// named more often than it may be.
pub open spec fn tree_ok(t: Tree) -> bool {
    &&& t.inodes.contains_key(ROOT)
    &&& is_dir_node(t.inodes[ROOT])
    &&& forall|i: u64| #[trigger] t.inodes.contains_key(i) ==> node_ok(t, i)
    &&& forall|p: u64, n: Seq<char>|
        (#[trigger] entry(t, p, n)) is Some ==> t.inodes.contains_key(entry(t, p, n)->0)
    &&& forall|i: u64| (#[trigger] refs(t, i)).finite()
    &&& forall|i: u64|
        t.inodes.contains_key(i) ==> (#[trigger] refs(t, i)).len() <= max_refs(i, t.inodes[i])
}

// ── What the operations do ──────────────────────────────────────────────────

/// `d` cut or extended with zeros to `n` bytes.
pub open spec fn resized(d: Seq<u8>, n: nat) -> Seq<u8> {
    Seq::new(
        n,
        |i: int|
            if i < d.len() {
                d[i]
            } else {
                0
            },
    )
}

/// `t` with inode `ino` replaced.
pub open spec fn with_node(t: Tree, ino: u64, node: Node) -> Tree {
    Tree { inodes: t.inodes.insert(ino, node), ..t }
}

/// `node` with the entry `name` for `ino`.
pub open spec fn with_child(node: Node, name: Seq<char>, ino: u64) -> Node {
    Node { children: Some(node.children->0.insert(name, ino)), ..node }
}

/// `node` without the entry `name`.
pub open spec fn without_child(node: Node, name: Seq<char>) -> Node {
    Node { children: Some(node.children->0.remove(name)), ..node }
}

/// `node` with another number of links.
pub open spec fn with_nlink(node: Node, nlink: u32) -> Node {
    Node { attr: FileAttr { nlink, ..node.attr }, ..node }
}

/// `n` less one, where there is one.
pub open spec fn one_less(n: u32) -> u32 {
    if n == 0 {
        0
    } else {
        (n - 1) as u32
    }
}

/// The attributes of `ino`.
pub open spec fn node_attr(t: Tree, ino: u64) -> Option<FileAttr> {
    match t.inodes.get(ino) {
        Some(node) => Some(node.attr),
        None => None,
    }
}

/// The attributes that `name` in `parent` has.
pub open spec fn looked_up(t: Tree, parent: u64, name: Seq<char>) -> Option<FileAttr> {
    match entry(t, parent, name) {
        Some(ino) => node_attr(t, ino),
        None => None,
    }
}

/// `node` after an attribute update.
pub open spec fn node_with_attrs(node: Node, a: SetAttr, now: Timestamp) -> Node {
    Node {
        attr: FileAttr {
            mode: match a.mode {
                Some(m) => with_permissions(node.attr.mode, m),
                None => node.attr.mode,
            },
            uid: match a.uid {
                Some(u) => u,
                None => node.attr.uid,
            },
            gid: match a.gid {
                Some(g) => g,
                None => node.attr.gid,
            },
            size: match a.size {
                Some(s) => s,
                None => node.attr.size,
            },
            blocks: match a.size {
                Some(s) => blocks_for(s),
                None => node.attr.blocks,
            },
            atime: match a.atime {
                Some(t) => requested_time(t, now),
                None => node.attr.atime,
            },
            mtime: match a.mtime {
                Some(t) => requested_time(t, now),
                None => node.attr.mtime,
            },
            ctime: now,
            ..node.attr
        },
        data: match (a.size, node.data) {
            (Some(s), Some(d)) => Some(resized(d, s as nat)),
            _ => node.data,
        },
        ..node
    }
}

/// An attribute update of `ino`.
pub open spec fn attrs_set(t: Tree, ino: u64, a: SetAttr, now: Timestamp) -> (
    Tree,
    Result<FileAttr, VfsErrorView>,
) {
    match t.inodes.get(ino) {
        None => (t, Err(VfsErrorView::NotFound)),
        Some(node) => {
            let new = node_with_attrs(node, a, now);
            (with_node(t, ino, new), Ok(new.attr))
        },
    }
}

/// A name that is longer than a filename component can be, in bytes.
pub open spec fn name_too_long(name: Seq<char>) -> bool {
    encode_utf8(name).len() > MAX_NAME_LEN
}

pub open spec fn dir_node(ino: u64, uid: u32, gid: u32, now: Timestamp) -> Node {
    Node {
        attr: fresh_attr(ino, DEFAULT_DIR_MODE, 2, uid, gid, 0, now),
        children: Some(Map::empty()),
        data: None,
        target: None,
    }
}

pub open spec fn file_node(ino: u64, uid: u32, gid: u32, now: Timestamp) -> Node {
    Node {
        attr: fresh_attr(ino, DEFAULT_FILE_MODE, 1, uid, gid, 0, now),
        children: None,
        data: Some(Seq::empty()),
        target: None,
    }
}

pub open spec fn link_node(
    ino: u64,
    target: Seq<char>,
    uid: u32,
    gid: u32,
    now: Timestamp,
) -> Node {
    Node {
        attr: fresh_attr(
            ino,
            DEFAULT_SYMLINK_MODE,
            1,
            uid,
            gid,
            encode_utf8(target).len() as u64,
            now,
        ),
        children: None,
        data: None,
        target: Some(target),
    }
}

/// `t` with a new inode under `name` in `parent`.
pub open spec fn added(t: Tree, parent: u64, name: Seq<char>, node: Node) -> Tree {
    Tree {
        inodes: t.inodes.insert(t.next, node).insert(
            parent,
            with_child(t.inodes[parent], name, t.next),
        ),
        next: (t.next + 1) as u64,
    }
}

/// Why nothing can be made in `parent`, if so.
pub open spec fn no_room(t: Tree, parent: u64) -> Option<VfsErrorView> {
    match t.inodes.get(parent) {
        None => Some(VfsErrorView::NotFound),
        Some(node) => if is_dir_node(node) {
            None
        } else {
            Some(VfsErrorView::NotDirectory)
        },
    }
}

/// A new directory. Its parent gains a link.
pub open spec fn dir_made(
    t: Tree,
    parent: u64,
    name: Seq<char>,
    uid: u32,
    gid: u32,
    now: Timestamp,
) -> (Tree, Result<FileAttr, VfsErrorView>) {
    if name_too_long(name) {
        (t, Err(VfsErrorView::NameTooLong))
    } else if no_room(t, parent) is Some {
        (t, Err(no_room(t, parent)->0))
    } else if entry(t, parent, name) is Some {
        (t, Err(VfsErrorView::AlreadyExists))
    } else {
        let node = dir_node(t.next, uid, gid, now);
        let t1 = added(t, parent, name, node);
        let p = t1.inodes[parent];
        (with_node(t1, parent, with_nlink(p, (p.attr.nlink + 1) as u32)), Ok(node.attr))
    }
}

/// A new file, or the inode that is there already.
pub open spec fn file_made(
    t: Tree,
    parent: u64,
    name: Seq<char>,
    uid: u32,
    gid: u32,
    now: Timestamp,
) -> (Tree, Result<FileAttr, VfsErrorView>) {
    if name_too_long(name) {
        (t, Err(VfsErrorView::NameTooLong))
    } else if no_room(t, parent) is Some {
        (t, Err(no_room(t, parent)->0))
    } else {
        match entry(t, parent, name) {
            Some(ino) => (t, Ok(t.inodes[ino].attr)),
            None => {
                let node = file_node(t.next, uid, gid, now);
                (added(t, parent, name, node), Ok(node.attr))
            },
        }
    }
}

/// A new symbolic link.
pub open spec fn symlink_made(
    t: Tree,
    parent: u64,
    name: Seq<char>,
    target: Seq<char>,
    uid: u32,
    gid: u32,
    now: Timestamp,
) -> (Tree, Result<FileAttr, VfsErrorView>) {
    if no_room(t, parent) is Some {
        (t, Err(no_room(t, parent)->0))
    } else if entry(t, parent, name) is Some {
        (t, Err(VfsErrorView::AlreadyExists))
    } else {
        let node = link_node(t.next, target, uid, gid, now);
        (added(t, parent, name, node), Ok(node.attr))
    }
}

/// Finds the entry that an operation is about to change.
pub open spec fn found(t: Tree, parent: u64, name: Seq<char>) -> Result<u64, VfsErrorView> {
    match t.inodes.get(parent) {
        None => Err(VfsErrorView::NotFound),
        Some(node) => match node.children {
            None => Err(VfsErrorView::NotDirectory),
            Some(children) => match children.get(name) {
                None => Err(VfsErrorView::NotFound),
                Some(ino) => Ok(ino),
            },
        },
    }
}

/// A directory is removed. Only an empty one can be. Its parent loses a link.
pub open spec fn dir_removed(t: Tree, parent: u64, name: Seq<char>) -> (
    Tree,
    Result<(), VfsErrorView>,
) {
    match found(t, parent, name) {
        Err(e) => (t, Err(e)),
        Ok(ino) => if !is_dir_node(t.inodes[ino]) {
            (t, Err(VfsErrorView::NotDirectory))
        } else if t.inodes[ino].children->0 != Map::<Seq<char>, u64>::empty() {
            (t, Err(VfsErrorView::NotEmpty))
        } else {
            let p = without_child(t.inodes[parent], name);
            (
                Tree {
                    inodes: t.inodes.remove(ino).insert(
                        parent,
                        with_nlink(p, one_less(p.attr.nlink)),
                    ),
                    ..t
                },
                Ok(()),
            )
        },
    }
}

/// `ino` loses a link, and goes with the last one.
pub open spec fn link_dropped(t: Tree, ino: u64) -> Tree {
    let left = one_less(t.inodes[ino].attr.nlink);
    if left == 0 {
        Tree { inodes: t.inodes.remove(ino), ..t }
    } else {
        with_node(t, ino, with_nlink(t.inodes[ino], left))
    }
}

/// A file loses a name.
pub open spec fn unlinked(t: Tree, parent: u64, name: Seq<char>) -> (
    Tree,
    Result<(), VfsErrorView>,
) {
    match found(t, parent, name) {
        Err(e) => (t, Err(e)),
        Ok(ino) => if is_dir_node(t.inodes[ino]) {
            (t, Err(VfsErrorView::IsDirectory))
        } else {
            let t1 = with_node(t, parent, without_child(t.inodes[parent], name));
            (link_dropped(t1, ino), Ok(()))
        },
    }
}

/// A file gains a name.
pub open spec fn linked(t: Tree, ino: u64, parent: u64, name: Seq<char>) -> (
    Tree,
    Result<FileAttr, VfsErrorView>,
) {
    match t.inodes.get(ino) {
        None => (t, Err(VfsErrorView::NotFound)),
        Some(node) => if is_dir_node(node) {
            (t, Err(VfsErrorView::IsDirectory))
        } else if no_room(t, parent) is Some {
            (t, Err(no_room(t, parent)->0))
        } else if entry(t, parent, name) is Some {
            (t, Err(VfsErrorView::AlreadyExists))
        } else {
            let new = with_nlink(node, (node.attr.nlink + 1) as u32);
            let t1 = with_node(t, ino, new);
            (with_node(t1, parent, with_child(t1.inodes[parent], name, ino)), Ok(new.attr))
        },
    }
}

/// A name moves. The old name goes first, then whatever had the new name loses
/// a link, and only then is the new place looked at.
pub open spec fn renamed(
    t: Tree,
    old_parent: u64,
    old_name: Seq<char>,
    new_parent: u64,
    new_name: Seq<char>,
) -> (Tree, Result<(), VfsErrorView>) {
    match found(t, old_parent, old_name) {
        Err(e) => (t, Err(e)),
        Ok(ino) => {
            let t1 = with_node(t, old_parent, without_child(t.inodes[old_parent], old_name));
            let t2 = match entry(t1, new_parent, new_name) {
                Some(dst) => link_dropped(t1, dst),
                None => t1,
            };
            match t2.inodes.get(new_parent) {
                None => (t2, Err(VfsErrorView::NotFound)),
                Some(node) => match node.children {
                    None => (t2, Err(VfsErrorView::NotDirectory)),
                    Some(_) => (
                        with_node(t2, new_parent, with_child(node, new_name, ino)),
                        Ok(()),
                    ),
                },
            }
        },
    }
}

/// The bytes that a read of file content gives.
pub open spec fn data_read(d: Seq<u8>, offset: int, size: int) -> Seq<u8> {
    if offset >= d.len() {
        Seq::empty()
    } else if offset + size < d.len() {
        d.subrange(offset, offset + size)
    } else {
        d.skip(offset)
    }
}

/// File content after `data` was written at `offset`. A gap is filled with
/// zeros.
pub open spec fn data_written(d: Seq<u8>, offset: int, data: Seq<u8>) -> Seq<u8> {
    let end = offset + data.len();
    Seq::new(
        if end > d.len() {
            end as nat
        } else {
            d.len()
        },
        |i: int|
            if offset <= i < end {
                data[i - offset]
            } else if i < d.len() {
                d[i]
            } else {
                0
            },
    )
}

/// `node` after a write, when its content was `d`.
pub open spec fn node_written(
    node: Node,
    d: Seq<u8>,
    offset: int,
    data: Seq<u8>,
    now: Timestamp,
) -> Node {
    let after = data_written(d, offset, data);
    Node {
        attr: FileAttr {
            size: after.len() as u64,
            blocks: blocks_for(after.len() as u64),
            mtime: now,
            ctime: now,
            ..node.attr
        },
        data: Some(after),
        ..node
    }
}

/// `node` after its content `d` was cut or extended.
pub open spec fn node_truncated(node: Node, d: Seq<u8>, size: u64) -> Node {
    Node {
        attr: FileAttr { size, blocks: blocks_for(size), ..node.attr },
        data: Some(resized(d, size as nat)),
        ..node
    }
}

/// Why `ino` has no content, if so.
pub open spec fn no_content(t: Tree, ino: u64) -> Option<VfsErrorView> {
    match t.inodes.get(ino) {
        None => Some(VfsErrorView::NotFound),
        Some(node) => match node.data {
            None => Some(VfsErrorView::InvalidArgument("not a file"@)),
            Some(_) => None,
        },
    }
}

/// What a read of `ino` gives.
pub open spec fn content_read(t: Tree, ino: u64, offset: int, size: int) -> Result<
    Seq<u8>,
    VfsErrorView,
> {
    match no_content(t, ino) {
        Some(e) => Err(e),
        None => Ok(data_read(t.inodes[ino].data->0, offset, size)),
    }
}

/// A write to `ino`, and how many bytes it wrote.
pub open spec fn content_written(
    t: Tree,
    ino: u64,
    offset: int,
    data: Seq<u8>,
    now: Timestamp,
) -> (Tree, Result<u32, VfsErrorView>) {
    match no_content(t, ino) {
        Some(e) => (t, Err(e)),
        None => (
            with_node(
                t,
                ino,
                node_written(t.inodes[ino], t.inodes[ino].data->0, offset, data, now),
            ),
            Ok(data.len() as u32),
        ),
    }
}

/// `ino` is cut or extended.
pub open spec fn content_cut(t: Tree, ino: u64, size: u64) -> (Tree, Result<(), VfsErrorView>) {
    match no_content(t, ino) {
        Some(e) => (t, Err(e)),
        None => (
            with_node(t, ino, node_truncated(t.inodes[ino], t.inodes[ino].data->0, size)),
            Ok(()),
        ),
    }
}

/// Why `ino` cannot be opened, if so.
pub open spec fn not_opened(t: Tree, ino: u64) -> Option<VfsErrorView> {
    match t.inodes.get(ino) {
        None => Some(VfsErrorView::NotFound),
        Some(node) => if is_dir_node(node) {
            Some(VfsErrorView::IsDirectory)
        } else {
            None
        },
    }
}

/// The target of the symbolic link `ino`.
pub open spec fn link_target(t: Tree, ino: u64) -> Option<Seq<char>> {
    match t.inodes.get(ino) {
        Some(node) => node.target,
        None => None,
    }
}

/// The sum of the content lengths of the inodes below `hi`.
pub open spec fn data_sum(inodes: Map<u64, Node>, hi: int) -> int
    decreases hi,
{
    if hi <= 0 {
        0
    } else {
        data_sum(inodes, hi - 1) + match inodes.get((hi - 1) as u64) {
            Some(node) => match node.data {
                Some(d) => d.len() as int,
                None => 0,
            },
            None => 0,
        }
    }
}

// ── What every operation keeps ──────────────────────────────────────────────

/// Where two trees differ in one entry at most, an inode is named by the same
/// entries but for that one.
proof fn lemma_refs(t: Tree, u: Tree, p: u64, n: Seq<char>, i: u64)
    requires
        refs(t, i).finite(),
        forall|q: u64, m: Seq<char>|
            (q, m) != (p, n) ==> #[trigger] entry(u, q, m) == entry(t, q, m),
    ensures
        refs(u, i).finite(),
        entry(u, p, n) == Some(i) ==> refs(u, i) == refs(t, i).insert((p, n)),
        entry(u, p, n) != Some(i) ==> refs(u, i) == refs(t, i).remove((p, n)),
        entry(u, p, n) != Some(i) ==> refs(u, i).len() <= refs(t, i).len(),
        entry(t, p, n) == Some(i) ==> refs(t, i).len() > 0,
        entry(t, p, n) == Some(i) && entry(u, p, n) != Some(i) ==> refs(u, i).len() == refs(
            t,
            i,
        ).len() - 1,
        entry(t, p, n) != Some(i) && entry(u, p, n) == Some(i) ==> refs(u, i).len() == refs(
            t,
            i,
        ).len() + 1,
        entry(t, p, n) == entry(u, p, n) ==> refs(u, i) == refs(t, i),
{
    if entry(t, p, n) == Some(i) {
        assert(refs(t, i).contains((p, n)));
    }
    if entry(u, p, n) == Some(i) {
        assert(refs(u, i) =~= refs(t, i).insert((p, n)));
    } else {
        assert(refs(u, i) =~= refs(t, i).remove((p, n)));
    }
    assert(entry(t, p, n) == entry(u, p, n) ==> refs(u, i) =~= refs(t, i));
}

/// Where an inode that does not exist is named by nothing.
proof fn lemma_no_refs(t: Tree, i: u64)
    requires
        tree_ok(t),
        !t.inodes.contains_key(i),
    ensures
        refs(t, i).len() == 0,
{
    assert(refs(t, i) =~= Set::empty()) by {
        assert forall|k: (u64, Seq<char>)| !refs(t, i).contains(k) by {
            assert(entry(t, k.0, k.1) is Some ==> t.inodes.contains_key(entry(t, k.0, k.1)->0));
        }
    }
}

/// A replaced inode that keeps its number, its entries and its type, and has
/// room for its names, leaves the tree in order.
pub proof fn lemma_replace_node(t: Tree, ino: u64, node: Node)
    requires
        tree_ok(t),
        t.inodes.contains_key(ino),
        node.attr.ino == ino,
        node.children == t.inodes[ino].children,
        is_dir_node(node) == is_dir_node(t.inodes[ino]),
        refs(t, ino).len() <= max_refs(ino, node),
    ensures
        tree_ok(with_node(t, ino, node)),
        forall|q: u64, m: Seq<char>| #[trigger]
            entry(with_node(t, ino, node), q, m) == entry(t, q, m),
{
    let u = with_node(t, ino, node);
    assert forall|q: u64, m: Seq<char>| #[trigger] entry(u, q, m) == entry(t, q, m) by {}
    assert forall|i: u64| (#[trigger] refs(u, i)) == refs(t, i) by {
        assert(refs(u, i) =~= refs(t, i));
    }
    assert forall|i: u64| #[trigger] u.inodes.contains_key(i) implies node_ok(u, i) by {
        assert(t.inodes.contains_key(i));
    }
    assert forall|i: u64| u.inodes.contains_key(i) implies (#[trigger] refs(u, i)).len()
        <= max_refs(i, u.inodes[i]) by {
        assert(t.inodes.contains_key(i));
        assert(refs(t, i).len() <= max_refs(i, t.inodes[i]));
    }
}

/// An entry that is taken away leaves the tree in order.
pub proof fn lemma_drop_entry(t: Tree, p: u64, n: Seq<char>)
    requires
        tree_ok(t),
        entry(t, p, n) is Some,
    ensures
        ({
            let u = with_node(t, p, without_child(t.inodes[p], n));
            let c = entry(t, p, n)->0;
            &&& tree_ok(u)
            &&& entry(u, p, n) is None
            &&& refs(u, c).len() == refs(t, c).len() - 1
            &&& forall|q: u64, m: Seq<char>|
                (q, m) != (p, n) ==> #[trigger] entry(u, q, m) == entry(t, q, m)
        }),
{
    let u = with_node(t, p, without_child(t.inodes[p], n));
    let c = entry(t, p, n)->0;
    assert forall|q: u64, m: Seq<char>| (q, m) != (p, n) implies #[trigger] entry(u, q, m) == entry(
        t,
        q,
        m,
    ) by {}
    assert(entry(u, p, n) is None);
    assert forall|i: u64| (#[trigger] refs(u, i)).finite() by {
        assert(refs(t, i).finite());
        lemma_refs(t, u, p, n, i);
    }
    assert(refs(t, c).finite());
    lemma_refs(t, u, p, n, c);
    assert forall|i: u64| #[trigger] u.inodes.contains_key(i) implies node_ok(u, i) by {
        assert(t.inodes.contains_key(i));
    }
    assert forall|q: u64, m: Seq<char>| (#[trigger] entry(u, q, m)) is Some implies
        u.inodes.contains_key(entry(u, q, m)->0) by {
        assert(entry(t, q, m) is Some);
    }
    assert forall|i: u64| u.inodes.contains_key(i) implies (#[trigger] refs(u, i)).len()
        <= max_refs(i, u.inodes[i]) by {
        assert(t.inodes.contains_key(i));
        assert(refs(t, i).finite());
        lemma_refs(t, u, p, n, i);
        assert(refs(t, i).len() <= max_refs(i, t.inodes[i]));
    }
}

/// A new entry for an inode that has room for one more name leaves the tree in
/// order.
pub proof fn lemma_add_entry(t: Tree, p: u64, n: Seq<char>, c: u64)
    requires
        tree_ok(t),
        t.inodes.contains_key(p),
        t.inodes[p].children is Some,
        entry(t, p, n) is None,
        t.inodes.contains_key(c),
        refs(t, c).len() < max_refs(c, t.inodes[c]),
    ensures
        tree_ok(with_node(t, p, with_child(t.inodes[p], n, c))),
{
    let u = with_node(t, p, with_child(t.inodes[p], n, c));
    assert forall|q: u64, m: Seq<char>| (q, m) != (p, n) implies #[trigger] entry(u, q, m) == entry(
        t,
        q,
        m,
    ) by {}
    assert(entry(u, p, n) == Some(c));
    assert forall|i: u64| (#[trigger] refs(u, i)).finite() by {
        assert(refs(t, i).finite());
        lemma_refs(t, u, p, n, i);
    }
    assert forall|i: u64| #[trigger] u.inodes.contains_key(i) implies node_ok(u, i) by {
        assert(t.inodes.contains_key(i));
    }
    assert forall|q: u64, m: Seq<char>| (#[trigger] entry(u, q, m)) is Some implies
        u.inodes.contains_key(entry(u, q, m)->0) by {
        if (q, m) != (p, n) {
            assert(entry(t, q, m) is Some);
        }
    }
    assert forall|i: u64| u.inodes.contains_key(i) implies (#[trigger] refs(u, i)).len()
        <= max_refs(i, u.inodes[i]) by {
        assert(t.inodes.contains_key(i));
        assert(refs(t, i).finite());
        lemma_refs(t, u, p, n, i);
        assert(refs(t, i).len() <= max_refs(i, t.inodes[i]));
    }
}

/// An inode that nothing else names can go: whatever it named is named less
/// often.
proof fn lemma_remove_node(t: Tree, d: u64)
    requires
        tree_ok(t),
        d != ROOT,
        forall|q: u64, m: Seq<char>| (#[trigger] entry(t, q, m)) == Some(d) ==> q == d,
    ensures
        tree_ok(Tree { inodes: t.inodes.remove(d), ..t }),
{
    let u = Tree { inodes: t.inodes.remove(d), ..t };
    assert forall|q: u64, m: Seq<char>| #[trigger] entry(u, q, m) == (if q == d {
        None
    } else {
        entry(t, q, m)
    }) by {}
    assert forall|i: u64| (#[trigger] refs(u, i)).finite() && refs(u, i).len() <= refs(
        t,
        i,
    ).len() by {
        assert(refs(t, i).finite());
        assert(refs(u, i).subset_of(refs(t, i)));
        lemma_len_subset(refs(u, i), refs(t, i));
    }
    assert forall|i: u64| #[trigger] u.inodes.contains_key(i) implies node_ok(u, i) by {
        assert(t.inodes.contains_key(i));
    }
    assert forall|q: u64, m: Seq<char>| (#[trigger] entry(u, q, m)) is Some implies
        u.inodes.contains_key(entry(u, q, m)->0) by {
        assert(entry(t, q, m) is Some);
    }
    assert forall|i: u64| u.inodes.contains_key(i) implies (#[trigger] refs(u, i)).len()
        <= max_refs(i, u.inodes[i]) by {
        assert(t.inodes.contains_key(i));
        assert(refs(t, i).len() <= max_refs(i, t.inodes[i]));
    }
}

/// A new inode without entries, that is named by nothing yet, leaves the tree
/// in order.
proof fn lemma_new_node(t: Tree, node: Node)
    requires
        tree_ok(t),
        t.next < u64::MAX,
        node.attr.ino == t.next,
        (node.children is Some) == is_dir_node(node),
        node.children is Some ==> node.children->0 == Map::<Seq<char>, u64>::empty(),
    ensures
        tree_ok(Tree { inodes: t.inodes.insert(t.next, node), next: (t.next + 1) as u64 }),
        refs(
            Tree { inodes: t.inodes.insert(t.next, node), next: (t.next + 1) as u64 },
            t.next,
        ).len() == 0,
        forall|q: u64, m: Seq<char>| #[trigger]
            entry(
                Tree { inodes: t.inodes.insert(t.next, node), next: (t.next + 1) as u64 },
                q,
                m,
            ) == entry(t, q, m),
        !t.inodes.contains_key(t.next),
{
    let u = Tree { inodes: t.inodes.insert(t.next, node), next: (t.next + 1) as u64 };
    assert(!t.inodes.contains_key(t.next)) by {
        if t.inodes.contains_key(t.next) {
            assert(node_ok(t, t.next));
        }
    }
    assert forall|q: u64, m: Seq<char>| #[trigger] entry(u, q, m) == entry(t, q, m) by {}
    assert forall|i: u64| (#[trigger] refs(u, i)) == refs(t, i) by {
        assert(refs(u, i) =~= refs(t, i));
    }
    lemma_no_refs(t, t.next);
    assert(refs(u, t.next) == refs(t, t.next));
    assert forall|i: u64| #[trigger] u.inodes.contains_key(i) implies node_ok(u, i) by {
        if i != t.next {
            assert(t.inodes.contains_key(i));
        }
    }
    assert forall|q: u64, m: Seq<char>| (#[trigger] entry(u, q, m)) is Some implies
        u.inodes.contains_key(entry(u, q, m)->0) by {
        assert(entry(t, q, m) is Some);
    }
    assert forall|i: u64| (#[trigger] refs(u, i)).finite() by {
        assert(refs(t, i).finite());
    }
    assert forall|i: u64| u.inodes.contains_key(i) implies (#[trigger] refs(u, i)).len()
        <= max_refs(i, u.inodes[i]) by {
        if i != t.next {
            assert(t.inodes.contains_key(i));
            assert(refs(t, i).len() <= max_refs(i, t.inodes[i]));
        }
    }
}

/// Adding a new inode under a free name keeps the tree in order.
pub proof fn lemma_added(t: Tree, parent: u64, name: Seq<char>, node: Node)
    requires
        tree_ok(t),
        t.next < u64::MAX,
        no_room(t, parent) is None,
        entry(t, parent, name) is None,
        node.attr.ino == t.next,
        node.attr.nlink > 0,
        (node.children is Some) == is_dir_node(node),
        node.children is Some ==> node.children->0 == Map::<Seq<char>, u64>::empty(),
    ensures
        tree_ok(added(t, parent, name, node)),
        entry(added(t, parent, name, node), parent, name) == Some(t.next),
        added(t, parent, name, node).inodes.get(t.next) == Some(node),
        parent != t.next,
{
    let u = Tree { inodes: t.inodes.insert(t.next, node), next: (t.next + 1) as u64 };
    lemma_new_node(t, node);
    assert(t.inodes.contains_key(parent) && node_ok(t, parent));
    assert(entry(u, parent, name) == entry(t, parent, name));
    assert(u.inodes[parent] == t.inodes[parent]);
    assert(t.next != ROOT) by {
        assert(node_ok(t, ROOT));
    }
    lemma_add_entry(u, parent, name, t.next);
    assert(added(t, parent, name, node) == with_node(
        u,
        parent,
        with_child(u.inodes[parent], name, t.next),
    ));
}

/// An inode loses one of its links for the entry `(p, n)` that was taken away.
proof fn lemma_link_dropped(t: Tree, d: u64)
    requires
        tree_ok(t),
        t.inodes.contains_key(d),
        d != ROOT,
        refs(t, d).len() < max_refs(d, t.inodes[d]),
    ensures
        tree_ok(link_dropped(t, d)),
{
    let left = one_less(t.inodes[d].attr.nlink);
    if left == 0 {
        assert(refs(t, d).finite());
        assert(refs(t, d).len() == 0);
        refs(t, d).lemma_len0_is_empty();
        assert forall|q: u64, m: Seq<char>| (#[trigger] entry(t, q, m)) == Some(d) implies q
            == d by {
            assert(refs(t, d).contains((q, m)));
        }
        lemma_remove_node(t, d);
    } else {
        assert(node_ok(t, d));
        lemma_replace_node(t, d, with_nlink(t.inodes[d], left));
    }
}

/// Changing attributes keeps the tree in order: the file type stays.
pub proof fn law_setattr_keeps_tree(t: Tree, ino: u64, a: SetAttr, now: Timestamp)
    requires
        tree_ok(t),
    ensures
        tree_ok(attrs_set(t, ino, a, now).0),
{
    if t.inodes.contains_key(ino) {
        assert(node_ok(t, ino));
        assert(refs(t, ino).len() <= max_refs(ino, t.inodes[ino]));
        if a.mode is Some {
            super::mode::lemma_with_permissions(t.inodes[ino].attr.mode, a.mode->0);
        }
        lemma_replace_node(t, ino, node_with_attrs(t.inodes[ino], a, now));
    }
}

/// Making a directory keeps the tree in order.
pub proof fn law_mkdir_keeps_tree(
    t: Tree,
    parent: u64,
    name: Seq<char>,
    uid: u32,
    gid: u32,
    now: Timestamp,
)
    requires
        tree_ok(t),
        t.next < u64::MAX,
    ensures
        tree_ok(dir_made(t, parent, name, uid, gid, now).0),
{
    lemma_default_modes();
    if dir_made(t, parent, name, uid, gid, now).1 is Ok {
        let node = dir_node(t.next, uid, gid, now);
        lemma_added(t, parent, name, node);
        let t1 = added(t, parent, name, node);
        assert(node_ok(t1, parent));
        assert(refs(t1, parent).len() <= max_refs(parent, t1.inodes[parent]));
        lemma_replace_node(
            t1,
            parent,
            with_nlink(t1.inodes[parent], (t1.inodes[parent].attr.nlink + 1) as u32),
        );
    }
}

/// Creating a file keeps the tree in order.
pub proof fn law_create_keeps_tree(
    t: Tree,
    parent: u64,
    name: Seq<char>,
    uid: u32,
    gid: u32,
    now: Timestamp,
)
    requires
        tree_ok(t),
        t.next < u64::MAX,
    ensures
        tree_ok(file_made(t, parent, name, uid, gid, now).0),
{
    lemma_default_modes();
    if no_room(t, parent) is None && entry(t, parent, name) is None {
        lemma_added(t, parent, name, file_node(t.next, uid, gid, now));
    }
}

/// Making a symbolic link keeps the tree in order.
pub proof fn law_symlink_keeps_tree(
    t: Tree,
    parent: u64,
    name: Seq<char>,
    target: Seq<char>,
    uid: u32,
    gid: u32,
    now: Timestamp,
)
    requires
        tree_ok(t),
        t.next < u64::MAX,
    ensures
        tree_ok(symlink_made(t, parent, name, target, uid, gid, now).0),
{
    lemma_default_modes();
    if no_room(t, parent) is None && entry(t, parent, name) is None {
        lemma_added(t, parent, name, link_node(t.next, target, uid, gid, now));
    }
}

/// Removing a directory keeps the tree in order. A directory never removes
/// itself.
pub proof fn law_rmdir_keeps_tree(t: Tree, parent: u64, name: Seq<char>)
    requires
        tree_ok(t),
    ensures
        tree_ok(dir_removed(t, parent, name).0),
        dir_removed(t, parent, name).1 is Ok ==> found(t, parent, name) != Ok::<
            u64,
            VfsErrorView,
        >(parent),
{
    if dir_removed(t, parent, name).1 is Ok {
        let ino = found(t, parent, name)->Ok_0;
        assert(entry(t, parent, name) == Some(ino));
        assert(node_ok(t, ino));
        assert(ino != parent) by {
            if ino == parent {
                assert(t.inodes[ino].children->0.contains_key(name));
            }
        }
        assert(refs(t, ino).len() <= max_refs(ino, t.inodes[ino]));
        assert(refs(t, ino).finite());
        assert(refs(t, ino).contains((parent, name)));
        lemma_drop_entry(t, parent, name);
        let t1 = with_node(t, parent, without_child(t.inodes[parent], name));
        assert(refs(t1, ino).finite());
        refs(t1, ino).lemma_len0_is_empty();
        assert forall|q: u64, m: Seq<char>| (#[trigger] entry(t1, q, m)) == Some(ino) implies q
            == ino by {
            assert(refs(t1, ino).contains((q, m)));
        }
        lemma_remove_node(t1, ino);
        let t2 = Tree { inodes: t1.inodes.remove(ino), ..t1 };
        assert(node_ok(t2, parent));
        assert(refs(t2, parent).len() <= max_refs(parent, t2.inodes[parent]));
        let p = t2.inodes[parent];
        lemma_replace_node(t2, parent, with_nlink(p, one_less(p.attr.nlink)));
        assert(dir_removed(t, parent, name).0.inodes =~= with_node(
            t2,
            parent,
            with_nlink(p, one_less(p.attr.nlink)),
        ).inodes);
    }
}

/// Removing a name of a file keeps the tree in order: an inode goes only with
/// its last name.
pub proof fn law_unlink_keeps_tree(t: Tree, parent: u64, name: Seq<char>)
    requires
        tree_ok(t),
    ensures
        tree_ok(unlinked(t, parent, name).0),
{
    if unlinked(t, parent, name).1 is Ok {
        let ino = found(t, parent, name)->Ok_0;
        assert(entry(t, parent, name) == Some(ino));
        assert(node_ok(t, ino) && node_ok(t, parent));
        lemma_drop_entry(t, parent, name);
        let t1 = with_node(t, parent, without_child(t.inodes[parent], name));
        assert(ino != parent);
        assert(t1.inodes[ino] == t.inodes[ino]);
        assert(refs(t, ino).len() <= max_refs(ino, t.inodes[ino]));
        lemma_link_dropped(t1, ino);
    }
}

/// One more name for a file keeps the tree in order.
pub proof fn law_link_keeps_tree(t: Tree, ino: u64, parent: u64, name: Seq<char>)
    requires
        tree_ok(t),
        t.inodes.contains_key(ino) ==> t.inodes[ino].attr.nlink < u32::MAX,
    ensures
        tree_ok(linked(t, ino, parent, name).0),
{
    if linked(t, ino, parent, name).1 is Ok {
        let node = t.inodes[ino];
        let new = with_nlink(node, (node.attr.nlink + 1) as u32);
        assert(node_ok(t, ino) && node_ok(t, parent));
        assert(refs(t, ino).len() <= max_refs(ino, node));
        lemma_replace_node(t, ino, new);
        let t1 = with_node(t, ino, new);
        assert(entry(t1, parent, name) == entry(t, parent, name));
        assert(ino != ROOT);
        assert(refs(t1, ino) =~= refs(t, ino));
        lemma_add_entry(t1, parent, name, ino);
    }
}

/// A move keeps the tree in order, whatever it moves onto and even where it
/// fails on the way.
pub proof fn law_rename_keeps_tree(
    t: Tree,
    old_parent: u64,
    old_name: Seq<char>,
    new_parent: u64,
    new_name: Seq<char>,
)
    requires
        tree_ok(t),
    ensures
        tree_ok(renamed(t, old_parent, old_name, new_parent, new_name).0),
{
    match found(t, old_parent, old_name) {
        Err(_) => {},
        Ok(ino) => {
            let t1 = with_node(t, old_parent, without_child(t.inodes[old_parent], old_name));
            assert(entry(t, old_parent, old_name) == Some(ino));
            assert(node_ok(t, ino));
            assert(refs(t, ino).finite());
            assert(refs(t, ino).len() <= max_refs(ino, t.inodes[ino]));
            assert(refs(t, ino).contains((old_parent, old_name)));
            lemma_drop_entry(t, old_parent, old_name);
            assert(ino != ROOT);
            assert(refs(t1, ino).len() < max_refs(ino, t1.inodes[ino]));
            match entry(t1, new_parent, new_name) {
                None => {
                    if t1.inodes.contains_key(new_parent)
                        && t1.inodes[new_parent].children is Some {
                        lemma_add_entry(t1, new_parent, new_name, ino);
                    }
                },
                Some(dst) => lemma_renamed_over(t1, ino, new_parent, new_name, dst),
            }
        },
    }
}

/// The last part of a move onto a name that is taken.
proof fn lemma_renamed_over(t1: Tree, ino: u64, new_parent: u64, new_name: Seq<char>, dst: u64)
    requires
        tree_ok(t1),
        t1.inodes.contains_key(ino),
        ino != ROOT,
        refs(t1, ino).len() < max_refs(ino, t1.inodes[ino]),
        entry(t1, new_parent, new_name) == Some(dst),
    ensures
        ({
            let t2 = link_dropped(t1, dst);
            &&& !t2.inodes.contains_key(new_parent) ==> tree_ok(t2)
            &&& t2.inodes.contains_key(new_parent) ==> t2.inodes[new_parent].children is Some
                && tree_ok(
                with_node(t2, new_parent, with_child(t2.inodes[new_parent], new_name, ino)),
            )
        }),
{
    let t2 = link_dropped(t1, dst);
    assert(t1.inodes.contains_key(dst) && node_ok(t1, dst));
    assert(node_ok(t1, new_parent));
    assert(refs(t1, dst).finite());
    assert(refs(t1, dst).contains((new_parent, new_name)));
    assert(refs(t1, dst).len() <= max_refs(dst, t1.inodes[dst]));
    assert(dst != ROOT);
    // The entry goes, the link is dropped, and the entry comes back for `ino`.
    lemma_drop_entry(t1, new_parent, new_name);
    let u1 = with_node(t1, new_parent, without_child(t1.inodes[new_parent], new_name));
    assert(u1.inodes[dst].attr == t1.inodes[dst].attr);
    assert(refs(u1, dst).len() < max_refs(dst, u1.inodes[dst]));
    lemma_link_dropped(u1, dst);
    let u2 = link_dropped(u1, dst);
    if !t2.inodes.contains_key(new_parent) {
        assert(dst == new_parent);
        assert(t2.inodes =~= u2.inodes);
    } else {
        assert(t2.inodes[new_parent].children == t1.inodes[new_parent].children);
        if ino == dst {
            let left = one_less(t1.inodes[dst].attr.nlink);
            assert(left > 0) by {
                assert(refs(t1, ino).len() >= 1) by {
                    if refs(t1, ino).len() == 0 {
                        refs(t1, ino).lemma_len0_is_empty();
                    }
                }
                if is_dir_node(t1.inodes[ino]) {
                    assert(false);
                }
            }
            let new = with_nlink(t1.inodes[dst], left);
            lemma_replace_node(t1, dst, new);
            assert(t2 == with_node(t1, dst, new));
            let last = with_node(t2, new_parent, with_child(t2.inodes[new_parent], new_name, ino));
            assert(last.inodes[new_parent].children->0 =~= t2.inodes[new_parent].children->0);
            assert(last.inodes =~= t2.inodes);
        } else {
            assert(u2.inodes.contains_key(new_parent));
            assert(entry(u2, new_parent, new_name) is None);
            assert(u2.inodes.contains_key(ino) && u2.inodes[ino].attr == t1.inodes[ino].attr);
            assert(refs(u2, ino).len() <= refs(t1, ino).len()) by {
                assert(refs(t1, ino).finite());
                assert(refs(u2, ino).subset_of(refs(t1, ino))) by {
                    assert forall|k: (u64, Seq<char>)| refs(u2, ino).contains(k) implies refs(
                        t1,
                        ino,
                    ).contains(k) by {
                        assert(entry(u2, k.0, k.1) == entry(u1, k.0, k.1));
                        assert(entry(u1, k.0, k.1) == entry(t1, k.0, k.1));
                    }
                }
                lemma_len_subset(refs(u2, ino), refs(t1, ino));
            }
            lemma_add_entry(u2, new_parent, new_name, ino);
            let a = with_node(t2, new_parent, with_child(t2.inodes[new_parent], new_name, ino));
            let b = with_node(u2, new_parent, with_child(u2.inodes[new_parent], new_name, ino));
            assert(a.inodes[new_parent].children->0 =~= b.inodes[new_parent].children->0);
            assert(a.inodes =~= b.inodes);
        }
    }
}

/// Writing or truncating the content of a file keeps the tree in order.
pub proof fn law_content_change_keeps_tree(t: Tree, ino: u64, node: Node)
    requires
        tree_ok(t),
        t.inodes.contains_key(ino),
        node.attr.ino == t.inodes[ino].attr.ino,
        node.attr.mode == t.inodes[ino].attr.mode,
        node.attr.nlink == t.inodes[ino].attr.nlink,
        node.children == t.inodes[ino].children,
    ensures
        tree_ok(with_node(t, ino, node)),
{
    assert(node_ok(t, ino));
    assert(refs(t, ino).len() <= max_refs(ino, t.inodes[ino]));
    lemma_replace_node(t, ino, node);
}

} // verus!
