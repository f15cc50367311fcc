//! In-memory reference filesystem.
//!
//! `MemFs` is used in tests and as a fallback when the cache is unavailable.

use super::error::{outcome, VfsError, VfsErrorView, VfsResult};
use super::mode::{
    lemma_default_modes, DEFAULT_DIR_MODE, DEFAULT_FILE_MODE, MAX_NAME_LEN, S_IFMT,
};
use super::tree::{
    added, attrs_set, content_cut, content_read, content_written, data_read, data_sum, data_written,
    dir_made, dir_node, dir_removed, entry, file_made, file_node, found, is_dir_node,
    law_content_change_keeps_tree, law_create_keeps_tree, law_link_keeps_tree, law_mkdir_keeps_tree,
    law_rename_keeps_tree, law_rmdir_keeps_tree, law_setattr_keeps_tree, law_symlink_keeps_tree,
    law_unlink_keeps_tree, link_dropped, link_node, link_target, linked, looked_up, no_content,
    no_room, node_attr, node_ok, node_truncated, node_with_attrs, node_written, not_opened, refs,
    renamed, resized, symlink_made, tree_ok, unlinked, with_child, with_nlink, with_node,
    without_child, Node, Tree, ROOT,
};
use super::types::{
    block_count, entries_view, DirEntry, FileAttr, FilesystemStats, SetAttr, Timestamp,
};
use crate::cache::rows::DentryRow;
use crate::listing::{has_name, insert_sorted, sorted_names};
use crate::table::{lemma_rows_map, row_has_key, rows_map, Key, Row, Table};
use crate::text::{copy_opt, copy_text, opt_view, text_lt, texts};
use vstd::prelude::*;
use vstd::string::*;


verus! {

broadcast use vstd::string::group_string_axioms;

/// An inode.
#[derive(Debug)]
pub struct Inode {
    attr: FileAttr,
    children: Option<Table<String, DentryRow>>,
    data: Option<Vec<u8>>,
    target: Option<String>,
}

impl Row for Inode {
    type Model = Node;

    closed spec fn row(&self) -> Node {
        Node {
            attr: self.attr,
            children: match self.children {
                Some(c) => Some(c@),
                None => None,
            },
            data: match self.data {
                Some(d) => Some(d@),
                None => None,
            },
            target: opt_view(self.target),
        }
    }

    closed spec fn ok(&self) -> bool {
        self.children matches Some(c) ==> c.wf()
    }
}

impl Inode {
    fn new_dir(ino: u64, uid: u32, gid: u32, now: Timestamp) -> (r: Self)
        ensures
            r.ok(),
            r.row() == dir_node(ino, uid, gid, now),
    {
        Inode {
            attr: FileAttr::new_dir_with(ino, DEFAULT_DIR_MODE, uid, gid, now),
            children: Some(Table::new()),
            data: None,
            target: None,
        }
    }

    fn new_file(ino: u64, uid: u32, gid: u32, now: Timestamp) -> (r: Self)
        ensures
            r.ok(),
            r.row() == file_node(ino, uid, gid, now),
    {
        Inode {
            attr: FileAttr::new_file_with(ino, DEFAULT_FILE_MODE, uid, gid, now),
            children: None,
            data: Some(Vec::new()),
            target: None,
        }
    }

    fn new_symlink(ino: u64, target: &str, uid: u32, gid: u32, now: Timestamp) -> (r: Self)
        ensures
            r.ok(),
            r.row() == link_node(ino, target@, uid, gid, now),
    {
        Inode {
            attr: FileAttr::new_symlink_with(
                ino,
                target.as_bytes().len() as u64,
                uid,
                gid,
                now,
            ),
            children: None,
            data: None,
            target: Some(copy_text(target)),
        }
    }
}

/// In-memory filesystem.
#[derive(Debug)]
pub struct MemFs {
    inodes: Table<u64, Inode>,
    next: u64,
}

impl View for MemFs {
    type V = Tree;

    closed spec fn view(&self) -> Tree {
        Tree { inodes: self.inodes@, next: self.next }
    }
}

/// An open file of a [`MemFs`].
#[derive(Debug, Clone, Copy)]
pub struct MemFileHandle {
    pub ino: u64,
}

/// `list` holds the entries of a directory, each name with its inode, in the
/// order of the names.
pub open spec fn lists(children: Map<Seq<char>, u64>, list: Seq<(Seq<char>, u64)>) -> bool {
    &&& forall|i: int, j: int|
        0 <= i < j < list.len() ==> text_lt((#[trigger] list[i]).0, (#[trigger] list[j]).0)
    &&& forall|i: int|
        0 <= i < list.len() ==> children.contains_pair((#[trigger] list[i]).0, list[i].1)
    &&& forall|n: Seq<char>| #[trigger]
        children.contains_key(n) ==> exists|i: int|
            0 <= i < list.len() && (#[trigger] list[i]).0 == n
}

/// The names of a list of entries.
pub open spec fn names_of(list: Seq<(Seq<char>, u64)>) -> Seq<Seq<char>> {
    list.map_values(|e: (Seq<char>, u64)| e.0)
}

/// The entries of a list with the attributes of their inodes.
pub open spec fn attrs_of(t: Tree, list: Seq<(Seq<char>, u64)>) -> Seq<(Seq<char>, FileAttr)> {
    list.map_values(|e: (Seq<char>, u64)| (e.0, t.inodes[e.1].attr))
}

spec fn listed(v: Seq<(String, u64)>) -> Seq<(Seq<char>, u64)> {
    v.map_values(|e: (String, u64)| (e.0@, e.1))
}

/// The entries of a directory in the order of their names.
fn list_children(children: &Table<String, DentryRow>) -> (r: Vec<(String, u64)>)
    requires
        children.wf(),
    ensures
        lists(children@, listed(r@)),
{
    let ghost rows = children.rows@;
    let mut out: Vec<(String, u64)> = Vec::new();
    let mut i: usize = 0;
    while i < children.rows.len()
        invariant
            rows == children.rows@,
            children.wf(),
            i <= rows.len(),
            sorted_names(out@),
            forall|k: int| 0 <= k < out@.len() ==> came_from(rows, i as int, #[trigger] out@[k]),
            forall|j: int| 0 <= j < i ==> has_name(out@, (#[trigger] rows[j]).0@),
        decreases rows.len() - i,
    {
        let ghost before = out@;
        let entry = (copy_text(children.rows[i].0.as_str()), children.rows[i].1.ino);
        proof {
            if has_name(before, entry.0@) {
                let k = choose|k: int|
                    0 <= k < before.len() && (#[trigger] before[k]).0@ == entry.0@;
                assert(came_from(rows, i as int, before[k]));
                let j = choose|j: int| 0 <= j < i && #[trigger] same_entry(rows[j], before[k]);
                assert(rows[j].0.value() != rows[i as int].0.value());
            }
        }
        let at: usize = insert_sorted(&mut out, entry);
        proof {
            assert(same_entry(rows[i as int], entry));
            assert forall|k: int| 0 <= k < out@.len() implies came_from(
                rows,
                i + 1,
                #[trigger] out@[k],
            ) by {
                if k == at {
                    assert(same_entry(rows[i as int], out@[k]));
                } else {
                    let b = if k < at {
                        k
                    } else {
                        k - 1
                    };
                    assert(out@[k] == before[b]);
                    assert(came_from(rows, i as int, before[b]));
                    let j = choose|j: int|
                        0 <= j < i && #[trigger] same_entry(rows[j], before[b]);
                    assert(same_entry(rows[j], out@[k]));
                }
            }
            assert forall|j: int| 0 <= j < i + 1 implies has_name(
                out@,
                (#[trigger] rows[j]).0@,
            ) by {
                if j == i {
                    assert(out@[at as int].0@ == rows[j].0@);
                } else {
                    assert(has_name(before, rows[j].0@));
                    let k = choose|k: int|
                        0 <= k < before.len() && (#[trigger] before[k]).0@ == rows[j].0@;
                    if k < at {
                        assert(out@[k] == before[k]);
                    } else {
                        assert(out@[k + 1] == before[k]);
                    }
                }
            }
        }
        i += 1;
    }
    proof {
        lemma_rows_map(rows);
        let list = listed(out@);
        assert forall|k: int| 0 <= k < list.len() implies children@.contains_pair(
            (#[trigger] list[k]).0,
            list[k].1,
        ) by {
            assert(came_from(rows, i as int, out@[k]));
            let j = choose|j: int| 0 <= j < i && #[trigger] same_entry(rows[j], out@[k]);
            assert(rows[j].0.value() == list[k].0);
        }
        assert forall|n: Seq<char>| #[trigger] children@.contains_key(n) implies exists|k: int|
            0 <= k < list.len() && (#[trigger] list[k]).0 == n by {
            let j = choose|j: int| row_has_key(rows, j, n);
            assert(has_name(out@, rows[j].0@));
            let k = choose|k: int| 0 <= k < out@.len() && (#[trigger] out@[k]).0@ == n;
            assert(list[k].0 == n);
        }
        assert forall|a: int, b: int| 0 <= a < b < list.len() implies text_lt(
            (#[trigger] list[a]).0,
            (#[trigger] list[b]).0,
        ) by {
            assert(text_lt(out@[a].0@, out@[b].0@));
        }
    }
    out
}

spec fn same_entry(row: (String, DentryRow), e: (String, u64)) -> bool {
    row.0@ == e.0@ && row.1.ino == e.1
}

spec fn came_from(rows: Seq<(String, DentryRow)>, n: int, e: (String, u64)) -> bool {
    exists|j: int| 0 <= j < n && #[trigger] same_entry(rows[j], e)
}

/// A tree with nothing but a root directory that was made at `now`.
pub open spec fn bare_tree(now: Timestamp) -> Tree {
    Tree { inodes: map![ROOT => dir_node(ROOT, 0, 0, now)], next: 2 }
}

proof fn lemma_bare_tree(now: Timestamp)
    ensures
        tree_ok(bare_tree(now)),
{
    let t = bare_tree(now);
    lemma_default_modes();
    assert forall|p: u64, n: Seq<char>| (#[trigger] entry(t, p, n)) is None by {}
    assert forall|i: u64| (#[trigger] refs(t, i)).finite() && refs(t, i).len() == 0 by {
        assert(refs(t, i) =~= Set::empty());
    }
}

impl MemFs {
    /// The tree is in order.
    pub closed spec fn wf(&self) -> bool {
        self.inodes.wf() && tree_ok(self@)
    }

    /// What a well-formed filesystem promises.
    pub proof fn lemma_wf(&self)
        requires
            self.wf(),
        ensures
            tree_ok(self@),
    {
    }

    /// A filesystem with nothing but a root directory, made at `now`.
    pub fn new_at(now: Timestamp) -> (r: Self)
        ensures
            r.wf(),
            r@ == bare_tree(now),
    {
        let mut inodes: Table<u64, Inode> = Table::new();
        inodes.put(ROOT, Inode::new_dir(ROOT, 0, 0, now));
        let r = MemFs { inodes, next: 2 };
        proof {
            lemma_bare_tree(now);
            assert(r@.inodes =~= bare_tree(now).inodes);
        }
        r
    }

    /// A filesystem with nothing but a root directory.
    pub fn new() -> (r: Self)
        ensures
            r.wf(),
            exists|now: Timestamp| r@ == #[trigger] bare_tree(now),
    {
        let now = Timestamp::now();
        Self::new_at(now)
    }

    /// Whether there is a number left for a new inode.
    pub fn has_number(&self) -> (r: bool)
        ensures
            r == (self@.next < u64::MAX),
    {
        self.next < u64::MAX
    }

    /// The inode that `name` names in directory `parent`.
    fn child(&self, parent: u64, name: &str) -> (r: Option<u64>)
        requires
            self.wf(),
        ensures
            r == entry(self@, parent, name@),
    {
        match self.inodes.get(&parent) {
            Some(node) => match &node.children {
                Some(children) => match children.get(&copy_text(name)) {
                    Some(row) => Some(row.ino),
                    None => None,
                },
                None => None,
            },
            None => None,
        }
    }

    /// Finds the entry that an operation is about to change.
    fn find(&self, parent: u64, name: &str) -> (r: VfsResult<u64>)
        requires
            self.wf(),
        ensures
            outcome(r) == found(self@, parent, name@),
    {
        match self.inodes.get(&parent) {
            Some(node) => match &node.children {
                Some(children) => match children.get(&copy_text(name)) {
                    Some(row) => Ok(row.ino),
                    None => Err(VfsError::NotFound),
                },
                None => Err(VfsError::NotDirectory),
            },
            None => Err(VfsError::NotFound),
        }
    }

    /// Whether something can be made in `parent`.
    fn check_room(&self, parent: u64) -> (r: VfsResult<()>)
        requires
            self.wf(),
        ensures
            match no_room(self@, parent) {
                Some(e) => r matches Err(x) && x@ == e,
                None => r is Ok,
            },
    {
        match self.inodes.get(&parent) {
            Some(node) => {
                if node.attr.is_directory() {
                    Ok(())
                } else {
                    Err(VfsError::NotDirectory)
                }
            },
            None => Err(VfsError::NotFound),
        }
    }

    /// Gives directory `parent` the entry `name` for `ino`, and another number
    /// of links where `nlink` says so.
    fn put_child(&mut self, parent: u64, name: &str, ino: u64)
        requires
            old(self).inodes.wf(),
            old(self)@.inodes.contains_key(parent),
            old(self)@.inodes[parent].children is Some,
        ensures
            final(self).inodes.wf(),
            final(self)@ == with_node(
                old(self)@,
                parent,
                with_child(old(self)@.inodes[parent], name@, ino),
            ),
    {
        let ghost t = self@;
        match self.inodes.take(&parent) {
            Some(node) => {
                let mut new = node;
                match new.children {
                    Some(c) => {
                        let mut children = c;
                        children.put(copy_text(name), DentryRow { ino });
                        new.children = Some(children);
                    },
                    None => {
                        new.children = None;
                    },
                }
                self.inodes.put(parent, new);
                assert(self@.inodes =~= t.inodes.insert(
                    parent,
                    with_child(t.inodes[parent], name@, ino),
                ));
            },
            None => {},
        }
    }

    /// Takes the entry `name` from directory `parent`.
    fn drop_child(&mut self, parent: u64, name: &str)
        requires
            old(self).inodes.wf(),
            old(self)@.inodes.contains_key(parent),
            old(self)@.inodes[parent].children is Some,
        ensures
            final(self).inodes.wf(),
            final(self)@ == with_node(
                old(self)@,
                parent,
                without_child(old(self)@.inodes[parent], name@),
            ),
    {
        let ghost t = self@;
        match self.inodes.take(&parent) {
            Some(node) => {
                let mut new = node;
                match new.children {
                    Some(c) => {
                        let mut children = c;
                        children.remove(&copy_text(name));
                        new.children = Some(children);
                    },
                    None => {
                        new.children = None;
                    },
                }
                self.inodes.put(parent, new);
                assert(self@.inodes =~= t.inodes.insert(
                    parent,
                    without_child(t.inodes[parent], name@),
                ));
            },
            None => {},
        }
    }

    /// Gives `ino` another number of links.
    fn set_nlink(&mut self, ino: u64, nlink: u32)
        requires
            old(self).inodes.wf(),
            old(self)@.inodes.contains_key(ino),
        ensures
            final(self).inodes.wf(),
            final(self)@ == with_node(old(self)@, ino, with_nlink(old(self)@.inodes[ino], nlink)),
    {
        let ghost t = self@;
        match self.inodes.take(&ino) {
            Some(node) => {
                let mut new = node;
                new.attr.nlink = nlink;
                self.inodes.put(ino, new);
                assert(self@.inodes =~= t.inodes.insert(ino, with_nlink(t.inodes[ino], nlink)));
            },
            None => {},
        }
    }

    /// How many links `ino` has.
    fn nlink(&self, ino: u64) -> (r: u32)
        requires
            self.inodes.wf(),
            self@.inodes.contains_key(ino),
        ensures
            r == self@.inodes[ino].attr.nlink,
    {
        match self.inodes.get(&ino) {
            Some(node) => node.attr.nlink,
            None => 0,
        }
    }

    /// Takes a link from `ino`, and the inode with the last one.
    fn drop_link(&mut self, ino: u64)
        requires
            old(self).inodes.wf(),
            old(self)@.inodes.contains_key(ino),
        ensures
            final(self).inodes.wf(),
            final(self)@ == link_dropped(old(self)@, ino),
    {
        let left: u32 = self.nlink(ino).saturating_sub(1);
        if left == 0 {
            self.inodes.remove(&ino);
        } else {
            self.set_nlink(ino, left);
        }
    }

    /// Adds an inode under the next number, as `name` in `parent`.
    fn add(&mut self, parent: u64, name: &str, node: Inode)
        requires
            old(self).inodes.wf(),
            node.ok(),
            old(self)@.next < u64::MAX,
            old(self)@.inodes.contains_key(parent),
            old(self)@.inodes[parent].children is Some,
            parent != old(self)@.next,
        ensures
            final(self).inodes.wf(),
            final(self)@ == added(old(self)@, parent, name@, node.row()),
    {
        let ino: u64 = self.next;
        self.next = ino + 1;
        self.inodes.put(ino, node);
        self.put_child(parent, name, ino);
    }

    // ── Filesystem operations ───────────────────────────────────────────────

    pub fn lookup(&self, parent_ino: u64, name: &str) -> (r: VfsResult<Option<FileAttr>>)
        requires
            self.wf(),
        ensures
            r == Ok::<Option<FileAttr>, VfsError>(looked_up(self@, parent_ino, name@)),
    {
        match self.child(parent_ino, name) {
            Some(ino) => self.getattr(ino),
            None => Ok(None),
        }
    }

    pub fn getattr(&self, ino: u64) -> (r: VfsResult<Option<FileAttr>>)
        requires
            self.wf(),
        ensures
            r == Ok::<Option<FileAttr>, VfsError>(node_attr(self@, ino)),
    {
        match self.inodes.get(&ino) {
            Some(node) => Ok(Some(node.attr)),
            None => Ok(None),
        }
    }

    /// Changes the attributes of `ino` when the time is `now`.
    pub fn setattr_at(&mut self, ino: u64, attr: SetAttr, now: Timestamp) -> (r: VfsResult<
        FileAttr,
    >)
        requires
            old(self).wf(),
            attr.size matches Some(size) ==> size <= isize::MAX,
        ensures
            final(self).wf(),
            (final(self)@, outcome(r)) == attrs_set(old(self)@, ino, attr, now),
    {
        let ghost t = self@;
        proof {
            law_setattr_keeps_tree(t, ino, attr, now);
        }
        match self.inodes.take(&ino) {
            Some(node) => {
                let mut new = node;
                match attr.mode {
                    Some(mode) => {
                        new.attr.mode = (new.attr.mode & S_IFMT) | (mode & !S_IFMT);
                    },
                    None => {},
                }
                match attr.uid {
                    Some(uid) => {
                        new.attr.uid = uid;
                    },
                    None => {},
                }
                match attr.gid {
                    Some(gid) => {
                        new.attr.gid = gid;
                    },
                    None => {},
                }
                match attr.size {
                    Some(size) => {
                        new.data = match new.data {
                            Some(d) => Some(resize_data(d, size as usize)),
                            None => None,
                        };
                        new.attr.size = size;
                        new.attr.blocks = block_count(size);
                    },
                    None => {},
                }
                match attr.atime {
                    Some(atime) => {
                        new.attr.atime = atime.resolve(now);
                    },
                    None => {},
                }
                match attr.mtime {
                    Some(mtime) => {
                        new.attr.mtime = mtime.resolve(now);
                    },
                    None => {},
                }
                new.attr.ctime = now;
                let result = new.attr;
                assert(new.row() == node_with_attrs(t.inodes[ino], attr, now));
                self.inodes.put(ino, new);
                assert(self@.inodes =~= attrs_set(t, ino, attr, now).0.inodes);
                Ok(result)
            },
            None => {
                assert(self@.inodes =~= t.inodes);
                Err(VfsError::NotFound)
            },
        }
    }

    /// Changes the attributes of `ino`.
    pub fn setattr(&mut self, ino: u64, attr: SetAttr) -> (r: VfsResult<FileAttr>)
        requires
            old(self).wf(),
            attr.size matches Some(size) ==> size <= isize::MAX,
        ensures
            final(self).wf(),
            exists|now: Timestamp|
                (final(self)@, outcome(r)) == #[trigger] attrs_set(old(self)@, ino, attr, now),
    {
        let now = Timestamp::now();
        self.setattr_at(ino, attr, now)
    }

    /// The names in directory `ino`, in order; `None` if it is no directory.
    pub fn readdir(&self, ino: u64) -> (r: VfsResult<Option<Vec<String>>>)
        requires
            self.wf(),
        ensures
            r is Ok,
            match r->Ok_0 {
                None => !self@.inodes.contains_key(ino) || self@.inodes[ino].children is None,
                Some(names) => self@.inodes.contains_key(ino) && self@.inodes[ino].children is Some
                    && exists|list: Seq<(Seq<char>, u64)>| #[trigger]
                    lists(self@.inodes[ino].children->0, list) && texts(names@) == names_of(list),
            },
    {
        match self.inodes.get(&ino) {
            Some(node) => match &node.children {
                Some(children) => {
                    let list = list_children(children);
                    let ghost seen = listed(list@);
                    let mut names: Vec<String> = Vec::new();
                    let mut i: usize = 0;
                    while i < list.len()
                        invariant
                            i <= list@.len(),
                            seen == listed(list@),
                            texts(names@) == names_of(seen).take(i as int),
                        decreases list@.len() - i,
                    {
                        let ghost before = texts(names@);
                        let name = copy_text(list[i].0.as_str());
                        names.push(name);
                        assert(texts(names@) =~= before.push(name@));
                        assert(names_of(seen)[i as int] == name@);
                        assert(names_of(seen).take(i + 1) =~= before.push(name@));
                        i += 1;
                    }
                    assert(names_of(seen).take(seen.len() as int) =~= names_of(seen));
                    assert(lists(self@.inodes[ino].children->0, seen));
                    Ok(Some(names))
                },
                None => Ok(None),
            },
            None => Ok(None),
        }
    }

    /// The entries of directory `ino` with their attributes, in the order of
    /// their names; `None` if it is no directory.
    pub fn readdir_plus(&self, ino: u64) -> (r: VfsResult<Option<Vec<DirEntry>>>)
        requires
            self.wf(),
        ensures
            r is Ok,
            match r->Ok_0 {
                None => !self@.inodes.contains_key(ino) || self@.inodes[ino].children is None,
                Some(entries) => self@.inodes.contains_key(ino)
                    && self@.inodes[ino].children is Some && exists|list: Seq<(Seq<char>, u64)>| #[trigger]
                    lists(self@.inodes[ino].children->0, list) && entries_view(entries@)
                        == attrs_of(self@, list),
            },
    {
        match self.inodes.get(&ino) {
            Some(node) => match &node.children {
                Some(children) => {
                    let list = list_children(children);
                    let ghost seen = listed(list@);
                    let ghost t = self@;
                    let mut entries: Vec<DirEntry> = Vec::new();
                    let mut i: usize = 0;
                    while i < list.len()
                        invariant
                            self.wf(),
                            t == self@,
                            t.inodes.contains_key(ino),
                            t.inodes[ino].children is Some,
                            i <= list@.len(),
                            seen == listed(list@),
                            lists(t.inodes[ino].children->0, seen),
                            entries_view(entries@) == attrs_of(t, seen).take(i as int),
                        decreases list@.len() - i,
                    {
                        proof {
                            assert(t.inodes[ino].children->0.contains_pair(
                                seen[i as int].0,
                                seen[i as int].1,
                            ));
                            assert(entry(t, ino, seen[i as int].0) == Some(seen[i as int].1));
                        }
                        let ghost before = entries_view(entries@);
                        match self.inodes.get(&list[i].1) {
                            Some(child) => {
                                let e = DirEntry {
                                    name: copy_text(list[i].0.as_str()),
                                    attr: child.attr,
                                };
                                entries.push(e);
                                assert(entries_view(entries@) =~= before.push(e@));
                                assert(attrs_of(t, seen)[i as int] == e@);
                                assert(attrs_of(t, seen).take(i + 1) =~= before.push(e@));
                            },
                            None => {},
                        }
                        i += 1;
                    }
                    assert(attrs_of(t, seen).take(seen.len() as int) =~= attrs_of(t, seen));
                    Ok(Some(entries))
                },
                None => Ok(None),
            },
            None => Ok(None),
        }
    }

    /// Makes a directory when the time is `now`.
    pub fn mkdir_at(
        &mut self,
        parent_ino: u64,
        name: &str,
        _mode: u32,
        uid: u32,
        gid: u32,
        now: Timestamp,
    ) -> (r: VfsResult<FileAttr>)
        requires
            old(self).wf(),
            old(self)@.next < u64::MAX,
            old(self)@.inodes.contains_key(parent_ino) ==> old(
                self,
            )@.inodes[parent_ino].attr.nlink < u32::MAX,
        ensures
            final(self).wf(),
            (final(self)@, outcome(r)) == dir_made(
                old(self)@,
                parent_ino,
                name@,
                uid,
                gid,
                now,
            ),
    {
        let ghost t = self@;
        proof {
            law_mkdir_keeps_tree(t, parent_ino, name@, uid, gid, now);
        }
        if name.as_bytes().len() > MAX_NAME_LEN as usize {
            return Err(VfsError::NameTooLong);
        }
        match self.check_room(parent_ino) {
            Ok(_) => {},
            Err(e) => {
                return Err(e);
            },
        }
        if self.child(parent_ino, name).is_some() {
            return Err(VfsError::AlreadyExists);
        }
        proof {
            assert(node_ok(t, parent_ino));
        }
        let node = Inode::new_dir(self.next, uid, gid, now);
        let attr = node.attr;
        self.add(parent_ino, name, node);
        let nlink: u32 = self.nlink(parent_ino) + 1;
        self.set_nlink(parent_ino, nlink);
        Ok(attr)
    }

    /// Makes a directory.
    pub fn mkdir(&mut self, parent_ino: u64, name: &str, mode: u32, uid: u32, gid: u32) -> (r:
        VfsResult<FileAttr>)
        requires
            old(self).wf(),
            old(self)@.next < u64::MAX,
            old(self)@.inodes.contains_key(parent_ino) ==> old(
                self,
            )@.inodes[parent_ino].attr.nlink < u32::MAX,
        ensures
            final(self).wf(),
            exists|now: Timestamp|
                (final(self)@, outcome(r)) == #[trigger] dir_made(
                    old(self)@,
                    parent_ino,
                    name@,
                    uid,
                    gid,
                    now,
                ),
    {
        let now = Timestamp::now();
        self.mkdir_at(parent_ino, name, mode, uid, gid, now)
    }

    /// Removes an empty directory.
    pub fn rmdir(&mut self, parent_ino: u64, name: &str) -> (r: VfsResult<()>)
        requires
            old(self).wf(),
        ensures
            final(self).wf(),
            (final(self)@, outcome(r)) == dir_removed(old(self)@, parent_ino, name@),
    {
        let ghost t = self@;
        proof {
            law_rmdir_keeps_tree(t, parent_ino, name@);
        }
        let ino: u64 = match self.find(parent_ino, name) {
            Ok(ino) => ino,
            Err(e) => {
                return Err(e);
            },
        };
        proof {
            assert(entry(t, parent_ino, name@) == Some(ino));
            assert(node_ok(t, ino));
        }
        match self.inodes.get(&ino) {
            Some(child) => {
                if !child.attr.is_directory() {
                    return Err(VfsError::NotDirectory);
                }
                match &child.children {
                    Some(c) => {
                        if c.rows.len() > 0 {
                            proof {
                                lemma_rows_map(c.rows@);
                                assert(c@.contains_key(c.rows@[0].0.value()));
                                assert(c@ != Map::<Seq<char>, u64>::empty());
                            }
                            return Err(VfsError::NotEmpty);
                        }
                        assert(c@ =~= Map::<Seq<char>, u64>::empty());
                    },
                    None => {},
                }
            },
            None => {
                return Err(VfsError::NotFound);
            },
        }
        self.inodes.remove(&ino);
        self.drop_child(parent_ino, name);
        let nlink: u32 = self.nlink(parent_ino).saturating_sub(1);
        self.set_nlink(parent_ino, nlink);
        assert(self@.inodes =~= dir_removed(t, parent_ino, name@).0.inodes);
        Ok(())
    }

    /// Opens a file.
    pub fn open(&self, ino: u64, _flags: i32) -> (r: VfsResult<MemFileHandle>)
        requires
            self.wf(),
        ensures
            outcome(r) == (if !self@.inodes.contains_key(ino) {
                Err::<MemFileHandle, VfsErrorView>(VfsErrorView::NotFound)
            } else if is_dir_node(self@.inodes[ino]) {
                Err(VfsErrorView::IsDirectory)
            } else {
                Ok(MemFileHandle { ino })
            }),
            outcome(r) == (match not_opened(self@, ino) {
                Some(e) => Err(e),
                None => Ok(MemFileHandle { ino }),
            }),
    {
        match self.inodes.get(&ino) {
            Some(node) => {
                if node.attr.is_directory() {
                    Err(VfsError::IsDirectory)
                } else {
                    Ok(MemFileHandle { ino })
                }
            },
            None => Err(VfsError::NotFound),
        }
    }

    /// Makes a file, or opens what is there, when the time is `now`.
    pub fn create_file_at(
        &mut self,
        parent_ino: u64,
        name: &str,
        _mode: u32,
        uid: u32,
        gid: u32,
        now: Timestamp,
    ) -> (r: VfsResult<(FileAttr, MemFileHandle)>)
        requires
            old(self).wf(),
            old(self)@.next < u64::MAX,
        ensures
            final(self).wf(),
            ({
                let (t, made) = file_made(old(self)@, parent_ino, name@, uid, gid, now);
                &&& final(self)@ == t
                &&& match made {
                    Ok(a) => r matches Ok(x) && x.0 == a && x.1.ino == a.ino,
                    Err(e) => r matches Err(x) && x@ == e,
                }
            }),
    {
        let ghost t = self@;
        proof {
            law_create_keeps_tree(t, parent_ino, name@, uid, gid, now);
        }
        if name.as_bytes().len() > MAX_NAME_LEN as usize {
            return Err(VfsError::NameTooLong);
        }
        match self.check_room(parent_ino) {
            Ok(_) => {},
            Err(e) => {
                return Err(e);
            },
        }
        match self.child(parent_ino, name) {
            Some(ino) => {
                proof {
                    assert(entry(t, parent_ino, name@) == Some(ino));
                    assert(node_ok(t, ino));
                }
                match self.inodes.get(&ino) {
                    Some(node) => Ok((node.attr, MemFileHandle { ino })),
                    None => Err(VfsError::NotFound),
                }
            },
            None => {
                proof {
                    assert(node_ok(t, parent_ino));
                }
                let ino: u64 = self.next;
                let node = Inode::new_file(ino, uid, gid, now);
                let attr = node.attr;
                self.add(parent_ino, name, node);
                Ok((attr, MemFileHandle { ino }))
            },
        }
    }

    /// Makes a file, or opens what is there.
    pub fn create_file(
        &mut self,
        parent_ino: u64,
        name: &str,
        mode: u32,
        uid: u32,
        gid: u32,
    ) -> (r: VfsResult<(FileAttr, MemFileHandle)>)
        requires
            old(self).wf(),
            old(self)@.next < u64::MAX,
        ensures
            final(self).wf(),
            exists|now: Timestamp|
                {
                    let (t, made) = #[trigger] file_made(
                        old(self)@,
                        parent_ino,
                        name@,
                        uid,
                        gid,
                        now,
                    );
                    &&& final(self)@ == t
                    &&& match made {
                        Ok(a) => r matches Ok(x) && x.0 == a && x.1.ino == a.ino,
                        Err(e) => r matches Err(x) && x@ == e,
                    }
                },
    {
        let now = Timestamp::now();
        self.create_file_at(parent_ino, name, mode, uid, gid, now)
    }

    /// Removes a name of a file.
    pub fn unlink(&mut self, parent_ino: u64, name: &str) -> (r: VfsResult<()>)
        requires
            old(self).wf(),
        ensures
            final(self).wf(),
            (final(self)@, outcome(r)) == unlinked(old(self)@, parent_ino, name@),
    {
        let ghost t = self@;
        proof {
            law_unlink_keeps_tree(t, parent_ino, name@);
        }
        let ino: u64 = match self.find(parent_ino, name) {
            Ok(ino) => ino,
            Err(e) => {
                return Err(e);
            },
        };
        proof {
            assert(entry(t, parent_ino, name@) == Some(ino));
            assert(node_ok(t, ino));
        }
        match self.inodes.get(&ino) {
            Some(child) => {
                if child.attr.is_directory() {
                    return Err(VfsError::IsDirectory);
                }
            },
            None => {
                return Err(VfsError::NotFound);
            },
        }
        self.drop_child(parent_ino, name);
        self.drop_link(ino);
        Ok(())
    }

    /// The target of a symbolic link.
    pub fn readlink(&self, ino: u64) -> (r: VfsResult<Option<String>>)
        requires
            self.wf(),
        ensures
            r is Ok,
            opt_view(r->Ok_0) == (match self@.inodes.get(ino) {
                Some(node) => node.target,
                None => None,
            }),
            opt_view(r->Ok_0) == link_target(self@, ino),
    {
        match self.inodes.get(&ino) {
            Some(node) => Ok(copy_opt(&node.target)),
            None => Ok(None),
        }
    }

    /// Makes a symbolic link when the time is `now`.
    pub fn symlink_at(
        &mut self,
        parent_ino: u64,
        name: &str,
        target: &str,
        uid: u32,
        gid: u32,
        now: Timestamp,
    ) -> (r: VfsResult<FileAttr>)
        requires
            old(self).wf(),
            old(self)@.next < u64::MAX,
        ensures
            final(self).wf(),
            (final(self)@, outcome(r)) == symlink_made(
                old(self)@,
                parent_ino,
                name@,
                target@,
                uid,
                gid,
                now,
            ),
    {
        let ghost t = self@;
        proof {
            law_symlink_keeps_tree(t, parent_ino, name@, target@, uid, gid, now);
        }
        match self.check_room(parent_ino) {
            Ok(_) => {},
            Err(e) => {
                return Err(e);
            },
        }
        if self.child(parent_ino, name).is_some() {
            return Err(VfsError::AlreadyExists);
        }
        proof {
            assert(node_ok(t, parent_ino));
        }
        let node = Inode::new_symlink(self.next, target, uid, gid, now);
        let attr = node.attr;
        self.add(parent_ino, name, node);
        Ok(attr)
    }

    /// Makes a symbolic link.
    pub fn symlink(&mut self, parent_ino: u64, name: &str, target: &str, uid: u32, gid: u32) -> (r:
        VfsResult<FileAttr>)
        requires
            old(self).wf(),
            old(self)@.next < u64::MAX,
        ensures
            final(self).wf(),
            exists|now: Timestamp|
                (final(self)@, outcome(r)) == #[trigger] symlink_made(
                    old(self)@,
                    parent_ino,
                    name@,
                    target@,
                    uid,
                    gid,
                    now,
                ),
    {
        let now = Timestamp::now();
        self.symlink_at(parent_ino, name, target, uid, gid, now)
    }

    /// Gives a file one more name.
    pub fn link(&mut self, ino: u64, new_parent_ino: u64, new_name: &str) -> (r: VfsResult<
        FileAttr,
    >)
        requires
            old(self).wf(),
            old(self)@.inodes.contains_key(ino) ==> old(self)@.inodes[ino].attr.nlink < u32::MAX,
        ensures
            final(self).wf(),
            (final(self)@, outcome(r)) == linked(old(self)@, ino, new_parent_ino, new_name@),
    {
        let ghost t = self@;
        proof {
            law_link_keeps_tree(t, ino, new_parent_ino, new_name@);
        }
        match self.inodes.get(&ino) {
            Some(node) => {
                if node.attr.is_directory() {
                    return Err(VfsError::IsDirectory);
                }
            },
            None => {
                return Err(VfsError::NotFound);
            },
        }
        match self.check_room(new_parent_ino) {
            Ok(_) => {},
            Err(e) => {
                return Err(e);
            },
        }
        if self.child(new_parent_ino, new_name).is_some() {
            return Err(VfsError::AlreadyExists);
        }
        proof {
            assert(node_ok(t, new_parent_ino));
        }
        let nlink: u32 = self.nlink(ino) + 1;
        self.set_nlink(ino, nlink);
        let attr = match self.inodes.get(&ino) {
            Some(node) => node.attr,
            None => {
                return Err(VfsError::NotFound);
            },
        };
        self.put_child(new_parent_ino, new_name, ino);
        Ok(attr)
    }

    /// Moves a name.
    pub fn rename(
        &mut self,
        old_parent_ino: u64,
        old_name: &str,
        new_parent_ino: u64,
        new_name: &str,
    ) -> (r: VfsResult<()>)
        requires
            old(self).wf(),
        ensures
            final(self).wf(),
            (final(self)@, outcome(r)) == renamed(
                old(self)@,
                old_parent_ino,
                old_name@,
                new_parent_ino,
                new_name@,
            ),
    {
        let ghost t = self@;
        proof {
            law_rename_keeps_tree(t, old_parent_ino, old_name@, new_parent_ino, new_name@);
        }
        let ino: u64 = match self.find(old_parent_ino, old_name) {
            Ok(ino) => ino,
            Err(e) => {
                return Err(e);
            },
        };
        self.drop_child(old_parent_ino, old_name);
        proof {
            assert(entry(t, old_parent_ino, old_name@) == Some(ino));
            super::tree::lemma_drop_entry(t, old_parent_ino, old_name@);
        }
        match self.child(new_parent_ino, new_name) {
            Some(dst) => {
                proof {
                    assert(entry(self@, new_parent_ino, new_name@) == Some(dst));
                }
                self.drop_link(dst);
            },
            None => {},
        }
        let is_dir = match self.inodes.get(&new_parent_ino) {
            Some(node) => node.children.is_some(),
            None => {
                return Err(VfsError::NotFound);
            },
        };
        if !is_dir {
            return Err(VfsError::NotDirectory);
        }
        self.put_child(new_parent_ino, new_name, ino);
        Ok(())
    }

    /// The number of inodes and the sum of the content lengths.
    pub fn statfs(&self) -> (r: VfsResult<FilesystemStats>)
        requires
            self.wf(),
        ensures
            r == Ok::<FilesystemStats, VfsError>(
                FilesystemStats {
                    inodes: self@.inodes.len() as u64,
                    bytes_used: data_sum(self@.inodes, 0x1_0000_0000_0000_0000) as u64,
                },
            ),
    {
        let mut sum: u128 = 0;
        let mut i: usize = 0;
        let n: usize = self.inodes.len();
        let count: usize = self.inodes.rows.len();
        let ghost rows = self.inodes.rows@;
        let ghost all = 0x1_0000_0000_0000_0000int;
        proof {
            lemma_data_sum_empty(all);
            assert(rows.take(0) =~= Seq::empty());
        }
        while i < count
            invariant
                rows == self.inodes.rows@,
                self.inodes.wf(),
                all == 0x1_0000_0000_0000_0000,
                i <= count == rows.len(),
                sum == data_sum(rows_map(rows.take(i as int)), all),
                sum <= i * 0xffff_ffff_ffff_ffff,
            decreases count - i,
        {
            let len: usize = match &self.inodes.rows[i].1.data {
                Some(d) => d.len(),
                None => 0,
            };
            proof {
                let front = rows.take(i as int);
                assert(rows.take(i + 1).drop_last() =~= front);
                assert(crate::table::distinct_keys(front)) by {
                    assert forall|a: int, b: int| 0 <= a < b < front.len() implies (
                    #[trigger] front[a]).0.value() != (#[trigger] front[b]).0.value() by {
                        assert(front[a] == rows[a] && front[b] == rows[b]);
                    }
                }
                lemma_rows_map(front);
                if rows_map(front).contains_key(rows[i as int].0) {
                    let j = choose|j: int| row_has_key(front, j, rows[i as int].0);
                    assert(front[j] == rows[j]);
                }
                lemma_data_sum_insert(
                    rows_map(front),
                    rows[i as int].0,
                    rows[i as int].1.row(),
                    all,
                );
            }
            sum = sum + len as u128;
            i += 1;
        }
        assert(rows.take(rows.len() as int) =~= rows);
        Ok(FilesystemStats { inodes: n as u64, bytes_used: sum as u64 })
    }
}

impl Default for MemFs {
    fn default() -> (r: Self)
        ensures
            r.wf(),
            exists|now: Timestamp| r@ == #[trigger] bare_tree(now),
    {
        Self::new()
    }
}

pub proof fn lemma_data_sum_empty(hi: int)
    ensures
        data_sum(Map::empty(), hi) == 0,
    decreases hi,
{
    if hi > 0 {
        lemma_data_sum_empty(hi - 1);
    }
}

pub proof fn lemma_data_sum_insert(inodes: Map<u64, Node>, ino: u64, node: Node, hi: int)
    requires
        !inodes.contains_key(ino),
        0 <= hi <= 0x1_0000_0000_0000_0000,
    ensures
        data_sum(inodes.insert(ino, node), hi) == data_sum(inodes, hi) + (if ino < hi {
            match node.data {
                Some(d) => d.len() as int,
                None => 0,
            }
        } else {
            0
        }),
    decreases hi,
{
    if hi > 0 {
        lemma_data_sum_insert(inodes, ino, node, hi - 1);
    }
}

/// Content cut or extended with zeros.
fn resize_data(d: Vec<u8>, n: usize) -> (r: Vec<u8>)
    ensures
        r@ == resized(d@, n as nat),
{
    let ghost before = d@;
    let mut out = d;
    out.resize(n, 0);
    proof {
        assert forall|i: int| 0 <= i < n implies #[trigger] out@[i] == resized(
            before,
            n as nat,
        )[i] by {
            if n > before.len() && i < before.len() {
                assert(out@.subrange(0, before.len() as int)[i] == before[i]);
            }
        }
    }
    assert(out@ =~= resized(before, n as nat));
    out
}

impl MemFileHandle {
    /// The bytes from `offset` on, at most `size` of them.
    pub fn read(&self, fs: &MemFs, offset: u64, size: usize) -> (r: VfsResult<Vec<u8>>)
        requires
            fs.wf(),
            offset + size <= usize::MAX,
        ensures
            match no_content(fs@, self.ino) {
                Some(e) => r matches Err(x) && x@ == e,
                None => r matches Ok(v) && v@ == data_read(
                    fs@.inodes[self.ino].data->0,
                    offset as int,
                    size as int,
                ),
            },
            (match r {
                Ok(v) => Ok(v@),
                Err(e) => Err(e@),
            }) == content_read(fs@, self.ino, offset as int, size as int),
    {
        match fs.inodes.get(&self.ino) {
            Some(node) => match &node.data {
                Some(d) => {
                    let start: usize = if offset as usize > d.len() {
                        d.len()
                    } else {
                        offset as usize
                    };
                    let end: usize = if d.len() - start < size {
                        d.len()
                    } else {
                        start + size
                    };
                    let out = vstd::slice::slice_to_vec(
                        vstd::slice::slice_subrange(d.as_slice(), start, end),
                    );
                    assert(out@ =~= data_read(d@, offset as int, size as int));
                    Ok(out)
                },
                None => Err(VfsError::InvalidArgument(copy_text("not a file"))),
            },
            None => Err(VfsError::NotFound),
        }
    }

    /// Writes `data` at `offset` when the time is `now`.
    pub fn write_at(&self, fs: &mut MemFs, offset: u64, data: &[u8], now: Timestamp) -> (r:
        VfsResult<u32>)
        requires
            old(fs).wf(),
            offset + data@.len() <= isize::MAX,
        ensures
            final(fs).wf(),
            match no_content(old(fs)@, self.ino) {
                Some(e) => r matches Err(x) && x@ == e && final(fs)@ == old(fs)@,
                None => r == Ok::<u32, VfsError>(data@.len() as u32) && final(fs)@ == with_node(
                    old(fs)@,
                    self.ino,
                    node_written(
                        old(fs)@.inodes[self.ino],
                        old(fs)@.inodes[self.ino].data->0,
                        offset as int,
                        data@,
                        now,
                    ),
                ),
            },
            (final(fs)@, outcome(r)) == content_written(
                old(fs)@,
                self.ino,
                offset as int,
                data@,
                now,
            ),
    {
        let ghost t = fs@;
        match fs.inodes.get(&self.ino) {
            Some(node) => {
                if node.data.is_none() {
                    return Err(VfsError::InvalidArgument(copy_text("not a file")));
                }
            },
            None => {
                return Err(VfsError::NotFound);
            },
        }
        match fs.inodes.take(&self.ino) {
            Some(node) => {
                let mut new = node;
                let ghost d = t.inodes[self.ino].data->0;
                let mut len: usize = 0;
                new.data = match new.data {
                    Some(buf) => {
                        let after = overwrite(buf, offset as usize, data);
                        len = after.len();
                        Some(after)
                    },
                    None => None,
                };
                new.attr.size = len as u64;
                new.attr.blocks = block_count(len as u64);
                new.attr.mtime = now;
                new.attr.ctime = now;
                proof {
                    assert(new.row() == node_written(
                        t.inodes[self.ino],
                        d,
                        offset as int,
                        data@,
                        now,
                    ));
                    law_content_change_keeps_tree(t, self.ino, new.row());
                }
                fs.inodes.put(self.ino, new);
                assert(fs@.inodes =~= t.inodes.insert(self.ino, new.row()));
                Ok(data.len() as u32)
            },
            None => Err(VfsError::NotFound),
        }
    }

    /// Writes `data` at `offset`.
    pub fn write(&self, fs: &mut MemFs, offset: u64, data: &[u8]) -> (r: VfsResult<u32>)
        requires
            old(fs).wf(),
            offset + data@.len() <= isize::MAX,
        ensures
            final(fs).wf(),
            match no_content(old(fs)@, self.ino) {
                Some(e) => r matches Err(x) && x@ == e && final(fs)@ == old(fs)@,
                None => r == Ok::<u32, VfsError>(data@.len() as u32) && exists|now: Timestamp|
                    final(fs)@ == with_node(
                        old(fs)@,
                        self.ino,
                        #[trigger] node_written(
                            old(fs)@.inodes[self.ino],
                            old(fs)@.inodes[self.ino].data->0,
                            offset as int,
                            data@,
                            now,
                        ),
                    ),
            },
    {
        let now = Timestamp::now();
        self.write_at(fs, offset, data, now)
    }

    /// Cuts or extends the file to `size` bytes.
    pub fn truncate(&self, fs: &mut MemFs, size: u64) -> (r: VfsResult<()>)
        requires
            old(fs).wf(),
            size <= isize::MAX,
        ensures
            final(fs).wf(),
            match no_content(old(fs)@, self.ino) {
                Some(e) => r matches Err(x) && x@ == e && final(fs)@ == old(fs)@,
                None => r is Ok && final(fs)@ == with_node(
                    old(fs)@,
                    self.ino,
                    node_truncated(
                        old(fs)@.inodes[self.ino],
                        old(fs)@.inodes[self.ino].data->0,
                        size,
                    ),
                ),
            },
            (final(fs)@, outcome(r)) == content_cut(old(fs)@, self.ino, size),
    {
        let ghost t = fs@;
        match fs.inodes.get(&self.ino) {
            Some(node) => {
                if node.data.is_none() {
                    return Err(VfsError::InvalidArgument(copy_text("not a file")));
                }
            },
            None => {
                return Err(VfsError::NotFound);
            },
        }
        match fs.inodes.take(&self.ino) {
            Some(node) => {
                let mut new = node;
                new.data = match new.data {
                    Some(buf) => Some(resize_data(buf, size as usize)),
                    None => None,
                };
                new.attr.size = size;
                new.attr.blocks = block_count(size);
                proof {
                    assert(new.row() == node_truncated(
                        t.inodes[self.ino],
                        t.inodes[self.ino].data->0,
                        size,
                    ));
                    law_content_change_keeps_tree(t, self.ino, new.row());
                }
                fs.inodes.put(self.ino, new);
                assert(fs@.inodes =~= t.inodes.insert(self.ino, new.row()));
                Ok(())
            },
            None => Err(VfsError::NotFound),
        }
    }

    pub fn flush(&self) -> (r: VfsResult<()>)
        ensures
            r is Ok,
    {
        Ok(())
    }

    pub fn fsync(&self) -> (r: VfsResult<()>)
        ensures
            r is Ok,
    {
        Ok(())
    }

    pub fn getattr(&self, fs: &MemFs) -> (r: VfsResult<FileAttr>)
        requires
            fs.wf(),
        ensures
            match node_attr(fs@, self.ino) {
                Some(a) => r == Ok::<FileAttr, VfsError>(a),
                None => r matches Err(e) && e == VfsError::NotFound,
            },
    {
        match fs.inodes.get(&self.ino) {
            Some(node) => Ok(node.attr),
            None => Err(VfsError::NotFound),
        }
    }
}

/// Content with `data` written over it.
fn overwrite(d: Vec<u8>, offset: usize, data: &[u8]) -> (r: Vec<u8>)
    requires
        offset + data@.len() <= isize::MAX,
    ensures
        r@ == data_written(d@, offset as int, data@),
{
    let ghost before = d@;
    let end: usize = offset + data.len();
    let len: usize = if end > d.len() {
        end
    } else {
        d.len()
    };
    let mut out = resize_data(d, len);
    let mut i: usize = 0;
    while i < data.len()
        invariant
            i <= data@.len(),
            end == offset + data@.len(),
            end <= len,
            out@.len() == len,
            forall|j: int|
                0 <= j < len ==> #[trigger] out@[j] == (if offset <= j < offset + i {
                    data@[j - offset]
                } else if j < before.len() {
                    before[j]
                } else {
                    0
                }),
        decreases data@.len() - i,
    {
        out[offset + i] = data[i];
        i += 1;
    }
    assert(out@ =~= data_written(before, offset as int, data@));
    out
}

// ── Laws ────────────────────────────────────────────────────────────────────

/// What was written is read back, at any offset.
pub proof fn law_read_gives_back_write(d: Seq<u8>, offset: int, data: Seq<u8>)
    requires
        0 <= offset,
    ensures
        data_read(data_written(d, offset, data), offset, data.len() as int) == data,
{
    assert(data_read(data_written(d, offset, data), offset, data.len() as int) =~= data);
}

/// A name that was made is found: a lookup gives the attributes that its
/// creation gave.
pub proof fn law_created_file_is_found(
    t: Tree,
    parent: u64,
    name: Seq<char>,
    uid: u32,
    gid: u32,
    now: Timestamp,
)
    requires
        tree_ok(t),
        t.next < u64::MAX,
    ensures
        ({
            let (u, r) = file_made(t, parent, name, uid, gid, now);
            r matches Ok(a) ==> looked_up(u, parent, name) == Some(a)
        }),
{
    lemma_default_modes();
    if no_room(t, parent) is None {
        assert(node_ok(t, parent));
        match entry(t, parent, name) {
            Some(ino) => {},
            None => super::tree::lemma_added(t, parent, name, file_node(t.next, uid, gid, now)),
        }
    }
}

/// The root directory is always there.
pub proof fn law_root_stays(t: Tree)
    requires
        tree_ok(t),
    ensures
        node_attr(t, ROOT) matches Some(a) && super::types::type_of_mode(a.mode)
            == super::types::FileType::Directory,
{
}

} // verus!
