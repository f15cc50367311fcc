//! What the cache answers and how its operations change it, over the contents
//! of its tables.

use super::db::ROOT_INO;
use super::rows::{changed, ChangeView, InodeRow, RemoteView, Tables};
use crate::text::{lemma_text_order, lemma_text_order_trans, text_lt};
use crate::vfs::mode::{DEFAULT_DIR_MODE, PREFERRED_BLOCK_SIZE};
use crate::vfs::types::{blocks_for, FileAttr, FilesystemStats, Timestamp};
use vstd::prelude::*;

verus! {

// ── What the queries mean ───────────────────────────────────────────────────

/// The least number with property `p`.
pub open spec fn least(p: spec_fn(u64) -> bool) -> Option<u64> {
    if exists|i: u64| #[trigger] p(i) {
        Some(choose|i: u64| is_least(p, i))
    } else {
        None
    }
}

/// `i` has property `p`, and no smaller number has.
pub open spec fn is_least(p: spec_fn(u64) -> bool, i: u64) -> bool {
    p(i) && forall|j: u64| #[trigger] p(j) ==> i <= j
}

pub proof fn lemma_least(p: spec_fn(u64) -> bool, r: Option<u64>)
    requires
        match r {
            Some(i) => is_least(p, i),
            None => forall|j: u64| !#[trigger] p(j),
        },
    ensures
        least(p) == r,
{
    match r {
        Some(i) => {
            assert(p(i));
            let c = choose|j: u64| is_least(p, j);
            assert(is_least(p, i));
            assert(p(c));
            assert(c <= i && i <= c);
        },
        None => {},
    }
}

/// Where some number has property `p`, one of them is the least.
pub proof fn lemma_least_exists(p: spec_fn(u64) -> bool, i: u64)
    requires
        p(i),
    ensures
        least(p) is Some,
        is_least(p, least(p)->0),
    decreases i,
{
    if exists|j: u64| j < i && #[trigger] p(j) {
        let j = choose|j: u64| j < i && #[trigger] p(j);
        lemma_least_exists(p, j);
    } else {
        assert(is_least(p, i));
        lemma_least(p, Some(i));
    }
}

/// The entries `f(0), f(1), ...` below `hi`, in that order.
pub open spec fn gathered<T>(f: spec_fn(u64) -> Option<T>, hi: int) -> Seq<T>
    decreases hi,
{
    if hi <= 0 {
        Seq::empty()
    } else {
        match f((hi - 1) as u64) {
            Some(x) => gathered(f, hi - 1).push(x),
            None => gathered(f, hi - 1),
        }
    }
}

/// Stretches without entries gather nothing.
pub proof fn lemma_gathered_gap<T>(f: spec_fn(u64) -> Option<T>, lo: int, hi: int)
    requires
        0 <= lo <= hi <= 0x1_0000_0000_0000_0000,
        forall|i: u64| lo <= i < hi ==> #[trigger] f(i) is None,
    ensures
        gathered(f, hi) == gathered(f, lo),
    decreases hi - lo,
{
    if lo < hi {
        assert(f((hi - 1) as u64) is None);
        lemma_gathered_gap(f, lo, hi - 1);
    }
}

/// The number of 64-bit indices.
pub open spec fn all_indices() -> int {
    0x1_0000_0000_0000_0000
}

// ── Inodes ──────────────────────────────────────────────────────────────────

/// The attributes that an inode row stands for.
pub open spec fn attr_of(ino: u64, row: InodeRow) -> FileAttr {
    FileAttr {
        ino,
        mode: row.mode,
        nlink: row.nlink as u32,
        uid: row.uid,
        gid: row.gid,
        size: row.size as u64,
        blocks: blocks_for(row.size as u64),
        atime: row.atime,
        mtime: row.mtime,
        ctime: row.ctime,
        rdev: row.rdev,
        blksize: PREFERRED_BLOCK_SIZE,
    }
}

/// The attributes of inode `ino`.
pub open spec fn attr(t: Tables, ino: u64) -> Option<FileAttr> {
    match t.inodes.get(ino) {
        Some(row) => Some(attr_of(ino, row)),
        None => None,
    }
}

/// A row for an inode that is made at `now`.
pub open spec fn fresh_row(
    mode: u32,
    nlink: i64,
    uid: u32,
    gid: u32,
    size: i64,
    now: Timestamp,
) -> InodeRow {
    InodeRow {
        mode,
        nlink,
        uid,
        gid,
        size,
        atime: now,
        mtime: now,
        ctime: now,
        rdev: 0,
        dirty_since: None,
    }
}

/// `t` with the row of `ino` replaced by `row`, if there is such an inode.
pub open spec fn with_row(t: Tables, ino: u64, row: spec_fn(InodeRow) -> InodeRow) -> Tables {
    match t.inodes.get(ino) {
        Some(r) => changed(t, ChangeView::PutInode(ino, row(r))),
        None => t,
    }
}

/// `t` with the dirty mark of `ino` set.
pub open spec fn with_dirty(t: Tables, ino: u64, since: Option<i64>) -> Tables {
    with_row(t, ino, |r: InodeRow| InodeRow { dirty_since: since, ..r })
}

/// The dirty mark of `ino`.
pub open spec fn dirty_since(t: Tables, ino: u64) -> Option<i64> {
    match t.inodes.get(ino) {
        Some(r) => r.dirty_since,
        None => None,
    }
}

/// `t` with a root directory: the one it has, or a new one made at `now`.
pub open spec fn with_root(t: Tables, now: Timestamp) -> Tables {
    if t.inodes.contains_key(ROOT_INO) {
        t
    } else {
        changed(t, ChangeView::PutInode(ROOT_INO, fresh_row(DEFAULT_DIR_MODE, 2, 0, 0, 0, now)))
    }
}

/// The sum of the sizes of the inodes below `hi`.
pub open spec fn size_sum(inodes: Map<u64, InodeRow>, hi: int) -> int
    decreases hi,
{
    if hi <= 0 {
        0
    } else {
        size_sum(inodes, hi - 1) + match inodes.get((hi - 1) as u64) {
            Some(r) => r.size as int,
            None => 0,
        }
    }
}

/// A new inode adds its size to the sum.
pub proof fn lemma_size_sum_insert(
    inodes: Map<u64, InodeRow>,
    ino: u64,
    row: InodeRow,
    hi: int,
)
    requires
        !inodes.contains_key(ino),
        0 <= hi <= all_indices(),
    ensures
        size_sum(inodes.insert(ino, row), hi) == size_sum(inodes, hi) + (if ino < hi {
            row.size as int
        } else {
            0
        }),
    decreases hi,
{
    if hi > 0 {
        lemma_size_sum_insert(inodes, ino, row, hi - 1);
    }
}

/// An empty table has no size.
pub proof fn lemma_size_sum_empty(hi: int)
    ensures
        size_sum(Map::empty(), hi) == 0,
    decreases hi,
{
    if hi > 0 {
        lemma_size_sum_empty(hi - 1);
    }
}

/// The statistics of the cache: how many inodes there are, and the sum of
/// their sizes, or zero where that sum is no 64-bit signed number.
pub open spec fn stats_of(t: Tables) -> FilesystemStats {
    let sum = size_sum(t.inodes, all_indices());
    FilesystemStats {
        inodes: t.inodes.len() as u64,
        bytes_used: if i64::MIN <= sum <= i64::MAX {
            (sum as i64) as u64
        } else {
            0
        },
    }
}

// ── Directory entries ───────────────────────────────────────────────────────

/// `list` holds the entries of directory `parent`, each name with its inode,
/// in the order of the names.
pub open spec fn lists_children(
    dentries: Map<(u64, Seq<char>), u64>,
    parent: u64,
    list: Seq<(Seq<char>, u64)>,
) -> bool {
    &&& forall|i: int, j: int|
        0 <= i < j < list.len() ==> text_lt((#[trigger] list[i]).0, (#[trigger] list[j]).0)
    &&& forall|i: int|
        0 <= i < list.len() ==> dentries.contains_pair(
            (parent, (#[trigger] list[i]).0),
            list[i].1,
        )
    &&& forall|n: Seq<char>| #[trigger]
        dentries.contains_key((parent, n)) ==> exists|i: int|
            0 <= i < list.len() && (#[trigger] list[i]).0 == n
}

/// Entry `a` comes before entry `b`: by parent, then by name.
pub open spec fn entry_lt(a: (u64, Seq<char>), b: (u64, Seq<char>)) -> bool {
    a.0 < b.0 || (a.0 == b.0 && text_lt(a.1, b.1))
}

/// `d` is the first directory entry that names `ino`.
pub open spec fn is_first_dentry(
    dentries: Map<(u64, Seq<char>), u64>,
    ino: u64,
    d: (u64, Seq<char>),
) -> bool {
    dentries.contains_pair(d, ino) && forall|e: (u64, Seq<char>)| #[trigger]
        dentries.contains_pair(e, ino) ==> e == d || entry_lt(d, e)
}

/// The first directory entry that names `ino`.
pub open spec fn dentry_of(t: Tables, ino: u64) -> Option<(u64, Seq<char>)> {
    if exists|d: (u64, Seq<char>)| t.dentries.contains_pair(d, ino) {
        Some(choose|d: (u64, Seq<char>)| is_first_dentry(t.dentries, ino, d))
    } else {
        None
    }
}

pub proof fn lemma_dentry_of(t: Tables, ino: u64, r: Option<(u64, Seq<char>)>)
    requires
        match r {
            Some(d) => is_first_dentry(t.dentries, ino, d),
            None => forall|d: (u64, Seq<char>)| !#[trigger] t.dentries.contains_pair(d, ino),
        },
    ensures
        dentry_of(t, ino) == r,
{
    match r {
        Some(d) => {
            let c = choose|c: (u64, Seq<char>)| is_first_dentry(t.dentries, ino, c);
            assert(is_first_dentry(t.dentries, ino, c));
            lemma_text_order(c.1, d.1);
            assert(t.dentries.contains_pair(c, ino));
            assert(t.dentries.contains_pair(d, ino));
        },
        None => {},
    }
}

/// Of finitely many entries, one is the first.
proof fn lemma_first_entry(s: Set<(u64, Seq<char>)>) -> (d: (u64, Seq<char>))
    requires
        s.finite(),
        s.len() > 0,
    ensures
        s.contains(d),
        forall|e: (u64, Seq<char>)| #[trigger] s.contains(e) ==> e == d || entry_lt(d, e),
    decreases s.len(),
{
    let a = s.choose();
    let rest = s.remove(a);
    if rest.len() == 0 {
        assert forall|e: (u64, Seq<char>)| #[trigger] s.contains(e) implies e == a by {
            if e != a {
                assert(rest.contains(e));
            }
        }
        a
    } else {
        let b = lemma_first_entry(rest);
        lemma_text_order(a.1, b.1);
        let d = if entry_lt(a, b) {
            a
        } else {
            b
        };
        assert forall|e: (u64, Seq<char>)| #[trigger] s.contains(e) implies e == d || entry_lt(
            d,
            e,
        ) by {
            if e != a {
                assert(rest.contains(e));
                if d == a && e != b && a.0 == b.0 && b.0 == e.0 {
                    lemma_text_order_trans(a.1, b.1, e.1);
                }
            }
        }
        d
    }
}

/// Among finitely many directory entries, the first that names an inode is
/// found.
pub proof fn lemma_dentry_of_is_first(t: Tables, ino: u64)
    requires
        t.dentries.dom().finite(),
    ensures
        match dentry_of(t, ino) {
            Some(d) => is_first_dentry(t.dentries, ino, d),
            None => forall|d: (u64, Seq<char>)| !#[trigger] t.dentries.contains_pair(d, ino),
        },
{
    if exists|d: (u64, Seq<char>)| t.dentries.contains_pair(d, ino) {
        let names = t.dentries.dom().filter(|d: (u64, Seq<char>)| t.dentries[d] == ino);
        t.dentries.dom().lemma_len_filter(|d: (u64, Seq<char>)| t.dentries[d] == ino);
        let some = choose|d: (u64, Seq<char>)| t.dentries.contains_pair(d, ino);
        assert(names.contains(some));
        let d = lemma_first_entry(names);
        assert forall|e: (u64, Seq<char>)| #[trigger] t.dentries.contains_pair(e, ino) implies e
            == d || entry_lt(d, e) by {
            assert(names.contains(e));
        }
        lemma_dentry_of(t, ino, Some(d));
    }
}

// ── Remote documents ────────────────────────────────────────────────────────

/// The remote state of an inode of which only the path is known.
pub open spec fn fresh_remote(path: Seq<char>) -> RemoteView {
    RemoteView {
        remote_path: path,
        remote_id: None,
        content_hash: None,
        mirrored_updated_at: None,
        last_status: None,
        last_status_at: None,
    }
}

/// The brain path of `ino`.
pub open spec fn remote_path(t: Tables, ino: u64) -> Option<Seq<char>> {
    match t.remotes.get(ino) {
        Some(r) => Some(r.remote_path),
        None => None,
    }
}

/// `t` with the remote state of `ino` replaced, if it has one.
pub open spec fn with_remote(
    t: Tables,
    ino: u64,
    row: spec_fn(RemoteView) -> RemoteView,
) -> Tables {
    match t.remotes.get(ino) {
        Some(r) => changed(t, ChangeView::PutRemote(ino, row(r))),
        None => t,
    }
}

/// The first of two optional values that is there.
pub open spec fn or_else<T>(a: Option<T>, b: Option<T>) -> Option<T> {
    match a {
        Some(x) => Some(x),
        None => b,
    }
}

/// `t` with the mirrored state of `ino` updated where a value is given.
pub open spec fn with_mirrored(
    t: Tables,
    ino: u64,
    mirrored_updated_at: Option<i64>,
    last_status: Option<Seq<char>>,
    last_status_at: Option<i64>,
) -> Tables {
    with_remote(
        t,
        ino,
        |r: RemoteView|
            RemoteView {
                mirrored_updated_at: or_else(mirrored_updated_at, r.mirrored_updated_at),
                last_status: or_else(last_status, r.last_status),
                last_status_at: or_else(last_status_at, r.last_status_at),
                ..r
            },
    )
}

/// `t` with the document id of `ino` set.
pub open spec fn with_remote_id(t: Tables, ino: u64, id: Seq<char>) -> Tables {
    with_remote(t, ino, |r: RemoteView| RemoteView { remote_id: Some(id), ..r })
}

/// `t` with the content hash of `ino` set.
pub open spec fn with_content_hash(t: Tables, ino: u64, hash: Option<Seq<char>>) -> Tables {
    with_remote(t, ino, |r: RemoteView| RemoteView { content_hash: hash, ..r })
}

/// The least inode with the brain path `path`.
pub open spec fn ino_by_remote_path(t: Tables, path: Seq<char>) -> Option<u64> {
    least(|ino: u64| remote_path(t, ino) == Some(path))
}

/// The document id of `ino`.
pub open spec fn remote_id(t: Tables, ino: u64) -> Option<Seq<char>> {
    match t.remotes.get(ino) {
        Some(r) => r.remote_id,
        None => None,
    }
}

/// The content hash of `ino`.
pub open spec fn remote_hash(t: Tables, ino: u64) -> Option<Seq<char>> {
    match t.remotes.get(ino) {
        Some(r) => r.content_hash,
        None => None,
    }
}

/// The least inode with the document id `id`.
pub open spec fn ino_for_remote_id(t: Tables, id: Seq<char>) -> Option<u64> {
    least(|ino: u64| remote_id(t, ino) == Some(id))
}

/// Every known document id, in the order of the inodes.
pub open spec fn all_remote_ids(t: Tables) -> Seq<Seq<char>> {
    gathered(|ino: u64| remote_id(t, ino), all_indices())
}

// ── Content ─────────────────────────────────────────────────────────────────

/// The byte at position `p` of the file `ino`; what was never written is zero.
pub open spec fn byte_at(chunks: Map<(u64, u64), Seq<u8>>, ino: u64, p: int) -> u8 {
    match chunks.get((ino, (p / 4096) as u64)) {
        Some(d) => if p % 4096 < d.len() {
            d[p % 4096]
        } else {
            0
        },
        None => 0,
    }
}

/// The bytes `from .. to` of the file `ino`.
pub open spec fn file_bytes(
    chunks: Map<(u64, u64), Seq<u8>>,
    ino: u64,
    from: int,
    to: int,
) -> Seq<u8> {
    Seq::new((to - from) as nat, |i: int| byte_at(chunks, ino, from + i))
}

/// The first `n` elements of `s`, or all of it where it is shorter.
pub open spec fn at_most(s: Seq<u8>, n: int) -> Seq<u8> {
    if n < s.len() {
        s.take(n)
    } else {
        s
    }
}

/// The whole content of `ino`: as many bytes as its size says.
pub open spec fn content(t: Tables, ino: u64) -> Seq<u8> {
    match t.inodes.get(ino) {
        Some(row) => if row.size <= 0 {
            Seq::empty()
        } else {
            file_bytes(t.chunks, ino, 0, row.size as int)
        },
        None => Seq::empty(),
    }
}

} // verus!
