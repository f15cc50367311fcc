//! What every operation of the cached filesystem keeps of the contents: the chunks
//! of every file fit it.

use super::file::{fits, law_truncate_resizes, law_write_stores_data, truncated, written};
use super::fs::{
    attrs_set, components, content_stored, deletion_applied, dir_made, dir_removed, dirs_made,
    doc_file, doc_parent, doc_upserted, entry_made, file_made, linked, looked_up, path_dirs_made,
    renamed, row_with_attrs, symlink_made, unlinked, FsState,
};
use super::handle::{mount_written, push_requested};
use super::laws::{lemma_content_stored, lemma_dirs_made, lemma_doc_parent};
use super::model::{fresh_row, with_root, with_row};
use super::rows::{InodeRow, Tables};
use super::sound::{given_out, sound};
use crate::text::pieces;
use crate::vfs::mode::{DEFAULT_DIR_MODE, DEFAULT_FILE_MODE, DEFAULT_SYMLINK_MODE};
use crate::vfs::types::{SetAttr, Timestamp};
use vstd::prelude::*;
use vstd::utf8::encode_utf8;

verus! {

/// No size is negative, and every chunk belongs to a file, is not longer than a
/// chunk can be and does not reach beyond the end of the file.
pub open spec fn all_fit(t: Tables) -> bool {
    &&& forall|ino: u64| #[trigger] t.inodes.contains_key(ino) ==> t.inodes[ino].size >= 0
    &&& forall|k: (u64, u64)| #[trigger]
        t.chunks.contains_key(k) ==> t.inodes.contains_key(k.0) && t.chunks[k].len() <= 4096
            && k.1 * 4096 + t.chunks[k].len() <= t.inodes[k.0].size
}

/// Where all files fit, each does.
pub proof fn law_each_file_fits(t: Tables, ino: u64)
    requires
        all_fit(t),
        t.inodes.contains_key(ino),
    ensures
        fits(t, ino),
{
}

/// A store without files fits, with or without its root.
pub proof fn law_empty_store_fits(t: Tables, now: Timestamp)
    requires
        t.inodes == Map::<u64, InodeRow>::empty(),
        t.chunks == Map::<(u64, u64), Seq<u8>>::empty(),
    ensures
        all_fit(t),
        all_fit(with_root(t, now)),
{
}

/// Every chunk of `b` is one of `a`, and its file is there and as large.
pub open spec fn keeps_sizes(a: Tables, b: Tables) -> bool {
    &&& forall|ino: u64| #[trigger] b.inodes.contains_key(ino) ==> b.inodes[ino].size >= 0
    &&& forall|k: (u64, u64)| #[trigger]
        b.chunks.contains_key(k) ==> a.chunks.contains_pair(k, b.chunks[k])
            && b.inodes.contains_key(k.0) && b.inodes[k.0].size == a.inodes[k.0].size
}

proof fn lemma_keeps_sizes(a: Tables, b: Tables)
    requires
        all_fit(a),
        keeps_sizes(a, b),
    ensures
        all_fit(b),
{
    assert forall|k: (u64, u64)| #[trigger] b.chunks.contains_key(k) implies b.inodes.contains_key(
        k.0,
    ) && b.chunks[k].len() <= 4096 && k.1 * 4096 + b.chunks[k].len() <= b.inodes[k.0].size by {
        assert(a.chunks.contains_key(k));
    }
}

/// All files but `ino` are as they were, and `ino` fits.
proof fn lemma_one_file(a: Tables, b: Tables, ino: u64)
    requires
        all_fit(a),
        fits(b, ino),
        forall|o: u64|
            o != ino ==> #[trigger] b.inodes.contains_key(o) == a.inodes.contains_key(o) && (
            b.inodes.contains_key(o) ==> b.inodes[o].size == a.inodes[o].size),
        forall|k: (u64, u64)|
            k.0 != ino && #[trigger] b.chunks.contains_key(k) ==> a.chunks.contains_pair(
                k,
                b.chunks[k],
            ),
    ensures
        all_fit(b),
{
    assert forall|o: u64| #[trigger] b.inodes.contains_key(o) implies b.inodes[o].size >= 0 by {
        if o != ino {
            assert(a.inodes.contains_key(o));
        }
    }
    assert forall|k: (u64, u64)| #[trigger] b.chunks.contains_key(k) implies b.inodes.contains_key(
        k.0,
    ) && b.chunks[k].len() <= 4096 && k.1 * 4096 + b.chunks[k].len() <= b.inodes[k.0].size by {
        if k.0 != ino {
            assert(a.chunks.contains_key(k));
            assert(a.inodes.contains_key(k.0));
            assert(b.inodes.contains_key(k.0));
        } else {
            assert(b.chunks.contains_key((ino, k.1)));
        }
    }
}

/// A write through the mount keeps all files fitting.
pub proof fn law_writing_keeps_files_fitting(
    t: Tables,
    ino: u64,
    offset: int,
    data: Seq<u8>,
    now: Timestamp,
    ms: i64,
)
    requires
        all_fit(t),
        t.inodes.contains_key(ino),
        0 <= offset,
        offset + data.len() <= i64::MAX,
    ensures
        all_fit(written(t, ino, offset, data, now, ms)),
        all_fit(mount_written(t, ino, offset, data, now, ms)),
{
    law_write_stores_data(t, ino, offset, data, now, ms);
    let t1 = written(t, ino, offset, data, now, ms);
    lemma_one_file(t, t1, ino);
    lemma_keeps_sizes(t1, push_requested(t1, ino, ms));
}

/// Cutting or extending a file keeps all files fitting.
pub proof fn law_truncating_keeps_files_fitting(t: Tables, ino: u64, size: u64)
    requires
        all_fit(t),
        size <= i64::MAX,
    ensures
        all_fit(truncated(t, ino, size)),
{
    let t1 = truncated(t, ino, size);
    if t.inodes.contains_key(ino) {
        law_truncate_resizes(t, ino, size);
        lemma_one_file(t, t1, ino);
    } else {
        assert forall|i: u64| !#[trigger] t.chunks.contains_key((ino, i)) by {}
        lemma_keeps_sizes(t, t1);
    }
}

/// An attribute update keeps all files fitting.
pub proof fn law_setattr_keeps_files_fitting(t: Tables, ino: u64, a: SetAttr, now: Timestamp)
    requires
        all_fit(t),
        a.size matches Some(size) ==> size <= i64::MAX,
    ensures
        all_fit(attrs_set(t, ino, a, now).0),
{
    let t1 = attrs_set(t, ino, SetAttr { size: None, ..a }, now).0;
    lemma_keeps_sizes(t, t1);
    match a.size {
        Some(size) => {
            let t2 = with_row(
                t,
                ino,
                |r: InodeRow| row_with_attrs(r, a, now),
            );
            lemma_keeps_sizes(t, t2);
            law_truncating_keeps_files_fitting(t2, ino, size);
        },
        None => {
            assert(SetAttr { size: None, ..a } == a);
        },
    }
}

/// A new inode has no chunks.
proof fn lemma_entry_fits(s: FsState, parent: u64, name: Seq<char>, row: InodeRow)
    requires
        sound(s.t),
        all_fit(s.t),
        row.size >= 0,
    ensures
        all_fit(entry_made(s, parent, name, row).0.t),
{
    assert(s.t.inodes.contains_key(s.t.next_ino) ==> given_out(s.t, s.t.next_ino));
    let t = entry_made(s, parent, name, row).0.t;
    assert forall|k: (u64, u64)| #[trigger] t.chunks.contains_key(k) implies s.t.chunks.contains_pair(
        k,
        t.chunks[k],
    ) && t.inodes.contains_key(k.0) && t.inodes[k.0].size == s.t.inodes[k.0].size by {
        assert(s.t.inodes.contains_key(k.0));
    }
    lemma_keeps_sizes(s.t, t);
}

/// Making a directory, a file or a symbolic link keeps all files fitting.
pub proof fn law_making_keeps_files_fitting(
    s: FsState,
    parent: u64,
    name: Seq<char>,
    target: Seq<char>,
    uid: u32,
    gid: u32,
    now: Timestamp,
)
    requires
        sound(s.t),
        all_fit(s.t),
        encode_utf8(target).len() <= i64::MAX,
    ensures
        all_fit(dir_made(s, parent, name, uid, gid, now).0.t),
        all_fit(file_made(s, parent, name, uid, gid, now).0.t),
        all_fit(symlink_made(s, parent, name, target, uid, gid, now).0.t),
{
    let s1 = looked_up(s, parent, name).0;
    lemma_entry_fits(s1, parent, name, fresh_row(DEFAULT_DIR_MODE, 2, uid, gid, 0, now));
    lemma_entry_fits(s1, parent, name, fresh_row(DEFAULT_FILE_MODE, 1, uid, gid, 0, now));
    let row = fresh_row(
        DEFAULT_SYMLINK_MODE,
        1,
        uid,
        gid,
        encode_utf8(target).len() as i64,
        now,
    );
    lemma_entry_fits(s1, parent, name, row);
    lemma_keeps_sizes(
        entry_made(s1, parent, name, row).0.t,
        symlink_made(s, parent, name, target, uid, gid, now).0.t,
    );
}

/// Taking names away keeps all files fitting.
pub proof fn law_removing_keeps_files_fitting(s: FsState, parent: u64, name: Seq<char>, ms: i64)
    requires
        all_fit(s.t),
    ensures
        all_fit(unlinked(s, parent, name, ms).0.t),
        all_fit(dir_removed(s, parent, name).0.t),
{
    lemma_keeps_sizes(s.t, unlinked(s, parent, name, ms).0.t);
    lemma_keeps_sizes(s.t, dir_removed(s, parent, name).0.t);
}

/// Applying a deletion keeps all files fitting.
pub proof fn law_deletion_keeps_files_fitting(s: FsState, id: Seq<char>)
    requires
        all_fit(s.t),
    ensures
        all_fit(deletion_applied(s, id).0.t),
{
    lemma_keeps_sizes(s.t, deletion_applied(s, id).0.t);
}

/// Further names and new names keep all files fitting.
pub proof fn law_renaming_keeps_files_fitting(
    s: FsState,
    ino: u64,
    old_parent: u64,
    old_name: Seq<char>,
    new_parent: u64,
    new_name: Seq<char>,
    ms: i64,
)
    requires
        all_fit(s.t),
    ensures
        all_fit(linked(s, ino, new_parent, new_name).0.t),
        all_fit(renamed(s, old_parent, old_name, new_parent, new_name, ms).0.t),
{
    lemma_keeps_sizes(s.t, linked(s, ino, new_parent, new_name).0.t);
    lemma_keeps_sizes(s.t, renamed(s, old_parent, old_name, new_parent, new_name, ms).0.t);
}

proof fn lemma_dirs_fit(s: FsState, parts: Seq<Seq<char>>, uid: u32, gid: u32, now: Timestamp)
    requires
        sound(s.t),
        all_fit(s.t),
    ensures
        all_fit(dirs_made(s, parts, uid, gid, now).0.t),
    decreases parts.len(),
{
    if parts.len() > 0 {
        let front = parts.drop_last();
        lemma_dirs_fit(s, front, uid, gid, now);
        lemma_dirs_made(s, front, uid, gid, now);
        let (s1, r1) = dirs_made(s, front, uid, gid, now);
        if r1 is Ok {
            lemma_entry_fits(
                looked_up(s1, r1->Ok_0, parts.last()).0,
                r1->Ok_0,
                parts.last(),
                fresh_row(DEFAULT_DIR_MODE, 2, uid, gid, 0, now),
            );
        }
    }
}

/// Upserting a document keeps all files fitting.
pub proof fn law_upsert_keeps_files_fitting(
    s: FsState,
    path: Seq<char>,
    content: Seq<u8>,
    uid: u32,
    gid: u32,
    now: Timestamp,
)
    requires
        sound(s.t),
        all_fit(s.t),
        content.len() <= i64::MAX,
    ensures
        all_fit(doc_upserted(s, path, content, uid, gid, now).0.t),
{
    let dirs = components(path).drop_last();
    let name = pieces(path, '/').last();
    lemma_dirs_made(s, dirs, uid, gid, now);
    lemma_dirs_fit(s, dirs, uid, gid, now);
    let (s1, r1) = path_dirs_made(s, path, uid, gid, now);
    if r1 is Ok {
        lemma_doc_parent(s1, path);
        let (s2, parent) = doc_parent(s1, path);
        let (s3, found) = looked_up(s2, parent, name);
        lemma_entry_fits(s3, parent, name, fresh_row(DEFAULT_FILE_MODE, 1, uid, gid, 0, now));
        let (s4, r4) = doc_file(s1, path, uid, gid, now);
        assert(all_fit(s4.t));
        if r4 is Ok {
            let ino = r4->Ok_0;
            if found is Some {
                assert(s1.t.dentries.contains_key((parent, name)));
            }
            lemma_content_stored(s4.t, ino, content, now);
            lemma_one_file(s4.t, content_stored(s4.t, ino, content, now), ino);
        }
    }
}

} // verus!
