//! The filesystem that fronts the Unison brain.
//!
//! `UnisonFs` keeps the brain's virtual tree in the local cache, routes writes
//! to the push queue for background sync, and exposes the brain namespace as a
//! real directory tree.

use super::db::{named_inos, Db, DENTRY_CACHE_MAX, ROOT_INO};
use super::dentry_cache::{
    cache_entries, cache_get, cache_limit, cache_pop, cache_put, cached_ino, lemma_cached,
    lemma_used, lemma_without_key, new_cache, used, without_key, Lookup,
};
use super::file::{min_of, truncated, DbFile};
use super::hydration::HydrationScheduler;
use super::model::{
    attr, dentry_of, dirty_since, fresh_remote, fresh_row, ino_by_remote_path, ino_for_remote_id,
    lists_children, remote_path, stats_of, with_dirty, with_row,
};
use super::profile::{profile_attr_of, profile_text, ProfileFile, PROFILE_INO, PROFILE_NAME};
use super::queue::{enqueued, PushOp};
use super::rows::{changed, ChangeView, InodeRow, Tables, MAX_INO};
use crate::api::dto::{BrainDocument, ProfileResp};
use crate::api::error::{api_error_text, ApiError};
use crate::clock::now_ms;
use crate::sync::iso::{iso_ms, parse_iso8601_ms};
use crate::text::{
    copy_text, drop_front, is_char, lemma_pieces_nonempty, opt_view, pieces, same_text, split_on,
    texts, trim_start_char,
};
use crate::vfs::error::{outcome, DbError, IoError, VfsError, VfsErrorView, VfsResult};
use crate::vfs::mode::{
    with_permissions, DEFAULT_DIR_MODE, DEFAULT_FILE_MODE, DEFAULT_SYMLINK_MODE, MAX_NAME_LEN,
    S_IFMT,
};
use crate::vfs::types::{
    entries_view, requested_time, type_of_mode, DirEntry, FileAttr, FileType, FilesystemStats,
    SetAttr, Timestamp,
};
use lru::LruCache;
use vstd::prelude::*;
use vstd::string::*;
use vstd::utf8::encode_utf8;

verus! {

broadcast use vstd::string::group_string_axioms;

/// The filesystem that fronts the Unison brain.
pub struct UnisonFs {
    db: Db,
    /// Virtual `profile.md`; there is none in offline mode.
    profile_file: Option<ProfileFile>,
    dentry_cache: LruCache<(u64, String), u64>,
    hydration: HydrationScheduler,
    /// Owning UID/GID for inodes that sync makes.
    uid: u32,
    gid: u32,
}

/// What a lookup or a change works on: the tables and the cached lookups.
pub struct FsState {
    pub t: Tables,
    pub cache: Seq<Lookup>,
}

// ── What the operations do ──────────────────────────────────────────────────

/// Every cached lookup is a directory entry.
pub open spec fn all_are_entries(
    cache: Seq<Lookup>,
    dentries: Map<(u64, Seq<char>), u64>,
) -> bool {
    forall|i: int|
        0 <= i < cache.len() ==> dentries.contains_pair((#[trigger] cache[i]).0, cache[i].1)
}

/// Cached lookups say what the tables say.
pub open spec fn coherent(s: FsState) -> bool {
    all_are_entries(s.cache, s.t.dentries)
}

/// Looks up `name` in `parent`. A lookup that succeeds is cached.
pub open spec fn looked_up(s: FsState, parent: u64, name: Seq<char>) -> (FsState, Option<u64>) {
    let k = (parent, name);
    match s.t.dentries.get(k) {
        Some(ino) => (
            FsState { cache: used(s.cache, DENTRY_CACHE_MAX as nat, k, ino), ..s },
            Some(ino),
        ),
        None => (s, None),
    }
}

/// `name` is taken out of `parent`, and its lookup out of the cached ones.
pub open spec fn name_dropped(s: FsState, parent: u64, name: Seq<char>) -> FsState {
    FsState {
        t: changed(s.t, ChangeView::DropDentry(parent, name)),
        cache: without_key(s.cache, (parent, name)),
    }
}

/// `ino` is a directory.
pub open spec fn is_dir(t: Tables, ino: u64) -> bool {
    t.inodes.contains_key(ino) && type_of_mode(t.inodes[ino].mode) == FileType::Directory
}

/// A new inode with row `row`, or a failure when the numbers are used up.
pub open spec fn inode_made(t: Tables, row: InodeRow) -> (Tables, Result<u64, VfsErrorView>) {
    if t.next_ino <= MAX_INO {
        (changed(t, ChangeView::PutInode(t.next_ino, row)), Ok(t.next_ino))
    } else {
        (t, Err(VfsErrorView::Database(DbError::Full)))
    }
}

/// A new inode with row `row` under `name` in `parent`.
pub open spec fn entry_made(
    s: FsState,
    parent: u64,
    name: Seq<char>,
    row: InodeRow,
) -> (FsState, Result<u64, VfsErrorView>) {
    let (t, r) = inode_made(s.t, row);
    match r {
        Ok(ino) => (
            FsState { t: changed(t, ChangeView::PutDentry(parent, name, ino)), ..s },
            Ok(ino),
        ),
        Err(e) => (s, Err(e)),
    }
}

/// Walks the directories `parts` from the root and makes those that are
/// missing. Empty parts are skipped. Gives the last directory.
pub open spec fn dirs_made(
    s: FsState,
    parts: Seq<Seq<char>>,
    uid: u32,
    gid: u32,
    now: Timestamp,
) -> (FsState, Result<u64, VfsErrorView>)
    decreases parts.len(),
{
    if parts.len() == 0 {
        (s, Ok(ROOT_INO))
    } else {
        let (s1, r1) = dirs_made(s, parts.drop_last(), uid, gid, now);
        match r1 {
            Err(e) => (s1, Err(e)),
            Ok(parent) => if parts.last().len() == 0 {
                (s1, Ok(parent))
            } else {
                let (s2, found) = looked_up(s1, parent, parts.last());
                match found {
                    Some(ino) => (s2, Ok(ino)),
                    None => entry_made(
                        s2,
                        parent,
                        parts.last(),
                        fresh_row(DEFAULT_DIR_MODE, 2, uid, gid, 0, now),
                    ),
                }
            },
        }
    }
}

/// The components of a brain path, without its leading slashes.
pub open spec fn components(path: Seq<char>) -> Seq<Seq<char>> {
    pieces(drop_front(path, is_char('/')), '/')
}

/// Makes the directories that lead to a brain path.
pub open spec fn path_dirs_made(
    s: FsState,
    path: Seq<char>,
    uid: u32,
    gid: u32,
    now: Timestamp,
) -> (FsState, Result<u64, VfsErrorView>) {
    dirs_made(s, components(path).drop_last(), uid, gid, now)
}

/// Walks the directories `parts` from the root. Empty parts are skipped.
pub open spec fn walked(s: FsState, parts: Seq<Seq<char>>) -> (FsState, Option<u64>)
    decreases parts.len(),
{
    if parts.len() == 0 {
        (s, Some(ROOT_INO))
    } else {
        let (s1, r1) = walked(s, parts.drop_last());
        match r1 {
            None => (s1, None),
            Some(ino) => if parts.last().len() == 0 {
                (s1, Some(ino))
            } else {
                looked_up(s1, ino, parts.last())
            },
        }
    }
}

/// Where a path leads, told by the directory entries alone. Empty parts are
/// skipped.
pub open spec fn leads_to(dentries: Map<(u64, Seq<char>), u64>, parts: Seq<Seq<char>>) -> Option<u64>
    decreases parts.len(),
{
    if parts.len() == 0 {
        Some(ROOT_INO)
    } else {
        match leads_to(dentries, parts.drop_last()) {
            None => None,
            Some(ino) => if parts.last().len() == 0 {
                Some(ino)
            } else {
                dentries.get((ino, parts.last()))
            },
        }
    }
}

/// The file that the document at `path` is stored in, where there is one.
pub open spec fn doc_at(t: Tables, path: Seq<char>) -> Option<u64> {
    match leads_to(t.dentries, components(path).drop_last()) {
        Some(dir) => t.dentries.get((dir, components(path).last())),
        None => None,
    }
}

/// A local edit is kept: it is no older than the remote change, or the age of
/// the change cannot be read.
pub open spec fn keeps_local_edit(t: Tables, ino: u64, updated_at: Seq<char>) -> bool {
    match dirty_since(t, ino) {
        Some(since) => match iso_ms(updated_at) {
            Some(ms) => since >= ms,
            None => true,
        },
        None => false,
    }
}

/// A local edit of the document at `path` is kept, be it of the file that is on
/// record for it or of the one that it is stored in.
pub open spec fn edit_kept(t: Tables, path: Seq<char>, updated_at: Seq<char>) -> bool {
    ||| match ino_by_remote_path(t, path) {
        Some(ino) => keeps_local_edit(t, ino, updated_at),
        None => false,
    }
    ||| match doc_at(t, path) {
        Some(ino) => keeps_local_edit(t, ino, updated_at),
        None => false,
    }
}

/// A local edit of the document `id` is kept.
pub open spec fn edit_kept_of_id(t: Tables, id: Seq<char>, updated_at: Seq<char>) -> bool {
    match ino_for_remote_id(t, id) {
        Some(ino) => keeps_local_edit(t, ino, updated_at),
        None => false,
    }
}

/// `chunks` with those of `ino` replaced by the chunks of `content`.
pub open spec fn chunks_stored(
    chunks: Map<(u64, u64), Seq<u8>>,
    ino: u64,
    content: Seq<u8>,
    upto: int,
) -> Map<(u64, u64), Seq<u8>> {
    Map::new(
        |k: (u64, u64)|
            if k.0 == ino {
                k.1 < upto && k.1 * 4096 < content.len()
            } else {
                chunks.contains_key(k)
            },
        |k: (u64, u64)|
            if k.0 == ino {
                content.subrange(k.1 * 4096, min_of((k.1 + 1) * 4096, content.len() as int))
            } else {
                chunks[k]
            },
    )
}

/// The tables after the content of `ino` was replaced.
pub open spec fn content_stored(t: Tables, ino: u64, content: Seq<u8>, now: Timestamp) -> Tables {
    with_row(
        Tables { chunks: chunks_stored(t.chunks, ino, content, content.len() as int), ..t },
        ino,
        |r: InodeRow|
            InodeRow { size: content.len() as i64, mtime: now, ctime: now, ..r },
    )
}

/// The directory part of a brain path: everything before its last slash.
pub open spec fn parent_part(path: Seq<char>) -> Seq<char> {
    crate::text::joined(pieces(path, '/').drop_last(), seq!['/'])
}

/// Where the document at `path` goes: the directory that its path leads to, or
/// the root where that cannot be found.
pub open spec fn doc_parent(s: FsState, path: Seq<char>) -> (FsState, u64) {
    let parent = parent_part(path);
    if parent.len() == 0 {
        (s, ROOT_INO)
    } else {
        let (s1, found) = walked(s, components(parent));
        (
            s1,
            match found {
                Some(ino) => ino,
                None => ROOT_INO,
            },
        )
    }
}

/// The file for the document at `path`, made where there is none.
pub open spec fn doc_file(
    s: FsState,
    path: Seq<char>,
    uid: u32,
    gid: u32,
    now: Timestamp,
) -> (FsState, Result<u64, VfsErrorView>) {
    let name = pieces(path, '/').last();
    let (s1, parent) = doc_parent(s, path);
    let (s2, found) = looked_up(s1, parent, name);
    match found {
        Some(ino) => (s2, Ok(ino)),
        None => {
            let (s3, r) = entry_made(
                s2,
                parent,
                name,
                fresh_row(DEFAULT_FILE_MODE, 1, uid, gid, 0, now),
            );
            match r {
                Ok(ino) => (
                    FsState {
                        t: changed(s3.t, ChangeView::PutRemote(ino, fresh_remote(path))),
                        ..s3
                    },
                    Ok(ino),
                ),
                Err(e) => (s3, Err(e)),
            }
        },
    }
}

/// Creates or updates the document at `path`.
pub open spec fn doc_upserted(
    s: FsState,
    path: Seq<char>,
    content: Seq<u8>,
    uid: u32,
    gid: u32,
    now: Timestamp,
) -> (FsState, Result<u64, VfsErrorView>) {
    let (s1, dirs) = path_dirs_made(s, path, uid, gid, now);
    match dirs {
        Err(e) => (s1, Err(e)),
        Ok(_) => {
            let (s2, file) = doc_file(s1, path, uid, gid, now);
            match file {
                Err(e) => (s2, Err(e)),
                Ok(ino) => (
                    FsState { t: content_stored(s2.t, ino, content, now), ..s2 },
                    Ok(ino),
                ),
            }
        },
    }
}

/// Gives up one link to `ino`: the inode goes with everything that belongs to it
/// when that was the last one.
pub open spec fn released(t: Tables, ino: u64) -> Tables {
    if t.inodes.contains_key(ino) && t.inodes[ino].nlink > 1 {
        with_row(t, ino, |r: InodeRow| InodeRow { nlink: (r.nlink - 1) as i64, ..r })
    } else {
        let t1 = changed(t, ChangeView::DropInode(ino));
        let t2 = changed(t1, ChangeView::DropChunks(ino, 0));
        let t3 = changed(t2, ChangeView::DropSymlink(ino));
        changed(t3, ChangeView::DropRemote(ino))
    }
}

/// Gives up one link to the file `ino` of a document: the file goes with its
/// content and its record when that was the last one.
pub open spec fn doc_released(t: Tables, ino: u64) -> Tables {
    if t.inodes.contains_key(ino) && t.inodes[ino].nlink > 1 {
        with_row(t, ino, |r: InodeRow| InodeRow { nlink: (r.nlink - 1) as i64, ..r })
    } else {
        let t1 = changed(t, ChangeView::DropInode(ino));
        let t2 = changed(t1, ChangeView::DropChunks(ino, 0));
        changed(t2, ChangeView::DropRemote(ino))
    }
}

/// Removes the file behind the document `id`. The flag says whether there was
/// one.
pub open spec fn deletion_applied(s: FsState, id: Seq<char>) -> (FsState, bool) {
    match ino_for_remote_id(s.t, id) {
        None => (s, false),
        Some(ino) => match dentry_of(s.t, ino) {
            None => (s, false),
            Some(d) => {
                let s1 = name_dropped(s, d.0, d.1);
                (FsState { t: doc_released(s1.t, ino), ..s1 }, true)
            },
        },
    }
}

/// Queues the deletion of the document at `path` and forgets which inode it
/// belonged to.
pub open spec fn delete_enqueued(t: Tables, path: Seq<char>, ms: i64) -> Tables {
    let t1 = match ino_by_remote_path(t, path) {
        Some(ino) => changed(t, ChangeView::DropRemote(ino)),
        None => t,
    };
    enqueued(t1, path, PushOp::Delete, None, None, ms)
}

/// Queues a write of the document at `path` and marks its file dirty.
pub open spec fn write_enqueued(t: Tables, path: Seq<char>, ino: u64, ms: i64) -> Tables {
    enqueued(with_dirty(t, ino, Some(ms)), path, PushOp::Write, Some(ino), None, ms)
}

/// An inode row after an attribute update: what the request names is set, and
/// everything else stays but for the time of the last change. A resize leaves
/// that time as it is.
pub open spec fn row_with_attrs(r: InodeRow, a: SetAttr, now: Timestamp) -> InodeRow {
    InodeRow {
        mode: match a.mode {
            Some(m) => with_permissions(r.mode, m),
            None => r.mode,
        },
        uid: match a.uid {
            Some(u) => u,
            None => r.uid,
        },
        gid: match a.gid {
            Some(g) => g,
            None => r.gid,
        },
        atime: match a.atime {
            Some(t) => requested_time(t, now),
            None => r.atime,
        },
        mtime: match a.mtime {
            Some(t) => requested_time(t, now),
            None => r.mtime,
        },
        ctime: match a.size {
            Some(_) => r.ctime,
            None => now,
        },
        ..r
    }
}

/// An attribute update of `ino`.
pub open spec fn attrs_set(t: Tables, ino: u64, a: SetAttr, now: Timestamp) -> (
    Tables,
    Result<FileAttr, VfsErrorView>,
) {
    if a.mode is Some && !t.inodes.contains_key(ino) {
        (t, Err(VfsErrorView::Database(DbError::NoRows)))
    } else {
        let t1 = with_row(t, ino, |r: InodeRow| row_with_attrs(r, a, now));
        let t2 = match a.size {
            Some(size) => truncated(t1, ino, size),
            None => t1,
        };
        (
            t2,
            match attr(t2, ino) {
                Some(x) => Ok(x),
                None => Err(VfsErrorView::NotFound),
            },
        )
    }
}

/// A name that is longer than a filename component can be, in bytes.
pub open spec fn name_too_long(name: Seq<char>) -> bool {
    encode_utf8(name).len() > MAX_NAME_LEN
}

/// A new directory.
pub open spec fn dir_made(
    s: FsState,
    parent: u64,
    name: Seq<char>,
    uid: u32,
    gid: u32,
    now: Timestamp,
) -> (FsState, Result<FileAttr, VfsErrorView>) {
    if name_too_long(name) {
        (s, Err(VfsErrorView::NameTooLong))
    } else if !is_dir(s.t, parent) {
        (s, Err(VfsErrorView::NotDirectory))
    } else {
        let (s1, found) = looked_up(s, parent, name);
        match found {
            Some(_) => (s1, Err(VfsErrorView::AlreadyExists)),
            None => {
                let (s2, r) = entry_made(
                    s1,
                    parent,
                    name,
                    fresh_row(DEFAULT_DIR_MODE, 2, uid, gid, 0, now),
                );
                match r {
                    Ok(ino) => (s2, Ok(attr(s2.t, ino)->0)),
                    Err(e) => (s2, Err(e)),
                }
            },
        }
    }
}

/// A new file, or the one that is there already.
pub open spec fn file_made(
    s: FsState,
    parent: u64,
    name: Seq<char>,
    uid: u32,
    gid: u32,
    now: Timestamp,
) -> (FsState, Result<FileAttr, VfsErrorView>) {
    if name_too_long(name) {
        (s, Err(VfsErrorView::NameTooLong))
    } else if !is_dir(s.t, parent) {
        (s, Err(VfsErrorView::NotDirectory))
    } else {
        let (s1, found) = looked_up(s, parent, name);
        match found {
            Some(ino) => (
                s1,
                match attr(s1.t, ino) {
                    Some(a) => Ok(a),
                    None => Err(VfsErrorView::NotFound),
                },
            ),
            None => {
                let (s2, r) = entry_made(
                    s1,
                    parent,
                    name,
                    fresh_row(DEFAULT_FILE_MODE, 1, uid, gid, 0, now),
                );
                match r {
                    Ok(ino) => (s2, Ok(attr(s2.t, ino)->0)),
                    Err(e) => (s2, Err(e)),
                }
            },
        }
    }
}

/// A new symbolic link to `target`.
pub open spec fn symlink_made(
    s: FsState,
    parent: u64,
    name: Seq<char>,
    target: Seq<char>,
    uid: u32,
    gid: u32,
    now: Timestamp,
) -> (FsState, Result<FileAttr, VfsErrorView>) {
    if !is_dir(s.t, parent) {
        (s, Err(VfsErrorView::NotDirectory))
    } else {
        let (s1, found) = looked_up(s, parent, name);
        match found {
            Some(_) => (s1, Err(VfsErrorView::AlreadyExists)),
            None => {
                let (t2, r) = inode_made(
                    s1.t,
                    fresh_row(
                        DEFAULT_SYMLINK_MODE,
                        1,
                        uid,
                        gid,
                        encode_utf8(target).len() as i64,
                        now,
                    ),
                );
                match r {
                    Ok(ino) => {
                        let t3 = changed(t2, ChangeView::PutSymlink(ino, target));
                        let t4 = changed(t3, ChangeView::PutDentry(parent, name, ino));
                        (FsState { t: t4, ..s1 }, Ok(attr(t4, ino)->0))
                    },
                    Err(e) => (s1, Err(e)),
                }
            },
        }
    }
}

/// One more name for the file `ino`. A lookup of what had the name is no longer
/// cached.
pub open spec fn linked(s: FsState, ino: u64, parent: u64, name: Seq<char>) -> (
    FsState,
    Result<FileAttr, VfsErrorView>,
) {
    if !s.t.inodes.contains_key(ino) {
        (s, Err(VfsErrorView::NotFound))
    } else if is_dir(s.t, ino) {
        (s, Err(VfsErrorView::IsDirectory))
    } else {
        let t1 = changed(s.t, ChangeView::PutDentry(parent, name, ino));
        let t2 = with_row(
            t1,
            ino,
            |r: InodeRow| InodeRow { nlink: super::queue::bumped(r.nlink), ..r },
        );
        (
            FsState { t: t2, cache: without_key(s.cache, (parent, name)) },
            Ok(attr(t2, ino)->0),
        )
    }
}

/// A directory is removed. Only an empty one can be.
pub open spec fn dir_removed(s: FsState, parent: u64, name: Seq<char>) -> (
    FsState,
    Result<(), VfsErrorView>,
) {
    let (s1, found) = looked_up(s, parent, name);
    match found {
        None => (s1, Err(VfsErrorView::NotFound)),
        Some(ino) => if !is_dir(s1.t, ino) {
            (s1, Err(VfsErrorView::NotDirectory))
        } else if exists|n: Seq<char>| #[trigger] s1.t.dentries.contains_key((ino, n)) {
            (s1, Err(VfsErrorView::NotEmpty))
        } else {
            let s2 = name_dropped(s1, parent, name);
            (FsState { t: released(s2.t, ino), ..s2 }, Ok(()))
        },
    }
}

/// A file loses a name. Its deletion is queued where it has a brain path.
pub open spec fn unlinked(s: FsState, parent: u64, name: Seq<char>, ms: i64) -> (
    FsState,
    Result<(), VfsErrorView>,
) {
    let (s1, found) = looked_up(s, parent, name);
    match found {
        None => (s1, Err(VfsErrorView::NotFound)),
        Some(ino) => if !s1.t.inodes.contains_key(ino) {
            (s1, Err(VfsErrorView::NotFound))
        } else if is_dir(s1.t, ino) {
            (s1, Err(VfsErrorView::IsDirectory))
        } else {
            let t1 = match remote_path(s1.t, ino) {
                Some(path) => delete_enqueued(s1.t, path, ms),
                None => s1.t,
            };
            let s2 = name_dropped(FsState { t: t1, ..s1 }, parent, name);
            (FsState { t: released(s2.t, ino), ..s2 }, Ok(()))
        },
    }
}

/// A name moves. Whatever had the new name is released, and the move is queued
/// where the file has a brain path.
pub open spec fn renamed(
    s: FsState,
    old_parent: u64,
    old_name: Seq<char>,
    new_parent: u64,
    new_name: Seq<char>,
    ms: i64,
) -> (FsState, Result<(), VfsErrorView>) {
    let (s1, found) = looked_up(s, old_parent, old_name);
    match found {
        None => (s1, Err(VfsErrorView::NotFound)),
        Some(ino) => {
            let s2 = name_dropped(s1, old_parent, old_name);
            let (s3, dst) = looked_up(s2, new_parent, new_name);
            let s4 = match dst {
                Some(d) => {
                    let freed = name_dropped(s3, new_parent, new_name);
                    FsState { t: released(freed.t, d), ..freed }
                },
                None => s3,
            };
            let t5 = match remote_path(s4.t, ino) {
                Some(path) => enqueued(s4.t, path, PushOp::Rename, None, Some(new_name), ms),
                None => s4.t,
            };
            (
                FsState {
                    t: changed(t5, ChangeView::PutDentry(new_parent, new_name, ino)),
                    ..s4
                },
                Ok(()),
            )
        },
    }
}

/// The names of a list of directory entries.
pub open spec fn names_of(list: Seq<(Seq<char>, u64)>) -> Seq<Seq<char>> {
    list.map_values(|e: (Seq<char>, u64)| e.0)
}

/// The entries of a list whose inodes exist, with their attributes.
pub open spec fn with_attrs(t: Tables, list: Seq<(Seq<char>, u64)>) -> Seq<(Seq<char>, FileAttr)>
    decreases list.len(),
{
    if list.len() == 0 {
        Seq::empty()
    } else {
        let front = with_attrs(t, list.drop_last());
        match attr(t, list.last().1) {
            Some(a) => front.push((list.last().0, a)),
            None => front,
        }
    }
}

/// Some entry has the name `name`.
pub open spec fn lists_name(list: Seq<(Seq<char>, FileAttr)>, name: Seq<char>) -> bool {
    exists|i: int| 0 <= i < list.len() && (#[trigger] list[i]).0 == name
}

/// The attributes of `ino`, where `profile` is what is cached of the profile of a
/// mount that has one.
pub open spec fn shown_attr(
    profile: Option<Option<Seq<u8>>>,
    t: Tables,
    ino: u64,
    now: Timestamp,
    ms: i64,
) -> Option<FileAttr> {
    match profile {
        Some(cached) => if ino == PROFILE_INO {
            Some(profile_attr_of(cached, t, now, ms))
        } else {
            attr(t, ino)
        },
        None => attr(t, ino),
    }
}

/// The attributes of what `name` in `parent` stands for.
pub open spec fn named_attr(
    profile: Option<Option<Seq<u8>>>,
    t: Tables,
    parent: u64,
    name: Seq<char>,
    now: Timestamp,
    ms: i64,
) -> Option<FileAttr> {
    if profile is Some && parent == ROOT_INO && name == PROFILE_NAME@ {
        Some(profile_attr_of(profile->0, t, now, ms))
    } else {
        match t.dentries.get((parent, name)) {
            Some(ino) => attr(t, ino),
            None => None,
        }
    }
}

/// What opening `ino` gives, in a mount with or without a profile.
pub open spec fn opened(profile: bool, t: Tables, ino: u64) -> Result<FileHandle, VfsErrorView> {
    if profile && ino == PROFILE_INO {
        Ok(FileHandle::Profile)
    } else if !t.inodes.contains_key(ino) {
        Err(VfsErrorView::NotFound)
    } else if is_dir(t, ino) {
        Err(VfsErrorView::IsDirectory)
    } else {
        Ok(FileHandle::File(DbFile { ino }))
    }
}

/// What opening a file gives.
#[derive(Debug, Clone, Copy)]
pub enum FileHandle {
    /// The virtual `profile.md`.
    Profile,
    /// A cached file.
    File(DbFile),
}

impl UnisonFs {
    /// The store behind the filesystem.
    pub closed spec fn store(&self) -> Db {
        self.db
    }

    /// The cached lookups, the one that was used last first.
    pub closed spec fn lookups(&self) -> Seq<Lookup> {
        cache_entries(self.dentry_cache)
    }

    /// What operations work on.
    pub open spec fn state(&self) -> FsState {
        FsState { t: self.store().tables(), cache: self.lookups() }
    }

    /// The virtual profile: `None` in offline mode.
    pub closed spec fn profile(&self) -> Option<ProfileFile> {
        self.profile_file
    }

    /// The hydration queue.
    pub closed spec fn scheduler(&self) -> HydrationScheduler {
        self.hydration
    }

    /// The owner of inodes that sync makes.
    pub closed spec fn owner(&self) -> (u32, u32) {
        (self.uid, self.gid)
    }

    /// The parts are well formed, and the cached lookups say what the tables
    /// say.
    pub closed spec fn wf(&self) -> bool {
        &&& self.db.wf()
        &&& self.hydration.wf()
        &&& cache_limit(self.dentry_cache) == DENTRY_CACHE_MAX
        &&& coherent(self.state())
    }

    /// Well formed, with the same saved state, profile, hydration queue and
    /// owner as `pre`.
    pub open spec fn follows(&self, pre: UnisonFs) -> bool {
        &&& self.wf()
        &&& self.store().saved() == pre.store().saved()
        &&& self.profile() == pre.profile()
        &&& self.scheduler() == pre.scheduler()
        &&& self.owner() == pre.owner()
    }

    /// A well-formed filesystem has a well-formed store and hydration queue, and
    /// its cached lookups say what its tables say.
    pub proof fn lemma_wf(&self)
        requires
            self.wf(),
        ensures
            self.store().wf(),
            self.scheduler().wf(),
            coherent(self.state()),
    {
    }

    /// An offline filesystem over `db`.
    pub fn new(db: Db, uid: u32, gid: u32) -> (r: Self)
        requires
            db.wf(),
        ensures
            r.wf(),
            r.store() == db,
            r.lookups().len() == 0,
            r.profile() is None,
            r.owner() == (uid, gid),
    {
        UnisonFs {
            db,
            profile_file: None,
            dentry_cache: new_cache(DENTRY_CACHE_MAX),
            hydration: HydrationScheduler::new(),
            uid,
            gid,
        }
    }

    /// A filesystem over `db` that syncs with the brain and shows its profile.
    pub fn with_api(db: Db, uid: u32, gid: u32) -> (r: Self)
        requires
            db.wf(),
        ensures
            r.wf(),
            r.store() == db,
            r.lookups().len() == 0,
            r.profile() matches Some(p) && p@ is None,
            r.owner() == (uid, gid),
    {
        UnisonFs {
            db,
            profile_file: Some(ProfileFile::new()),
            dentry_cache: new_cache(DENTRY_CACHE_MAX),
            hydration: HydrationScheduler::new(),
            uid,
            gid,
        }
    }

    /// Whether the filesystem syncs with the brain.
    pub fn has_api(&self) -> (r: bool)
        ensures
            r == (self.profile() is Some),
    {
        self.profile_file.is_some()
    }

    /// The store.
    pub fn db(&self) -> (r: &Db)
        requires
            self.wf(),
        ensures
            *r == self.store(),
            r.wf(),
    {
        &self.db
    }

    /// The store, to be changed. Its directory entries are to stay.
    pub fn db_mut(&mut self) -> (r: &mut Db)
        requires
            old(self).wf(),
        ensures
            *r == old(self).store(),
            r.wf(),
            final(self).store() == *final(r),
            final(self).lookups() == old(self).lookups(),
            final(self).profile() == old(self).profile(),
            final(self).scheduler() == old(self).scheduler(),
            final(self).owner() == old(self).owner(),
            final(r).wf() && final(r).tables().dentries == old(self).store().tables().dentries
                ==> final(self).wf(),
    {
        &mut self.db
    }

    /// The hydration queue.
    pub fn hydration(&self) -> (r: &HydrationScheduler)
        requires
            self.wf(),
        ensures
            *r == self.scheduler(),
            r.wf(),
    {
        &self.hydration
    }

    /// The hydration queue, to be changed.
    pub fn hydration_mut(&mut self) -> (r: &mut HydrationScheduler)
        requires
            old(self).wf(),
        ensures
            *r == old(self).scheduler(),
            r.wf(),
            final(self).scheduler() == *final(r),
            final(self).store() == old(self).store(),
            final(self).lookups() == old(self).lookups(),
            final(self).profile() == old(self).profile(),
            final(self).owner() == old(self).owner(),
            final(r).wf() ==> final(self).wf(),
    {
        &mut self.hydration
    }

    /// The virtual profile; there is none in offline mode.
    pub fn profile_file(&self) -> (r: Option<&ProfileFile>)
        ensures
            r == (match self.profile() {
                Some(p) => Some(&p),
                None => None,
            }),
    {
        match &self.profile_file {
            Some(p) => Some(p),
            None => None,
        }
    }

    /// Keeps a freshly fetched profile, where there is one to show.
    pub fn warm_profile(&mut self, reply: &Result<ProfileResp, ApiError>)
        requires
            old(self).wf(),
        ensures
            final(self).wf(),
            final(self).store() == old(self).store(),
            final(self).lookups() == old(self).lookups(),
            final(self).scheduler() == old(self).scheduler(),
            final(self).owner() == old(self).owner(),
            match old(self).profile() {
                Some(before) => final(self).profile() is Some && final(self).profile()->0@ == (
                match *reply {
                    Ok(resp) => Some(encode_utf8(profile_text(resp))),
                    Err(_) => before@,
                }),
                None => final(self).profile() is None,
            },
    {
        match &mut self.profile_file {
            Some(p) => p.warm(reply),
            None => {},
        }
    }

    /// How many entries are currently in the push queue.
    pub fn push_queue_len(&self) -> (r: usize)
        requires
            self.wf(),
        ensures
            r == self.state().t.queue.len(),
    {
        self.db.push_queue_len()
    }

    /// How many remote documents are currently tracked in the local cache.
    pub fn remote_count(&self) -> (r: usize)
        requires
            self.wf(),
        ensures
            r == self.state().t.remotes.len(),
    {
        self.db.remote_count()
    }

    /// Resolve a document id to an inode number.
    pub fn ino_for_remote_id(&self, remote_id: &str) -> (r: Option<u64>)
        requires
            self.wf(),
        ensures
            r == ino_for_remote_id(self.state().t, remote_id@),
    {
        self.db.ino_for_remote_id(remote_id)
    }

    /// Get the brain path for an inode.
    pub fn brain_path_for_ino(&self, ino: u64) -> (r: Option<String>)
        requires
            self.wf(),
        ensures
            opt_view(r) == remote_path(self.state().t, ino),
    {
        self.db.get_remote_path(ino)
    }

    /// Remove a local inode that was deleted remotely. Returns `Ok(true)` if an
    /// entry was removed, `Ok(false)` if there is none.
    pub fn apply_deletion(&mut self, remote_id: &str) -> (r: VfsResult<bool>)
        requires
            old(self).wf(),
        ensures
            final(self).follows(*old(self)),
            r matches Ok(removed) && (final(self).state(), removed) == deletion_applied(
                old(self).state(),
                remote_id@,
            ),
    {
        let ino: u64 = match self.db.ino_for_remote_id(remote_id) {
            Some(ino) => ino,
            None => {
                return Ok(false);
            },
        };
        let (parent, name) = match self.db.dentry_of(ino) {
            Some(d) => d,
            None => {
                return Ok(false);
            },
        };
        self.drop_name(parent, name.as_str());
        match self.db.inode(ino) {
            Some(row) => {
                if row.nlink > 1 {
                    self.db.put_inode(ino, InodeRow { nlink: row.nlink - 1, ..row });
                    return Ok(true);
                }
            },
            None => {},
        }
        self.db.drop_inode(ino);
        self.db.drop_chunks(ino, 0);
        self.db.drop_remote(ino);
        Ok(true)
    }

    /// Enqueue a write when the time is `ms` epoch milliseconds, and mark the
    /// inode dirty so that a pull does not overwrite it before the push
    /// succeeds.
    pub fn enqueue_write_at(&mut self, brain_path: &str, content_ino: u64, ms: i64)
        requires
            old(self).wf(),
        ensures
            final(self).follows(*old(self)),
            final(self).lookups() == old(self).lookups(),
            final(self).state().t == write_enqueued(
                old(self).state().t,
                brain_path@,
                content_ino,
                ms,
            ),
    {
        self.db.set_dirty_since(content_ino, Some(ms));
        let _ = self.db.push_queue_upsert(
            brain_path,
            PushOp::Write,
            Some(content_ino),
            None,
            ms,
        );
    }

    /// Enqueue a write and mark the inode dirty.
    pub fn enqueue_write(&mut self, brain_path: &str, content_ino: u64)
        requires
            old(self).wf(),
        ensures
            final(self).follows(*old(self)),
            final(self).lookups() == old(self).lookups(),
            exists|ms: i64|
                final(self).state().t == #[trigger] write_enqueued(
                    old(self).state().t,
                    brain_path@,
                    content_ino,
                    ms,
                ),
    {
        let ms: i64 = now_ms();
        self.enqueue_write_at(brain_path, content_ino, ms);
    }

    /// Enqueue a delete when the time is `ms` epoch milliseconds, and clear the
    /// remote-path record so that the inode is no longer associated with any
    /// brain path.
    pub fn enqueue_delete_at(&mut self, brain_path: &str, ms: i64)
        requires
            old(self).wf(),
        ensures
            final(self).follows(*old(self)),
            final(self).lookups() == old(self).lookups(),
            final(self).state().t == delete_enqueued(old(self).state().t, brain_path@, ms),
    {
        match self.db.ino_by_remote_path(brain_path) {
            Some(ino) => self.db.delete_remote_path(ino),
            None => {},
        }
        let _ = self.db.push_queue_upsert(brain_path, PushOp::Delete, None, None, ms);
    }

    /// Enqueue a delete and clear the remote-path record.
    pub fn enqueue_delete(&mut self, brain_path: &str)
        requires
            old(self).wf(),
        ensures
            final(self).follows(*old(self)),
            final(self).lookups() == old(self).lookups(),
            exists|ms: i64|
                final(self).state().t == #[trigger] delete_enqueued(
                    old(self).state().t,
                    brain_path@,
                    ms,
                ),
    {
        let ms: i64 = now_ms();
        self.enqueue_delete_at(brain_path, ms);
    }

    // ── Lookup and allocation ───────────────────────────────────────────────

    fn lookup_ino(&mut self, parent_ino: u64, name: &str) -> (r: Option<u64>)
        requires
            old(self).wf(),
        ensures
            final(self).follows(*old(self)),
            final(self).store() == old(self).store(),
            (final(self).state(), r) == looked_up(old(self).state(), parent_ino, name@),
    {
        let key = (parent_ino, copy_text(name));
        proof {
            lemma_cached_lookup(self.state(), parent_ino, name@);
            lemma_lookup_coherent(self.state(), parent_ino, name@);
        }
        match cache_get(&mut self.dentry_cache, &key) {
            Some(ino) => {
                return Some(ino);
            },
            None => {},
        }
        match self.db.dentry(parent_ino, name) {
            Some(ino) => {
                cache_put(&mut self.dentry_cache, key, ino);
                Some(ino)
            },
            None => None,
        }
    }

    fn is_dir(&self, ino: u64) -> (r: bool)
        requires
            self.wf(),
        ensures
            r == is_dir(self.state().t, ino),
    {
        match self.db.attr(ino) {
            Some(a) => a.is_directory(),
            None => false,
        }
    }

    /// Takes `name` out of `parent`, and its lookup out of the cached ones.
    fn drop_name(&mut self, parent: u64, name: &str)
        requires
            old(self).wf(),
        ensures
            final(self).follows(*old(self)),
            final(self).state() == name_dropped(old(self).state(), parent, name@),
    {
        proof {
            lemma_forgotten_coherent(self.state(), (parent, name@));
        }
        self.db.drop_dentry(parent, name);
        let key = (parent, copy_text(name));
        cache_pop(&mut self.dentry_cache, &key);
    }

    /// Makes an inode under `name` in `parent`, where that is free.
    fn make_entry(&mut self, parent: u64, name: &str, row: InodeRow) -> (r: VfsResult<u64>)
        requires
            old(self).wf(),
            !old(self).state().t.dentries.contains_key((parent, name@)),
        ensures
            final(self).follows(*old(self)),
            (final(self).state(), outcome(r)) == entry_made(old(self).state(), parent, name@, row),
    {
        proof {
            lemma_new_name_coherent(self.state(), (parent, name@));
        }
        match self.db.create_inode(row) {
            Ok(ino) => {
                self.db.put_dentry(parent, name, ino);
                Ok(ino)
            },
            Err(e) => Err(e),
        }
    }

    fn new_row(mode: u32, nlink: i64, uid: u32, gid: u32, size: i64, now: Timestamp) -> (r:
        InodeRow)
        ensures
            r == fresh_row(mode, nlink, uid, gid, size, now),
    {
        InodeRow {
            mode,
            nlink,
            uid,
            gid,
            size,
            atime: now,
            mtime: now,
            ctime: now,
            rdev: 0,
            dirty_since: None,
        }
    }

    /// Gives up one link to `ino`.
    fn decr_nlink_and_maybe_remove(&mut self, ino: u64)
        requires
            old(self).wf(),
        ensures
            final(self).follows(*old(self)),
            final(self).lookups() == old(self).lookups(),
            final(self).state().t == released(old(self).state().t, ino),
    {
        match self.db.inode(ino) {
            Some(row) => {
                if row.nlink > 1 {
                    self.db.put_inode(ino, InodeRow { nlink: row.nlink - 1, ..row });
                    return ;
                }
            },
            None => {},
        }
        self.db.drop_inode(ino);
        self.db.drop_chunks(ino, 0);
        self.db.drop_symlink(ino);
        self.db.drop_remote(ino);
    }

    // ── Brain documents ─────────────────────────────────────────────────────

    /// Walks the first `n` of `parts` from the root and makes the directories
    /// that are missing.
    fn make_dirs(&mut self, parts: &Vec<String>, n: usize, now: Timestamp) -> (r: VfsResult<u64>)
        requires
            old(self).wf(),
            n <= parts@.len(),
        ensures
            final(self).follows(*old(self)),
            (final(self).state(), outcome(r)) == dirs_made(
                old(self).state(),
                texts(parts@).take(n as int),
                old(self).owner().0,
                old(self).owner().1,
                now,
            ),
    {
        let ghost all = texts(parts@);
        let ghost s = self.state();
        let uid: u32 = self.uid;
        let gid: u32 = self.gid;
        let mut parent: u64 = ROOT_INO;
        let mut i: usize = 0;
        while i < n
            invariant
                i <= n <= parts@.len(),
                all == texts(parts@),
                s == old(self).state(),
                self.follows(*old(self)),
                (uid, gid) == old(self).owner(),
                (self.state(), Ok::<u64, VfsErrorView>(parent)) == dirs_made(
                    s,
                    all.take(i as int),
                    uid,
                    gid,
                    now,
                ),
            decreases n - i,
        {
            proof {
                assert(all.take(i + 1).drop_last() =~= all.take(i as int));
                assert(all.take(i + 1).last() == parts@[i as int]@);
                lemma_prefix_failure(s, all.take(n as int), i + 1, uid, gid, now);
                assert(all.take(n as int).take(i + 1) =~= all.take(i + 1));
            }
            let part = parts[i].as_str();
            if !part.is_empty() {
                match self.lookup_ino(parent, part) {
                    Some(ino) => {
                        parent = ino;
                    },
                    None => {
                        let row = Self::new_row(DEFAULT_DIR_MODE, 2, uid, gid, 0, now);
                        match self.make_entry(parent, part, row) {
                            Ok(ino) => {
                                parent = ino;
                            },
                            Err(e) => {
                                return Err(e);
                            },
                        }
                    },
                }
            }
            i += 1;
        }
        Ok(parent)
    }

    /// Ensure intermediate directories exist for a brain path like
    /// `/private/notes/a.md`, making them at `now`.
    pub fn ensure_dirs_for_path_at(&mut self, brain_path: &str, now: Timestamp) -> (r: VfsResult<
        (),
    >)
        requires
            old(self).wf(),
        ensures
            final(self).follows(*old(self)),
            ({
                let (s, made) = path_dirs_made(
                    old(self).state(),
                    brain_path@,
                    old(self).owner().0,
                    old(self).owner().1,
                    now,
                );
                &&& final(self).state() == s
                &&& match made {
                    Ok(_) => r is Ok,
                    Err(e) => r matches Err(x) && x@ == e,
                }
            }),
    {
        let trimmed = trim_start_char(brain_path, '/');
        let parts = split_on(trimmed.as_str(), '/');
        proof {
            lemma_pieces_nonempty(trimmed@, '/');
            assert(texts(parts@).take(parts@.len() - 1) =~= components(brain_path@).drop_last());
        }
        match self.make_dirs(&parts, parts.len() - 1, now) {
            Ok(_) => Ok(()),
            Err(e) => Err(e),
        }
    }

    /// Ensure intermediate directories exist for a brain path.
    pub fn ensure_dirs_for_path(&mut self, brain_path: &str) -> (r: VfsResult<()>)
        requires
            old(self).wf(),
        ensures
            final(self).follows(*old(self)),
            exists|now: Timestamp|
                {
                    let (s, made) = #[trigger] path_dirs_made(
                        old(self).state(),
                        brain_path@,
                        old(self).owner().0,
                        old(self).owner().1,
                        now,
                    );
                    &&& final(self).state() == s
                    &&& match made {
                        Ok(_) => r is Ok,
                        Err(e) => r matches Err(x) && x@ == e,
                    }
                },
    {
        let now = Timestamp::now();
        self.ensure_dirs_for_path_at(brain_path, now)
    }

    /// Resolve a path like `/private/notes` to an inode.
    fn resolve_path_to_ino(&mut self, path: &str) -> (r: Option<u64>)
        requires
            old(self).wf(),
        ensures
            final(self).follows(*old(self)),
            final(self).store() == old(self).store(),
            (final(self).state(), r) == walked(old(self).state(), components(path@)),
    {
        let trimmed = trim_start_char(path, '/');
        let parts = split_on(trimmed.as_str(), '/');
        let ghost all = texts(parts@);
        let ghost s = self.state();
        let mut ino: u64 = ROOT_INO;
        let mut i: usize = 0;
        while i < parts.len()
            invariant
                i <= parts@.len(),
                all == texts(parts@),
                all == components(path@),
                s == old(self).state(),
                self.follows(*old(self)),
                self.store() == old(self).store(),
                (self.state(), Some(ino)) == walked(s, all.take(i as int)),
            decreases parts@.len() - i,
        {
            proof {
                assert(all.take(i + 1).drop_last() =~= all.take(i as int));
                assert(all.take(i + 1).last() == parts@[i as int]@);
                lemma_walk_failure(s, all, i + 1);
            }
            let part = parts[i].as_str();
            if !part.is_empty() {
                match self.lookup_ino(ino, part) {
                    Some(next) => {
                        ino = next;
                    },
                    None => {
                        return None;
                    },
                }
            }
            i += 1;
        }
        assert(all.take(all.len() as int) =~= all);
        Some(ino)
    }

    /// Write a document body into the cache at the given inode, replacing any
    /// existing content, when the time is `now`.
    pub fn write_content_to_ino_at(&mut self, ino: u64, content: &[u8], now: Timestamp) -> (r:
        VfsResult<()>)
        requires
            old(self).wf(),
        ensures
            final(self).follows(*old(self)),
            final(self).lookups() == old(self).lookups(),
            final(self).state().t == content_stored(old(self).state().t, ino, content@, now),
            r is Ok,
    {
        let ghost t = self.state().t;
        self.db.drop_chunks(ino, 0);
        let mut index: u64 = 0;
        let mut from: usize = 0;
        let len: usize = content.len();
        assert(self.state().t.chunks =~= chunks_stored(t.chunks, ino, content@, 0));
        while from < len
            invariant
                self.follows(*old(self)),
                self.lookups() == old(self).lookups(),
                len == content@.len(),
                from <= len,
                from < len ==> from == index * 4096,
                from == len ==> len <= index * 4096,
                index <= from,
                self.state().t == (Tables {
                    chunks: chunks_stored(t.chunks, ino, content@, index as int),
                    ..t
                }),
            decreases len - from,
        {
            let to: usize = if len - from > 4096 {
                from + 4096
            } else {
                len
            };
            let chunk = vstd::slice::slice_to_vec(
                vstd::slice::slice_subrange(content, from, to),
            );
            let ghost before = self.state().t.chunks;
            let ghost bytes = chunk@;
            self.db.put_chunk(ino, index, chunk);
            assert(before.insert((ino, index), bytes) =~= chunks_stored(
                t.chunks,
                ino,
                content@,
                index + 1,
            ));
            index += 1;
            from = to;
        }
        assert(self.state().t.chunks =~= chunks_stored(
            t.chunks,
            ino,
            content@,
            content@.len() as int,
        ));
        match self.db.inode(ino) {
            Some(row) => {
                self.db.put_inode(
                    ino,
                    InodeRow { size: len as i64, mtime: now, ctime: now, ..row },
                );
            },
            None => {},
        }
        Ok(())
    }

    /// Write a document body into the cache at the given inode, replacing any
    /// existing content.
    pub fn write_content_to_ino(&mut self, ino: u64, content: &[u8]) -> (r: VfsResult<()>)
        requires
            old(self).wf(),
        ensures
            final(self).follows(*old(self)),
            final(self).lookups() == old(self).lookups(),
            exists|now: Timestamp|
                final(self).state().t == #[trigger] content_stored(
                    old(self).state().t,
                    ino,
                    content@,
                    now,
                ),
            r is Ok,
    {
        let now = Timestamp::now();
        self.write_content_to_ino_at(ino, content, now)
    }

    /// Write raw bytes directly into an inode (used by rehydration after pull).
    pub fn rehydrate_raw_bytes(&mut self, ino: u64, bytes: &[u8]) -> (r: VfsResult<()>)
        requires
            old(self).wf(),
        ensures
            final(self).follows(*old(self)),
            final(self).lookups() == old(self).lookups(),
            exists|now: Timestamp|
                final(self).state().t == #[trigger] content_stored(
                    old(self).state().t,
                    ino,
                    bytes@,
                    now,
                ),
            r is Ok,
    {
        self.write_content_to_ino(ino, bytes)
    }

    /// The file for the document at `brain_path`, made at `now` where there is
    /// none.
    fn find_or_make_doc(&mut self, brain_path: &str, now: Timestamp) -> (r: VfsResult<u64>)
        requires
            old(self).wf(),
        ensures
            final(self).follows(*old(self)),
            (final(self).state(), outcome(r)) == doc_file(
                old(self).state(),
                brain_path@,
                old(self).owner().0,
                old(self).owner().1,
                now,
            ),
    {
        let mut parts = split_on(brain_path, '/');
        let ghost all = texts(parts@);
        proof {
            lemma_pieces_nonempty(brain_path@, '/');
        }
        let name = match parts.pop() {
            Some(last) => last,
            None => String::new(),
        };
        proof {
            assert(all.last() == name@);
            assert(texts(parts@) =~= all.drop_last());
            reveal_strlit("/");
            assert("/"@ =~= seq!['/']);
        }
        let parent_path = crate::text::join(&parts, "/");
        let parent: u64 = if parent_path.as_str().is_empty() {
            ROOT_INO
        } else {
            match self.resolve_path_to_ino(parent_path.as_str()) {
                Some(ino) => ino,
                None => ROOT_INO,
            }
        };
        match self.lookup_ino(parent, name.as_str()) {
            Some(ino) => Ok(ino),
            None => {
                let row = Self::new_row(DEFAULT_FILE_MODE, 1, self.uid, self.gid, 0, now);
                match self.make_entry(parent, name.as_str(), row) {
                    Ok(ino) => {
                        self.db.set_remote_path(ino, brain_path);
                        Ok(ino)
                    },
                    Err(e) => Err(e),
                }
            },
        }
    }

    /// Create or update a file at the given brain path in the local cache when
    /// the time is `now`. Returns the inode number.
    pub fn upsert_brain_doc_at(&mut self, brain_path: &str, content: &[u8], now: Timestamp) -> (r:
        VfsResult<u64>)
        requires
            old(self).wf(),
        ensures
            final(self).follows(*old(self)),
            (final(self).state(), outcome(r)) == doc_upserted(
                old(self).state(),
                brain_path@,
                content@,
                old(self).owner().0,
                old(self).owner().1,
                now,
            ),
    {
        match self.ensure_dirs_for_path_at(brain_path, now) {
            Ok(_) => {},
            Err(e) => {
                return Err(e);
            },
        }
        match self.find_or_make_doc(brain_path, now) {
            Ok(ino) => {
                let _ = self.write_content_to_ino_at(ino, content, now);
                Ok(ino)
            },
            Err(e) => Err(e),
        }
    }

    /// Create or update a file at the given brain path in the local cache.
    /// Returns the inode number.
    pub fn upsert_brain_doc(&mut self, brain_path: &str, content: &[u8]) -> (r: VfsResult<u64>)
        requires
            old(self).wf(),
        ensures
            final(self).follows(*old(self)),
            exists|now: Timestamp|
                (final(self).state(), outcome(r)) == #[trigger] doc_upserted(
                    old(self).state(),
                    brain_path@,
                    content@,
                    old(self).owner().0,
                    old(self).owner().1,
                    now,
                ),
    {
        let now = Timestamp::now();
        self.upsert_brain_doc_at(brain_path, content, now)
    }
}

/// What a document's body is in bytes; a missing body is empty.
pub open spec fn body_bytes(doc: BrainDocument) -> Seq<u8> {
    match doc.body_md {
        Some(b) => encode_utf8(b@),
        None => Seq::empty(),
    }
}

/// What a reply with the document at `path` does to the cache. A local edit that
/// is not older is kept. That there is no such document is no failure.
pub open spec fn hydrated(
    s: FsState,
    path: Seq<char>,
    reply: Result<BrainDocument, ApiError>,
    uid: u32,
    gid: u32,
    now: Timestamp,
) -> (FsState, Result<(), VfsErrorView>) {
    match reply {
        Ok(doc) => if edit_kept(s.t, path, doc.updated_at@) {
            (s, Ok(()))
        } else {
            let (s1, r) = doc_upserted(s, path, body_bytes(doc), uid, gid, now);
            match r {
                Ok(_) => (s1, Ok(())),
                Err(e) => (s1, Err(e)),
            }
        },
        Err(e) => if e@ is NotFound {
            (s, Ok(()))
        } else {
            (s, Err(VfsErrorView::Io(None, api_error_text(e@))))
        },
    }
}

/// The brain says that it has no document at the path that it was asked for.
pub open spec fn missing_in_brain(reply: Result<BrainDocument, ApiError>) -> bool {
    reply matches Err(e) && e@ is NotFound
}

/// What an import does, when the brain was asked for the document at its path.
#[derive(Debug, PartialEq, Eq)]
pub enum ImportStep {
    /// The brain has the document already.
    Skip,
    /// The file is to be written to the brain.
    Write,
    Failed(String),
}

impl UnisonFs {
    // ── What the brain's replies do ─────────────────────────────────────────

    /// The file that the document at `path` is stored in, where there is one.
    fn doc_ino(&self, path: &str) -> (r: Option<u64>)
        requires
            self.wf(),
        ensures
            r == doc_at(self.state().t, path@),
    {
        let trimmed = trim_start_char(path, '/');
        let parts = split_on(trimmed.as_str(), '/');
        let ghost all = texts(parts@);
        let ghost dentries = self.state().t.dentries;
        proof {
            lemma_pieces_nonempty(trimmed@, '/');
        }
        let last: usize = parts.len() - 1;
        let mut dir: u64 = ROOT_INO;
        let mut i: usize = 0;
        while i < last
            invariant
                self.wf(),
                dentries == self.state().t.dentries,
                i <= last,
                last == parts@.len() - 1,
                all == texts(parts@),
                all == components(path@),
                leads_to(dentries, all.take(i as int)) == Some(dir),
            decreases last - i,
        {
            proof {
                assert(all.take(i + 1).drop_last() =~= all.take(i as int));
                assert(all.take(i + 1).last() == parts@[i as int]@);
                lemma_leads_nowhere(dentries, all.take(last as int), i + 1);
                assert(all.take(last as int).take(i + 1) =~= all.take(i + 1));
            }
            let part = parts[i].as_str();
            if !part.is_empty() {
                match self.db.dentry(dir, part) {
                    Some(next) => {
                        dir = next;
                    },
                    None => {
                        assert(all.drop_last() =~= all.take(last as int));
                        return None;
                    },
                }
            }
            i += 1;
        }
        assert(all.drop_last() =~= all.take(last as int));
        assert(all.last() == parts@[last as int]@);
        self.db.dentry(dir, parts[last].as_str())
    }

    /// Whether a local edit of `ino` is kept when the brain's version is as old
    /// as `updated_at` says.
    pub(crate) fn keeps_edit(&self, ino: u64, updated_at: &str) -> (r: bool)
        requires
            self.wf(),
        ensures
            r == keeps_local_edit(self.state().t, ino, updated_at@),
    {
        match self.db.get_dirty_since(ino) {
            Some(since) => match parse_iso8601_ms(updated_at) {
                Ok(ms) => since >= ms,
                Err(_) => true,
            },
            None => false,
        }
    }

    /// Whether a local edit of the document at `path` is kept when the brain's
    /// version is as old as `updated_at` says.
    pub(crate) fn keeps_edit_of(&self, path: &str, updated_at: &str) -> (r: bool)
        requires
            self.wf(),
        ensures
            r == edit_kept(self.state().t, path@, updated_at@),
    {
        let on_record = match self.db.ino_by_remote_path(path) {
            Some(ino) => self.keeps_edit(ino, updated_at),
            None => false,
        };
        on_record || match self.doc_ino(path) {
            Some(ino) => self.keeps_edit(ino, updated_at),
            None => false,
        }
    }

    /// Whether a local edit of the document `id` is kept when the brain's
    /// version is as old as `updated_at` says.
    pub(crate) fn keeps_edit_of_id(&self, id: &str, updated_at: &str) -> (r: bool)
        requires
            self.wf(),
        ensures
            r == edit_kept_of_id(self.state().t, id@, updated_at@),
    {
        match self.db.ino_for_remote_id(id) {
            Some(ino) => self.keeps_edit(ino, updated_at),
            None => false,
        }
    }

    /// Populates the cache with a reply of the brain for `path`, when the time
    /// is `now`.
    pub fn hydrate_path_at(
        &mut self,
        path: &str,
        reply: &Result<BrainDocument, ApiError>,
        now: Timestamp,
    ) -> (r: VfsResult<()>)
        requires
            old(self).wf(),
        ensures
            final(self).follows(*old(self)),
            (final(self).state(), outcome(r)) == hydrated(
                old(self).state(),
                path@,
                *reply,
                old(self).owner().0,
                old(self).owner().1,
                now,
            ),
    {
        match reply {
            Ok(doc) => {
                if self.keeps_edit_of(path, doc.updated_at.as_str()) {
                    return Ok(());
                }
                let content: Vec<u8> = match &doc.body_md {
                    Some(b) => vstd::slice::slice_to_vec(b.as_str().as_bytes()),
                    None => Vec::new(),
                };
                assert(content@ =~= body_bytes(*doc));
                match self.upsert_brain_doc_at(path, content.as_slice(), now) {
                    Ok(_) => Ok(()),
                    Err(e) => Err(e),
                }
            },
            Err(ApiError::NotFound) => Ok(()),
            Err(e) => Err(VfsError::Io(IoError { os_error: None, message: e.message() })),
        }
    }

    /// Populates the cache with a reply of the brain for `path`.
    pub fn hydrate_path(&mut self, path: &str, reply: &Result<BrainDocument, ApiError>) -> (r:
        VfsResult<()>)
        requires
            old(self).wf(),
        ensures
            final(self).follows(*old(self)),
            exists|now: Timestamp|
                (final(self).state(), outcome(r)) == #[trigger] hydrated(
                    old(self).state(),
                    path@,
                    *reply,
                    old(self).owner().0,
                    old(self).owner().1,
                    now,
                ),
    {
        let now = Timestamp::now();
        self.hydrate_path_at(path, reply, now)
    }

    /// Decides whether a file is imported, when the brain was asked for the
    /// document at its path.
    pub fn import_check(reply: &Result<BrainDocument, ApiError>) -> (r: ImportStep)
        ensures
            match *reply {
                Ok(_) => r is Skip,
                Err(e) => if e@ is NotFound {
                    r is Write
                } else {
                    r is Failed && r->Failed_0@ == "import check failed: "@ + api_error_text(e@)
                },
            },
            r is Write <==> missing_in_brain(*reply),
            r is Skip <==> reply is Ok,
    {
        match reply {
            Ok(_) => ImportStep::Skip,
            Err(ApiError::NotFound) => ImportStep::Write,
            Err(e) => ImportStep::Failed(
                copy_text("import check failed: ").concat(e.message().as_str()),
            ),
        }
    }

    /// Whether a file was imported, when its write was answered.
    pub fn import_done(reply: &Result<BrainDocument, ApiError>) -> (r: Result<bool, String>)
        ensures
            match *reply {
                Ok(_) => r == Ok::<bool, String>(true),
                Err(e) => r is Err && r->Err_0@ == "import write failed: "@ + api_error_text(e@),
            },
    {
        match reply {
            Ok(_) => Ok(true),
            Err(e) => Err(copy_text("import write failed: ").concat(e.message().as_str())),
        }
    }
}

impl UnisonFs {
    // ── Filesystem operations ───────────────────────────────────────────────

    /// The attributes of `name` in `parent_ino` when the time is `now`, or `ms`
    /// epoch milliseconds.
    pub fn lookup_at(&mut self, parent_ino: u64, name: &str, now: Timestamp, ms: i64) -> (r:
        VfsResult<Option<FileAttr>>)
        requires
            old(self).wf(),
        ensures
            final(self).follows(*old(self)),
            final(self).store() == old(self).store(),
            r is Ok,
            if parent_ino == ROOT_INO && name@ == PROFILE_NAME@ && old(self).profile() is Some {
                &&& r->Ok_0 == Some(
                    profile_attr_of(old(self).profile()->0@, old(self).state().t, now, ms),
                )
                &&& final(self).state() == old(self).state()
            } else {
                let (s, found) = looked_up(old(self).state(), parent_ino, name@);
                &&& final(self).state() == s
                &&& r->Ok_0 == (match found {
                    Some(ino) => attr(s.t, ino),
                    None => None,
                })
            },
            r == Ok::<Option<FileAttr>, VfsError>(
                named_attr(
                    match old(self).profile() {
                        Some(p) => Some(p@),
                        None => None,
                    },
                    old(self).state().t,
                    parent_ino,
                    name@,
                    now,
                    ms,
                ),
            ),
    {
        if parent_ino == ROOT_INO && same_text(name, PROFILE_NAME) {
            match &self.profile_file {
                Some(pf) => {
                    return Ok(Some(pf.profile_attr_at(&self.db, now, ms)));
                },
                None => {},
            }
        }
        match self.lookup_ino(parent_ino, name) {
            Some(ino) => Ok(self.db.attr(ino)),
            None => Ok(None),
        }
    }

    /// The attributes of `name` in `parent_ino`.
    pub fn lookup(&mut self, parent_ino: u64, name: &str) -> (r: VfsResult<Option<FileAttr>>)
        requires
            old(self).wf(),
        ensures
            final(self).follows(*old(self)),
            final(self).store() == old(self).store(),
            r is Ok,
            if parent_ino == ROOT_INO && name@ == PROFILE_NAME@ && old(self).profile() is Some {
                &&& exists|now: Timestamp, ms: i64|
                    r->Ok_0 == Some(
                        #[trigger] profile_attr_of(
                            old(self).profile()->0@,
                            old(self).state().t,
                            now,
                            ms,
                        ),
                    )
                &&& final(self).state() == old(self).state()
            } else {
                let (s, found) = looked_up(old(self).state(), parent_ino, name@);
                &&& final(self).state() == s
                &&& r->Ok_0 == (match found {
                    Some(ino) => attr(s.t, ino),
                    None => None,
                })
            },
    {
        let now = Timestamp::now();
        let ms: i64 = now_ms();
        self.lookup_at(parent_ino, name, now, ms)
    }

    /// The attributes of `ino` when the time is `now`, or `ms` epoch
    /// milliseconds.
    pub fn getattr_at(&self, ino: u64, now: Timestamp, ms: i64) -> (r: VfsResult<
        Option<FileAttr>,
    >)
        requires
            self.wf(),
        ensures
            r == Ok::<Option<FileAttr>, VfsError>(
                if ino == PROFILE_INO && self.profile() is Some {
                    Some(profile_attr_of(self.profile()->0@, self.state().t, now, ms))
                } else {
                    attr(self.state().t, ino)
                },
            ),
            r == Ok::<Option<FileAttr>, VfsError>(
                shown_attr(
                    match self.profile() {
                        Some(p) => Some(p@),
                        None => None,
                    },
                    self.state().t,
                    ino,
                    now,
                    ms,
                ),
            ),
    {
        if ino == PROFILE_INO {
            match &self.profile_file {
                Some(pf) => {
                    return Ok(Some(pf.profile_attr_at(&self.db, now, ms)));
                },
                None => {},
            }
        }
        Ok(self.db.attr(ino))
    }

    /// The attributes of `ino`.
    pub fn getattr(&self, ino: u64) -> (r: VfsResult<Option<FileAttr>>)
        requires
            self.wf(),
        ensures
            r is Ok,
            if ino == PROFILE_INO && self.profile() is Some {
                exists|now: Timestamp, ms: i64|
                    r->Ok_0 == Some(
                        #[trigger] profile_attr_of(self.profile()->0@, self.state().t, now, ms),
                    )
            } else {
                r->Ok_0 == attr(self.state().t, ino)
            },
    {
        let now = Timestamp::now();
        let ms: i64 = now_ms();
        self.getattr_at(ino, now, ms)
    }

    /// Changes the attributes of `ino` when the time is `now`.
    pub fn setattr_at(&mut self, ino: u64, attr: SetAttr, now: Timestamp) -> (r: VfsResult<
        FileAttr,
    >)
        requires
            old(self).wf(),
        ensures
            final(self).follows(*old(self)),
            final(self).lookups() == old(self).lookups(),
            (final(self).state().t, outcome(r)) == attrs_set(old(self).state().t, ino, attr, now),
    {
        match self.db.inode(ino) {
            Some(row) => {
                let mut new = row;
                match attr.mode {
                    Some(mode) => {
                        new.mode = (row.mode & S_IFMT) | (mode & !S_IFMT);
                    },
                    None => {},
                }
                match attr.uid {
                    Some(uid) => {
                        new.uid = uid;
                    },
                    None => {},
                }
                match attr.gid {
                    Some(gid) => {
                        new.gid = gid;
                    },
                    None => {},
                }
                match attr.atime {
                    Some(t) => {
                        new.atime = t.resolve(now);
                    },
                    None => {},
                }
                match attr.mtime {
                    Some(t) => {
                        new.mtime = t.resolve(now);
                    },
                    None => {},
                }
                if attr.size.is_none() {
                    new.ctime = now;
                }
                self.db.put_inode(ino, new);
            },
            None => {
                if attr.mode.is_some() {
                    return Err(VfsError::Database(DbError::NoRows));
                }
            },
        }
        match attr.size {
            Some(size) => {
                let handle = DbFile::new(ino);
                match handle.truncate(&mut self.db, size) {
                    Ok(_) => {},
                    Err(e) => {
                        return Err(e);
                    },
                }
            },
            None => {},
        }
        match self.db.attr(ino) {
            Some(a) => Ok(a),
            None => Err(VfsError::NotFound),
        }
    }

    /// Changes the attributes of `ino`.
    pub fn setattr(&mut self, ino: u64, attr: SetAttr) -> (r: VfsResult<FileAttr>)
        requires
            old(self).wf(),
        ensures
            final(self).follows(*old(self)),
            final(self).lookups() == old(self).lookups(),
            exists|now: Timestamp|
                (final(self).state().t, outcome(r)) == #[trigger] attrs_set(
                    old(self).state().t,
                    ino,
                    attr,
                    now,
                ),
    {
        let now = Timestamp::now();
        self.setattr_at(ino, attr, now)
    }

    /// The names in directory `ino`, in order; `None` if it is no directory.
    /// The root also shows the virtual profile, at the end.
    pub fn readdir(&self, ino: u64) -> (r: VfsResult<Option<Vec<String>>>)
        requires
            self.wf(),
        ensures
            r is Ok,
            match r->Ok_0 {
                None => !is_dir(self.state().t, ino),
                Some(names) => is_dir(self.state().t, ino) && exists|
                    list: Seq<(Seq<char>, u64)>,
                | #[trigger]
                    lists_children(self.state().t.dentries, ino, list) && texts(names@) == (if ino
                        == ROOT_INO && self.profile() is Some && !names_of(list).contains(
                        PROFILE_NAME@,
                    ) {
                        names_of(list).push(PROFILE_NAME@)
                    } else {
                        names_of(list)
                    }),
            },
    {
        if !self.is_dir(ino) {
            return Ok(None);
        }
        let children = self.db.children(ino);
        let ghost list = named_inos(children@);
        let mut names: Vec<String> = Vec::new();
        let mut shown = false;
        let mut i: usize = 0;
        while i < children.len()
            invariant
                list == named_inos(children@),
                i <= children@.len(),
                texts(names@) == names_of(list).take(i as int),
                shown == names_of(list).take(i as int).contains(PROFILE_NAME@),
            decreases children@.len() - i,
        {
            let ghost before = names_of(list).take(i as int);
            if same_text(children[i].0.as_str(), PROFILE_NAME) {
                shown = true;
            }
            names.push(copy_text(children[i].0.as_str()));
            proof {
                let after = names_of(list).take(i + 1);
                assert(after =~= before.push(children@[i as int].0@));
                assert(texts(names@) =~= after);
                if before.contains(PROFILE_NAME@) {
                    let k = before.index_of(PROFILE_NAME@);
                    assert(after[k] == PROFILE_NAME@);
                }
                if after.contains(PROFILE_NAME@) {
                    let k = after.index_of(PROFILE_NAME@);
                    if k < i {
                        assert(before[k] == PROFILE_NAME@);
                    }
                }
                assert(after[i as int] == children@[i as int].0@);
            }
            i += 1;
        }
        assert(names_of(list).take(list.len() as int) =~= names_of(list));
        if ino == ROOT_INO && self.profile_file.is_some() && !shown {
            let ghost before = texts(names@);
            names.push(copy_text(PROFILE_NAME));
            assert(texts(names@) =~= before.push(PROFILE_NAME@));
        }
        Ok(Some(names))
    }

    /// The entries of directory `ino` with their attributes, in the order of
    /// their names, when the time is `now`, or `ms` epoch milliseconds; `None`
    /// if it is no directory. Entries whose inode is gone are left out. The
    /// root also shows the virtual profile, at the end.
    pub fn readdir_plus_at(&self, ino: u64, now: Timestamp, ms: i64) -> (r: VfsResult<
        Option<Vec<DirEntry>>,
    >)
        requires
            self.wf(),
        ensures
            r is Ok,
            match r->Ok_0 {
                None => !is_dir(self.state().t, ino),
                Some(entries) => is_dir(self.state().t, ino) && self.lists_directory(
                    ino,
                    entries_view(entries@),
                    now,
                    ms,
                ),
            },
    {
        if !self.is_dir(ino) {
            return Ok(None);
        }
        let children = self.db.children(ino);
        let ghost list = named_inos(children@);
        let ghost t = self.state().t;
        let mut entries: Vec<DirEntry> = Vec::new();
        let mut shown = false;
        let mut i: usize = 0;
        assert(entries_view(entries@) =~= with_attrs(t, list.take(0)));
        while i < children.len()
            invariant
                self.wf(),
                t == self.state().t,
                list == named_inos(children@),
                i <= children@.len(),
                entries_view(entries@) == with_attrs(t, list.take(i as int)),
                shown == lists_name(with_attrs(t, list.take(i as int)), PROFILE_NAME@),
            decreases children@.len() - i,
        {
            let ghost before = with_attrs(t, list.take(i as int));
            proof {
                assert(list.take(i + 1).drop_last() =~= list.take(i as int));
                assert(list.take(i + 1).last() == (children@[i as int].0@, children@[i as int].1));
            }
            match self.db.attr(children[i].1) {
                Some(attr) => {
                    if same_text(children[i].0.as_str(), PROFILE_NAME) {
                        shown = true;
                    }
                    entries.push(DirEntry { name: copy_text(children[i].0.as_str()), attr });
                    proof {
                        let after = with_attrs(t, list.take(i + 1));
                        assert(after == before.push((children@[i as int].0@, attr)));
                        assert(entries_view(entries@) =~= after);
                        lemma_lists_name_push(
                            before,
                            (children@[i as int].0@, attr),
                            PROFILE_NAME@,
                        );
                    }
                },
                None => {},
            }
            i += 1;
        }
        assert(list.take(list.len() as int) =~= list);
        if ino == ROOT_INO && !shown {
            match &self.profile_file {
                Some(pf) => {
                    let ghost before = entries_view(entries@);
                    let attr = pf.profile_attr_at(&self.db, now, ms);
                    entries.push(DirEntry { name: copy_text(PROFILE_NAME), attr });
                    assert(entries_view(entries@) =~= before.push((PROFILE_NAME@, attr)));
                },
                None => {},
            }
        }
        assert(lists_children(t.dentries, ino, list));
        Ok(Some(entries))
    }

    /// `entries` are the entries of directory `ino` when the time is `now`, or
    /// `ms` epoch milliseconds.
    pub open spec fn lists_directory(
        &self,
        ino: u64,
        entries: Seq<(Seq<char>, FileAttr)>,
        now: Timestamp,
        ms: i64,
    ) -> bool {
        exists|list: Seq<(Seq<char>, u64)>| #[trigger]
            lists_children(self.state().t.dentries, ino, list) && entries == ({
                let found = with_attrs(self.state().t, list);
                if ino == ROOT_INO && self.profile() is Some && !lists_name(found, PROFILE_NAME@) {
                    found.push(
                        (
                            PROFILE_NAME@,
                            profile_attr_of(self.profile()->0@, self.state().t, now, ms),
                        ),
                    )
                } else {
                    found
                }
            })
    }

    /// The entries of directory `ino` with their attributes.
    pub fn readdir_plus(&self, ino: u64) -> (r: VfsResult<Option<Vec<DirEntry>>>)
        requires
            self.wf(),
        ensures
            r is Ok,
            match r->Ok_0 {
                None => !is_dir(self.state().t, ino),
                Some(entries) => is_dir(self.state().t, ino) && exists|now: Timestamp, ms: i64| #[trigger]
                    self.lists_directory(ino, entries_view(entries@), now, ms),
            },
    {
        let now = Timestamp::now();
        let ms: i64 = now_ms();
        self.readdir_plus_at(ino, now, ms)
    }

    /// Makes a directory when the time is `now`.
    pub fn mkdir_at(
        &mut self,
        parent_ino: u64,
        name: &str,
        _mode: u32,
        uid: u32,
        gid: u32,
        now: Timestamp,
    ) -> (r: VfsResult<FileAttr>)
        requires
            old(self).wf(),
        ensures
            final(self).follows(*old(self)),
            (final(self).state(), outcome(r)) == dir_made(
                old(self).state(),
                parent_ino,
                name@,
                uid,
                gid,
                now,
            ),
    {
        if name.as_bytes().len() > MAX_NAME_LEN as usize {
            return Err(VfsError::NameTooLong);
        }
        if !self.is_dir(parent_ino) {
            return Err(VfsError::NotDirectory);
        }
        if self.lookup_ino(parent_ino, name).is_some() {
            return Err(VfsError::AlreadyExists);
        }
        let row = Self::new_row(DEFAULT_DIR_MODE, 2, uid, gid, 0, now);
        match self.make_entry(parent_ino, name, row) {
            Ok(ino) => match self.db.attr(ino) {
                Some(a) => Ok(a),
                None => Err(VfsError::NotFound),
            },
            Err(e) => Err(e),
        }
    }

    /// Makes a directory.
    pub fn mkdir(&mut self, parent_ino: u64, name: &str, mode: u32, uid: u32, gid: u32) -> (r:
        VfsResult<FileAttr>)
        requires
            old(self).wf(),
        ensures
            final(self).follows(*old(self)),
            exists|now: Timestamp|
                (final(self).state(), outcome(r)) == #[trigger] dir_made(
                    old(self).state(),
                    parent_ino,
                    name@,
                    uid,
                    gid,
                    now,
                ),
    {
        let now = Timestamp::now();
        self.mkdir_at(parent_ino, name, mode, uid, gid, now)
    }

    /// Removes an empty directory.
    pub fn rmdir(&mut self, parent_ino: u64, name: &str) -> (r: VfsResult<()>)
        requires
            old(self).wf(),
        ensures
            final(self).follows(*old(self)),
            (final(self).state(), outcome(r)) == dir_removed(
                old(self).state(),
                parent_ino,
                name@,
            ),
    {
        let ino: u64 = match self.lookup_ino(parent_ino, name) {
            Some(ino) => ino,
            None => {
                return Err(VfsError::NotFound);
            },
        };
        if !self.is_dir(ino) {
            return Err(VfsError::NotDirectory);
        }
        let children = self.db.children(ino);
        let ghost list = named_inos(children@);
        let ghost dentries = self.state().t.dentries;
        if children.len() > 0 {
            proof {
                assert(dentries.contains_pair((ino, list[0].0), list[0].1));
                assert(dentries.contains_key((ino, list[0].0)));
            }
            return Err(VfsError::NotEmpty);
        }
        assert(forall|n: Seq<char>| !#[trigger] dentries.contains_key((ino, n)));
        self.drop_name(parent_ino, name);
        self.decr_nlink_and_maybe_remove(ino);
        Ok(())
    }

    /// Opens a file.
    pub fn open(&self, ino: u64, _flags: i32) -> (r: VfsResult<FileHandle>)
        requires
            self.wf(),
        ensures
            outcome(r) == (if ino == PROFILE_INO && self.profile() is Some {
                Ok::<FileHandle, VfsErrorView>(FileHandle::Profile)
            } else if !self.state().t.inodes.contains_key(ino) {
                Err(VfsErrorView::NotFound)
            } else if is_dir(self.state().t, ino) {
                Err(VfsErrorView::IsDirectory)
            } else {
                Ok(FileHandle::File(DbFile { ino }))
            }),
            outcome(r) == opened(self.profile() is Some, self.state().t, ino),
    {
        if ino == PROFILE_INO && self.profile_file.is_some() {
            return Ok(FileHandle::Profile);
        }
        match self.db.attr(ino) {
            Some(a) => {
                if a.is_directory() {
                    Err(VfsError::IsDirectory)
                } else {
                    Ok(FileHandle::File(DbFile::new(ino)))
                }
            },
            None => Err(VfsError::NotFound),
        }
    }

    /// Makes a file, or opens the one that is there, when the time is `now`.
    pub fn create_file_at(
        &mut self,
        parent_ino: u64,
        name: &str,
        _mode: u32,
        uid: u32,
        gid: u32,
        now: Timestamp,
    ) -> (r: VfsResult<(FileAttr, DbFile)>)
        requires
            old(self).wf(),
        ensures
            final(self).follows(*old(self)),
            ({
                let (s, made) = file_made(old(self).state(), parent_ino, name@, uid, gid, now);
                &&& final(self).state() == s
                &&& match made {
                    Ok(a) => r matches Ok(x) && x.0 == a && x.1.ino == a.ino,
                    Err(e) => r matches Err(x) && x@ == e,
                }
            }),
    {
        if name.as_bytes().len() > MAX_NAME_LEN as usize {
            return Err(VfsError::NameTooLong);
        }
        if !self.is_dir(parent_ino) {
            return Err(VfsError::NotDirectory);
        }
        let ino: u64 = match self.lookup_ino(parent_ino, name) {
            Some(ino) => ino,
            None => {
                let row = Self::new_row(DEFAULT_FILE_MODE, 1, uid, gid, 0, now);
                match self.make_entry(parent_ino, name, row) {
                    Ok(ino) => ino,
                    Err(e) => {
                        return Err(e);
                    },
                }
            },
        };
        match self.db.attr(ino) {
            Some(a) => Ok((a, DbFile::new(ino))),
            None => Err(VfsError::NotFound),
        }
    }

    /// Makes a file, or opens the one that is there.
    pub fn create_file(
        &mut self,
        parent_ino: u64,
        name: &str,
        mode: u32,
        uid: u32,
        gid: u32,
    ) -> (r: VfsResult<(FileAttr, DbFile)>)
        requires
            old(self).wf(),
        ensures
            final(self).follows(*old(self)),
            exists|now: Timestamp|
                {
                    let (s, made) = #[trigger] file_made(
                        old(self).state(),
                        parent_ino,
                        name@,
                        uid,
                        gid,
                        now,
                    );
                    &&& final(self).state() == s
                    &&& match made {
                        Ok(a) => r matches Ok(x) && x.0 == a && x.1.ino == a.ino,
                        Err(e) => r matches Err(x) && x@ == e,
                    }
                },
    {
        let now = Timestamp::now();
        self.create_file_at(parent_ino, name, mode, uid, gid, now)
    }

    /// Removes a name of a file when the time is `ms` epoch milliseconds.
    pub fn unlink_at(&mut self, parent_ino: u64, name: &str, ms: i64) -> (r: VfsResult<()>)
        requires
            old(self).wf(),
        ensures
            final(self).follows(*old(self)),
            (final(self).state(), outcome(r)) == unlinked(
                old(self).state(),
                parent_ino,
                name@,
                ms,
            ),
    {
        let ino: u64 = match self.lookup_ino(parent_ino, name) {
            Some(ino) => ino,
            None => {
                return Err(VfsError::NotFound);
            },
        };
        match self.db.attr(ino) {
            Some(a) => {
                if a.is_directory() {
                    return Err(VfsError::IsDirectory);
                }
            },
            None => {
                return Err(VfsError::NotFound);
            },
        }
        match self.db.get_remote_path(ino) {
            Some(path) => self.enqueue_delete_at(path.as_str(), ms),
            None => {},
        }
        self.drop_name(parent_ino, name);
        self.decr_nlink_and_maybe_remove(ino);
        Ok(())
    }

    /// Removes a name of a file.
    pub fn unlink(&mut self, parent_ino: u64, name: &str) -> (r: VfsResult<()>)
        requires
            old(self).wf(),
        ensures
            final(self).follows(*old(self)),
            exists|ms: i64|
                (final(self).state(), outcome(r)) == #[trigger] unlinked(
                    old(self).state(),
                    parent_ino,
                    name@,
                    ms,
                ),
    {
        let ms: i64 = now_ms();
        self.unlink_at(parent_ino, name, ms)
    }

    /// The target of a symbolic link.
    pub fn readlink(&self, ino: u64) -> (r: VfsResult<Option<String>>)
        requires
            self.wf(),
        ensures
            r is Ok,
            opt_view(r->Ok_0) == self.state().t.symlinks.get(ino),
    {
        Ok(self.db.symlink_target(ino))
    }

    /// Makes a symbolic link when the time is `now`.
    pub fn symlink_at(
        &mut self,
        parent_ino: u64,
        name: &str,
        target: &str,
        uid: u32,
        gid: u32,
        now: Timestamp,
    ) -> (r: VfsResult<FileAttr>)
        requires
            old(self).wf(),
        ensures
            final(self).follows(*old(self)),
            (final(self).state(), outcome(r)) == symlink_made(
                old(self).state(),
                parent_ino,
                name@,
                target@,
                uid,
                gid,
                now,
            ),
    {
        if !self.is_dir(parent_ino) {
            return Err(VfsError::NotDirectory);
        }
        if self.lookup_ino(parent_ino, name).is_some() {
            return Err(VfsError::AlreadyExists);
        }
        proof {
            lemma_new_name_coherent(self.state(), (parent_ino, name@));
        }
        let size: i64 = target.as_bytes().len() as i64;
        let row = Self::new_row(DEFAULT_SYMLINK_MODE, 1, uid, gid, size, now);
        match self.db.create_inode(row) {
            Ok(ino) => {
                self.db.put_symlink(ino, target);
                self.db.put_dentry(parent_ino, name, ino);
                match self.db.attr(ino) {
                    Some(a) => Ok(a),
                    None => Err(VfsError::NotFound),
                }
            },
            Err(e) => Err(e),
        }
    }

    /// Makes a symbolic link.
    pub fn symlink(&mut self, parent_ino: u64, name: &str, target: &str, uid: u32, gid: u32) -> (r:
        VfsResult<FileAttr>)
        requires
            old(self).wf(),
        ensures
            final(self).follows(*old(self)),
            exists|now: Timestamp|
                (final(self).state(), outcome(r)) == #[trigger] symlink_made(
                    old(self).state(),
                    parent_ino,
                    name@,
                    target@,
                    uid,
                    gid,
                    now,
                ),
    {
        let now = Timestamp::now();
        self.symlink_at(parent_ino, name, target, uid, gid, now)
    }

    /// Gives a file one more name.
    pub fn link(&mut self, ino: u64, new_parent_ino: u64, new_name: &str) -> (r: VfsResult<
        FileAttr,
    >)
        requires
            old(self).wf(),
        ensures
            final(self).follows(*old(self)),
            (final(self).state(), outcome(r)) == linked(
                old(self).state(),
                ino,
                new_parent_ino,
                new_name@,
            ),
    {
        let row = match self.db.inode(ino) {
            Some(row) => row,
            None => {
                return Err(VfsError::NotFound);
            },
        };
        if self.is_dir(ino) {
            return Err(VfsError::IsDirectory);
        }
        proof {
            lemma_forgotten_coherent(self.state(), (new_parent_ino, new_name@));
        }
        self.db.put_dentry(new_parent_ino, new_name, ino);
        let key = (new_parent_ino, copy_text(new_name));
        cache_pop(&mut self.dentry_cache, &key);
        let nlink: i64 = if row.nlink < i64::MAX {
            row.nlink + 1
        } else {
            row.nlink
        };
        self.db.put_inode(ino, InodeRow { nlink, ..row });
        match self.db.attr(ino) {
            Some(a) => Ok(a),
            None => Err(VfsError::NotFound),
        }
    }

    /// Moves a name when the time is `ms` epoch milliseconds.
    pub fn rename_at(
        &mut self,
        old_parent_ino: u64,
        old_name: &str,
        new_parent_ino: u64,
        new_name: &str,
        ms: i64,
    ) -> (r: VfsResult<()>)
        requires
            old(self).wf(),
        ensures
            final(self).follows(*old(self)),
            (final(self).state(), outcome(r)) == renamed(
                old(self).state(),
                old_parent_ino,
                old_name@,
                new_parent_ino,
                new_name@,
                ms,
            ),
    {
        let ino: u64 = match self.lookup_ino(old_parent_ino, old_name) {
            Some(ino) => ino,
            None => {
                return Err(VfsError::NotFound);
            },
        };
        self.drop_name(old_parent_ino, old_name);
        match self.lookup_ino(new_parent_ino, new_name) {
            Some(dst) => {
                self.drop_name(new_parent_ino, new_name);
                self.decr_nlink_and_maybe_remove(dst);
            },
            None => {},
        }
        match self.db.get_remote_path(ino) {
            Some(path) => {
                let _ = self.db.push_queue_upsert(
                    path.as_str(),
                    PushOp::Rename,
                    None,
                    Some(new_name),
                    ms,
                );
            },
            None => {},
        }
        proof {
            lemma_new_name_coherent(self.state(), (new_parent_ino, new_name@));
        }
        self.db.put_dentry(new_parent_ino, new_name, ino);
        Ok(())
    }

    /// Moves a name.
    pub fn rename(
        &mut self,
        old_parent_ino: u64,
        old_name: &str,
        new_parent_ino: u64,
        new_name: &str,
    ) -> (r: VfsResult<()>)
        requires
            old(self).wf(),
        ensures
            final(self).follows(*old(self)),
            exists|ms: i64|
                (final(self).state(), outcome(r)) == #[trigger] renamed(
                    old(self).state(),
                    old_parent_ino,
                    old_name@,
                    new_parent_ino,
                    new_name@,
                    ms,
                ),
    {
        let ms: i64 = now_ms();
        self.rename_at(old_parent_ino, old_name, new_parent_ino, new_name, ms)
    }

    /// Filesystem-wide statistics.
    pub fn statfs(&self) -> (r: VfsResult<FilesystemStats>)
        requires
            self.wf(),
        ensures
            r == Ok::<FilesystemStats, VfsError>(stats_of(self.state().t)),
    {
        Ok(self.db.stats())
    }
}

/// A lookup that is cached says what the tables say.
proof fn lemma_cached_lookup(s: FsState, parent: u64, name: Seq<char>)
    requires
        coherent(s),
    ensures
        cached_ino(s.cache, (parent, name)) matches Some(ino) ==> s.t.dentries.contains_pair(
            (parent, name),
            ino,
        ),
{
    lemma_cached(s.cache, (parent, name));
    if cached_ino(s.cache, (parent, name)) is Some {
        let x = ((parent, name), cached_ino(s.cache, (parent, name))->0);
        let i = choose|i: int| 0 <= i < s.cache.len() && s.cache[i] == x;
        assert(s.t.dentries.contains_pair(s.cache[i].0, s.cache[i].1));
    }
}

/// A lookup keeps the cached ones coherent.
proof fn lemma_lookup_coherent(s: FsState, parent: u64, name: Seq<char>)
    requires
        coherent(s),
    ensures
        coherent(looked_up(s, parent, name).0),
{
    let k = (parent, name);
    if s.t.dentries.contains_key(k) {
        let ino = s.t.dentries[k];
        let cache = used(s.cache, DENTRY_CACHE_MAX as nat, k, ino);
        lemma_used(s.cache, DENTRY_CACHE_MAX as nat, k, ino);
        assert forall|i: int| 0 <= i < cache.len() implies s.t.dentries.contains_pair(
            (#[trigger] cache[i]).0,
            cache[i].1,
        ) by {
            let x = cache[i];
            if x != (k, ino) {
                let j = choose|j: int| 0 <= j < s.cache.len() && s.cache[j] == x;
                assert(s.t.dentries.contains_pair(s.cache[j].0, s.cache[j].1));
            }
        }
    }
}

/// Without the lookup of a name, the cached ones stay coherent when the name
/// goes or gets another inode.
proof fn lemma_forgotten_coherent(s: FsState, k: (u64, Seq<char>))
    requires
        coherent(s),
    ensures
        all_are_entries(without_key(s.cache, k), s.t.dentries.remove(k)),
        forall|ino: u64|
            all_are_entries(without_key(s.cache, k), #[trigger] s.t.dentries.insert(k, ino)),
{
    let cache = without_key(s.cache, k);
    lemma_without_key(s.cache, k);
    assert forall|i: int| 0 <= i < cache.len() implies s.t.dentries.contains_pair(
        (#[trigger] cache[i]).0,
        cache[i].1,
    ) && cache[i].0 != k by {
        let x = cache[i];
        let j = choose|j: int| 0 <= j < s.cache.len() && s.cache[j] == x;
        assert(s.t.dentries.contains_pair(s.cache[j].0, s.cache[j].1));
    }
}

/// A name that was free leaves the cached lookups coherent.
proof fn lemma_new_name_coherent(s: FsState, k: (u64, Seq<char>))
    requires
        coherent(s),
        !s.t.dentries.contains_key(k),
    ensures
        forall|ino: u64| all_are_entries(s.cache, #[trigger] s.t.dentries.insert(k, ino)),
{
    assert forall|ino: u64| all_are_entries(s.cache, #[trigger] s.t.dentries.insert(k, ino)) by {
        let d = s.t.dentries.insert(k, ino);
        assert forall|i: int| 0 <= i < s.cache.len() implies d.contains_pair(
            (#[trigger] s.cache[i]).0,
            s.cache[i].1,
        ) by {
            assert(s.t.dentries.contains_pair(s.cache[i].0, s.cache[i].1));
        }
    }
}

/// A name is among the entries after one more if it was before or is the new
/// one's.
proof fn lemma_lists_name_push(
    list: Seq<(Seq<char>, FileAttr)>,
    e: (Seq<char>, FileAttr),
    name: Seq<char>,
)
    ensures
        lists_name(list.push(e), name) == (lists_name(list, name) || e.0 == name),
{
    let after = list.push(e);
    if lists_name(list, name) {
        let i = choose|i: int| 0 <= i < list.len() && (#[trigger] list[i]).0 == name;
        assert(after[i].0 == name);
    }
    assert(after[list.len() as int] == e);
    if lists_name(after, name) && e.0 != name {
        let i = choose|i: int| 0 <= i < after.len() && (#[trigger] after[i]).0 == name;
        assert(list[i].0 == name);
    }
}

/// A walk that failed on the way has failed.
proof fn lemma_prefix_failure(
    s: FsState,
    parts: Seq<Seq<char>>,
    n: int,
    uid: u32,
    gid: u32,
    now: Timestamp,
)
    requires
        0 <= n <= parts.len(),
    ensures
        dirs_made(s, parts.take(n), uid, gid, now).1 is Err ==> dirs_made(s, parts, uid, gid, now)
            == dirs_made(s, parts.take(n), uid, gid, now),
    decreases parts.len() - n,
{
    if n < parts.len() {
        lemma_prefix_failure(s, parts, n + 1, uid, gid, now);
        assert(parts.take(n + 1).drop_last() =~= parts.take(n));
    } else {
        assert(parts.take(n) =~= parts);
    }
}

/// Where a part of a path leads nowhere, the path does.
proof fn lemma_leads_nowhere(
    dentries: Map<(u64, Seq<char>), u64>,
    parts: Seq<Seq<char>>,
    n: int,
)
    requires
        0 <= n <= parts.len(),
    ensures
        leads_to(dentries, parts.take(n)) is None ==> leads_to(dentries, parts) is None,
    decreases parts.len() - n,
{
    if n < parts.len() {
        assert(parts.take(n + 1).drop_last() =~= parts.take(n));
        lemma_leads_nowhere(dentries, parts, n + 1);
    } else {
        assert(parts.take(n) =~= parts);
    }
}

/// A walk that lost its way on the way has lost it.
proof fn lemma_walk_failure(s: FsState, parts: Seq<Seq<char>>, n: int)
    requires
        0 <= n <= parts.len(),
    ensures
        walked(s, parts.take(n)).1 is None ==> walked(s, parts) == walked(s, parts.take(n)),
    decreases parts.len() - n,
{
    if n < parts.len() {
        lemma_walk_failure(s, parts, n + 1);
        assert(parts.take(n + 1).drop_last() =~= parts.take(n));
    } else {
        assert(parts.take(n) =~= parts);
    }
}

} // verus!
