//! What holds of the cached filesystem across its operations.

use super::db::ROOT_INO;
use super::file::{holds, lemma_same_content};
use super::fs::{
    attrs_set, chunks_stored, components, content_stored, deletion_applied, dir_removed, dirs_made,
    doc_at, doc_file, doc_parent, doc_upserted, edit_kept, entry_made, file_made, hydrated,
    inode_made, is_dir, keeps_local_edit, leads_to, linked, looked_up, name_too_long, parent_part,
    path_dirs_made, renamed, unlinked, walked, write_enqueued, FsState,
};
use super::handle::{mount_written, push_path};
use super::model::{
    attr, byte_at, dentry_of, dirty_since, fresh_remote, fresh_row, ino_by_remote_path,
    ino_for_remote_id, lemma_least, remote_path,
};
use super::profile::PROFILE_INO;
use super::queue::{is_noise, op_text, PushOp};
use super::rows::{changed, ChangeView, InodeRow, Tables, MAX_INO};
use super::sound::{lemma_entry_sound, lemma_same_shape, sound};
use crate::api::dto::BrainDocument;
use crate::api::error::ApiError;
use crate::text::{drop_front, is_char, lemma_pieces_nonempty, lemma_split_joined, pieces};
use crate::vfs::error::VfsErrorView;
use crate::vfs::mode::{
    lemma_with_permissions, with_permissions, DEFAULT_DIR_MODE, DEFAULT_FILE_MODE,
};
use crate::vfs::path::nonempty;
use crate::vfs::types::{requested_time, type_of_mode, SetAttr, Timestamp};
use vstd::prelude::*;

verus! {

// ── Names and inodes ────────────────────────────────────────────────────────

/// What was there in `a` is there in `b`.
pub open spec fn extends_entries(
    a: Map<(u64, Seq<char>), u64>,
    b: Map<(u64, Seq<char>), u64>,
) -> bool {
    forall|k: (u64, Seq<char>)| #[trigger] a.contains_key(k) ==> b.contains_pair(k, a[k])
}

/// Every inode of `a` is as it was, and nothing but inodes and directory entries
/// is different.
pub open spec fn only_adds(a: Tables, b: Tables) -> bool {
    &&& extends_entries(a.dentries, b.dentries)
    &&& forall|ino: u64| #[trigger]
        a.inodes.contains_key(ino) ==> b.inodes.contains_pair(ino, a.inodes[ino])
    &&& b.chunks == a.chunks
    &&& b.symlinks == a.symlinks
    &&& b.remotes == a.remotes
    &&& b.queue == a.queue
    &&& b.meta == a.meta
}

proof fn lemma_walked(s: FsState, parts: Seq<Seq<char>>)
    ensures
        walked(s, parts).1 == leads_to(s.t.dentries, parts),
        walked(s, parts).0.t == s.t,
    decreases parts.len(),
{
    if parts.len() > 0 {
        lemma_walked(s, parts.drop_last());
    }
}

proof fn lemma_leads_on(
    a: Map<(u64, Seq<char>), u64>,
    b: Map<(u64, Seq<char>), u64>,
    parts: Seq<Seq<char>>,
)
    requires
        extends_entries(a, b),
        leads_to(a, parts) is Some,
    ensures
        leads_to(b, parts) == leads_to(a, parts),
    decreases parts.len(),
{
    if parts.len() > 0 {
        lemma_leads_on(a, b, parts.drop_last());
        let ino = leads_to(a, parts.drop_last())->0;
        if parts.last().len() > 0 {
            assert(a.contains_key((ino, parts.last())));
        }
    }
}

/// A path leads to inodes that are there.
proof fn lemma_leads_to_inode(t: Tables, parts: Seq<Seq<char>>)
    requires
        sound(t),
        leads_to(t.dentries, parts) is Some,
    ensures
        t.inodes.contains_key(leads_to(t.dentries, parts)->0),
    decreases parts.len(),
{
    if parts.len() > 0 {
        lemma_leads_to_inode(t, parts.drop_last());
        let ino = leads_to(t.dentries, parts.drop_last())->0;
        if parts.last().len() > 0 {
            assert(t.dentries.contains_key((ino, parts.last())));
        }
    }
}

/// A new entry under a name that was free.
proof fn lemma_entry_made(s: FsState, parent: u64, name: Seq<char>, row: InodeRow)
    requires
        sound(s.t),
        s.t.inodes.contains_key(parent),
        !s.t.dentries.contains_key((parent, name)),
        row.nlink >= 1,
    ensures
        sound(entry_made(s, parent, name, row).0.t),
        only_adds(s.t, entry_made(s, parent, name, row).0.t),
        match entry_made(s, parent, name, row).1 {
            Ok(ino) => ino == s.t.next_ino && !s.t.inodes.contains_key(ino) && entry_made(
                s,
                parent,
                name,
                row,
            ).0.t.inodes.contains_pair(ino, row) && entry_made(s, parent, name, row).0.t.dentries
                == s.t.dentries.insert((parent, name), ino),
            Err(_) => entry_made(s, parent, name, row).0 == s,
        },
{
    lemma_entry_sound(s, parent, name, row);
}

/// Directories that are made are found.
pub proof fn lemma_dirs_made(s: FsState, parts: Seq<Seq<char>>, uid: u32, gid: u32, now: Timestamp)
    requires
        sound(s.t),
    ensures
        sound(dirs_made(s, parts, uid, gid, now).0.t),
        only_adds(s.t, dirs_made(s, parts, uid, gid, now).0.t),
        dirs_made(s, parts, uid, gid, now).1 matches Ok(ino) ==> leads_to(
            dirs_made(s, parts, uid, gid, now).0.t.dentries,
            parts,
        ) == Some(ino) && (dirs_made(s, parts, uid, gid, now).0.t == s.t || forall|n: Seq<char>|
            !#[trigger] dirs_made(s, parts, uid, gid, now).0.t.dentries.contains_key((ino, n))),
    decreases parts.len(),
{
    if parts.len() > 0 {
        lemma_dirs_made(s, parts.drop_last(), uid, gid, now);
        let (s1, r1) = dirs_made(s, parts.drop_last(), uid, gid, now);
        if r1 is Ok && parts.last().len() > 0 {
            let parent = r1->Ok_0;
            lemma_leads_to_inode(s1.t, parts.drop_last());
            let (s2, found) = looked_up(s1, parent, parts.last());
            if found is None {
                let row = fresh_row(DEFAULT_DIR_MODE, 2, uid, gid, 0, now);
                lemma_entry_made(s2, parent, parts.last(), row);
                let (s3, r3) = entry_made(s2, parent, parts.last(), row);
                lemma_leads_on(s2.t.dentries, s3.t.dentries, parts.drop_last());
                assert(only_adds(s.t, s3.t));
            }
        }
    }
}

/// Where all directories are there, none is made.
proof fn lemma_dirs_there(s: FsState, parts: Seq<Seq<char>>, uid: u32, gid: u32, now: Timestamp)
    requires
        leads_to(s.t.dentries, parts) is Some,
    ensures
        dirs_made(s, parts, uid, gid, now).1 == Ok::<u64, VfsErrorView>(
            leads_to(s.t.dentries, parts)->0,
        ),
        dirs_made(s, parts, uid, gid, now).0.t == s.t,
    decreases parts.len(),
{
    if parts.len() > 0 {
        lemma_dirs_there(s, parts.drop_last(), uid, gid, now);
        let (s1, r1) = dirs_made(s, parts.drop_last(), uid, gid, now);
        if parts.last().len() > 0 {
        }
    }
}

// ── Paths ───────────────────────────────────────────────────────────────────

/// Parts that are empty lead nowhere else.
proof fn lemma_leads_nonempty(dentries: Map<(u64, Seq<char>), u64>, parts: Seq<Seq<char>>)
    ensures
        leads_to(dentries, parts) == leads_to(dentries, nonempty(parts)),
    decreases parts.len(),
{
    if parts.len() > 0 {
        let f = parts.drop_last();
        lemma_leads_nonempty(dentries, f);
        if parts.last().len() > 0 {
            assert(nonempty(parts).drop_last() =~= nonempty(f));
        }
    }
}

/// A separator at the front begins with an empty piece.
proof fn lemma_pieces_front(s: Seq<char>, c: char)
    requires
        s.len() > 0,
        s[0] == c,
    ensures
        pieces(s, c) == seq![Seq::<char>::empty()] + pieces(s.skip(1), c),
    decreases s.len(),
{
    let e = seq![Seq::<char>::empty()];
    let t = s.skip(1);
    lemma_pieces_nonempty(t, c);
    if s.len() == 1 {
        assert(s.drop_last() =~= Seq::<char>::empty());
        assert(t =~= Seq::<char>::empty());
        assert(pieces(s, c) =~= e + pieces(t, c));
    } else {
        lemma_pieces_front(s.drop_last(), c);
        lemma_pieces_nonempty(t.drop_last(), c);
        assert(s.drop_last().skip(1) =~= t.drop_last());
        assert(s.last() == t.last());
        let before = pieces(t.drop_last(), c);
        assert((e + before).last() == before.last());
        assert(pieces(s, c) =~= e + pieces(t, c));
    }
}

proof fn lemma_nonempty_front(parts: Seq<Seq<char>>)
    ensures
        nonempty(seq![Seq::<char>::empty()] + parts) == nonempty(parts),
    decreases parts.len(),
{
    let e = seq![Seq::<char>::empty()];
    if parts.len() == 0 {
        assert(e + parts =~= e);
        assert(e.drop_last() =~= Seq::<Seq<char>>::empty());
        assert(nonempty(e) == nonempty(e.drop_last()));
    } else {
        assert((e + parts).drop_last() =~= e + parts.drop_last());
        lemma_nonempty_front(parts.drop_last());
    }
}

/// Slashes at the front of a path change neither its last piece nor which of
/// its pieces are not empty.
pub proof fn lemma_components(path: Seq<char>)
    ensures
        components(path).len() > 0,
        components(path).last() == pieces(path, '/').last(),
        nonempty(components(path)) == nonempty(pieces(path, '/')),
        nonempty(components(path).drop_last()) == nonempty(pieces(path, '/').drop_last()),
    decreases path.len(),
{
    lemma_pieces_nonempty(drop_front(path, is_char('/')), '/');
    if path.len() > 0 && path[0] == '/' {
        let t = path.skip(1);
        let e = seq![Seq::<char>::empty()];
        lemma_components(t);
        lemma_pieces_nonempty(t, '/');
        lemma_pieces_front(path, '/');
        assert(components(path) == components(t));
        lemma_nonempty_front(pieces(t, '/'));
        assert((e + pieces(t, '/')).drop_last() =~= e + pieces(t, '/').drop_last());
        lemma_nonempty_front(pieces(t, '/').drop_last());
        assert((e + pieces(t, '/')).last() == pieces(t, '/').last());
    }
}

/// A document goes where the directories of its path lead.
pub proof fn lemma_doc_parent(s: FsState, path: Seq<char>)
    ensures
        doc_parent(s, path).0.t == s.t,
        doc_parent(s, path).1 == (match leads_to(s.t.dentries, components(path).drop_last()) {
            Some(ino) => ino,
            None => ROOT_INO,
        }),
{
    let d = s.t.dentries;
    let front = pieces(path, '/').drop_last();
    let parent = parent_part(path);
    lemma_pieces_nonempty(path, '/');
    lemma_components(path);
    lemma_leads_nonempty(d, components(path).drop_last());
    if front.len() == 0 {
        assert(front =~= Seq::empty());
        assert(parent =~= Seq::empty());
        assert(leads_to(d, nonempty(front)) == Some(ROOT_INO));
    } else {
        assert forall|i: int| 0 <= i < front.len() implies !#[trigger] front[i].contains('/') by {
            assert(front[i] == pieces(path, '/')[i]);
        }
        lemma_split_joined(front, '/');
        assert(pieces(parent, '/') == front);
        if parent.len() == 0 {
            assert(parent =~= Seq::<char>::empty());
            assert(front =~= seq![Seq::<char>::empty()]);
            assert(front.drop_last() =~= Seq::<Seq<char>>::empty());
            assert(nonempty(front) == nonempty(front.drop_last()));
            assert(leads_to(d, nonempty(front)) == Some(ROOT_INO));
        } else {
            lemma_components(parent);
            lemma_leads_nonempty(d, components(parent));
            lemma_walked(s, components(parent));
        }
    }
}

// ── Documents ───────────────────────────────────────────────────────────────

/// The path names a document: it does not end with a slash.
pub open spec fn names_document(path: Seq<char>) -> bool {
    pieces(path, '/').last().len() > 0
}

pub proof fn lemma_content_stored(t: Tables, ino: u64, content: Seq<u8>, now: Timestamp)
    requires
        t.inodes.contains_key(ino),
        content.len() <= i64::MAX,
    ensures
        holds(content_stored(t, ino, content, now), ino, content),
{
    let t1 = content_stored(t, ino, content, now);
    assert(t1.chunks == chunks_stored(t.chunks, ino, content, content.len() as int));
    assert forall|p: int| 0 <= p < content.len() implies byte_at(t1.chunks, ino, p) == content[p] by {
        let k = (ino, (p / 4096) as u64);
        assert(k.1 == p / 4096);
        assert(t1.chunks.contains_key(k));
    }
    assert(super::model::content(t1, ino) =~= content);
}

/// What finding or making the file of a document does.
proof fn lemma_doc_file(s: FsState, path: Seq<char>, uid: u32, gid: u32, now: Timestamp)
    requires
        sound(s.t),
        names_document(path),
        leads_to(s.t.dentries, components(path).drop_last()) is Some,
    ensures
        sound(doc_file(s, path, uid, gid, now).0.t),
        doc_file(s, path, uid, gid, now).1 matches Ok(ino) ==> {
            let t = doc_file(s, path, uid, gid, now).0.t;
            &&& leads_to(t.dentries, components(path)) == Some(ino)
            &&& t.inodes.contains_key(ino)
            &&& extends_entries(s.t.dentries, t.dentries)
            &&& forall|o: u64| #[trigger]
                s.t.inodes.contains_key(o) ==> t.inodes.contains_pair(o, s.t.inodes[o])
            &&& t.chunks == s.t.chunks
            &&& t.queue == s.t.queue
            &&& t.meta == s.t.meta
            &&& t.symlinks == s.t.symlinks
            &&& match leads_to(s.t.dentries, components(path)) {
                Some(there) => ino == there && t == s.t,
                None => !s.t.inodes.contains_key(ino) && t.remotes == s.t.remotes.insert(
                    ino,
                    fresh_remote(path),
                ),
            }
        },
{
    let name = pieces(path, '/').last();
    let parts = components(path);
    lemma_components(path);
    lemma_leads_to_inode(s.t, parts.drop_last());
    lemma_doc_parent(s, path);
    let (s1, parent) = doc_parent(s, path);
    let (s2, found) = looked_up(s1, parent, name);
    assert(leads_to(s.t.dentries, parts) == s.t.dentries.get((parent, name)));
    if found is None {
        let row = fresh_row(DEFAULT_FILE_MODE, 1, uid, gid, 0, now);
        lemma_entry_made(s2, parent, name, row);
        let (s3, r) = entry_made(s2, parent, name, row);
        if r is Ok {
            lemma_leads_on(s2.t.dentries, s3.t.dentries, parts.drop_last());
        }
    } else {
        assert(s.t.dentries.contains_key((parent, name)));
    }
}

/// A document that is upserted can be found by walking its path, and its file
/// holds the content.
pub proof fn law_upserted_doc_is_stored(
    s: FsState,
    path: Seq<char>,
    content: Seq<u8>,
    uid: u32,
    gid: u32,
    now: Timestamp,
)
    requires
        sound(s.t),
        names_document(path),
        content.len() <= i64::MAX,
    ensures
        doc_upserted(s, path, content, uid, gid, now).1 matches Ok(ino) ==> {
            let after = doc_upserted(s, path, content, uid, gid, now).0;
            &&& leads_to(after.t.dentries, components(path)) == Some(ino)
            &&& holds(after.t, ino, content)
            &&& sound(after.t)
        },
{
    lemma_upserted(s, path, content, uid, gid, now);
}

proof fn lemma_upserted(
    s: FsState,
    path: Seq<char>,
    content: Seq<u8>,
    uid: u32,
    gid: u32,
    now: Timestamp,
)
    requires
        sound(s.t),
        names_document(path),
        content.len() <= i64::MAX,
    ensures
        doc_upserted(s, path, content, uid, gid, now).1 matches Ok(ino) ==> {
            let after = doc_upserted(s, path, content, uid, gid, now).0;
            &&& sound(after.t)
            &&& leads_to(after.t.dentries, components(path)) == Some(ino)
            &&& holds(after.t, ino, content)
            &&& extends_entries(s.t.dentries, after.t.dentries)
            &&& forall|o: u64| #[trigger]
                s.t.inodes.contains_key(o) && o != ino ==> after.t.inodes.contains_pair(
                    o,
                    s.t.inodes[o],
                )
            &&& forall|o: u64, i: u64|
                o != ino ==> (#[trigger] after.t.chunks.contains_key((o, i))
                    == s.t.chunks.contains_key((o, i))) && (after.t.chunks.contains_key((o, i))
                    ==> after.t.chunks[(o, i)] == s.t.chunks[(o, i)])
            &&& after.t.queue == s.t.queue
            &&& after.t.meta == s.t.meta
            &&& after.t.symlinks == s.t.symlinks
            &&& match leads_to(s.t.dentries, components(path)) {
                Some(there) => ino == there && after.t.remotes == s.t.remotes
                    && after.t.dentries == s.t.dentries && after.t.inodes.dom()
                    == s.t.inodes.dom(),
                None => !s.t.inodes.contains_key(ino) && after.t.remotes == s.t.remotes.insert(
                    ino,
                    fresh_remote(path),
                ),
            }
        },
{
    let dirs = components(path).drop_last();
    lemma_components(path);
    lemma_dirs_made(s, dirs, uid, gid, now);
    let (s1, r1) = path_dirs_made(s, path, uid, gid, now);
    if r1 is Ok {
        lemma_doc_file(s1, path, uid, gid, now);
        let (s2, r2) = doc_file(s1, path, uid, gid, now);
        if r2 is Ok {
            let ino = r2->Ok_0;
            lemma_content_stored(s2.t, ino, content, now);
            let after = FsState { t: content_stored(s2.t, ino, content, now), ..s2 };
            assert(after == doc_upserted(s, path, content, uid, gid, now).0);
            assert forall|k: (u64, Seq<char>)| #[trigger]
                after.t.dentries.contains_key(k) implies after.t.inodes.contains_key(
                after.t.dentries[k],
            ) by {
                assert(s2.t.dentries.contains_key(k));
            }
            assert(extends_entries(s.t.dentries, after.t.dentries));
            if leads_to(s.t.dentries, components(path)) is Some {
                let there = leads_to(s.t.dentries, components(path))->0;
                lemma_dirs_there(s, dirs, uid, gid, now);
                assert(s1.t == s.t);
                assert(after.t.inodes.dom() =~= s.t.inodes.dom());
            }
            assert forall|o: u64| #[trigger]
                s.t.inodes.contains_key(o) && o != ino implies after.t.inodes.contains_pair(
                o,
                s.t.inodes[o],
            ) by {
                assert(s1.t.inodes.contains_pair(o, s.t.inodes[o]));
                assert(s2.t.inodes.contains_pair(o, s1.t.inodes[o]));
            }
        }
    }
}

/// Upserting a document keeps the tables sound, whether it succeeds or not.
pub proof fn law_upsert_keeps_tables_sound(
    s: FsState,
    path: Seq<char>,
    content: Seq<u8>,
    uid: u32,
    gid: u32,
    now: Timestamp,
)
    requires
        sound(s.t),
    ensures
        sound(doc_upserted(s, path, content, uid, gid, now).0.t),
{
    let dirs = components(path).drop_last();
    let name = pieces(path, '/').last();
    lemma_dirs_made(s, dirs, uid, gid, now);
    let (s1, r1) = path_dirs_made(s, path, uid, gid, now);
    if r1 is Ok {
        lemma_doc_parent(s1, path);
        lemma_leads_to_inode(s1.t, dirs);
        let (s2, parent) = doc_parent(s1, path);
        let (s3, found) = looked_up(s2, parent, name);
        let (s4, r4) = doc_file(s1, path, uid, gid, now);
        if found is None {
            let row = fresh_row(DEFAULT_FILE_MODE, 1, uid, gid, 0, now);
            lemma_entry_made(s3, parent, name, row);
            lemma_same_shape(entry_made(s3, parent, name, row).0.t, s4.t);
        }
        if r4 is Ok {
            lemma_same_shape(s4.t, content_stored(s4.t, r4->Ok_0, content, now));
        }
    }
}

/// Upserting a document leaves every other file as it is, and queues nothing.
pub proof fn law_upsert_keeps_other_files(
    s: FsState,
    path: Seq<char>,
    content: Seq<u8>,
    uid: u32,
    gid: u32,
    now: Timestamp,
    other: u64,
    f: Seq<u8>,
)
    requires
        sound(s.t),
        names_document(path),
        content.len() <= i64::MAX,
        holds(s.t, other, f),
        doc_upserted(s, path, content, uid, gid, now).1 is Ok,
        doc_upserted(s, path, content, uid, gid, now).1->Ok_0 != other,
    ensures
        holds(doc_upserted(s, path, content, uid, gid, now).0.t, other, f),
        doc_upserted(s, path, content, uid, gid, now).0.t.inodes[other] == s.t.inodes[other],
        doc_upserted(s, path, content, uid, gid, now).0.t.queue == s.t.queue,
{
    lemma_upserted(s, path, content, uid, gid, now);
    let t = doc_upserted(s, path, content, uid, gid, now).0.t;
    assert(s.t.inodes.contains_key(other));
    assert(t.inodes.contains_pair(other, s.t.inodes[other]));
    assert forall|i: u64| #[trigger] t.chunks.get((other, i)) == s.t.chunks.get((other, i)) by {
        assert(t.chunks.contains_key((other, i)) == s.t.chunks.contains_key((other, i)));
    }
    lemma_same_content(s.t, t, other);
}

/// Upserting a document leaves every file but the one that it is stored in as it
/// is, whether it succeeds or not.
pub proof fn lemma_upsert_spares(
    s: FsState,
    path: Seq<char>,
    content: Seq<u8>,
    uid: u32,
    gid: u32,
    now: Timestamp,
    other: u64,
)
    requires
        sound(s.t),
        s.t.inodes.contains_key(other),
        doc_at(s.t, path) != Some(other),
    ensures
        ({
            let (after, r) = doc_upserted(s, path, content, uid, gid, now);
            &&& r != Ok::<u64, VfsErrorView>(other)
            &&& after.t.inodes.contains_pair(other, s.t.inodes[other])
            &&& super::model::content(after.t, other) == super::model::content(s.t, other)
        }),
{
    let dirs = components(path).drop_last();
    let name = pieces(path, '/').last();
    lemma_components(path);
    lemma_dirs_made(s, dirs, uid, gid, now);
    let (s1, r1) = path_dirs_made(s, path, uid, gid, now);
    let after = doc_upserted(s, path, content, uid, gid, now).0;
    assert(s1.t.inodes.contains_pair(other, s.t.inodes[other]));
    if r1 is Ok {
        lemma_doc_parent(s1, path);
        lemma_leads_to_inode(s1.t, dirs);
        let (s2, parent) = doc_parent(s1, path);
        let (s3, found) = looked_up(s2, parent, name);
        assert(parent == r1->Ok_0);
        if found is None {
            let row = fresh_row(DEFAULT_FILE_MODE, 1, uid, gid, 0, now);
            lemma_entry_made(s3, parent, name, row);
        } else {
            assert(s1.t.dentries.contains_key((parent, name)));
            assert(s1.t == s.t);
        }
        assert forall|i: u64| #[trigger]
            after.t.chunks.get((other, i)) == s.t.chunks.get((other, i)) by {}
    }
    lemma_same_content(s.t, after.t, other);
}

/// A reply of the brain for a path keeps every local edit that is not older than
/// the document in it: the content of the file and its mark stay.
pub proof fn law_edits_survive_hydration(
    s: FsState,
    path: Seq<char>,
    reply: Result<BrainDocument, ApiError>,
    uid: u32,
    gid: u32,
    now: Timestamp,
    ino: u64,
)
    requires
        sound(s.t),
        reply matches Ok(doc) ==> keeps_local_edit(s.t, ino, doc.updated_at@),
    ensures
        ({
            let after = hydrated(s, path, reply, uid, gid, now).0.t;
            &&& super::model::content(after, ino) == super::model::content(s.t, ino)
            &&& dirty_since(after, ino) == dirty_since(s.t, ino)
        }),
{
    match reply {
        Ok(doc) => {
            if !edit_kept(s.t, path, doc.updated_at@) {
                lemma_upsert_spares(
                    s,
                    path,
                    super::fs::body_bytes(doc),
                    uid,
                    gid,
                    now,
                    ino,
                );
            }
        },
        Err(_) => {},
    }
}

/// Upserting a document again finds the same file, which then holds the new
/// content. No inode, directory entry or record of a document is added.
pub proof fn law_upsert_is_idempotent(
    s: FsState,
    path: Seq<char>,
    first: Seq<u8>,
    second: Seq<u8>,
    uid: u32,
    gid: u32,
    now: Timestamp,
    later: Timestamp,
)
    requires
        sound(s.t),
        names_document(path),
        first.len() <= i64::MAX,
        second.len() <= i64::MAX,
        doc_upserted(s, path, first, uid, gid, now).1 is Ok,
    ensures
        ({
            let (s1, r1) = doc_upserted(s, path, first, uid, gid, now);
            let (s2, r2) = doc_upserted(s1, path, second, uid, gid, later);
            &&& r2 == r1
            &&& holds(s2.t, r1->Ok_0, second)
            &&& s2.t.inodes.dom() == s1.t.inodes.dom()
            &&& s2.t.dentries == s1.t.dentries
            &&& s2.t.remotes == s1.t.remotes
        }),
{
    lemma_upserted(s, path, first, uid, gid, now);
    let (s1, r1) = doc_upserted(s, path, first, uid, gid, now);
    lemma_upserted(s1, path, second, uid, gid, later);
    let parts = components(path);
    lemma_components(path);
    lemma_dirs_there(s1, parts.drop_last(), uid, gid, later);
    let (a, ra) = path_dirs_made(s1, path, uid, gid, later);
    lemma_doc_parent(a, path);
    let (b, parent) = doc_parent(a, path);
}

/// Documents whose paths lead to different files get different inodes: a
/// document that is new gets one that nothing had.
pub proof fn law_new_doc_gets_new_inode(
    s: FsState,
    path: Seq<char>,
    content: Seq<u8>,
    uid: u32,
    gid: u32,
    now: Timestamp,
)
    requires
        sound(s.t),
        names_document(path),
        content.len() <= i64::MAX,
        leads_to(s.t.dentries, components(path)) is None,
        doc_upserted(s, path, content, uid, gid, now).1 is Ok,
    ensures
        !s.t.inodes.contains_key(doc_upserted(s, path, content, uid, gid, now).1->Ok_0),
{
    lemma_upserted(s, path, content, uid, gid, now);
}

/// A document that is new is on record, and is found by its path.
pub proof fn law_new_doc_is_on_record(
    s: FsState,
    path: Seq<char>,
    content: Seq<u8>,
    uid: u32,
    gid: u32,
    now: Timestamp,
)
    requires
        sound(s.t),
        names_document(path),
        content.len() <= i64::MAX,
        leads_to(s.t.dentries, components(path)) is None,
        ino_by_remote_path(s.t, path) is None,
        doc_upserted(s, path, content, uid, gid, now).1 is Ok,
    ensures
        ({
            let (after, r) = doc_upserted(s, path, content, uid, gid, now);
            &&& ino_by_remote_path(after.t, path) == Some(r->Ok_0)
            &&& after.t.remotes == s.t.remotes.insert(r->Ok_0, fresh_remote(path))
        }),
{
    lemma_upserted(s, path, content, uid, gid, now);
    let (after, r) = doc_upserted(s, path, content, uid, gid, now);
    let ino = r->Ok_0;
    let was = |i: u64| remote_path(s.t, i) == Some(path);
    let is = |i: u64| remote_path(after.t, i) == Some(path);
    assert(forall|i: u64| !#[trigger] was(i));
    assert forall|i: u64| #[trigger] is(i) implies ino <= i by {
        assert(!was(i));
    }
    assert(is(ino));
    lemma_least(is, Some(ino));
}

// ── Deletions ───────────────────────────────────────────────────────────────

/// A document that was deleted remotely leaves nothing behind, where its file
/// has no other name: no entry under the name, no inode, no content and no
/// record. Other files stay as they are.
pub proof fn law_deleted_doc_is_gone(s: FsState, id: Seq<char>)
    requires
        deletion_applied(s, id).1,
        s.t.inodes.contains_key(ino_for_remote_id(s.t, id)->0),
        s.t.inodes[ino_for_remote_id(s.t, id)->0].nlink <= 1,
    ensures
        ({
            let ino = ino_for_remote_id(s.t, id)->0;
            let name = dentry_of(s.t, ino)->0;
            let after = deletion_applied(s, id).0;
            &&& !after.t.inodes.contains_key(ino)
            &&& !after.t.remotes.contains_key(ino)
            &&& forall|i: u64| !#[trigger] after.t.chunks.contains_key((ino, i))
            &&& looked_up(after, name.0, name.1).1 is None
            &&& forall|o: u64|
                o != ino ==> #[trigger] after.t.inodes.contains_key(o) == s.t.inodes.contains_key(o)
                    && (after.t.inodes.contains_key(o) ==> after.t.inodes[o] == s.t.inodes[o])
            &&& forall|o: u64, i: u64|
                o != ino ==> #[trigger] after.t.chunks.contains_key((o, i))
                    == s.t.chunks.contains_key((o, i)) && (after.t.chunks.contains_key((o, i))
                    ==> after.t.chunks[(o, i)] == s.t.chunks[(o, i)])
        }),
{
}

/// A document that is not on record by its id is not deleted.
pub proof fn law_unknown_doc_is_not_deleted(s: FsState, id: Seq<char>)
    requires
        ino_for_remote_id(s.t, id) is None,
    ensures
        deletion_applied(s, id) == (s, false),
{
}

// ── Local changes ───────────────────────────────────────────────────────────

/// A file that is made is found under its name, with the attributes that were
/// answered.
pub proof fn law_made_file_is_found(
    s: FsState,
    parent: u64,
    name: Seq<char>,
    uid: u32,
    gid: u32,
    now: Timestamp,
)
    requires
        sound(s.t),
    ensures
        file_made(s, parent, name, uid, gid, now).1 matches Ok(a) ==> {
            let after = file_made(s, parent, name, uid, gid, now).0;
            &&& looked_up(after, parent, name).1 == Some(a.ino)
            &&& attr(after.t, a.ino) == Some(a)
            &&& sound(after.t)
        },
{
    let (s1, found) = looked_up(s, parent, name);
    if file_made(s, parent, name, uid, gid, now).1 is Ok && found is None {
        lemma_entry_made(s1, parent, name, fresh_row(DEFAULT_FILE_MODE, 1, uid, gid, 0, now));
    }
}

/// A name that is unlinked is gone: a lookup finds nothing, and other names lead
/// where they did.
pub proof fn law_unlinked_name_is_gone(s: FsState, parent: u64, name: Seq<char>, ms: i64)
    requires
        unlinked(s, parent, name, ms).1 is Ok,
    ensures
        looked_up(unlinked(s, parent, name, ms).0, parent, name).1 is None,
        forall|p: u64, n: Seq<char>|
            (p, n) != (parent, name) ==> (#[trigger] looked_up(
                unlinked(s, parent, name, ms).0,
                p,
                n,
            )).1 == looked_up(s, p, n).1,
{
}

/// A file that is made under a name that was unlinked is a new one.
pub proof fn law_unlinked_name_can_be_made_anew(
    s: FsState,
    parent: u64,
    name: Seq<char>,
    ms: i64,
    uid: u32,
    gid: u32,
    now: Timestamp,
)
    requires
        sound(s.t),
        unlinked(s, parent, name, ms).1 is Ok,
        is_dir(s.t, parent),
        !name_too_long(name),
        s.t.next_ino <= MAX_INO,
    ensures
        ({
            let (after, r) = file_made(
                unlinked(s, parent, name, ms).0,
                parent,
                name,
                uid,
                gid,
                now,
            );
            r matches Ok(a) && a.ino == s.t.next_ino && looked_up(after, parent, name).1 == Some(
                a.ino,
            )
        }),
{
}

/// A directory that is removed is gone.
pub proof fn law_removed_dir_is_gone(s: FsState, parent: u64, name: Seq<char>)
    requires
        dir_removed(s, parent, name).1 is Ok,
    ensures
        looked_up(dir_removed(s, parent, name).0, parent, name).1 is None,
{
}

/// A further name of a file leads to it, whatever had the name before.
pub proof fn law_linked_name_leads_to_file(s: FsState, ino: u64, parent: u64, name: Seq<char>)
    requires
        linked(s, ino, parent, name).1 is Ok,
    ensures
        looked_up(linked(s, ino, parent, name).0, parent, name).1 == Some(ino),
        linked(s, ino, parent, name).1->Ok_0.ino == ino,
{
}

/// The queue holds a request for `path`: as its job or, while that is under
/// way, as the one that follows it.
pub open spec fn is_queued(t: Tables, path: Seq<char>, op: PushOp, content_ino: Option<u64>) -> bool {
    t.queue.contains_key(path) && {
        ||| t.queue[path].op == op_text(op) && t.queue[path].content_ino == content_ino
        ||| t.queue[path].pending_op == Some(op_text(op)) && t.queue[path].pending_content_ino
            == content_ino
    }
}

/// Unlinking a file whose document is on record queues the deletion of the
/// document.
pub proof fn law_unlink_queues_deletion(s: FsState, parent: u64, name: Seq<char>, ms: i64)
    requires
        unlinked(s, parent, name, ms).1 is Ok,
        remote_path(s.t, s.t.dentries[(parent, name)]) is Some,
        !is_noise(remote_path(s.t, s.t.dentries[(parent, name)])->0),
    ensures
        is_queued(
            unlinked(s, parent, name, ms).0.t,
            remote_path(s.t, s.t.dentries[(parent, name)])->0,
            PushOp::Delete,
            None,
        ),
{
}

/// A file that is renamed is found by its new name, and its old name is gone: a
/// lookup of it finds nothing. Other names lead where they did.
pub proof fn law_renamed_file_has_new_name(
    s: FsState,
    old_parent: u64,
    old_name: Seq<char>,
    new_parent: u64,
    new_name: Seq<char>,
    ms: i64,
)
    requires
        renamed(s, old_parent, old_name, new_parent, new_name, ms).1 is Ok,
    ensures
        ({
            let after = renamed(s, old_parent, old_name, new_parent, new_name, ms).0;
            &&& looked_up(s, old_parent, old_name).1 is Some
            &&& looked_up(after, new_parent, new_name).1 == looked_up(s, old_parent, old_name).1
            &&& (old_parent, old_name) != (new_parent, new_name) ==> looked_up(
                after,
                old_parent,
                old_name,
            ).1 is None
            &&& forall|p: u64, n: Seq<char>|
                (p, n) != (old_parent, old_name) && (p, n) != (new_parent, new_name)
                    ==> (#[trigger] looked_up(after, p, n)).1 == looked_up(s, p, n).1
        }),
{
}

/// An attribute update keeps the file's type.
pub proof fn law_setattr_keeps_type(t: Tables, ino: u64, a: SetAttr, now: Timestamp)
    requires
        t.inodes.contains_key(ino),
    ensures
        attrs_set(t, ino, a, now).0.inodes.contains_key(ino),
        type_of_mode(attrs_set(t, ino, a, now).0.inodes[ino].mode) == type_of_mode(
            t.inodes[ino].mode,
        ),
{
    if a.mode is Some {
        lemma_with_permissions(t.inodes[ino].mode, a.mode->0);
    }
}

/// An attribute update is partial: what it names is set, what it does not name
/// stays, and nothing else but the time of the last change is different. A resize
/// leaves that one, too. Other inodes stay as they are.
pub proof fn law_setattr_is_partial(t: Tables, ino: u64, a: SetAttr, now: Timestamp)
    requires
        t.inodes.contains_key(ino),
        a.size matches Some(size) ==> size <= i64::MAX,
    ensures
        ({
            let old = attr(t, ino)->0;
            let (after, r) = attrs_set(t, ino, a, now);
            &&& r matches Ok(x) && attr(after, ino) == Some(x) && x.mode == (match a.mode {
                Some(m) => with_permissions(old.mode, m),
                None => old.mode,
            }) && x.uid == (match a.uid {
                Some(u) => u,
                None => old.uid,
            }) && x.gid == (match a.gid {
                Some(g) => g,
                None => old.gid,
            }) && x.size == (match a.size {
                Some(size) => size,
                None => old.size,
            }) && x.atime == (match a.atime {
                Some(time) => requested_time(time, now),
                None => old.atime,
            }) && x.mtime == (match a.mtime {
                Some(time) => requested_time(time, now),
                None => old.mtime,
            }) && x.ctime == (match a.size {
                Some(_) => old.ctime,
                None => now,
            }) && x.nlink == old.nlink && x.rdev == old.rdev
            &&& forall|o: u64|
                o != ino ==> #[trigger] after.inodes.contains_key(o) == t.inodes.contains_key(o)
                    && (after.inodes.contains_key(o) ==> after.inodes[o] == t.inodes[o])
            &&& after.dentries == t.dentries
        }),
{
}

/// No new inode gets the number of the virtual profile.
pub proof fn law_profile_number_is_free(t: Tables, row: InodeRow)
    ensures
        inode_made(t, row).1 matches Ok(ino) ==> ino != PROFILE_INO,
{
}

// ── From a write to the brain ───────────────────────────────────────────────

proof fn lemma_write_enqueued(t: Tables, path: Seq<char>, ino: u64, ms: i64)
    requires
        t.inodes.contains_key(ino),
        !is_noise(path),
    ensures
        is_queued(write_enqueued(t, path, ino, ms), path, PushOp::Write, Some(ino)),
        dirty_since(write_enqueued(t, path, ino, ms), ino) == Some(ms),
{
}

/// A write through the mount marks the file dirty and queues a push of its
/// document, where it has a brain path that is not noise.
pub proof fn law_local_write_is_queued(
    t: Tables,
    ino: u64,
    offset: int,
    data: Seq<u8>,
    now: Timestamp,
    ms: i64,
)
    requires
        t.inodes.contains_key(ino),
        data.len() > 0,
        push_path(t, ino) is Some,
        !is_noise(push_path(t, ino)->0),
    ensures
        is_queued(
            mount_written(t, ino, offset, data, now, ms),
            push_path(t, ino)->0,
            PushOp::Write,
            Some(ino),
        ),
        dirty_since(mount_written(t, ino, offset, data, now, ms), ino) == Some(ms),
        remote_path(mount_written(t, ino, offset, data, now, ms), ino) == push_path(t, ino),
{
    let t1 = super::file::written(t, ino, offset, data, now, ms);
    lemma_same_push_path(t, t1, ino);
    let p = push_path(t, ino)->0;
    let t2 = if remote_path(t1, ino) is Some {
        t1
    } else {
        changed(t1, ChangeView::PutRemote(ino, fresh_remote(p)))
    };
    lemma_write_enqueued(t2, p, ino, ms);
}

/// A write through the mount keeps the tables sound.
pub proof fn law_writing_keeps_tables_sound(
    t: Tables,
    ino: u64,
    offset: int,
    data: Seq<u8>,
    now: Timestamp,
    ms: i64,
)
    requires
        sound(t),
    ensures
        sound(mount_written(t, ino, offset, data, now, ms)),
{
    let t1 = super::file::written(t, ino, offset, data, now, ms);
    lemma_same_shape(t, t1);
    lemma_same_shape(t1, super::handle::push_requested(t1, ino, ms));
}

proof fn lemma_same_push_path(t: Tables, u: Tables, ino: u64)
    requires
        u.dentries == t.dentries,
        u.remotes == t.remotes,
    ensures
        push_path(u, ino) == push_path(t, ino),
{
    lemma_same_mount_path(t, u, ino, t.dentries.len());
}

proof fn lemma_same_mount_path(t: Tables, u: Tables, ino: u64, depth: nat)
    requires
        u.dentries == t.dentries,
    ensures
        super::handle::path_within(u, ino, depth) == super::handle::path_within(t, ino, depth),
    decreases depth,
{
    assert(dentry_of(u, ino) == dentry_of(t, ino));
    if ino != ROOT_INO && depth > 0 && dentry_of(t, ino) is Some {
        let d = dentry_of(t, ino)->0;
        lemma_same_mount_path(t, u, d.0, (depth - 1) as nat);
    }
}

} // verus!
