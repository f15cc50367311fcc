//! What the operations of the mount do for whoever uses it.

use super::db::ROOT_INO;
use super::file::{lemma_same_content, read_bytes};
use super::fs::{
    components, delete_enqueued, dir_made, dir_removed, dirs_made, doc_upserted, edit_kept,
    file_made, hydrated, is_dir, leads_to, linked, looked_up, name_too_long, path_dirs_made,
    renamed, symlink_made, unlinked, FsState,
};
use super::laws::{
    is_queued, law_upserted_doc_is_stored, lemma_components, lemma_doc_parent, names_document,
};
use super::model::{
    all_indices, attr, content, ino_by_remote_path, lemma_size_sum_insert, remote_path, size_sum,
    stats_of,
};
use super::queue::{is_noise, PushOp};
use super::rows::{changed, ChangeView, InodeRow, Tables, MAX_INO};
use super::sound::{given_out, sound};
use crate::api::dto::BrainDocument;
use crate::api::error::ApiError;
use crate::text::{
    drop_front, has_prefix, is_char, lemma_has_separator, lemma_join_pieces, lemma_one_piece,
    lemma_pieces_around, lemma_pieces_nonempty, pieces,
};
use crate::vfs::error::VfsErrorView;
use crate::vfs::mode::lemma_default_modes;
use crate::vfs::types::{type_of_mode, FileAttr, FileType, Timestamp};
use vstd::prelude::*;
use vstd::utf8::encode_utf8;

verus! {

// ── Documents ───────────────────────────────────────────────────────────────

proof fn lemma_dirs_have_room(s: FsState, parts: Seq<Seq<char>>, uid: u32, gid: u32, now: Timestamp)
    requires
        s.t.next_ino + parts.len() <= MAX_INO + 1,
    ensures
        dirs_made(s, parts, uid, gid, now).1 is Ok,
        dirs_made(s, parts, uid, gid, now).0.t.next_ino <= s.t.next_ino + parts.len(),
    decreases parts.len(),
{
    if parts.len() > 0 {
        lemma_dirs_have_room(s, parts.drop_last(), uid, gid, now);
    }
}

/// A document is stored wherever there are inode numbers left for it and the
/// directories of its path.
pub proof fn law_upsert_succeeds(
    s: FsState,
    path: Seq<char>,
    body: Seq<u8>,
    uid: u32,
    gid: u32,
    now: Timestamp,
)
    requires
        s.t.next_ino + components(path).len() <= MAX_INO,
    ensures
        doc_upserted(s, path, body, uid, gid, now).1 is Ok,
{
    lemma_components(path);
    let dirs = components(path).drop_last();
    lemma_dirs_have_room(s, dirs, uid, gid, now);
    let s1 = path_dirs_made(s, path, uid, gid, now).0;
    lemma_doc_parent(s1, path);
}

/// A reply of the brain brings the document into the mount: its path leads to a
/// file with the body. Where a local edit is kept, where there is no such document
/// and where the request failed, nothing changes; only the last is a failure.
pub proof fn law_hydration_brings_the_document(
    s: FsState,
    path: Seq<char>,
    reply: Result<BrainDocument, ApiError>,
    uid: u32,
    gid: u32,
    now: Timestamp,
)
    requires
        sound(s.t),
        names_document(path),
        s.t.next_ino + components(path).len() <= MAX_INO,
    ensures
        ({
            let (after, r) = hydrated(s, path, reply, uid, gid, now);
            match reply {
                Ok(doc) => {
                    let body = match doc.body_md {
                        Some(b) => encode_utf8(b@),
                        None => Seq::empty(),
                    };
                    &&& r is Ok
                    &&& if edit_kept(s.t, path, doc.updated_at@) {
                        after == s
                    } else {
                        body.len() <= i64::MAX ==> leads_to(after.t.dentries, components(path))
                            is Some && content(
                            after.t,
                            leads_to(after.t.dentries, components(path))->0,
                        ) == body
                    }
                },
                Err(e) => after == s && (r is Ok <==> e == ApiError::NotFound),
            }
        }),
{
    if let Ok(doc) = reply {
        let body = super::fs::body_bytes(doc);
        law_upsert_succeeds(s, path, body, uid, gid, now);
        if body.len() <= i64::MAX {
            law_upserted_doc_is_stored(s, path, body, uid, gid, now);
        }
    }
}

// ── Making ──────────────────────────────────────────────────────────────────

/// Where something new can be made under a name: the name is not too long, what
/// it goes into is a directory, and a number is left.
pub open spec fn can_make(t: Tables, parent: u64, name: Seq<char>) -> bool {
    !name_too_long(name) && is_dir(t, parent) && t.next_ino <= MAX_INO
}

/// A name is too long beyond 255 bytes.
pub proof fn law_long_names(name: Seq<char>)
    ensures
        name_too_long(name) <==> encode_utf8(name).len() >= 256,
{
}

/// A directory is made where its name is free. It is found under the name, is a
/// directory of its maker, and has no entries. Other names lead where they did.
pub proof fn law_made_directory(
    s: FsState,
    parent: u64,
    name: Seq<char>,
    uid: u32,
    gid: u32,
    now: Timestamp,
)
    requires
        sound(s.t),
    ensures
        ({
            let (after, r) = dir_made(s, parent, name, uid, gid, now);
            &&& r is Ok <==> can_make(s.t, parent, name) && !s.t.dentries.contains_key(
                (parent, name),
            )
            &&& name_too_long(name) ==> r == Err::<FileAttr, VfsErrorView>(
                VfsErrorView::NameTooLong,
            )
            &&& !name_too_long(name) && !is_dir(s.t, parent) ==> r == Err::<
                FileAttr,
                VfsErrorView,
            >(VfsErrorView::NotDirectory)
            &&& !name_too_long(name) && is_dir(s.t, parent) && s.t.dentries.contains_key(
                (parent, name),
            ) ==> r == Err::<FileAttr, VfsErrorView>(VfsErrorView::AlreadyExists)
            &&& match r {
                Ok(a) => is_new_entry(s.t, after.t, parent, name, a) && type_of_mode(a.mode)
                    == FileType::Directory && a.uid == uid && a.gid == gid && a.size == 0
                    && a.nlink == 2 && a.mtime == now && a.ctime == now && a.atime == now
                    && forall|n: Seq<char>| !#[trigger] after.t.dentries.contains_key((a.ino, n)),
                Err(_) => after.t == s.t,
            }
        }),
{
    lemma_default_modes();
    let (after, r) = dir_made(s, parent, name, uid, gid, now);
    lemma_fresh_number(s.t);
    if r is Ok {
        let ino = r->Ok_0.ino;
        assert forall|n: Seq<char>| !#[trigger] after.t.dentries.contains_key((ino, n)) by {
            if after.t.dentries.contains_key((ino, n)) && (ino, n) != (parent, name) {
                assert(s.t.dentries.contains_key((ino, n)));
                assert(given_out(s.t, ino));
            }
        }
        lemma_untouched(s.t, after.t, parent, name, r->Ok_0);
    }
}

/// `a` are the attributes of an inode that was not there before, under a name that
/// leads to it now. All other inodes, names and contents are as they were.
pub open spec fn is_new_entry(
    t: Tables,
    after: Tables,
    parent: u64,
    name: Seq<char>,
    a: FileAttr,
) -> bool {
    &&& !t.inodes.contains_key(a.ino)
    &&& a.ino != ROOT_INO
    &&& attr(after, a.ino) == Some(a)
    &&& after.dentries == t.dentries.insert((parent, name), a.ino)
    &&& forall|o: u64| o != a.ino ==> #[trigger] after.inodes.get(o) == t.inodes.get(o)
    &&& after.chunks == t.chunks
    &&& after.remotes == t.remotes
    &&& after.queue == t.queue
    &&& after.meta == t.meta
}

proof fn lemma_fresh_number(t: Tables)
    requires
        sound(t),
    ensures
        t.next_ino <= MAX_INO ==> !t.inodes.contains_key(t.next_ino) && t.next_ino != ROOT_INO,
{
    if t.inodes.contains_key(t.next_ino) {
        assert(given_out(t, t.next_ino));
    }
    assert(t.inodes.contains_key(ROOT_INO));
    assert(given_out(t, ROOT_INO));
}

proof fn lemma_untouched(t: Tables, after: Tables, parent: u64, name: Seq<char>, a: FileAttr)
    requires
        after.inodes.remove(a.ino) =~= t.inodes.remove(a.ino),
    ensures
        forall|o: u64| o != a.ino ==> #[trigger] after.inodes.get(o) == t.inodes.get(o),
{
    assert forall|o: u64| o != a.ino implies #[trigger] after.inodes.get(o) == t.inodes.get(o) by {
        let b = after.inodes.remove(a.ino);
        assert(b.contains_key(o) == t.inodes.remove(a.ino).contains_key(o));
        assert(b[o] == t.inodes.remove(a.ino)[o]);
    }
}

/// A file is made where its name is free: it is an empty regular file of its maker
/// with one link. Where the name is taken, what has it is answered and nothing
/// changes.
pub proof fn law_made_file(
    s: FsState,
    parent: u64,
    name: Seq<char>,
    uid: u32,
    gid: u32,
    now: Timestamp,
)
    requires
        sound(s.t),
    ensures
        ({
            let (after, r) = file_made(s, parent, name, uid, gid, now);
            let taken = s.t.dentries.contains_key((parent, name));
            &&& !name_too_long(name) && is_dir(s.t, parent) && taken ==> after.t == s.t && (r
                matches Ok(a) && attr(s.t, s.t.dentries[(parent, name)]) == Some(a))
            &&& !taken ==> (r is Ok <==> can_make(s.t, parent, name))
            &&& name_too_long(name) ==> r == Err::<FileAttr, VfsErrorView>(
                VfsErrorView::NameTooLong,
            )
            &&& !name_too_long(name) && !is_dir(s.t, parent) ==> r == Err::<
                FileAttr,
                VfsErrorView,
            >(VfsErrorView::NotDirectory)
            &&& match r {
                Ok(a) => !taken ==> is_new_entry(s.t, after.t, parent, name, a) && type_of_mode(
                    a.mode,
                ) == FileType::Regular && a.uid == uid && a.gid == gid && a.size == 0
                    && a.nlink == 1 && a.mtime == now && a.ctime == now && a.atime == now
                    && content(after.t, a.ino).len() == 0,
                Err(_) => after.t == s.t,
            }
        }),
{
    lemma_default_modes();
    lemma_fresh_number(s.t);
    let (after, r) = file_made(s, parent, name, uid, gid, now);
    if s.t.dentries.contains_key((parent, name)) {
        assert(s.t.inodes.contains_key(s.t.dentries[(parent, name)]));
    } else if r is Ok {
        lemma_untouched(s.t, after.t, parent, name, r->Ok_0);
    }
}

/// A symbolic link is made where its name is free. It is a link that says its
/// target, and is as large as the target is in bytes.
pub proof fn law_made_symlink(
    s: FsState,
    parent: u64,
    name: Seq<char>,
    target: Seq<char>,
    uid: u32,
    gid: u32,
    now: Timestamp,
)
    requires
        sound(s.t),
        encode_utf8(target).len() <= i64::MAX,
    ensures
        ({
            let (after, r) = symlink_made(s, parent, name, target, uid, gid, now);
            &&& r is Ok <==> is_dir(s.t, parent) && !s.t.dentries.contains_key((parent, name))
                && s.t.next_ino <= MAX_INO
            &&& match r {
                Ok(a) => is_new_entry(s.t, after.t, parent, name, a) && type_of_mode(a.mode)
                    == FileType::Symlink && a.uid == uid && a.gid == gid && a.nlink == 1 && a.size
                    == encode_utf8(target).len() && after.t.symlinks.contains_pair(a.ino, target)
                    && forall|o: u64|
                    o != a.ino ==> #[trigger] after.t.symlinks.get(o) == s.t.symlinks.get(o),
                Err(e) => after.t == s.t && (e == VfsErrorView::NotDirectory <==> !is_dir(
                    s.t,
                    parent,
                )) && (e == VfsErrorView::AlreadyExists <==> is_dir(s.t, parent)
                    && s.t.dentries.contains_key((parent, name))),
            }
        }),
{
    lemma_default_modes();
    lemma_fresh_number(s.t);
    let (after, r) = symlink_made(s, parent, name, target, uid, gid, now);
    if r is Ok {
        lemma_untouched(s.t, after.t, parent, name, r->Ok_0);
    }
}

// ── Names ───────────────────────────────────────────────────────────────────

/// A file gets a further name: it has one link more, and its content stays. A
/// directory gets none, and what is not there has none.
pub proof fn law_hard_link(s: FsState, ino: u64, parent: u64, name: Seq<char>)
    requires
        s.t.inodes.contains_key(ino) ==> 0 <= s.t.inodes[ino].nlink < u32::MAX,
    ensures
        ({
            let (after, r) = linked(s, ino, parent, name);
            &&& r is Ok <==> s.t.inodes.contains_key(ino) && !is_dir(s.t, ino)
            &&& match r {
                Ok(a) => attr(after.t, ino) == Some(a) && a.ino == ino && a.nlink
                    == s.t.inodes[ino].nlink + 1 && after.t.dentries == s.t.dentries.insert(
                    (parent, name),
                    ino,
                ) && content(after.t, ino) == content(s.t, ino) && (forall|o: u64|
                    o != ino ==> #[trigger] after.t.inodes.get(o) == s.t.inodes.get(o)),
                Err(e) => after == s && (e == VfsErrorView::IsDirectory <==> is_dir(s.t, ino)) && (
                e == VfsErrorView::NotFound <==> !s.t.inodes.contains_key(ino)),
            }
        }),
{
    let after = linked(s, ino, parent, name).0;
    assert(after.t.chunks == s.t.chunks);
}

/// A file loses a name where it has it, and is gone with its last one. As long as
/// it has another it keeps its content, with one link less. All other files keep
/// theirs.
pub proof fn law_unlink(s: FsState, parent: u64, name: Seq<char>, ms: i64)
    requires
        sound(s.t),
    ensures
        ({
            let (after, r) = unlinked(s, parent, name, ms);
            let there = s.t.dentries.contains_key((parent, name));
            let ino = s.t.dentries[(parent, name)];
            &&& r is Ok <==> there && !is_dir(s.t, ino)
            &&& match r {
                Ok(_) => {
                    &&& after.t.dentries == s.t.dentries.remove((parent, name))
                    &&& if s.t.inodes[ino].nlink > 1 {
                        after.t.inodes.contains_key(ino) && after.t.inodes[ino].nlink
                            == s.t.inodes[ino].nlink - 1 && content(after.t, ino) == content(
                            s.t,
                            ino,
                        )
                    } else {
                        !after.t.inodes.contains_key(ino) && forall|i: u64|
                            !#[trigger] after.t.chunks.contains_key((ino, i))
                    }
                    &&& forall|o: u64|
                        o != ino ==> #[trigger] after.t.inodes.get(o) == s.t.inodes.get(o)
                },
                Err(e) => after.t == s.t && (e == VfsErrorView::NotFound <==> !there) && (e
                    == VfsErrorView::IsDirectory <==> there && is_dir(s.t, ino)),
            }
        }),
{
    let (after, r) = unlinked(s, parent, name, ms);
    if s.t.dentries.contains_key((parent, name)) {
        let ino = s.t.dentries[(parent, name)];
        assert(s.t.inodes.contains_key(ino));
        if r is Ok && s.t.inodes[ino].nlink > 1 {
            assert(after.t.chunks == s.t.chunks);
        }
    }
}

/// Unlinking one file leaves the content of every other one as it is.
pub proof fn law_unlink_spares_other_files(
    s: FsState,
    parent: u64,
    name: Seq<char>,
    ms: i64,
    other: u64,
)
    requires
        s.t.inodes.contains_key(other),
        s.t.dentries.get((parent, name)) != Some(other),
    ensures
        content(unlinked(s, parent, name, ms).0.t, other) == content(s.t, other),
        attr(unlinked(s, parent, name, ms).0.t, other) == attr(s.t, other),
{
    let after = unlinked(s, parent, name, ms).0.t;
    assert forall|i: u64| #[trigger] after.chunks.get((other, i)) == s.t.chunks.get((other, i)) by {}
    lemma_same_content(s.t, after, other);
}

/// A directory is removed exactly where it is empty. Then its name is free.
pub proof fn law_rmdir(s: FsState, parent: u64, name: Seq<char>)
    ensures
        ({
            let (after, r) = dir_removed(s, parent, name);
            let there = s.t.dentries.contains_key((parent, name));
            let ino = s.t.dentries[(parent, name)];
            let empty = forall|n: Seq<char>| !#[trigger] s.t.dentries.contains_key((ino, n));
            &&& r is Ok <==> there && is_dir(s.t, ino) && empty
            &&& match r {
                Ok(_) => after.t.dentries == s.t.dentries.remove((parent, name)) && forall|o: u64|
                    o != ino ==> #[trigger] after.t.inodes.get(o) == s.t.inodes.get(o),
                Err(e) => after.t == s.t && (e == VfsErrorView::NotFound <==> !there) && (e
                    == VfsErrorView::NotDirectory <==> there && !is_dir(s.t, ino)) && (e
                    == VfsErrorView::NotEmpty <==> there && is_dir(s.t, ino) && !empty),
            }
        }),
{
}

/// What is renamed stays what it was: its row and its content are the same, and
/// exactly its name is another. It fails exactly where the old name is not there.
pub proof fn law_rename_keeps_the_file(
    s: FsState,
    old_parent: u64,
    old_name: Seq<char>,
    new_parent: u64,
    new_name: Seq<char>,
    ms: i64,
)
    ensures
        ({
            let (after, r) = renamed(s, old_parent, old_name, new_parent, new_name, ms);
            let there = s.t.dentries.contains_key((old_parent, old_name));
            let ino = s.t.dentries[(old_parent, old_name)];
            let replaced = s.t.dentries.remove((old_parent, old_name)).get((new_parent, new_name));
            &&& r is Ok <==> there
            &&& match r {
                Ok(_) => {
                    &&& after.t.dentries == s.t.dentries.remove((old_parent, old_name)).insert(
                        (new_parent, new_name),
                        ino,
                    )
                    &&& replaced != Some(ino) ==> after.t.inodes.get(ino) == s.t.inodes.get(ino)
                        && content(after.t, ino) == content(s.t, ino)
                    &&& forall|o: u64|
                        replaced != Some(o) ==> #[trigger] after.t.inodes.get(o) == s.t.inodes.get(
                            o,
                        )
                },
                Err(e) => after.t == s.t && e == VfsErrorView::NotFound,
            }
        }),
{
    let (after, r) = renamed(s, old_parent, old_name, new_parent, new_name, ms);
    if r is Ok {
        let ino = s.t.dentries[(old_parent, old_name)];
        let replaced = s.t.dentries.remove((old_parent, old_name)).get((new_parent, new_name));
        let free = s.t.dentries.remove((old_parent, old_name));
        assert(after.t.dentries =~= free.insert((new_parent, new_name), ino));
        if replaced != Some(ino) {
            if s.t.inodes.contains_key(ino) {
                assert forall|i: u64| #[trigger]
                    after.t.chunks.get((ino, i)) == s.t.chunks.get((ino, i)) by {}
                lemma_same_content(s.t, after.t, ino);
            }
        }
    }
}

/// What had the new name before is gone with its content, where that was its only
/// name.
pub proof fn law_rename_replaces(
    s: FsState,
    old_parent: u64,
    old_name: Seq<char>,
    new_parent: u64,
    new_name: Seq<char>,
    ms: i64,
    victim: u64,
)
    requires
        s.t.dentries.contains_key((old_parent, old_name)),
        (old_parent, old_name) != (new_parent, new_name),
        s.t.dentries.contains_pair((new_parent, new_name), victim),
        s.t.inodes.contains_key(victim),
        s.t.inodes[victim].nlink <= 1,
    ensures
        ({
            let after = renamed(s, old_parent, old_name, new_parent, new_name, ms).0.t;
            &&& !after.inodes.contains_key(victim)
            &&& !after.remotes.contains_key(victim)
            &&& forall|i: u64| !#[trigger] after.chunks.contains_key((victim, i))
        }),
{
}

/// The rename of a file with a document is queued: under the path that is on
/// record, with the new name.
pub proof fn law_rename_is_queued(
    s: FsState,
    old_parent: u64,
    old_name: Seq<char>,
    new_parent: u64,
    new_name: Seq<char>,
    ms: i64,
    path: Seq<char>,
)
    requires
        s.t.dentries.contains_key((old_parent, old_name)),
        remote_path(s.t, s.t.dentries[(old_parent, old_name)]) == Some(path),
        s.t.dentries.remove((old_parent, old_name)).get((new_parent, new_name)) != Some(
            s.t.dentries[(old_parent, old_name)],
        ),
        !is_noise(path),
    ensures
        ({
            let after = renamed(s, old_parent, old_name, new_parent, new_name, ms).0.t;
            let row = after.queue[path];
            &&& after.queue.contains_key(path)
            &&& {
                ||| row.op == "rename"@ && row.rename_to == Some(new_name)
                ||| row.pending_op == Some("rename"@) && row.pending_rename_to == Some(new_name)
            }
            &&& forall|q: Seq<char>|
                q != path ==> #[trigger] after.queue.contains_key(q) == s.t.queue.contains_key(q)
                    && after.queue[q] == s.t.queue[q]
        }),
{
}

/// A file whose document is not on record is renamed without a word to the brain.
pub proof fn law_local_rename_is_not_queued(
    s: FsState,
    old_parent: u64,
    old_name: Seq<char>,
    new_parent: u64,
    new_name: Seq<char>,
    ms: i64,
)
    requires
        s.t.dentries.contains_key((old_parent, old_name)),
        remote_path(s.t, s.t.dentries[(old_parent, old_name)]) is None,
    ensures
        renamed(s, old_parent, old_name, new_parent, new_name, ms).0.t.queue == s.t.queue,
{
}

/// A deletion that is asked for is queued, and the document is no longer on record
/// for the file that had it.
pub proof fn law_requested_deletion_is_queued(t: Tables, path: Seq<char>, ms: i64, ino: u64)
    requires
        !is_noise(path),
        ino_by_remote_path(t, path) == Some(ino),
    ensures
        is_queued(delete_enqueued(t, path, ms), path, PushOp::Delete, None),
        remote_path(delete_enqueued(t, path, ms), ino) is None,
        delete_enqueued(t, path, ms).inodes == t.inodes,
        delete_enqueued(t, path, ms).dentries == t.dentries,
        delete_enqueued(t, path, ms).chunks == t.chunks,
        forall|o: u64|
            o != ino ==> #[trigger] delete_enqueued(t, path, ms).remotes.get(o) == t.remotes.get(o),
{
}

/// Looking something up changes neither files nor names, and finds what the
/// directory has.
pub proof fn law_lookup_only_looks(s: FsState, parent: u64, name: Seq<char>)
    ensures
        looked_up(s, parent, name).0.t == s.t,
        match looked_up(s, parent, name).1 {
            Some(ino) => s.t.dentries.contains_pair((parent, name), ino),
            None => !s.t.dentries.contains_key((parent, name)),
        },
{
}

// ── Attributes ──────────────────────────────────────────────────────────────

/// The attributes of a file say how long its content is: reading that many bytes
/// from the start gives all of it.
pub proof fn law_size_is_length_of_content(t: Tables, ino: u64)
    requires
        t.inodes.contains_key(ino),
        t.inodes[ino].size >= 0,
    ensures
        attr(t, ino) is Some,
        attr(t, ino)->0.ino == ino,
        attr(t, ino)->0.size == content(t, ino).len(),
        read_bytes(t, ino, 0, attr(t, ino)->0.size as int) == content(t, ino),
        attr(t, ino)->0.blocks * 512 >= content(t, ino).len(),
        attr(t, ino)->0.blocks * 512 < content(t, ino).len() + 512,
{
    let a = attr(t, ino)->0;
    assert(read_bytes(t, ino, 0, a.size as int) =~= content(t, ino));
}

/// The attributes of an inode are those of its row.
pub proof fn law_attributes_are_those_of_the_row(t: Tables, ino: u64)
    requires
        t.inodes.contains_key(ino),
    ensures
        attr(t, ino) matches Some(a) && a.mode == t.inodes[ino].mode && a.uid == t.inodes[ino].uid
            && a.gid == t.inodes[ino].gid && a.atime == t.inodes[ino].atime && a.mtime
            == t.inodes[ino].mtime && a.ctime == t.inodes[ino].ctime && a.rdev
            == t.inodes[ino].rdev && (0 <= t.inodes[ino].nlink <= u32::MAX ==> a.nlink
            == t.inodes[ino].nlink),
{
}

/// A further inode counts as one more and adds its size, as far as the numbers
/// can be told.
pub proof fn law_statistics_add_up(t: Tables, ino: u64, row: InodeRow)
    requires
        t.inodes.dom().finite(),
        !t.inodes.contains_key(ino),
        row.size >= 0,
        t.inodes.len() < u64::MAX,
        0 <= size_sum(t.inodes, all_indices()),
        size_sum(t.inodes, all_indices()) + row.size <= i64::MAX,
    ensures
        ({
            let after = stats_of(changed(t, ChangeView::PutInode(ino, row)));
            &&& after.inodes == stats_of(t).inodes + 1
            &&& after.bytes_used == stats_of(t).bytes_used + row.size
        }),
{
    lemma_size_sum_insert(t.inodes, ino, row, all_indices());
}

// ── Noise ───────────────────────────────────────────────────────────────────

/// The first piece of a text begins as the text does.
proof fn lemma_first_piece(s: Seq<char>, rest: Seq<char>, c: char)
    requires
        !s.contains(c),
    ensures
        has_prefix(pieces(s + rest, c)[0], s),
        pieces(s + rest, c).len() > 0,
    decreases rest.len(),
{
    lemma_pieces_nonempty(s + rest, c);
    if rest.len() == 0 {
        assert(s + rest =~= s);
        lemma_has_separator(s, c);
        lemma_join_pieces(s, c);
        lemma_pieces_nonempty(s, c);
        assert(pieces(s, c) =~= seq![s]);
        assert(s.take(s.len() as int) =~= s);
    } else {
        let f = rest.drop_last();
        lemma_first_piece(s, f, c);
        assert((s + rest).drop_last() =~= s + f);
        let before = pieces(s + f, c);
        let p = pieces(s + rest, c)[0];
        if rest.last() != c && before.len() == 1 {
            assert(p == before[0].push(rest.last()));
            assert(p.take(s.len() as int) =~= before[0].take(s.len() as int));
        }
    }
}

/// What lies in one of the operating system's directories at the top is noise,
/// however deep.
pub proof fn law_system_directories_are_noise(rest: Seq<char>)
    ensures
        is_noise("/.Spotlight-V100"@ + rest),
        is_noise("/.Trashes"@ + rest),
        is_noise("/.fseventsd"@ + rest),
        is_noise("/.TemporaryItems"@ + rest),
{
    reveal_strlit("/.Spotlight-V100");
    reveal_strlit("/.Trashes");
    reveal_strlit("/.fseventsd");
    reveal_strlit("/.TemporaryItems");
    reveal_strlit(".Spotlight-V100");
    reveal_strlit(".Trashes");
    reveal_strlit(".fseventsd");
    reveal_strlit(".TemporaryItems");
    lemma_noise_directory("/.Spotlight-V100"@, ".Spotlight-V100"@, rest);
    lemma_noise_directory("/.Trashes"@, ".Trashes"@, rest);
    lemma_noise_directory("/.fseventsd"@, ".fseventsd"@, rest);
    lemma_noise_directory("/.TemporaryItems"@, ".TemporaryItems"@, rest);
}

proof fn lemma_noise_directory(path: Seq<char>, name: Seq<char>, rest: Seq<char>)
    requires
        path =~= seq!['/'] + name,
        name.len() > 0,
        name[0] != '/',
        forall|i: int| 0 <= i < name.len() ==> name[i] != '/',
    ensures
        has_prefix(pieces(drop_front(path + rest, is_char('/')), '/').first(), name),
        drop_front(path + rest, is_char('/')) == name + rest,
        (name + rest).len() > 0,
{
    assert((path + rest).skip(1) =~= name + rest);
    assert(drop_front(name + rest, is_char('/')) == name + rest);
    lemma_first_piece(name, rest, '/');
}

/// Files that the operating system leaves behind are noise in every directory.
pub proof fn law_system_files_are_noise(dir: Seq<char>, name: Seq<char>)
    requires
        !name.contains('/'),
        has_prefix(name, "._"@) || name == ".DS_Store"@ || name == ".localized"@ || name
            == ".apdisk"@ || name == ".VolumeIcon.icns"@ || name == ".metadata_never_index"@ || name
            == ".metadata_never_index_unless_rootfs"@ || name
            == ".com.apple.timemachine.donotpresent"@ || name == "Icon\r"@,
    ensures
        is_noise(dir.push('/') + name),
{
    lemma_noise_names_not_empty(name);
    lemma_base_name(dir, name);
}

proof fn lemma_noise_names_not_empty(name: Seq<char>)
    requires
        has_prefix(name, "._"@) || name == ".DS_Store"@ || name == ".localized"@ || name
            == ".apdisk"@ || name == ".VolumeIcon.icns"@ || name == ".metadata_never_index"@ || name
            == ".metadata_never_index_unless_rootfs"@ || name
            == ".com.apple.timemachine.donotpresent"@ || name == "Icon\r"@,
    ensures
        name.len() > 0,
        name[0] == '.' || name == "Icon\r"@,
{
    reveal_strlit("._");
    reveal_strlit(".DS_Store");
    reveal_strlit(".localized");
    reveal_strlit(".apdisk");
    reveal_strlit(".VolumeIcon.icns");
    reveal_strlit(".metadata_never_index");
    reveal_strlit(".metadata_never_index_unless_rootfs");
    reveal_strlit(".com.apple.timemachine.donotpresent");
    reveal_strlit("Icon\r");
    if has_prefix(name, "._"@) {
        assert(name.take(2)[0] == '.');
    }
}

/// The last component of a path is the name behind its last slash.
proof fn lemma_base_name(dir: Seq<char>, name: Seq<char>)
    requires
        !name.contains('/'),
        name.len() > 0,
    ensures
        ({
            let cut = drop_front(dir.push('/') + name, is_char('/'));
            cut.len() > 0 && pieces(cut, '/').last() == name
        }),
    decreases dir.len(),
{
    let path = dir.push('/') + name;
    if dir.len() > 0 && dir[0] == '/' {
        lemma_base_name(dir.skip(1), name);
        assert(path.skip(1) =~= dir.skip(1).push('/') + name);
    } else if dir.len() == 0 {
        assert(path.skip(1) =~= name);
        assert(name[0] != '/');
        assert(drop_front(name, is_char('/')) == name);
        lemma_one_piece(name, '/');
    } else {
        assert(drop_front(path, is_char('/')) == path);
        lemma_pieces_around(dir, name, '/');
        lemma_one_piece(name, '/');
        assert((pieces(dir, '/') + pieces(name, '/')).last() == name);
    }
}

/// A document of the brain whose name does not begin with a dot is no noise.
pub proof fn law_documents_are_no_noise(root: Seq<char>, dir: Seq<char>, name: Seq<char>)
    requires
        !root.contains('/'),
        root.len() > 0,
        root[0] != '.',
        !name.contains('/'),
        name.len() > 0,
        name[0] != '.',
        name != "Icon\r"@,
    ensures
        !is_noise((seq!['/'] + root + dir).push('/') + name),
{
    let path = (seq!['/'] + root + dir).push('/') + name;
    lemma_base_name(seq!['/'] + root + dir, name);
    let rest = dir.push('/') + name;
    assert(root[0] != '/');
    lemma_noise_directory(seq!['/'] + root, root, rest);
    assert(path =~= (seq!['/'] + root) + rest);
    let first = pieces(drop_front(path, is_char('/')), '/').first();
    assert(first.take(root.len() as int)[0] == root[0]);
    reveal_strlit(".Spotlight-V100");
    reveal_strlit(".Trashes");
    reveal_strlit(".fseventsd");
    reveal_strlit(".TemporaryItems");
    assert(has_prefix(first, ".Spotlight-V100"@) ==> first.take(15)[0] == '.');
    assert(has_prefix(first, ".Trashes"@) ==> first.take(8)[0] == '.');
    assert(has_prefix(first, ".fseventsd"@) ==> first.take(10)[0] == '.');
    assert(has_prefix(first, ".TemporaryItems"@) ==> first.take(15)[0] == '.');
    if is_noise(path) {
        lemma_noise_names_not_empty(name);
    }
}

// ── Owners and times ────────────────────────────────────────────────────────

/// The inodes that `u` has and `t` has not belong to `uid` and `gid` and were made
/// at `now`.
pub open spec fn new_ones_belong(t: Tables, u: Tables, uid: u32, gid: u32, now: Timestamp) -> bool {
    forall|o: u64| #[trigger]
        u.inodes.contains_key(o) && !t.inodes.contains_key(o) ==> u.inodes[o].uid == uid
            && u.inodes[o].gid == gid && u.inodes[o].atime == now && u.inodes[o].mtime == now
            && u.inodes[o].ctime == now && u.inodes[o].dirty_since is None
}

/// Directories that are made for a path are directories, belong to whom they are
/// made for and have the time at which they are made. Those that are there stay.
pub proof fn law_made_directories_belong(
    s: FsState,
    parts: Seq<Seq<char>>,
    uid: u32,
    gid: u32,
    now: Timestamp,
)
    requires
        forall|o: u64| #[trigger] s.t.inodes.contains_key(o) ==> given_out(s.t, o),
    ensures
        ({
            let u = dirs_made(s, parts, uid, gid, now).0.t;
            &&& new_ones_belong(s.t, u, uid, gid, now)
            &&& forall|o: u64| #[trigger] u.inodes.contains_key(o) ==> given_out(u, o)
            &&& forall|o: u64| #[trigger]
                s.t.inodes.contains_key(o) ==> u.inodes.contains_key(o) && u.inodes[o]
                    == s.t.inodes[o]
            &&& forall|o: u64| #[trigger]
                u.inodes.contains_key(o) && !s.t.inodes.contains_key(o) ==> type_of_mode(
                    u.inodes[o].mode,
                ) == FileType::Directory
        }),
    decreases parts.len(),
{
    lemma_default_modes();
    if parts.len() > 0 {
        law_made_directories_belong(s, parts.drop_last(), uid, gid, now);
    }
}

/// A document that is stored has the time at which that was. Where it is new, its
/// file belongs to the owner of the mount.
pub proof fn law_stored_document_belongs(
    s: FsState,
    path: Seq<char>,
    body: Seq<u8>,
    uid: u32,
    gid: u32,
    now: Timestamp,
)
    requires
        sound(s.t),
        names_document(path),
        body.len() <= i64::MAX,
    ensures
        doc_upserted(s, path, body, uid, gid, now).1 matches Ok(ino) ==> {
            let after = doc_upserted(s, path, body, uid, gid, now).0.t;
            &&& after.inodes.contains_key(ino)
            &&& after.inodes[ino].mtime == now && after.inodes[ino].ctime == now
            &&& after.inodes[ino].size == body.len()
            &&& new_ones_belong(s.t, after, uid, gid, now)
        },
{
    law_upserted_doc_is_stored(s, path, body, uid, gid, now);
    let (s1, r1) = path_dirs_made(s, path, uid, gid, now);
    let dirs = components(path).drop_last();
    lemma_components(path);
    law_made_directories_belong(s, dirs, uid, gid, now);
    if r1 is Ok {
        lemma_doc_parent(s1, path);
        let (s2, r2) = super::fs::doc_file(s1, path, uid, gid, now);
        assert(new_ones_belong(s.t, s2.t, uid, gid, now));
        if r2 is Ok {
            let after = doc_upserted(s, path, body, uid, gid, now).0.t;
            assert(after.inodes.dom() =~= s2.t.inodes.dom());
            assert(new_ones_belong(s.t, after, uid, gid, now));
        }
    }
}

/// A name that was the last one of its inode leaves neither the target of a link
/// nor a record of a document behind.
pub proof fn law_last_name_leaves_nothing(s: FsState, parent: u64, name: Seq<char>, ms: i64)
    requires
        sound(s.t),
        s.t.dentries.contains_key((parent, name)),
        s.t.inodes[s.t.dentries[(parent, name)]].nlink <= 1,
    ensures
        ({
            let (after, r) = unlinked(s, parent, name, ms);
            let ino = s.t.dentries[(parent, name)];
            r is Ok ==> !after.t.symlinks.contains_key(ino) && !after.t.remotes.contains_key(ino)
        }),
        ({
            let (after, r) = dir_removed(s, parent, name);
            let ino = s.t.dentries[(parent, name)];
            r is Ok ==> !after.t.symlinks.contains_key(ino) && !after.t.remotes.contains_key(ino)
        }),
{
}

} // verus!
