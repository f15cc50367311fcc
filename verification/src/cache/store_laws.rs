//! What the records of the cache promise: what is put in is found, and nothing
//! else changes.

use super::db::{next_after, ROOT_INO};
use super::dentry_cache::{cached_ino, used, without_key, Lookup};
use super::file::{
    fits, law_read_gives_back_write, law_truncate_resizes, read_bytes, written, DbFile,
};
use super::fs::{
    is_dir, lists_name, missing_in_brain, named_attr, opened, shown_attr, with_attrs, FileHandle,
    UnisonFs,
};
use super::handle::{
    handle_cut, handle_read, handle_written, law_every_depth_is_told, missed_path, mount_path,
    mount_written, path_within, push_path,
};
use super::model::{
    attr, content, dentry_of, dirty_since, lists_children, remote_hash, remote_id, remote_path,
    with_content_hash, with_dirty, with_mirrored, with_remote_id, with_root,
};
use super::profile::{profile_attr_of, PROFILE_INO, PROFILE_NAME};
use super::queue::{
    claimable, enqueued, failed, is_noise, lemma_op_round_trip, op_named, poisoned, PushOp,
};
use super::rows::{beyond, changed, replayed, without_chunks, ChangeView, InodeRow, Tables, MAX_INO};
use crate::api::dto::BrainDocument;
use crate::api::error::ApiError;
use crate::vfs::error::VfsErrorView;
use crate::vfs::path::normalized;
use crate::vfs::types::{type_of_mode, FileAttr, FileType, Timestamp};
use vstd::prelude::*;

verus! {

// ── Rows ────────────────────────────────────────────────────────────────────

/// A row that was put in is found under its key, and the other rows are as they
/// were.
pub proof fn law_put_row_is_found(
    t: Tables,
    ino: u64,
    row: InodeRow,
    parent: u64,
    name: Seq<char>,
    key: Seq<char>,
    value: Seq<char>,
)
    ensures
        changed(t, ChangeView::PutInode(ino, row)).inodes.get(ino) == Some(row),
        changed(t, ChangeView::PutInode(ino, row)).dentries == t.dentries,
        changed(t, ChangeView::PutDentry(parent, name, ino)).dentries.get((parent, name)) == Some(
            ino,
        ),
        changed(t, ChangeView::PutDentry(parent, name, ino)).inodes == t.inodes,
        changed(t, ChangeView::PutMeta(key, value)).meta.get(key) == Some(value),
        changed(t, ChangeView::PutMeta(key, value)).queue == t.queue,
        changed(t, ChangeView::PutSymlink(ino, value)).symlinks.get(ino) == Some(value),
        forall|i: u64|
            i != ino ==> #[trigger] changed(t, ChangeView::PutInode(ino, row)).inodes.get(i)
                == t.inodes.get(i),
        forall|k: Seq<char>|
            k != key ==> #[trigger] changed(t, ChangeView::PutMeta(key, value)).meta.get(k)
                == t.meta.get(k),
        forall|k: (u64, Seq<char>)|
            k != (parent, name) ==> #[trigger] changed(
                t,
                ChangeView::PutDentry(parent, name, ino),
            ).dentries.get(k) == t.dentries.get(k),
{
}

/// A row that was dropped is gone, and the other rows are as they were.
pub proof fn law_dropped_row_is_gone(
    t: Tables,
    ino: u64,
    from: u64,
    parent: u64,
    name: Seq<char>,
    k: (u64, u64),
)
    ensures
        changed(t, ChangeView::DropInode(ino)).inodes.get(ino) is None,
        changed(t, ChangeView::DropDentry(parent, name)).dentries.get((parent, name)) is None,
        changed(t, ChangeView::DropJob(name)).queue.get(name) is None,
        changed(t, ChangeView::DropRemote(ino)).remotes.get(ino) is None,
        k.0 == ino && k.1 >= from ==> changed(t, ChangeView::DropChunks(ino, from)).chunks.get(k)
            is None,
        k.0 != ino || k.1 < from ==> changed(t, ChangeView::DropChunks(ino, from)).chunks.get(k)
            == t.chunks.get(k),
        forall|i: u64|
            i != ino ==> #[trigger] changed(t, ChangeView::DropInode(ino)).inodes.get(i)
                == t.inodes.get(i),
{
    assert(without_chunks(t.chunks, ino, from).get(k) == if k.0 == ino && k.1 >= from {
        None
    } else {
        t.chunks.get(k)
    });
}

/// Of changes that are carried out one after the other, the last one counts.
pub proof fn law_last_change_counts(
    t: Tables,
    changes: Seq<ChangeView>,
    ino: u64,
    row: InodeRow,
    key: Seq<char>,
    value: Seq<char>,
)
    ensures
        replayed(t, changes.push(ChangeView::PutInode(ino, row))).inodes.get(ino) == Some(row),
        replayed(t, changes.push(ChangeView::PutMeta(key, value))).meta.get(key) == Some(value),
        replayed(t, Seq::empty()) == t,
{
    assert(changes.push(ChangeView::PutInode(ino, row)).drop_last() =~= changes);
    assert(changes.push(ChangeView::PutMeta(key, value)).drop_last() =~= changes);
}

/// The number of the next inode lies beyond every number that was given out and is
/// no larger than it must be.
pub proof fn law_numbers_are_new(next: u64, ino: u64)
    requires
        next <= MAX_INO + 1,
        ino <= MAX_INO,
    ensures
        beyond(next, ino) > ino,
        beyond(next, ino) >= next,
        beyond(next, ino) == next || beyond(next, ino) == ino + 1,
        beyond(next, ino) <= MAX_INO + 1,
{
}

/// A loaded cache gives new inodes numbers that no row has.
pub proof fn law_loaded_numbers_are_new(rows: Seq<(u64, InodeRow)>, i: int)
    requires
        0 <= i < rows.len(),
        rows[i].0 <= MAX_INO,
    ensures
        rows[i].0 < next_after(rows),
        1 <= next_after(rows) <= MAX_INO + 1,
    decreases rows.len(),
{
    lemma_next_in_range(rows);
    lemma_next_in_range(rows.drop_last());
    if i < rows.len() - 1 {
        law_loaded_numbers_are_new(rows.drop_last(), i);
    }
}

proof fn lemma_next_in_range(rows: Seq<(u64, InodeRow)>)
    ensures
        1 <= next_after(rows) <= MAX_INO + 1,
    decreases rows.len(),
{
    if rows.len() > 0 {
        lemma_next_in_range(rows.drop_last());
    }
}

/// A cache has a root directory: the one that it had, or a new one.
pub proof fn law_root_is_there(t: Tables, now: Timestamp)
    ensures
        with_root(t, now).inodes.contains_key(ROOT_INO),
        t.inodes.contains_key(ROOT_INO) ==> with_root(t, now) == t,
        !t.inodes.contains_key(ROOT_INO) ==> type_of_mode(with_root(t, now).inodes[ROOT_INO].mode)
            == FileType::Directory && with_root(t, now).inodes[ROOT_INO].mtime == now,
        with_root(t, now).dentries == t.dentries,
{
    crate::vfs::mode::lemma_default_modes();
}

// ── Remote state ────────────────────────────────────────────────────────────

/// What is noted of a document is found: what was given is noted, and what was not
/// given stays.
pub proof fn law_remote_state_is_noted(
    t: Tables,
    ino: u64,
    at: Option<i64>,
    status: Option<Seq<char>>,
    status_at: Option<i64>,
    id: Seq<char>,
    hash: Option<Seq<char>>,
)
    requires
        t.remotes.contains_key(ino),
    ensures
        ({
            let before = t.remotes[ino];
            let after = with_mirrored(t, ino, at, status, status_at).remotes[ino];
            &&& at is Some ==> after.mirrored_updated_at == at
            &&& at is None ==> after.mirrored_updated_at == before.mirrored_updated_at
            &&& status is Some ==> after.last_status == status
            &&& status is None ==> after.last_status == before.last_status
            &&& status_at is Some ==> after.last_status_at == status_at
            &&& status_at is None ==> after.last_status_at == before.last_status_at
            &&& after.remote_path == before.remote_path && after.remote_id == before.remote_id
                && after.content_hash == before.content_hash
        }),
        remote_id(with_remote_id(t, ino, id), ino) == Some(id),
        remote_path(with_remote_id(t, ino, id), ino) == remote_path(t, ino),
        remote_hash(with_remote_id(t, ino, id), ino) == remote_hash(t, ino),
        remote_hash(with_content_hash(t, ino, hash), ino) == hash,
        remote_path(with_content_hash(t, ino, hash), ino) == remote_path(t, ino),
        remote_id(with_content_hash(t, ino, hash), ino) == remote_id(t, ino),
        forall|i: u64|
            i != ino ==> #[trigger] with_content_hash(t, ino, hash).remotes.get(i)
                == t.remotes.get(i),
        forall|i: u64|
            i != ino ==> #[trigger] with_remote_id(t, ino, id).remotes.get(i) == t.remotes.get(i),
{
}

/// A dirty mark is found as it was set, and changes nothing else of the file.
pub proof fn law_dirty_mark_is_set(t: Tables, ino: u64, since: Option<i64>, other: u64)
    requires
        t.inodes.contains_key(ino),
    ensures
        dirty_since(with_dirty(t, ino, since), ino) == since,
        attr(with_dirty(t, ino, since), ino) == attr(t, ino),
        other != ino ==> dirty_since(with_dirty(t, ino, since), other) == dirty_since(t, other),
{
}

// ── Jobs ────────────────────────────────────────────────────────────────────

/// A request is queued as it was made and is due at once, unless its path is noise.
/// A job that failed before starts afresh.
pub proof fn law_request_is_queued(
    t: Tables,
    path: Seq<char>,
    op: PushOp,
    content_ino: Option<u64>,
    rename_to: Option<Seq<char>>,
    now_ms: i64,
    ms: i64,
)
    requires
        t.queue.contains_key(path) ==> t.queue[path].inflight_started_at is None
            && !t.queue[path].poisoned,
    ensures
        ({
            let u = enqueued(t, path, op, content_ino, rename_to, now_ms);
            &&& is_noise(path) ==> u == t
            &&& !is_noise(path) ==> {
                &&& u.queue.contains_key(path)
                &&& op_named(u.queue[path].op) == Some(op)
                &&& u.queue[path].content_ino == content_ino
                &&& u.queue[path].rename_to == rename_to
                &&& u.queue[path].attempt == 0
                &&& u.queue[path].last_error is None
                &&& claimable(u.queue[path], ms) <==> now_ms <= ms
            }
            &&& u.inodes == t.inodes && u.dentries == t.dentries && u.chunks == t.chunks
                && u.remotes == t.remotes && u.meta == t.meta
        }),
{
    lemma_op_round_trip(op);
}

/// A job that failed or was given up says why, and what it was to do.
pub proof fn law_failed_job_says_why(
    t: Tables,
    path: Seq<char>,
    error: Seq<char>,
    due: i64,
    status: u16,
    now_ms: i64,
)
    requires
        t.queue.contains_key(path),
    ensures
        failed(t, path, error, due).queue[path].last_error == Some(error),
        failed(t, path, error, due).queue[path].op == t.queue[path].op,
        failed(t, path, error, due).queue[path].content_ino == t.queue[path].content_ino,
        failed(t, path, error, due).queue[path].pending_op == t.queue[path].pending_op,
        failed(t, path, error, due).queue[path].poisoned == t.queue[path].poisoned,
        poisoned(t, path, status, error, now_ms).queue[path].last_error == Some(error),
        poisoned(t, path, status, error, now_ms).queue[path].last_status == Some(status as i64),
        poisoned(t, path, status, error, now_ms).queue[path].op == t.queue[path].op,
        poisoned(t, path, status, error, now_ms).queue[path].inflight_started_at is None,
        forall|q: Seq<char>|
            q != path ==> #[trigger] failed(t, path, error, due).queue.get(q) == t.queue.get(q),
        forall|q: Seq<char>|
            q != path ==> #[trigger] poisoned(t, path, status, error, now_ms).queue.get(q)
                == t.queue.get(q),
{
}

// ── Paths ───────────────────────────────────────────────────────────────────

/// The path of a file is that of its directory, a slash and its name. The root has
/// none of these.
pub proof fn law_path_is_that_of_the_directory(t: Tables, ino: u64, parent: u64, name: Seq<char>)
    requires
        t.dentries.dom().finite(),
        ino != ROOT_INO,
        dentry_of(t, ino) == Some((parent, name)),
    ensures
        mount_path(t, ROOT_INO) == Some(Seq::<char>::empty()),
        mount_path(t, parent) is Some ==> mount_path(t, ino) == Some(
            mount_path(t, parent)->0 + "/"@ + name,
        ),
{
    if mount_path(t, parent) is Some {
        let depth = (t.dentries.len() + 1) as nat;
        assert(path_within(t, ino, depth) == Some(mount_path(t, parent)->0 + "/"@ + name));
        law_every_depth_is_told(t, ino, depth);
    }
}

/// What is written goes to the path on record, and to the normal form of the path
/// in the mount where there is none.
pub proof fn law_push_goes_to_the_path_on_record(t: Tables, ino: u64)
    ensures
        remote_path(t, ino) is Some ==> push_path(t, ino) == remote_path(t, ino),
        remote_path(t, ino) is None && mount_path(t, ino) is Some ==> push_path(t, ino)
            == normalized(mount_path(t, ino)->0),
        remote_path(t, ino) is None && mount_path(t, ino) is None ==> push_path(t, ino) is None,
{
}

/// A name that the cache does not have is looked for in the brain under the path of
/// its directory and itself, unless it is noise.
pub proof fn law_missed_name_is_looked_for(t: Tables, parent: u64, name: Seq<char>, dir: Seq<char>)
    requires
        mount_path(t, parent) == Some(dir),
    ensures
        !is_noise(dir + "/"@ + name) ==> missed_path(t, parent, name) == Some(dir + "/"@ + name),
        is_noise(dir + "/"@ + name) ==> missed_path(t, parent, name) is None,
{
}

// ── Listings ────────────────────────────────────────────────────────────────

/// An entry whose inode exists is listed with the attributes of that, and others
/// are left out.
proof fn lemma_with_attrs(t: Tables, list: Seq<(Seq<char>, u64)>)
    ensures
        forall|i: int|
            0 <= i < with_attrs(t, list).len() ==> exists|j: int|
                0 <= j < list.len() && (#[trigger] list[j]).0 == (#[trigger] with_attrs(
                    t,
                    list,
                )[i]).0 && attr(t, list[j].1) == Some(with_attrs(t, list)[i].1),
        forall|j: int|
            0 <= j < list.len() && attr(t, (#[trigger] list[j]).1) is Some ==> with_attrs(
                t,
                list,
            ).contains((list[j].0, attr(t, list[j].1)->0)),
    decreases list.len(),
{
    if list.len() > 0 {
        let f = list.drop_last();
        let before = with_attrs(t, f);
        let all = with_attrs(t, list);
        lemma_with_attrs(t, f);
        assert forall|i: int| 0 <= i < all.len() implies exists|j: int|
            0 <= j < list.len() && (#[trigger] list[j]).0 == (#[trigger] all[i]).0 && attr(
                t,
                list[j].1,
            ) == Some(all[i].1) by {
            if i < before.len() {
                assert(all[i] == before[i]);
                let j = choose|j: int|
                    0 <= j < f.len() && (#[trigger] f[j]).0 == before[i].0 && attr(t, f[j].1)
                        == Some(before[i].1);
                assert(list[j] == f[j]);
            } else {
                assert(list[list.len() - 1] == list.last());
            }
        }
        assert forall|j: int|
            0 <= j < list.len() && attr(t, (#[trigger] list[j]).1) is Some implies all.contains(
            (list[j].0, attr(t, list[j].1)->0),
        ) by {
            let e = (list[j].0, attr(t, list[j].1)->0);
            if j < f.len() {
                assert(f[j] == list[j]);
                assert(before.contains(e));
                let i = choose|i: int| 0 <= i < before.len() && before[i] == e;
                assert(all[i] == e);
            } else {
                assert(all[all.len() - 1] == e);
            }
        }
    }
}

/// A directory lists each of its entries whose inode exists, with the attributes of
/// that, and nothing else but the profile. That is listed at the root of a mount
/// that has one.
pub proof fn law_directory_lists_its_entries(
    fs: UnisonFs,
    ino: u64,
    entries: Seq<(Seq<char>, FileAttr)>,
    now: Timestamp,
    ms: i64,
)
    requires
        fs.lists_directory(ino, entries, now, ms),
    ensures
        forall|name: Seq<char>| #[trigger]
            fs.state().t.dentries.contains_key((ino, name)) && attr(
                fs.state().t,
                fs.state().t.dentries[(ino, name)],
            ) is Some ==> entries.contains(
                (name, attr(fs.state().t, fs.state().t.dentries[(ino, name)])->0),
            ),
        forall|i: int|
            0 <= i < entries.len() ==> {
                let (name, a) = #[trigger] entries[i];
                ||| fs.state().t.dentries.contains_key((ino, name)) && attr(
                    fs.state().t,
                    fs.state().t.dentries[(ino, name)],
                ) == Some(a)
                ||| ino == ROOT_INO && fs.profile() is Some && name == PROFILE_NAME@ && a
                    == profile_attr_of(fs.profile()->0@, fs.state().t, now, ms)
            },
        ino == ROOT_INO && fs.profile() is Some ==> lists_name(entries, PROFILE_NAME@),
{
    let t = fs.state().t;
    let list = choose|list: Seq<(Seq<char>, u64)>| #[trigger]
        lists_children(t.dentries, ino, list) && entries == ({
            let found = with_attrs(t, list);
            if ino == ROOT_INO && fs.profile() is Some && !lists_name(found, PROFILE_NAME@) {
                found.push(
                    (PROFILE_NAME@, profile_attr_of(fs.profile()->0@, t, now, ms)),
                )
            } else {
                found
            }
        });
    let found = with_attrs(t, list);
    lemma_with_attrs(t, list);
    assert forall|name: Seq<char>| #[trigger]
        t.dentries.contains_key((ino, name)) && attr(
            t,
            t.dentries[(ino, name)],
        ) is Some implies entries.contains((name, attr(t, t.dentries[(ino, name)])->0)) by {
        let j = choose|j: int| 0 <= j < list.len() && (#[trigger] list[j]).0 == name;
        assert(t.dentries.contains_pair((ino, list[j].0), list[j].1));
        let e = (name, attr(t, t.dentries[(ino, name)])->0);
        assert(found.contains(e));
        let i = choose|i: int| 0 <= i < found.len() && found[i] == e;
        assert(entries[i] == e);
    }
    assert forall|i: int| 0 <= i < entries.len() implies ({
        let (name, a) = #[trigger] entries[i];
        ||| t.dentries.contains_key((ino, name)) && attr(t, t.dentries[(ino, name)]) == Some(a)
        ||| ino == ROOT_INO && fs.profile() is Some && name == PROFILE_NAME@ && a
            == profile_attr_of(fs.profile()->0@, t, now, ms)
    }) by {
        if i < found.len() {
            assert(entries[i] == found[i]);
            let j = choose|j: int|
                0 <= j < list.len() && (#[trigger] list[j]).0 == found[i].0 && attr(t, list[j].1)
                    == Some(found[i].1);
            assert(t.dentries.contains_pair((ino, list[j].0), list[j].1));
        }
    }
    if ino == ROOT_INO && fs.profile() is Some && !lists_name(found, PROFILE_NAME@) {
        assert(entries[entries.len() - 1].0 == PROFILE_NAME@);
    }
}

// ── Lookups ─────────────────────────────────────────────────────────────────

/// A lookup that was used is in the cache. It comes first, and the cache holds no
/// more than it can.
pub proof fn law_used_lookup_is_cached(
    s: Seq<Lookup>,
    limit: nat,
    k: (u64, Seq<char>),
    ino: u64,
)
    requires
        0 < limit,
        s.len() <= limit,
    ensures
        cached_ino(used(s, limit, k, ino), k) == Some(ino),
        used(s, limit, k, ino)[0] == (k, ino),
        used(s, limit, k, ino).len() <= limit,
        cached_ino(without_key(s, k), k) is None,
{
    lemma_fewer(s, k);
    lemma_gone(without_key(s, k), k);
    super::dentry_cache::lemma_without_key(s, k);
    lemma_gone(s, k);
}

proof fn lemma_fewer(s: Seq<Lookup>, k: (u64, Seq<char>))
    ensures
        without_key(s, k).len() <= s.len(),
        cached_ino(s, k) is Some ==> without_key(s, k).len() < s.len(),
    decreases s.len(),
{
    if s.len() > 0 {
        let f = s.drop_last();
        lemma_fewer(f, k);
        lemma_gone(f, k);
        lemma_gone(s, k);
        if cached_ino(s, k) is Some && s.last().0 != k {
            let i = choose|i: int| 0 <= i < s.len() && (#[trigger] s[i]).0 == k;
            assert(f[i].0 == k);
        }
    }
}

proof fn lemma_gone(s: Seq<Lookup>, k: (u64, Seq<char>))
    ensures
        cached_ino(s, k) is Some <==> exists|i: int| 0 <= i < s.len() && (#[trigger] s[i]).0 == k,
    decreases s.len(),
{
    if s.len() > 0 {
        let rest = s.skip(1);
        lemma_gone(rest, k);
        if s[0].0 != k {
            if exists|i: int| 0 <= i < s.len() && (#[trigger] s[i]).0 == k {
                let i = choose|i: int| 0 <= i < s.len() && (#[trigger] s[i]).0 == k;
                assert(rest[i - 1].0 == k);
            }
            if exists|i: int| 0 <= i < rest.len() && (#[trigger] rest[i]).0 == k {
                let i = choose|i: int| 0 <= i < rest.len() && (#[trigger] rest[i]).0 == k;
                assert(s[i + 1].0 == k);
            }
        }
    }
}

// ── Imports ─────────────────────────────────────────────────────────────────

/// A file is imported only where the brain says that it has no such document.
pub proof fn law_imports_replace_nothing(reply: Result<BrainDocument, ApiError>)
    ensures
        reply is Ok ==> !missing_in_brain(reply),
        reply matches Err(e) ==> (missing_in_brain(reply) <==> e@ is NotFound),
{
}

// ── Open files ──────────────────────────────────────────────────────────────

/// What is there and is no directory can be opened, and so can the profile of a
/// mount that has one.
pub proof fn law_files_can_be_opened(profile: bool, t: Tables, ino: u64)
    ensures
        t.inodes.contains_key(ino) && ino != PROFILE_INO ==> (opened(profile, t, ino) is Ok
            <==> type_of_mode(t.inodes[ino].mode) != FileType::Directory),
        !t.inodes.contains_key(ino) && ino != PROFILE_INO ==> opened(profile, t, ino) == Err::<
            FileHandle,
            VfsErrorView,
        >(VfsErrorView::NotFound),
        opened(true, t, PROFILE_INO) == Ok::<FileHandle, VfsErrorView>(FileHandle::Profile),
        opened(profile, t, ino) matches Ok(FileHandle::File(f)) ==> f.ino == ino,
        ino != PROFILE_INO && is_dir(t, ino) ==> opened(profile, t, ino) == Err::<
            FileHandle,
            VfsErrorView,
        >(VfsErrorView::IsDirectory),
{
}

/// A name has the attributes of what it stands for, the profile at the root among
/// them. A name that the directory does not have has none.
pub proof fn law_name_has_attributes_of_its_file(
    profile: Option<Option<Seq<u8>>>,
    t: Tables,
    parent: u64,
    name: Seq<char>,
    now: Timestamp,
    ms: i64,
    ino: u64,
)
    ensures
        t.dentries.get((parent, name)) == Some(ino) && ino != PROFILE_INO && (parent != ROOT_INO
            || name != PROFILE_NAME@) ==> named_attr(profile, t, parent, name, now, ms)
            == shown_attr(profile, t, ino, now, ms),
        profile is Some ==> named_attr(profile, t, ROOT_INO, PROFILE_NAME@, now, ms) == shown_attr(
            profile,
            t,
            PROFILE_INO,
            now,
            ms,
        ),
        profile is Some ==> (shown_attr(profile, t, PROFILE_INO, now, ms) matches Some(a) && a.ino
            == PROFILE_INO),
        profile is None && !t.dentries.contains_key((parent, name)) ==> named_attr(
            profile,
            t,
            parent,
            name,
            now,
            ms,
        ) is None,
        ino != PROFILE_INO ==> shown_attr(profile, t, ino, now, ms) == attr(t, ino),
{
}

/// A read gives the bytes of the content from its offset on: as many as were
/// wanted, or those up to the end.
pub proof fn law_read_is_part_of_content(t: Tables, ino: u64, offset: int, size: int, i: int)
    requires
        0 <= offset,
        0 <= size,
    ensures
        offset + size <= content(t, ino).len() ==> read_bytes(t, ino, offset, size).len() == size,
        offset <= content(t, ino).len() < offset + size ==> read_bytes(t, ino, offset, size).len()
            == content(t, ino).len() - offset,
        content(t, ino).len() < offset ==> read_bytes(t, ino, offset, size).len() == 0,
        0 <= i < read_bytes(t, ino, offset, size).len() ==> read_bytes(t, ino, offset, size)[i]
            == content(t, ino)[offset + i],
{
}

/// What was written through an open file is read back through it. The write is
/// answered with how much it was.
pub proof fn law_open_file_gives_back_what_was_written(
    t: Tables,
    f: DbFile,
    profile: Option<Seq<u8>>,
    offset: int,
    data: Seq<u8>,
    now: Timestamp,
    ms: i64,
    later: i64,
)
    requires
        t.inodes.contains_key(f.ino),
        t.inodes[f.ino].size >= 0,
        0 <= offset,
        offset + data.len() <= i64::MAX,
        data.len() <= u32::MAX,
    ensures
        ({
            let h = FileHandle::File(f);
            let (u, r) = handle_written(h, t, offset, data, now, ms);
            &&& r == Ok::<u32, VfsErrorView>(data.len() as u32)
            &&& handle_read(h, profile, u, offset, data.len() as int, later) == Ok::<
                Seq<u8>,
                VfsErrorView,
            >(data)
            &&& data.len() > 0 ==> u.inodes.contains_key(f.ino) && u.inodes[f.ino].mtime == now
                && u.inodes[f.ino].ctime == now && u.inodes[f.ino].dirty_since == Some(ms)
                && u.inodes[f.ino].mode == t.inodes[f.ino].mode && u.inodes[f.ino].atime
                == t.inodes[f.ino].atime
        }),
{
    law_read_gives_back_write(t, f.ino, offset, data, now, ms);
    let t1 = written(t, f.ino, offset, data, now, ms);
    let u = mount_written(t, f.ino, offset, data, now, ms);
    assert(u.inodes == t1.inodes && u.chunks == t1.chunks);
    assert(content(u, f.ino) == content(t1, f.ino));
}

/// The profile can be neither written nor cut, and trying changes nothing.
pub proof fn law_profile_cannot_be_written(
    t: Tables,
    offset: int,
    data: Seq<u8>,
    size: u64,
    now: Timestamp,
    ms: i64,
)
    ensures
        handle_written(FileHandle::Profile, t, offset, data, now, ms) == (
            t,
            Err::<u32, VfsErrorView>(VfsErrorView::PermissionDenied),
        ),
        handle_cut(FileHandle::Profile, t, size) == (
            t,
            Err::<(), VfsErrorView>(VfsErrorView::PermissionDenied),
        ),
{
}

/// An open file that is cut keeps what stands before its new end.
pub proof fn law_open_file_is_cut(t: Tables, f: DbFile, size: u64, i: int)
    requires
        fits(t, f.ino),
        size <= i64::MAX,
        0 <= i < size,
        i < content(t, f.ino).len(),
    ensures
        handle_cut(FileHandle::File(f), t, size).1 is Ok,
        content(handle_cut(FileHandle::File(f), t, size).0, f.ino).len() == size,
        content(handle_cut(FileHandle::File(f), t, size).0, f.ino)[i] == content(t, f.ino)[i],
{
    law_truncate_resizes(t, f.ino, size);
}

} // verus!
