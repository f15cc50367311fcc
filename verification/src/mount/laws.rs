//! What the kernel and NFS clients are told of the files.

use super::fuse::{answer_or, answer_to, dir_lines, kernel_attr, kernel_stats, FuseError};
use super::nfs::{
    nfs_attr, nfs_time, page_end, page_start, read_ends, reply_or, reply_to, time_wanted, NfsStatus,
    SetTime,
};
use crate::cache::file::read_bytes;
use crate::cache::fs_laws::law_size_is_length_of_content;
use crate::cache::model::{attr, content};
use crate::cache::rows::Tables;
use crate::vfs::error::{VfsError, VfsResult};
use crate::vfs::mode::{S_IFDIR, S_IFLNK, S_IFMT, S_IFREG};
use crate::vfs::types::{
    requested_time, type_of_mode, DirEntry, FileAttr, FileType, FilesystemStats, Timestamp,
};
use vstd::prelude::*;

verus! {

// ── FUSE ────────────────────────────────────────────────────────────────────

/// The kernel gets the number, the size, the blocks, the links, the owner and the
/// device of a file as they are, its type, its permissions, and its times where
/// they are not before the epoch.
pub proof fn law_kernel_gets_the_attributes(a: FileAttr)
    ensures
        kernel_attr(a).ino == a.ino,
        kernel_attr(a).size == a.size,
        kernel_attr(a).blocks == a.blocks,
        kernel_attr(a).nlink == a.nlink,
        kernel_attr(a).uid == a.uid,
        kernel_attr(a).gid == a.gid,
        kernel_attr(a).rdev == a.rdev,
        kernel_attr(a).blksize == a.blksize,
        kernel_attr(a).kind == type_of_mode(a.mode),
        kernel_attr(a).perm <= 0o7777,
        a.mode <= 0o177777 ==> (a.mode & S_IFMT) | kernel_attr(a).perm as u32 == a.mode,
        a.atime.sec >= 0 ==> kernel_attr(a).atime.secs == a.atime.sec && kernel_attr(a).atime.nanos
            == a.atime.nsec,
        a.mtime.sec >= 0 ==> kernel_attr(a).mtime.secs == a.mtime.sec && kernel_attr(a).mtime.nanos
            == a.mtime.nsec,
        a.ctime.sec >= 0 ==> kernel_attr(a).ctime.secs == a.ctime.sec && kernel_attr(a).ctime.nanos
            == a.ctime.nsec,
{
    let m = a.mode;
    assert(m & 0o7777 <= 0o7777) by (bit_vector);
    assert(m <= 0o177777 ==> (m & 0o170000) | (m & 0o7777) == m) by (bit_vector);
}

/// The size that the kernel gets of a file is the length of its content: reading
/// that many bytes from the start gives all of it.
pub proof fn law_kernel_size_is_length_of_content(t: Tables, ino: u64)
    requires
        t.inodes.contains_key(ino),
        t.inodes[ino].size >= 0,
    ensures
        attr(t, ino) matches Some(a) && kernel_attr(a).size == content(t, ino).len() && read_bytes(
            t,
            ino,
            0,
            kernel_attr(a).size as int,
        ) == content(t, ino) && kernel_attr(a).ino == ino && kernel_attr(a).blocks * 512 >= content(
            t,
            ino,
        ).len() && kernel_attr(a).blocks * 512 - content(t, ino).len() < 512,
{
    law_size_is_length_of_content(t, ino);
}

/// A directory, a regular file and a symbolic link are told apart whatever their
/// permissions are.
pub proof fn law_types_are_told_apart(perm: u32)
    requires
        perm <= 0o7777,
    ensures
        type_of_mode(S_IFDIR | perm) == FileType::Directory,
        type_of_mode(S_IFREG | perm) == FileType::Regular,
        type_of_mode(S_IFLNK | perm) == FileType::Symlink,
{
    assert(perm <= 0o7777 ==> (0o040000u32 | perm) & 0o170000 == 0o040000) by (bit_vector);
    assert(perm <= 0o7777 ==> (0o100000u32 | perm) & 0o170000 == 0o100000) by (bit_vector);
    assert(perm <= 0o7777 ==> (0o120000u32 | perm) & 0o170000 == 0o120000) by (bit_vector);
}

/// A listing from the front has every entry in order, with its name, its number
/// and its type.
pub proof fn law_listing_is_complete(entries: Seq<DirEntry>)
    requires
        entries.len() < u64::MAX,
    ensures
        dir_lines(entries, 0).len() == entries.len(),
        forall|i: int|
            0 <= i < entries.len() ==> (#[trigger] dir_lines(entries, 0)[i]).name
                == entries[i].name@ && dir_lines(entries, 0)[i].ino == entries[i].attr.ino
                && dir_lines(entries, 0)[i].kind == type_of_mode(entries[i].attr.mode),
{
}

/// A listing that goes on at the offset of one of its lines goes on behind that
/// line: nothing is listed twice and nothing is left out.
pub proof fn law_listing_goes_on(entries: Seq<DirEntry>, offset: u64, k: int)
    requires
        entries.len() < u64::MAX,
        0 <= k < dir_lines(entries, offset).len(),
    ensures
        dir_lines(entries, dir_lines(entries, offset)[k].next) == dir_lines(entries, offset).skip(
            k + 1,
        ),
{
    let next = dir_lines(entries, offset)[k].next;
    assert(next == offset + k + 1);
    assert(dir_lines(entries, next) =~= dir_lines(entries, offset).skip(k + 1));
}

/// The kernel is told of as many whole blocks as the files fill, of every inode,
/// and that there is plenty of room.
pub proof fn law_kernel_statistics(stats: FilesystemStats)
    ensures
        ({
            let k = kernel_stats(stats);
            &&& k.blocks * k.frsize <= stats.bytes_used < (k.blocks + 1) * k.frsize
            &&& k.bsize == k.frsize == 4096
            &&& k.files == stats.inodes
            &&& k.namelen == 255
            &&& k.bfree == i64::MAX && k.bavail == i64::MAX && k.ffree == i64::MAX
        }),
{
    let k = kernel_stats(stats);
    assert(k.blocks * k.frsize == k.blocks * 4096);
    assert((k.blocks + 1) * k.frsize == (k.blocks + 1) * 4096);
}

// ── NFS ─────────────────────────────────────────────────────────────────────

/// Clients get the number, the size, the links and the owner of a file as they
/// are, its type, its permissions, and its times as far as 32 bits hold them.
pub proof fn law_clients_get_the_attributes(a: FileAttr)
    requires
        a.blocks * 512 <= u64::MAX,
    ensures
        nfs_attr(a).fileid == a.ino,
        nfs_attr(a).size == a.size,
        nfs_attr(a).used == a.blocks * 512,
        nfs_attr(a).nlink == a.nlink,
        nfs_attr(a).uid == a.uid,
        nfs_attr(a).gid == a.gid,
        nfs_attr(a).kind == type_of_mode(a.mode),
        nfs_attr(a).mode <= 0o7777,
        a.mode <= 0o177777 ==> (a.mode & S_IFMT) | nfs_attr(a).mode == a.mode,
        0 <= a.atime.sec <= u32::MAX ==> nfs_attr(a).atime.seconds == a.atime.sec && nfs_attr(
            a,
        ).atime.nseconds == a.atime.nsec,
        0 <= a.mtime.sec <= u32::MAX ==> nfs_attr(a).mtime.seconds == a.mtime.sec && nfs_attr(
            a,
        ).mtime.nseconds == a.mtime.nsec,
        0 <= a.ctime.sec <= u32::MAX ==> nfs_attr(a).ctime.seconds == a.ctime.sec && nfs_attr(
            a,
        ).ctime.nseconds == a.ctime.nsec,
{
    let m = a.mode;
    assert(m & 0o7777 <= 0o7777) by (bit_vector);
    assert(m <= 0o177777 ==> (m & 0o170000) | (m & 0o7777) == m) by (bit_vector);
}

/// The size that clients get of a file is the length of its content, and the room
/// that it is said to take is enough for it.
pub proof fn law_client_size_is_length_of_content(t: Tables, ino: u64)
    requires
        t.inodes.contains_key(ino),
        t.inodes[ino].size >= 0,
    ensures
        attr(t, ino) matches Some(a) && nfs_attr(a).size == content(t, ino).len() && nfs_attr(
            a,
        ).fileid == ino && content(t, ino).len() <= nfs_attr(a).used < content(t, ino).len() + 512,
{
    law_size_is_length_of_content(t, ino);
}

/// A time that a client sets is the one that it is told afterwards. A client that
/// asks for the server's time gets that, and one that asks for none changes none.
pub proof fn law_set_time_is_told(wish: SetTime, now: Timestamp)
    ensures
        wish matches SetTime::ClientTime(c) ==> time_wanted(wish) is Some && nfs_time(
            requested_time(time_wanted(wish)->0, now),
        ) == c,
        wish is ServerTime ==> time_wanted(wish) is Some && requested_time(
            time_wanted(wish)->0,
            now,
        ) == now,
        wish is DontChange <==> time_wanted(wish) is None,
{
}

/// A read is said to reach the end of a file exactly where nothing is left behind
/// it.
pub proof fn law_end_is_told(t: Tables, ino: u64, offset: u64, n: nat, more: nat)
    requires
        t.inodes.contains_key(ino),
        t.inodes[ino].size >= 0,
        more > 0,
    ensures
        ({
            let got = read_bytes(t, ino, offset as int, n as int).len();
            read_ends(offset as int, got as int, attr(t, ino)->0.size as int) <==> read_bytes(
                t,
                ino,
                offset + got,
                more as int,
            ).len() == 0
        }),
{
    law_size_is_length_of_content(t, ino);
}

/// A listing begins with the first entry, a page has at most as many entries as
/// were asked for, and only a page that has all that are left is smaller.
pub proof fn law_pages(entries: Seq<DirEntry>, after: u64, max: usize)
    ensures
        page_start(entries, 0) == 0,
        0 <= page_start(entries, after) <= page_end(entries, after, max) <= entries.len(),
        page_end(entries, after, max) - page_start(entries, after) <= max,
        page_end(entries, after, max) - page_start(entries, after) < max ==> page_end(
            entries,
            after,
            max,
        ) == entries.len(),
{
    super::nfs::lemma_position_after(entries, after, 0);
}

// ── Answers ─────────────────────────────────────────────────────────────────

/// What an operation gave is what is answered, and an answer that something was
/// found is never made up. An error is handed on to the kernel, and NFS clients
/// hear that there was one.
pub proof fn law_answers_are_what_was_given<T>(
    r: VfsResult<T>,
    o: VfsResult<Option<T>>,
    missing: FuseError,
    lost: NfsStatus,
)
    ensures
        r is Ok <==> answer_to(r) is Ok,
        r matches Ok(v) ==> answer_to(r) == Ok::<T, FuseError>(v) && reply_to(r) == Ok::<
            T,
            NfsStatus,
        >(v),
        r matches Err(e) ==> answer_to(r) == Err::<T, FuseError>(FuseError::Vfs(e)) && reply_to(r)
            == Err::<T, NfsStatus>(NfsStatus::Io),
        answer_or(o, missing) matches Ok(v) ==> o == Ok::<Option<T>, VfsError>(Some(v)),
        reply_or(o, lost) matches Ok(v) ==> o == Ok::<Option<T>, VfsError>(Some(v)),
        o matches Ok(Some(v)) ==> answer_or(o, missing) is Ok && reply_or(o, lost) is Ok,
        o matches Ok(None) ==> answer_or(o, missing) == Err::<T, FuseError>(missing) && reply_or(
            o,
            lost,
        ) == Err::<T, NfsStatus>(lost),
        o matches Err(e) ==> answer_or(o, missing) == Err::<T, FuseError>(FuseError::Vfs(e))
            && reply_or(o, lost) == Err::<T, NfsStatus>(NfsStatus::Io),
{
}

} // verus!
