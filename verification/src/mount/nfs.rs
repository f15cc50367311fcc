//! What the NFS adapter makes of the filesystem's answers.

use crate::text::{copy_text, decimal, from_utf8, print_nat};
use crate::vfs::error::VfsResult;
use crate::vfs::types::{type_of_mode, DirEntry, FileAttr, FileType, TimeOrNow, Timestamp};
use vstd::prelude::*;
use vstd::utf8::{decode_utf8, valid_utf8};

verus! {

/// The file id of the root directory.
pub const ROOT_ID: u64 = 1;

/// The mode of files made by clients.
pub const CREATE_MODE: u32 = 0o644;

/// The mode of directories made by clients.
pub const MKDIR_MODE: u32 = 0o755;

/// The statuses that requests are refused with.
#[derive(Debug, Clone, Copy, PartialEq, Eq, Structural)]
pub enum NfsStatus {
    /// `NFS3ERR_IO`
    Io,
    /// `NFS3ERR_NOENT`
    NoEntry,
    /// `NFS3ERR_INVAL`
    Invalid,
    /// `NFS3ERR_NOTDIR`
    NotDir,
}

/// The name in a request: it has to be UTF-8.
pub fn name_of(bytes: &[u8]) -> (r: Result<String, NfsStatus>)
    ensures
        match r {
            Ok(s) => valid_utf8(bytes@) && s@ == decode_utf8(bytes@),
            Err(e) => !valid_utf8(bytes@) && e == NfsStatus::Invalid,
        },
{
    match from_utf8(bytes) {
        Some(s) => Ok(s),
        None => Err(NfsStatus::Invalid),
    }
}

/// The answer to an operation that gives something or fails.
pub open spec fn reply_to<T>(r: VfsResult<T>) -> Result<T, NfsStatus> {
    match r {
        Ok(v) => Ok(v),
        Err(_) => Err(NfsStatus::Io),
    }
}

/// The answer to an operation that may find nothing.
pub open spec fn reply_or<T>(r: VfsResult<Option<T>>, missing: NfsStatus) -> Result<T, NfsStatus> {
    match r {
        Ok(Some(v)) => Ok(v),
        Ok(None) => Err(missing),
        Err(_) => Err(NfsStatus::Io),
    }
}

/// The answer to an operation that gives something or fails.
pub fn answered<T>(r: VfsResult<T>) -> (a: Result<T, NfsStatus>)
    ensures
        a == (match r {
            Ok(v) => Ok(v),
            Err(_) => Err(NfsStatus::Io),
        }),
        a == reply_to(r),
{
    match r {
        Ok(v) => Ok(v),
        Err(_) => Err(NfsStatus::Io),
    }
}

/// The answer to an operation that may find nothing.
pub fn found<T>(r: VfsResult<Option<T>>, missing: NfsStatus) -> (a: Result<T, NfsStatus>)
    ensures
        a == (match r {
            Ok(Some(v)) => Ok(v),
            Ok(None) => Err(missing),
            Err(_) => Err(NfsStatus::Io),
        }),
        a == reply_or(r, missing),
{
    match r {
        Ok(Some(v)) => Ok(v),
        Ok(None) => Err(missing),
        Err(_) => Err(NfsStatus::Io),
    }
}

// ── Attributes ──────────────────────────────────────────────────────────────

/// A time in 32 bits of seconds.
#[derive(Debug, Clone, Copy, PartialEq, Eq, Structural)]
pub struct NfsTime {
    pub seconds: u32,
    pub nseconds: u32,
}

/// File attributes as NFS clients get them.
#[derive(Debug, Clone, Copy, PartialEq, Eq, Structural)]
pub struct NfsAttr {
    pub kind: FileType,
    pub mode: u32,
    pub nlink: u32,
    pub uid: u32,
    pub gid: u32,
    pub size: u64,
    pub used: u64,
    pub fileid: u64,
    pub atime: NfsTime,
    pub mtime: NfsTime,
    pub ctime: NfsTime,
}

/// A timestamp with its seconds cut to 32 bits.
pub open spec fn nfs_time(t: Timestamp) -> NfsTime {
    NfsTime { seconds: t.sec as u32, nseconds: t.nsec }
}

pub open spec fn nfs_attr(attr: FileAttr) -> NfsAttr {
    NfsAttr {
        kind: type_of_mode(attr.mode),
        mode: attr.mode & 0o7777,
        nlink: attr.nlink,
        uid: attr.uid,
        gid: attr.gid,
        size: attr.size,
        used: (attr.blocks * 512) as u64,
        fileid: attr.ino,
        atime: nfs_time(attr.atime),
        mtime: nfs_time(attr.mtime),
        ctime: nfs_time(attr.ctime),
    }
}

fn cut_time(t: Timestamp) -> (r: NfsTime)
    ensures
        r == nfs_time(t),
{
    NfsTime { seconds: t.sec as u32, nseconds: t.nsec }
}

/// The attributes of a file as clients get them.
pub fn vfs_attr_to_nfs(attr: &FileAttr) -> (r: NfsAttr)
    requires
        attr.blocks * 512 <= u64::MAX,
    ensures
        r == nfs_attr(*attr),
        r.fileid == attr.ino,
        r.size == attr.size,
        r.used == attr.blocks * 512,
        r.kind == type_of_mode(attr.mode),
        r.nlink == attr.nlink,
        r.uid == attr.uid,
        r.gid == attr.gid,
{
    NfsAttr {
        kind: attr.file_type(),
        mode: attr.mode & 0o7777,
        nlink: attr.nlink,
        uid: attr.uid,
        gid: attr.gid,
        size: attr.size,
        used: attr.blocks * 512,
        fileid: attr.ino,
        atime: cut_time(attr.atime),
        mtime: cut_time(attr.mtime),
        ctime: cut_time(attr.ctime),
    }
}

/// A client's wish for a time.
#[derive(Debug, Clone, Copy, PartialEq, Eq, Structural)]
pub enum SetTime {
    DontChange,
    ServerTime,
    ClientTime(NfsTime),
}

/// The request that a client's wish for a time stands for.
pub open spec fn time_wanted(t: SetTime) -> Option<TimeOrNow> {
    match t {
        SetTime::DontChange => None,
        SetTime::ServerTime => Some(TimeOrNow::Now),
        SetTime::ClientTime(c) => Some(
            TimeOrNow::Time(Timestamp { sec: c.seconds as i64, nsec: c.nseconds }),
        ),
    }
}

/// See [`time_wanted`].
pub fn wanted_time(t: SetTime) -> (r: Option<TimeOrNow>)
    ensures
        r == time_wanted(t),
        r == (match t {
            SetTime::DontChange => None,
            SetTime::ServerTime => Some(TimeOrNow::Now),
            SetTime::ClientTime(c) => Some(
                TimeOrNow::Time(Timestamp { sec: c.seconds as i64, nsec: c.nseconds }),
            ),
        }),
{
    match t {
        SetTime::DontChange => None,
        SetTime::ServerTime => Some(TimeOrNow::Now),
        SetTime::ClientTime(c) => Some(
            TimeOrNow::Time(Timestamp { sec: c.seconds as i64, nsec: c.nseconds }),
        ),
    }
}

/// A read of `len` bytes at `offset` reaches the end of a file of `size` bytes.
pub open spec fn read_ends(offset: int, len: int, size: int) -> bool {
    offset + len >= size
}

/// Whether a read of `len` bytes at `offset` reaches the end of the file.
pub fn reaches_end(offset: u64, len: usize, size: u64) -> (r: bool)
    requires
        offset + len <= u64::MAX,
    ensures
        r == (offset + len >= size),
        r == read_ends(offset as int, len as int, size as int),
{
    offset + len as u64 >= size
}

// ── Listing in pages ────────────────────────────────────────────────────────

/// The position behind the first entry with the id `after`, from `i` on; the
/// end where there is none.
pub open spec fn position_after(entries: Seq<DirEntry>, after: u64, i: int) -> int
    decreases entries.len() - i,
{
    if i < 0 || i >= entries.len() {
        entries.len() as int
    } else if entries[i].attr.ino == after {
        i + 1
    } else {
        position_after(entries, after, i + 1)
    }
}

/// Where a page begins: at the front, or behind the entry `after`.
pub open spec fn page_start(entries: Seq<DirEntry>, after: u64) -> int {
    if after == 0 {
        0
    } else {
        position_after(entries, after, 0)
    }
}

/// Where a page ends.
pub open spec fn page_end(entries: Seq<DirEntry>, after: u64, max: usize) -> int {
    if entries.len() - page_start(entries, after) < max {
        entries.len() as int
    } else {
        page_start(entries, after) + max
    }
}

pub proof fn lemma_position_after(entries: Seq<DirEntry>, after: u64, i: int)
    requires
        0 <= i <= entries.len(),
    ensures
        i <= position_after(entries, after, i) <= entries.len(),
    decreases entries.len() - i,
{
    if i < entries.len() && entries[i].attr.ino != after {
        lemma_position_after(entries, after, i + 1);
    }
}

/// A page of a listing: the entries from `start` up to `end`, and whether it is
/// the last page.
#[derive(Debug, Clone, Copy, PartialEq, Eq, Structural)]
pub struct Page {
    pub start: usize,
    pub end: usize,
    pub last: bool,
}

/// The page of at most `max` entries behind the entry `start_after`; zero stands
/// for the front. A page that is not full is the last.
pub fn readdir(entries: &Vec<DirEntry>, start_after: u64, max: usize) -> (r: Page)
    ensures
        r.start == page_start(entries@, start_after),
        r.end == page_end(entries@, start_after, max),
        r.last == (r.end - r.start < max),
{
    let n: usize = entries.len();
    let mut i: usize = 0;
    if start_after != 0 {
        proof {
            lemma_position_after(entries@, start_after, 0);
        }
        while i < n && entries[i].attr.ino != start_after
            invariant
                n == entries@.len(),
                i <= n,
                position_after(entries@, start_after, 0) == position_after(
                    entries@,
                    start_after,
                    i as int,
                ),
            decreases n - i,
        {
            i += 1;
        }
        if i < n {
            i += 1;
        }
    }
    let end: usize = if n - i < max {
        n
    } else {
        i + max
    };
    Page { start: i, end, last: end - i < max }
}

/// Listing on behind the last entry of a page gives what follows the page, so
/// pages neither repeat nor skip an entry. Ids are distinct and not zero.
pub proof fn law_pages_follow_each_other(entries: Seq<DirEntry>, after: u64, max: usize)
    requires
        forall|i: int, j: int|
            0 <= i < j < entries.len() ==> (#[trigger] entries[i]).attr.ino != (
            #[trigger] entries[j]).attr.ino,
        forall|i: int| 0 <= i < entries.len() ==> (#[trigger] entries[i]).attr.ino != 0,
        max > 0,
        page_start(entries, after) < entries.len(),
    ensures
        page_start(entries, after) < page_end(entries, after, max) <= entries.len(),
        page_start(entries, entries[page_end(entries, after, max) - 1].attr.ino) == page_end(
            entries,
            after,
            max,
        ),
{
    lemma_position_after(entries, after, 0);
    let k = page_end(entries, after, max) - 1;
    lemma_position_of(entries, k, 0);
}

proof fn lemma_position_of(entries: Seq<DirEntry>, k: int, i: int)
    requires
        0 <= i <= k < entries.len(),
        forall|i: int, j: int|
            0 <= i < j < entries.len() ==> (#[trigger] entries[i]).attr.ino != (
            #[trigger] entries[j]).attr.ino,
    ensures
        position_after(entries, entries[k].attr.ino, i) == k + 1,
    decreases k - i,
{
    if i < k {
        assert(entries[i].attr.ino != entries[k].attr.ino);
        lemma_position_of(entries, k, i + 1);
    }
}

// ── Mounting ────────────────────────────────────────────────────────────────

/// The options of `mount -t nfs` for a server on `port`.
pub fn linux_options(port: u16) -> (r: String)
    ensures
        r@ == "port="@ + decimal(port as nat) + ",mountport="@ + decimal(port as nat)
            + ",proto=tcp,nfsvers=3,nolock,soft"@,
{
    let p = print_nat(port as u64);
    copy_text("port=").concat(p.as_str()).concat(",mountport=").concat(p.as_str()).concat(
        ",proto=tcp,nfsvers=3,nolock,soft",
    )
}

/// The options of `mount_nfs` for a server on `port`.
pub fn macos_options(port: u16) -> (r: String)
    ensures
        r@ == "vers=3,tcp,port="@ + decimal(port as nat) + ",mountport="@ + decimal(port as nat)
            + ",soft,nolocks,locallocks,nfc"@,
{
    let p = print_nat(port as u64);
    copy_text("vers=3,tcp,port=").concat(p.as_str()).concat(",mountport=").concat(
        p.as_str(),
    ).concat(",soft,nolocks,locallocks,nfc")
}

} // verus!
