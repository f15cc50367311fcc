//! What the FUSE adapter makes of the filesystem's answers.

use crate::cache::fs::FileHandle;
use crate::table::{Row, Table};
use crate::text::{copy_text, from_utf8, from_utf8_lossy};
use crate::vfs::error::{VfsError, VfsResult};
use crate::vfs::types::{
    type_of_mode, DirEntry, FileAttr, FileType, FilesystemStats, TimeOrNow, Timestamp,
};
use vstd::prelude::*;

verus! {

/// Attribute cache TTL in seconds: a year. The daemon is the only writer, so
/// what the kernel has cached never goes stale on its own.
pub const TTL_SECS: u64 = 31_536_000;

/// Free blocks and inodes, as far as anyone is told.
pub const PLENTY: u64 = 9_223_372_036_854_775_807;

// ── Answers ─────────────────────────────────────────────────────────────────

/// Why a request is refused.
#[derive(Debug, PartialEq, Eq)]
pub enum FuseError {
    /// `ENOENT`
    NoEntry,
    /// `ENOTDIR`
    NotDir,
    /// `EBADF`
    BadHandle,
    /// `EINVAL`
    Invalid,
    /// The error's own number.
    Vfs(VfsError),
}

/// The answer to an operation that gives something or fails.
pub open spec fn answer_to<T>(r: VfsResult<T>) -> Result<T, FuseError> {
    match r {
        Ok(v) => Ok(v),
        Err(e) => Err(FuseError::Vfs(e)),
    }
}

/// The answer to an operation that may find nothing, which is answered with
/// `missing`.
pub open spec fn answer_or<T>(r: VfsResult<Option<T>>, missing: FuseError) -> Result<
    T,
    FuseError,
> {
    match r {
        Ok(Some(v)) => Ok(v),
        Ok(None) => Err(missing),
        Err(e) => Err(FuseError::Vfs(e)),
    }
}

/// The answer to an operation that gives something or fails.
pub fn answered<T>(r: VfsResult<T>) -> (a: Result<T, FuseError>)
    ensures
        a == (match r {
            Ok(v) => Ok(v),
            Err(e) => Err(FuseError::Vfs(e)),
        }),
        a == answer_to(r),
{
    match r {
        Ok(v) => Ok(v),
        Err(e) => Err(FuseError::Vfs(e)),
    }
}

/// The answer to an operation that may find nothing.
pub fn found<T>(r: VfsResult<Option<T>>) -> (a: Result<T, FuseError>)
    ensures
        a == (match r {
            Ok(Some(v)) => Ok(v),
            Ok(None) => Err(FuseError::NoEntry),
            Err(e) => Err(FuseError::Vfs(e)),
        }),
        a == answer_or(r, FuseError::NoEntry),
{
    match r {
        Ok(Some(v)) => Ok(v),
        Ok(None) => Err(FuseError::NoEntry),
        Err(e) => Err(FuseError::Vfs(e)),
    }
}

/// The answer to a listing: what has no entries is no directory.
pub fn listed<T>(r: VfsResult<Option<T>>) -> (a: Result<T, FuseError>)
    ensures
        a == (match r {
            Ok(Some(v)) => Ok(v),
            Ok(None) => Err(FuseError::NotDir),
            Err(e) => Err(FuseError::Vfs(e)),
        }),
        a == answer_or(r, FuseError::NotDir),
{
    match r {
        Ok(Some(v)) => Ok(v),
        Ok(None) => Err(FuseError::NotDir),
        Err(e) => Err(FuseError::Vfs(e)),
    }
}

/// The name in a request, with what is no UTF-8 replaced.
pub fn name_of(bytes: &[u8]) -> (r: String)
    ensures
        r@ == crate::text::lossy_text(bytes@),
        vstd::utf8::valid_utf8(bytes@) ==> r@ == vstd::utf8::decode_utf8(bytes@),
{
    from_utf8_lossy(bytes)
}

/// The name or target of a link: it has to be UTF-8.
pub fn link_text(bytes: &[u8]) -> (r: Result<String, FuseError>)
    ensures
        match r {
            Ok(s) => vstd::utf8::valid_utf8(bytes@) && s@ == vstd::utf8::decode_utf8(bytes@),
            Err(e) => !vstd::utf8::valid_utf8(bytes@) && e == FuseError::Invalid,
        },
{
    match from_utf8(bytes) {
        Some(s) => Ok(s),
        None => Err(FuseError::Invalid),
    }
}

// ── Attributes ──────────────────────────────────────────────────────────────

/// Seconds and nanoseconds since the epoch.
#[derive(Debug, Clone, Copy, PartialEq, Eq, Structural)]
pub struct KernelTime {
    pub secs: u64,
    pub nanos: u32,
}

/// File attributes as the kernel gets them.
#[derive(Debug, Clone, Copy, PartialEq, Eq, Structural)]
pub struct KernelAttr {
    pub ino: u64,
    pub size: u64,
    pub blocks: u64,
    pub atime: KernelTime,
    pub mtime: KernelTime,
    pub ctime: KernelTime,
    pub kind: FileType,
    pub perm: u16,
    pub nlink: u32,
    pub uid: u32,
    pub gid: u32,
    pub rdev: u32,
    pub blksize: u32,
}

/// A timestamp with its seconds as an unsigned number.
pub open spec fn kernel_time(t: Timestamp) -> KernelTime {
    KernelTime { secs: t.sec as u64, nanos: t.nsec }
}

pub open spec fn kernel_attr(attr: FileAttr) -> KernelAttr {
    KernelAttr {
        ino: attr.ino,
        size: attr.size,
        blocks: attr.blocks,
        atime: kernel_time(attr.atime),
        mtime: kernel_time(attr.mtime),
        ctime: kernel_time(attr.ctime),
        kind: type_of_mode(attr.mode),
        perm: (attr.mode & 0o7777) as u16,
        nlink: attr.nlink,
        uid: attr.uid,
        gid: attr.gid,
        rdev: attr.rdev,
        blksize: attr.blksize,
    }
}

fn to_kernel_time(t: Timestamp) -> (r: KernelTime)
    ensures
        r == kernel_time(t),
{
    KernelTime { secs: t.sec as u64, nanos: t.nsec }
}

/// The attributes of a file as the kernel gets them.
pub fn to_fuser_attr(attr: &FileAttr) -> (r: KernelAttr)
    ensures
        r == kernel_attr(*attr),
        r.ino == attr.ino,
        r.size == attr.size,
        r.blocks == attr.blocks,
        r.kind == type_of_mode(attr.mode),
        r.nlink == attr.nlink,
        r.uid == attr.uid,
        r.gid == attr.gid,
{
    KernelAttr {
        ino: attr.ino,
        size: attr.size,
        blocks: attr.blocks,
        atime: to_kernel_time(attr.atime),
        mtime: to_kernel_time(attr.mtime),
        ctime: to_kernel_time(attr.ctime),
        kind: attr.file_type(),
        perm: (attr.mode & 0o7777) as u16,
        nlink: attr.nlink,
        uid: attr.uid,
        gid: attr.gid,
        rdev: attr.rdev,
        blksize: attr.blksize,
    }
}

/// The request for a time that the kernel names, as seconds and nanoseconds
/// since the epoch, or nothing for one before it.
pub fn specific_time(reading: Option<(u64, u32)>) -> (r: TimeOrNow)
    ensures
        r == TimeOrNow::Time(Timestamp::spec_of_reading(reading)),
{
    TimeOrNow::Time(Timestamp::of_reading(reading))
}

/// Filesystem-wide numbers as the kernel gets them.
#[derive(Debug, Clone, Copy, PartialEq, Eq, Structural)]
pub struct KernelStats {
    pub blocks: u64,
    pub bfree: u64,
    pub bavail: u64,
    pub files: u64,
    pub ffree: u64,
    pub bsize: u32,
    pub namelen: u32,
    pub frsize: u32,
}

/// The numbers for the kernel: blocks of 4096 bytes, and plenty of room.
pub open spec fn kernel_stats(stats: FilesystemStats) -> KernelStats {
    KernelStats {
        blocks: stats.bytes_used / 4096,
        bfree: PLENTY,
        bavail: PLENTY,
        files: stats.inodes,
        ffree: PLENTY,
        bsize: 4096,
        namelen: 255,
        frsize: 4096,
    }
}

/// See [`kernel_stats`].
pub fn statfs(stats: FilesystemStats) -> (r: KernelStats)
    ensures
        r == kernel_stats(stats),
        r == (KernelStats {
            blocks: stats.bytes_used / 4096,
            bfree: PLENTY,
            bavail: PLENTY,
            files: stats.inodes,
            ffree: PLENTY,
            bsize: 4096,
            namelen: 255,
            frsize: 4096,
        }),
{
    KernelStats {
        blocks: stats.bytes_used / 4096,
        bfree: PLENTY,
        bavail: PLENTY,
        files: stats.inodes,
        ffree: PLENTY,
        bsize: 4096,
        namelen: 255,
        frsize: 4096,
    }
}

// ── Listing ─────────────────────────────────────────────────────────────────

/// One entry of a listing: `next` is the offset at which a listing goes on
/// behind it.
#[derive(Debug)]
pub struct DirLine {
    pub ino: u64,
    pub next: u64,
    pub kind: FileType,
    pub name: String,
}

/// A [`DirLine`] with its name as a character sequence.
pub struct DirLineView {
    pub ino: u64,
    pub next: u64,
    pub kind: FileType,
    pub name: Seq<char>,
}

impl View for DirLine {
    type V = DirLineView;

    open spec fn view(&self) -> DirLineView {
        DirLineView { ino: self.ino, next: self.next, kind: self.kind, name: self.name@ }
    }
}

/// How the entry at position `i` is listed.
pub open spec fn dir_line(entries: Seq<DirEntry>, i: int) -> DirLineView {
    DirLineView {
        ino: entries[i].attr.ino,
        next: (i + 1) as u64,
        kind: type_of_mode(entries[i].attr.mode),
        name: entries[i].name@,
    }
}

/// The entries from position `offset` on.
pub open spec fn dir_lines(entries: Seq<DirEntry>, offset: u64) -> Seq<DirLineView> {
    Seq::new(
        (if offset <= entries.len() {
            entries.len() - offset
        } else {
            0
        }) as nat,
        |i: int| dir_line(entries, offset + i),
    )
}

pub open spec fn line_views(v: Seq<DirLine>) -> Seq<DirLineView> {
    v.map_values(|l: DirLine| l@)
}

/// The entries of a directory from the position on that a listing goes on at.
pub fn readdir(entries: &Vec<DirEntry>, offset: u64) -> (r: Vec<DirLine>)
    ensures
        line_views(r@) == dir_lines(entries@, offset),
{
    let n: usize = entries.len();
    let mut out: Vec<DirLine> = Vec::new();
    if offset >= n as u64 {
        assert(line_views(out@) =~= dir_lines(entries@, offset));
        return out;
    }
    let mut i: usize = offset as usize;
    assert(line_views(out@) =~= Seq::empty());
    while i < n
        invariant
            n == entries@.len(),
            offset <= i <= n,
            line_views(out@) == dir_lines(entries@.take(i as int), offset),
        decreases n - i,
    {
        let ghost before = line_views(out@);
        let e = &entries[i];
        let line = DirLine {
            ino: e.attr.ino,
            next: i as u64 + 1,
            kind: e.attr.file_type(),
            name: copy_text(e.name.as_str()),
        };
        out.push(line);
        assert(line_views(out@) =~= before.push(line@));
        assert(line_views(out@) =~= dir_lines(entries@.take(i + 1), offset));
        i += 1;
    }
    assert(entries@.take(n as int) =~= entries@);
    out
}

// ── Open files ──────────────────────────────────────────────────────────────

impl Row for FileHandle {
    type Model = FileHandle;

    open spec fn row(&self) -> FileHandle {
        *self
    }

    open spec fn ok(&self) -> bool {
        true
    }
}

/// Open file table: handle number → open file.
#[derive(Debug)]
pub struct OpenFiles {
    pub files: Table<u64, FileHandle>,
    pub next_fh: u64,
}

impl OpenFiles {
    pub open spec fn wf(&self) -> bool {
        self.files.wf()
    }

    /// No file is open.
    pub fn new() -> (r: Self)
        ensures
            r.wf(),
            r.files@ == Map::<u64, FileHandle>::empty(),
            r.next_fh == 1,
    {
        OpenFiles { files: Table::new(), next_fh: 1 }
    }

    /// Gives an open file a number: the one after the number given last.
    pub fn alloc_fh(&mut self, file: FileHandle) -> (fh: u64)
        requires
            old(self).wf(),
        ensures
            final(self).wf(),
            fh == old(self).next_fh,
            final(self).files@ == old(self).files@.insert(fh, file),
            final(self).next_fh == old(self).next_fh.wrapping_add(1),
    {
        let fh: u64 = self.next_fh;
        self.next_fh = fh.wrapping_add(1);
        self.files.put(fh, file);
        fh
    }

    /// The open file with a number.
    pub fn get_file(&self, fh: u64) -> (r: Result<FileHandle, FuseError>)
        requires
            self.wf(),
        ensures
            r == (if self.files@.contains_key(fh) {
                Ok(self.files@[fh])
            } else {
                Err(FuseError::BadHandle)
            }),
    {
        match self.files.get(&fh) {
            Some(f) => Ok(*f),
            None => Err(FuseError::BadHandle),
        }
    }

    /// Closes the file with a number.
    pub fn release_fh(&mut self, fh: u64)
        requires
            old(self).wf(),
        ensures
            final(self).wf(),
            final(self).files@ == old(self).files@.remove(fh),
            final(self).next_fh == old(self).next_fh,
    {
        self.files.remove(&fh);
    }

    /// Closes all files.
    pub fn destroy(&mut self)
        ensures
            final(self).wf(),
            final(self).files@ == Map::<u64, FileHandle>::empty(),
            final(self).next_fh == old(self).next_fh,
    {
        self.files = Table::new();
    }
}

} // verus!
