//! File attributes and the requests that change them.

use super::mode::{
    DEFAULT_DIR_MODE, DEFAULT_FILE_MODE, DEFAULT_SYMLINK_MODE, PREFERRED_BLOCK_SIZE, S_IFDIR,
    S_IFLNK, S_IFMT, S_IFREG,
};
use crate::clock::since_epoch;
use vstd::prelude::*;

verus! {

/// A Unix-style timestamp with nanosecond precision.
#[derive(Copy, Clone, Debug, PartialEq, Eq, Hash, Structural)]
pub struct Timestamp {
    pub sec: i64,
    pub nsec: u32,
}

impl Timestamp {
    /// The Unix epoch.
    pub fn zero() -> (r: Self)
        ensures
            r == (Timestamp { sec: 0, nsec: 0 }),
    {
        Timestamp { sec: 0, nsec: 0 }
    }

    /// The timestamp of a reading of the system clock: its seconds cut to 64
    /// signed bits and its nanoseconds, or zero for a clock before the epoch.
    pub open spec fn spec_of_reading(reading: Option<(u64, u32)>) -> Timestamp {
        match reading {
            Some(d) => Timestamp { sec: d.0 as i64, nsec: d.1 },
            None => Timestamp { sec: 0, nsec: 0 },
        }
    }

    /// See [`Timestamp::spec_of_reading`].
    pub fn of_reading(reading: Option<(u64, u32)>) -> (r: Self)
        ensures
            r == Timestamp::spec_of_reading(reading),
    {
        match reading {
            Some(d) => Timestamp { sec: d.0 as i64, nsec: d.1 },
            None => Timestamp::zero(),
        }
    }

    /// The current time.
    pub fn now() -> (r: Self)
        ensures
            r.nsec < 1_000_000_000,
            exists|reading: Option<(u64, u32)>| r == #[trigger] Timestamp::spec_of_reading(reading),
    {
        let reading = since_epoch();
        Timestamp::of_reading(reading)
    }

    pub fn from_secs(sec: i64) -> (r: Self)
        ensures
            r == (Timestamp { sec, nsec: 0 }),
    {
        Timestamp { sec, nsec: 0 }
    }
}

/// File type classification.
#[derive(Copy, Clone, Debug, PartialEq, Eq, Structural)]
pub enum FileType {
    Regular,
    Directory,
    Symlink,
}

/// The file type that a mode word encodes. Anything that is neither a
/// directory nor a symbolic link counts as a regular file.
pub open spec fn type_of_mode(mode: u32) -> FileType {
    if mode & S_IFMT == S_IFDIR {
        FileType::Directory
    } else if mode & S_IFMT == S_IFLNK {
        FileType::Symlink
    } else {
        FileType::Regular
    }
}

/// The number of 512-byte blocks that hold `size` bytes.
pub open spec fn blocks_for(size: u64) -> u64 {
    ((size + 511) / 512) as u64
}

/// See [`blocks_for`].
pub fn block_count(size: u64) -> (r: u64)
    ensures
        r == blocks_for(size),
{
    if size % 512 == 0 {
        size / 512
    } else {
        size / 512 + 1
    }
}

/// Complete metadata for an inode, the equivalent of POSIX `struct stat`.
#[derive(Copy, Clone, Debug, PartialEq, Eq, Structural)]
pub struct FileAttr {
    pub ino: u64,
    pub mode: u32,
    pub nlink: u32,
    pub uid: u32,
    pub gid: u32,
    pub size: u64,
    pub blocks: u64,
    pub atime: Timestamp,
    pub mtime: Timestamp,
    pub ctime: Timestamp,
    pub rdev: u32,
    pub blksize: u32,
}

/// The attributes of an inode that was made at `ts`: every time is `ts`, no
/// blocks are in use, and the device number is zero.
pub open spec fn fresh_attr(
    ino: u64,
    mode: u32,
    nlink: u32,
    uid: u32,
    gid: u32,
    size: u64,
    ts: Timestamp,
) -> FileAttr {
    FileAttr {
        ino,
        mode,
        nlink,
        uid,
        gid,
        size,
        blocks: 0,
        atime: ts,
        mtime: ts,
        ctime: ts,
        rdev: 0,
        blksize: PREFERRED_BLOCK_SIZE,
    }
}

impl FileAttr {
    /// A regular file with the default mode, made now.
    pub fn new_file(ino: u64, uid: u32, gid: u32) -> (r: Self)
        ensures
            exists|ts: Timestamp|
                r == #[trigger] fresh_attr(ino, DEFAULT_FILE_MODE, 1, uid, gid, 0, ts),
    {
        let now = Timestamp::now();
        Self::new_file_with(ino, DEFAULT_FILE_MODE, uid, gid, now)
    }

    /// A directory with the default mode, made now.
    pub fn new_dir(ino: u64, uid: u32, gid: u32) -> (r: Self)
        ensures
            exists|ts: Timestamp|
                r == #[trigger] fresh_attr(ino, DEFAULT_DIR_MODE, 2, uid, gid, 0, ts),
    {
        let now = Timestamp::now();
        Self::new_dir_with(ino, DEFAULT_DIR_MODE, uid, gid, now)
    }

    /// A symbolic link to a target of `target_len` bytes, made now.
    pub fn new_symlink(ino: u64, target_len: u64, uid: u32, gid: u32) -> (r: Self)
        ensures
            exists|ts: Timestamp|
                r == #[trigger] fresh_attr(ino, DEFAULT_SYMLINK_MODE, 1, uid, gid, target_len, ts),
    {
        let now = Timestamp::now();
        Self::new_symlink_with(ino, target_len, uid, gid, now)
    }

    pub fn new_symlink_with(ino: u64, target_len: u64, uid: u32, gid: u32, ts: Timestamp) -> (r:
        Self)
        ensures
            r == fresh_attr(ino, DEFAULT_SYMLINK_MODE, 1, uid, gid, target_len, ts),
    {
        FileAttr {
            ino,
            mode: DEFAULT_SYMLINK_MODE,
            nlink: 1,
            uid,
            gid,
            size: target_len,
            blocks: 0,
            atime: ts,
            mtime: ts,
            ctime: ts,
            rdev: 0,
            blksize: PREFERRED_BLOCK_SIZE,
        }
    }

    pub fn new_file_with(ino: u64, mode: u32, uid: u32, gid: u32, ts: Timestamp) -> (r: Self)
        ensures
            r == fresh_attr(ino, mode, 1, uid, gid, 0, ts),
    {
        FileAttr {
            ino,
            mode,
            nlink: 1,
            uid,
            gid,
            size: 0,
            blocks: 0,
            atime: ts,
            mtime: ts,
            ctime: ts,
            rdev: 0,
            blksize: PREFERRED_BLOCK_SIZE,
        }
    }

    pub fn new_dir_with(ino: u64, mode: u32, uid: u32, gid: u32, ts: Timestamp) -> (r: Self)
        ensures
            r == fresh_attr(ino, mode, 2, uid, gid, 0, ts),
    {
        FileAttr {
            ino,
            mode,
            nlink: 2,
            uid,
            gid,
            size: 0,
            blocks: 0,
            atime: ts,
            mtime: ts,
            ctime: ts,
            rdev: 0,
            blksize: PREFERRED_BLOCK_SIZE,
        }
    }

    pub fn file_type(&self) -> (r: FileType)
        ensures
            r == type_of_mode(self.mode),
    {
        let m: u32 = self.mode & S_IFMT;
        if m == S_IFREG {
            FileType::Regular
        } else if m == S_IFDIR {
            FileType::Directory
        } else if m == S_IFLNK {
            FileType::Symlink
        } else {
            FileType::Regular
        }
    }

    pub fn is_file(&self) -> (r: bool)
        ensures
            r == (type_of_mode(self.mode) == FileType::Regular),
    {
        matches!(self.file_type(), FileType::Regular)
    }

    pub fn is_directory(&self) -> (r: bool)
        ensures
            r == (type_of_mode(self.mode) == FileType::Directory),
    {
        matches!(self.file_type(), FileType::Directory)
    }

    pub fn is_symlink(&self) -> (r: bool)
        ensures
            r == (type_of_mode(self.mode) == FileType::Symlink),
    {
        matches!(self.file_type(), FileType::Symlink)
    }
}

/// A directory entry with its full attributes.
#[derive(Clone, Debug, PartialEq, Eq)]
pub struct DirEntry {
    pub name: String,
    pub attr: FileAttr,
}

impl View for DirEntry {
    type V = (Seq<char>, FileAttr);

    open spec fn view(&self) -> (Seq<char>, FileAttr) {
        (self.name@, self.attr)
    }
}

/// The names and attributes of a list of directory entries.
pub open spec fn entries_view(v: Seq<DirEntry>) -> Seq<(Seq<char>, FileAttr)> {
    v.map_values(|e: DirEntry| e@)
}

/// Filesystem-wide statistics returned by `statfs`.
#[derive(Copy, Clone, Debug, PartialEq, Eq, Structural)]
pub struct FilesystemStats {
    pub inodes: u64,
    pub bytes_used: u64,
}

/// Request for a timestamp update in [`SetAttr`].
#[derive(Copy, Clone, Debug, PartialEq, Eq, Structural)]
pub enum TimeOrNow {
    Now,
    Time(Timestamp),
}

/// The timestamp that a request stands for when the time is `now`.
pub open spec fn requested_time(t: TimeOrNow, now: Timestamp) -> Timestamp {
    match t {
        TimeOrNow::Now => now,
        TimeOrNow::Time(ts) => ts,
    }
}

impl TimeOrNow {
    pub fn resolve(self, now: Timestamp) -> (r: Timestamp)
        ensures
            r == requested_time(self, now),
    {
        match self {
            TimeOrNow::Now => now,
            TimeOrNow::Time(ts) => ts,
        }
    }
}

/// Partial attribute update passed to `setattr`.
#[derive(Copy, Clone, Debug, PartialEq, Eq)]
pub struct SetAttr {
    pub mode: Option<u32>,
    pub uid: Option<u32>,
    pub gid: Option<u32>,
    pub size: Option<u64>,
    pub atime: Option<TimeOrNow>,
    pub mtime: Option<TimeOrNow>,
}

impl Default for SetAttr {
    /// The update that names nothing.
    fn default() -> (r: Self)
        ensures
            r == (SetAttr {
                mode: None,
                uid: None,
                gid: None,
                size: None,
                atime: None,
                mtime: None,
            }),
    {
        SetAttr { mode: None, uid: None, gid: None, size: None, atime: None, mtime: None }
    }
}

} // verus!
