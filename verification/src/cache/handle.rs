//! Open files of the mount, and what reads and writes through it set off.
//!
//! A write updates the cache, marks the file dirty and queues a push of its
//! document. A lookup that misses is answered at once, and queues a refresh.

use super::db::{Db, ROOT_INO};
use super::file::{read_bytes, truncated, written};
use super::fs::{looked_up, write_enqueued, FileHandle, UnisonFs};
use super::hydration::{after_enqueue, HydrationKey, HydrationKeyView, SchedulerView};
use super::model::{attr, dentry_of, fresh_remote, lemma_dentry_of_is_first, remote_path};
use super::profile::{part_of, profile_attr_of, profile_bytes, PROFILE_NAME};
use super::queue::{is_noise, is_noise_path};
use super::rows::{changed, ChangeView, Tables};
use crate::clock::now_ms;
use crate::text::{copy_text, opt_view};
use crate::vfs::error::{outcome, DbError, VfsError, VfsErrorView, VfsResult};
use crate::vfs::path::{normalize_brain_path, normalized};
use crate::vfs::types::{FileAttr, Timestamp};
use vstd::prelude::*;

verus! {

/// The path of `ino` in the mount where it is at most `depth` directories deep,
/// told by its first directory entry and those of the directories above it; none
/// where they do not lead to the root.
pub open spec fn path_within(t: Tables, ino: u64, depth: nat) -> Option<Seq<char>>
    decreases depth,
{
    if ino == ROOT_INO {
        Some(Seq::empty())
    } else if depth == 0 {
        None
    } else {
        match dentry_of(t, ino) {
            Some(d) => match path_within(t, d.0, (depth - 1) as nat) {
                Some(p) => Some(p + "/"@ + d.1),
                None => None,
            },
            None => None,
        }
    }
}

/// The path of `ino` in the mount. No file is deeper than there are directory
/// entries: see [`law_every_depth_is_told`].
pub open spec fn mount_path(t: Tables, ino: u64) -> Option<Seq<char>> {
    path_within(t, ino, t.dentries.len())
}

/// The brain path that a write to `ino` is pushed to: the one on record, or the
/// normal form of its path in the mount.
pub open spec fn push_path(t: Tables, ino: u64) -> Option<Seq<char>> {
    match remote_path(t, ino) {
        Some(p) => Some(p),
        None => match mount_path(t, ino) {
            Some(p) => normalized(p),
            None => None,
        },
    }
}

/// A write to `ino` is on its way to the brain: the path is on record and the
/// push is queued.
pub open spec fn push_requested(t: Tables, ino: u64, ms: i64) -> Tables {
    match push_path(t, ino) {
        Some(p) => write_enqueued(
            if remote_path(t, ino) is Some {
                t
            } else {
                changed(t, ChangeView::PutRemote(ino, fresh_remote(p)))
            },
            p,
            ino,
            ms,
        ),
        None => t,
    }
}

/// The tables after a write through the mount. One without data changes
/// nothing.
pub open spec fn mount_written(
    t: Tables,
    ino: u64,
    offset: int,
    data: Seq<u8>,
    now: Timestamp,
    ms: i64,
) -> Tables {
    let t1 = written(t, ino, offset, data, now, ms);
    if data.len() == 0 {
        t1
    } else {
        push_requested(t1, ino, ms)
    }
}

fn tell_mount_path(db: &Db, ino: u64) -> (r: Option<String>)
    requires
        db.wf(),
    ensures
        opt_view(r) == mount_path(db.tables(), ino),
{
    let ghost t = db.tables();
    let mut below = String::new();
    let mut at: u64 = ino;
    let mut left: usize = db.dentry_count();
    assert(below@ =~= Seq::<char>::empty());
    proof {
        match mount_path(t, ino) {
            Some(p) => {
                assert(p + below@ =~= p);
            },
            None => {},
        }
    }
    while at != ROOT_INO
        invariant
            db.wf(),
            t == db.tables(),
            mount_path(t, ino) == (match path_within(t, at, left as nat) {
                Some(p) => Some(p + below@),
                None => None,
            }),
        decreases left,
    {
        if left == 0 {
            return None;
        }
        match db.dentry_of(at) {
            Some((parent, name)) => {
                let ghost tail = below@;
                below = copy_text("/").concat(name.as_str()).concat(below.as_str());
                proof {
                    match path_within(t, parent, (left - 1) as nat) {
                        Some(p) => {
                            assert(p + "/"@ + name@ + tail =~= p + below@);
                        },
                        None => {},
                    }
                }
                at = parent;
                left = left - 1;
            },
            None => {
                return None;
            },
        }
    }
    assert(Seq::<char>::empty() + below@ =~= below@);
    Some(below)
}

/// A path that is told stays the same however deep one looks.
proof fn lemma_deeper(t: Tables, ino: u64, depth: nat, deeper: nat)
    requires
        depth <= deeper,
        path_within(t, ino, depth) is Some,
    ensures
        path_within(t, ino, deeper) == path_within(t, ino, depth),
    decreases depth,
{
    if ino != ROOT_INO {
        let d = dentry_of(t, ino)->0;
        lemma_deeper(t, d.0, (depth - 1) as nat, (deeper - 1) as nat);
    }
}

/// A file that is exactly `depth` directories deep has as many entries on its
/// way to the root, all of them different.
proof fn lemma_entries_above(t: Tables, ino: u64, depth: nat) -> (r: Set<(u64, Seq<char>)>)
    requires
        t.dentries.dom().finite(),
        path_within(t, ino, depth) is Some,
        depth > 0 ==> path_within(t, ino, (depth - 1) as nat) is None,
    ensures
        r.finite(),
        r.subset_of(t.dentries.dom()),
        r.len() == depth,
        forall|d: (u64, Seq<char>)| #[trigger]
            r.contains(d) ==> path_within(t, t.dentries[d], depth) is Some,
    decreases depth,
{
    if depth == 0 {
        Set::empty()
    } else {
        let d = dentry_of(t, ino)->0;
        lemma_dentry_of_is_first(t, ino);
        assert(t.dentries.contains_pair(d, ino));
        let above = lemma_entries_above(t, d.0, (depth - 1) as nat);
        assert(!above.contains(d));
        let r = above.insert(d);
        assert forall|e: (u64, Seq<char>)| #[trigger] r.contains(e) implies path_within(
            t,
            t.dentries[e],
            depth,
        ) is Some by {
            if e != d {
                assert(above.contains(e));
                lemma_deeper(t, t.dentries[e], (depth - 1) as nat, depth);
            }
        }
        r
    }
}

/// A path that is told at some depth is told.
pub proof fn law_every_depth_is_told(t: Tables, ino: u64, depth: nat)
    requires
        t.dentries.dom().finite(),
        path_within(t, ino, depth) is Some,
    ensures
        mount_path(t, ino) == path_within(t, ino, depth),
    decreases depth,
{
    if depth > 0 && path_within(t, ino, (depth - 1) as nat) is Some {
        lemma_deeper(t, ino, (depth - 1) as nat, depth);
        law_every_depth_is_told(t, ino, (depth - 1) as nat);
    } else {
        let above = lemma_entries_above(t, ino, depth);
        vstd::set_lib::lemma_len_subset(above, t.dentries.dom());
        lemma_deeper(t, ino, depth, t.dentries.len());
    }
}

impl UnisonFs {
    /// The brain path that a write to `ino` is pushed to.
    pub fn push_path(&self, ino: u64) -> (r: Option<String>)
        requires
            self.wf(),
        ensures
            opt_view(r) == push_path(self.state().t, ino),
    {
        match self.brain_path_for_ino(ino) {
            Some(p) => Some(p),
            None => match tell_mount_path(self.db(), ino) {
                Some(p) => normalize_brain_path(p.as_str()),
                None => None,
            },
        }
    }

    /// Queues a push of what was written to `ino`, when the time is `ms` epoch
    /// milliseconds.
    pub fn request_push_at(&mut self, ino: u64, ms: i64)
        requires
            old(self).wf(),
        ensures
            final(self).follows(*old(self)),
            final(self).lookups() == old(self).lookups(),
            final(self).state().t == push_requested(old(self).state().t, ino, ms),
    {
        match self.push_path(ino) {
            Some(p) => {
                if self.brain_path_for_ino(ino).is_none() {
                    self.db_mut().set_remote_path(ino, p.as_str());
                }
                self.enqueue_write_at(p.as_str(), ino, ms);
            },
            None => {},
        }
    }
}

/// The brain path of what `name` in directory `parent` stands for. There is
/// none for noise, nor where the directory has no path.
pub open spec fn missed_path(t: Tables, parent: u64, name: Seq<char>) -> Option<Seq<char>> {
    match mount_path(t, parent) {
        Some(dir) => if is_noise(dir + "/"@ + name) {
            None
        } else {
            Some(dir + "/"@ + name)
        },
        None => None,
    }
}

/// A refresh of `path` was offered to the queue at some time.
pub open spec fn refresh_offered(before: SchedulerView, after: SchedulerView, path: Seq<char>) -> bool {
    exists|now: u128|
        after == #[trigger] after_enqueue(before, HydrationKeyView::Exact(path), now)
}

/// A refresh of the name was offered to the queue, unless it has no brain path.
pub open spec fn refresh_queued(
    before: SchedulerView,
    after: SchedulerView,
    t: Tables,
    parent: u64,
    name: Seq<char>,
) -> bool {
    match missed_path(t, parent, name) {
        Some(p) => refresh_offered(before, after, p),
        None => after == before,
    }
}

impl UnisonFs {
    /// Queues a refresh of a name that the cache does not have.
    fn refresh_missed(&mut self, parent_ino: u64, name: &str)
        requires
            old(self).wf(),
        ensures
            final(self).wf(),
            final(self).store() == old(self).store(),
            final(self).lookups() == old(self).lookups(),
            final(self).profile() == old(self).profile(),
            final(self).owner() == old(self).owner(),
            refresh_queued(
                old(self).scheduler()@,
                final(self).scheduler()@,
                old(self).state().t,
                parent_ino,
                name@,
            ),
    {
        match tell_mount_path(self.db(), parent_ino) {
            Some(dir) => {
                let path = dir.concat("/").concat(name);
                if !is_noise_path(path.as_str()) {
                    let ghost before = self.scheduler()@;
                    let ghost wanted = path@;
                    let _ = self.hydration_mut().enqueue(HydrationKey::Exact(path));
                    assert(refresh_offered(before, self.scheduler()@, wanted));
                }
            },
            None => {},
        }
    }

    /// Looks up a name for the mount. Where the cache does not have it, the
    /// answer is still given at once, and a refresh is queued; the brain may
    /// have what is missing.
    pub fn lookup_or_refresh(&mut self, parent_ino: u64, name: &str) -> (r: VfsResult<
        Option<FileAttr>,
    >)
        requires
            old(self).wf(),
        ensures
            final(self).wf(),
            final(self).store() == old(self).store(),
            final(self).profile() == old(self).profile(),
            final(self).owner() == old(self).owner(),
            r is Ok,
            if parent_ino == ROOT_INO && name@ == PROFILE_NAME@ && old(self).profile() is Some {
                &&& exists|now: Timestamp, ms: i64|
                    r->Ok_0 == Some(
                        #[trigger] profile_attr_of(
                            old(self).profile()->0@,
                            old(self).state().t,
                            now,
                            ms,
                        ),
                    )
                &&& final(self).state() == old(self).state()
                &&& final(self).scheduler() == old(self).scheduler()
            } else {
                let (s, found) = looked_up(old(self).state(), parent_ino, name@);
                &&& final(self).state() == s
                &&& r->Ok_0 == (match found {
                    Some(ino) => attr(s.t, ino),
                    None => None,
                })
                &&& if r->Ok_0 is None && old(self).profile() is Some {
                    refresh_queued(
                        old(self).scheduler()@,
                        final(self).scheduler()@,
                        s.t,
                        parent_ino,
                        name@,
                    )
                } else {
                    final(self).scheduler() == old(self).scheduler()
                }
            },
    {
        let r = self.lookup(parent_ino, name);
        if self.has_api() && matches!(r, Ok(None)) {
            self.refresh_missed(parent_ino, name);
        }
        r
    }
}

/// What a read through an open file gives. `profile` is what is cached of the
/// profile.
pub open spec fn handle_read(
    h: FileHandle,
    profile: Option<Seq<u8>>,
    t: Tables,
    offset: int,
    size: int,
    ms: i64,
) -> Result<Seq<u8>, VfsErrorView> {
    match h {
        FileHandle::Profile => Ok(part_of(profile_bytes(profile, t, ms), offset, size)),
        FileHandle::File(f) => if t.inodes.contains_key(f.ino) {
            Ok(read_bytes(t, f.ino, offset, size))
        } else {
            Err(VfsErrorView::Database(DbError::NoRows))
        },
    }
}

/// A write through an open file, and how many bytes it wrote.
pub open spec fn handle_written(
    h: FileHandle,
    t: Tables,
    offset: int,
    data: Seq<u8>,
    now: Timestamp,
    ms: i64,
) -> (Tables, Result<u32, VfsErrorView>) {
    match h {
        FileHandle::Profile => (t, Err(VfsErrorView::PermissionDenied)),
        FileHandle::File(f) => (
            mount_written(t, f.ino, offset, data, now, ms),
            Ok(data.len() as u32),
        ),
    }
}

/// An open file is cut or extended.
pub open spec fn handle_cut(h: FileHandle, t: Tables, size: u64) -> (
    Tables,
    Result<(), VfsErrorView>,
) {
    match h {
        FileHandle::Profile => (t, Err(VfsErrorView::PermissionDenied)),
        FileHandle::File(f) => (truncated(t, f.ino, size), Ok(())),
    }
}

impl FileHandle {
    /// The handle can be used with `fs`.
    pub open spec fn belongs_to(&self, fs: UnisonFs) -> bool {
        self is Profile ==> fs.profile() is Some
    }

    /// The bytes from `offset` on, at most `size` of them, when the time is
    /// `ms` epoch milliseconds.
    pub fn read_at(&self, fs: &UnisonFs, offset: u64, size: usize, ms: i64) -> (r: VfsResult<
        Vec<u8>,
    >)
        requires
            fs.wf(),
            self.belongs_to(*fs),
        ensures
            match *self {
                FileHandle::Profile => r is Ok && r->Ok_0@ == ({
                    let all = profile_bytes(fs.profile()->0@, fs.state().t, ms);
                    if offset >= all.len() {
                        Seq::empty()
                    } else if offset + size < all.len() {
                        all.subrange(offset as int, offset + size)
                    } else {
                        all.skip(offset as int)
                    }
                }),
                FileHandle::File(f) => if fs.state().t.inodes.contains_key(f.ino) {
                    r is Ok && r->Ok_0@ == read_bytes(
                        fs.state().t,
                        f.ino,
                        offset as int,
                        size as int,
                    )
                } else {
                    r == Err::<Vec<u8>, VfsError>(VfsError::Database(DbError::NoRows))
                },
            },
            (match r {
                Ok(v) => Ok(v@),
                Err(e) => Err(e@),
            }) == handle_read(
                *self,
                match fs.profile() {
                    Some(p) => p@,
                    None => None,
                },
                fs.state().t,
                offset as int,
                size as int,
                ms,
            ),
    {
        match self {
            FileHandle::Profile => match fs.profile_file() {
                Some(p) => p.read_at(fs.db(), offset, size, ms),
                None => Err(VfsError::NotFound),
            },
            FileHandle::File(f) => f.read(fs.db(), offset, size),
        }
    }

    /// Writes `data` at `offset` and queues a push, when the time is `now`, or
    /// `ms` epoch milliseconds. The profile cannot be written.
    pub fn write_at(
        &self,
        fs: &mut UnisonFs,
        offset: u64,
        data: &[u8],
        now: Timestamp,
        ms: i64,
    ) -> (r: VfsResult<u32>)
        requires
            old(fs).wf(),
            offset + data@.len() <= u64::MAX,
        ensures
            final(fs).follows(*old(fs)),
            final(fs).lookups() == old(fs).lookups(),
            match *self {
                FileHandle::Profile => r == Err::<u32, VfsError>(VfsError::PermissionDenied)
                    && final(fs).state().t == old(fs).state().t,
                FileHandle::File(f) => r == Ok::<u32, VfsError>(data@.len() as u32)
                    && final(fs).state().t == mount_written(
                    old(fs).state().t,
                    f.ino,
                    offset as int,
                    data@,
                    now,
                    ms,
                ),
            },
            (final(fs).state().t, outcome(r)) == handle_written(
                *self,
                old(fs).state().t,
                offset as int,
                data@,
                now,
                ms,
            ),
    {
        match self {
            FileHandle::Profile => Err(VfsError::PermissionDenied),
            FileHandle::File(f) => {
                let r = f.write_at(fs.db_mut(), offset, data, now, ms);
                if data.len() > 0 {
                    fs.request_push_at(f.ino, ms);
                }
                r
            },
        }
    }

    /// Writes `data` at `offset` and queues a push. The profile cannot be
    /// written.
    pub fn write(&self, fs: &mut UnisonFs, offset: u64, data: &[u8]) -> (r: VfsResult<u32>)
        requires
            old(fs).wf(),
            offset + data@.len() <= u64::MAX,
        ensures
            final(fs).follows(*old(fs)),
            final(fs).lookups() == old(fs).lookups(),
            match *self {
                FileHandle::Profile => r == Err::<u32, VfsError>(VfsError::PermissionDenied)
                    && final(fs).state().t == old(fs).state().t,
                FileHandle::File(f) => r == Ok::<u32, VfsError>(data@.len() as u32) && exists|
                    now: Timestamp,
                    ms: i64,
                |
                    final(fs).state().t == #[trigger] mount_written(
                        old(fs).state().t,
                        f.ino,
                        offset as int,
                        data@,
                        now,
                        ms,
                    ),
            },
    {
        let now = Timestamp::now();
        let ms: i64 = now_ms();
        self.write_at(fs, offset, data, now, ms)
    }

    /// Cuts or extends the file to `size` bytes. The profile cannot be cut.
    pub fn truncate(&self, fs: &mut UnisonFs, size: u64) -> (r: VfsResult<()>)
        requires
            old(fs).wf(),
        ensures
            final(fs).follows(*old(fs)),
            final(fs).lookups() == old(fs).lookups(),
            match *self {
                FileHandle::Profile => r == Err::<(), VfsError>(VfsError::PermissionDenied)
                    && final(fs).state().t == old(fs).state().t,
                FileHandle::File(f) => r is Ok && final(fs).state().t == truncated(
                    old(fs).state().t,
                    f.ino,
                    size,
                ),
            },
            (final(fs).state().t, outcome(r)) == handle_cut(*self, old(fs).state().t, size),
    {
        match self {
            FileHandle::Profile => Err(VfsError::PermissionDenied),
            FileHandle::File(f) => f.truncate(fs.db_mut(), size),
        }
    }

    /// The attributes when the time is `now`, or `ms` epoch milliseconds.
    pub fn getattr_at(&self, fs: &UnisonFs, now: Timestamp, ms: i64) -> (r: VfsResult<FileAttr>)
        requires
            fs.wf(),
            self.belongs_to(*fs),
        ensures
            match *self {
                FileHandle::Profile => r == Ok::<FileAttr, VfsError>(
                    profile_attr_of(fs.profile()->0@, fs.state().t, now, ms),
                ),
                FileHandle::File(f) => match attr(fs.state().t, f.ino) {
                    Some(a) => r == Ok::<FileAttr, VfsError>(a),
                    None => r == Err::<FileAttr, VfsError>(VfsError::Database(DbError::NoRows)),
                },
            },
    {
        match self {
            FileHandle::Profile => match fs.profile_file() {
                Some(p) => Ok(p.profile_attr_at(fs.db(), now, ms)),
                None => Err(VfsError::NotFound),
            },
            FileHandle::File(f) => f.getattr(fs.db()),
        }
    }
}

} // verus!
