//! The cache store: inode metadata, directory entries, file content, remote
//! state, the push queue and sync metadata.

use crate::listing::{has_name, insert_sorted, sorted_names};
use super::model::{
    all_indices, all_remote_ids, attr, attr_of, byte_at, content, dentry_of, dirty_since, entry_lt,
    file_bytes, fresh_remote, gathered, ino_by_remote_path, ino_for_remote_id, is_least,
    lemma_dentry_of, lemma_gathered_gap, lemma_least, lemma_size_sum_empty, lemma_size_sum_insert,
    lists_children, remote_hash, remote_id, remote_path, size_sum, stats_of, with_content_hash,
    with_dirty, with_mirrored, with_remote_id, with_root,
};
use super::queue::{claimable, is_next};
use super::rows::{
    change_views, changed, replayed, without_chunks, Change, ChangeView, ChunkRow, DentryRow,
    InodeRow, QueueRow, RemoteRow, Tables, TextRow, MAX_INO,
};
use crate::table::{lemma_rows_map, row_has_key, rows_map, Key, Row, Table};
use crate::text::{
    copy_opt, copy_text, lemma_text_order, lemma_text_order_trans, opt_str_view, opt_view, own_opt,
    same_text, text_less, text_lt, texts,
};
use crate::vfs::error::{DbError, VfsError, VfsResult};
use crate::vfs::mode::{DEFAULT_DIR_MODE, PREFERRED_BLOCK_SIZE};
use crate::vfs::types::{block_count, FileAttr, FilesystemStats, Timestamp};
use vstd::prelude::*;

verus! {

pub const DEFAULT_CHUNK_SIZE: usize = 4096;

pub const ROOT_INO: u64 = 1;

pub const DENTRY_CACHE_MAX: usize = 10_000;

/// Persistent store for filesystem metadata and content.
///
/// The rows live in memory. Every change is also appended to a journal, which
/// whoever keeps the rows on disk drains and carries out there.
pub struct Db {
    inodes: Table<u64, InodeRow>,
    dentries: Table<(u64, String), DentryRow>,
    chunks: Table<(u64, u64), ChunkRow>,
    symlinks: Table<u64, TextRow>,
    remotes: Table<u64, RemoteRow>,
    queue: Table<String, QueueRow>,
    meta: Table<String, TextRow>,
    next_ino: u64,
    journal: Vec<Change>,
    saved: Ghost<Tables>,
}

/// One more change in the journal is one more change replayed.
proof fn lemma_journal_push(saved: Tables, journal: Seq<Change>, c: Change)
    ensures
        replayed(saved, change_views(journal.push(c))) == changed(
            replayed(saved, change_views(journal)),
            c@,
        ),
{
    let views = change_views(journal.push(c));
    assert(views.drop_last() =~= change_views(journal));
    assert(views.last() == c@);
}

impl Db {
    /// What the tables hold.
    pub closed spec fn tables(&self) -> Tables {
        Tables {
            inodes: self.inodes@,
            dentries: self.dentries@,
            chunks: self.chunks@,
            symlinks: self.symlinks@,
            remotes: self.remotes@,
            queue: self.queue@,
            meta: self.meta@,
            next_ino: self.next_ino,
        }
    }

    /// What the tables held when the journal was last drained.
    pub closed spec fn saved(&self) -> Tables {
        self.saved@
    }

    /// The changes since the journal was last drained.
    pub closed spec fn journal(&self) -> Seq<ChangeView> {
        change_views(self.journal@)
    }

    /// Keys are distinct, no inode has a number that a new inode can still get,
    /// and the journal leads from what was saved to what the tables hold.
    pub closed spec fn wf(&self) -> bool {
        &&& self.inodes.wf()
        &&& self.dentries.wf()
        &&& self.chunks.wf()
        &&& self.symlinks.wf()
        &&& self.remotes.wf()
        &&& self.queue.wf()
        &&& self.meta.wf()
        &&& forall|ino: u64| #[trigger]
            self.inodes@.contains_key(ino) ==> ino < self.next_ino || ino > MAX_INO
        &&& replayed(self.saved@, change_views(self.journal@)) == self.tables()
    }

    /// Well formed, with the same saved state as `pre`.
    pub open spec fn follows(&self, pre: Db) -> bool {
        self.wf() && self.saved() == pre.saved()
    }

    /// What a well-formed store promises about its tables.
    pub proof fn lemma_wf(&self)
        requires
            self.wf(),
        ensures
            !self.tables().inodes.contains_key(self.tables().next_ino) || self.tables().next_ino
                > MAX_INO,
            forall|ino: u64| #[trigger]
                self.tables().inodes.contains_key(ino) ==> ino < self.tables().next_ino || ino
                    > MAX_INO,
            replayed(self.saved(), self.journal()) == self.tables(),
            self.tables().inodes.dom().finite(),
            self.tables().dentries.dom().finite(),
            self.tables().chunks.dom().finite(),
            self.tables().remotes.dom().finite(),
            self.tables().queue.dom().finite(),
    {
        lemma_rows_map(self.inodes.rows@);
        lemma_rows_map(self.dentries.rows@);
        lemma_rows_map(self.chunks.rows@);
        lemma_rows_map(self.remotes.rows@);
        lemma_rows_map(self.queue.rows@);
    }

    // ── Row changes ─────────────────────────────────────────────────────────

    pub(crate) fn put_inode(&mut self, ino: u64, row: InodeRow)
        requires
            old(self).wf(),
        ensures
            final(self).follows(*old(self)),
            final(self).tables() == changed(old(self).tables(), ChangeView::PutInode(ino, row)),
    {
        proof {
            lemma_journal_push(self.saved@, self.journal@, Change::PutInode(ino, row));
        }
        self.journal.push(Change::PutInode(ino, row));
        self.inodes.put(ino, row);
        if self.next_ino <= ino && ino <= MAX_INO {
            self.next_ino = ino + 1;
        }
        assert(self.tables() == changed(old(self).tables(), ChangeView::PutInode(ino, row)));
    }

    pub(crate) fn drop_inode(&mut self, ino: u64)
        requires
            old(self).wf(),
        ensures
            final(self).follows(*old(self)),
            final(self).tables() == changed(old(self).tables(), ChangeView::DropInode(ino)),
    {
        proof {
            lemma_journal_push(self.saved@, self.journal@, Change::DropInode(ino));
        }
        self.journal.push(Change::DropInode(ino));
        self.inodes.remove(&ino);
        assert(self.tables() == changed(old(self).tables(), ChangeView::DropInode(ino)));
    }

    pub(crate) fn put_dentry(&mut self, parent: u64, name: &str, ino: u64)
        requires
            old(self).wf(),
        ensures
            final(self).follows(*old(self)),
            final(self).tables() == changed(
                old(self).tables(),
                ChangeView::PutDentry(parent, name@, ino),
            ),
    {
        let c = Change::PutDentry(parent, copy_text(name), ino);
        proof {
            lemma_journal_push(self.saved@, self.journal@, c);
        }
        self.journal.push(c);
        self.dentries.put((parent, copy_text(name)), DentryRow { ino });
        assert(self.tables() == changed(old(self).tables(), c@));
    }

    pub(crate) fn drop_dentry(&mut self, parent: u64, name: &str)
        requires
            old(self).wf(),
        ensures
            final(self).follows(*old(self)),
            final(self).tables() == changed(
                old(self).tables(),
                ChangeView::DropDentry(parent, name@),
            ),
    {
        let c = Change::DropDentry(parent, copy_text(name));
        proof {
            lemma_journal_push(self.saved@, self.journal@, c);
        }
        self.journal.push(c);
        self.dentries.remove(&(parent, copy_text(name)));
        assert(self.tables() == changed(old(self).tables(), c@));
    }

    pub(crate) fn put_chunk(&mut self, ino: u64, index: u64, data: Vec<u8>)
        requires
            old(self).wf(),
        ensures
            final(self).follows(*old(self)),
            final(self).tables() == changed(
                old(self).tables(),
                ChangeView::PutChunk(ino, index, data@),
            ),
    {
        let c = Change::PutChunk(ino, index, vstd::slice::slice_to_vec(data.as_slice()));
        proof {
            lemma_journal_push(self.saved@, self.journal@, c);
        }
        self.journal.push(c);
        self.chunks.put((ino, index), ChunkRow { data });
        assert(self.tables() == changed(old(self).tables(), c@));
    }

    pub(crate) fn drop_chunks(&mut self, ino: u64, from: u64)
        requires
            old(self).wf(),
        ensures
            final(self).follows(*old(self)),
            final(self).tables() == changed(
                old(self).tables(),
                ChangeView::DropChunks(ino, from),
            ),
    {
        let ghost m = self.chunks@;
        let ghost before = self.tables();
        proof {
            lemma_journal_push(self.saved@, self.journal@, Change::DropChunks(ino, from));
        }
        self.journal.push(Change::DropChunks(ino, from));
        let ghost journal = self.journal@;
        let mut i: usize = 0;
        while i < self.chunks.rows.len()
            invariant
                i <= self.chunks.rows@.len(),
                self.chunks.wf(),
                without_chunks(self.chunks@, ino, from) == without_chunks(m, ino, from),
                forall|j: int|
                    0 <= j < i ==> !((#[trigger] self.chunks.rows@[j]).0.0 == ino
                        && self.chunks.rows@[j].0.1 >= from),
                *self == (Db { chunks: self.chunks, journal: self.journal, ..*old(self) }),
                self.journal@ == journal,
            decreases self.chunks.rows@.len() - i,
        {
            let (row_ino, row_index) = self.chunks.rows[i].0;
            if row_ino == ino && row_index >= from {
                let ghost rows = self.chunks.rows@;
                let ghost at = self.chunks@;
                self.chunks.remove_at(i);
                assert(without_chunks(at.remove((row_ino, row_index)), ino, from)
                    =~= without_chunks(at, ino, from));
                assert forall|j: int| 0 <= j < i implies !((
                #[trigger] self.chunks.rows@[j]).0.0 == ino && self.chunks.rows@[j].0.1
                    >= from) by {
                    assert(self.chunks.rows@[j] == rows[j]);
                }
            } else {
                i += 1;
            }
        }
        proof {
            lemma_rows_map(self.chunks.rows@);
            assert forall|k: (u64, u64)| self.chunks@.contains_key(k) implies !(k.0 == ino && k.1
                >= from) by {
                let j = choose|j: int| row_has_key(self.chunks.rows@, j, k);
                assert(self.chunks.rows@[j].0 == k);
            }
            assert(self.chunks@ =~= without_chunks(self.chunks@, ino, from));
            assert(self.tables() == changed(before, ChangeView::DropChunks(ino, from)));
        }
    }

    pub(crate) fn put_symlink(&mut self, ino: u64, target: &str)
        requires
            old(self).wf(),
        ensures
            final(self).follows(*old(self)),
            final(self).tables() == changed(
                old(self).tables(),
                ChangeView::PutSymlink(ino, target@),
            ),
    {
        let c = Change::PutSymlink(ino, copy_text(target));
        proof {
            lemma_journal_push(self.saved@, self.journal@, c);
        }
        self.journal.push(c);
        self.symlinks.put(ino, TextRow { text: copy_text(target) });
        assert(self.tables() == changed(old(self).tables(), c@));
    }

    pub(crate) fn drop_symlink(&mut self, ino: u64)
        requires
            old(self).wf(),
        ensures
            final(self).follows(*old(self)),
            final(self).tables() == changed(old(self).tables(), ChangeView::DropSymlink(ino)),
    {
        proof {
            lemma_journal_push(self.saved@, self.journal@, Change::DropSymlink(ino));
        }
        self.journal.push(Change::DropSymlink(ino));
        self.symlinks.remove(&ino);
        assert(self.tables() == changed(old(self).tables(), ChangeView::DropSymlink(ino)));
    }

    pub(crate) fn put_remote(&mut self, ino: u64, row: RemoteRow)
        requires
            old(self).wf(),
        ensures
            final(self).follows(*old(self)),
            final(self).tables() == changed(
                old(self).tables(),
                ChangeView::PutRemote(ino, row.row()),
            ),
    {
        let c = Change::PutRemote(ino, row.dup());
        proof {
            lemma_journal_push(self.saved@, self.journal@, c);
        }
        self.journal.push(c);
        self.remotes.put(ino, row);
        assert(self.tables() == changed(old(self).tables(), c@));
    }

    pub(crate) fn drop_remote(&mut self, ino: u64)
        requires
            old(self).wf(),
        ensures
            final(self).follows(*old(self)),
            final(self).tables() == changed(old(self).tables(), ChangeView::DropRemote(ino)),
    {
        proof {
            lemma_journal_push(self.saved@, self.journal@, Change::DropRemote(ino));
        }
        self.journal.push(Change::DropRemote(ino));
        self.remotes.remove(&ino);
        assert(self.tables() == changed(old(self).tables(), ChangeView::DropRemote(ino)));
    }

    pub(crate) fn put_job(&mut self, path: &str, row: QueueRow)
        requires
            old(self).wf(),
        ensures
            final(self).follows(*old(self)),
            final(self).tables() == changed(
                old(self).tables(),
                ChangeView::PutJob(path@, row.row()),
            ),
    {
        let c = Change::PutJob(copy_text(path), row.dup());
        proof {
            lemma_journal_push(self.saved@, self.journal@, c);
        }
        self.journal.push(c);
        self.queue.put(copy_text(path), row);
        assert(self.tables() == changed(old(self).tables(), c@));
    }

    pub(crate) fn drop_job(&mut self, path: &str)
        requires
            old(self).wf(),
        ensures
            final(self).follows(*old(self)),
            final(self).tables() == changed(old(self).tables(), ChangeView::DropJob(path@)),
    {
        let c = Change::DropJob(copy_text(path));
        proof {
            lemma_journal_push(self.saved@, self.journal@, c);
        }
        self.journal.push(c);
        self.queue.remove(&copy_text(path));
        assert(self.tables() == changed(old(self).tables(), c@));
    }

    pub(crate) fn put_meta(&mut self, key: &str, value: &str)
        requires
            old(self).wf(),
        ensures
            final(self).follows(*old(self)),
            final(self).tables() == changed(
                old(self).tables(),
                ChangeView::PutMeta(key@, value@),
            ),
    {
        let c = Change::PutMeta(copy_text(key), copy_text(value));
        proof {
            lemma_journal_push(self.saved@, self.journal@, c);
        }
        self.journal.push(c);
        self.meta.put(copy_text(key), TextRow { text: copy_text(value) });
        assert(self.tables() == changed(old(self).tables(), c@));
    }
}



/// Every row of a stored cache.
#[derive(Debug)]
pub struct Snapshot {
    pub inodes: Vec<(u64, InodeRow)>,
    pub dentries: Vec<((u64, String), DentryRow)>,
    pub chunks: Vec<((u64, u64), ChunkRow)>,
    pub symlinks: Vec<(u64, TextRow)>,
    pub remotes: Vec<(u64, RemoteRow)>,
    pub queue: Vec<(String, QueueRow)>,
    pub meta: Vec<(String, TextRow)>,
}

impl Snapshot {
    /// A cache without rows.
    pub fn empty() -> (r: Self)
        ensures
            r.inodes@.len() == 0,
            r.dentries@.len() == 0,
            r.chunks@.len() == 0,
            r.symlinks@.len() == 0,
            r.remotes@.len() == 0,
            r.queue@.len() == 0,
            r.meta@.len() == 0,
    {
        Snapshot {
            inodes: Vec::new(),
            dentries: Vec::new(),
            chunks: Vec::new(),
            symlinks: Vec::new(),
            remotes: Vec::new(),
            queue: Vec::new(),
            meta: Vec::new(),
        }
    }
}

/// A number above every inode of `rows` that a new inode could have: one more
/// than the largest, and at least one.
pub open spec fn next_after(rows: Seq<(u64, InodeRow)>) -> u64
    decreases rows.len(),
{
    if rows.len() == 0 {
        1
    } else {
        super::rows::beyond(next_after(rows.drop_last()), rows.last().0)
    }
}

/// The tables that a snapshot holds. Where two rows have the same key the
/// later one counts.
pub open spec fn snapshot_tables(s: Snapshot) -> Tables {
    Tables {
        inodes: rows_map(s.inodes@),
        dentries: rows_map(s.dentries@),
        chunks: rows_map(s.chunks@),
        symlinks: rows_map(s.symlinks@),
        remotes: rows_map(s.remotes@),
        queue: rows_map(s.queue@),
        meta: rows_map(s.meta@),
        next_ino: next_after(s.inodes@),
    }
}

proof fn lemma_next_after(rows: Seq<(u64, InodeRow)>)
    ensures
        forall|ino: u64| #[trigger]
            rows_map(rows).contains_key(ino) ==> ino < next_after(rows) || ino > MAX_INO,
    decreases rows.len(),
{
    if rows.len() > 0 {
        let front = rows.drop_last();
        lemma_next_after(front);
        assert forall|ino: u64| #[trigger] rows_map(rows).contains_key(ino) implies ino
            < next_after(rows) || ino > MAX_INO by {
            if ino != rows.last().0 {
                assert(rows_map(front).contains_key(ino));
            }
        }
    }
}

impl Db {
    // ── Opening and saving ──────────────────────────────────────────────────

    /// A store with the rows of a snapshot, and a root directory made at `now`
    /// if the snapshot has none.
    pub fn load(s: Snapshot, now: Timestamp) -> (r: Self)
        ensures
            r.wf(),
            r.tables() == with_root(snapshot_tables(s), now),
            r.saved() == snapshot_tables(s),
    {
        let ghost t = snapshot_tables(s);
        let mut next_ino: u64 = 1;
        let mut i: usize = 0;
        while i < s.inodes.len()
            invariant
                i <= s.inodes@.len(),
                next_ino == next_after(s.inodes@.take(i as int)),
            decreases s.inodes@.len() - i,
        {
            let ino: u64 = s.inodes[i].0;
            if next_ino <= ino && ino <= MAX_INO {
                next_ino = ino + 1;
            }
            assert(s.inodes@.take(i + 1).drop_last() =~= s.inodes@.take(i as int));
            i += 1;
        }
        proof {
            assert(s.inodes@.take(s.inodes@.len() as int) =~= s.inodes@);
            lemma_next_after(s.inodes@);
        }
        let mut db = Db {
            inodes: Table::from_rows(s.inodes),
            dentries: Table::from_rows(s.dentries),
            chunks: Table::from_rows(s.chunks),
            symlinks: Table::from_rows(s.symlinks),
            remotes: Table::from_rows(s.remotes),
            queue: Table::from_rows(s.queue),
            meta: Table::from_rows(s.meta),
            next_ino,
            journal: Vec::new(),
            saved: Ghost(t),
        };
        assert(change_views(db.journal@) =~= Seq::empty());
        assert(db.tables() == t);
        db.ensure_root(now);
        db
    }

    /// A store with nothing but a root directory, made now.
    pub fn open_in_memory() -> (r: VfsResult<Self>)
        ensures
            r matches Ok(db) && db.wf() && exists|now: Timestamp|
                db.tables() == #[trigger] with_root(
                    Tables {
                        inodes: Map::empty(),
                        dentries: Map::empty(),
                        chunks: Map::empty(),
                        symlinks: Map::empty(),
                        remotes: Map::empty(),
                        queue: Map::empty(),
                        meta: Map::empty(),
                        next_ino: 1,
                    },
                    now,
                ),
    {
        let now = Timestamp::now();
        Ok(Db::load(Snapshot::empty(), now))
    }

    fn ensure_root(&mut self, now: Timestamp)
        requires
            old(self).wf(),
        ensures
            final(self).follows(*old(self)),
            final(self).tables() == with_root(old(self).tables(), now),
    {
        if self.inode(ROOT_INO).is_none() {
            self.put_inode(
                ROOT_INO,
                InodeRow {
                    mode: DEFAULT_DIR_MODE,
                    nlink: 2,
                    uid: 0,
                    gid: 0,
                    size: 0,
                    atime: now,
                    mtime: now,
                    ctime: now,
                    rdev: 0,
                    dirty_since: None,
                },
            );
        }
    }

    /// Hands out the journal and starts a new one. Carried out in order on
    /// what was saved before, the changes lead to what the tables hold now.
    pub fn drain_changes(&mut self) -> (r: Vec<Change>)
        requires
            old(self).wf(),
        ensures
            final(self).wf(),
            final(self).tables() == old(self).tables(),
            final(self).saved() == old(self).tables(),
            final(self).journal().len() == 0,
            change_views(r@) == old(self).journal(),
            replayed(old(self).saved(), change_views(r@)) == final(self).tables(),
    {
        let mut out: Vec<Change> = Vec::new();
        std::mem::swap(&mut self.journal, &mut out);
        self.saved = Ghost(self.tables());
        assert(change_views(self.journal@) =~= Seq::empty());
        out
    }

    // ── Inodes ──────────────────────────────────────────────────────────────

    /// The row of inode `ino`.
    pub fn inode(&self, ino: u64) -> (r: Option<InodeRow>)
        requires
            self.wf(),
        ensures
            r == self.tables().inodes.get(ino),
    {
        match self.inodes.get(&ino) {
            Some(row) => Some(*row),
            None => None,
        }
    }

    /// The attributes that an inode row stands for.
    pub fn row_to_attr(ino: u64, row: &InodeRow) -> (r: FileAttr)
        ensures
            r == attr_of(ino, *row),
    {
        FileAttr {
            ino,
            mode: row.mode,
            nlink: row.nlink as u32,
            uid: row.uid,
            gid: row.gid,
            size: row.size as u64,
            blocks: block_count(row.size as u64),
            atime: row.atime,
            mtime: row.mtime,
            ctime: row.ctime,
            rdev: row.rdev,
            blksize: PREFERRED_BLOCK_SIZE,
        }
    }

    /// The attributes of inode `ino`.
    pub fn attr(&self, ino: u64) -> (r: Option<FileAttr>)
        requires
            self.wf(),
        ensures
            r == attr(self.tables(), ino),
    {
        match self.inode(ino) {
            Some(row) => Some(Db::row_to_attr(ino, &row)),
            None => None,
        }
    }

    /// Adds an inode under a number that no inode had since the store was
    /// opened. Fails when the numbers are used up.
    pub(crate) fn create_inode(&mut self, row: InodeRow) -> (r: VfsResult<u64>)
        requires
            old(self).wf(),
        ensures
            final(self).follows(*old(self)),
            if old(self).tables().next_ino <= MAX_INO {
                &&& r == Ok::<u64, VfsError>(old(self).tables().next_ino)
                &&& !old(self).tables().inodes.contains_key(old(self).tables().next_ino)
                &&& final(self).tables() == changed(
                    old(self).tables(),
                    ChangeView::PutInode(old(self).tables().next_ino, row),
                )
            } else {
                &&& r matches Err(e) && e == VfsError::Database(DbError::Full)
                &&& final(self).tables() == old(self).tables()
            },
    {
        let ino: u64 = self.next_ino;
        if ino > MAX_INO {
            return Err(VfsError::Database(DbError::Full));
        }
        self.put_inode(ino, row);
        Ok(ino)
    }

    pub fn set_dirty_since(&mut self, ino: u64, epoch_ms: Option<i64>)
        requires
            old(self).wf(),
        ensures
            final(self).follows(*old(self)),
            final(self).tables() == with_dirty(old(self).tables(), ino, epoch_ms),
    {
        match self.inode(ino) {
            Some(row) => self.put_inode(ino, InodeRow { dirty_since: epoch_ms, ..row }),
            None => {},
        }
    }

    pub fn get_dirty_since(&self, ino: u64) -> (r: Option<i64>)
        requires
            self.wf(),
        ensures
            r == dirty_since(self.tables(), ino),
    {
        match self.inode(ino) {
            Some(row) => row.dirty_since,
            None => None,
        }
    }

    /// The number of inodes and the sum of their sizes.
    pub fn stats(&self) -> (r: FilesystemStats)
        requires
            self.wf(),
        ensures
            r == stats_of(self.tables()),
    {
        let mut sum: i128 = 0;
        let mut i: usize = 0;
        let n: usize = self.inodes.len();
        let count: usize = self.inodes.rows.len();
        let ghost rows = self.inodes.rows@;
        proof {
            lemma_size_sum_empty(all_indices());
            assert(rows.take(0) =~= Seq::empty());
        }
        while i < count
            invariant
                rows == self.inodes.rows@,
                crate::table::distinct_keys(rows),
                i <= count == rows.len(),
                sum == size_sum(rows_map(rows.take(i as int)), all_indices()),
                -(i * 0x8000_0000_0000_0000) <= sum <= i * 0x8000_0000_0000_0000,
            decreases rows.len() - i,
        {
            proof {
                let front = rows.take(i as int);
                assert(rows.take(i + 1).drop_last() =~= front);
                assert(crate::table::distinct_keys(front)) by {
                    assert forall|a: int, b: int| 0 <= a < b < front.len() implies (
                    #[trigger] front[a]).0.value() != (#[trigger] front[b]).0.value() by {
                        assert(front[a] == rows[a] && front[b] == rows[b]);
                    }
                }
                lemma_rows_map(front);
                if rows_map(front).contains_key(rows[i as int].0) {
                    let j = choose|j: int| row_has_key(front, j, rows[i as int].0);
                    assert(front[j] == rows[j]);
                }
                lemma_size_sum_insert(
                    rows_map(front),
                    rows[i as int].0,
                    rows[i as int].1,
                    all_indices(),
                );
            }
            sum = sum + self.inodes.rows[i].1.size as i128;
            i += 1;
        }
        assert(rows.take(rows.len() as int) =~= rows);
        FilesystemStats {
            inodes: n as u64,
            bytes_used: if i64::MIN as i128 <= sum && sum <= i64::MAX as i128 {
                (sum as i64) as u64
            } else {
                0
            },
        }
    }

    // ── Directory entries ───────────────────────────────────────────────────

    /// The inode that `name` names in directory `parent`.
    pub fn dentry(&self, parent: u64, name: &str) -> (r: Option<u64>)
        requires
            self.wf(),
        ensures
            r == self.tables().dentries.get((parent, name@)),
    {
        match self.dentries.get(&(parent, copy_text(name))) {
            Some(row) => Some(row.ino),
            None => None,
        }
    }

    /// The first directory entry that names `ino`.
    pub fn dentry_of(&self, ino: u64) -> (r: Option<(u64, String)>)
        requires
            self.wf(),
        ensures
            match r {
                Some(d) => dentry_of(self.tables(), ino) == Some((d.0, d.1@)),
                None => dentry_of(self.tables(), ino) is None,
            },
    {
        let mut best: Option<usize> = None;
        let mut i: usize = 0;
        let ghost rows = self.dentries.rows@;
        while i < self.dentries.rows.len()
            invariant
                rows == self.dentries.rows@,
                i <= rows.len(),
                match best {
                    Some(b) => b < i && rows[b as int].1.ino == ino && forall|j: int|
                        0 <= j < i && (#[trigger] rows[j]).1.ino == ino ==> rows[j].0.value()
                            == rows[b as int].0.value() || entry_lt(
                            rows[b as int].0.value(),
                            rows[j].0.value(),
                        ),
                    None => forall|j: int| 0 <= j < i ==> (#[trigger] rows[j]).1.ino != ino,
                },
            decreases rows.len() - i,
        {
            if self.dentries.rows[i].1.ino == ino {
                let better = match best {
                    Some(b) => {
                        let x = &self.dentries.rows[i].0;
                        let y = &self.dentries.rows[b].0;
                        proof {
                            lemma_text_order(x.1@, y.1@);
                        }
                        x.0 < y.0 || (x.0 == y.0 && text_less(x.1.as_str(), y.1.as_str()))
                    },
                    None => true,
                };
                if better {
                    proof {
                        match best {
                            Some(b) => {
                                let y = rows[b as int].0.value();
                                let x = rows[i as int].0.value();
                                assert forall|j: int|
                                    0 <= j < i && (#[trigger] rows[j]).1.ino == ino implies entry_lt(
                                    x,
                                    rows[j].0.value(),
                                ) by {
                                    let z = rows[j].0.value();
                                    if z != y && x.0 == y.0 && y.0 == z.0 {
                                        lemma_text_order_trans(x.1, y.1, z.1);
                                    }
                                }
                            },
                            None => {},
                        }
                    }
                    best = Some(i);
                }
            }
            i += 1;
        }
        proof {
            lemma_rows_map(rows);
            let r = match best {
                Some(b) => Some(rows[b as int].0.value()),
                None => None,
            };
            assert forall|d: (u64, Seq<char>)| #[trigger]
                self.tables().dentries.contains_pair(d, ino) implies match r {
                Some(x) => d == x || entry_lt(x, d),
                None => false,
            } by {
                let j = choose|j: int| row_has_key(rows, j, d);
                assert(rows[j].1.ino == ino);
            }
            lemma_dentry_of(self.tables(), ino, r);
        }
        match best {
            Some(b) => {
                let row = &self.dentries.rows[b].0;
                Some((row.0, copy_text(row.1.as_str())))
            },
            None => None,
        }
    }

    /// The entries of directory `parent`, in the order of their names.
    pub fn children(&self, parent: u64) -> (r: Vec<(String, u64)>)
        requires
            self.wf(),
        ensures
            lists_children(self.tables().dentries, parent, named_inos(r@)),
    {
        let mut out: Vec<(String, u64)> = Vec::new();
        let mut i: usize = 0;
        let ghost rows = self.dentries.rows@;
        proof {
            lemma_rows_map(rows);
        }
        while i < self.dentries.rows.len()
            invariant
                rows == self.dentries.rows@,
                self.dentries.wf(),
                i <= rows.len(),
                sorted_names(out@),
                forall|k: int| 0 <= k < out@.len() ==> from_row(rows, i as int, parent, #[trigger] out@[k]),
                forall|j: int|
                    0 <= j < i && (#[trigger] rows[j]).0.0 == parent ==> has_name(
                        out@,
                        rows[j].0.1@,
                    ),
            decreases rows.len() - i,
        {
            let ghost before = out@;
            if self.dentries.rows[i].0.0 == parent {
                let entry = (
                    copy_text(self.dentries.rows[i].0.1.as_str()),
                    self.dentries.rows[i].1.ino,
                );
                proof {
                    if has_name(out@, entry.0@) {
                        let k = choose|k: int| 0 <= k < out@.len() && (#[trigger] out@[k]).0@ == entry.0@;
                        assert(from_row(rows, i as int, parent, out@[k]));
                        let j = choose|j: int|
                            0 <= j < i && #[trigger] row_is(rows, j, parent, out@[k]);
                        assert(rows[j].0.value() != rows[i as int].0.value());
                    }
                }
                let at: usize = insert_sorted(&mut out, entry);
                proof {
                    assert(row_is(rows, i as int, parent, entry));
                    assert forall|k: int| 0 <= k < out@.len() implies from_row(
                        rows,
                        i + 1,
                        parent,
                        #[trigger] out@[k],
                    ) by {
                        if k == at {
                            assert(row_is(rows, i as int, parent, out@[k]));
                        } else {
                            let b = if k < at { before[k] } else { before[k - 1] };
                            assert(out@[k] == b);
                            assert(from_row(rows, i as int, parent, b));
                            let j = choose|j: int|
                                0 <= j < i && #[trigger] row_is(rows, j, parent, b);
                            assert(row_is(rows, j, parent, out@[k]));
                        }
                    }
                    assert(out@[at as int].0@ == rows[i as int].0.1@);
                    assert forall|j: int|
                        0 <= j < i + 1 && (#[trigger] rows[j]).0.0 == parent implies has_name(
                        out@,
                        rows[j].0.1@,
                    ) by {
                        if j < i {
                            assert(has_name(before, rows[j].0.1@));
                            let k = choose|k: int|
                                0 <= k < before.len() && (#[trigger] before[k]).0@ == rows[j].0.1@;
                            if k < at {
                                assert(out@[k] == before[k]);
                            } else {
                                assert(out@[k + 1] == before[k]);
                            }
                        }
                    }
                }
            } else {
                assert forall|k: int| 0 <= k < out@.len() implies from_row(
                    rows,
                    i + 1,
                    parent,
                    #[trigger] out@[k],
                ) by {
                    assert(from_row(rows, i as int, parent, out@[k]));
                    let j = choose|j: int| 0 <= j < i && #[trigger] row_is(rows, j, parent, out@[k]);
                    assert(row_is(rows, j, parent, out@[k]));
                }
            }
            i += 1;
        }
        proof {
            let list = named_inos(out@);
            assert forall|k: int| 0 <= k < list.len() implies self.tables().dentries.contains_pair(
                (parent, (#[trigger] list[k]).0),
                list[k].1,
            ) by {
                assert(from_row(rows, i as int, parent, out@[k]));
                let j = choose|j: int| 0 <= j < i && #[trigger] row_is(rows, j, parent, out@[k]);
                assert(rows[j].0.value() == (parent, list[k].0));
            }
            assert forall|n: Seq<char>| #[trigger]
                self.tables().dentries.contains_key((parent, n)) implies exists|k: int|
                0 <= k < list.len() && (#[trigger] list[k]).0 == n by {
                let j = choose|j: int| row_has_key(rows, j, (parent, n));
                assert(has_name(out@, rows[j].0.1@));
                let k = choose|k: int| 0 <= k < out@.len() && (#[trigger] out@[k]).0@ == n;
                assert(list[k].0 == n);
            }
            assert forall|a: int, b: int| 0 <= a < b < list.len() implies text_lt(
                (#[trigger] list[a]).0,
                (#[trigger] list[b]).0,
            ) by {
                assert(text_lt(out@[a].0@, out@[b].0@));
            }
        }
        out
    }

    /// The target of symbolic link `ino`.
    pub fn symlink_target(&self, ino: u64) -> (r: Option<String>)
        requires
            self.wf(),
        ensures
            opt_view(r) == self.tables().symlinks.get(ino),
    {
        match self.symlinks.get(&ino) {
            Some(row) => Some(copy_text(row.text.as_str())),
            None => None,
        }
    }

    // ── Remote documents ────────────────────────────────────────────────────

    pub fn get_remote_path(&self, ino: u64) -> (r: Option<String>)
        requires
            self.wf(),
        ensures
            opt_view(r) == remote_path(self.tables(), ino),
    {
        match self.remotes.get(&ino) {
            Some(row) => Some(copy_text(row.remote_path.as_str())),
            None => None,
        }
    }

    /// Records the brain path of `ino` and forgets everything else that was
    /// known of its remote document.
    pub fn set_remote_path(&mut self, ino: u64, remote_path: &str)
        requires
            old(self).wf(),
        ensures
            final(self).follows(*old(self)),
            final(self).tables() == changed(
                old(self).tables(),
                ChangeView::PutRemote(ino, fresh_remote(remote_path@)),
            ),
    {
        let row = RemoteRow {
            remote_path: copy_text(remote_path),
            remote_id: None,
            content_hash: None,
            mirrored_updated_at: None,
            last_status: None,
            last_status_at: None,
        };
        assert(row.row() == fresh_remote(remote_path@));
        self.put_remote(ino, row);
    }

    pub fn delete_remote_path(&mut self, ino: u64)
        requires
            old(self).wf(),
        ensures
            final(self).follows(*old(self)),
            final(self).tables() == changed(old(self).tables(), ChangeView::DropRemote(ino)),
    {
        self.drop_remote(ino);
    }

    /// Updates the mirrored state of `ino` where a value is given.
    pub fn set_mirrored_state(
        &mut self,
        ino: u64,
        mirrored_updated_at: Option<i64>,
        last_status: Option<&str>,
        last_status_at: Option<i64>,
    )
        requires
            old(self).wf(),
        ensures
            final(self).follows(*old(self)),
            final(self).tables() == with_mirrored(
                old(self).tables(),
                ino,
                mirrored_updated_at,
                opt_str_view(last_status),
                last_status_at,
            ),
    {
        match self.remotes.get(&ino) {
            Some(r) => {
                let mut row = r.dup();
                if mirrored_updated_at.is_some() {
                    row.mirrored_updated_at = mirrored_updated_at;
                }
                if last_status.is_some() {
                    row.last_status = own_opt(last_status);
                }
                if last_status_at.is_some() {
                    row.last_status_at = last_status_at;
                }
                self.put_remote(ino, row);
            },
            None => {},
        }
    }

    /// Records the document id of `ino`.
    pub fn set_remote_id(&mut self, ino: u64, id: &str)
        requires
            old(self).wf(),
        ensures
            final(self).follows(*old(self)),
            final(self).tables() == with_remote_id(old(self).tables(), ino, id@),
    {
        match self.remotes.get(&ino) {
            Some(r) => {
                let mut row = r.dup();
                row.remote_id = Some(copy_text(id));
                self.put_remote(ino, row);
            },
            None => {},
        }
    }

    /// Records the content hash of `ino`.
    pub fn set_remote_content_hash(&mut self, ino: u64, hash: Option<&str>)
        requires
            old(self).wf(),
        ensures
            final(self).follows(*old(self)),
            final(self).tables() == with_content_hash(old(self).tables(), ino, opt_str_view(hash)),
    {
        match self.remotes.get(&ino) {
            Some(r) => {
                let mut row = r.dup();
                row.content_hash = own_opt(hash);
                self.put_remote(ino, row);
            },
            None => {},
        }
    }

    /// The content hash of `ino`.
    pub fn remote_content_hash(&self, ino: u64) -> (r: Option<String>)
        requires
            self.wf(),
        ensures
            opt_view(r) == remote_hash(self.tables(), ino),
    {
        match self.remotes.get(&ino) {
            Some(row) => copy_opt(&row.content_hash),
            None => None,
        }
    }

    /// The least inode with the given brain path.
    pub fn ino_by_remote_path(&self, path: &str) -> (r: Option<u64>)
        requires
            self.wf(),
        ensures
            r == ino_by_remote_path(self.tables(), path@),
    {
        let mut best: Option<u64> = None;
        let mut i: usize = 0;
        let ghost rows = self.remotes.rows@;
        while i < self.remotes.rows.len()
            invariant
                rows == self.remotes.rows@,
                i <= rows.len(),
                match best {
                    Some(b) => (exists|j: int|
                        0 <= j < i && (#[trigger] rows[j]).0 == b && rows[j].1.remote_path@
                            == path@) && forall|j: int|
                        0 <= j < i && (#[trigger] rows[j]).1.remote_path@ == path@ ==> b
                            <= rows[j].0,
                    None => forall|j: int|
                        0 <= j < i ==> (#[trigger] rows[j]).1.remote_path@ != path@,
                },
            decreases rows.len() - i,
        {
            if same_text(self.remotes.rows[i].1.remote_path.as_str(), path) {
                let ino: u64 = self.remotes.rows[i].0;
                assert(rows[i as int].0 == ino);
                match best {
                    Some(b) => {
                        if ino < b {
                            best = Some(ino);
                        }
                    },
                    None => {
                        best = Some(ino);
                    },
                }
            }
            i += 1;
        }
        proof {
            lemma_rows_map(rows);
            let t = self.tables();
            let p = |ino: u64| remote_path(t, ino) == Some(path@);
            assert forall|ino: u64| #[trigger] p(ino) implies exists|j: int|
                0 <= j < rows.len() && (#[trigger] rows[j]).0 == ino && rows[j].1.remote_path@
                    == path@ by {
                let j = choose|j: int| row_has_key(rows, j, ino);
                assert(rows[j].0 == ino);
            }
            match best {
                Some(b) => {
                    let j = choose|j: int|
                        0 <= j < i && (#[trigger] rows[j]).0 == b && rows[j].1.remote_path@
                            == path@;
                    assert(t.remotes.contains_key(rows[j].0));
                    assert(p(b));
                    assert(is_least(p, b));
                },
                None => {},
            }
            lemma_least(p, best);
        }
        best
    }

    /// The least inode with the given document id.
    pub fn ino_for_remote_id(&self, id: &str) -> (r: Option<u64>)
        requires
            self.wf(),
        ensures
            r == ino_for_remote_id(self.tables(), id@),
    {
        let mut best: Option<u64> = None;
        let mut i: usize = 0;
        let ghost rows = self.remotes.rows@;
        while i < self.remotes.rows.len()
            invariant
                rows == self.remotes.rows@,
                i <= rows.len(),
                match best {
                    Some(b) => (exists|j: int|
                        0 <= j < i && (#[trigger] rows[j]).0 == b && opt_view(rows[j].1.remote_id)
                            == Some(id@)) && forall|j: int|
                        0 <= j < i && opt_view((#[trigger] rows[j]).1.remote_id) == Some(id@) ==> b
                            <= rows[j].0,
                    None => forall|j: int|
                        0 <= j < i ==> opt_view((#[trigger] rows[j]).1.remote_id) != Some(id@),
                },
            decreases rows.len() - i,
        {
            let hit = match &self.remotes.rows[i].1.remote_id {
                Some(x) => same_text(x.as_str(), id),
                None => false,
            };
            if hit {
                let ino: u64 = self.remotes.rows[i].0;
                assert(rows[i as int].0 == ino);
                match best {
                    Some(b) => {
                        if ino < b {
                            best = Some(ino);
                        }
                    },
                    None => {
                        best = Some(ino);
                    },
                }
            }
            i += 1;
        }
        proof {
            lemma_rows_map(rows);
            let t = self.tables();
            let p = |ino: u64| remote_id(t, ino) == Some(id@);
            assert forall|ino: u64| #[trigger] p(ino) implies exists|j: int|
                0 <= j < rows.len() && (#[trigger] rows[j]).0 == ino && opt_view(
                    rows[j].1.remote_id,
                ) == Some(id@) by {
                let j = choose|j: int| row_has_key(rows, j, ino);
                assert(rows[j].0 == ino);
            }
            match best {
                Some(b) => {
                    let j = choose|j: int|
                        0 <= j < i && (#[trigger] rows[j]).0 == b && opt_view(rows[j].1.remote_id)
                            == Some(id@);
                    assert(t.remotes.contains_key(rows[j].0));
                    assert(p(b));
                    assert(is_least(p, b));
                },
                None => {},
            }
            lemma_least(p, best);
        }
        best
    }

    /// How many remote documents are tracked.
    pub fn remote_count(&self) -> (r: usize)
        requires
            self.wf(),
        ensures
            r == self.tables().remotes.len(),
    {
        self.remotes.len()
    }

    /// Every known document id, in the order of the inodes.
    pub fn all_remote_ids(&self) -> (r: Vec<String>)
        requires
            self.wf(),
        ensures
            texts(r@) == all_remote_ids(self.tables()),
    {
        let mut out: Vec<String> = Vec::new();
        let ghost t = self.tables();
        let ghost f = |ino: u64| remote_id(t, ino);
        let mut from: u64 = 0;
        let mut more = true;
        while more
            invariant
                self.wf(),
                t == self.tables(),
                f == (|ino: u64| remote_id(t, ino)),
                more ==> texts(out@) == gathered(f, from as int),
                !more ==> texts(out@) == gathered(f, all_indices()),
            decreases
                if more {
                    all_indices() - from
                } else {
                    0
                },
        {
            match self.next_remote(from) {
                Some((ino, id)) => {
                    let ghost before = texts(out@);
                    proof {
                        assert forall|i: u64| from <= i < ino implies #[trigger] f(i) is None by {}
                        lemma_gathered_gap(f, from as int, ino as int);
                        assert(f(ino) == Some(id@));
                    }
                    out.push(id);
                    assert(texts(out@) =~= before.push(id@));
                    assert(texts(out@) == gathered(f, ino + 1));
                    if ino == u64::MAX {
                        more = false;
                    } else {
                        from = ino + 1;
                    }
                },
                None => {
                    proof {
                        assert forall|i: u64| from <= i < all_indices() implies #[trigger] f(
                            i,
                        ) is None by {}
                        lemma_gathered_gap(f, from as int, all_indices());
                    }
                    more = false;
                },
            }
        }
        out
    }

    /// The first inode from `from` on that has a document id, with the id.
    fn next_remote(&self, from: u64) -> (r: Option<(u64, String)>)
        requires
            self.wf(),
        ensures
            match r {
                Some((ino, id)) => from <= ino && remote_id(self.tables(), ino) == Some(id@)
                    && forall|i: u64|
                    from <= i < ino ==> #[trigger] remote_id(self.tables(), i) is None,
                None => forall|i: u64|
                    from <= i ==> #[trigger] remote_id(self.tables(), i) is None,
            },
    {
        let mut best: Option<usize> = None;
        let mut i: usize = 0;
        let ghost rows = self.remotes.rows@;
        while i < self.remotes.rows.len()
            invariant
                rows == self.remotes.rows@,
                i <= rows.len(),
                match best {
                    Some(b) => b < i && rows[b as int].0 >= from && rows[b as int].1.remote_id is Some
                        && forall|j: int|
                        0 <= j < i && (#[trigger] rows[j]).0 >= from && rows[j].1.remote_id is Some
                            ==> rows[b as int].0 <= rows[j].0,
                    None => forall|j: int|
                        0 <= j < i && (#[trigger] rows[j]).0 >= from ==> rows[j].1.remote_id is None,
                },
            decreases rows.len() - i,
        {
            let row = &self.remotes.rows[i];
            if row.0 >= from && row.1.remote_id.is_some() {
                let better = match best {
                    Some(b) => row.0 < self.remotes.rows[b].0,
                    None => true,
                };
                if better {
                    best = Some(i);
                }
            }
            i += 1;
        }
        proof {
            lemma_rows_map(rows);
            assert forall|ino: u64| from <= ino && #[trigger] remote_id(
                self.tables(),
                ino,
            ) is Some implies exists|j: int|
                0 <= j < rows.len() && (#[trigger] rows[j]).0 == ino && rows[j].1.remote_id is Some by {
                let j = choose|j: int| row_has_key(rows, j, ino);
                assert(rows[j].0 == ino);
            }
        }
        match best {
            Some(b) => {
                let row = &self.remotes.rows[b];
                assert(rows[b as int] == *row);
                match &row.1.remote_id {
                    Some(id) => Some((row.0, copy_text(id.as_str()))),
                    None => None,
                }
            },
            None => None,
        }
    }

    // ── Push queue ──────────────────────────────────────────────────────────

    /// A copy of the queued job for `path`.
    pub(crate) fn job(&self, path: &str) -> (r: Option<QueueRow>)
        requires
            self.wf(),
        ensures
            match r {
                Some(row) => self.tables().queue.get(path@) == Some(row.row()),
                None => !self.tables().queue.contains_key(path@),
            },
    {
        match self.queue.get(&copy_text(path)) {
            Some(row) => Some(row.dup()),
            None => None,
        }
    }

    /// The oldest job that can be claimed at `now_ms`.
    pub(crate) fn next_job(&self, now_ms: i64) -> (r: Option<(String, QueueRow)>)
        requires
            self.wf(),
        ensures
            match r {
                Some((path, row)) => is_next(self.tables(), path@, now_ms)
                    && self.tables().queue[path@] == row.row(),
                None => forall|p: Seq<char>| #[trigger]
                    self.tables().queue.contains_key(p) ==> !claimable(
                        self.tables().queue[p],
                        now_ms,
                    ),
            },
    {
        let mut best: Option<usize> = None;
        let mut i: usize = 0;
        let ghost rows = self.queue.rows@;
        while i < self.queue.rows.len()
            invariant
                rows == self.queue.rows@,
                i <= rows.len(),
                match best {
                    Some(b) => b < i && claimable(rows[b as int].1.row(), now_ms) && forall|j: int|
                        0 <= j < i && claimable((#[trigger] rows[j]).1.row(), now_ms)
                            ==> rows[b as int].1.updated_at <= rows[j].1.updated_at,
                    None => forall|j: int|
                        0 <= j < i ==> !claimable((#[trigger] rows[j]).1.row(), now_ms),
                },
            decreases rows.len() - i,
        {
            let row = &self.queue.rows[i].1;
            if row.inflight_started_at.is_none() && !row.poisoned && row.updated_at <= now_ms {
                let better = match best {
                    Some(b) => row.updated_at < self.queue.rows[b].1.updated_at,
                    None => true,
                };
                if better {
                    best = Some(i);
                }
            }
            i += 1;
        }
        proof {
            lemma_rows_map(rows);
            assert forall|p: Seq<char>| #[trigger] self.tables().queue.contains_key(
                p,
            ) implies exists|j: int|
                0 <= j < rows.len() && (#[trigger] rows[j]).1.row() == self.tables().queue[p] by {
                let j = choose|j: int| row_has_key(rows, j, p);
                assert(rows[j].1.row() == self.tables().queue[p]);
            }
        }
        match best {
            Some(b) => {
                let row = &self.queue.rows[b];
                assert(rows[b as int] == *row);
                Some((copy_text(row.0.as_str()), row.1.dup()))
            },
            None => None,
        }
    }

    /// How many jobs the push queue holds.
    pub fn push_queue_len(&self) -> (r: usize)
        requires
            self.wf(),
        ensures
            r == self.tables().queue.len(),
    {
        self.queue.len()
    }

    // ── Sync metadata ───────────────────────────────────────────────────────

    pub fn sync_meta_get(&self, key: &str) -> (r: Option<String>)
        requires
            self.wf(),
        ensures
            opt_view(r) == self.tables().meta.get(key@),
    {
        match self.meta.get(&copy_text(key)) {
            Some(row) => Some(copy_text(row.text.as_str())),
            None => None,
        }
    }

    pub fn sync_meta_set(&mut self, key: &str, value: &str)
        requires
            old(self).wf(),
        ensures
            final(self).follows(*old(self)),
            final(self).tables() == changed(
                old(self).tables(),
                ChangeView::PutMeta(key@, value@),
            ),
    {
        self.put_meta(key, value);
    }

    // ── Content ─────────────────────────────────────────────────────────────

    /// The bytes of one chunk.
    pub(crate) fn chunk(&self, ino: u64, index: u64) -> (r: Option<&Vec<u8>>)
        requires
            self.wf(),
        ensures
            match r {
                Some(d) => self.tables().chunks.get((ino, index)) == Some(d@),
                None => !self.tables().chunks.contains_key((ino, index)),
            },
    {
        match self.chunks.get(&(ino, index)) {
            Some(row) => Some(&row.data),
            None => None,
        }
    }

    /// The bytes `from .. to` of the file `ino`; what was never written is zeros.
    pub(crate) fn read_range(&self, ino: u64, from: u64, to: u64) -> (r: Vec<u8>)
        requires
            self.wf(),
            from <= to,
        ensures
            r@ == file_bytes(self.tables().chunks, ino, from as int, to as int),
    {
        let ghost chunks = self.tables().chunks;
        let mut out: Vec<u8> = Vec::new();
        let mut at: u64 = from;
        assert(out@ =~= file_bytes(chunks, ino, from as int, at as int));
        while at < to
            invariant
                self.wf(),
                chunks == self.tables().chunks,
                from <= at <= to,
                out@ == file_bytes(chunks, ino, from as int, at as int),
            decreases to - at,
        {
            let index: u64 = at / 4096;
            let start: usize = (at % 4096) as usize;
            let room: u64 = 4096 - at % 4096;
            let n: usize = if to - at < room {
                (to - at) as usize
            } else {
                room as usize
            };
            let chunk = self.chunk(ino, index);
            let mut j: usize = 0;
            while j < n
                invariant
                    j <= n,
                    start + n <= 4096,
                    from <= at,
                    at + n <= to,
                    index == at / 4096,
                    start == at % 4096,
                    match chunk {
                        Some(d) => chunks.get((ino, index)) == Some(d@),
                        None => !chunks.contains_key((ino, index)),
                    },
                    out@ == file_bytes(chunks, ino, from as int, at + j),
                decreases n - j,
            {
                let byte: u8 = match chunk {
                    Some(d) => if start + j < d.len() {
                        d[start + j]
                    } else {
                        0
                    },
                    None => 0,
                };
                proof {
                    assert((at + j) / 4096 == index);
                    assert((at + j) % 4096 == start + j);
                    assert(byte == byte_at(chunks, ino, at + j));
                }
                out.push(byte);
                assert(out@ =~= file_bytes(chunks, ino, from as int, at + j + 1));
                j += 1;
            }
            at = at + n as u64;
        }
        out
    }

    /// The whole content of `ino`.
    pub fn read_all_content(&self, ino: u64) -> (r: Vec<u8>)
        requires
            self.wf(),
        ensures
            r@ == content(self.tables(), ino),
    {
        match self.inode(ino) {
            Some(row) => if row.size <= 0 {
                Vec::new()
            } else {
                self.read_range(ino, 0, row.size as u64)
            },
            None => Vec::new(),
        }
    }

    /// How many directory entries there are.
    pub(crate) fn dentry_count(&self) -> (r: usize)
        requires
            self.wf(),
        ensures
            r == self.tables().dentries.len(),
    {
        self.dentries.len()
    }
}

/// The names and inodes of a list of entries.
pub open spec fn named_inos(v: Seq<(String, u64)>) -> Seq<(Seq<char>, u64)> {
    v.map_values(|e: (String, u64)| (e.0@, e.1))
}

spec fn row_is(
    rows: Seq<((u64, String), DentryRow)>,
    j: int,
    parent: u64,
    e: (String, u64),
) -> bool {
    rows[j].0.0 == parent && rows[j].0.1@ == e.0@ && rows[j].1.ino == e.1
}

spec fn from_row(
    rows: Seq<((u64, String), DentryRow)>,
    n: int,
    parent: u64,
    e: (String, u64),
) -> bool {
    exists|j: int| 0 <= j < n && #[trigger] row_is(rows, j, parent, e)
}

} // verus!
