//! The rows of the cache, what they stand for, and how they change.

use crate::table::Row;
use crate::text::{copy_opt, copy_text, opt_view};
use crate::vfs::types::Timestamp;
use vstd::prelude::*;

verus! {

/// Metadata of an inode.
#[derive(Copy, Clone, Debug, PartialEq, Eq)]
pub struct InodeRow {
    pub mode: u32,
    pub nlink: i64,
    pub uid: u32,
    pub gid: u32,
    pub size: i64,
    pub atime: Timestamp,
    pub mtime: Timestamp,
    pub ctime: Timestamp,
    pub rdev: u32,
    /// When local edits that are not pushed yet began, in epoch milliseconds.
    pub dirty_since: Option<i64>,
}

impl Row for InodeRow {
    type Model = InodeRow;

    open spec fn row(&self) -> InodeRow {
        *self
    }

    open spec fn ok(&self) -> bool {
        true
    }
}

/// The inode that a directory entry names.
#[derive(Copy, Clone, Debug)]
pub struct DentryRow {
    pub ino: u64,
}

impl Row for DentryRow {
    type Model = u64;

    open spec fn row(&self) -> u64 {
        self.ino
    }

    open spec fn ok(&self) -> bool {
        true
    }
}

/// One chunk of file content.
#[derive(Debug)]
pub struct ChunkRow {
    pub data: Vec<u8>,
}

impl Row for ChunkRow {
    type Model = Seq<u8>;

    open spec fn row(&self) -> Seq<u8> {
        self.data@
    }

    open spec fn ok(&self) -> bool {
        true
    }
}

/// A piece of text: a symlink target or a metadata value.
#[derive(Debug)]
pub struct TextRow {
    pub text: String,
}

impl Row for TextRow {
    type Model = Seq<char>;

    open spec fn row(&self) -> Seq<char> {
        self.text@
    }

    open spec fn ok(&self) -> bool {
        true
    }
}

/// What is known of the remote document behind an inode.
#[derive(Debug)]
pub struct RemoteRow {
    pub remote_path: String,
    pub remote_id: Option<String>,
    pub content_hash: Option<String>,
    pub mirrored_updated_at: Option<i64>,
    pub last_status: Option<String>,
    pub last_status_at: Option<i64>,
}

/// A [`RemoteRow`] with its texts as character sequences.
pub struct RemoteView {
    pub remote_path: Seq<char>,
    pub remote_id: Option<Seq<char>>,
    pub content_hash: Option<Seq<char>>,
    pub mirrored_updated_at: Option<i64>,
    pub last_status: Option<Seq<char>>,
    pub last_status_at: Option<i64>,
}

impl Row for RemoteRow {
    type Model = RemoteView;

    open spec fn row(&self) -> RemoteView {
        RemoteView {
            remote_path: self.remote_path@,
            remote_id: opt_view(self.remote_id),
            content_hash: opt_view(self.content_hash),
            mirrored_updated_at: self.mirrored_updated_at,
            last_status: opt_view(self.last_status),
            last_status_at: self.last_status_at,
        }
    }

    open spec fn ok(&self) -> bool {
        true
    }
}

impl RemoteRow {
    pub fn dup(&self) -> (r: Self)
        ensures
            r.row() == self.row(),
    {
        RemoteRow {
            remote_path: copy_text(self.remote_path.as_str()),
            remote_id: copy_opt(&self.remote_id),
            content_hash: copy_opt(&self.content_hash),
            mirrored_updated_at: self.mirrored_updated_at,
            last_status: copy_opt(&self.last_status),
            last_status_at: self.last_status_at,
        }
    }
}

/// A push that waits to be sent, and what arrived for the same path while it
/// was under way.
#[derive(Debug)]
pub struct QueueRow {
    pub op: String,
    pub content_ino: Option<u64>,
    pub rename_to: Option<String>,
    pub attempt: i64,
    pub updated_at: i64,
    pub inflight_started_at: Option<i64>,
    pub pending_op: Option<String>,
    pub pending_content_ino: Option<u64>,
    pub pending_rename_to: Option<String>,
    pub last_error: Option<String>,
    pub last_status: Option<i64>,
    pub poisoned: bool,
}

/// A [`QueueRow`] with its texts as character sequences.
pub struct QueueView {
    pub op: Seq<char>,
    pub content_ino: Option<u64>,
    pub rename_to: Option<Seq<char>>,
    pub attempt: i64,
    pub updated_at: i64,
    pub inflight_started_at: Option<i64>,
    pub pending_op: Option<Seq<char>>,
    pub pending_content_ino: Option<u64>,
    pub pending_rename_to: Option<Seq<char>>,
    pub last_error: Option<Seq<char>>,
    pub last_status: Option<i64>,
    pub poisoned: bool,
}

impl Row for QueueRow {
    type Model = QueueView;

    open spec fn row(&self) -> QueueView {
        QueueView {
            op: self.op@,
            content_ino: self.content_ino,
            rename_to: opt_view(self.rename_to),
            attempt: self.attempt,
            updated_at: self.updated_at,
            inflight_started_at: self.inflight_started_at,
            pending_op: opt_view(self.pending_op),
            pending_content_ino: self.pending_content_ino,
            pending_rename_to: opt_view(self.pending_rename_to),
            last_error: opt_view(self.last_error),
            last_status: self.last_status,
            poisoned: self.poisoned,
        }
    }

    open spec fn ok(&self) -> bool {
        true
    }
}

impl QueueRow {
    pub fn dup(&self) -> (r: Self)
        ensures
            r.row() == self.row(),
    {
        QueueRow {
            op: copy_text(self.op.as_str()),
            content_ino: self.content_ino,
            rename_to: copy_opt(&self.rename_to),
            attempt: self.attempt,
            updated_at: self.updated_at,
            inflight_started_at: self.inflight_started_at,
            pending_op: copy_opt(&self.pending_op),
            pending_content_ino: self.pending_content_ino,
            pending_rename_to: copy_opt(&self.pending_rename_to),
            last_error: copy_opt(&self.last_error),
            last_status: self.last_status,
            poisoned: self.poisoned,
        }
    }
}

/// The contents of every table of the cache.
pub struct Tables {
    pub inodes: Map<u64, InodeRow>,
    /// Directory entries by parent and name.
    pub dentries: Map<(u64, Seq<char>), u64>,
    /// File content by inode and chunk index.
    pub chunks: Map<(u64, u64), Seq<u8>>,
    pub symlinks: Map<u64, Seq<char>>,
    pub remotes: Map<u64, RemoteView>,
    /// Waiting pushes by brain path.
    pub queue: Map<Seq<char>, QueueView>,
    pub meta: Map<Seq<char>, Seq<char>>,
    /// The number of the next new inode.
    pub next_ino: u64,
}

/// The largest inode number that a new inode can have.
pub const MAX_INO: u64 = 0x7fff_ffff_ffff_ffff;

/// `next` moved beyond `ino`, where a new inode could have that number.
pub open spec fn beyond(next: u64, ino: u64) -> u64 {
    if next <= ino <= MAX_INO {
        (ino + 1) as u64
    } else {
        next
    }
}

/// A change of one row, or of the tail of one file's content.
#[derive(Debug)]
pub enum Change {
    PutInode(u64, InodeRow),
    DropInode(u64),
    PutDentry(u64, String, u64),
    DropDentry(u64, String),
    PutChunk(u64, u64, Vec<u8>),
    /// Drops every chunk of the inode from the given index on.
    DropChunks(u64, u64),
    PutSymlink(u64, String),
    DropSymlink(u64),
    PutRemote(u64, RemoteRow),
    DropRemote(u64),
    PutJob(String, QueueRow),
    DropJob(String),
    PutMeta(String, String),
}

/// A [`Change`] with its texts and bytes as sequences.
pub enum ChangeView {
    PutInode(u64, InodeRow),
    DropInode(u64),
    PutDentry(u64, Seq<char>, u64),
    DropDentry(u64, Seq<char>),
    PutChunk(u64, u64, Seq<u8>),
    DropChunks(u64, u64),
    PutSymlink(u64, Seq<char>),
    DropSymlink(u64),
    PutRemote(u64, RemoteView),
    DropRemote(u64),
    PutJob(Seq<char>, QueueView),
    DropJob(Seq<char>),
    PutMeta(Seq<char>, Seq<char>),
}

impl View for Change {
    type V = ChangeView;

    open spec fn view(&self) -> ChangeView {
        match *self {
            Change::PutInode(ino, row) => ChangeView::PutInode(ino, row),
            Change::DropInode(ino) => ChangeView::DropInode(ino),
            Change::PutDentry(p, n, ino) => ChangeView::PutDentry(p, n@, ino),
            Change::DropDentry(p, n) => ChangeView::DropDentry(p, n@),
            Change::PutChunk(ino, i, d) => ChangeView::PutChunk(ino, i, d@),
            Change::DropChunks(ino, i) => ChangeView::DropChunks(ino, i),
            Change::PutSymlink(ino, t) => ChangeView::PutSymlink(ino, t@),
            Change::DropSymlink(ino) => ChangeView::DropSymlink(ino),
            Change::PutRemote(ino, row) => ChangeView::PutRemote(ino, row.row()),
            Change::DropRemote(ino) => ChangeView::DropRemote(ino),
            Change::PutJob(path, row) => ChangeView::PutJob(path@, row.row()),
            Change::DropJob(path) => ChangeView::DropJob(path@),
            Change::PutMeta(k, v) => ChangeView::PutMeta(k@, v@),
        }
    }
}

/// `chunks` without those of `ino` at index `from` and beyond.
pub open spec fn without_chunks(
    chunks: Map<(u64, u64), Seq<u8>>,
    ino: u64,
    from: u64,
) -> Map<(u64, u64), Seq<u8>> {
    Map::new(
        |k: (u64, u64)| chunks.contains_key(k) && !(k.0 == ino && k.1 >= from),
        |k: (u64, u64)| chunks[k],
    )
}

/// The tables after one change.
pub open spec fn changed(t: Tables, c: ChangeView) -> Tables {
    match c {
        ChangeView::PutInode(ino, row) => Tables {
            inodes: t.inodes.insert(ino, row),
            next_ino: beyond(t.next_ino, ino),
            ..t
        },
        ChangeView::DropInode(ino) => Tables { inodes: t.inodes.remove(ino), ..t },
        ChangeView::PutDentry(p, n, ino) => Tables {
            dentries: t.dentries.insert((p, n), ino),
            ..t
        },
        ChangeView::DropDentry(p, n) => Tables { dentries: t.dentries.remove((p, n)), ..t },
        ChangeView::PutChunk(ino, i, d) => Tables { chunks: t.chunks.insert((ino, i), d), ..t },
        ChangeView::DropChunks(ino, i) => Tables { chunks: without_chunks(t.chunks, ino, i), ..t },
        ChangeView::PutSymlink(ino, s) => Tables { symlinks: t.symlinks.insert(ino, s), ..t },
        ChangeView::DropSymlink(ino) => Tables { symlinks: t.symlinks.remove(ino), ..t },
        ChangeView::PutRemote(ino, row) => Tables { remotes: t.remotes.insert(ino, row), ..t },
        ChangeView::DropRemote(ino) => Tables { remotes: t.remotes.remove(ino), ..t },
        ChangeView::PutJob(p, row) => Tables { queue: t.queue.insert(p, row), ..t },
        ChangeView::DropJob(p) => Tables { queue: t.queue.remove(p), ..t },
        ChangeView::PutMeta(k, v) => Tables { meta: t.meta.insert(k, v), ..t },
    }
}

/// The tables after a list of changes, first to last.
pub open spec fn replayed(t: Tables, changes: Seq<ChangeView>) -> Tables
    decreases changes.len(),
{
    if changes.len() == 0 {
        t
    } else {
        changed(replayed(t, changes.drop_last()), changes.last())
    }
}

/// The views of a list of changes.
pub open spec fn change_views(v: Seq<Change>) -> Seq<ChangeView> {
    v.map_values(|c: Change| c@)
}

/// What is saved in two batches is what is saved in one: carrying out one list
/// of changes and then another is carrying out both in a row.
pub proof fn law_saved_batches_add_up(t: Tables, a: Seq<ChangeView>, b: Seq<ChangeView>)
    ensures
        replayed(t, a + b) == replayed(replayed(t, a), b),
    decreases b.len(),
{
    if b.len() == 0 {
        assert(a + b =~= a);
    } else {
        assert((a + b).drop_last() =~= a + b.drop_last());
        assert((a + b).last() == b.last());
        law_saved_batches_add_up(t, a, b.drop_last());
    }
}

} // verus!
