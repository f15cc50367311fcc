//! Handles to cached files.
//!
//! The content of a file is kept in chunks of [`DEFAULT_CHUNK_SIZE`] bytes.

use super::db::Db;
use super::model::{at_most, attr, byte_at, content, with_dirty, with_row};
use super::rows::{changed, ChangeView, InodeRow, Tables};
use crate::clock::now_ms;
use crate::vfs::error::{DbError, VfsError, VfsResult};
use crate::vfs::tree::resized;
use crate::vfs::types::{FileAttr, Timestamp};
use vstd::prelude::*;

verus! {

/// A handle to an open file in the cache.
#[derive(Debug, Clone, Copy)]
pub struct DbFile {
    pub ino: u64,
}

// ── What the operations do ──────────────────────────────────────────────────

/// The smaller of two numbers.
pub open spec fn min_of(a: int, b: int) -> int {
    if a < b {
        a
    } else {
        b
    }
}

/// The larger of two numbers.
pub open spec fn max_of(a: int, b: int) -> int {
    if a < b {
        b
    } else {
        a
    }
}

/// Chunk `index` after `data` was written to the file at `offset`, when it held
/// `before`. It grows, with zeros, to where the data ends or to its full size.
pub open spec fn merged_chunk(before: Seq<u8>, index: int, offset: int, data: Seq<u8>) -> Seq<u8> {
    let base = index * 4096;
    let end = offset + data.len();
    Seq::new(
        max_of(before.len() as int, min_of(4096, end - base)) as nat,
        |j: int|
            if offset <= base + j < end && j < 4096 {
                data[base + j - offset]
            } else if j < before.len() {
                before[j]
            } else {
                0
            },
    )
}

/// The chunks after the part of `data` that goes to chunks below `upto` was
/// written to file `ino` at `offset`.
pub open spec fn chunks_written(
    chunks: Map<(u64, u64), Seq<u8>>,
    ino: u64,
    offset: int,
    data: Seq<u8>,
    upto: int,
) -> Map<(u64, u64), Seq<u8>> {
    Map::new(
        |k: (u64, u64)|
            chunks.contains_key(k) || (k.0 == ino && offset / 4096 <= k.1 < upto),
        |k: (u64, u64)|
            if k.0 == ino && offset / 4096 <= k.1 < upto {
                merged_chunk(
                    match chunks.get(k) {
                        Some(d) => d,
                        None => Seq::empty(),
                    },
                    k.1 as int,
                    offset,
                    data,
                )
            } else {
                chunks[k]
            },
    )
}

/// The size of a file of size `size` after `len` bytes were written at `offset`.
pub open spec fn size_written(offset: int, len: int, size: i64) -> i64 {
    max_of(offset + len, (size as u64) as int) as i64
}

/// The tables after `data` was written to file `ino` at `offset`. Writing
/// nothing changes nothing.
pub open spec fn written(
    t: Tables,
    ino: u64,
    offset: int,
    data: Seq<u8>,
    now: Timestamp,
    ms: i64,
) -> Tables {
    if data.len() == 0 {
        t
    } else {
        let last = (offset + data.len() - 1) / 4096;
        let stored = Tables {
            chunks: chunks_written(t.chunks, ino, offset, data, last + 1),
            ..t
        };
        let sized = with_row(
            stored,
            ino,
            |r: InodeRow|
                InodeRow {
                    size: size_written(offset, data.len() as int, r.size),
                    mtime: now,
                    ctime: now,
                    ..r
                },
        );
        with_dirty(sized, ino, Some(ms))
    }
}

/// The tables after file `ino` was cut or extended to `size` bytes. Extending
/// adds no chunks.
pub open spec fn truncated(t: Tables, ino: u64, size: u64) -> Tables {
    let kept = if size == 0 {
        changed(t, ChangeView::DropChunks(ino, 0))
    } else {
        let last = ((size - 1) / 4096) as u64;
        let whole = changed(t, ChangeView::DropChunks(ino, (last + 1) as u64));
        match whole.chunks.get((ino, last)) {
            Some(d) => if size % 4096 > 0 {
                changed(
                    whole,
                    ChangeView::PutChunk(ino, last, at_most(d, (size % 4096) as int)),
                )
            } else {
                whole
            },
            None => whole,
        }
    };
    with_row(kept, ino, |r: InodeRow| InodeRow { size: size as i64, ..r })
}

/// What a read of `size` bytes at `offset` gives: what the content has of them.
pub open spec fn read_bytes(t: Tables, ino: u64, offset: int, size: int) -> Seq<u8> {
    let all = content(t, ino);
    all.subrange(min_of(offset, all.len() as int), min_of(offset + size, all.len() as int))
}

// ── The operations ──────────────────────────────────────────────────────────

/// Chunk `index` with the part of `data`, written at `offset`, that goes there.
fn merge_chunk(before: Option<&Vec<u8>>, index: u64, offset: u64, data: &[u8]) -> (r: Vec<u8>)
    requires
        offset + data@.len() <= u64::MAX,
        offset / 4096 <= index <= (offset + data@.len() - 1) / 4096,
        data@.len() > 0,
    ensures
        r@ == merged_chunk(
            match before {
                Some(d) => d@,
                None => Seq::empty(),
            },
            index as int,
            offset as int,
            data@,
        ),
{
    let ghost b = match before {
        Some(d) => d@,
        None => Seq::<u8>::empty(),
    };
    let base: u64 = index * 4096;
    let end: u64 = offset + data.len() as u64;
    let room: u64 = end - base;
    let needed: usize = if room < 4096 {
        room as usize
    } else {
        4096
    };
    let old_len: usize = match before {
        Some(d) => d.len(),
        None => 0,
    };
    let len: usize = if old_len < needed {
        needed
    } else {
        old_len
    };
    let count: usize = data.len();
    let mut out: Vec<u8> = Vec::new();
    let mut j: usize = 0;
    while j < len
        invariant
            j <= len,
            count == data@.len(),
            base == index * 4096,
            end == offset + data@.len(),
            end - base >= 0,
            old_len == b.len(),
            b == (match before {
                Some(d) => d@,
                None => Seq::<u8>::empty(),
            }),
            len == merged_chunk(b, index as int, offset as int, data@).len(),
            out@ == merged_chunk(b, index as int, offset as int, data@).take(j as int),
        decreases len - j,
    {
        let byte: u8 = if j < 4096 && (j as u64) < end - base && (base >= offset || j as u64 >= offset
            - base) {
            if base >= offset {
                let at: u64 = base - offset + j as u64;
                assert(at < count);
                data[at as usize]
            } else {
                data[j - (offset - base) as usize]
            }
        } else {
            match before {
                Some(d) => if j < d.len() {
                    d[j]
                } else {
                    0
                },
                None => 0,
            }
        };
        assert(byte == merged_chunk(b, index as int, offset as int, data@)[j as int]);
        out.push(byte);
        assert(out@ =~= merged_chunk(b, index as int, offset as int, data@).take(j + 1));
        j += 1;
    }
    assert(out@ =~= merged_chunk(b, index as int, offset as int, data@));
    out
}

impl DbFile {
    pub fn new(ino: u64) -> (r: Self)
        ensures
            r.ino == ino,
    {
        DbFile { ino }
    }

    /// The bytes from `offset` on, at most `size` of them. Where nothing was
    /// written they are zeros.
    pub fn read(&self, db: &Db, offset: u64, size: usize) -> (r: VfsResult<Vec<u8>>)
        requires
            db.wf(),
        ensures
            match r {
                Ok(v) => db.tables().inodes.contains_key(self.ino) && v@ == read_bytes(
                    db.tables(),
                    self.ino,
                    offset as int,
                    size as int,
                ),
                Err(e) => !db.tables().inodes.contains_key(self.ino) && e == VfsError::Database(
                    DbError::NoRows,
                ),
            },
    {
        match db.inode(self.ino) {
            Some(row) => {
                if row.size <= 0 || offset >= row.size as u64 {
                    let none: Vec<u8> = Vec::new();
                    assert(none@ =~= read_bytes(
                        db.tables(),
                        self.ino,
                        offset as int,
                        size as int,
                    ));
                    return Ok(none);
                }
                let total: u64 = row.size as u64;
                let end: u64 = if (size as u64) < total - offset {
                    offset + size as u64
                } else {
                    total
                };
                let found = db.read_range(self.ino, offset, end);
                assert(found@ =~= read_bytes(db.tables(), self.ino, offset as int, size as int));
                Ok(found)
            },
            None => Err(VfsError::Database(DbError::NoRows)),
        }
    }

    /// Writes `data` at `offset` when the time is `now`, or `ms` epoch
    /// milliseconds, and marks the file dirty.
    pub fn write_at(
        &self,
        db: &mut Db,
        offset: u64,
        data: &[u8],
        now: Timestamp,
        ms: i64,
    ) -> (r: VfsResult<u32>)
        requires
            old(db).wf(),
            offset + data@.len() <= u64::MAX,
        ensures
            final(db).follows(*old(db)),
            final(db).tables() == written(
                old(db).tables(),
                self.ino,
                offset as int,
                data@,
                now,
                ms,
            ),
            r == Ok::<u32, VfsError>(data@.len() as u32),
    {
        if data.len() == 0 {
            return Ok(0);
        }
        let ghost t = db.tables();
        let first: u64 = offset / 4096;
        let last: u64 = (offset + (data.len() as u64 - 1)) / 4096;
        let current = db.inode(self.ino);
        let mut index: u64 = first;
        assert(db.tables().chunks =~= chunks_written(
            t.chunks,
            self.ino,
            offset as int,
            data@,
            index as int,
        ));
        while index <= last
            invariant
                db.follows(*old(db)),
                data@.len() > 0,
                offset + data@.len() <= u64::MAX,
                first == offset / 4096,
                last == (offset + data@.len() - 1) / 4096,
                first <= index <= last + 1,
                db.tables() == (Tables {
                    chunks: chunks_written(
                        t.chunks,
                        self.ino,
                        offset as int,
                        data@,
                        index as int,
                    ),
                    ..t
                }),
            decreases last + 1 - index,
        {
            let ghost before = db.tables().chunks;
            let chunk = merge_chunk(db.chunk(self.ino, index), index, offset, data);
            proof {
                assert(before.get((self.ino, index)) == t.chunks.get((self.ino, index)));
            }
            let ghost merged = chunk@;
            db.put_chunk(self.ino, index, chunk);
            assert(before.insert((self.ino, index), merged) =~= chunks_written(
                t.chunks,
                self.ino,
                offset as int,
                data@,
                index + 1,
            ));
            index += 1;
        }
        match current {
            Some(row) => {
                let end: u64 = offset + data.len() as u64;
                let size: u64 = row.size as u64;
                let new_size: i64 = if end < size {
                    size as i64
                } else {
                    end as i64
                };
                db.put_inode(
                    self.ino,
                    InodeRow { size: new_size, mtime: now, ctime: now, ..row },
                );
            },
            None => {},
        }
        db.set_dirty_since(self.ino, Some(ms));
        Ok(data.len() as u32)
    }

    /// Writes `data` at `offset` and marks the file dirty.
    pub fn write(&self, db: &mut Db, offset: u64, data: &[u8]) -> (r: VfsResult<u32>)
        requires
            old(db).wf(),
            offset + data@.len() <= u64::MAX,
        ensures
            final(db).follows(*old(db)),
            exists|now: Timestamp, ms: i64|
                final(db).tables() == #[trigger] written(
                    old(db).tables(),
                    self.ino,
                    offset as int,
                    data@,
                    now,
                    ms,
                ),
            r == Ok::<u32, VfsError>(data@.len() as u32),
    {
        let now = Timestamp::now();
        let ms: i64 = now_ms();
        self.write_at(db, offset, data, now, ms)
    }

    /// Cuts or extends the file to `size` bytes.
    pub fn truncate(&self, db: &mut Db, size: u64) -> (r: VfsResult<()>)
        requires
            old(db).wf(),
        ensures
            final(db).follows(*old(db)),
            final(db).tables() == truncated(old(db).tables(), self.ino, size),
            r is Ok,
    {
        if size == 0 {
            db.drop_chunks(self.ino, 0);
        } else {
            let last: u64 = (size - 1) / 4096;
            db.drop_chunks(self.ino, last + 1);
            let last_bytes: usize = (size % 4096) as usize;
            if last_bytes > 0 {
                let cut = match db.chunk(self.ino, last) {
                    Some(d) => {
                        let n: usize = if last_bytes < d.len() {
                            last_bytes
                        } else {
                            d.len()
                        };
                        let v = vstd::slice::slice_to_vec(
                            vstd::slice::slice_subrange(d.as_slice(), 0, n),
                        );
                        assert(v@ =~= at_most(d@, last_bytes as int));
                        Some(v)
                    },
                    None => None,
                };
                match cut {
                    Some(v) => db.put_chunk(self.ino, last, v),
                    None => {},
                }
            }
        }
        match db.inode(self.ino) {
            Some(row) => db.put_inode(self.ino, InodeRow { size: size as i64, ..row }),
            None => {},
        }
        Ok(())
    }

    pub fn flush(&self) -> (r: VfsResult<()>)
        ensures
            r is Ok,
    {
        Ok(())
    }

    pub fn fsync(&self) -> (r: VfsResult<()>)
        ensures
            r is Ok,
    {
        Ok(())
    }

    pub fn getattr(&self, db: &Db) -> (r: VfsResult<FileAttr>)
        requires
            db.wf(),
        ensures
            match attr(db.tables(), self.ino) {
                Some(a) => r == Ok::<FileAttr, VfsError>(a),
                None => r matches Err(e) && e == VfsError::Database(DbError::NoRows),
            },
    {
        match db.attr(self.ino) {
            Some(a) => Ok(a),
            None => Err(VfsError::Database(DbError::NoRows)),
        }
    }
}

// ── Laws ────────────────────────────────────────────────────────────────────

/// The chunks of file `ino` fit it: none is longer than a chunk can be, and none
/// reaches beyond the end of the file.
pub open spec fn fits(t: Tables, ino: u64) -> bool {
    &&& t.inodes.contains_key(ino)
    &&& t.inodes[ino].size >= 0
    &&& forall|i: u64| #[trigger]
        t.chunks.contains_key((ino, i)) ==> t.chunks[(ino, i)].len() <= 4096 && i * 4096
            + t.chunks[(ino, i)].len() <= t.inodes[ino].size
}

/// File `ino` holds the bytes `f`.
pub open spec fn holds(t: Tables, ino: u64, f: Seq<u8>) -> bool {
    fits(t, ino) && content(t, ino) == f
}

/// The bytes `f` after `data` was written over them at `offset`. What lies
/// between their end and the data is zeros.
pub open spec fn overwritten(f: Seq<u8>, offset: int, data: Seq<u8>) -> Seq<u8> {
    if data.len() == 0 {
        f
    } else {
        Seq::new(
            max_of(f.len() as int, offset + data.len()) as nat,
            |i: int|
                if offset <= i < offset + data.len() {
                    data[i - offset]
                } else if i < f.len() {
                    f[i]
                } else {
                    0
                },
        )
    }
}

/// A file with the same size and the same chunks has the same content.
pub proof fn lemma_same_content(t: Tables, u: Tables, ino: u64)
    requires
        t.inodes.contains_key(ino),
        u.inodes.contains_key(ino),
        u.inodes[ino].size == t.inodes[ino].size,
        forall|i: u64| #[trigger] u.chunks.get((ino, i)) == t.chunks.get((ino, i)),
    ensures
        content(u, ino) == content(t, ino),
        fits(t, ino) ==> fits(u, ino),
{
    assert forall|p: int| byte_at(u.chunks, ino, p) == byte_at(t.chunks, ino, p) by {
        assert(u.chunks.get((ino, (p / 4096) as u64)) == t.chunks.get((ino, (p / 4096) as u64)));
    }
    assert(content(u, ino) =~= content(t, ino));
    if fits(t, ino) {
        assert forall|i: u64| #[trigger] u.chunks.contains_key((ino, i)) implies u.chunks[(ino, i)].len()
            <= 4096 && i * 4096 + u.chunks[(ino, i)].len() <= u.inodes[ino].size by {
            assert(u.chunks.get((ino, i)) == t.chunks.get((ino, i)));
            assert(t.chunks.contains_key((ino, i)));
        }
    }
}

/// The byte at `p` after a write: that of the data where it reaches, and the one
/// that was there elsewhere.
proof fn lemma_byte_written(
    t: Tables,
    ino: u64,
    offset: int,
    data: Seq<u8>,
    now: Timestamp,
    ms: i64,
    p: int,
)
    requires
        0 <= offset,
        data.len() > 0,
        offset + data.len() <= i64::MAX,
        0 <= p <= i64::MAX,
    ensures
        byte_at(written(t, ino, offset, data, now, ms).chunks, ino, p) == (if offset <= p < offset
            + data.len() {
            data[p - offset]
        } else {
            byte_at(t.chunks, ino, p)
        }),
{
    let t2 = written(t, ino, offset, data, now, ms);
    let last = (offset + data.len() - 1) / 4096;
    let i = (p / 4096) as u64;
    let k = (ino, i);
    assert(t2.chunks == chunks_written(t.chunks, ino, offset, data, last + 1));
    assert(i == p / 4096);
    let before = match t.chunks.get(k) {
        Some(d) => d,
        None => Seq::empty(),
    };
    if offset / 4096 <= i < last + 1 {
        assert(t2.chunks.contains_key(k));
        assert(t2.chunks[k] == merged_chunk(before, i as int, offset, data));
        assert(i * 4096 + p % 4096 == p);
    } else {
        assert(t2.chunks.get(k) == t.chunks.get(k));
        assert(!(offset <= p < offset + data.len()));
    }
}

/// A write stores the data over what was there, wherever it starts.
pub proof fn law_write_stores_data(
    t: Tables,
    ino: u64,
    offset: int,
    data: Seq<u8>,
    now: Timestamp,
    ms: i64,
)
    requires
        fits(t, ino),
        0 <= offset,
        offset + data.len() <= i64::MAX,
    ensures
        holds(
            written(t, ino, offset, data, now, ms),
            ino,
            overwritten(content(t, ino), offset, data),
        ),
{
    if data.len() > 0 {
        let f = content(t, ino);
        let g = overwritten(f, offset, data);
        let t2 = written(t, ino, offset, data, now, ms);
        let last = (offset + data.len() - 1) / 4096;
        assert(t2.chunks == chunks_written(t.chunks, ino, offset, data, last + 1));
        assert(t2.inodes[ino].size == g.len());
        assert forall|p: int| 0 <= p < g.len() implies content(t2, ino)[p] == g[p] by {
            lemma_byte_written(t, ino, offset, data, now, ms, p);
            if p >= f.len() {
                let k = (ino, (p / 4096) as u64);
                if t.chunks.contains_key(k) {
                    assert(k.1 * 4096 + t.chunks[k].len() <= t.inodes[ino].size);
                }
            }
        }
        assert(content(t2, ino) =~= g);
        assert forall|i: u64| #[trigger] t2.chunks.contains_key((ino, i)) implies t2.chunks[(
            ino,
            i,
        )].len() <= 4096 && i * 4096 + t2.chunks[(ino, i)].len() <= t2.inodes[ino].size by {
            if t.chunks.contains_key((ino, i)) {
                assert(t.chunks[(ino, i)].len() <= 4096);
            }
        }
    }
}

/// What was written is read back, wherever it was written and whatever the file
/// held.
pub proof fn law_read_gives_back_write(
    t: Tables,
    ino: u64,
    offset: int,
    data: Seq<u8>,
    now: Timestamp,
    ms: i64,
)
    requires
        t.inodes.contains_key(ino),
        t.inodes[ino].size >= 0,
        0 <= offset,
        offset + data.len() <= i64::MAX,
    ensures
        read_bytes(written(t, ino, offset, data, now, ms), ino, offset, data.len() as int) == data,
{
    let t2 = written(t, ino, offset, data, now, ms);
    let r = read_bytes(t2, ino, offset, data.len() as int);
    if data.len() > 0 {
        assert(t2.inodes[ino].size >= offset + data.len());
        assert forall|j: int| 0 <= j < data.len() implies r[j] == data[j] by {
            lemma_byte_written(t, ino, offset, data, now, ms, offset + j);
        }
    }
    assert(r =~= data);
}

/// Cutting a file keeps its first bytes, and extending it adds zeros.
pub proof fn law_truncate_resizes(t: Tables, ino: u64, size: u64)
    requires
        fits(t, ino),
        size <= i64::MAX,
    ensures
        holds(truncated(t, ino, size), ino, resized(content(t, ino), size as nat)),
{
    let f = content(t, ino);
    let g = resized(f, size as nat);
    let t2 = truncated(t, ino, size);
    assert(t2.inodes[ino].size == size);
    assert forall|i: u64| #[trigger] t2.chunks.contains_key((ino, i)) implies t2.chunks[(
        ino,
        i,
    )].len() <= 4096 && i * 4096 + t2.chunks[(ino, i)].len() <= size by {
        assert(t.chunks.contains_key((ino, i)));
    }
    assert forall|p: int| 0 <= p < size implies byte_at(t2.chunks, ino, p) == #[trigger] g[p] by {
        let k = (ino, (p / 4096) as u64);
        assert(k.1 == p / 4096);
        if t.chunks.contains_key(k) {
            assert(k.1 * 4096 + t.chunks[k].len() <= t.inodes[ino].size);
            assert(t2.chunks.contains_key(k));
        }
    }
    assert(content(t2, ino) =~= g);
}

/// Writing to or truncating one file leaves every other file as it is.
pub proof fn law_files_are_independent(
    t: Tables,
    ino: u64,
    other: u64,
    offset: int,
    data: Seq<u8>,
    now: Timestamp,
    ms: i64,
    size: u64,
)
    requires
        ino != other,
        t.inodes.contains_key(other),
    ensures
        content(written(t, ino, offset, data, now, ms), other) == content(t, other),
        content(truncated(t, ino, size), other) == content(t, other),
        fits(t, other) ==> fits(written(t, ino, offset, data, now, ms), other),
        fits(t, other) ==> fits(truncated(t, ino, size), other),
{
    lemma_same_content(t, written(t, ino, offset, data, now, ms), other);
    lemma_same_content(t, truncated(t, ino, size), other);
}

} // verus!
