//! Pulling: reconciles remote brain documents into the local cache.
//!
//! Primary path: the server's changes feed, a cursor that also delivers
//! deletion tombstones, so that one endpoint drives updates, creations and
//! deletions. Bodies are fetched per changed document, and skipped when the
//! feed's content hash matches what the cache already holds.
//!
//! Fallback path: servers without the feed get the full-list pull, filtered by
//! a watermark of `updated_at`.
//!
//! What to do with each entry and each reply is decided here; fetching is not.

use super::iso::{iso_ms, parse_iso8601_ms};
use super::push::{law_edit_outlasts_push, push_succeeded};
use crate::api::dto::{BrainDocument, ChangeEntry};
use crate::api::error::{api_error_text, ApiError, ApiErrorView};
use crate::cache::db::Db;
use crate::cache::file::lemma_same_content;
use crate::cache::fs::{
    deletion_applied, doc_upserted, edit_kept, edit_kept_of_id, keeps_local_edit, FsState, UnisonFs,
};
use crate::cache::handle::{mount_written, push_path};
use crate::cache::laws::{
    law_local_write_is_queued, law_upsert_keeps_tables_sound, law_writing_keeps_tables_sound,
    lemma_upsert_spares,
};
use crate::cache::model::{
    all_indices, all_remote_ids, content, dentry_of, dirty_since, entry_lt, gathered,
    ino_by_remote_path, ino_for_remote_id, is_first_dentry, is_least, lemma_dentry_of,
    lemma_dentry_of_is_first, lemma_least, lemma_least_exists, remote_hash, remote_id, remote_path,
    with_content_hash, with_dirty, with_mirrored, with_remote_id,
};
use crate::cache::queue::{is_noise, PushJobView, PushOp};
use crate::cache::rows::{changed, ChangeView, Tables};
use crate::cache::sound::{law_deletion_keeps_tables_sound, lemma_same_shape, sound};
use crate::table::{Mark, Table};
use crate::text::{
    copy_text, int_text, opt_str_view, opt_view, print_int, same_opt, same_text, text_less, text_lt,
    texts,
};
use crate::vfs::error::{error_text, outcome, VfsErrorView, VfsResult};
use crate::vfs::types::Timestamp;
use vstd::prelude::*;
use vstd::string::*;
use vstd::utf8::encode_utf8;

verus! {

broadcast use vstd::string::group_string_axioms;

/// Key used in sync metadata to record when the last successful pull completed.
pub const SYNC_META_LAST_PULL_AT: &'static str = "last_pull_at";

/// Persisted changes-feed cursor (opaque server token).
pub const SYNC_META_CHANGES_CURSOR: &'static str = "changes_cursor";

/// Fallback watermark for servers without a changes feed.
pub const SYNC_META_LAST_SEEN: &'static str = "last_seen_updated_at";

/// How many changes are asked for at a time.
pub const PAGE_LIMIT: u32 = 1000;

/// Progress snapshot from a full or delta pull.
#[derive(Debug, Clone, Copy, PartialEq, Eq, Structural)]
pub struct PullProgress {
    pub page: u32,
    pub total_pages: u32,
    pub total_items: usize,
    pub reconciled: usize,
}

// ── Errors ──────────────────────────────────────────────────────────────────

#[derive(Debug)]
pub enum PullError {
    /// Server has no changes feed: fall back to the list pull.
    NoChangesFeed,
    /// Cursor predates the server's tombstone retention: full resync.
    ResyncRequired,
    Other(String),
}

/// A [`PullError`] with its text as a character sequence.
pub enum PullErrorView {
    NoChangesFeed,
    ResyncRequired,
    Other(Seq<char>),
}

impl View for PullError {
    type V = PullErrorView;

    open spec fn view(&self) -> PullErrorView {
        match *self {
            PullError::NoChangesFeed => PullErrorView::NoChangesFeed,
            PullError::ResyncRequired => PullErrorView::ResyncRequired,
            PullError::Other(s) => PullErrorView::Other(s@),
        }
    }
}

/// What a failed request to the changes feed means.
pub open spec fn feed_error(e: ApiErrorView) -> PullErrorView {
    match e {
        ApiErrorView::NotFound => PullErrorView::NoChangesFeed,
        ApiErrorView::Rejected(410, _) => PullErrorView::ResyncRequired,
        _ => PullErrorView::Other("changes feed failed: "@ + api_error_text(e)),
    }
}

/// See [`feed_error`].
pub fn map_changes_err(e: ApiError) -> (r: PullError)
    ensures
        r@ == feed_error(e@),
{
    match &e {
        ApiError::NotFound => PullError::NoChangesFeed,
        ApiError::Rejected { status: 410, .. } => PullError::ResyncRequired,
        _ => PullError::Other(
            copy_text("changes feed failed: ").concat(e.message().as_str()),
        ),
    }
}

/// The description of a pull error.
pub open spec fn pull_error_text(e: PullErrorView) -> Seq<char> {
    match e {
        PullErrorView::Other(s) => s,
        PullErrorView::NoChangesFeed => "changes feed unavailable"@,
        PullErrorView::ResyncRequired => "changes cursor expired"@,
    }
}

/// See [`pull_error_text`].
pub fn pull_err(e: PullError) -> (r: String)
    ensures
        r@ == pull_error_text(e@),
{
    match e {
        PullError::Other(s) => s,
        PullError::NoChangesFeed => copy_text("changes feed unavailable"),
        PullError::ResyncRequired => copy_text("changes cursor expired"),
    }
}

/// How a delta pull starts.
#[derive(Debug)]
pub enum DeltaStart {
    /// From a persisted cursor.
    From(String),
    /// Without one: bootstrap.
    Bootstrap,
}

/// Decides how a delta pull starts.
pub fn delta_start(db: &Db) -> (r: DeltaStart)
    requires
        db.wf(),
    ensures
        match r {
            DeltaStart::From(c) => db.tables().meta.get(SYNC_META_CHANGES_CURSOR@) == Some(c@),
            DeltaStart::Bootstrap => !db.tables().meta.contains_key(SYNC_META_CHANGES_CURSOR@),
        },
{
    match db.sync_meta_get(SYNC_META_CHANGES_CURSOR) {
        Some(c) => DeltaStart::From(c),
        None => DeltaStart::Bootstrap,
    }
}

/// How a pull goes on when the feed failed.
#[derive(Debug)]
pub enum PullFallback {
    /// Resync from scratch.
    Bootstrap,
    /// Pull the full list.
    Legacy,
    /// Report the error.
    Fail(String),
}

/// Decides how a pull from a cursor goes on when the feed failed: an expired
/// cursor resyncs, a missing feed falls back to the list.
pub fn cursor_fallback(e: PullError) -> (r: PullFallback)
    ensures
        match e@ {
            PullErrorView::ResyncRequired => r is Bootstrap,
            PullErrorView::NoChangesFeed => r is Legacy,
            PullErrorView::Other(s) => r matches PullFallback::Fail(x) && x@ == s,
        },
{
    match e {
        PullError::ResyncRequired => PullFallback::Bootstrap,
        PullError::NoChangesFeed => PullFallback::Legacy,
        PullError::Other(s) => PullFallback::Fail(s),
    }
}

/// Decides how a bootstrap goes on when the feed failed. A bootstrap has no
/// cursor that could have expired.
pub fn bootstrap_fallback(e: PullError) -> (r: PullFallback)
    requires
        !(e@ is ResyncRequired),
    ensures
        match e@ {
            PullErrorView::Other(s) => r matches PullFallback::Fail(x) && x@ == s,
            _ => r is Legacy,
        },
{
    match e {
        PullError::Other(s) => PullFallback::Fail(s),
        _ => PullFallback::Legacy,
    }
}

// ── One change ──────────────────────────────────────────────────────────────

/// What is left to do for a change.
#[derive(Debug, Clone, Copy, PartialEq, Eq, Structural)]
pub enum ChangePlan {
    /// Nothing: it is done, and changed local state or not.
    Done(bool),
    /// Its body is to be fetched.
    Fetch,
}

/// The tables after a document turned out to be cached in this very version.
pub open spec fn echo_noted(
    t: Tables,
    ino: u64,
    id: Seq<char>,
    updated_at: Seq<char>,
    now_ms: i64,
) -> Tables {
    with_remote_id(with_mirrored(t, ino, iso_ms(updated_at), Some("ok"@), Some(now_ms)), ino, id)
}

/// A change before its body is fetched: a tombstone is applied, a local edit
/// that is not older is kept, and a version that is cached already is noted.
pub open spec fn change_planned(s: FsState, ch: ChangeEntry, now_ms: i64) -> (
    FsState,
    ChangePlan,
) {
    if ch.deleted {
        let (s1, removed) = deletion_applied(s, ch.id@);
        (s1, ChangePlan::Done(removed))
    } else {
        match ino_by_remote_path(s.t, ch.path@) {
            None => (s, ChangePlan::Fetch),
            Some(ino) => if keeps_local_edit(s.t, ino, ch.updated_at@) {
                (s, ChangePlan::Done(false))
            } else if opt_view(ch.content_hash) is Some && remote_hash(s.t, ino) == opt_view(
                ch.content_hash,
            ) {
                (
                    FsState {
                        t: echo_noted(s.t, ino, ch.id@, ch.updated_at@, now_ms),
                        ..s
                    },
                    ChangePlan::Done(false),
                )
            } else {
                (s, ChangePlan::Fetch)
            },
        }
    }
}

/// Decides what is to be done for a change, and does what needs no body.
pub fn plan_change(fs: &mut UnisonFs, ch: &ChangeEntry, now_ms: i64) -> (r: ChangePlan)
    requires
        old(fs).wf(),
    ensures
        final(fs).follows(*old(fs)),
        (final(fs).state(), r) == change_planned(old(fs).state(), *ch, now_ms),
{
    if ch.deleted {
        return match fs.apply_deletion(ch.id.as_str()) {
            Ok(removed) => ChangePlan::Done(removed),
            Err(_) => ChangePlan::Done(false),
        };
    }
    let ino: u64 = match fs.db().ino_by_remote_path(ch.path.as_str()) {
        Some(ino) => ino,
        None => {
            return ChangePlan::Fetch;
        },
    };
    if fs.keeps_edit(ino, ch.updated_at.as_str()) {
        return ChangePlan::Done(false);
    }
    let local = fs.db().remote_content_hash(ino);
    if ch.content_hash.is_some() && same_opt(&ch.content_hash, &local) {
        note_mirrored(fs.db_mut(), ino, ch.updated_at.as_str(), now_ms);
        fs.db_mut().set_remote_id(ino, ch.id.as_str());
        return ChangePlan::Done(false);
    }
    ChangePlan::Fetch
}

/// Records that `ino` mirrors what the brain held at `updated_at`.
fn note_mirrored(db: &mut Db, ino: u64, updated_at: &str, now_ms: i64)
    requires
        old(db).wf(),
    ensures
        final(db).follows(*old(db)),
        final(db).tables() == with_mirrored(
            old(db).tables(),
            ino,
            iso_ms(updated_at@),
            Some("ok"@),
            Some(now_ms),
        ),
{
    let remote_ms = match parse_iso8601_ms(updated_at) {
        Ok(ms) => Some(ms),
        Err(_) => None,
    };
    db.set_mirrored_state(ino, remote_ms, Some("ok"), Some(now_ms));
}

/// The bytes of an optional body.
pub open spec fn body_bytes(body: Option<Seq<char>>) -> Seq<u8> {
    match body {
        Some(b) => encode_utf8(b),
        None => Seq::empty(),
    }
}

fn bytes_of(body: &Option<String>) -> (r: Vec<u8>)
    ensures
        r@ == body_bytes(opt_view(*body)),
{
    match body {
        Some(b) => vstd::slice::slice_to_vec(b.as_str().as_bytes()),
        None => Vec::new(),
    }
}

/// The tables after a document was stored in `ino`: it mirrors the brain, is
/// clean, and its id and hash are known.
pub open spec fn doc_noted(
    t: Tables,
    ino: u64,
    id: Seq<char>,
    updated_at: Seq<char>,
    hash: Option<Seq<char>>,
    now_ms: i64,
) -> Tables {
    let t1 = with_mirrored(t, ino, iso_ms(updated_at), Some("ok"@), Some(now_ms));
    let t2 = with_dirty(t1, ino, None);
    with_content_hash(with_remote_id(t2, ino, id), ino, hash)
}

/// Records that a document was stored in `ino`.
fn note_doc(db: &mut Db, ino: u64, id: &str, updated_at: &str, hash: Option<&str>, now_ms: i64)
    requires
        old(db).wf(),
    ensures
        final(db).follows(*old(db)),
        final(db).tables() == doc_noted(
            old(db).tables(),
            ino,
            id@,
            updated_at@,
            opt_str_view(hash),
            now_ms,
        ),
{
    note_mirrored(db, ino, updated_at, now_ms);
    db.set_dirty_since(ino, None);
    db.set_remote_id(ino, id);
    db.set_remote_content_hash(ino, hash);
}

/// What fetching a changed document led to.
#[derive(Debug)]
pub struct Applied {
    /// Local state changed.
    pub changed: bool,
    /// The inode whose content changed, with the directory entry under which
    /// the kernel may have cached it.
    pub inval: Option<(u64, u64, String)>,
}

/// A change with the reply to the fetch of its body: the document is stored, or
/// dropped where it is gone meanwhile, unless a local edit of it is kept.
pub open spec fn reply_applied(
    s: FsState,
    uid: u32,
    gid: u32,
    ch: ChangeEntry,
    reply: Result<BrainDocument, ApiError>,
    now: Timestamp,
    now_ms: i64,
) -> (FsState, Result<bool, Seq<char>>) {
    match reply {
        Ok(doc) => {
            let (s1, r) = doc_upserted(
                s,
                ch.path@,
                body_bytes(opt_view(doc.body_md)),
                uid,
                gid,
                now,
            );
            match r {
                Ok(ino) => {
                    let hash = match opt_view(doc.content_hash) {
                        Some(h) => Some(h),
                        None => opt_view(ch.content_hash),
                    };
                    (
                        FsState {
                            t: doc_noted(s1.t, ino, ch.id@, ch.updated_at@, hash, now_ms),
                            ..s1
                        },
                        Ok(true),
                    )
                },
                Err(e) => (s1, Err(error_text(e))),
            }
        },
        Err(ApiError::NotFound) => if edit_kept_of_id(s.t, ch.id@, ch.updated_at@) {
            (s, Ok(false))
        } else {
            let (s1, removed) = deletion_applied(s, ch.id@);
            (s1, Ok(removed))
        },
        Err(e) => (s, Err("fetch "@ + ch.path@ + " failed: "@ + api_error_text(e@))),
    }
}

/// A change after its body was fetched. A local edit that is not older is kept,
/// also one that was made while the body was on its way.
pub open spec fn change_fetched(
    s: FsState,
    uid: u32,
    gid: u32,
    ch: ChangeEntry,
    reply: Result<BrainDocument, ApiError>,
    now: Timestamp,
    now_ms: i64,
) -> (FsState, Result<bool, Seq<char>>) {
    if edit_kept(s.t, ch.path@, ch.updated_at@) {
        (s, Ok(false))
    } else {
        reply_applied(s, uid, gid, ch, reply, now, now_ms)
    }
}

/// The inode that a stored document went to, with its directory entry.
pub open spec fn to_invalidate(
    s: FsState,
    uid: u32,
    gid: u32,
    ch: ChangeEntry,
    reply: Result<BrainDocument, ApiError>,
    now: Timestamp,
    now_ms: i64,
) -> Option<(u64, u64, Seq<char>)> {
    match reply {
        Ok(doc) => if edit_kept(s.t, ch.path@, ch.updated_at@) {
            None
        } else {
            let r = doc_upserted(
                s,
                ch.path@,
                body_bytes(opt_view(doc.body_md)),
                uid,
                gid,
                now,
            ).1;
            let after = change_fetched(s, uid, gid, ch, reply, now, now_ms).0.t;
            match r {
                Ok(ino) => match dentry_of(after, ino) {
                    Some(d) => Some((ino, d.0, d.1)),
                    None => None,
                },
                Err(_) => None,
            }
        },
        Err(_) => None,
    }
}

/// Finishes a change with the reply to the fetch of its body.
pub fn finish_change(
    fs: &mut UnisonFs,
    ch: &ChangeEntry,
    reply: &Result<BrainDocument, ApiError>,
    now: Timestamp,
    now_ms: i64,
) -> (r: Result<Applied, String>)
    requires
        old(fs).wf(),
    ensures
        final(fs).follows(*old(fs)),
        ({
            let (s, done) = change_fetched(
                old(fs).state(),
                old(fs).owner().0,
                old(fs).owner().1,
                *ch,
                *reply,
                now,
                now_ms,
            );
            &&& final(fs).state() == s
            &&& match done {
                Ok(flag) => r matches Ok(a) && a.changed == flag && match a.inval {
                    Some(x) => to_invalidate(
                        old(fs).state(),
                        old(fs).owner().0,
                        old(fs).owner().1,
                        *ch,
                        *reply,
                        now,
                        now_ms,
                    ) == Some((x.0, x.1, x.2@)),
                    None => to_invalidate(
                        old(fs).state(),
                        old(fs).owner().0,
                        old(fs).owner().1,
                        *ch,
                        *reply,
                        now,
                        now_ms,
                    ) is None,
                },
                Err(text) => r matches Err(x) && x@ == text,
            }
        }),
{
    if fs.keeps_edit_of(ch.path.as_str(), ch.updated_at.as_str()) {
        return Ok(Applied { changed: false, inval: None });
    }
    match reply {
        Ok(doc) => {
            let bytes = bytes_of(&doc.body_md);
            match fs.upsert_brain_doc_at(ch.path.as_str(), bytes.as_slice(), now) {
                Ok(ino) => {
                    let hash = match &doc.content_hash {
                        Some(h) => Some(h.as_str()),
                        None => match &ch.content_hash {
                            Some(h) => Some(h.as_str()),
                            None => None,
                        },
                    };
                    note_doc(
                        fs.db_mut(),
                        ino,
                        ch.id.as_str(),
                        ch.updated_at.as_str(),
                        hash,
                        now_ms,
                    );
                    let inval = match fs.db().dentry_of(ino) {
                        Some((parent, name)) => Some((ino, parent, name)),
                        None => None,
                    };
                    Ok(Applied { changed: true, inval })
                },
                Err(e) => Err(e.message()),
            }
        },
        Err(ApiError::NotFound) => {
            if fs.keeps_edit_of_id(ch.id.as_str(), ch.updated_at.as_str()) {
                return Ok(Applied { changed: false, inval: None });
            }
            match fs.apply_deletion(ch.id.as_str()) {
                Ok(removed) => Ok(Applied { changed: removed, inval: None }),
                Err(_) => Ok(Applied { changed: false, inval: None }),
            }
        },
        Err(e) => Err(
            copy_text("fetch ").concat(ch.path.as_str()).concat(" failed: ").concat(
                e.message().as_str(),
            ),
        ),
    }
}

/// The tables after a successful pull.
pub open spec fn pull_marked(t: Tables, now_ms: i64) -> Tables {
    changed(t, ChangeView::PutMeta(SYNC_META_LAST_PULL_AT@, int_text(now_ms as int)))
}

/// Records that a pull succeeded.
pub fn mark_pull_success(db: &mut Db, now_ms: i64)
    requires
        old(db).wf(),
    ensures
        final(db).follows(*old(db)),
        final(db).tables() == pull_marked(old(db).tables(), now_ms),
{
    db.sync_meta_set(SYNC_META_LAST_PULL_AT, print_int(now_ms).as_str());
}

/// Ends a page of an incremental pull, once all of it was applied: the cursor
/// moves on, and is handed out where there is more to ask for. A page that
/// failed is asked for again, as its cursor was not moved.
pub fn end_delta_page(db: &mut Db, next_cursor: Option<String>, has_more: bool) -> (r: Option<
    String,
>)
    requires
        old(db).wf(),
    ensures
        final(db).follows(*old(db)),
        final(db).tables() == (match next_cursor {
            Some(c) => changed(
                old(db).tables(),
                ChangeView::PutMeta(SYNC_META_CHANGES_CURSOR@, c@),
            ),
            None => old(db).tables(),
        }),
        opt_view(r) == (if has_more {
            opt_view(next_cursor)
        } else {
            None
        }),
{
    match next_cursor {
        Some(c) => {
            db.sync_meta_set(SYNC_META_CHANGES_CURSOR, c.as_str());
            if has_more {
                Some(c)
            } else {
                None
            }
        },
        None => None,
    }
}

// ── Pruning ─────────────────────────────────────────────────────────────────

/// Removes the files behind those of the documents `ids` that are not among
/// `seen`, and counts them.
pub open spec fn pruned(s: FsState, ids: Seq<Seq<char>>, seen: Set<Seq<char>>) -> (FsState, nat)
    decreases ids.len(),
{
    if ids.len() == 0 {
        (s, 0)
    } else {
        let (s1, n) = pruned(s, ids.drop_last(), seen);
        if seen.contains(ids.last()) {
            (s1, n)
        } else {
            let (s2, removed) = deletion_applied(s1, ids.last());
            (
                s2,
                if removed {
                    n + 1
                } else {
                    n
                },
            )
        }
    }
}

/// Removes every local file whose document is not among `seen`. Returns how
/// many were removed.
pub fn prune_missing(fs: &mut UnisonFs, seen: &Table<String, Mark>) -> (r: usize)
    requires
        old(fs).wf(),
        seen.wf(),
    ensures
        final(fs).follows(*old(fs)),
        (final(fs).state(), r as nat) == pruned(
            old(fs).state(),
            all_remote_ids(old(fs).state().t),
            seen@.dom(),
        ),
{
    let ids = fs.db().all_remote_ids();
    let ghost all = texts(ids@);
    let ghost s = fs.state();
    let mut removed: usize = 0;
    let mut i: usize = 0;
    while i < ids.len()
        invariant
            seen.wf(),
            all == texts(ids@),
            i <= ids@.len(),
            removed <= i,
            fs.follows(*old(fs)),
            (fs.state(), removed as nat) == pruned(s, all.take(i as int), seen@.dom()),
        decreases ids@.len() - i,
    {
        proof {
            assert(all.take(i + 1).drop_last() =~= all.take(i as int));
            assert(all.take(i + 1).last() == ids@[i as int]@);
        }
        if seen.find(&copy_text(ids[i].as_str())).is_none() {
            match fs.apply_deletion(ids[i].as_str()) {
                Ok(true) => {
                    removed += 1;
                },
                _ => {},
            }
        }
        i += 1;
    }
    assert(all.take(all.len() as int) =~= all);
    removed
}

// ── Bootstrap ───────────────────────────────────────────────────────────────

/// A pull of everything, page by page, that establishes a cursor.
#[derive(Debug)]
pub struct Bootstrap {
    since: Option<String>,
    seen: Table<String, Mark>,
    reconciled: usize,
    page: u32,
}

/// The state of a [`Bootstrap`].
pub struct BootstrapView {
    /// The cursor of the last page.
    pub since: Option<Seq<char>>,
    /// The documents that exist remotely.
    pub seen: Set<Seq<char>>,
    /// How many changes changed local state.
    pub reconciled: nat,
    /// The page that is being applied, counted from one.
    pub page: nat,
}

impl View for Bootstrap {
    type V = BootstrapView;

    closed spec fn view(&self) -> BootstrapView {
        BootstrapView {
            since: opt_view(self.since),
            seen: self.seen@.dom(),
            reconciled: self.reconciled as nat,
            page: self.page as nat,
        }
    }
}

impl Bootstrap {
    pub closed spec fn wf(&self) -> bool {
        self.seen.wf()
    }

    pub fn new() -> (r: Self)
        ensures
            r.wf(),
            r@ == (BootstrapView {
                since: None,
                seen: Set::empty(),
                reconciled: 0,
                page: 0,
            }),
    {
        let r = Bootstrap { since: None, seen: Table::new(), reconciled: 0, page: 0 };
        assert(r@.seen =~= Set::empty());
        r
    }

    /// The cursor to ask for the next page with; `None` for the first.
    pub fn cursor(&self) -> (r: Option<&str>)
        ensures
            opt_str_view(r) == self@.since,
    {
        match &self.since {
            Some(c) => Some(c.as_str()),
            None => None,
        }
    }

    /// A page arrived.
    pub fn start_page(&mut self)
        requires
            old(self).wf(),
            old(self)@.page < u32::MAX,
        ensures
            final(self).wf(),
            final(self)@ == (BootstrapView { page: old(self)@.page + 1, ..old(self)@ }),
    {
        self.page = self.page + 1;
    }

    /// A change of the page was looked at. Live documents are remembered.
    pub fn saw(&mut self, ch: &ChangeEntry)
        requires
            old(self).wf(),
        ensures
            final(self).wf(),
            final(self)@ == (BootstrapView {
                seen: if ch.deleted {
                    old(self)@.seen
                } else {
                    old(self)@.seen.insert(ch.id@)
                },
                ..old(self)@
            }),
    {
        if !ch.deleted {
            let ghost before = self@.seen;
            self.seen.put(copy_text(ch.id.as_str()), Mark);
            assert(self@.seen =~= before.insert(ch.id@));
        }
    }

    /// A change was applied, and changed local state or not.
    pub fn applied(&mut self, changed: bool)
        requires
            old(self).wf(),
            old(self)@.reconciled < usize::MAX,
        ensures
            final(self).wf(),
            final(self)@ == (BootstrapView {
                reconciled: if changed {
                    old(self)@.reconciled + 1
                } else {
                    old(self)@.reconciled
                },
                ..old(self)@
            }),
    {
        if changed {
            self.reconciled = self.reconciled + 1;
        }
    }

    /// How many changes changed local state.
    pub fn reconciled(&self) -> (r: usize)
        ensures
            r == self@.reconciled,
    {
        self.reconciled
    }

    /// Which page is being applied, counted from one.
    pub fn page(&self) -> (r: u32)
        ensures
            r == self@.page,
    {
        self.page
    }

    /// How far the bootstrap is, when the page said whether there is more.
    pub fn progress(&self, has_more: bool) -> (r: PullProgress)
        requires
            self.wf(),
            self@.page < u32::MAX,
        ensures
            r.page == self@.page,
            r.total_pages == self@.page + (if has_more {
                1int
            } else {
                0int
            }),
            r.total_items == self@.seen.len(),
            r.reconciled == self@.reconciled,
    {
        PullProgress {
            page: self.page,
            total_pages: if has_more {
                self.page + 1
            } else {
                self.page
            },
            total_items: self.seen.len(),
            reconciled: self.reconciled,
        }
    }

    /// Ends a page. Returns whether another one is to be asked for.
    pub fn end_page(&mut self, next_cursor: Option<String>, has_more: bool) -> (r: bool)
        requires
            old(self).wf(),
        ensures
            final(self).wf(),
            final(self)@ == (BootstrapView {
                since: match opt_view(next_cursor) {
                    Some(c) => Some(c),
                    None => old(self)@.since,
                },
                ..old(self)@
            }),
            r == (next_cursor is Some && has_more),
    {
        match next_cursor {
            Some(c) => {
                self.since = Some(c);
                has_more
            },
            None => false,
        }
    }

    /// Ends the bootstrap: local files whose document was not seen are removed,
    /// the cursor is persisted, and the pull is recorded. Returns how many
    /// changes changed local state.
    pub fn finish(&self, fs: &mut UnisonFs, now_ms: i64) -> (r: usize)
        requires
            self.wf(),
            old(fs).wf(),
        ensures
            final(fs).follows(*old(fs)),
            final(fs).state() == bootstrapped(old(fs).state(), self@, now_ms),
            r == self@.reconciled,
    {
        let _ = prune_missing(fs, &self.seen);
        match &self.since {
            Some(c) => {
                fs.db_mut().sync_meta_set(SYNC_META_CHANGES_CURSOR, c.as_str());
            },
            None => {},
        }
        mark_pull_success(fs.db_mut(), now_ms);
        self.reconciled
    }
}

/// What is there after a bootstrap ended.
pub open spec fn bootstrapped(s: FsState, b: BootstrapView, now_ms: i64) -> FsState {
    let s1 = pruned(s, all_remote_ids(s.t), b.seen).0;
    let t2 = match b.since {
        Some(c) => changed(s1.t, ChangeView::PutMeta(SYNC_META_CHANGES_CURSOR@, c)),
        None => s1.t,
    };
    FsState { t: pull_marked(t2, now_ms), ..s1 }
}

// ── Full-list pull ──────────────────────────────────────────────────────────

/// A document of the full list is stored, unless a local edit is kept.
pub open spec fn doc_reconciled(
    s: FsState,
    uid: u32,
    gid: u32,
    doc: BrainDocument,
    now: Timestamp,
    now_ms: i64,
) -> (FsState, Result<bool, VfsErrorView>) {
    if edit_kept(s.t, doc.path@, doc.updated_at@) {
        (s, Ok(false))
    } else {
        let (s1, r) = doc_upserted(
            s,
            doc.path@,
            body_bytes(opt_view(doc.body_md)),
            uid,
            gid,
            now,
        );
        match r {
            Ok(ino) => (
                FsState {
                    t: doc_noted(
                        s1.t,
                        ino,
                        doc.id@,
                        doc.updated_at@,
                        opt_view(doc.content_hash),
                        now_ms,
                    ),
                    ..s1
                },
                Ok(true),
            ),
            Err(e) => (s1, Err(e)),
        }
    }
}

/// Reconciles one full document of the list.
pub fn reconcile_listed_doc(
    fs: &mut UnisonFs,
    doc: &BrainDocument,
    now: Timestamp,
    now_ms: i64,
) -> (r: VfsResult<bool>)
    requires
        old(fs).wf(),
    ensures
        final(fs).follows(*old(fs)),
        (final(fs).state(), outcome(r)) == doc_reconciled(
            old(fs).state(),
            old(fs).owner().0,
            old(fs).owner().1,
            *doc,
            now,
            now_ms,
        ),
{
    if fs.keeps_edit_of(doc.path.as_str(), doc.updated_at.as_str()) {
        return Ok(false);
    }
    let bytes = bytes_of(&doc.body_md);
    match fs.upsert_brain_doc_at(doc.path.as_str(), bytes.as_slice(), now) {
        Ok(ino) => {
            let hash = match &doc.content_hash {
                Some(h) => Some(h.as_str()),
                None => None,
            };
            note_doc(
                fs.db_mut(),
                ino,
                doc.id.as_str(),
                doc.updated_at.as_str(),
                hash,
                now_ms,
            );
            Ok(true)
        },
        Err(e) => Err(e),
    }
}

/// A pull of the full list under way.
pub struct ListPull {
    pub s: FsState,
    /// How many documents were stored.
    pub reconciled: nat,
    /// The newest `updated_at` of the documents that were looked at.
    pub newest: Seq<char>,
    pub error: Option<VfsErrorView>,
}

/// Goes through the documents of the full list. Those up to `last_seen` are
/// skipped where it is set. The first error ends it.
pub open spec fn listed(
    start: ListPull,
    docs: Seq<BrainDocument>,
    last_seen: Seq<char>,
    uid: u32,
    gid: u32,
    now: Timestamp,
    now_ms: i64,
) -> ListPull
    decreases docs.len(),
{
    if docs.len() == 0 {
        start
    } else {
        let p = listed(start, docs.drop_last(), last_seen, uid, gid, now, now_ms);
        let doc = docs.last();
        if p.error is Some {
            p
        } else if last_seen.len() > 0 && !text_lt(last_seen, doc.updated_at@) {
            p
        } else {
            let (s, r) = doc_reconciled(p.s, uid, gid, doc, now, now_ms);
            match r {
                Err(e) => ListPull { s, error: Some(e), ..p },
                Ok(stored) => ListPull {
                    s,
                    reconciled: if stored {
                        p.reconciled + 1
                    } else {
                        p.reconciled
                    },
                    newest: if text_lt(p.newest, doc.updated_at@) {
                        doc.updated_at@
                    } else {
                        p.newest
                    },
                    ..p
                },
            }
        }
    }
}

/// A pull that failed on the way has failed.
proof fn lemma_listed_failure(
    start: ListPull,
    docs: Seq<BrainDocument>,
    n: int,
    last_seen: Seq<char>,
    uid: u32,
    gid: u32,
    now: Timestamp,
    now_ms: i64,
)
    requires
        0 <= n <= docs.len(),
        listed(start, docs.take(n), last_seen, uid, gid, now, now_ms).error is Some,
    ensures
        listed(start, docs, last_seen, uid, gid, now, now_ms) == listed(
            start,
            docs.take(n),
            last_seen,
            uid,
            gid,
            now,
            now_ms,
        ),
    decreases docs.len() - n,
{
    if n < docs.len() {
        assert(docs.take(n + 1).drop_last() =~= docs.take(n));
        lemma_listed_failure(start, docs, n + 1, last_seen, uid, gid, now, now_ms);
    } else {
        assert(docs.take(n) =~= docs);
    }
}

/// The end of a full-list pull: the watermark is set where it `moved`,
/// and the pull is recorded.
pub open spec fn list_pull_ended(t: Tables, newest: Seq<char>, moved: bool, now_ms: i64) -> Tables {
    let t1 = if moved {
        changed(t, ChangeView::PutMeta(SYNC_META_LAST_SEEN@, newest))
    } else {
        t
    };
    pull_marked(t1, now_ms)
}

/// Where a full-list pull starts.
pub open spec fn list_start(s: FsState, newest: Seq<char>) -> ListPull {
    ListPull { s, reconciled: 0, newest, error: None }
}

/// Goes through the documents of the full list. Returns how many were stored
/// and the newest `updated_at`.
fn pull_list(
    fs: &mut UnisonFs,
    docs: &Vec<BrainDocument>,
    last_seen: &str,
    newest: String,
    now: Timestamp,
    now_ms: i64,
) -> (r: VfsResult<(usize, String)>)
    requires
        old(fs).wf(),
    ensures
        final(fs).follows(*old(fs)),
        ({
            let p = listed(
                list_start(old(fs).state(), newest@),
                docs@,
                last_seen@,
                old(fs).owner().0,
                old(fs).owner().1,
                now,
                now_ms,
            );
            &&& final(fs).state() == p.s
            &&& match p.error {
                Some(e) => r matches Err(x) && x@ == e,
                None => r matches Ok(x) && x.0 == p.reconciled && x.1@ == p.newest,
            }
        }),
{
    let ghost start = list_start(fs.state(), newest@);
    let ghost (uid, gid) = fs.owner();
    let mut newest_seen = newest;
    let mut reconciled: usize = 0;
    let mut i: usize = 0;
    while i < docs.len()
        invariant
            i <= docs@.len(),
            reconciled <= i,
            fs.follows(*old(fs)),
            (uid, gid) == old(fs).owner(),
            start == list_start(old(fs).state(), newest@),
            listed(start, docs@.take(i as int), last_seen@, uid, gid, now, now_ms) == (ListPull {
                s: fs.state(),
                reconciled: reconciled as nat,
                newest: newest_seen@,
                error: None,
            }),
        decreases docs@.len() - i,
    {
        let doc = &docs[i];
        proof {
            assert(docs@.take(i + 1).drop_last() =~= docs@.take(i as int));
            assert(docs@.take(i + 1).last() == *doc);
        }
        if !last_seen.is_empty() && !text_less(last_seen, doc.updated_at.as_str()) {
            i += 1;
            continue ;
        }
        match reconcile_listed_doc(fs, doc, now, now_ms) {
            Ok(stored) => {
                if stored {
                    reconciled += 1;
                }
            },
            Err(e) => {
                proof {
                    lemma_listed_failure(
                        start,
                        docs@,
                        i + 1,
                        last_seen@,
                        uid,
                        gid,
                        now,
                        now_ms,
                    );
                }
                return Err(e);
            },
        }
        if text_less(newest_seen.as_str(), doc.updated_at.as_str()) {
            newest_seen = copy_text(doc.updated_at.as_str());
        }
        i += 1;
    }
    assert(docs@.take(docs@.len() as int) =~= docs@);
    Ok((reconciled, newest_seen))
}

/// The watermark of the full-list pull; empty where there is none yet.
pub open spec fn watermark(t: Tables) -> Seq<char> {
    match t.meta.get(SYNC_META_LAST_SEEN@) {
        Some(v) => v,
        None => Seq::empty(),
    }
}

/// Pulls what is newer than the watermark from the full list `docs`, and moves
/// the watermark. An error leaves the watermark where it is.
pub fn legacy_delta_pull(
    fs: &mut UnisonFs,
    docs: &Vec<BrainDocument>,
    now: Timestamp,
    now_ms: i64,
) -> (r: VfsResult<usize>)
    requires
        old(fs).wf(),
    ensures
        final(fs).follows(*old(fs)),
        ({
            let last_seen = watermark(old(fs).state().t);
            let p = listed(
                list_start(old(fs).state(), last_seen),
                docs@,
                last_seen,
                old(fs).owner().0,
                old(fs).owner().1,
                now,
                now_ms,
            );
            match p.error {
                Some(e) => final(fs).state() == p.s && (r matches Err(x) && x@ == e),
                None => {
                    &&& final(fs).state() == (FsState {
                        t: list_pull_ended(
                            p.s.t,
                            p.newest,
                            p.newest.len() > 0 && p.newest != last_seen,
                            now_ms,
                        ),
                        ..p.s
                    })
                    &&& r matches Ok(n) && n == p.reconciled
                },
            }
        }),
{
    let last_seen = match fs.db().sync_meta_get(SYNC_META_LAST_SEEN) {
        Some(v) => v,
        None => String::new(),
    };
    let newest = copy_text(last_seen.as_str());
    match pull_list(fs, docs, last_seen.as_str(), newest, now, now_ms) {
        Ok((reconciled, newest_seen)) => {
            if !newest_seen.as_str().is_empty() && !same_text(
                newest_seen.as_str(),
                last_seen.as_str(),
            ) {
                fs.db_mut().sync_meta_set(SYNC_META_LAST_SEEN, newest_seen.as_str());
            }
            mark_pull_success(fs.db_mut(), now_ms);
            Ok(reconciled)
        },
        Err(e) => Err(e),
    }
}

/// Pulls the full list `docs`, and sets the watermark.
pub fn legacy_full_pull(
    fs: &mut UnisonFs,
    docs: &Vec<BrainDocument>,
    now: Timestamp,
    now_ms: i64,
) -> (r: VfsResult<usize>)
    requires
        old(fs).wf(),
    ensures
        final(fs).follows(*old(fs)),
        ({
            let p = listed(
                list_start(old(fs).state(), Seq::empty()),
                docs@,
                Seq::empty(),
                old(fs).owner().0,
                old(fs).owner().1,
                now,
                now_ms,
            );
            match p.error {
                Some(e) => final(fs).state() == p.s && (r matches Err(x) && x@ == e),
                None => {
                    &&& final(fs).state() == (FsState {
                        t: list_pull_ended(p.s.t, p.newest, p.newest.len() > 0, now_ms),
                        ..p.s
                    })
                    &&& r matches Ok(n) && n == p.reconciled
                },
            }
        }),
{
    let none = String::new();
    assert(none@ =~= Seq::<char>::empty());
    match pull_list(fs, docs, none.as_str(), String::new(), now, now_ms) {
        Ok((reconciled, newest_seen)) => {
            if !newest_seen.as_str().is_empty() {
                fs.db_mut().sync_meta_set(SYNC_META_LAST_SEEN, newest_seen.as_str());
            }
            mark_pull_success(fs.db_mut(), now_ms);
            Ok(reconciled)
        },
        Err(e) => Err(e),
    }
}

/// How far a full-list pull is after `reconciled` of `total` documents.
pub fn list_progress(total: usize, reconciled: usize) -> (r: PullProgress)
    ensures
        r == (PullProgress { page: 1, total_pages: 1, total_items: total, reconciled }),
{
    PullProgress { page: 1, total_pages: 1, total_items: total, reconciled }
}

// ── Laws ────────────────────────────────────────────────────────────────────

/// A local edit of a changed document that is not older than the change, or
/// whose remote counterpart has no readable time, is never overwritten, neither
/// before the body is fetched nor after: nothing changes at all.
pub proof fn law_newer_edit_is_kept(
    s: FsState,
    uid: u32,
    gid: u32,
    ch: ChangeEntry,
    reply: Result<BrainDocument, ApiError>,
    now: Timestamp,
    now_ms: i64,
    ino: u64,
)
    requires
        !ch.deleted,
        ino_by_remote_path(s.t, ch.path@) == Some(ino),
        dirty_since(s.t, ino) matches Some(since) && (iso_ms(ch.updated_at@) matches Some(ms)
            ==> since >= ms),
    ensures
        change_planned(s, ch, now_ms) == (s, ChangePlan::Done(false)),
        change_fetched(s, uid, gid, ch, reply, now, now_ms) == (s, Ok::<bool, Seq<char>>(false)),
        to_invalidate(s, uid, gid, ch, reply, now, now_ms) is None,
{
}

/// The file `ino` has the same content and the same mark in both.
pub open spec fn same_edit(a: Tables, b: Tables, ino: u64) -> bool {
    content(b, ino) == content(a, ino) && dirty_since(b, ino) == dirty_since(a, ino)
}

/// A change that is no deletion keeps every local edit that is not older than
/// it, whatever file it is of and whatever the reply to the fetch: the content of
/// the file and its mark stay.
pub proof fn law_edits_survive_changes(
    s: FsState,
    uid: u32,
    gid: u32,
    ch: ChangeEntry,
    reply: Result<BrainDocument, ApiError>,
    now: Timestamp,
    now_ms: i64,
    ino: u64,
)
    requires
        sound(s.t),
        !ch.deleted,
        keeps_local_edit(s.t, ino, ch.updated_at@),
    ensures
        same_edit(s.t, change_planned(s, ch, now_ms).0.t, ino),
        same_edit(s.t, change_fetched(s, uid, gid, ch, reply, now, now_ms).0.t, ino),
{
    assert(change_planned(s, ch, now_ms).0.t.inodes == s.t.inodes);
    assert(change_planned(s, ch, now_ms).0.t.chunks == s.t.chunks);
    if !edit_kept(s.t, ch.path@, ch.updated_at@) {
        match reply {
            Ok(doc) => {
                let body = body_bytes(opt_view(doc.body_md));
                lemma_upsert_spares(s, ch.path@, body, uid, gid, now, ino);
                let (s1, r) = doc_upserted(s, ch.path@, body, uid, gid, now);
                let after = change_fetched(s, uid, gid, ch, reply, now, now_ms).0.t;
                assert(after.chunks == s1.t.chunks);
                assert(after.inodes.get(ino) == s1.t.inodes.get(ino));
            },
            Err(ApiError::NotFound) => {
                let after = deletion_applied(s, ch.id@).0.t;
                if !edit_kept_of_id(s.t, ch.id@, ch.updated_at@) {
                    assert(after.inodes.get(ino) == s.t.inodes.get(ino));
                    assert forall|i: u64| #[trigger]
                        after.chunks.get((ino, i)) == s.t.chunks.get((ino, i)) by {}
                    lemma_same_content(s.t, after, ino);
                }
            },
            Err(_) => {},
        }
    }
}

/// A document of the full list keeps every local edit that is not older than it,
/// whatever file it is of.
pub proof fn law_edits_survive_lists(
    s: FsState,
    uid: u32,
    gid: u32,
    doc: BrainDocument,
    now: Timestamp,
    now_ms: i64,
    ino: u64,
)
    requires
        sound(s.t),
        keeps_local_edit(s.t, ino, doc.updated_at@),
    ensures
        same_edit(s.t, doc_reconciled(s, uid, gid, doc, now, now_ms).0.t, ino),
{
    if !edit_kept(s.t, doc.path@, doc.updated_at@) {
        let body = body_bytes(opt_view(doc.body_md));
        lemma_upsert_spares(s, doc.path@, body, uid, gid, now, ino);
        let (s1, r) = doc_upserted(s, doc.path@, body, uid, gid, now);
        let after = doc_reconciled(s, uid, gid, doc, now, now_ms).0.t;
        assert(after.chunks == s1.t.chunks);
        assert(after.inodes.get(ino) == s1.t.inodes.get(ino));
    }
}

/// A pull of the full list keeps a local edit that is not older than any document
/// of the list.
pub proof fn law_edits_survive_list_pulls(
    start: ListPull,
    docs: Seq<BrainDocument>,
    last_seen: Seq<char>,
    uid: u32,
    gid: u32,
    now: Timestamp,
    now_ms: i64,
    ino: u64,
)
    requires
        sound(start.s.t),
        forall|i: int|
            0 <= i < docs.len() ==> keeps_local_edit(
                start.s.t,
                ino,
                (#[trigger] docs[i]).updated_at@,
            ),
    ensures
        same_edit(
            start.s.t,
            listed(start, docs, last_seen, uid, gid, now, now_ms).s.t,
            ino,
        ),
    decreases docs.len(),
{
    if docs.len() > 0 {
        let front = docs.drop_last();
        assert forall|i: int| 0 <= i < front.len() implies keeps_local_edit(
            start.s.t,
            ino,
            (#[trigger] front[i]).updated_at@,
        ) by {
            assert(front[i] == docs[i]);
        }
        law_edits_survive_list_pulls(start, front, last_seen, uid, gid, now, now_ms, ino);
        law_lists_keep_tables_sound(start, front, last_seen, uid, gid, now, now_ms);
        let p = listed(start, front, last_seen, uid, gid, now, now_ms);
        assert(docs.last() == docs[docs.len() - 1]);
        law_edits_survive_lists(p.s, uid, gid, docs.last(), now, now_ms, ino);
    }
}

/// An edit that is made while a push of its file is under way is still there
/// after the push has succeeded and a change that is not newer was pulled.
pub proof fn law_queued_edit_survives_pull(
    s: FsState,
    job: PushJobView,
    ino: u64,
    offset: int,
    data: Seq<u8>,
    now: Timestamp,
    ms: i64,
    hash: Option<Seq<char>>,
    pushed_ms: i64,
    uid: u32,
    gid: u32,
    ch: ChangeEntry,
    reply: Result<BrainDocument, ApiError>,
    pull_now: Timestamp,
    pull_ms: i64,
)
    requires
        sound(s.t),
        s.t.inodes.contains_key(ino),
        data.len() > 0,
        push_path(s.t, ino) == Some(job.brain_path),
        !is_noise(job.brain_path),
        s.t.queue.contains_key(job.brain_path),
        s.t.queue[job.brain_path].inflight_started_at is Some,
        job.op != PushOp::Write || job.content_ino == Some(ino),
        !ch.deleted,
        iso_ms(ch.updated_at@) matches Some(remote) ==> ms >= remote,
    ensures
        ({
            let edited = mount_written(s.t, ino, offset, data, now, ms);
            let pushed = FsState { t: push_succeeded(edited, job, hash, pushed_ms), ..s };
            let planned = change_planned(pushed, ch, pull_ms).0;
            let fetched = change_fetched(planned, uid, gid, ch, reply, pull_now, pull_ms).0;
            &&& dirty_since(edited, ino) == Some(ms)
            &&& same_edit(edited, pushed.t, ino)
            &&& same_edit(edited, planned.t, ino)
            &&& same_edit(edited, fetched.t, ino)
        }),
{
    let edited = mount_written(s.t, ino, offset, data, now, ms);
    let pushed = FsState { t: push_succeeded(edited, job, hash, pushed_ms), ..s };
    law_local_write_is_queued(s.t, ino, offset, data, now, ms);
    law_edit_outlasts_push(s.t, job, ino, offset, data, now, ms, hash, pushed_ms);
    law_writing_keeps_tables_sound(s.t, ino, offset, data, now, ms);
    lemma_same_shape(edited, pushed.t);
    law_edits_survive_changes(pushed, uid, gid, ch, reply, pull_now, pull_ms, ino);
    let planned = change_planned(pushed, ch, pull_ms).0;
    law_changes_keep_tables_sound(pushed, uid, gid, ch, reply, pull_now, pull_ms);
    law_edits_survive_changes(planned, uid, gid, ch, reply, pull_now, pull_ms, ino);
}

/// A pull of the full list keeps a local edit that is not older than the listed
/// document, or whose remote counterpart has no readable time: nothing changes
/// at all.
pub proof fn law_newer_edit_is_kept_from_lists(
    s: FsState,
    uid: u32,
    gid: u32,
    doc: BrainDocument,
    now: Timestamp,
    now_ms: i64,
    ino: u64,
)
    requires
        ino_by_remote_path(s.t, doc.path@) == Some(ino),
        dirty_since(s.t, ino) matches Some(since) && (iso_ms(doc.updated_at@) matches Some(ms)
            ==> since >= ms),
    ensures
        doc_reconciled(s, uid, gid, doc, now, now_ms) == (s, Ok::<bool, VfsErrorView>(false)),
{
}

/// A change that comes back around with the content that is cached already is
/// not fetched, and leaves every file and directory as it is.
pub proof fn law_echo_changes_no_file(s: FsState, ch: ChangeEntry, now_ms: i64, ino: u64)
    requires
        !ch.deleted,
        ino_by_remote_path(s.t, ch.path@) == Some(ino),
        opt_view(ch.content_hash) is Some,
        remote_hash(s.t, ino) == opt_view(ch.content_hash),
    ensures
        change_planned(s, ch, now_ms).1 == ChangePlan::Done(false),
        change_planned(s, ch, now_ms).0.t.inodes == s.t.inodes,
        change_planned(s, ch, now_ms).0.t.chunks == s.t.chunks,
        change_planned(s, ch, now_ms).0.t.dentries == s.t.dentries,
{
}

/// A write that was pushed comes back around without effect: the change that
/// the brain announces for it is not fetched, and leaves every file and
/// directory as it is.
pub proof fn law_own_write_is_not_fetched(
    s: FsState,
    job: PushJobView,
    ino: u64,
    hash: Option<Seq<char>>,
    pushed_ms: i64,
    ch: ChangeEntry,
    now_ms: i64,
)
    requires
        job.op == PushOp::Write,
        job.content_ino == Some(ino),
        s.t.remotes.contains_key(ino),
        ino_by_remote_path(s.t, ch.path@) == Some(ino),
        !ch.deleted,
        hash is Some,
        opt_view(ch.content_hash) == hash,
    ensures
        ({
            let pushed = FsState { t: push_succeeded(s.t, job, hash, pushed_ms), ..s };
            &&& change_planned(pushed, ch, now_ms).1 == ChangePlan::Done(false)
            &&& change_planned(pushed, ch, now_ms).0.t.inodes == pushed.t.inodes
            &&& change_planned(pushed, ch, now_ms).0.t.chunks == pushed.t.chunks
            &&& change_planned(pushed, ch, now_ms).0.t.dentries == pushed.t.dentries
        }),
{
    let pushed = FsState { t: push_succeeded(s.t, job, hash, pushed_ms), ..s };
    assert forall|i: u64| #[trigger] remote_path(pushed.t, i) == remote_path(s.t, i) by {}
    assert((|i: u64| remote_path(pushed.t, i) == Some(ch.path@)) =~= (|i: u64|
        remote_path(s.t, i) == Some(ch.path@)));
    law_echo_changes_no_file(pushed, ch, now_ms, ino);
}

/// A document that was stored is clean: its next change is not held back.
pub proof fn law_stored_doc_is_clean(
    t: Tables,
    ino: u64,
    id: Seq<char>,
    updated_at: Seq<char>,
    hash: Option<Seq<char>>,
    now_ms: i64,
)
    ensures
        dirty_since(doc_noted(t, ino, id, updated_at, hash, now_ms), ino) is None,
        t.remotes.contains_key(ino) ==> remote_hash(
            doc_noted(t, ino, id, updated_at, hash, now_ms),
            ino,
        ) == hash,
        t.remotes.contains_key(ino) ==> crate::cache::model::remote_id(
            doc_noted(t, ino, id, updated_at, hash, now_ms),
            ino,
        ) == Some(id),
{
}

/// What belongs to `ino` is the same in both: its row, its content, its record
/// and the names that it has.
pub open spec fn same_file(a: Tables, b: Tables, ino: u64) -> bool {
    &&& b.inodes.get(ino) == a.inodes.get(ino)
    &&& b.remotes.get(ino) == a.remotes.get(ino)
    &&& forall|i: u64| #[trigger] b.chunks.get((ino, i)) == a.chunks.get((ino, i))
    &&& forall|d: (u64, Seq<char>)| #[trigger]
        b.dentries.contains_pair(d, ino) == a.dentries.contains_pair(d, ino)
}

/// The file `ino` is not there, nor its content or its record, and the name that
/// it had is free.
pub open spec fn file_gone(t: Tables, ino: u64, name: (u64, Seq<char>)) -> bool {
    &&& !t.inodes.contains_key(ino)
    &&& !t.remotes.contains_key(ino)
    &&& forall|i: u64| !#[trigger] t.chunks.contains_key((ino, i))
    &&& !t.dentries.contains_key(name)
}

/// The file `ino` has a name, and its row counts no further one.
pub open spec fn single_named(t: Tables, ino: u64) -> bool {
    dentry_of(t, ino) is Some && (t.inodes.contains_key(ino) ==> t.inodes[ino].nlink <= 1)
}

/// `b` has no directory entry and no record that `a` has not.
pub open spec fn only_removes(a: Tables, b: Tables) -> bool {
    &&& b.dentries.dom().finite()
    &&& forall|d: (u64, Seq<char>)| #[trigger]
        b.dentries.contains_key(d) ==> a.dentries.contains_pair(d, b.dentries[d])
    &&& forall|o: u64| #[trigger]
        b.remotes.contains_key(o) ==> a.remotes.contains_pair(o, b.remotes[o])
}

/// What a deletion does to a file `o`.
pub proof fn lemma_deletion(s: FsState, id: Seq<char>, o: u64)
    requires
        s.t.dentries.dom().finite(),
    ensures
        only_removes(s.t, deletion_applied(s, id).0.t),
        ino_for_remote_id(s.t, id) != Some(o) ==> same_file(
            s.t,
            deletion_applied(s, id).0.t,
            o,
        ),
        remote_id(s.t, o) != Some(id) ==> ino_for_remote_id(s.t, id) != Some(o),
        forall|i: u64, n: (u64, Seq<char>)| #[trigger]
            file_gone(s.t, i, n) ==> file_gone(deletion_applied(s, id).0.t, i, n),
{
    let p = |ino: u64| remote_id(s.t, ino) == Some(id);
    let s1 = deletion_applied(s, id).0;
    if ino_for_remote_id(s.t, id) is Some {
        let some = choose|i: u64| #[trigger] p(i);
        lemma_least_exists(p, some);
        let ino = ino_for_remote_id(s.t, id)->0;
        assert(p(ino));
        lemma_dentry_of_is_first(s.t, ino);
        if dentry_of(s.t, ino) is Some {
            let d = dentry_of(s.t, ino)->0;
            assert(s.t.dentries.contains_pair(d, ino));
            assert(s1.t.dentries == s.t.dentries.remove(d));
        }
    }
    assert forall|i: u64, n: (u64, Seq<char>)| #[trigger] file_gone(s.t, i, n) implies file_gone(
        s1.t,
        i,
        n,
    ) by {
        assert(s1.t.inodes.contains_key(i) ==> s.t.inodes.contains_key(i));
        assert forall|k: u64| !#[trigger] s1.t.chunks.contains_key((i, k)) by {
            assert(!s.t.chunks.contains_key((i, k)));
        }
    }
}

/// A deletion of the document `id` removes the least file that has it.
pub proof fn lemma_deletion_removes(s: FsState, id: Seq<char>, ino: u64)
    requires
        s.t.dentries.dom().finite(),
        single_named(s.t, ino),
        is_least(|i: u64| remote_id(s.t, i) == Some(id), ino),
    ensures
        file_gone(deletion_applied(s, id).0.t, ino, dentry_of(s.t, ino)->0),
{
    lemma_least(|i: u64| remote_id(s.t, i) == Some(id), Some(ino));
}

/// The same names have the same first one.
proof fn lemma_same_first_name(a: Tables, b: Tables, ino: u64)
    requires
        a.dentries.dom().finite(),
        same_file(a, b, ino),
    ensures
        dentry_of(b, ino) == dentry_of(a, ino),
{
    lemma_dentry_of_is_first(a, ino);
    match dentry_of(a, ino) {
        Some(d) => {
            assert(b.dentries.contains_pair(d, ino) == a.dentries.contains_pair(d, ino));
            assert forall|e: (u64, Seq<char>)| #[trigger]
                b.dentries.contains_pair(e, ino) implies e == d || entry_lt(d, e) by {
                assert(a.dentries.contains_pair(e, ino));
            }
            assert(is_first_dentry(b.dentries, ino, d));
        },
        None => {
            assert forall|d: (u64, Seq<char>)| !#[trigger] b.dentries.contains_pair(d, ino) by {
                assert(!a.dentries.contains_pair(d, ino));
            }
        },
    }
    lemma_dentry_of(b, ino, dentry_of(a, ino));
}

proof fn lemma_same_file_on(a: Tables, b: Tables, c: Tables, ino: u64)
    requires
        same_file(a, b, ino),
        same_file(b, c, ino),
    ensures
        same_file(a, c, ino),
{
    assert forall|i: u64| #[trigger] c.chunks.get((ino, i)) == a.chunks.get((ino, i)) by {
        assert(b.chunks.get((ino, i)) == a.chunks.get((ino, i)));
    }
    assert forall|d: (u64, Seq<char>)| #[trigger]
        c.dentries.contains_pair(d, ino) == a.dentries.contains_pair(d, ino) by {
        assert(b.dentries.contains_pair(d, ino) == a.dentries.contains_pair(d, ino));
    }
}

proof fn lemma_only_removes_on(a: Tables, b: Tables, c: Tables)
    requires
        only_removes(a, b),
        only_removes(b, c),
    ensures
        only_removes(a, c),
{
    assert forall|d: (u64, Seq<char>)| #[trigger]
        c.dentries.contains_key(d) implies a.dentries.contains_pair(d, c.dentries[d]) by {
        assert(b.dentries.contains_key(d));
    }
    assert forall|o: u64| #[trigger] c.remotes.contains_key(o) implies a.remotes.contains_pair(
        o,
        c.remotes[o],
    ) by {
        assert(b.remotes.contains_key(o));
    }
}

proof fn lemma_pruned_keeps(s: FsState, ids: Seq<Seq<char>>, seen: Set<Seq<char>>, ino: u64)
    requires
        s.t.dentries.dom().finite(),
        remote_id(s.t, ino) matches Some(id) ==> seen.contains(id),
    ensures
        same_file(s.t, pruned(s, ids, seen).0.t, ino),
        only_removes(s.t, pruned(s, ids, seen).0.t),
    decreases ids.len(),
{
    if ids.len() > 0 {
        lemma_pruned_keeps(s, ids.drop_last(), seen, ino);
        let s1 = pruned(s, ids.drop_last(), seen).0;
        if !seen.contains(ids.last()) {
            lemma_deletion(s1, ids.last(), ino);
            let s2 = deletion_applied(s1, ids.last()).0;
            lemma_same_file_on(s.t, s1.t, s2.t, ino);
            lemma_only_removes_on(s.t, s1.t, s2.t);
        }
    }
}

/// Nothing that was seen is pruned: a file whose document was seen, or that has
/// none, keeps its row, its content, its record and its names.
pub proof fn law_prune_keeps_what_was_seen(s: FsState, seen: Set<Seq<char>>, ino: u64)
    requires
        s.t.dentries.dom().finite(),
        remote_id(s.t, ino) matches Some(id) ==> seen.contains(id),
    ensures
        same_file(s.t, pruned(s, all_remote_ids(s.t), seen).0.t, ino),
{
    lemma_pruned_keeps(s, all_remote_ids(s.t), seen, ino);
}

/// The files of the document `id` after the documents of the inodes below `hi`
/// were gone through.
proof fn lemma_pruned_removes(s: FsState, seen: Set<Seq<char>>, id: Seq<char>, hi: int)
    requires
        s.t.dentries.dom().finite(),
        !seen.contains(id),
        forall|o: u64| #[trigger] remote_id(s.t, o) == Some(id) ==> single_named(s.t, o),
        0 <= hi <= all_indices(),
    ensures
        ({
            let ids = gathered(|ino: u64| remote_id(s.t, ino), hi);
            let t = pruned(s, ids, seen).0.t;
            &&& only_removes(s.t, t)
            &&& forall|o: u64| #[trigger]
                remote_id(s.t, o) == Some(id) ==> if o < hi {
                    file_gone(t, o, dentry_of(s.t, o)->0)
                } else {
                    same_file(s.t, t, o)
                }
        }),
    decreases hi,
{
    if hi > 0 {
        let f = |ino: u64| remote_id(s.t, ino);
        let at = (hi - 1) as u64;
        lemma_pruned_removes(s, seen, id, hi - 1);
        let before = gathered(f, hi - 1);
        let s1 = pruned(s, before, seen).0;
        let s2 = pruned(s, gathered(f, hi), seen).0;
        if f(at) is Some && !seen.contains(f(at)->0) {
            let x = f(at)->0;
            assert(gathered(f, hi) == before.push(x));
            assert(before.push(x).drop_last() =~= before);
            assert(s2 == deletion_applied(s1, x).0);
            lemma_deletion(s1, x, at);
            if x == id {
                lemma_same_first_name(s.t, s1.t, at);
                assert forall|j: u64| remote_id(s1.t, j) == Some(id) implies at <= j by {
                    assert(s1.t.remotes.contains_key(j));
                    assert(remote_id(s.t, j) == Some(id));
                }
                assert(remote_id(s.t, at) == Some(id));
                lemma_deletion_removes(s1, id, at);
                lemma_least(|i: u64| remote_id(s1.t, i) == Some(id), Some(at));
            }
            assert forall|o: u64| #[trigger] remote_id(s.t, o) == Some(id) implies if o < hi {
                file_gone(s2.t, o, dentry_of(s.t, o)->0)
            } else {
                same_file(s.t, s2.t, o)
            } by {
                if o < hi - 1 {
                    assert(file_gone(s1.t, o, dentry_of(s.t, o)->0));
                } else if o >= hi {
                    lemma_deletion(s1, x, o);
                    lemma_same_file_on(s.t, s1.t, s2.t, o);
                }
            }
            lemma_only_removes_on(s.t, s1.t, s2.t);
        } else {
            assert(s2 == s1) by {
                if f(at) is Some {
                    assert(gathered(f, hi) == before.push(f(at)->0));
                    assert(before.push(f(at)->0).drop_last() =~= before);
                }
            }
            assert(remote_id(s.t, at) != Some(id));
        }
    }
}

/// What was not seen is pruned: where the files of a document that was not seen
/// have one name each, they are gone with their content, their records and those
/// names, and nothing is on record for the document.
pub proof fn law_prune_removes_what_was_not_seen(s: FsState, seen: Set<Seq<char>>, id: Seq<char>)
    requires
        s.t.dentries.dom().finite(),
        !seen.contains(id),
        forall|o: u64| #[trigger] remote_id(s.t, o) == Some(id) ==> single_named(s.t, o),
    ensures
        ({
            let t = pruned(s, all_remote_ids(s.t), seen).0.t;
            &&& forall|o: u64| #[trigger]
                remote_id(s.t, o) == Some(id) ==> file_gone(t, o, dentry_of(s.t, o)->0)
            &&& ino_for_remote_id(t, id) is None
        }),
{
    lemma_pruned_removes(s, seen, id, all_indices());
    let t = pruned(s, all_remote_ids(s.t), seen).0.t;
    assert forall|o: u64| remote_id(t, o) != Some(id) by {
        if remote_id(t, o) == Some(id) {
            assert(t.remotes.contains_key(o));
            assert(remote_id(s.t, o) == Some(id));
        }
    }
    lemma_least(|ino: u64| remote_id(t, ino) == Some(id), None);
}


/// Pruning keeps the tables sound.
pub proof fn law_pruning_keeps_tables_sound(
    s: FsState,
    ids: Seq<Seq<char>>,
    seen: Set<Seq<char>>,
)
    requires
        sound(s.t),
    ensures
        sound(pruned(s, ids, seen).0.t),
    decreases ids.len(),
{
    if ids.len() > 0 {
        law_pruning_keeps_tables_sound(s, ids.drop_last(), seen);
        law_deletion_keeps_tables_sound(pruned(s, ids.drop_last(), seen).0, ids.last());
    }
}

/// A change keeps the tables sound, before its body is fetched and after.
pub proof fn law_changes_keep_tables_sound(
    s: FsState,
    uid: u32,
    gid: u32,
    ch: ChangeEntry,
    reply: Result<BrainDocument, ApiError>,
    now: Timestamp,
    now_ms: i64,
)
    requires
        sound(s.t),
    ensures
        sound(change_planned(s, ch, now_ms).0.t),
        sound(change_fetched(s, uid, gid, ch, reply, now, now_ms).0.t),
{
    law_deletion_keeps_tables_sound(s, ch.id@);
    match ino_by_remote_path(s.t, ch.path@) {
        Some(ino) => {
            lemma_same_shape(s.t, echo_noted(s.t, ino, ch.id@, ch.updated_at@, now_ms));
        },
        None => {},
    }
    match reply {
        Ok(doc) => {
            let body = body_bytes(opt_view(doc.body_md));
            law_upsert_keeps_tables_sound(s, ch.path@, body, uid, gid, now);
            let (s1, r) = doc_upserted(s, ch.path@, body, uid, gid, now);
            if r is Ok {
                lemma_same_shape(
                    s1.t,
                    reply_applied(s, uid, gid, ch, reply, now, now_ms).0.t,
                );
            }
        },
        Err(_) => {},
    }
}

/// A pull of the full list keeps the tables sound.
pub proof fn law_lists_keep_tables_sound(
    start: ListPull,
    docs: Seq<BrainDocument>,
    last_seen: Seq<char>,
    uid: u32,
    gid: u32,
    now: Timestamp,
    now_ms: i64,
)
    requires
        sound(start.s.t),
    ensures
        sound(listed(start, docs, last_seen, uid, gid, now, now_ms).s.t),
    decreases docs.len(),
{
    if docs.len() > 0 {
        law_lists_keep_tables_sound(start, docs.drop_last(), last_seen, uid, gid, now, now_ms);
        let p = listed(start, docs.drop_last(), last_seen, uid, gid, now, now_ms);
        let doc = docs.last();
        let body = body_bytes(opt_view(doc.body_md));
        law_upsert_keeps_tables_sound(p.s, doc.path@, body, uid, gid, now);
        let (s1, r) = doc_upserted(p.s, doc.path@, body, uid, gid, now);
        if r is Ok {
            lemma_same_shape(
                s1.t,
                doc_noted(
                    s1.t,
                    r->Ok_0,
                    doc.id@,
                    doc.updated_at@,
                    opt_view(doc.content_hash),
                    now_ms,
                ),
            );
        }
    }
}

/// The watermark never moves back.
pub proof fn law_watermark_only_advances(
    start: ListPull,
    docs: Seq<BrainDocument>,
    last_seen: Seq<char>,
    uid: u32,
    gid: u32,
    now: Timestamp,
    now_ms: i64,
)
    ensures
        ({
            let p = listed(start, docs, last_seen, uid, gid, now, now_ms);
            p.newest == start.newest || text_lt(start.newest, p.newest)
        }),
    decreases docs.len(),
{
    if docs.len() > 0 {
        law_watermark_only_advances(start, docs.drop_last(), last_seen, uid, gid, now, now_ms);
        let p = listed(start, docs.drop_last(), last_seen, uid, gid, now, now_ms);
        let u = docs.last().updated_at@;
        if text_lt(p.newest, u) && text_lt(start.newest, p.newest) {
            crate::text::lemma_text_order_trans(start.newest, p.newest, u);
        }
    }
}

} // verus!
