//! What pulling does for the mount: what changed remotely appears in it.

use super::iso::iso_ms;
use super::pull::{
    bootstrapped, change_fetched, change_planned, doc_reconciled, feed_error, file_gone,
    lemma_deletion, lemma_deletion_removes, list_pull_ended, list_start, listed, same_file,
    single_named, to_invalidate, watermark, BootstrapView, ChangePlan, ListPull, PullErrorView,
    SYNC_META_CHANGES_CURSOR, SYNC_META_LAST_PULL_AT, SYNC_META_LAST_SEEN,
};
use super::puller::{
    lemma_keys_differ, lemma_prune_keeps_meta, next_turn, stepped, PullGot, PullView, PullWantView,
    Stage,
};
use super::scan::doc_ids;
use crate::api::dto::{BrainDocument, ChangeEntry, ChangesResp, ListDocsResp};
use crate::api::error::{api_error_text, ApiError, ApiErrorView};
use crate::cache::fs::{
    components, doc_at, doc_upserted, edit_kept, keeps_local_edit, leads_to, FsState,
};
use crate::cache::fs_laws::law_upsert_succeeds;
use crate::cache::laws::{law_upserted_doc_is_stored, lemma_upsert_spares, names_document};
use crate::cache::model::{
    all_remote_ids, content, dentry_of, dirty_since, ino_by_remote_path, is_least,
    lemma_dentry_of_is_first, lemma_least, remote_hash, remote_id, remote_path,
};
use crate::cache::rows::{Tables, MAX_INO};
use crate::cache::sound::sound;
use crate::text::{opt_view, text_i64, text_lt};
use crate::vfs::types::Timestamp;
use vstd::prelude::*;
use vstd::utf8::encode_utf8;

verus! {

// ── Changes ─────────────────────────────────────────────────────────────────

/// A change that is no deletion, whose document has another hash than the one
/// that is on record, is fetched, unless a local edit of it is kept. Nothing
/// changes before that.
pub proof fn law_changed_document_is_fetched(s: FsState, ch: ChangeEntry, now_ms: i64, ino: u64)
    requires
        !ch.deleted,
        ino_by_remote_path(s.t, ch.path@) == Some(ino),
        !keeps_local_edit(s.t, ino, ch.updated_at@),
        ch.content_hash is None || remote_hash(s.t, ino) != opt_view(ch.content_hash),
    ensures
        change_planned(s, ch, now_ms) == (s, ChangePlan::Fetch),
{
}

/// A document that is not on record yet is fetched.
pub proof fn law_new_document_is_fetched(s: FsState, ch: ChangeEntry, now_ms: i64)
    requires
        !ch.deleted,
        forall|i: u64| remote_path(s.t, i) != Some(ch.path@),
    ensures
        change_planned(s, ch, now_ms) == (s, ChangePlan::Fetch),
{
    lemma_least(|i: u64| remote_path(s.t, i) == Some(ch.path@), None);
}

/// The bytes of the body of a document; a missing body is empty.
pub open spec fn doc_bytes(doc: BrainDocument) -> Seq<u8> {
    match doc.body_md {
        Some(b) => encode_utf8(b@),
        None => Seq::empty(),
    }
}

/// The file `ino` is what the path leads to and holds the body of the document.
/// It is clean, and where it is on record the record has the id, the hash and the
/// time of the version.
pub open spec fn mirrors(
    t: Tables,
    ino: u64,
    path: Seq<char>,
    doc: BrainDocument,
    id: Seq<char>,
    hash: Option<Seq<char>>,
    updated_at: Seq<char>,
) -> bool {
    &&& leads_to(t.dentries, components(path)) == Some(ino)
    &&& t.inodes.contains_key(ino)
    &&& content(t, ino) == doc_bytes(doc)
    &&& dirty_since(t, ino) is None
    &&& t.remotes.contains_key(ino) ==> {
        &&& remote_id(t, ino) == Some(id)
        &&& remote_hash(t, ino) == hash
        &&& iso_ms(updated_at) is Some ==> t.remotes[ino].mirrored_updated_at == iso_ms(updated_at)
    }
}

/// A change whose body was fetched is in the mount: its path leads to a file with
/// the body, which is clean and on record with the version.
pub proof fn law_fetched_change_is_stored(
    s: FsState,
    uid: u32,
    gid: u32,
    ch: ChangeEntry,
    doc: BrainDocument,
    now: Timestamp,
    now_ms: i64,
)
    requires
        sound(s.t),
        names_document(ch.path@),
        doc_bytes(doc).len() <= i64::MAX,
        !edit_kept(s.t, ch.path@, ch.updated_at@),
    ensures
        ({
            let reply = Ok::<BrainDocument, ApiError>(doc);
            let (after, r) = change_fetched(s, uid, gid, ch, reply, now, now_ms);
            let hash = if doc.content_hash is Some {
                opt_view(doc.content_hash)
            } else {
                opt_view(ch.content_hash)
            };
            &&& s.t.next_ino + components(ch.path@).len() <= MAX_INO ==> r is Ok
            &&& r is Ok ==> r->Ok_0 && mirrors(
                after.t,
                leads_to(after.t.dentries, components(ch.path@))->0,
                ch.path@,
                doc,
                ch.id@,
                hash,
                ch.updated_at@,
            )
        }),
{
    let reply = Ok::<BrainDocument, ApiError>(doc);
    let body = super::pull::body_bytes(opt_view(doc.body_md));
    assert(body == doc_bytes(doc));
    law_upserted_doc_is_stored(s, ch.path@, body, uid, gid, now);
    if s.t.next_ino + components(ch.path@).len() <= MAX_INO {
        law_upsert_succeeds(s, ch.path@, body, uid, gid, now);
    }
    let (s1, r1) = doc_upserted(s, ch.path@, body, uid, gid, now);
    let (after, r) = change_fetched(s, uid, gid, ch, reply, now, now_ms);
    if r is Ok {
        let ino = r1->Ok_0;
        let hash = if doc.content_hash is Some {
            opt_view(doc.content_hash)
        } else {
            opt_view(ch.content_hash)
        };
        assert(after.t.chunks == s1.t.chunks);
        assert(mirrors(after.t, ino, ch.path@, doc, ch.id@, hash, ch.updated_at@));
    }
}

/// A change whose body was fetched leaves every file but that of its document with
/// its content and its mark.
pub proof fn law_fetched_change_spares_other_files(
    s: FsState,
    uid: u32,
    gid: u32,
    ch: ChangeEntry,
    doc: BrainDocument,
    now: Timestamp,
    now_ms: i64,
    other: u64,
)
    requires
        sound(s.t),
        s.t.inodes.contains_key(other),
        doc_at(s.t, ch.path@) != Some(other),
    ensures
        ({
            let reply = Ok::<BrainDocument, ApiError>(doc);
            let after = change_fetched(s, uid, gid, ch, reply, now, now_ms).0.t;
            content(after, other) == content(s.t, other) && dirty_since(after, other)
                == dirty_since(s.t, other)
        }),
{
    let reply = Ok::<BrainDocument, ApiError>(doc);
    let body = super::pull::body_bytes(opt_view(doc.body_md));
    lemma_upsert_spares(s, ch.path@, body, uid, gid, now, other);
    let s1 = doc_upserted(s, ch.path@, body, uid, gid, now).0;
    let after = change_fetched(s, uid, gid, ch, reply, now, now_ms).0.t;
    if !edit_kept(s.t, ch.path@, ch.updated_at@) {
        assert(after.chunks == s1.t.chunks);
        assert(after.inodes.get(other) == s1.t.inodes.get(other));
    }
}

/// What the kernel is told to forget is the file of the document, by a name that
/// it has.
pub proof fn law_stored_file_is_invalidated(
    s: FsState,
    uid: u32,
    gid: u32,
    ch: ChangeEntry,
    reply: Result<BrainDocument, ApiError>,
    now: Timestamp,
    now_ms: i64,
)
    requires
        sound(s.t),
        names_document(ch.path@),
        reply matches Ok(doc) ==> doc_bytes(doc).len() <= i64::MAX,
    ensures
        ({
            let (after, r) = change_fetched(s, uid, gid, ch, reply, now, now_ms);
            match to_invalidate(s, uid, gid, ch, reply, now, now_ms) {
                Some((ino, parent, name)) => r is Ok && r->Ok_0 && leads_to(
                    after.t.dentries,
                    components(ch.path@),
                ) == Some(ino) && after.t.dentries.contains_pair((parent, name), ino),
                None => r is Ok && r->Ok_0 ==> reply is Err,
            }
        }),
{
    if let Ok(doc) = reply {
        if !edit_kept(s.t, ch.path@, ch.updated_at@) {
            let body = super::pull::body_bytes(opt_view(doc.body_md));
            law_upserted_doc_is_stored(s, ch.path@, body, uid, gid, now);
            let (s1, r1) = doc_upserted(s, ch.path@, body, uid, gid, now);
            if r1 is Ok {
                let after = change_fetched(s, uid, gid, ch, reply, now, now_ms).0.t;
                let ino = r1->Ok_0;
                assert(after.dentries == s1.t.dentries);
                lemma_dentry_of_is_first(after, ino);
                lemma_led_to_by_entry(after, components(ch.path@));
                crate::cache::laws::lemma_components(ch.path@);
            }
        }
    }
}

/// What a path leads to has a name, unless it is the root.
proof fn lemma_led_to_by_entry(t: Tables, parts: Seq<Seq<char>>)
    requires
        leads_to(t.dentries, parts) is Some,
    ensures
        parts.len() > 0 && parts.last().len() > 0 ==> exists|d: (u64, Seq<char>)|
            t.dentries.contains_pair(d, leads_to(t.dentries, parts)->0),
{
    if parts.len() > 0 && parts.last().len() > 0 {
        let dir = leads_to(t.dentries, parts.drop_last())->0;
        assert(t.dentries.contains_pair(
            (dir, parts.last()),
            leads_to(t.dentries, parts)->0,
        ));
    }
}

/// A tombstone removes the file of its document with its content, its record and
/// its name, where it has one name. Every other file stays as it is. Where no file
/// is on record for the document nothing changes.
pub proof fn law_tombstone_removes_the_file(s: FsState, ch: ChangeEntry, now_ms: i64, ino: u64)
    requires
        ch.deleted,
        s.t.dentries.dom().finite(),
        single_named(s.t, ino),
    ensures
        ({
            let (after, plan) = change_planned(s, ch, now_ms);
            &&& is_least(|i: u64| remote_id(s.t, i) == Some(ch.id@), ino) ==> plan
                == ChangePlan::Done(true) && file_gone(after.t, ino, dentry_of(s.t, ino)->0)
            &&& (forall|i: u64| remote_id(s.t, i) != Some(ch.id@)) ==> after == s && plan
                == ChangePlan::Done(false)
            &&& forall|o: u64|
                remote_id(s.t, o) != Some(ch.id@) ==> #[trigger] same_file(s.t, after.t, o)
        }),
{
    let p = |i: u64| remote_id(s.t, i) == Some(ch.id@);
    if is_least(p, ino) {
        lemma_deletion_removes(s, ch.id@, ino);
        lemma_least(p, Some(ino));
    }
    if forall|i: u64| remote_id(s.t, i) != Some(ch.id@) {
        lemma_least(p, None);
    }
    let after = change_planned(s, ch, now_ms).0;
    assert forall|o: u64| remote_id(s.t, o) != Some(ch.id@) implies #[trigger] same_file(
        s.t,
        after.t,
        o,
    ) by {
        lemma_deletion(s, ch.id@, o);
    }
}

/// A document that is gone by the time it is fetched is removed as by a
/// tombstone, unless a local edit of it is kept.
pub proof fn law_missing_document_is_removed(
    s: FsState,
    uid: u32,
    gid: u32,
    ch: ChangeEntry,
    now: Timestamp,
    now_ms: i64,
    ino: u64,
)
    requires
        s.t.dentries.dom().finite(),
        single_named(s.t, ino),
        is_least(|i: u64| remote_id(s.t, i) == Some(ch.id@), ino),
        !edit_kept(s.t, ch.path@, ch.updated_at@),
        !keeps_local_edit(s.t, ino, ch.updated_at@),
    ensures
        ({
            let gone = Err::<BrainDocument, ApiError>(ApiError::NotFound);
            let (after, r) = change_fetched(s, uid, gid, ch, gone, now, now_ms);
            &&& r == Ok::<bool, Seq<char>>(true)
            &&& file_gone(after.t, ino, dentry_of(s.t, ino)->0)
        }),
{
    lemma_least(|i: u64| remote_id(s.t, i) == Some(ch.id@), Some(ino));
    lemma_deletion_removes(s, ch.id@, ino);
}

/// A fetch that failed changes nothing and is reported, so that the change is
/// asked for again.
pub proof fn law_failed_fetch_is_reported(
    s: FsState,
    uid: u32,
    gid: u32,
    ch: ChangeEntry,
    e: ApiError,
    now: Timestamp,
    now_ms: i64,
)
    requires
        e != ApiError::NotFound,
        !edit_kept(s.t, ch.path@, ch.updated_at@),
    ensures
        change_fetched(s, uid, gid, ch, Err::<BrainDocument, ApiError>(e), now, now_ms).0 == s,
        change_fetched(s, uid, gid, ch, Err::<BrainDocument, ApiError>(e), now, now_ms).1 is Err,
{
}

/// A version that is cached already is on record as it was seen last: the record
/// has the id and the time of the change, and the hash stays.
pub proof fn law_echo_is_recorded(s: FsState, ch: ChangeEntry, now_ms: i64, ino: u64)
    requires
        !ch.deleted,
        ino_by_remote_path(s.t, ch.path@) == Some(ino),
        s.t.remotes.contains_key(ino),
        !keeps_local_edit(s.t, ino, ch.updated_at@),
        ch.content_hash is Some,
        remote_hash(s.t, ino) == opt_view(ch.content_hash),
    ensures
        ({
            let (after, plan) = change_planned(s, ch, now_ms);
            &&& plan == ChangePlan::Done(false)
            &&& remote_id(after.t, ino) == Some(ch.id@)
            &&& remote_hash(after.t, ino) == remote_hash(s.t, ino)
            &&& remote_path(after.t, ino) == remote_path(s.t, ino)
            &&& iso_ms(ch.updated_at@) is Some ==> after.t.remotes[ino].mirrored_updated_at
                == iso_ms(ch.updated_at@)
            &&& forall|o: u64|
                o != ino ==> #[trigger] after.t.remotes.get(o) == s.t.remotes.get(o)
            &&& after.t.queue == s.t.queue
            &&& after.t.meta == s.t.meta
        }),
{
}

/// Only a missing feed falls back to the list, only an expired cursor starts over,
/// and every other failure is reported as it is.
pub proof fn law_feed_failures(e: ApiErrorView)
    ensures
        feed_error(e) is NoChangesFeed <==> e is NotFound,
        feed_error(e) is ResyncRequired <==> (e matches ApiErrorView::Rejected(status, _) && status
            == 410),
        feed_error(e) matches PullErrorView::Other(text) ==> text.skip(
            text.len() - api_error_text(e).len(),
        ) == api_error_text(e),
{
    if let PullErrorView::Other(text) = feed_error(e) {
        assert(text.skip(text.len() - api_error_text(e).len()) =~= api_error_text(e));
    }
}

// ── Lists ───────────────────────────────────────────────────────────────────

/// A listed document is in the mount after it was reconciled, unless a local edit
/// of it is kept: then nothing changes.
pub proof fn law_listed_document_is_stored(
    s: FsState,
    uid: u32,
    gid: u32,
    doc: BrainDocument,
    now: Timestamp,
    now_ms: i64,
)
    requires
        sound(s.t),
        names_document(doc.path@),
        doc_bytes(doc).len() <= i64::MAX,
    ensures
        ({
            let (after, r) = doc_reconciled(s, uid, gid, doc, now, now_ms);
            if edit_kept(s.t, doc.path@, doc.updated_at@) {
                after == s && r == Ok::<bool, crate::vfs::error::VfsErrorView>(false)
            } else {
                &&& s.t.next_ino + components(doc.path@).len() <= MAX_INO ==> r is Ok
                &&& r is Ok ==> r->Ok_0 && mirrors(
                    after.t,
                    leads_to(after.t.dentries, components(doc.path@))->0,
                    doc.path@,
                    doc,
                    doc.id@,
                    opt_view(doc.content_hash),
                    doc.updated_at@,
                )
            }
        }),
{
    let body = super::pull::body_bytes(opt_view(doc.body_md));
    assert(body == doc_bytes(doc));
    law_upserted_doc_is_stored(s, doc.path@, body, uid, gid, now);
    if s.t.next_ino + components(doc.path@).len() <= MAX_INO {
        law_upsert_succeeds(s, doc.path@, body, uid, gid, now);
    }
    let (s1, r1) = doc_upserted(s, doc.path@, body, uid, gid, now);
    let (after, r) = doc_reconciled(s, uid, gid, doc, now, now_ms);
    if !edit_kept(s.t, doc.path@, doc.updated_at@) && r is Ok {
        let ino = r1->Ok_0;
        assert(after.t.chunks == s1.t.chunks);
        assert(mirrors(
            after.t,
            ino,
            doc.path@,
            doc,
            doc.id@,
            opt_view(doc.content_hash),
            doc.updated_at@,
        ));
    }
}

/// A list that is pulled in two parts is pulled as a whole.
pub proof fn law_lists_can_be_cut(
    start: ListPull,
    a: Seq<BrainDocument>,
    b: Seq<BrainDocument>,
    last_seen: Seq<char>,
    uid: u32,
    gid: u32,
    now: Timestamp,
    now_ms: i64,
)
    ensures
        listed(start, a + b, last_seen, uid, gid, now, now_ms) == listed(
            listed(start, a, last_seen, uid, gid, now, now_ms),
            b,
            last_seen,
            uid,
            gid,
            now,
            now_ms,
        ),
    decreases b.len(),
{
    if b.len() == 0 {
        assert(a + b =~= a);
    } else {
        law_lists_can_be_cut(start, a, b.drop_last(), last_seen, uid, gid, now, now_ms);
        assert((a + b).drop_last() =~= a + b.drop_last());
        assert((a + b).last() == b.last());
    }
}

/// A single document of a list is reconciled where it is newer than the watermark
/// or where there is none; otherwise nothing is done.
pub proof fn law_list_takes_what_is_newer(
    start: ListPull,
    doc: BrainDocument,
    last_seen: Seq<char>,
    uid: u32,
    gid: u32,
    now: Timestamp,
    now_ms: i64,
)
    requires
        start.error is None,
    ensures
        ({
            let p = listed(start, seq![doc], last_seen, uid, gid, now, now_ms);
            let (s, r) = doc_reconciled(start.s, uid, gid, doc, now, now_ms);
            if last_seen.len() == 0 || text_lt(last_seen, doc.updated_at@) {
                &&& p.s == s
                &&& p.error is Some <==> r is Err
                &&& r is Ok ==> p.reconciled - start.reconciled == (if r->Ok_0 {
                    1int
                } else {
                    0
                })
                &&& r is Err ==> p.reconciled == start.reconciled && p.newest == start.newest
            } else {
                p == start
            }
        }),
{
    assert(seq![doc].drop_last() =~= Seq::empty());
    assert(seq![doc].last() == doc);
    assert(listed(start, seq![doc].drop_last(), last_seen, uid, gid, now, now_ms) == start);
}

/// The newest time that a pull of a list saw is no older than that of any of its
/// documents that is newer than the watermark, and it is one of them or the one
/// that it started from.
pub proof fn law_newest_is_the_newest(
    start: ListPull,
    docs: Seq<BrainDocument>,
    last_seen: Seq<char>,
    uid: u32,
    gid: u32,
    now: Timestamp,
    now_ms: i64,
)
    requires
        start.error is None,
        listed(start, docs, last_seen, uid, gid, now, now_ms).error is None,
    ensures
        ({
            let p = listed(start, docs, last_seen, uid, gid, now, now_ms);
            &&& forall|i: int|
                0 <= i < docs.len() && (last_seen.len() == 0 || text_lt(
                    last_seen,
                    (#[trigger] docs[i]).updated_at@,
                )) ==> !text_lt(p.newest, docs[i].updated_at@)
            &&& !text_lt(p.newest, start.newest)
            &&& p.newest == start.newest || exists|i: int|
                0 <= i < docs.len() && (#[trigger] docs[i]).updated_at@ == p.newest
            &&& p.reconciled - start.reconciled <= docs.len()
        }),
    decreases docs.len(),
{
    let p = listed(start, docs, last_seen, uid, gid, now, now_ms);
    if docs.len() > 0 {
        let front = docs.drop_last();
        let f = listed(start, front, last_seen, uid, gid, now, now_ms);
        law_newest_is_the_newest(start, front, last_seen, uid, gid, now, now_ms);
        let u = docs.last().updated_at@;
        crate::text::lemma_text_order(p.newest, u);
        crate::text::lemma_text_order(f.newest, u);
        assert forall|i: int|
            0 <= i < docs.len() && (last_seen.len() == 0 || text_lt(
                last_seen,
                (#[trigger] docs[i]).updated_at@,
            )) implies !text_lt(p.newest, docs[i].updated_at@) by {
            if i < front.len() {
                assert(front[i] == docs[i]);
                if text_lt(f.newest, u) && text_lt(p.newest, docs[i].updated_at@) {
                    crate::text::lemma_text_order_trans(f.newest, u, docs[i].updated_at@);
                }
            }
        }
        if text_lt(f.newest, u) && text_lt(u, start.newest) {
            crate::text::lemma_text_order_trans(f.newest, u, start.newest);
        }
        if p.newest == f.newest && f.newest != start.newest {
            let i = choose|i: int|
                0 <= i < front.len() && (#[trigger] front[i]).updated_at@ == f.newest;
            assert(docs[i].updated_at@ == p.newest);
        } else if p.newest != f.newest {
            assert(docs[docs.len() - 1].updated_at@ == p.newest);
        }
    } else {
        crate::text::lemma_text_order(start.newest, start.newest);
    }
}

/// The end of a list pull moves the watermark to the newest time that was seen,
/// where it is to move, and records when the pull was. Nothing else changes.
pub proof fn law_list_pull_is_recorded(t: Tables, newest: Seq<char>, moved: bool, now_ms: i64)
    ensures
        ({
            let after = list_pull_ended(t, newest, moved, now_ms);
            &&& watermark(after) == (if moved {
                newest
            } else {
                watermark(t)
            })
            &&& after.meta.contains_key(SYNC_META_LAST_PULL_AT@) && text_i64(
                after.meta[SYNC_META_LAST_PULL_AT@],
            ) == Some(now_ms)
            &&& after.meta.get(SYNC_META_CHANGES_CURSOR@) == t.meta.get(SYNC_META_CHANGES_CURSOR@)
            &&& after.inodes == t.inodes && after.dentries == t.dentries && after.chunks
                == t.chunks && after.remotes == t.remotes && after.queue == t.queue
        }),
{
    lemma_keys_differ();
    crate::text::law_int_text_round_trip(now_ms);
    assert(SYNC_META_LAST_SEEN@ != SYNC_META_LAST_PULL_AT@) by {
        reveal_strlit("last_pull_at");
        reveal_strlit("last_seen_updated_at");
        assert(SYNC_META_LAST_PULL_AT@.len() == 12);
        assert(SYNC_META_LAST_SEEN@.len() == 20);
    }
}

/// A bootstrap that ended has persisted the cursor that it came to and when it
/// was. A file whose document was seen, or that has none, is as it was.
pub proof fn law_bootstrap_is_recorded(s: FsState, b: BootstrapView, now_ms: i64, ino: u64)
    requires
        s.t.dentries.dom().finite(),
    ensures
        ({
            let after = bootstrapped(s, b, now_ms).t;
            &&& after.meta.get(SYNC_META_CHANGES_CURSOR@) == (match b.since {
                Some(c) => Some(c),
                None => s.t.meta.get(SYNC_META_CHANGES_CURSOR@),
            })
            &&& after.meta.contains_key(SYNC_META_LAST_PULL_AT@) && text_i64(
                after.meta[SYNC_META_LAST_PULL_AT@],
            ) == Some(now_ms)
            &&& (remote_id(s.t, ino) matches Some(id) ==> b.seen.contains(id)) ==> same_file(
                s.t,
                after,
                ino,
            )
        }),
{
    lemma_keys_differ();
    crate::text::law_int_text_round_trip(now_ms);
    lemma_prune_keeps_meta(s, all_remote_ids(s.t), b.seen);
    if remote_id(s.t, ino) matches Some(id) ==> b.seen.contains(id) {
        super::pull::law_prune_keeps_what_was_seen(s, b.seen, ino);
        let mid = super::pull::pruned(s, all_remote_ids(s.t), b.seen).0.t;
        let after = bootstrapped(s, b, now_ms).t;
        assert forall|i: u64| #[trigger] after.chunks.get((ino, i)) == s.t.chunks.get((ino, i)) by {
            assert(mid.chunks.get((ino, i)) == s.t.chunks.get((ino, i)));
        }
        assert forall|d: (u64, Seq<char>)| #[trigger]
            after.dentries.contains_pair(d, ino) == s.t.dentries.contains_pair(d, ino) by {
            assert(mid.dentries.contains_pair(d, ino) == s.t.dentries.contains_pair(d, ino));
        }
    }
}

/// The ids that a deletion scan goes by are those of the listed documents.
pub proof fn law_scanned_ids_are_listed(docs: Seq<BrainDocument>, id: Seq<char>)
    ensures
        doc_ids(docs).contains(id) <==> exists|i: int|
            0 <= i < docs.len() && (#[trigger] docs[i]).id@ == id,
        doc_ids(docs).finite(),
        doc_ids(docs).len() <= docs.len(),
    decreases docs.len(),
{
    if docs.len() > 0 {
        let front = docs.drop_last();
        law_scanned_ids_are_listed(front, id);
        if doc_ids(front).contains(id) {
            let i = choose|i: int| 0 <= i < front.len() && (#[trigger] front[i]).id@ == id;
            assert(docs[i].id@ == id);
        }
        if docs.last().id@ == id {
            assert(docs[docs.len() - 1].id@ == id);
        }
        if exists|i: int| 0 <= i < docs.len() && (#[trigger] docs[i]).id@ == id {
            let i = choose|i: int| 0 <= i < docs.len() && (#[trigger] docs[i]).id@ == id;
            if i < front.len() {
                assert(front[i].id@ == id);
            }
        }
    }
}

// ── Steps ───────────────────────────────────────────────────────────────────

/// The changes that were dealt with, in either kind of pull.
pub open spec fn counted(v: PullView) -> nat {
    match v.boot {
        Some(b) => b.reconciled,
        None => v.reconciled,
    }
}

/// A page that arrived is gone through from its first change on. Nothing is applied
/// or counted before its turn.
pub proof fn law_page_begins_at_its_front(
    v: PullView,
    s: FsState,
    owner: (u32, u32),
    page: ChangesResp,
    now: Timestamp,
    now_ms: i64,
)
    requires
        page.changes@.len() > 0,
    ensures
        ({
            let got = PullGot::Page(Ok::<ChangesResp, ApiError>(page));
            let (v1, s1, want) = stepped(v, s, owner, got, now, now_ms);
            &&& want is Turn && v1.stage == Stage::Turn
            &&& s1 == s
            &&& v1.changes == page.changes@ && v1.at == 0
            &&& v1.next_cursor == opt_view(page.next_cursor) && v1.has_more == page.has_more
            &&& counted(v1) == counted(v) && v1.boot is Some == v.boot is Some
            &&& v.boot is Some ==> v1.boot->0.seen == v.boot->0.seen && v1.boot->0.page
                == v.boot->0.page + 1
        }),
{
}

/// A change whose body is needed has its own document asked for, and is not passed
/// over meanwhile.
pub proof fn law_needed_body_is_asked_for(
    v: PullView,
    s: FsState,
    owner: (u32, u32),
    now: Timestamp,
    now_ms: i64,
)
    requires
        v.at < v.changes.len(),
        change_planned(s, v.changes[v.at as int], now_ms).1 is Fetch,
    ensures
        ({
            let ch = v.changes[v.at as int];
            let (v1, s1, want) = stepped(v, s, owner, PullGot::Turn, now, now_ms);
            &&& want == PullWantView::Doc(ch.path@) && v1.stage == Stage::Doc
            &&& v1.at == v.at && v1.changes == v.changes && counted(v1) == counted(v)
            &&& s1 == change_planned(s, ch, now_ms).0
            &&& v.boot is Some ==> v1.boot->0.seen.contains(ch.id@) == (v.boot->0.seen.contains(
                ch.id@,
            ) || !ch.deleted)
        }),
{
}

/// A change that is through is counted where it changed local state, and the next
/// one of the page has its turn, if there is one.
pub proof fn law_changes_take_turns(
    v: PullView,
    s: FsState,
    owner: (u32, u32),
    got: PullGot,
    now: Timestamp,
    now_ms: i64,
)
    requires
        v.at + 1 < v.changes.len(),
        got is Turn || got is Doc,
    ensures
        ({
            let ch = v.changes[v.at as int];
            let (v1, s1, want) = stepped(v, s, owner, got, now, now_ms);
            match got {
                PullGot::Turn => match change_planned(s, ch, now_ms).1 {
                    ChangePlan::Done(counts) => went_on(v, v1, ch, counts) && want is Turn && s1
                        == change_planned(s, ch, now_ms).0 && (v.boot is Some ==> v1.boot->0.seen
                        == (if ch.deleted {
                        v.boot->0.seen
                    } else {
                        v.boot->0.seen.insert(ch.id@)
                    })),
                    ChangePlan::Fetch => v1.at == v.at,
                },
                PullGot::Doc(reply) => {
                    let (fetched, r) = change_fetched(s, owner.0, owner.1, ch, reply, now, now_ms);
                    s1 == fetched && match r {
                        Ok(counts) => went_on(v, v1, ch, counts) && want is Turn && (v.boot is Some
                            ==> v1.boot->0.seen == v.boot->0.seen),
                        Err(e) => want == PullWantView::Done(Err(e)) && v1.at == v.at,
                    }
                },
                _ => false,
            }
        }),
{
}

/// The pull is one change further.
pub open spec fn went_on(v: PullView, v1: PullView, ch: ChangeEntry, counts: bool) -> bool {
    &&& v1.at == v.at + 1
    &&& v1.changes == v.changes
    &&& v1.stage == Stage::Turn
    &&& v1.next_cursor == v.next_cursor && v1.has_more == v.has_more
    &&& counted(v1) == counted(v) + (if counts {
        1int
    } else {
        0
    })
}

/// Behind the last change of a page the next page is asked for with the cursor
/// that the page came with, as long as there is more. Otherwise the pull ends with
/// what was counted, and is on record with its cursor.
pub proof fn law_page_leads_to_the_next(v: PullView, s: FsState, now_ms: i64)
    requires
        v.at == v.changes.len(),
        s.t.dentries.dom().finite(),
    ensures
        ({
            let (v1, s1, want) = next_turn(v, s, now_ms);
            if v.has_more && v.next_cursor is Some {
                &&& want == PullWantView::Page(v.next_cursor) && v1.stage == Stage::Page
                &&& counted(v1) == counted(v)
                &&& s1.t.inodes == s.t.inodes && s1.t.chunks == s.t.chunks && s1.t.dentries
                    == s.t.dentries && s1.t.remotes == s.t.remotes && s1.t.queue == s.t.queue
            } else {
                &&& want == PullWantView::Done(Ok::<nat, Seq<char>>(counted(v))) && v1.stage
                    == Stage::Ended
                &&& v.next_cursor is Some ==> s1.t.meta.get(SYNC_META_CHANGES_CURSOR@)
                    == v.next_cursor
                &&& s1.t.meta.contains_key(SYNC_META_LAST_PULL_AT@) && text_i64(
                    s1.t.meta[SYNC_META_LAST_PULL_AT@],
                ) == Some(now_ms)
            }
        }),
{
    lemma_keys_differ();
    crate::text::law_int_text_round_trip(now_ms);
    if let Some(b) = v.boot {
        let b1 = BootstrapView {
            since: match v.next_cursor {
                Some(c) => Some(c),
                None => b.since,
            },
            ..b
        };
        law_bootstrap_is_recorded(s, b1, now_ms, 0);
    }
}

/// A page that could not be had leaves everything as it is. Without a feed the full
/// list is asked for, with an expired cursor the pull starts over from nothing, and
/// any other failure ends it.
pub proof fn law_failed_page(
    v: PullView,
    s: FsState,
    owner: (u32, u32),
    e: ApiError,
    now: Timestamp,
    now_ms: i64,
)
    ensures
        ({
            let got = PullGot::Page(Err::<ChangesResp, ApiError>(e));
            let (v1, s1, want) = stepped(v, s, owner, got, now, now_ms);
            &&& s1 == s
            &&& v.resync ==> (want matches PullWantView::Done(Err(_)))
            &&& !v.resync ==> match e@ {
                ApiErrorView::NotFound => want is List && v1.stage == Stage::List,
                ApiErrorView::Rejected(410, _) => want == PullWantView::Page(
                    None::<Seq<char>>,
                ) && v1.resync && v1.stage == Stage::Page && counted(v1) == 0
                    && (v1.boot matches Some(b) && b.seen == Set::<Seq<char>>::empty() && b.since
                    is None),
                _ => (want matches PullWantView::Done(Err(_))),
            }
        }),
{
}

/// A list that could not be had ends the pull with a failure and changes nothing.
pub proof fn law_failed_list(
    v: PullView,
    s: FsState,
    owner: (u32, u32),
    e: ApiError,
    now: Timestamp,
    now_ms: i64,
)
    ensures
        ({
            let got = PullGot::List(Err::<ListDocsResp, ApiError>(e));
            let (v1, s1, want) = stepped(v, s, owner, got, now, now_ms);
            s1 == s && (want matches PullWantView::Done(Err(_)))
        }),
{
}

/// A list that arrived is pulled: all of it at startup, and later what is newer
/// than the watermark. The pull ends with the number of documents that were
/// stored, and the watermark is where the newest of them was.
pub proof fn law_list_is_pulled(
    v: PullView,
    s: FsState,
    owner: (u32, u32),
    list: ListDocsResp,
    now: Timestamp,
    now_ms: i64,
)
    ensures
        ({
            let got = PullGot::List(Ok::<ListDocsResp, ApiError>(list));
            let (v1, s1, want) = stepped(v, s, owner, got, now, now_ms);
            let from = if v.full {
                Seq::empty()
            } else {
                watermark(s.t)
            };
            let p = listed(
                list_start(s, from),
                list.documents@,
                from,
                owner.0,
                owner.1,
                now,
                now_ms,
            );
            match p.error {
                Some(_) => s1 == p.s && (want matches PullWantView::Done(Err(_))),
                None => {
                    &&& want == PullWantView::Done(Ok::<nat, Seq<char>>(p.reconciled))
                    &&& p.newest.len() > 0 ==> watermark(s1.t) == p.newest
                    &&& s1.t.inodes == p.s.t.inodes && s1.t.chunks == p.s.t.chunks
                        && s1.t.dentries == p.s.t.dentries && s1.t.remotes == p.s.t.remotes
                    &&& s1.t.meta.contains_key(SYNC_META_LAST_PULL_AT@) && text_i64(
                        s1.t.meta[SYNC_META_LAST_PULL_AT@],
                    ) == Some(now_ms)
                },
            }
        }),
{
    let from = if v.full {
        Seq::empty()
    } else {
        watermark(s.t)
    };
    let p = listed(list_start(s, from), list.documents@, from, owner.0, owner.1, now, now_ms);
    super::puller::lemma_list_keeps_meta(
        list_start(s, from),
        list.documents@,
        from,
        owner.0,
        owner.1,
        now,
        now_ms,
    );
    law_list_pull_is_recorded(
        p.s.t,
        p.newest,
        p.newest.len() > 0 && (v.full || p.newest != from),
        now_ms,
    );
}

} // verus!
