//! Pulls, pushes, scans and the event stream.

use unisonfs::api::dto::{BrainDocument, ChangeEntry, ChangesResp, ListDocsResp};
use unisonfs::api::error::ApiError;
use unisonfs::cache::db::Db;
use unisonfs::cache::file::DbFile;
use unisonfs::cache::fs::{FileHandle, UnisonFs};
use unisonfs::cache::queue::{PushJob, PushOp};
use unisonfs::sync::iso::parse_iso8601_ms;
use unisonfs::sync::options::{
    jittered, jittered_by, poll_interval, rewarm_due, SyncEngine, SyncOptions,
};
use unisonfs::sync::pull::{
    bootstrap_fallback, cursor_fallback, delta_start, end_delta_page, finish_change,
    legacy_delta_pull, legacy_full_pull, map_changes_err, plan_change, pull_err, Bootstrap,
    ChangePlan, DeltaStart, PullError, PullFallback,
};
use unisonfs::sync::puller::{Pull, PullGot, PullWant};
use unisonfs::sync::push::{
    advance_push, backoff, drain_step, extract_title, finish_push, import_request, new_path,
    next_push, start_push, DrainStep, PushCall, PushNext, PushPhase, PushReply, PushStep,
};
use unisonfs::sync::scan::{deletion_scan, scan_request};
use unisonfs::sync::stream::{
    event_name, find_event_boundary, EventBuffer, StreamAction, StreamEnd, StreamEvent, StreamLoop,
};
use unisonfs::vfs::types::Timestamp;

fn online() -> UnisonFs {
    UnisonFs::with_api(Db::open_in_memory().unwrap(), 1, 2)
}

fn doc(id: &str, path: &str, body: &str, updated_at: &str, hash: Option<&str>) -> BrainDocument {
    BrainDocument {
        id: id.to_string(),
        path: path.to_string(),
        title: None,
        tldr: None,
        kind: None,
        body_md: Some(body.to_string()),
        tags: None,
        visibility: None,
        created_at: updated_at.to_string(),
        updated_at: updated_at.to_string(),
        content_hash: hash.map(String::from),
    }
}

fn change(id: &str, path: &str, updated_at: &str, hash: Option<&str>, deleted: bool) -> ChangeEntry {
    ChangeEntry {
        id: id.to_string(),
        path: path.to_string(),
        updated_at: updated_at.to_string(),
        content_hash: hash.map(String::from),
        deleted,
    }
}

// ── Times ───────────────────────────────────────────────────────────────────

#[test]
fn parses_json_iso_shape() {
    let ms = parse_iso8601_ms("2026-07-03T12:00:00.123Z").unwrap();
    assert_eq!(ms % 1000, 0);
    assert!(ms > 1_780_000_000_000);
}

#[test]
fn parses_pg_text_shape() {
    let a = parse_iso8601_ms("2026-07-03 12:00:00.123456+00").unwrap();
    let b = parse_iso8601_ms("2026-07-03T12:00:00Z").unwrap();
    assert_eq!(a, b);
}

#[test]
fn parses_no_fraction_with_offset() {
    assert!(parse_iso8601_ms("2026-07-03 12:00:00+00").is_ok());
}

#[test]
fn rejects_garbage() {
    assert!(parse_iso8601_ms("not a date").is_err());
    assert!(parse_iso8601_ms("2026-07-03").is_err());
}

#[test]
fn known_times() {
    assert_eq!(parse_iso8601_ms("1970-01-01T00:00:00Z"), Ok(0));
    assert_eq!(parse_iso8601_ms("2000-03-01T00:00:00Z"), Ok(951_868_800_000));
    assert_eq!(parse_iso8601_ms("2024-02-29T23:59:59Z"), Ok(1_709_251_199_000));
    assert_eq!(parse_iso8601_ms("2026-07-03T12:00:00Z"), Ok(1_783_080_000_000));
}

// ── Event stream ────────────────────────────────────────────────────────────

#[test]
fn parses_event_name() {
    assert_eq!(event_name(b"event: changed\ndata: {}\n\n").as_deref(), Some("changed"));
    assert_eq!(event_name(b"event:hello\ndata: {}\n\n").as_deref(), Some("hello"));
    assert_eq!(event_name(b": hb\n\n"), None);
    assert_eq!(event_name(b"data: {}\n\n"), None);
}

#[test]
fn finds_boundaries_incrementally() {
    let mut buf = b"event: changed\ndata: {}".to_vec();
    assert!(find_event_boundary(&buf).is_none());
    buf.extend_from_slice(b"\n\n: hb\n\n");
    let pos = find_event_boundary(&buf).unwrap();
    let first: Vec<u8> = buf.drain(..pos + 2).collect();
    assert_eq!(event_name(&first).as_deref(), Some("changed"));
    assert!(find_event_boundary(&buf).is_some());
}

#[test]
fn events_survive_any_cut() {
    let stream = b"event: changed\ndata: 1\n\n: hb\n\nevent: changed\ndata: 2\n\nevent: x\n\n";
    for cut in 0..stream.len() {
        let mut b = EventBuffer::new();
        let n = b.feed(&stream[..cut]) + b.feed(&stream[cut..]);
        assert_eq!(n, 2, "cut at {cut}");
    }
    let mut b = EventBuffer::new();
    let n: usize = stream.iter().map(|x| b.feed(&[*x])).sum();
    assert_eq!(n, 2);
}

#[test]
fn event_bytes_that_are_no_text_are_ignored() {
    assert_eq!(event_name(b"event: \xff\xfe\n\n"), None);
}

#[test]
fn the_stream_reconnects_with_backoff() {
    let mut l = StreamLoop::new();
    let mut waits = Vec::new();
    for _ in 0..8 {
        match l.step(StreamEvent::Failed) {
            StreamAction::Reconnect(s) => waits.push(s),
            other => panic!("{other:?}"),
        }
    }
    assert_eq!(waits, vec![1, 2, 4, 8, 16, 32, 60, 60]);
    assert_eq!(l.step(StreamEvent::Connected), StreamAction::Listen);
    assert_eq!(l.step(StreamEvent::Ended(StreamEnd::Idle)), StreamAction::Reconnect(1));
    assert_eq!(l.step(StreamEvent::Ended(StreamEnd::Shutdown)), StreamAction::Stop);
    assert_eq!(l.step(StreamEvent::NoRoute), StreamAction::Stop);
}

// ── Options ─────────────────────────────────────────────────────────────────

#[test]
fn options_and_intervals() {
    let o = SyncOptions::default();
    assert_eq!((o.delta_interval, o.deletion_scan_interval), (15, 6 * 60 * 60));
    assert!(o.pull_enabled);
    assert_eq!(poll_interval(15, false), 15);
    assert_eq!(poll_interval(15, true), 300);
    assert_eq!(poll_interval(900, true), 900);
    assert_eq!(jittered_by(15, 2, 0), 13);
    assert_eq!(jittered_by(15, 2, 4), 17);
    assert_eq!(jittered_by(1, 2, 0), 1);
    let j = jittered(15, 2);
    assert!((13..=17).contains(&j));
    assert!(rewarm_due(None, 0));
    assert!(!rewarm_due(Some(1_000), 30_999));
    assert!(rewarm_due(Some(1_000), 31_000));
}

#[test]
fn writes_are_pushed_even_without_pulls() {
    let off = SyncOptions { pull_enabled: false, ..SyncOptions::default() };
    let t = SyncEngine::start(&off, true);
    assert!(t.push && !t.delta && !t.stream && !t.deletion && !t.hydration);
    let t = SyncEngine::start(&SyncOptions::default(), false);
    assert!(t.push && t.delta && !t.stream && t.deletion && t.hydration);
    let mut fs = online();
    assert!(!SyncEngine::scans_first(&fs));
    fs.upsert_brain_doc("/private/a.md", b"a").unwrap();
    assert!(SyncEngine::scans_first(&fs));
}

// ── Pull ────────────────────────────────────────────────────────────────────

#[test]
fn feed_errors_decide_the_fallback() {
    assert!(matches!(map_changes_err(ApiError::NotFound), PullError::NoChangesFeed));
    let gone = ApiError::Rejected { status: 410, body: String::new() };
    assert!(matches!(map_changes_err(gone), PullError::ResyncRequired));
    let other = map_changes_err(ApiError::RateLimited);
    assert_eq!(
        pull_err(other),
        "changes feed failed: rate limited — retry after backoff"
    );
    assert_eq!(pull_err(PullError::NoChangesFeed), "changes feed unavailable");
    assert_eq!(pull_err(PullError::ResyncRequired), "changes cursor expired");
    assert!(matches!(cursor_fallback(PullError::ResyncRequired), PullFallback::Bootstrap));
    assert!(matches!(cursor_fallback(PullError::NoChangesFeed), PullFallback::Legacy));
    assert!(matches!(
        cursor_fallback(PullError::Other("e".to_string())),
        PullFallback::Fail(s) if s == "e"
    ));
    assert!(matches!(bootstrap_fallback(PullError::NoChangesFeed), PullFallback::Legacy));
}

const EARLY: &str = "2026-07-01T00:00:00Z";
const LATE: &str = "2026-07-03T12:00:00Z";

#[test]
fn changes_are_fetched_and_stored() {
    let mut fs = online();
    let ch = change("d1", "/private/a.md", LATE, Some("h1"), false);
    assert_eq!(plan_change(&mut fs, &ch, 5), ChangePlan::Fetch);
    let reply = Ok(doc("d1", "/private/a.md", "hello", LATE, Some("h1")));
    let done = finish_change(&mut fs, &ch, &reply, Timestamp::zero(), 5).unwrap();
    assert!(done.changed);
    let ino = fs.db().ino_by_remote_path("/private/a.md").unwrap();
    assert_eq!(fs.db().read_all_content(ino), b"hello");
    assert_eq!(fs.db().ino_for_remote_id("d1"), Some(ino));
    assert_eq!(fs.db().remote_content_hash(ino).as_deref(), Some("h1"));
    assert_eq!(fs.db().get_dirty_since(ino), None);
    // The same version again is an echo.
    assert_eq!(plan_change(&mut fs, &ch, 6), ChangePlan::Done(false));
    // A tombstone removes it.
    let dead = change("d1", "/private/a.md", LATE, None, true);
    assert_eq!(plan_change(&mut fs, &dead, 7), ChangePlan::Done(true));
    assert_eq!(plan_change(&mut fs, &dead, 8), ChangePlan::Done(false));
    assert_eq!(fs.db().ino_by_remote_path("/private/a.md"), None);
}

#[test]
fn newer_local_edits_are_kept() {
    let mut fs = online();
    let ino = fs.upsert_brain_doc("/private/e.md", b"local").unwrap();
    let ch = change("e", "/private/e.md", EARLY, Some("new"), false);
    fs.db_mut().set_dirty_since(ino, Some(1_783_080_000_000));
    assert_eq!(plan_change(&mut fs, &ch, 5), ChangePlan::Done(false));
    let later = change("e", "/private/e.md", "2027-01-01T00:00:00Z", Some("new"), false);
    assert_eq!(plan_change(&mut fs, &later, 5), ChangePlan::Fetch);
    let unreadable = change("e", "/private/e.md", "soon", Some("new"), false);
    assert_eq!(plan_change(&mut fs, &unreadable, 5), ChangePlan::Done(false));
    assert_eq!(fs.db().read_all_content(ino), b"local");
}

/// An edit that is made while a body is on its way is kept when it arrives.
#[test]
fn edits_during_a_fetch_are_kept() {
    let late = parse_iso8601_ms(LATE).unwrap();
    let ch = change("e", "/private/e.md", LATE, Some("new"), false);
    let replies = [
        Ok(doc("e", "/private/e.md", "theirs", LATE, Some("new"))),
        Err(ApiError::NotFound),
        Err(ApiError::RateLimited),
    ];
    for reply in replies {
        let mut fs = online();
        let ino = fs.upsert_brain_doc("/private/e.md", b"old").unwrap();
        fs.db_mut().set_remote_id(ino, "e");
        assert_eq!(plan_change(&mut fs, &ch, 5), ChangePlan::Fetch);
        let file = FileHandle::File(DbFile::new(ino));
        file.write_at(&mut fs, 0, b"mine", Timestamp::zero(), late).unwrap();
        let done = finish_change(&mut fs, &ch, &reply, Timestamp::zero(), 6).unwrap();
        assert!(!done.changed && done.inval.is_none());
        assert_eq!(fs.db().read_all_content(ino), b"mine");
        assert_eq!(fs.db().get_dirty_since(ino), Some(late));
        // An edit that is older than the change is not kept.
        fs.db_mut().set_dirty_since(ino, Some(late - 1));
        if reply.is_ok() {
            assert!(finish_change(&mut fs, &ch, &reply, Timestamp::zero(), 6).unwrap().changed);
            assert_eq!(fs.db().read_all_content(ino), b"theirs");
            assert_eq!(fs.db().get_dirty_since(ino), None);
        }
    }
}

/// A document that moved away and is gone by the time it is fetched takes no
/// edit with it.
#[test]
fn missing_documents_keep_newer_edits() {
    let late = parse_iso8601_ms(LATE).unwrap();
    let mut fs = online();
    let ino = fs.upsert_brain_doc("/private/here.md", b"mine").unwrap();
    fs.db_mut().set_remote_id(ino, "m");
    fs.db_mut().set_dirty_since(ino, Some(late));
    let ch = change("m", "/private/there.md", LATE, None, false);
    assert_eq!(plan_change(&mut fs, &ch, 5), ChangePlan::Fetch);
    let gone = Err(ApiError::NotFound);
    assert!(!finish_change(&mut fs, &ch, &gone, Timestamp::zero(), 6).unwrap().changed);
    assert_eq!(fs.db().read_all_content(ino), b"mine");
    fs.db_mut().set_dirty_since(ino, Some(late - 1));
    assert!(finish_change(&mut fs, &ch, &gone, Timestamp::zero(), 7).unwrap().changed);
    assert_eq!(fs.getattr(ino).unwrap(), None);
}

#[test]
fn cursors_are_persisted_page_by_page() {
    let mut db = Db::open_in_memory().unwrap();
    assert!(matches!(delta_start(&db), DeltaStart::Bootstrap));
    let next = end_delta_page(&mut db, Some("c2".to_string()), true);
    assert_eq!(next.as_deref(), Some("c2"));
    assert!(matches!(delta_start(&db), DeltaStart::From(c) if c == "c2"));
    assert_eq!(end_delta_page(&mut db, Some("c3".to_string()), false), None);
    assert!(matches!(delta_start(&db), DeltaStart::From(c) if c == "c3"));
}

#[test]
fn a_bootstrap_prunes_what_it_has_not_seen() {
    let mut fs = online();
    let old = fs.upsert_brain_doc("/private/old.md", b"old").unwrap();
    fs.db_mut().set_remote_id(old, "old");
    let kept = fs.upsert_brain_doc("/private/kept.md", b"kept").unwrap();
    fs.db_mut().set_remote_id(kept, "kept");
    let mut b = Bootstrap::new();
    assert_eq!(b.cursor(), None);
    b.start_page();
    b.saw(&change("kept", "/private/kept.md", LATE, None, false));
    b.applied(true);
    let p = b.progress(true);
    assert_eq!((p.page, p.total_pages, p.total_items, p.reconciled), (1, 2, 1, 1));
    assert!(!b.end_page(Some("c9".to_string()), false));
    assert_eq!(b.finish(&mut fs, 77), 1);
    assert_eq!(fs.getattr(old).unwrap(), None);
    assert!(fs.getattr(kept).unwrap().is_some());
    assert!(matches!(delta_start(fs.db()), DeltaStart::From(c) if c == "c9"));
    assert_eq!(fs.db().sync_meta_get("last_pull_at").as_deref(), Some("77"));
}

#[test]
fn list_pulls_move_the_watermark() {
    let mut fs = online();
    let docs = vec![
        doc("a", "/private/a.md", "A", EARLY, None),
        doc("b", "/private/b.md", "B", LATE, None),
    ];
    assert_eq!(legacy_full_pull(&mut fs, &docs, Timestamp::zero(), 1).unwrap(), 2);
    assert_eq!(fs.db().sync_meta_get("last_seen_updated_at").as_deref(), Some(LATE));
    // Nothing is newer than the watermark.
    assert_eq!(legacy_delta_pull(&mut fs, &docs, Timestamp::zero(), 2).unwrap(), 0);
    let newer = vec![doc("c", "/private/c.md", "C", "2026-08-01T00:00:00Z", None)];
    assert_eq!(legacy_delta_pull(&mut fs, &newer, Timestamp::zero(), 3).unwrap(), 1);
    let ino = fs.db().ino_by_remote_path("/private/c.md").unwrap();
    assert_eq!(fs.db().read_all_content(ino), b"C");
}

#[test]
fn deletion_scans_remove_what_is_gone() {
    // A list that was cut short would remove what it leaves out.
    let all = scan_request();
    assert_eq!((all.prefix, all.kind.len(), all.tag.len(), all.limit), (None, 0, 0, None));
    let mut fs = online();
    for id in ["x", "y"] {
        let ino = fs.upsert_brain_doc(&format!("/private/{id}.md"), b"1").unwrap();
        fs.db_mut().set_remote_id(ino, id);
    }
    let docs = vec![doc("x", "/private/x.md", "1", LATE, None)];
    let (removed, progress) = deletion_scan(&mut fs, &docs);
    assert_eq!(removed, 1);
    assert_eq!((progress.page, progress.total_pages, progress.remote_seen), (1, 1, 1));
    let x = fs.db().ino_by_remote_path("/private/x.md").unwrap();
    assert_eq!(fs.db().read_all_content(x), b"1".to_vec());
    assert_eq!(fs.db().ino_for_remote_id("x"), Some(x));
    assert!(fs.db().ino_by_remote_path("/private/y.md").is_none());
    assert!(fs.db().ino_for_remote_id("y").is_none());
    let dir = fs.lookup(1, "private").unwrap().unwrap().ino;
    assert_eq!(fs.readdir(dir).unwrap().unwrap(), vec!["x.md".to_string()]);
    assert_eq!(fs.lookup(dir, "y.md").unwrap(), None);
}

#[test]
fn lists_keep_newer_local_edits() {
    let mut fs = online();
    let ino = fs.upsert_brain_doc("/private/k.md", b"mine").unwrap();
    let late = parse_iso8601_ms(LATE).unwrap();
    let docs = vec![doc("k", "/private/k.md", "theirs", LATE, None)];
    fs.db_mut().set_dirty_since(ino, Some(late));
    assert_eq!(legacy_full_pull(&mut fs, &docs, Timestamp::zero(), 1).unwrap(), 0);
    assert_eq!(fs.db().read_all_content(ino), b"mine".to_vec());
    // A document whose time cannot be read replaces no edit.
    let undated = vec![doc("k", "/private/k.md", "theirs", "soon", None)];
    assert_eq!(legacy_full_pull(&mut fs, &undated, Timestamp::zero(), 1).unwrap(), 0);
    assert_eq!(fs.db().read_all_content(ino), b"mine".to_vec());
    fs.db_mut().set_dirty_since(ino, Some(late - 1));
    assert_eq!(legacy_full_pull(&mut fs, &docs, Timestamp::zero(), 1).unwrap(), 1);
    assert_eq!(fs.db().read_all_content(ino), b"theirs".to_vec());
    // The file is clean now.
    let again = vec![doc("k", "/private/k.md", "again", "soon", None)];
    assert_eq!(legacy_full_pull(&mut fs, &again, Timestamp::zero(), 1).unwrap(), 1);
    assert_eq!(fs.db().read_all_content(ino), b"again".to_vec());
}

// ── Whole pulls ─────────────────────────────────────────────────────────────

fn page(changes: Vec<ChangeEntry>, next: Option<&str>, has_more: bool) -> PullGot {
    PullGot::Page(Ok(ChangesResp {
        changes,
        next_cursor: next.map(String::from),
        has_more,
    }))
}

fn step(pull: &mut Pull, fs: &mut UnisonFs, got: PullGot) -> PullWant {
    pull.step(fs, got, Timestamp::from_secs(1), 1_000).want
}

#[test]
fn a_first_pull_goes_through_the_feed_and_prunes() {
    let mut fs = online();
    let old = fs.upsert_brain_doc("/private/old.md", b"x").unwrap();
    fs.db_mut().set_remote_id(old, "gone");
    let (mut pull, want) = Pull::start(&fs, false);
    assert_eq!(want, PullWant::Page(None));
    let a = change("a", "/private/a.md", LATE, Some("h"), false);
    assert_eq!(step(&mut pull, &mut fs, page(vec![a], Some("c1"), true)), PullWant::Turn);
    assert_eq!(
        step(&mut pull, &mut fs, PullGot::Turn),
        PullWant::Doc("/private/a.md".to_string())
    );
    let got = PullGot::Doc(Ok(doc("a", "/private/a.md", "body", LATE, Some("h"))));
    let taken = pull.step(&mut fs, got, Timestamp::from_secs(1), 1_000);
    assert_eq!(taken.want, PullWant::Page(Some("c1".to_string())));
    let ino = fs.db().ino_by_remote_path("/private/a.md").unwrap();
    assert_eq!(taken.inval.map(|x| x.0), Some(ino));
    // Nothing is pruned or persisted before the last page.
    assert!(fs.db().ino_by_remote_path("/private/old.md").is_some());
    assert_eq!(fs.db().sync_meta_get("changes_cursor"), None);
    let p = pull.progress().unwrap();
    assert_eq!((p.page, p.total_pages, p.total_items, p.reconciled), (1, 2, 1, 1));

    assert_eq!(step(&mut pull, &mut fs, page(vec![], Some("c2"), false)), PullWant::Done(Ok(1)));
    assert!(fs.db().ino_by_remote_path("/private/old.md").is_none());
    assert_eq!(fs.db().sync_meta_get("changes_cursor").as_deref(), Some("c2"));
    assert_eq!(fs.db().sync_meta_get("last_pull_at").as_deref(), Some("1000"));
}

#[test]
fn a_page_that_fails_is_delivered_again() {
    let mut fs = online();
    fs.db_mut().sync_meta_set("changes_cursor", "c0");
    let (mut pull, want) = Pull::start(&fs, false);
    assert_eq!(want, PullWant::Page(Some("c0".to_string())));
    let a = change("a", "/private/a.md", LATE, None, false);
    let b = change("b", "/private/b.md", LATE, None, false);
    step(&mut pull, &mut fs, page(vec![a, b], Some("c1"), false));
    step(&mut pull, &mut fs, PullGot::Turn);
    let body = PullGot::Doc(Ok(doc("a", "/private/a.md", "1", LATE, None)));
    assert_eq!(step(&mut pull, &mut fs, body), PullWant::Turn);
    step(&mut pull, &mut fs, PullGot::Turn);
    assert_eq!(
        step(&mut pull, &mut fs, PullGot::Doc(Err(ApiError::RateLimited))),
        PullWant::Done(Err(
            "fetch /private/b.md failed: rate limited — retry after backoff".to_string()
        ))
    );
    assert_eq!(fs.db().sync_meta_get("changes_cursor").as_deref(), Some("c0"));

    let (mut pull, _) = Pull::start(&fs, false);
    let b = change("b", "/private/b.md", LATE, None, false);
    step(&mut pull, &mut fs, page(vec![b], Some("c1"), false));
    step(&mut pull, &mut fs, PullGot::Turn);
    let gone = PullGot::Doc(Err(ApiError::NotFound));
    assert_eq!(step(&mut pull, &mut fs, gone), PullWant::Done(Ok(0)));
    assert_eq!(fs.db().sync_meta_get("changes_cursor").as_deref(), Some("c1"));
}

#[test]
fn an_expired_cursor_starts_over_once() {
    let expired = || {
        PullGot::Page(Err(ApiError::Rejected { status: 410, body: String::new() }))
    };
    let mut fs = online();
    fs.db_mut().sync_meta_set("changes_cursor", "c0");
    let (mut pull, _) = Pull::start(&fs, false);
    assert!(!pull.is_bootstrap());
    assert_eq!(step(&mut pull, &mut fs, expired()), PullWant::Page(None));
    assert!(!pull.is_bootstrap() && pull.has_room());
    assert_eq!(
        step(&mut pull, &mut fs, expired()),
        PullWant::Done(Err("changes cursor expired".to_string()))
    );
}

#[test]
fn servers_without_a_feed_are_listed() {
    let mut fs = online();
    for full in [true, false] {
        let (mut pull, want) = Pull::start(&fs, full);
        assert_eq!(want, PullWant::Page(None));
        let none = PullGot::Page(Err(ApiError::NotFound));
        assert_eq!(step(&mut pull, &mut fs, none), PullWant::List);
        let failed = PullGot::List(Err(ApiError::Auth));
        let text = match step(&mut pull, &mut fs, failed) {
            PullWant::Done(Err(text)) => text,
            other => panic!("{other:?}"),
        };
        assert!(text.starts_with(if full { "full pull failed: " } else { "delta pull failed: " }));
    }
    let (mut pull, _) = Pull::start(&fs, true);
    step(&mut pull, &mut fs, PullGot::Page(Err(ApiError::NotFound)));
    let documents = vec![doc("l", "/private/l.md", "1", LATE, None)];
    let got = PullGot::List(Ok(ListDocsResp { documents }));
    assert_eq!(step(&mut pull, &mut fs, got), PullWant::Done(Ok(1)));
    assert_eq!(fs.db().sync_meta_get("last_seen_updated_at").as_deref(), Some(LATE));
}

// ── Push ────────────────────────────────────────────────────────────────────

#[test]
fn titles_are_first_level_headings() {
    assert_eq!(extract_title("# Hello\nworld").as_deref(), Some("Hello"));
    assert_eq!(extract_title("text\n\n#  Later  \n").as_deref(), Some("Later"));
    assert_eq!(extract_title("## Sub\n# Main").as_deref(), Some("Main"));
    assert_eq!(extract_title("#\n##\ntext"), None);
    assert_eq!(extract_title(" # indented"), None);
    assert_eq!(extract_title(""), None);
}

#[test]
fn waits_double_up_to_half_a_minute() {
    let waits: Vec<i64> = (0..9).map(backoff).collect();
    assert_eq!(waits, vec![500, 1_000, 2_000, 4_000, 8_000, 16_000, 30_000, 30_000, 30_000]);
}

#[test]
fn a_write_is_sent_and_then_clean() {
    let mut fs = online();
    let ino = fs.upsert_brain_doc("/private/w.md", b"# T\nbody \xff").unwrap();
    fs.enqueue_write_at("/private/w.md", ino, 10);
    assert_eq!(fs.db().get_dirty_since(ino), Some(10));
    let job = match next_push(fs.db_mut(), 11) {
        PushStep::Execute(job) => job,
        other => panic!("{other:?}"),
    };
    match start_push(fs.db(), &job) {
        PushNext::Call(PushPhase::Write, PushCall::Put(req)) => {
            assert_eq!(req.path, "/private/w.md");
            assert_eq!(req.body_md, "# T\nbody \u{fffd}");
            assert_eq!(req.title.as_deref(), Some("T"));
            assert_eq!(req.kind.as_deref(), Some("note"));
            assert_eq!(req.expected_content_hash, None);
        }
        other => panic!("{other:?}"),
    }
    let written = doc("w", "/private/w.md", "# T\nbody \u{fffd}", LATE, Some("h1"));
    let result = match advance_push(fs.db(), &job, PushPhase::Write, PushReply::Put(Ok(written))) {
        PushNext::End(result) => result,
        other => panic!("{other:?}"),
    };
    assert_eq!(result, Ok(Some("h1".to_string())));
    finish_push(fs.db_mut(), &job, &result, 12);
    assert_eq!(fs.push_queue_len(), 0);
    assert_eq!(fs.db().get_dirty_since(ino), None);
    assert_eq!(fs.db().sync_meta_get("last_push_at").as_deref(), Some("12"));
    assert!(matches!(next_push(fs.db_mut(), 13), PushStep::Idle));
}

/// An edit while a push is under way is neither forgotten by the push nor
/// overwritten by the next pull.
#[test]
fn edits_during_a_push_stay_dirty() {
    let late = parse_iso8601_ms(LATE).unwrap();
    let mut fs = online();
    let ino = fs.upsert_brain_doc("/private/p.md", b"one").unwrap();
    let file = FileHandle::File(DbFile::new(ino));
    file.write_at(&mut fs, 0, b"two", Timestamp::zero(), 10).unwrap();
    let job = fs.db_mut().push_queue_claim_next(11).unwrap();
    file.write_at(&mut fs, 0, b"three", Timestamp::zero(), late).unwrap();
    finish_push(fs.db_mut(), &job, &Ok(Some("h2".to_string())), 12);
    assert_eq!(fs.db().get_dirty_since(ino), Some(late));
    assert_eq!(fs.push_queue_len(), 1);
    assert_eq!(fs.db().remote_content_hash(ino).as_deref(), Some("h2"));

    let ch = change("p", "/private/p.md", LATE, Some("other"), false);
    assert_eq!(plan_change(&mut fs, &ch, 13), ChangePlan::Done(false));
    let reply = Ok(doc("p", "/private/p.md", "theirs", LATE, Some("other")));
    assert!(!finish_change(&mut fs, &ch, &reply, Timestamp::zero(), 13).unwrap().changed);
    assert_eq!(fs.db().read_all_content(ino), b"three");

    // What was written last is sent next, over what was sent before.
    let job = fs.db_mut().push_queue_claim_next(late).unwrap();
    match start_push(fs.db(), &job) {
        PushNext::Call(PushPhase::Write, PushCall::Put(req)) => {
            assert_eq!(req.body_md, "three");
            assert_eq!(req.expected_content_hash.as_deref(), Some("h2"));
        }
        other => panic!("{other:?}"),
    }
    finish_push(fs.db_mut(), &job, &Ok(Some("h3".to_string())), late + 1);
    assert_eq!(fs.db().get_dirty_since(ino), None);
    assert_eq!(fs.push_queue_len(), 0);
}

/// A document that is made anew while its deletion is sent stays on record.
#[test]
fn documents_made_anew_during_a_deletion_stay() {
    let mut fs = online();
    fs.upsert_brain_doc("/private/n.md", b"old").unwrap();
    let dir = fs.lookup(1, "private").unwrap().unwrap().ino;
    fs.unlink_at(dir, "n.md", 10).unwrap();
    let job = fs.db_mut().push_queue_claim_next(10).unwrap();
    assert_eq!(job.op, PushOp::Delete);
    let (_, f) = fs.create_file(dir, "n.md", 0, 0, 0).unwrap();
    FileHandle::File(f).write_at(&mut fs, 0, b"new", Timestamp::zero(), 20).unwrap();
    finish_push(fs.db_mut(), &job, &Ok(None), 21);
    assert_eq!(fs.db().get_dirty_since(f.ino), Some(20));
    assert_eq!(fs.brain_path_for_ino(f.ino).as_deref(), Some("/private/n.md"));
    let job = fs.db_mut().push_queue_claim_next(30).unwrap();
    assert_eq!((job.op, job.content_ino), (PushOp::Write, Some(f.ino)));
}

/// What is sent of a file with a hole has zeros there.
#[test]
fn holes_are_sent_as_zeros() {
    let mut fs = online();
    let ino = fs.upsert_brain_doc("/private/s.md", b"a").unwrap();
    let file = FileHandle::File(DbFile::new(ino));
    file.write_at(&mut fs, 3, b"b", Timestamp::zero(), 10).unwrap();
    let job = fs.db_mut().push_queue_claim_next(10).unwrap();
    match start_push(fs.db(), &job) {
        PushNext::Call(PushPhase::Write, PushCall::Put(req)) => assert_eq!(req.body_md, "a\0\0b"),
        other => panic!("{other:?}"),
    }
}

#[test]
fn writes_expect_the_version_that_the_last_one_left() {
    let mut fs = online();
    let ino = fs.upsert_brain_doc("/private/v.md", b"one").unwrap();
    fs.enqueue_write_at("/private/v.md", ino, 10);
    let job = fs.db_mut().push_queue_claim_next(10).unwrap();
    finish_push(fs.db_mut(), &job, &Ok(Some("h1".to_string())), 11);
    assert_eq!(fs.db().remote_content_hash(ino).as_deref(), Some("h1"));

    // The write comes back around.
    let echo = change("v", "/private/v.md", LATE, Some("h1"), false);
    assert_eq!(plan_change(&mut fs, &echo, 20), ChangePlan::Done(false));

    fs.enqueue_write_at("/private/v.md", ino, 30);
    let job = fs.db_mut().push_queue_claim_next(30).unwrap();
    match start_push(fs.db(), &job) {
        PushNext::Call(PushPhase::Write, PushCall::Put(req)) => {
            assert_eq!(req.expected_content_hash.as_deref(), Some("h1"));
        }
        other => panic!("{other:?}"),
    }

    // A stale version is a conflict, which is tried again.
    finish_push(fs.db_mut(), &job, &Err(ApiError::Conflict("stale".to_string())), 31);
    assert_eq!(fs.push_queue_len(), 1);
    assert_eq!(fs.db_mut().push_queue_claim_next(1_000).unwrap().attempt, 1);
}

#[test]
fn failures_wait_or_give_up() {
    let mut fs = online();
    let ino = fs.upsert_brain_doc("/private/f.md", b"x").unwrap();
    fs.enqueue_write_at("/private/f.md", ino, 10);
    let job = fs.db_mut().push_queue_claim_next(11).unwrap();
    finish_push(fs.db_mut(), &job, &Err(ApiError::RateLimited), 11);
    assert_eq!(fs.db().get_dirty_since(ino), Some(10));
    assert!(fs.db_mut().push_queue_claim_next(510).is_none());
    let job = fs.db_mut().push_queue_claim_next(511).unwrap();
    assert_eq!(job.attempt, 1);
    finish_push(fs.db_mut(), &job, &Err(ApiError::Forbidden("no".to_string())), 600);
    assert!(fs.db_mut().push_queue_claim_next(1_000_000).is_none());
    assert_eq!(fs.push_queue_len(), 1);
    assert_eq!(fs.db().get_dirty_since(ino), Some(10));
}

#[test]
fn jobs_that_failed_too_often_are_given_up() {
    let mut db = Db::open_in_memory().unwrap();
    db.push_queue_upsert("/private/g.md", PushOp::Delete, None, None, 0);
    for _ in 0..10 {
        let job = match next_push(&mut db, 1_000) {
            PushStep::Execute(job) => job,
            other => panic!("{other:?}"),
        };
        db.push_queue_finalize_failure(&job.brain_path, "e", 0, 0);
    }
    assert!(matches!(next_push(&mut db, 1_000), PushStep::GaveUp));
    assert!(matches!(next_push(&mut db, 1_000), PushStep::Idle));
}

fn job(op: PushOp, rename_to: Option<&str>) -> PushJob {
    PushJob {
        brain_path: "/private/notes/old.md".to_string(),
        op,
        content_ino: None,
        rename_to: rename_to.map(String::from),
        attempt: 0,
    }
}

#[test]
fn deletes_of_missing_documents_succeed() {
    let fs = online();
    let j = job(PushOp::Delete, None);
    assert!(matches!(
        start_push(fs.db(), &j),
        PushNext::Call(PushPhase::Delete, PushCall::Delete(p)) if p == "/private/notes/old.md"
    ));
    let gone = PushReply::Delete(Err(ApiError::NotFound));
    assert!(matches!(advance_push(fs.db(), &j, PushPhase::Delete, gone), PushNext::End(Ok(None))));
    let refused = PushReply::Delete(Err(ApiError::Auth));
    assert!(matches!(
        advance_push(fs.db(), &j, PushPhase::Delete, refused),
        PushNext::End(Err(ApiError::Auth))
    ));
}

#[test]
fn renames_read_write_and_delete() {
    let mut fs = online();
    let j = job(PushOp::Rename, Some("new.md"));
    assert!(matches!(
        start_push(fs.db(), &j),
        PushNext::Call(PushPhase::RenameRead, PushCall::Get(p)) if p == "/private/notes/old.md"
    ));
    let there = PushReply::Get(Ok(doc("d", "/private/notes/old.md", "remote", LATE, None)));
    match advance_push(fs.db(), &j, PushPhase::RenameRead, there) {
        PushNext::Call(PushPhase::RenameWrite, PushCall::Put(req)) => {
            assert_eq!(req.path, "/private/notes/new.md");
            assert_eq!(req.body_md, "remote");
            assert_eq!(req.title, None);
        }
        other => panic!("{other:?}"),
    }
    fs.upsert_brain_doc("/private/notes/old.md", b"local").unwrap();
    let missing = PushReply::Get(Err(ApiError::NotFound));
    match advance_push(fs.db(), &j, PushPhase::RenameRead, missing) {
        PushNext::Call(PushPhase::RenameWrite, PushCall::Put(req)) => {
            assert_eq!(req.body_md, "local");
        }
        other => panic!("{other:?}"),
    }
    let moved = doc("n", "/private/notes/new.md", "local", LATE, None);
    assert!(matches!(
        advance_push(fs.db(), &j, PushPhase::RenameWrite, PushReply::Put(Ok(moved))),
        PushNext::Call(PushPhase::RenameDelete, PushCall::Delete(_))
    ));
    let failed = PushReply::Delete(Err(ApiError::RateLimited));
    assert!(matches!(
        advance_push(fs.db(), &j, PushPhase::RenameDelete, failed),
        PushNext::End(Ok(None))
    ));
    assert_eq!(new_path("/a/b/c.md", "d.md"), "/a/b/d.md");
    assert_eq!(new_path("c.md", "d.md"), "/private/notes/d.md");
    assert!(matches!(start_push(fs.db(), &job(PushOp::Rename, None)), PushNext::End(Ok(None))));
}

#[test]
fn drains_look_but_do_not_take() {
    let mut db = Db::open_in_memory().unwrap();
    assert_eq!(drain_step(&db, 0, 30_000, 0), DrainStep::Drained);
    db.push_queue_upsert("/private/d.md", PushOp::Write, Some(1), None, 100);
    assert_eq!(drain_step(&db, 0, 30_000, 50), DrainStep::Wait);
    assert_eq!(drain_step(&db, 0, 30_000, 100), DrainStep::Send);
    assert_eq!(drain_step(&db, 30_000, 30_000, 100), DrainStep::TimedOut);
    assert!(db.push_queue_claim_next(100).is_some());
}

#[test]
fn imports_are_notes() {
    let req = import_request("/private/notes/i.md", b"caf\xc3\xa9 \xc3");
    assert_eq!(req.path, "/private/notes/i.md");
    assert_eq!(req.body_md, "café \u{fffd}");
    assert_eq!(req.kind.as_deref(), Some("note"));
    assert_eq!(req.title, None);
}
