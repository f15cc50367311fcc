//! The cache: store, push queue, filesystem and open files.

use unisonfs::api::dto::{BrainDocument, BrainProfile, ProfileResp};
use unisonfs::api::error::ApiError;
use unisonfs::cache::db::{Db, Snapshot};
use unisonfs::cache::fs::{FileHandle, ImportStep, UnisonFs};
use unisonfs::cache::hydration::HydrationKey;
use unisonfs::cache::profile::{format_profile, PROFILE_INO, PROFILE_NAME};
use unisonfs::cache::queue::{is_noise_path, PushOp};
use unisonfs::cache::rows::Change;
use unisonfs::vfs::error::{DbError, VfsError};
use unisonfs::vfs::mode::DEFAULT_FILE_MODE;
use unisonfs::vfs::types::{SetAttr, TimeOrNow, Timestamp};

fn open_mem_db() -> Db {
    Db::open_in_memory().expect("in-memory db")
}

fn open_mem_fs() -> UnisonFs {
    UnisonFs::new(open_mem_db(), 501, 20)
}

fn open_online_fs() -> UnisonFs {
    UnisonFs::with_api(open_mem_db(), 501, 20)
}

fn document(path: &str, body: Option<&str>) -> BrainDocument {
    BrainDocument {
        id: "doc-1".to_string(),
        path: path.to_string(),
        title: None,
        tldr: None,
        kind: None,
        body_md: body.map(String::from),
        tags: None,
        visibility: None,
        created_at: "2026-07-03T12:00:00Z".to_string(),
        updated_at: "2026-07-03T12:00:00Z".to_string(),
        content_hash: None,
    }
}

// ── Store ───────────────────────────────────────────────────────────────────

#[test]
fn open_in_memory_creates_root() {
    let db = Db::open_in_memory().unwrap();
    let root = db.attr(1).unwrap();
    assert_eq!(root.ino, 1);
    assert!(root.is_directory());
}

#[test]
fn set_then_get_remote_path_round_trips() {
    let mut db = Db::open_in_memory().unwrap();
    db.set_remote_path(42, "/private/notes/test.md");
    assert_eq!(db.get_remote_path(42), Some("/private/notes/test.md".to_string()));
}

#[test]
fn noise_path_skipped() {
    let mut db = Db::open_in_memory().unwrap();
    db.push_queue_upsert("/foo/._bar.md", PushOp::Write, None, None, 1);
    assert!(db.push_queue_claim_next(10).is_none());
}

#[test]
fn normal_path_enqueues() {
    let mut db = Db::open_in_memory().unwrap();
    db.push_queue_upsert("/private/notes/foo.md", PushOp::Write, None, None, 1);
    assert!(db.push_queue_claim_next(10).is_some());
}

// ── Documents ───────────────────────────────────────────────────────────────

#[test]
fn ino_by_remote_path_roundtrip() {
    let mut fs = open_mem_fs();
    let path = "/private/notes/rt.md";
    let ino = fs.upsert_brain_doc(path, b"hi").expect("upsert");
    assert_eq!(fs.db().ino_by_remote_path(path), Some(ino));
    assert_eq!(fs.db().ino_by_remote_path("/nonexistent.md"), None);
}

#[test]
fn upsert_brain_doc_idempotent() {
    let mut fs = open_mem_fs();
    let path = "/private/notes/idem.md";
    let content = b"# Hello\n";

    let ino1 = fs.upsert_brain_doc(path, content).expect("first upsert");
    let ino2 = fs.upsert_brain_doc(path, content).expect("second upsert");
    assert_eq!(ino1, ino2, "same inode on re-upsert");

    let stored = fs.db().read_all_content(ino1);
    assert_eq!(stored, content);
}

#[test]
fn upsert_brain_doc_updates_content() {
    let mut fs = open_mem_fs();
    let path = "/private/notes/upd.md";
    let ino = fs.upsert_brain_doc(path, b"v1").expect("v1 upsert");
    fs.upsert_brain_doc(path, b"v2").expect("v2 upsert");
    assert_eq!(fs.db().read_all_content(ino), b"v2");
}

#[test]
fn different_paths_get_different_inos() {
    let mut fs = open_mem_fs();
    let a = fs.upsert_brain_doc("/private/notes/a.md", b"a").unwrap();
    let b = fs.upsert_brain_doc("/private/notes/b.md", b"b").unwrap();
    assert_ne!(a, b);
}

#[test]
fn upserted_documents_are_found_by_walking() {
    let mut fs = open_mem_fs();
    let ino = fs.upsert_brain_doc("/workspace/people/daniel.md", b"x").unwrap();
    let w = fs.lookup(1, "workspace").unwrap().unwrap();
    assert!(w.is_directory());
    let p = fs.lookup(w.ino, "people").unwrap().unwrap();
    let f = fs.lookup(p.ino, "daniel.md").unwrap().unwrap();
    assert_eq!(f.ino, ino);
    assert_eq!(f.size, 1);
    assert_eq!((f.uid, f.gid), (501, 20));
    assert_eq!(fs.lookup(p.ino, "nobody.md").unwrap(), None);
    // Slashes that say nothing lead to the same file.
    assert_eq!(fs.upsert_brain_doc("//workspace//people/daniel.md", b"y").unwrap(), ino);
    // A path of one piece goes to the root.
    let top = fs.upsert_brain_doc("top.md", b"t").unwrap();
    assert_eq!(fs.lookup(1, "top.md").unwrap().unwrap().ino, top);
}

#[test]
fn upserts_leave_other_files_alone() {
    let mut fs = open_mem_fs();
    let a = fs.upsert_brain_doc("/private/a.md", b"first").unwrap();
    let before = fs.getattr(a).unwrap();
    fs.upsert_brain_doc("/private/b.md", b"second").unwrap();
    assert_eq!(fs.db().read_all_content(a), b"first");
    assert_eq!(fs.getattr(a).unwrap(), before);
    assert_eq!(fs.push_queue_len(), 0);
}

// ── Push queue ──────────────────────────────────────────────────────────────

#[test]
fn push_queue_enqueue_claim_finalize_success() {
    let mut fs = open_mem_fs();
    let ino = fs.upsert_brain_doc("/private/notes/push.md", b"data").unwrap();
    let now = 1_000_000i64;

    let db = fs.db_mut();
    db.push_queue_upsert("/private/notes/push.md", PushOp::Write, Some(ino), None, now);

    let job = db.push_queue_claim_next(now + 1).expect("should have a claimable job");
    assert_eq!(job.brain_path, "/private/notes/push.md");

    db.push_queue_finalize_success(&job.brain_path, now + 2);
    assert!(
        db.push_queue_claim_next(now + 3).is_none(),
        "queue should be empty after finalize_success"
    );
}

#[test]
fn push_queue_finalize_failure_increments_attempt() {
    let mut fs = open_mem_fs();
    let ino = fs.upsert_brain_doc("/private/notes/retry.md", b"data").unwrap();
    let now = 1_000_000i64;

    let db = fs.db_mut();
    db.push_queue_upsert("/private/notes/retry.md", PushOp::Write, Some(ino), None, now);
    let job = db.push_queue_claim_next(now + 1).unwrap();
    assert_eq!(job.attempt, 0);

    db.push_queue_finalize_failure(&job.brain_path, "transient error", now + 2, 500);

    let job2 = db.push_queue_claim_next(now + 3000).unwrap();
    assert_eq!(job2.attempt, 1, "attempt should increment after failure");
}

#[test]
fn push_queue_coalesces_duplicates() {
    let mut fs = open_mem_fs();
    let ino = fs.upsert_brain_doc("/private/notes/coalesce.md", b"data").unwrap();
    let now = 1_000_000i64;

    let db = fs.db_mut();
    db.push_queue_upsert("/private/notes/coalesce.md", PushOp::Write, Some(ino), None, now);
    db.push_queue_upsert("/private/notes/coalesce.md", PushOp::Write, Some(ino), None, now + 1);

    let _j = db.push_queue_claim_next(now + 2).unwrap();
    assert!(
        db.push_queue_claim_next(now + 3).is_none(),
        "second enqueue should have been coalesced"
    );
}

#[test]
fn requests_during_a_push_are_kept() {
    let mut db = open_mem_db();
    db.push_queue_upsert("/private/x.md", PushOp::Write, Some(7), None, 10);
    let job = db.push_queue_claim_next(11).unwrap();
    db.push_queue_upsert("/private/x.md", PushOp::Delete, None, None, 12);
    assert!(db.push_queue_claim_next(13).is_none());
    db.push_queue_finalize_success(&job.brain_path, 14);
    let next = db.push_queue_claim_next(15).unwrap();
    assert_eq!(next.op, PushOp::Delete);
    assert_eq!(next.content_ino, None);
}

#[test]
fn older_jobs_are_claimed_first_and_poisoned_ones_never() {
    let mut db = open_mem_db();
    db.push_queue_upsert("/private/late.md", PushOp::Write, Some(1), None, 30);
    db.push_queue_upsert("/private/early.md", PushOp::Rename, Some(2), Some("n.md"), 20);
    assert!(db.push_queue_claim_next(19).is_none());
    let a = db.push_queue_claim_next(40).unwrap();
    assert_eq!(a.brain_path, "/private/early.md");
    assert_eq!(a.op, PushOp::Rename);
    assert_eq!(a.rename_to.as_deref(), Some("n.md"));
    db.push_queue_poison("/private/early.md", 422, "bad", 41);
    let b = db.push_queue_claim_next(50).unwrap();
    assert_eq!(b.brain_path, "/private/late.md");
    assert!(db.push_queue_claim_next(60).is_none());
    assert_eq!(db.push_queue_len(), 2);
}

#[test]
fn operations_have_names() {
    for op in [PushOp::Write, PushOp::Delete, PushOp::Rename] {
        assert_eq!(PushOp::parse(op.as_str()), Some(op));
    }
    assert_eq!(PushOp::Write.as_str(), "write");
    assert_eq!(PushOp::Delete.as_str(), "delete");
    assert_eq!(PushOp::Rename.as_str(), "rename");
    assert_eq!(PushOp::parse("chmod"), None);
}

// ── Deletion ────────────────────────────────────────────────────────────────

#[test]
fn apply_deletion_removes_inode() {
    let mut fs = open_mem_fs();
    let path = "/private/notes/delete_me.md";
    let ino = fs.upsert_brain_doc(path, b"data").expect("upsert");

    fs.db_mut().set_remote_id(ino, "remote-abc-123");

    assert!(fs.apply_deletion("remote-abc-123").unwrap());
    assert_eq!(
        fs.db().ino_by_remote_path(path),
        None,
        "inode should be removed after deletion"
    );
}

#[test]
fn deletion_leaves_nothing_behind() {
    let mut fs = open_mem_fs();
    let keep = fs.upsert_brain_doc("/private/keep.md", b"keep").unwrap();
    let gone = fs.upsert_brain_doc("/private/gone.md", b"gone").unwrap();
    fs.db_mut().set_remote_id(gone, "g");
    assert!(!fs.apply_deletion("unknown").unwrap());
    assert!(fs.apply_deletion("g").unwrap());
    assert!(!fs.apply_deletion("g").unwrap());
    assert_eq!(fs.getattr(gone).unwrap(), None);
    assert_eq!(fs.db().read_all_content(gone), b"");
    assert_eq!(fs.db().read_all_content(keep), b"keep");
    let private = fs.lookup(1, "private").unwrap().unwrap();
    assert_eq!(fs.readdir(private.ino).unwrap().unwrap(), vec!["keep.md".to_string()]);
}

// ── Bookkeeping ─────────────────────────────────────────────────────────────

#[test]
fn dirty_since_roundtrip() {
    let mut fs = open_mem_fs();
    let ino = fs.upsert_brain_doc("/private/notes/dirty.md", b"x").unwrap();

    assert!(fs.db().get_dirty_since(ino).is_none());

    fs.db_mut().set_dirty_since(ino, Some(999_000));
    assert_eq!(fs.db().get_dirty_since(ino), Some(999_000));

    fs.db_mut().set_dirty_since(ino, None);
    assert!(fs.db().get_dirty_since(ino).is_none());
}

#[test]
fn mirrored_state_set_does_not_panic() {
    let mut fs = open_mem_fs();
    let ino = fs.upsert_brain_doc("/private/notes/mirror.md", b"x").unwrap();
    fs.db_mut().set_mirrored_state(ino, Some(12345), Some("ok"), Some(99000));
    fs.db_mut().set_mirrored_state(ino, None, None, None);
}

#[test]
fn sync_meta_roundtrip() {
    let mut db = open_mem_db();
    assert!(db.sync_meta_get("k1").is_none());

    db.sync_meta_set("k1", "hello world");
    assert_eq!(db.sync_meta_get("k1").as_deref(), Some("hello world"));

    db.sync_meta_set("k1", "updated");
    assert_eq!(db.sync_meta_get("k1").as_deref(), Some("updated"));
}

#[test]
fn remote_count_reflects_upserts() {
    let mut fs = open_mem_fs();
    assert_eq!(fs.db().remote_count(), 0);

    fs.upsert_brain_doc("/private/notes/c1.md", b"a").unwrap();
    assert_eq!(fs.db().remote_count(), 1);

    fs.upsert_brain_doc("/private/notes/c2.md", b"b").unwrap();
    assert_eq!(fs.db().remote_count(), 2);

    // Re-upsert doesn't increment
    fs.upsert_brain_doc("/private/notes/c1.md", b"updated").unwrap();
    assert_eq!(fs.db().remote_count(), 2);
}

#[test]
fn large_content_round_trips() {
    let mut fs = open_mem_fs();
    let path = "/private/notes/large.md";

    let content: Vec<u8> = (0u8..=255).cycle().take(3 * 256 * 1024).collect();
    let ino = fs.upsert_brain_doc(path, &content).unwrap();
    let read_back = fs.db().read_all_content(ino);
    assert_eq!(read_back, content, "large content should round-trip");
}

#[test]
fn is_noise_path_filters_correctly() {
    assert!(is_noise_path(".DS_Store"), ".DS_Store is noise");
    assert!(is_noise_path("._foo"), "dot-underscore is noise");
    assert!(is_noise_path(".Spotlight-V100"), ".Spotlight-V100 is noise");
    assert!(!is_noise_path(".git"), ".git is NOT filtered (not a noise basename)");
    assert!(!is_noise_path("notes.md"), "regular .md is not noise");
    assert!(!is_noise_path("README"), "regular README is not noise");
}

#[test]
fn noise_is_told_by_first_and_last_piece() {
    assert!(is_noise_path("/.Trashes/501/x"));
    assert!(is_noise_path("/.fseventsd/0"));
    assert!(is_noise_path("/.TemporaryItems"));
    assert!(is_noise_path("/private/notes/.localized"));
    assert!(is_noise_path("Icon\r"));
    assert!(!is_noise_path("/private/.Trashes/x"));
    assert!(!is_noise_path(""));
    assert!(!is_noise_path("///"));
}

#[test]
fn ino_for_remote_id_roundtrip() {
    let mut fs = open_mem_fs();
    let ino = fs.upsert_brain_doc("/private/notes/rid.md", b"x").unwrap();
    fs.db_mut().set_remote_id(ino, "remote-xyz");
    assert_eq!(fs.db().ino_for_remote_id("remote-xyz"), Some(ino));
    assert_eq!(fs.db().ino_for_remote_id("nonexistent"), None);
}

#[test]
fn push_queue_len_tracks_entries() {
    let mut fs = open_mem_fs();
    let ino = fs.upsert_brain_doc("/private/notes/len.md", b"x").unwrap();
    let db = fs.db_mut();
    let now = 2_000_000i64;

    assert_eq!(db.push_queue_len(), 0);
    db.push_queue_upsert("/private/notes/len.md", PushOp::Write, Some(ino), None, now);
    assert_eq!(db.push_queue_len(), 1);
}

#[test]
fn hashes_and_ids_are_on_record() {
    let mut fs = open_mem_fs();
    let ino = fs.upsert_brain_doc("/private/h.md", b"x").unwrap();
    fs.db_mut().set_remote_content_hash(ino, Some("00ff"));
    fs.db_mut().set_remote_id(ino, "id-1");
    assert_eq!(fs.db().remote_content_hash(ino).as_deref(), Some("00ff"));
    assert_eq!(fs.db().all_remote_ids(), vec!["id-1".to_string()]);
    fs.db_mut().delete_remote_path(ino);
    assert_eq!(fs.brain_path_for_ino(ino), None);
    assert_eq!(fs.db().all_remote_ids(), Vec::<String>::new());
}

#[test]
fn changes_are_journaled_and_loaded_again() {
    let mut fs = open_mem_fs();
    fs.db_mut().drain_changes();
    let ino = fs.upsert_brain_doc("/private/j.md", b"journal").unwrap();
    let changes = fs.db_mut().drain_changes();
    assert!(!changes.is_empty());
    assert!(fs.db_mut().drain_changes().is_empty());
    let fresh = Db::load(Snapshot::empty(), Timestamp::from_secs(5));
    assert!(fresh.attr(1).unwrap().is_directory());
    assert_eq!(fresh.attr(ino), None);
}

// ── Hydration and import ────────────────────────────────────────────────────

/// A refresh does not replace an edit that was made while it was on its way.
#[test]
fn replies_keep_newer_edits() {
    let mut fs = open_online_fs();
    let dir = fs.mkdir(1, "private", 0, 0, 0).unwrap().ino;
    let (_, f) = fs.create_file(dir, "new.md", 0, 0, 0).unwrap();
    let late = 1_783_080_000_000;
    FileHandle::File(f).write_at(&mut fs, 0, b"mine", Timestamp::zero(), late).unwrap();
    let reply = Ok(document("/private/new.md", Some("theirs")));
    fs.hydrate_path("/private/new.md", &reply).unwrap();
    assert_eq!(fs.db().read_all_content(f.ino), b"mine");
    assert_eq!(fs.db().get_dirty_since(f.ino), Some(late));
    // An older edit is replaced.
    fs.db_mut().set_dirty_since(f.ino, Some(late - 1));
    fs.hydrate_path("/private/new.md", &reply).unwrap();
    assert_eq!(fs.db().read_all_content(f.ino), b"theirs");
}

#[test]
fn replies_populate_the_cache() {
    let mut fs = open_online_fs();
    let doc = document("/private/h.md", Some("# H"));
    fs.hydrate_path("/private/h.md", &Ok(doc)).unwrap();
    let ino = fs.db().ino_by_remote_path("/private/h.md").unwrap();
    assert_eq!(fs.db().read_all_content(ino), b"# H");
    fs.hydrate_path("/private/h.md", &Ok(document("/private/h.md", None))).unwrap();
    assert_eq!(fs.db().read_all_content(ino), b"");
    fs.hydrate_path("/private/none.md", &Err(ApiError::NotFound)).unwrap();
    assert_eq!(fs.db().ino_by_remote_path("/private/none.md"), None);
    let e = fs.hydrate_path("/private/h.md", &Err(ApiError::RateLimited)).unwrap_err();
    assert_eq!(e.message(), "I/O error: rate limited — retry after backoff");
    assert_eq!(e.to_errno(), libc::EIO);
}

#[test]
fn imports_skip_what_the_brain_has() {
    let there = Ok(document("/private/notes/a.md", Some("x")));
    assert_eq!(UnisonFs::import_check(&there), ImportStep::Skip);
    assert_eq!(UnisonFs::import_check(&Err(ApiError::NotFound)), ImportStep::Write);
    assert_eq!(
        UnisonFs::import_check(&Err(ApiError::Auth)),
        ImportStep::Failed(
            "import check failed: authentication failed (invalid or expired token)".to_string()
        )
    );
    assert_eq!(UnisonFs::import_done(&there), Ok(true));
    assert_eq!(
        UnisonFs::import_done(&Err(ApiError::Conflict("c".to_string()))),
        Err("import write failed: conflict: c".to_string())
    );
}

// ── Filesystem operations ───────────────────────────────────────────────────

#[test]
fn files_are_made_listed_and_removed() {
    let mut fs = open_mem_fs();
    let d = fs.mkdir(1, "dir", 0o700, 1, 2).unwrap();
    assert_eq!((d.uid, d.gid, d.nlink), (1, 2, 2));
    assert_eq!(fs.mkdir(1, "dir", 0o700, 1, 2).unwrap_err(), VfsError::AlreadyExists);
    let (b, _) = fs.create_file(d.ino, "b.md", DEFAULT_FILE_MODE, 1, 2).unwrap();
    let (a, _) = fs.create_file(d.ino, "a.md", DEFAULT_FILE_MODE, 1, 2).unwrap();
    let (again, _) = fs.create_file(d.ino, "a.md", DEFAULT_FILE_MODE, 9, 9).unwrap();
    assert_eq!(again, a);
    assert_eq!(
        fs.readdir(d.ino).unwrap().unwrap(),
        vec!["a.md".to_string(), "b.md".to_string()]
    );
    let plus = fs.readdir_plus(d.ino).unwrap().unwrap();
    assert_eq!(plus[0].attr.ino, a.ino);
    assert_eq!(plus[1].attr.ino, b.ino);
    assert_eq!(fs.readdir(a.ino).unwrap(), None);
    assert_eq!(fs.rmdir(1, "dir").unwrap_err(), VfsError::NotEmpty);
    assert_eq!(fs.rmdir(1, "nope").unwrap_err(), VfsError::NotFound);
    assert_eq!(fs.rmdir(d.ino, "a.md").unwrap_err(), VfsError::NotDirectory);
    assert_eq!(fs.unlink(1, "dir").unwrap_err(), VfsError::IsDirectory);
    assert_eq!(fs.mkdir(a.ino, "x", 0, 0, 0).unwrap_err(), VfsError::NotDirectory);
    let long = "n".repeat(256);
    assert_eq!(fs.mkdir(1, &long, 0, 0, 0).unwrap_err(), VfsError::NameTooLong);
    assert_eq!(fs.create_file(1, &long, 0, 0, 0).unwrap_err(), VfsError::NameTooLong);
    fs.unlink(d.ino, "a.md").unwrap();
    assert_eq!(fs.readdir(d.ino).unwrap().unwrap(), vec!["b.md".to_string()]);
    assert_eq!(fs.lookup(d.ino, "a.md").unwrap(), None);
}

#[test]
fn opening_tells_files_from_directories() {
    let mut fs = open_mem_fs();
    let (a, _) = fs.create_file(1, "a", 0, 0, 0).unwrap();
    assert!(matches!(fs.open(a.ino, 0), Ok(FileHandle::File(f)) if f.ino == a.ino));
    assert_eq!(fs.open(1, 0).unwrap_err(), VfsError::IsDirectory);
    assert_eq!(fs.open(77, 0).unwrap_err(), VfsError::NotFound);
    assert_eq!(fs.open(PROFILE_INO, 0).unwrap_err(), VfsError::NotFound);
}

#[test]
fn attribute_updates() {
    let mut fs = open_mem_fs();
    let (a, f) = fs.create_file(1, "a", 0, 3, 4).unwrap();
    f.write(fs.db_mut(), 0, b"hello").unwrap();
    let sa = SetAttr {
        mode: Some(0o600),
        uid: Some(9),
        mtime: Some(TimeOrNow::Time(Timestamp::from_secs(12))),
        ..SetAttr::default()
    };
    let b = fs.setattr(a.ino, sa).unwrap();
    assert!(b.is_file());
    assert_eq!(b.mode & 0o7777, 0o600);
    assert_eq!((b.uid, b.gid), (9, 4));
    assert_eq!(b.mtime, Timestamp::from_secs(12));
    let cut = fs.setattr(a.ino, SetAttr { size: Some(2), ..SetAttr::default() }).unwrap();
    assert_eq!(cut.size, 2);
    assert_eq!((cut.mode, cut.uid, cut.gid), (b.mode, 9, 4));
    assert_eq!((cut.atime, cut.mtime), (b.atime, Timestamp::from_secs(12)));
    assert_eq!(fs.db().read_all_content(a.ino), b"he");
    assert_eq!(
        fs.setattr(99, SetAttr { mode: Some(1), ..SetAttr::default() }).unwrap_err(),
        VfsError::Database(DbError::NoRows)
    );
    assert_eq!(fs.setattr(99, SetAttr::default()).unwrap_err(), VfsError::NotFound);
}

/// What an update does not name stays as it was.
#[test]
fn attribute_updates_are_partial() {
    let mut fs = open_mem_fs();
    let made = Timestamp::from_secs(5);
    let (a, _) = fs.create_file_at(1, "a", 0, 3, 4, made).unwrap();
    let later = Timestamp::from_secs(70);
    let mode = SetAttr { mode: Some(0o400), ..SetAttr::default() };
    let b = fs.setattr_at(a.ino, mode, later).unwrap();
    assert_eq!(b.mode, (a.mode & 0o170000) | 0o400);
    assert_eq!((b.uid, b.gid, b.size, b.nlink), (3, 4, 0, 1));
    assert_eq!((b.atime, b.mtime, b.ctime), (made, made, later));
    let access = SetAttr { atime: Some(TimeOrNow::Now), ..SetAttr::default() };
    let c = fs.setattr_at(a.ino, access, Timestamp::from_secs(80)).unwrap();
    assert_eq!((c.atime, c.mtime), (Timestamp::from_secs(80), made));
    let both = SetAttr {
        size: Some(0),
        mtime: Some(TimeOrNow::Time(Timestamp::from_secs(9))),
        ..SetAttr::default()
    };
    let d = fs.setattr_at(a.ino, both, Timestamp::from_secs(90)).unwrap();
    assert_eq!((d.atime, d.mtime), (c.atime, Timestamp::from_secs(9)));
    // A resize does not touch the time of the last change.
    assert_eq!((c.ctime, d.ctime), (Timestamp::from_secs(80), Timestamp::from_secs(80)));
}

/// A name that was looked up and then goes is not found again.
#[test]
fn names_that_go_are_not_found() {
    let mut fs = open_mem_fs();
    let (a, f) = fs.create_file(1, "a", 0, 0, 0).unwrap();
    f.write(fs.db_mut(), 0, b"old").unwrap();
    assert_eq!(fs.lookup(1, "a").unwrap().unwrap().ino, a.ino);
    fs.unlink(1, "a").unwrap();
    assert_eq!(fs.lookup(1, "a").unwrap(), None);
    let (b, _) = fs.create_file(1, "a", 0, 0, 0).unwrap();
    assert_ne!(b.ino, a.ino);
    assert_eq!(b.size, 0);

    assert!(fs.lookup(1, "a").unwrap().is_some());
    fs.rename(1, "a", 1, "b").unwrap();
    assert_eq!(fs.lookup(1, "a").unwrap(), None);
    assert_eq!(fs.lookup(1, "b").unwrap().unwrap().ino, b.ino);
    fs.rename(1, "b", 1, "b").unwrap();
    assert_eq!(fs.lookup(1, "b").unwrap().unwrap().ino, b.ino);

    let (c, _) = fs.create_file(1, "c", 0, 0, 0).unwrap();
    assert_eq!(fs.lookup(1, "c").unwrap().unwrap().ino, c.ino);
    fs.rename(1, "b", 1, "c").unwrap();
    assert_eq!(fs.lookup(1, "c").unwrap().unwrap().ino, b.ino);
    assert_eq!(fs.getattr(c.ino).unwrap(), None);

    let (d, _) = fs.create_file(1, "d", 0, 0, 0).unwrap();
    assert_eq!(fs.lookup(1, "d").unwrap().unwrap().ino, d.ino);
    fs.link(b.ino, 1, "d").unwrap();
    assert_eq!(fs.lookup(1, "d").unwrap().unwrap().ino, b.ino);

    let dir = fs.mkdir(1, "dir", 0, 0, 0).unwrap();
    assert_eq!(fs.lookup(1, "dir").unwrap().unwrap().ino, dir.ino);
    fs.rmdir(1, "dir").unwrap();
    assert_eq!(fs.lookup(1, "dir").unwrap(), None);
    assert_ne!(fs.mkdir(1, "dir", 0, 0, 0).unwrap().ino, dir.ino);
}

/// A document that was deleted remotely and comes back gets a new file.
#[test]
fn deleted_documents_can_come_back() {
    let mut fs = open_mem_fs();
    let first = fs.upsert_brain_doc("/private/d.md", b"one").unwrap();
    fs.db_mut().set_remote_id(first, "d");
    let dir = fs.lookup(1, "private").unwrap().unwrap().ino;
    assert_eq!(fs.lookup(dir, "d.md").unwrap().unwrap().ino, first);
    assert!(fs.apply_deletion("d").unwrap());
    assert_eq!(fs.lookup(dir, "d.md").unwrap(), None);
    let second = fs.upsert_brain_doc("/private/d.md", b"two").unwrap();
    assert_ne!(second, first);
    assert_eq!(fs.lookup(dir, "d.md").unwrap().unwrap().ino, second);
    assert_eq!(fs.db().read_all_content(second), b"two");
    assert_eq!(fs.db().ino_by_remote_path("/private/d.md"), Some(second));
}

#[test]
fn links_symlinks_and_renames() {
    let mut fs = open_mem_fs();
    let (a, _) = fs.create_file(1, "a", 0, 0, 0).unwrap();
    let l = fs.link(a.ino, 1, "b").unwrap();
    assert_eq!(l.nlink, 2);
    assert_eq!(fs.link(1, 1, "r").unwrap_err(), VfsError::IsDirectory);
    assert_eq!(fs.link(55, 1, "r").unwrap_err(), VfsError::NotFound);
    let s = fs.symlink(1, "s", "tärget", 0, 0).unwrap();
    assert!(s.is_symlink());
    assert_eq!(s.size, 7);
    assert_eq!(fs.readlink(s.ino).unwrap().as_deref(), Some("tärget"));
    assert_eq!(fs.readlink(a.ino).unwrap(), None);
    assert_eq!(fs.symlink(1, "s", "x", 0, 0).unwrap_err(), VfsError::AlreadyExists);
    assert_eq!(fs.symlink(a.ino, "s", "x", 0, 0).unwrap_err(), VfsError::NotDirectory);
    fs.rename(1, "b", 1, "c").unwrap();
    assert_eq!(fs.db().dentry(1, "c"), Some(a.ino));
    assert_eq!(fs.db().dentry(1, "b"), None);
    assert_eq!(fs.rename(1, "nope", 1, "x").unwrap_err(), VfsError::NotFound);
    // One name of a file takes the place of another: a link is given up.
    fs.rename(1, "a", 1, "c").unwrap();
    assert_eq!(fs.db().dentry(1, "a"), None);
    assert_eq!(fs.db().dentry(1, "c"), Some(a.ino));
    assert_eq!(fs.getattr(a.ino).unwrap().unwrap().nlink, 1);
    let stats = fs.statfs().unwrap();
    assert_eq!(stats.inodes, 3);
    assert_eq!(stats.bytes_used, 7);
}

#[test]
fn unlinking_and_renaming_documents_is_queued() {
    let mut fs = open_mem_fs();
    fs.upsert_brain_doc("/private/x.md", b"x").unwrap();
    fs.upsert_brain_doc("/private/y.md", b"y").unwrap();
    let dir = fs.lookup(1, "private").unwrap().unwrap().ino;
    fs.unlink_at(dir, "x.md", 10).unwrap();
    fs.rename_at(dir, "y.md", dir, "z.md", 20).unwrap();
    let del = fs.db_mut().push_queue_claim_next(100).unwrap();
    assert_eq!((del.brain_path.as_str(), del.op), ("/private/x.md", PushOp::Delete));
    let ren = fs.db_mut().push_queue_claim_next(100).unwrap();
    assert_eq!((ren.brain_path.as_str(), ren.op), ("/private/y.md", PushOp::Rename));
    assert_eq!(ren.rename_to.as_deref(), Some("z.md"));
}

// ── Open files ──────────────────────────────────────────────────────────────

#[test]
fn writes_are_read_back_across_chunks() {
    let mut fs = open_mem_fs();
    let (a, f) = fs.create_file(1, "big", 0, 0, 0).unwrap();
    let first: Vec<u8> = (0..10_000u32).map(|i| (i % 251) as u8).collect();
    assert_eq!(f.write(fs.db_mut(), 0, &first).unwrap(), 10_000);
    assert_eq!(f.write(fs.db_mut(), 4_090, b"0123456789").unwrap(), 10);
    let mut want = first.clone();
    want[4_090..4_100].copy_from_slice(b"0123456789");
    assert_eq!(fs.db().read_all_content(a.ino), want);
    assert_eq!(f.read(fs.db(), 4_085, 20).unwrap(), &want[4_085..4_105]);
    assert_eq!(f.read(fs.db(), 9_990, 100).unwrap(), &want[9_990..]);
    assert_eq!(f.read(fs.db(), 10_000, 100).unwrap(), b"");
    f.truncate(fs.db_mut(), 5_000).unwrap();
    assert_eq!(fs.db().read_all_content(a.ino), &want[..5_000]);
    assert_eq!(f.getattr(fs.db()).unwrap().size, 5_000);
    assert!(fs.db().get_dirty_since(a.ino).is_some());
}

#[test]
fn mount_writes_are_dirty_and_queued() {
    let mut fs = open_mem_fs();
    let ino = fs.upsert_brain_doc("/private/notes/q.md", b"old").unwrap();
    let h = fs.open(ino, 0).unwrap();
    let now = Timestamp::from_secs(50);
    assert_eq!(h.write_at(&mut fs, 0, b"", now, 40).unwrap(), 0);
    assert_eq!(fs.push_queue_len(), 0);
    assert_eq!(h.write_at(&mut fs, 0, b"new!", now, 50).unwrap(), 4);
    assert_eq!(fs.db().get_dirty_since(ino), Some(50));
    assert_eq!(h.read_at(&fs, 0, 10, 0).unwrap(), b"new!");
    let job = fs.db_mut().push_queue_claim_next(51).unwrap();
    assert_eq!(job.brain_path, "/private/notes/q.md");
    assert_eq!((job.op, job.content_ino), (PushOp::Write, Some(ino)));
}

#[test]
fn new_files_are_pushed_to_where_they_are() {
    let mut fs = open_mem_fs();
    fs.ensure_dirs_for_path("/private/notes/x").unwrap();
    let p = fs.lookup(1, "private").unwrap().unwrap().ino;
    let n = fs.lookup(p, "notes").unwrap().unwrap().ino;
    let (a, f) = fs.create_file(n, "idea.md", 0, 0, 0).unwrap();
    let h = FileHandle::File(f);
    h.write_at(&mut fs, 0, b"# My Note", Timestamp::zero(), 5).unwrap();
    assert_eq!(fs.brain_path_for_ino(a.ino).as_deref(), Some("/private/notes/idea.md"));
    let job = fs.db_mut().push_queue_claim_next(6).unwrap();
    assert_eq!(job.brain_path, "/private/notes/idea.md");

    // A file in the root becomes a private note, one below a read-only root
    // goes nowhere.
    let (_, f) = fs.create_file(1, "Top Level.md", 0, 0, 0).unwrap();
    FileHandle::File(f).write_at(&mut fs, 0, b"t", Timestamp::zero(), 7).unwrap();
    assert_eq!(fs.brain_path_for_ino(f.ino).as_deref(), Some("/private/notes/top-level.md"));
    let s = fs.mkdir(1, "system", 0, 0, 0).unwrap().ino;
    let (_, f) = fs.create_file(s, "x.md", 0, 0, 0).unwrap();
    assert_eq!(fs.push_path(f.ino), None);
    let before = fs.push_queue_len();
    FileHandle::File(f).write_at(&mut fs, 0, b"t", Timestamp::zero(), 8).unwrap();
    assert_eq!(fs.push_queue_len(), before);
    assert_eq!(fs.push_path(123), None);
}

#[test]
fn holes_read_as_zeros() {
    let mut fs = open_mem_fs();
    let (_, f) = fs.create_file(1, "sparse", 0, 0, 0).unwrap();
    f.write(fs.db_mut(), 9_000, b"end").unwrap();
    assert_eq!(f.read(fs.db(), 0, 10).unwrap(), vec![0; 10]);
    assert_eq!(f.read(fs.db(), 4_200, 10).unwrap(), vec![0; 10]);
    assert_eq!(f.read(fs.db(), 9_000, 3).unwrap(), b"end");
    assert_eq!(f.read(fs.db(), 8_998, 100).unwrap(), b"\0\0end");
    assert_eq!(f.read(fs.db(), u64::MAX, 3).unwrap(), b"");
    let mut all = vec![0u8; 9_000];
    all.extend_from_slice(b"end");
    assert_eq!(fs.db().read_all_content(f.ino), all);
    // Between two chunks, and over the edge of one.
    f.write(fs.db_mut(), 4_095, b"ab").unwrap();
    assert_eq!(f.read(fs.db(), 4_094, 4).unwrap(), b"\0ab\0");
    assert_eq!(f.read(fs.db(), 0, 20_000).unwrap().len(), 9_003);
    let missing = unisonfs::cache::file::DbFile::new(404);
    assert_eq!(missing.read(fs.db(), 0, 1).unwrap_err(), VfsError::Database(DbError::NoRows));
}

#[test]
fn extended_files_end_with_zeros() {
    let mut fs = open_mem_fs();
    let (_, f) = fs.create_file(1, "grows", 0, 0, 0).unwrap();
    f.write(fs.db_mut(), 0, b"abc").unwrap();
    f.truncate(fs.db_mut(), 5_000).unwrap();
    let all = f.read(fs.db(), 0, 10_000).unwrap();
    assert_eq!(all.len(), 5_000);
    assert_eq!(&all[..4], b"abc\0");
    assert!(all[3..].iter().all(|b| *b == 0));
    assert_eq!(fs.db().read_all_content(f.ino), all);
    // What was cut off does not come back.
    f.truncate(fs.db_mut(), 1).unwrap();
    f.truncate(fs.db_mut(), 4).unwrap();
    assert_eq!(f.read(fs.db(), 0, 10).unwrap(), b"a\0\0\0");
    let size = SetAttr { size: Some(6), ..SetAttr::default() };
    fs.setattr(f.ino, size).unwrap();
    assert_eq!(f.read(fs.db(), 2, 10).unwrap(), b"\0\0\0\0");
}

#[test]
fn deep_files_have_a_path() {
    let mut fs = open_mem_fs();
    let mut dir = fs.mkdir(1, "private", 0, 0, 0).unwrap().ino;
    for _ in 0..4_200 {
        dir = fs.mkdir(dir, "d", 0, 0, 0).unwrap().ino;
    }
    let (_, f) = fs.create_file(dir, "x.md", 0, 0, 0).unwrap();
    let path = fs.push_path(f.ino).unwrap();
    assert_eq!(path, format!("/private{}/x.md", "/d".repeat(4_200)));
}

// ── Profile ─────────────────────────────────────────────────────────────────

fn profile() -> ProfileResp {
    ProfileResp {
        profile: BrainProfile {
            static_memories: Some(vec!["likes tea".to_string()]),
            dynamic: Some(vec!["busy".to_string()]),
        },
    }
}

#[test]
fn the_profile_is_shown_at_the_root() {
    let mut fs = open_online_fs();
    assert!(fs.has_api());
    fs.warm_profile(&Ok(profile()));
    let text = format_profile(&profile());
    assert!(text.contains("likes tea"));
    let names = fs.readdir(1).unwrap().unwrap();
    assert_eq!(names, vec![PROFILE_NAME.to_string()]);
    let a = fs.lookup(1, PROFILE_NAME).unwrap().unwrap();
    assert_eq!(a.ino, PROFILE_INO);
    assert_eq!(a.size, text.len() as u64);
    let h = fs.open(PROFILE_INO, 0).unwrap();
    assert_eq!(h.read_at(&fs, 0, 1 << 20, 0).unwrap(), text.as_bytes());
    assert_eq!(h.read_at(&fs, 2, 3, 0).unwrap(), &text.as_bytes()[2..5]);
    assert_eq!(h.read_at(&fs, u64::MAX, usize::MAX, 0).unwrap(), b"");
    assert_eq!(
        h.write_at(&mut fs, 0, b"x", Timestamp::zero(), 0).unwrap_err(),
        VfsError::PermissionDenied
    );
    assert_eq!(h.truncate(&mut fs, 0).unwrap_err(), VfsError::PermissionDenied);
    // A failed fetch keeps what was there.
    fs.warm_profile(&Err(ApiError::RateLimited));
    assert_eq!(h.read_at(&fs, 0, 1 << 20, 0).unwrap(), text.as_bytes());
    assert_eq!(
        h.getattr_at(&fs, Timestamp::from_secs(3), 0).unwrap().mtime,
        Timestamp::from_secs(3)
    );
}

#[test]
fn a_stale_profile_says_so() {
    let mut fs = open_online_fs();
    fs.warm_profile(&Ok(profile()));
    fs.db_mut().sync_meta_set("last_pull_at", "1000");
    let now = 1_000 + 45 * 60_000;
    let bytes = fs.profile_file().unwrap().content_bytes(fs.db(), now);
    let text = String::from_utf8(bytes.clone()).unwrap();
    assert!(text.contains("SYNC STALE"), "{text}");
    assert!(text.contains("45 minutes ago"), "{text}");
    let a = fs.getattr_at(PROFILE_INO, Timestamp::zero(), now).unwrap().unwrap();
    assert_eq!(a.size, bytes.len() as u64);
}

#[test]
fn offline_there_is_no_profile() {
    let mut fs = open_mem_fs();
    assert!(!fs.has_api());
    fs.warm_profile(&Ok(profile()));
    assert!(fs.profile_file().is_none());
    assert_eq!(fs.lookup(1, PROFILE_NAME).unwrap(), None);
    assert_eq!(fs.getattr(PROFILE_INO).unwrap(), None);
}

// ── Lookup cache ────────────────────────────────────────────────────────────

/// Lookups are cached: what is unlinked is found no more by its attributes, and
/// a file under a new name is found at once.
#[test]
fn lookups_are_cached() {
    let mut fs = open_mem_fs();
    for i in 0..50 {
        fs.create_file(1, &format!("f{i}"), 0, 0, 0).unwrap();
    }
    for _ in 0..2 {
        for i in 0..50 {
            let a = fs.lookup(1, &format!("f{i}")).unwrap().unwrap();
            assert_eq!(fs.db().dentry(1, &format!("f{i}")), Some(a.ino));
        }
    }
    fs.unlink(1, "f7").unwrap();
    assert_eq!(fs.lookup(1, "f7").unwrap(), None);
    fs.rename(1, "f8", 1, "g8").unwrap();
    assert!(fs.lookup(1, "g8").unwrap().is_some());
}

#[test]
fn lookups_that_miss_queue_a_refresh() {
    let mut fs = open_online_fs();
    fs.upsert_brain_doc("/private/notes/a.md", b"x").unwrap();
    let private = fs.lookup(1, "private").unwrap().unwrap().ino;
    let notes = fs.lookup(private, "notes").unwrap().unwrap().ino;
    assert!(fs.lookup_or_refresh(notes, "a.md").unwrap().is_some());
    assert_eq!(fs.hydration().pending_len(), 0);
    assert!(fs.lookup_or_refresh(notes, "b.md").unwrap().is_none());
    assert!(fs.lookup_or_refresh(notes, "b.md").unwrap().is_none());
    assert!(fs.lookup_or_refresh(notes, ".DS_Store").unwrap().is_none());
    assert_eq!(fs.hydration().pending_len(), 1);
    let key = fs.hydration_mut().claim_next().unwrap();
    assert_eq!(key, HydrationKey::Exact("/private/notes/b.md".to_string()));

    let reply = Ok(document("/private/notes/b.md", Some("fetched")));
    fs.hydrate_path(key.path(), &reply).unwrap();
    fs.hydration_mut().complete(key);
    assert!(fs.lookup_or_refresh(notes, "b.md").unwrap().is_some());

    let mut offline = open_mem_fs();
    assert!(offline.lookup_or_refresh(1, "b.md").unwrap().is_none());
    assert_eq!(offline.hydration().pending_len(), 0);
}

#[test]
fn smoke_cache_upsert_and_enqueue() {
    let mut fs = open_mem_fs();
    let test_path = "/private/notes/smoke-cache-1.md";
    let test_body = "# Cache upsert test\n";
    let ino = fs.upsert_brain_doc(test_path, test_body.as_bytes()).expect("upsert_brain_doc");
    assert_eq!(fs.brain_path_for_ino(ino).as_deref(), Some(test_path));
    assert_eq!(fs.db().get_dirty_since(ino), None);

    fs.enqueue_write(test_path, ino);
    assert_eq!(fs.push_queue_len(), 1);
    assert!(fs.db().get_dirty_since(ino).is_some());
}

#[test]
fn queued_deletions_forget_the_document() {
    let mut fs = open_mem_fs();
    let ino = fs.upsert_brain_doc("/private/d.md", b"x").unwrap();
    fs.enqueue_delete("/private/d.md");
    assert_eq!(fs.brain_path_for_ino(ino), None);
    let job = fs.db_mut().push_queue_claim_next(i64::MAX).unwrap();
    assert_eq!((job.brain_path.as_str(), job.op), ("/private/d.md", PushOp::Delete));
}

#[test]
fn raw_bytes_replace_content() {
    let mut fs = open_mem_fs();
    let ino = fs.upsert_brain_doc("/private/r.md", b"a longer text").unwrap();
    fs.rehydrate_raw_bytes(ino, b"short").unwrap();
    assert_eq!(fs.db().read_all_content(ino), b"short".to_vec());
    assert_eq!(fs.getattr(ino).unwrap().unwrap().size, 5);
}

#[test]
fn changes_come_out_once_and_in_order() {
    let mut db = open_mem_db();
    let first = db.drain_changes();
    assert!(matches!(first.as_slice(), [Change::PutInode(1, _)]));
    db.sync_meta_set("k", "1");
    db.sync_meta_set("k", "2");
    let batch = db.drain_changes();
    assert!(matches!(&batch[0], Change::PutMeta(k, v) if k == "k" && v == "1"));
    assert!(matches!(&batch[1], Change::PutMeta(k, v) if k == "k" && v == "2"));
    assert_eq!(batch.len(), 2);
    assert!(db.drain_changes().is_empty());
}
