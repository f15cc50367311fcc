//! Attributes, errors, brain paths and the in-memory filesystem.

use unisonfs::vfs::error::{DbError, IoError, VfsError};
use unisonfs::vfs::mem::MemFs;
use unisonfs::vfs::mode::{
    DEFAULT_DIR_MODE, DEFAULT_FILE_MODE, DEFAULT_SYMLINK_MODE, S_IFDIR, S_IFREG,
};
use unisonfs::vfs::path::{is_readonly_path, is_writable_path, normalize_brain_path, slugify};
use unisonfs::vfs::types::{
    block_count, FileAttr, FileType, SetAttr, TimeOrNow, Timestamp,
};

// ── Brain paths ─────────────────────────────────────────────────────────────

#[test]
fn private_path_passes_through() {
    assert_eq!(
        normalize_brain_path("/private/notes/foo.md"),
        Some("/private/notes/foo.md".to_string())
    );
}

#[test]
fn workspace_path_passes_through() {
    assert_eq!(
        normalize_brain_path("/workspace/people/daniel.md"),
        Some("/workspace/people/daniel.md".to_string())
    );
}

#[test]
fn workspace_teams_path_passes_through() {
    assert_eq!(
        normalize_brain_path("/workspace/teams/eng/docs/arch.md"),
        Some("/workspace/teams/eng/docs/arch.md".to_string())
    );
}

#[test]
fn system_path_rejected() {
    assert_eq!(normalize_brain_path("/system/search/semantic/foo.md"), None);
}

#[test]
fn bare_name_rewrites_to_private_notes() {
    assert_eq!(
        normalize_brain_path("my note"),
        Some("/private/notes/my-note.md".to_string())
    );
}

#[test]
fn names_become_slugs() {
    let cases = [
        ("/idea.md", "/private/notes/idea.md"),
        ("Q3 Plan (draft).md", "/private/notes/q3-plan-draft.md"),
        ("a--b", "/private/notes/a-b.md"),
        ("x.md.md", "/private/notes/x.md"),
        ("/other/root/Deep File.md", "/private/notes/deep-file.md"),
        ("keep_under_score", "/private/notes/keep_under_score.md"),
        ("Größe.md", "/private/notes/größe.md"),
        ("日本", "/private/notes/日本.md"),
        ("Hello,  World!", "/private/notes/hello-world.md"),
        ("-hello-world-", "/private/notes/hello-world.md"),
        ("/wiki/a.md", "/private/notes/a.md"),
        ("/skills/b", "/private/notes/b.md"),
        ("", "/private/notes/.md"),
    ];
    for (raw, want) in cases {
        assert_eq!(normalize_brain_path(raw).as_deref(), Some(want), "{raw}");
    }
}

#[test]
fn slugs_are_fixed() {
    assert_eq!(slugify("Hello,  World!"), "hello-world");
    assert_eq!(slugify("--A_b--"), "a_b");
    assert_eq!(slugify("!?"), "");
    for s in ["Hello,  World!", "Größe", "a--b", "", "Q3 (x)"] {
        let once = slugify(s);
        assert_eq!(slugify(&once), once);
    }
}

#[test]
fn normal_forms_are_writable_and_fixed() {
    for raw in ["x", "/wiki/a.md", "/skills/b", "/private/", "/workspace/c", "/a/b/c"] {
        let n = normalize_brain_path(raw).unwrap();
        assert!(is_writable_path(&n), "{raw}");
        assert_eq!(normalize_brain_path(&n), Some(n));
    }
}

#[test]
fn roots_are_told_apart() {
    assert!(is_writable_path("/private/x"));
    assert!(is_writable_path("/workspace/teams/eng/x"));
    assert!(!is_writable_path("/private"));
    assert!(!is_writable_path("/system/x"));
    assert!(!is_writable_path("/wiki/a.md"));
    assert!(!is_writable_path("/skills/b"));
    assert!(is_readonly_path("/system/x"));
    assert!(is_readonly_path("/sources/x"));
    assert!(!is_readonly_path("/private/x"));
    assert_eq!(normalize_brain_path("/sources/mail.md"), None);
}

/// Letters and numbers are those of the standard library, and lower case is
/// that of ASCII.
#[test]
fn slug_characters_follow_the_standard_library() {
    for c in (0u32..0x500).filter_map(char::from_u32) {
        if c == '/' {
            continue;
        }
        let raw = format!("a{c}b");
        let mid = if c.is_alphanumeric() || c == '_' {
            c.to_ascii_lowercase().to_string()
        } else {
            "-".to_string()
        };
        assert_eq!(
            normalize_brain_path(&raw),
            Some(format!("/private/notes/a{mid}b.md")),
            "U+{:04X}",
            c as u32
        );
    }
}

// ── Types ───────────────────────────────────────────────────────────────────

#[test]
fn attributes_start_with_defaults() {
    let ts = Timestamp { sec: 7, nsec: 8 };
    let f = FileAttr::new_file_with(3, DEFAULT_FILE_MODE, 10, 20, ts);
    assert_eq!(f.ino, 3);
    assert_eq!(f.nlink, 1);
    assert_eq!((f.uid, f.gid), (10, 20));
    assert_eq!((f.size, f.blocks), (0, 0));
    assert_eq!((f.atime, f.mtime, f.ctime), (ts, ts, ts));
    assert_eq!(f.blksize, 4096);
    assert!(f.is_file() && !f.is_directory() && !f.is_symlink());

    let d = FileAttr::new_dir(1, 0, 0);
    assert_eq!(d.mode, DEFAULT_DIR_MODE);
    assert_eq!(d.nlink, 2);
    assert!(d.is_directory());

    let l = FileAttr::new_symlink(2, 9, 0, 0);
    assert_eq!(l.mode, DEFAULT_SYMLINK_MODE);
    assert_eq!(l.size, 9);
    assert_eq!(l.file_type(), FileType::Symlink);
    assert_eq!(FileAttr::new_file(5, 1, 2).mode, DEFAULT_FILE_MODE);
}

#[test]
fn default_modes_are_type_and_permissions() {
    assert_eq!(DEFAULT_FILE_MODE, S_IFREG | 0o644);
    assert_eq!(DEFAULT_DIR_MODE, S_IFDIR | 0o755);
    assert_eq!(DEFAULT_SYMLINK_MODE, 0xA1FF);
}

#[test]
fn unknown_types_count_as_files() {
    let f = FileAttr::new_file_with(3, 0o010644, 0, 0, Timestamp::zero());
    assert_eq!(f.file_type(), FileType::Regular);
}

#[test]
fn blocks_are_rounded_up() {
    assert_eq!(block_count(0), 0);
    assert_eq!(block_count(1), 1);
    assert_eq!(block_count(512), 1);
    assert_eq!(block_count(513), 2);
    assert_eq!(block_count(u64::MAX), 36_028_797_018_963_968);
}

#[test]
fn timestamps() {
    assert_eq!(Timestamp::zero(), Timestamp { sec: 0, nsec: 0 });
    assert_eq!(Timestamp::from_secs(-5), Timestamp { sec: -5, nsec: 0 });
    assert_eq!(Timestamp::of_reading(Some((9, 4))), Timestamp { sec: 9, nsec: 4 });
    assert_eq!(Timestamp::of_reading(None), Timestamp::zero());
    let now = Timestamp::now();
    assert!(now.sec > 1_600_000_000);
    assert!(now.nsec < 1_000_000_000);
    assert_eq!(TimeOrNow::Now.resolve(now), now);
    assert_eq!(TimeOrNow::Time(Timestamp::from_secs(1)).resolve(now), Timestamp::from_secs(1));
}

// ── Errors ──────────────────────────────────────────────────────────────────

#[test]
fn errors_have_numbers_and_texts() {
    let io = |n: Option<i32>| {
        VfsError::Io(IoError { os_error: n, message: "disk on fire".to_string() })
    };
    let cases = [
        (VfsError::NotFound, libc::ENOENT, "entry not found"),
        (VfsError::AlreadyExists, libc::EEXIST, "entry already exists"),
        (VfsError::NotDirectory, libc::ENOTDIR, "not a directory"),
        (VfsError::IsDirectory, libc::EISDIR, "is a directory"),
        (VfsError::NotEmpty, libc::ENOTEMPTY, "directory not empty"),
        (VfsError::InvalidArgument("x".to_string()), libc::EINVAL, "invalid argument: x"),
        (VfsError::PermissionDenied, libc::EACCES, "permission denied"),
        (VfsError::NameTooLong, libc::ENAMETOOLONG, "name too long"),
        (io(Some(28)), 28, "I/O error: disk on fire"),
        (io(None), libc::EIO, "I/O error: disk on fire"),
        (
            VfsError::Database(DbError::NoRows),
            libc::EIO,
            "database error: Query returned no rows",
        ),
        (
            VfsError::Database(DbError::Full),
            libc::EIO,
            "database error: database or disk is full",
        ),
        (VfsError::Other("y".to_string()), libc::EIO, "other: y"),
    ];
    for (e, errno, text) in cases {
        assert_eq!(e.to_errno(), errno, "{text}");
        assert_eq!(e.message(), text);
    }
}

// ── In-memory filesystem ────────────────────────────────────────────────────

#[test]
fn root_exists_as_directory() {
    let fs = MemFs::new();
    let attr = fs.getattr(1).unwrap();
    assert!(attr.is_some());
    assert!(attr.unwrap().is_directory());
}

#[test]
fn create_and_lookup_file() {
    let mut fs = MemFs::new();
    let (attr, _) = fs.create_file(1, "hello.md", DEFAULT_FILE_MODE, 0, 0).unwrap();
    assert!(attr.is_file());
    let found = fs.lookup(1, "hello.md").unwrap();
    assert!(found.is_some());
}

#[test]
fn readdir_returns_created_files() {
    let mut fs = MemFs::new();
    fs.create_file(1, "a.md", DEFAULT_FILE_MODE, 0, 0).unwrap();
    fs.create_file(1, "b.md", DEFAULT_FILE_MODE, 0, 0).unwrap();
    let names = fs.readdir(1).unwrap().unwrap();
    assert!(names.contains(&"a.md".to_string()));
    assert!(names.contains(&"b.md".to_string()));
}

#[test]
fn write_and_read_round_trips() {
    let mut fs = MemFs::new();
    let (_, handle) = fs.create_file(1, "test.md", DEFAULT_FILE_MODE, 0, 0).unwrap();
    let written = handle.write(&mut fs, 0, b"hello world").unwrap();
    assert_eq!(written, 11);
    let read = handle.read(&fs, 0, 11).unwrap();
    assert_eq!(read, b"hello world");
}

#[test]
fn memory_writes_leave_zeros_in_gaps() {
    let mut fs = MemFs::new();
    let (a, h) = fs.create_file(1, "f", DEFAULT_FILE_MODE, 0, 0).unwrap();
    h.write(&mut fs, 3, b"xy").unwrap();
    assert_eq!(h.read(&fs, 0, 10).unwrap(), b"\0\0\0xy");
    assert_eq!(h.read(&fs, 4, 10).unwrap(), b"y");
    assert_eq!(h.read(&fs, 5, 10).unwrap(), b"");
    assert_eq!(fs.getattr(a.ino).unwrap().unwrap().size, 5);
    h.truncate(&mut fs, 4).unwrap();
    assert_eq!(h.read(&fs, 0, 10).unwrap(), b"\0\0\0x");
    assert_eq!(h.getattr(&fs).unwrap().size, 4);
}

#[test]
fn memory_directories() {
    let mut fs = MemFs::new();
    let d = fs.mkdir(1, "d", 0o755, 1, 2).unwrap();
    assert!(d.is_directory());
    assert_eq!(fs.mkdir(1, "d", 0o755, 1, 2).unwrap_err(), VfsError::AlreadyExists);
    let (f, _) = fs.create_file(d.ino, "f", DEFAULT_FILE_MODE, 0, 0).unwrap();
    assert_eq!(fs.rmdir(1, "d").unwrap_err(), VfsError::NotEmpty);
    assert_eq!(fs.unlink(1, "d").unwrap_err(), VfsError::IsDirectory);
    assert_eq!(fs.rmdir(d.ino, "f").unwrap_err(), VfsError::NotDirectory);
    assert_eq!(fs.mkdir(f.ino, "x", 0o755, 0, 0).unwrap_err(), VfsError::NotDirectory);
    fs.unlink(d.ino, "f").unwrap();
    assert_eq!(fs.lookup(d.ino, "f").unwrap(), None);
    fs.rmdir(1, "d").unwrap();
    assert_eq!(fs.lookup(1, "d").unwrap(), None);
    assert_eq!(fs.unlink(1, "nope").unwrap_err(), VfsError::NotFound);
    assert!(fs.getattr(1).unwrap().unwrap().is_directory());
}

#[test]
fn memory_links_and_renames() {
    let mut fs = MemFs::new();
    let (a, h) = fs.create_file(1, "a", DEFAULT_FILE_MODE, 0, 0).unwrap();
    h.write(&mut fs, 0, b"one").unwrap();
    let linked = fs.link(a.ino, 1, "b").unwrap();
    assert_eq!(linked.nlink, 2);
    fs.unlink(1, "a").unwrap();
    assert_eq!(h.read(&fs, 0, 9).unwrap(), b"one");
    fs.rename(1, "b", 1, "c").unwrap();
    assert_eq!(fs.lookup(1, "b").unwrap(), None);
    assert_eq!(fs.lookup(1, "c").unwrap().unwrap().ino, a.ino);
    let l = fs.symlink(1, "s", "c", 0, 0).unwrap();
    assert!(l.is_symlink());
    assert_eq!(fs.readlink(l.ino).unwrap().as_deref(), Some("c"));
    assert_eq!(fs.readlink(a.ino).unwrap(), None);
}

#[test]
fn memory_setattr_keeps_the_type() {
    let mut fs = MemFs::new();
    let (a, _) = fs.create_file(1, "a", DEFAULT_FILE_MODE, 0, 0).unwrap();
    let sa = SetAttr { mode: Some(0o600), uid: Some(5), ..SetAttr::default() };
    let b = fs.setattr(a.ino, sa).unwrap();
    assert!(b.is_file());
    assert_eq!(b.mode, S_IFREG | 0o600);
    assert_eq!(b.uid, 5);
    assert_eq!(fs.setattr(99, SetAttr::default()).unwrap_err(), VfsError::NotFound);
}
