//! Commands, markers, paths, backends and the life of a mount.

use unisonfs::api::dto::{ProvisionResp, VerifyResp, WhoamiInfo};
use unisonfs::api::error::ApiError;
use unisonfs::cache::file::DbFile;
use unisonfs::cache::fs::FileHandle;
use unisonfs::cmd::grep::{in_scope, literal_limit, literal_line, search_request, semantic_line};
use unisonfs::cmd::init::{already_installed, rc_file, WRAPPER};
use unisonfs::cmd::install::{default_install_dir, executable, path_hint};
use unisonfs::cmd::login::{login_outcome, typed_token, verify_outcome, Verified};
use unisonfs::cmd::mount::{
    daemon_args, import_path, memory_paths, tag_for, tag_state, DaemonArgs, TagState,
};
use unisonfs::cmd::provision::{provision_step, ProvisionEvent, ProvisionState};
use unisonfs::cmd::startup::{
    startup_outcome, wait_for_ready, Phase, StartupProgress, StartupReporter, WaitStep,
};
use unisonfs::cmd::status::{list_line, status_lines, whoami_lines};
use unisonfs::cmd::unmount::{find_mount, mount_source, tag_of, MountSource};
use unisonfs::daemon::lifecycle::{
    daemon_plan, ends_on_failure, foreground_plan, inactive, next_action, Action, DaemonFlags,
    ForegroundFlags,
};
use unisonfs::daemon::protocol::DaemonStatus;
use unisonfs::daemon::{log_path, pid_path, read_pid, socket_path, startup_path};
use unisonfs::marker::{
    find_marker, format_marker, parse_all_markers, parse_marker_text, read_unisonfs_marker, Probe,
    UnisonMarker, MARKER_FILENAME,
};
use unisonfs::mount::fuse::{self, FuseError, OpenFiles};
use unisonfs::mount::nfs::{self, NfsStatus, NfsTime, SetTime};
use unisonfs::mount::MountBackend;
use unisonfs::paths::{absolute_path, clean_path, file_name, join_path};
use unisonfs::vfs::error::VfsError;
use unisonfs::vfs::mode::DEFAULT_FILE_MODE;
use unisonfs::vfs::types::{DirEntry, FileAttr, FileType, FilesystemStats, TimeOrNow, Timestamp};

// ── Markers ─────────────────────────────────────────────────────────────────

#[test]
fn round_trip_format_parse() {
    let m = UnisonMarker {
        tag: Some("my-tag".to_string()),
        path: Some("/private/notes".to_string()),
        description: Some("test workspace".to_string()),
    };
    let text = format_marker(&m);
    let parsed = parse_marker_text(&text);
    assert_eq!(parsed.tag.as_deref(), Some("my-tag"));
    assert_eq!(parsed.path.as_deref(), Some("/private/notes"));
    assert_eq!(parsed.description.as_deref(), Some("test workspace"));
}

#[test]
fn ignores_unknown_keys() {
    let text = "tag = \"x\"\nunknown_key = \"y\"\n";
    let m = parse_marker_text(text);
    assert_eq!(m.tag.as_deref(), Some("x"));
}

#[test]
fn find_marker_walks_up() {
    // No marker yet
    let none = vec![Probe::Absent, Probe::Absent, Probe::Absent];
    assert!(find_marker(&none).is_none());

    // The nearest marker going up is the outermost directory's
    let probes =
        vec![Probe::Absent, Probe::Absent, Probe::Text("tag = \"root\"\n".to_string())];
    let (at, m) = find_marker(&probes).unwrap();
    assert_eq!(m.tag.as_deref(), Some("root"));
    assert_eq!(at, 2);
}

#[test]
fn find_marker_nearest_wins() {
    let probes = vec![
        Probe::Text("tag = \"inner\"\n".to_string()),
        Probe::Text("tag = \"outer\"\n".to_string()),
    ];
    let (_, m) = find_marker(&probes).unwrap();
    assert_eq!(m.tag.as_deref(), Some("inner"), "nearest (inner) should win");
    assert!(find_marker(&vec![Probe::Unreadable, Probe::Text(String::new())]).is_none());
}

#[test]
fn read_unisonfs_marker_direct() {
    let m = read_unisonfs_marker(&Probe::Text("tag = \"direct\"\n".to_string())).unwrap();
    assert_eq!(m.tag.as_deref(), Some("direct"));
    assert!(read_unisonfs_marker(&Probe::Absent).is_none());
    assert!(read_unisonfs_marker(&Probe::Unreadable).is_none());
}

#[test]
fn all_markers_in_order() {
    let probes = vec![
        Probe::Text("tag = \"outer\"".to_string()),
        Probe::Unreadable,
        Probe::Absent,
        Probe::Text("tag = \"inner\"".to_string()),
    ];
    let all = parse_all_markers(&probes);
    assert_eq!(all.len(), 2);
    assert_eq!((all[0].0, all[0].1.tag.as_deref()), (0, Some("outer")));
    assert_eq!((all[1].0, all[1].1.tag.as_deref()), (3, Some("inner")));
}

#[test]
fn marker_values_survive_quotes_and_odd_characters() {
    for v in ["", "a\"b", "\"q", "back\\slash\\", "tab\tend ", "x = y # z", "ü\r", "\\\"x"] {
        let m = UnisonMarker { tag: Some(v.to_string()), path: None, description: None };
        let back = parse_marker_text(&format_marker(&m));
        assert_eq!(back.tag.as_deref(), Some(v), "{v:?}");
        assert_eq!(back.path, None);
    }
    assert_eq!(
        format_marker(&UnisonMarker {
            tag: Some("a\"b".to_string()),
            path: None,
            description: Some("d".to_string())
        }),
        "tag = \"a\\\"b\"\ndescription = \"d\"\n"
    );
}

#[test]
fn marker_lines_are_forgiving() {
    let m = parse_marker_text("# tag = \"no\"\n\n  tag=one \r\npath = /p\nnonsense\ntag = two");
    assert_eq!(m.tag.as_deref(), Some("two"));
    assert_eq!(m.path.as_deref(), Some("/p"));
    assert_eq!(m.description, None);
    assert_eq!(MARKER_FILENAME, ".unisonfs");
}

// ── Paths ───────────────────────────────────────────────────────────────────

#[test]
fn paths_agree_with_the_standard_library() {
    let paths = [
        "/a/b", "/a/b/", "a", "", "/", "..", "a/..", "a/.", "./a", ".", "/a//b", "/..", "a/b/../c",
        "/.hidden", "x.md",
    ];
    for p in paths {
        let std = std::path::Path::new(p);
        assert_eq!(
            file_name(p).as_deref(),
            std.file_name().and_then(|n| n.to_str()),
            "name of {p:?}"
        );
        for q in paths {
            assert_eq!(
                join_path(p, q),
                std.join(q).to_str().unwrap(),
                "{p:?} joined with {q:?}"
            );
        }
    }
}

#[test]
fn dots_are_resolved() {
    assert_eq!(clean_path("/a/./b/../c//d/"), "/a/c/d");
    assert_eq!(clean_path("/../x"), "/x");
    assert_eq!(clean_path("/"), "/");
    assert_eq!(clean_path(&clean_path("/a/../..//b/.")), "/b");
    assert_eq!(absolute_path("/home/ann", "brain"), "/home/ann/brain");
    assert_eq!(absolute_path("/home/ann", "../bob/brain"), "/home/bob/brain");
    assert_eq!(absolute_path("/home/ann", "/mnt/b"), "/mnt/b");
}

// ── Mount and unmount ───────────────────────────────────────────────────────

#[test]
fn tags_come_from_paths() {
    assert_eq!(tag_for(None, "/home/ann/brain"), "brain");
    assert_eq!(tag_for(Some("t".to_string()), "/home/ann/brain"), "t");
    assert_eq!(tag_for(None, "/"), "brain");
    assert_eq!(tag_of("/home/ann/work"), "work");
    assert_eq!(tag_of("work"), "work");
    assert_eq!(tag_of(".."), "..");
}

#[test]
fn tags_are_mounted_once() {
    assert_eq!(tag_state("t", "/m", None, false), TagState::Free);
    assert_eq!(tag_state("t", "/m", Some(7), false), TagState::Stale);
    assert_eq!(
        tag_state("t", "/m", Some(7), true),
        TagState::Taken(
            "tag 't' is already mounted (pid 7). Use `unisonfs unmount /m` first.".to_string()
        )
    );
}

#[test]
fn mounts_are_found_in_the_table() {
    let table = "proc on /proc type proc (rw)\n\
                 127.0.0.1:/ on /home/ann/other type nfs (rw,vers=3)\n\
                 127.0.0.1:/ on /home/ann/brain type nfs (rw,vers=3)\n";
    assert_eq!(find_mount(table, "brain").as_deref(), Some("/home/ann/brain"));
    let mac = "127.0.0.1:/ on /Users/ann/brain (nfs, nodev)\n";
    assert_eq!(find_mount(mac, "brain").as_deref(), Some("/Users/ann/brain"));
    assert_eq!(find_mount(mac, "proc"), None);
    assert_eq!(find_mount("127.0.0.1:/ nowhere\n127.0.0.1:/ on  (nfs)\n", "brain"), None);
    assert_eq!(find_mount("", "brain"), None);
    assert_eq!(mount_source(true, false), MountSource::Argument);
    assert_eq!(mount_source(false, true), MountSource::Argument);
    assert_eq!(mount_source(false, false), MountSource::TableOrDaemon);
}

#[test]
fn memory_paths_are_trimmed() {
    assert_eq!(
        memory_paths(" /private/a , ,/workspace/b,"),
        vec!["/private/a".to_string(), "/workspace/b".to_string()]
    );
    assert!(memory_paths("").is_empty());
}

#[test]
fn markdown_files_are_imported() {
    assert_eq!(import_path("a.md").as_deref(), Some("/private/notes/a.md"));
    assert_eq!(import_path(".hidden.md"), None);
    assert_eq!(import_path(".md"), None);
    assert_eq!(import_path("a.txt"), None);
    assert_eq!(import_path("a.md.bak"), None);
    assert_eq!(import_path("a.MD"), None);
}

#[test]
fn daemons_get_their_arguments() {
    let mut a = DaemonArgs {
        mount_path: "/m".to_string(),
        tag: "t".to_string(),
        sync_interval: 30,
        deletion_scan_interval: 300,
        memory_paths: String::new(),
        no_import: false,
        no_sync: false,
        no_agent_hint: false,
    };
    let base = "daemon-inner --mountpoint /m --tag t --delta-interval-secs 30 \
                --deletion-scan-interval-secs 300";
    assert_eq!(daemon_args(&a).join(" "), base);
    a.memory_paths = "/private/".to_string();
    a.no_import = true;
    a.no_sync = true;
    a.no_agent_hint = true;
    assert_eq!(
        daemon_args(&a).join(" "),
        format!("{base} --memory-paths /private/ --no-import --no-sync --no-agent-hint")
    );
}

#[test]
fn backends_have_names() {
    assert_eq!(MountBackend::from_str("fuse"), Ok(MountBackend::Fuse));
    assert_eq!(MountBackend::from_str("NFS"), Ok(MountBackend::Nfs));
    assert_eq!(
        MountBackend::from_str("SMB"),
        Err("unknown mount backend 'smb'; choose 'fuse' or 'nfs'".to_string())
    );
    assert_eq!(MountBackend::default_for_platform(true), MountBackend::Fuse);
    assert_eq!(MountBackend::default_for_platform(false), MountBackend::Nfs);
    for b in [MountBackend::Fuse, MountBackend::Nfs] {
        assert_eq!(MountBackend::from_str(&b.name()), Ok(b));
    }
}

// ── Adapters ────────────────────────────────────────────────────────────────

fn entry(ino: u64, name: &str) -> DirEntry {
    DirEntry {
        name: name.to_string(),
        attr: FileAttr::new_file_with(ino, DEFAULT_FILE_MODE, 1, 2, Timestamp::from_secs(9)),
    }
}

#[test]
fn fuse_answers() {
    assert_eq!(fuse::answered::<u8>(Ok(1)), Ok(1));
    assert_eq!(
        fuse::answered::<u8>(Err(VfsError::NotFound)),
        Err(FuseError::Vfs(VfsError::NotFound))
    );
    assert_eq!(fuse::found(Ok(Some(2u8))), Ok(2));
    assert_eq!(fuse::found::<u8>(Ok(None)), Err(FuseError::NoEntry));
    assert_eq!(fuse::listed::<u8>(Ok(None)), Err(FuseError::NotDir));
    assert_eq!(fuse::name_of(b"a\xffb"), "a\u{fffd}b");
    assert_eq!(fuse::link_text(b"ok"), Ok("ok".to_string()));
    assert_eq!(fuse::link_text(b"\xff"), Err(FuseError::Invalid));
}

#[test]
fn fuse_attributes() {
    let a = entry(5, "x").attr;
    let k = fuse::to_fuser_attr(&a);
    assert_eq!((k.ino, k.perm, k.kind), (5, 0o644, FileType::Regular));
    assert_eq!((k.mtime.secs, k.mtime.nanos), (9, 0));
    let s = fuse::statfs(FilesystemStats { inodes: 3, bytes_used: 10_000 });
    assert_eq!((s.blocks, s.files, s.bsize, s.namelen), (2, 3, 4096, 255));
    assert_eq!(s.bfree, u64::MAX / 2);
    assert_eq!(
        fuse::specific_time(Some((4, 5))),
        TimeOrNow::Time(Timestamp { sec: 4, nsec: 5 })
    );
}

#[test]
fn fuse_listings_go_on_at_an_offset() {
    let entries = vec![entry(5, "a"), entry(6, "b"), entry(7, "c")];
    let lines = fuse::readdir(&entries, 1);
    assert_eq!(lines.len(), 2);
    assert_eq!((lines[0].ino, lines[0].next, lines[0].name.as_str()), (6, 2, "b"));
    assert_eq!((lines[1].ino, lines[1].next), (7, 3));
    assert!(fuse::readdir(&entries, 3).is_empty());
    assert!(fuse::readdir(&entries, u64::MAX).is_empty());
}

#[test]
fn open_files_have_numbers() {
    let mut t = OpenFiles::new();
    let a = t.alloc_fh(FileHandle::File(DbFile::new(11)));
    let b = t.alloc_fh(FileHandle::Profile);
    assert_eq!((a, b), (1, 2));
    assert!(matches!(t.get_file(a), Ok(FileHandle::File(f)) if f.ino == 11));
    assert!(matches!(t.get_file(b), Ok(FileHandle::Profile)));
    t.release_fh(a);
    assert!(matches!(t.get_file(a), Err(FuseError::BadHandle)));
    assert!(t.get_file(b).is_ok());
    t.destroy();
    assert!(t.get_file(b).is_err());
    assert_eq!(t.alloc_fh(FileHandle::Profile), 3);
}

#[test]
fn nfs_answers() {
    assert_eq!(nfs::name_of(b"n.md"), Ok("n.md".to_string()));
    assert_eq!(nfs::name_of(b"\xc3"), Err(NfsStatus::Invalid));
    assert_eq!(nfs::answered::<u8>(Err(VfsError::NotEmpty)), Err(NfsStatus::Io));
    assert_eq!(nfs::found(Ok(Some(1u8)), NfsStatus::NoEntry), Ok(1));
    assert_eq!(nfs::found::<u8>(Ok(None), NfsStatus::NotDir), Err(NfsStatus::NotDir));
    assert!(nfs::reaches_end(5, 5, 10));
    assert!(!nfs::reaches_end(5, 4, 10));
    let mut a = entry(5, "x").attr;
    a.blocks = 3;
    a.mtime = Timestamp { sec: -1, nsec: 2 };
    let n = nfs::vfs_attr_to_nfs(&a);
    assert_eq!((n.fileid, n.mode, n.used), (5, 0o644, 1536));
    assert_eq!((n.mtime.seconds, n.mtime.nseconds), (u32::MAX, 2));
    assert_eq!(nfs::wanted_time(SetTime::DontChange), None);
    assert_eq!(nfs::wanted_time(SetTime::ServerTime), Some(TimeOrNow::Now));
    assert_eq!(
        nfs::wanted_time(SetTime::ClientTime(NfsTime { seconds: 8, nseconds: 9 })),
        Some(TimeOrNow::Time(Timestamp { sec: 8, nsec: 9 }))
    );
    assert_eq!(
        nfs::linux_options(2049),
        "port=2049,mountport=2049,proto=tcp,nfsvers=3,nolock,soft"
    );
    assert_eq!(
        nfs::macos_options(1),
        "vers=3,tcp,port=1,mountport=1,soft,nolocks,locallocks,nfc"
    );
}

#[test]
fn nfs_pages_neither_repeat_nor_skip() {
    let entries: Vec<DirEntry> = (0..7).map(|i| entry(100 + i, "e")).collect();
    let mut seen = Vec::new();
    let mut after = 0;
    loop {
        let p = nfs::readdir(&entries, after, 3);
        for e in &entries[p.start..p.end] {
            seen.push(e.attr.ino);
        }
        if p.last {
            break;
        }
        after = entries[p.end - 1].attr.ino;
    }
    assert_eq!(seen, (100..107).collect::<Vec<u64>>());
    let lost = nfs::readdir(&entries, 999, 3);
    assert_eq!((lost.start, lost.end, lost.last), (7, 7, true));
}

// ── Startup and life ────────────────────────────────────────────────────────

#[test]
fn startup_reports() {
    let p = StartupProgress::init();
    assert_eq!((p.phase, p.pct), (Phase::Init, Some(0)));
    assert_eq!(p.message, "Starting unisonfs daemon");
    let p = StartupProgress::deletion_scan(1, 4, 7);
    assert_eq!((p.message.as_str(), p.pct), ("Deletion scan: page 1/4", Some(7)));
    assert_eq!(StartupProgress::deletion_scan(1, 0, 7).pct, None);
    let p = StartupProgress::initial_pull(5, 10, 30);
    assert_eq!((p.message.as_str(), p.pct), ("Pulling brain documents: 5/10", Some(60)));
    assert_eq!(StartupProgress::mounting().pct, Some(90));
    let p = StartupProgress::ready(12, "3.4");
    assert_eq!((p.message.as_str(), p.pct), ("Mounted (12 docs, 3.4s)", Some(100)));
    let p = StartupProgress::failed("boom");
    assert_eq!(p.message, "Startup failed: boom");
    assert_eq!(p.error.as_deref(), Some("boom"));
    assert_eq!(Phase::InitialPull.label(), "Pulling brain documents");
    assert_eq!(Phase::Init.label(), "Initialising");
}

#[test]
fn startups_are_waited_for() {
    assert_eq!(wait_for_ready(Some(Phase::Ready), true), WaitStep::Finished);
    assert_eq!(wait_for_ready(Some(Phase::Failed), false), WaitStep::Finished);
    assert_eq!(wait_for_ready(Some(Phase::Mounting), false), WaitStep::Sleep(200));
    assert_eq!(wait_for_ready(None, true), WaitStep::TimedOut);
    assert_eq!(startup_outcome(&None), Ok(" (timed out waiting for daemon)".to_string()));
    assert_eq!(
        startup_outcome(&Some(StartupProgress::failed("x"))),
        Err("daemon startup failed: x".to_string())
    );
    assert_eq!(
        startup_outcome(&Some(StartupProgress::mounting())),
        Ok(" Mounting filesystem".to_string())
    );
    let r = StartupReporter::new("/run", "t");
    assert_eq!(r.path(), "/run/t.startup");
    let a = r.elapsed();
    assert!(r.elapsed() >= a);
}

#[test]
fn daemons_live_in_order() {
    let f = DaemonFlags { memory_paths: true, no_import: false, no_sync: false, no_agent_hint: false };
    let plan = daemon_plan(f);
    let at = |a: Action| plan.iter().position(|x| *x == a).unwrap();
    assert!(at(Action::VerifyToken) < at(Action::OpenCache));
    assert!(at(Action::InitialPull) < at(Action::Mount));
    assert!(at(Action::Mount) < at(Action::ReportReady));
    assert!(at(Action::ReportReady) < at(Action::StartSync(true)));
    assert!(at(Action::StartSync(true)) < at(Action::Wait));
    assert!(at(Action::Wait) < at(Action::DrainTasks(30)));
    assert!(plan.contains(&Action::StartSync(true)));
    assert!(at(Action::DrainTasks(30)) < at(Action::Unmount));
    assert!(at(Action::FinalScan) < at(Action::Unmount));
    assert!(at(Action::Unmount) < at(Action::RemoveStateFiles));
    assert!(!ends_on_failure(Action::Unmount));
    assert_eq!(plan.len(), 25);
    let bare = daemon_plan(DaemonFlags {
        memory_paths: false,
        no_import: true,
        no_sync: true,
        no_agent_hint: true,
    });
    assert_eq!(bare.len(), 21);
    assert!(bare.contains(&Action::StartSync(false)));
    assert!(!bare.contains(&Action::InstallHint));
    assert_eq!(next_action(&plan, 0, false), Some(Action::CreateStateDir));
    assert_eq!(next_action(&plan, 4, true), None);
    assert_eq!(next_action(&plan, 6, true), Some(Action::SetMemoryPaths));
    assert_eq!(next_action(&plan, plan.len(), false), None);
    assert!(ends_on_failure(Action::Mount) && !ends_on_failure(Action::InitialPull));
    assert!(!inactive(1_000_000, 0));
    assert!(!inactive(59, 60) && inactive(60, 60));
}

#[test]
fn ephemeral_mounts_spare_the_cache_file() {
    let mut f = ForegroundFlags {
        memory_paths: false,
        no_import: false,
        no_sync: false,
        no_agent_hint: false,
        clean: true,
        ephemeral: true,
        drain_timeout: 5,
    };
    let plan = foreground_plan(f);
    assert!(!plan.contains(&Action::WipeCache) && !plan.contains(&Action::OpenCache));
    assert!(plan.contains(&Action::Unmount));
    assert!(plan.contains(&Action::OpenMemoryCache) && plan.contains(&Action::DrainTasks(5)));
    f.ephemeral = false;
    let plan = foreground_plan(f);
    assert!(plan.contains(&Action::WipeCache) && plan.contains(&Action::OpenCache));
    assert_eq!(plan.last(), Some(&Action::RemoveStateFiles));
}

#[test]
fn daemon_files() {
    assert_eq!(pid_path("/run", "t"), "/run/t.pid");
    assert_eq!(socket_path("/run", "t"), "/run/t.sock");
    assert_eq!(log_path("/cache", "t"), "/cache/t.log");
    assert_eq!(startup_path("/run", "t"), "/run/t.startup");
    assert_eq!(read_pid(" 1234\n"), Some(1234));
    assert_eq!(read_pid("+7"), Some(7));
    assert_eq!(read_pid("4294967296"), None);
    assert_eq!(read_pid("-1"), None);
    assert_eq!(read_pid(""), None);
}

// ── Other commands ──────────────────────────────────────────────────────────

#[test]
fn shells() {
    assert_eq!(unisonfs::cmd::init::detect_shell(Some("/bin/zsh")), "zsh");
    assert_eq!(unisonfs::cmd::init::detect_shell(Some("/bin/fish")), "bash");
    assert_eq!(unisonfs::cmd::init::detect_shell(None), "bash");
    assert_eq!(rc_file("bash"), Ok(".bashrc".to_string()));
    assert_eq!(rc_file("zsh"), Ok(".zshrc".to_string()));
    let e = rc_file("fish").unwrap_err();
    assert!(e.starts_with("unsupported shell 'fish'; run manually:\n# sgrep"));
    assert!(e.ends_with("}"));
    assert!(already_installed(WRAPPER));
    assert!(!already_installed("sgrep() {}"));
    assert_eq!(unisonfs::cmd::install::detect_shell(Some("/usr/bin/nu")).as_deref(), Some("nu"));
    assert_eq!(unisonfs::cmd::install::detect_shell(Some("")), None);
}

#[test]
fn install_places_and_hints() {
    assert_eq!(default_install_dir(Some("/home/a"), None), "/home/a/.local/bin");
    assert_eq!(default_install_dir(None, Some("/h")), "/h/.local/bin");
    assert_eq!(default_install_dir(None, None), "/usr/local/bin");
    assert_eq!(executable(0o644), 0o755);
    assert_eq!(
        path_hint(Some("fish"), "/b"),
        "\n/b is not in your PATH.\nAdd it by running:\n\n    fish_add_path \"/b\"\n\nor add to ~/.config/fish/config.fish.\n"
    );
    assert!(path_hint(Some("nu"), "/b").contains("$env.PATH = ($env.PATH | append \"/b\")"));
    assert!(path_hint(Some("zsh"), "/b").contains("or add to ~/.zshrc."));
    assert!(path_hint(None, "/b").contains("export PATH=\"$PATH:/b\""));
    assert!(path_hint(None, "/b").contains("your shell's rc file"));
}

#[test]
fn searches_and_their_results() {
    assert_eq!(literal_limit(None), Some(50));
    assert_eq!(literal_limit(Some(3)), Some(3));
    let r = search_request("q".to_string(), None, vec![]);
    assert_eq!((r.q.as_str(), r.k), ("q", Some(10)));
    assert_eq!(literal_line("/a.md", None), "/a.md: (no title)");
    assert_eq!(semantic_line("/a.md", "0.900", Some("T"), None), "/a.md [0.900] — T");
    assert_eq!(
        semantic_line("/a.md", "0.900", None, Some("h")),
        "/a.md [0.900] — (no title)\n  h"
    );
}

#[test]
fn searches_can_be_restricted_to_a_prefix() {
    assert!(in_scope("/workspace/people/ann.md", None));
    assert!(in_scope("/workspace/people/ann.md", Some("workspace/")));
    assert!(in_scope("/workspace/people/ann.md", Some("/workspace/people/")));
    assert!(!in_scope("/private/notes/a.md", Some("workspace/")));
}

#[test]
fn status_and_account_lines() {
    let mut s = DaemonStatus {
        tag: "t".to_string(),
        mount_path: "/m".to_string(),
        push_queue_len: 2,
        last_pull_at: Some(40),
        pid: 9,
    };
    assert_eq!(
        status_lines(&s, 100),
        vec![
            "Tag:            t".to_string(),
            "Mount:          /m".to_string(),
            "PID:            9".to_string(),
            "Push queue:     2 items".to_string(),
            "Last pull:      60ms ago".to_string(),
        ]
    );
    s.last_pull_at = None;
    assert_eq!(status_lines(&s, 100)[4], "Last pull:      never");
    let w = WhoamiInfo {
        user_id: "u".to_string(),
        user_email: "e".to_string(),
        tenant_id: "ti".to_string(),
        tenant_name: "tn".to_string(),
        tenant_verified: true,
        scopes: vec!["a".to_string(), "b".to_string()],
    };
    assert_eq!(
        whoami_lines(&w, "http://x"),
        vec![
            "User:    e (u)".to_string(),
            "Tenant:  tn (ti) [verified: true]".to_string(),
            "Scopes:  a, b".to_string(),
            "API URL: http://x".to_string(),
        ]
    );
    assert_eq!(list_line("t", 4), "t (pid 4)");
    assert_eq!(login_outcome(&Ok(w)), Ok("ok (workspace: tn, email: e)".to_string()));
    assert_eq!(
        login_outcome(&Err(ApiError::Auth)),
        Err("Invalid token — authentication failed.".to_string())
    );
    assert_eq!(
        login_outcome(&Err(ApiError::NotFound)),
        Ok("warning: could not verify (not found). Saving anyway.".to_string())
    );
    assert_eq!(typed_token("  k \n"), Ok("k".to_string()));
    assert_eq!(typed_token(" \n"), Err("Token cannot be empty.".to_string()));
}

#[test]
fn verifications() {
    let resp = |verified, key: Option<&str>| VerifyResp {
        verified,
        tenant_id: None,
        api_key: key.map(String::from),
    };
    assert!(matches!(verify_outcome(resp(false, Some("k"))), Verified::Refused));
    assert!(matches!(verify_outcome(resp(true, None)), Verified::Durable));
    assert!(matches!(
        verify_outcome(resp(true, Some("k"))),
        Verified::NewToken(c) if c.token == "k" && c.api_url.is_none()
    ));
}

// ── Provisioning ────────────────────────────────────────────────────────────

fn provisioning(email: Option<&str>, request_key: bool, code: Option<&str>) -> ProvisionState {
    ProvisionState::new(email.map(String::from), request_key, code.map(String::from))
}

/// One step: the lines that are said, and the work as it prints.
fn turn(state: ProvisionState, event: ProvisionEvent) -> (ProvisionState, Vec<String>, String) {
    assert!(state.waits_for(&event), "{event:?}");
    let (next, action) = provision_step(state, event);
    (next, action.says, format!("{:?}", action.work))
}

fn new_account() -> ProvisionEvent {
    ProvisionEvent::Provisioned(Ok(ProvisionResp {
        api_key: "usk_new".to_string(),
        tenant_id: "t".to_string(),
        status: "unverified".to_string(),
        email_sent: true,
        message: None,
    }))
}

fn verified(verified: bool, key: Option<&str>) -> ProvisionEvent {
    ProvisionEvent::Verified(Ok(VerifyResp {
        verified,
        tenant_id: None,
        api_key: key.map(String::from),
    }))
}

#[test]
fn accounts_are_made_saved_and_verified() {
    let s = provisioning(None, false, None);
    let (s, says, work) = turn(s, ProvisionEvent::Begun);
    assert!(says.is_empty());
    assert_eq!(work, "AskEmail");
    let (s, says, work) = turn(s, ProvisionEvent::Typed(Some(" a@x \n".to_string())));
    assert_eq!(says, vec!["Provisioning new Unison account for a@x...".to_string()]);
    assert_eq!(work, "Provision(\"a@x\")");
    let (s, says, work) = turn(s, new_account());
    assert_eq!(
        says,
        vec![
            "Provisioned (status: unverified). Check your email for the OTP verification code."
                .to_string()
        ]
    );
    assert_eq!(work, "Save(Credentials { token: \"usk_new\", api_url: None })");
    let (s, says, work) = turn(s, ProvisionEvent::Saved);
    assert_eq!(
        says,
        vec!["Unverified token saved (expires in 72h if not verified).".to_string()]
    );
    assert_eq!(work, "AskCode");
    let (s, says, work) = turn(s, ProvisionEvent::Typed(Some("123 \n".to_string())));
    assert_eq!(says, vec!["Verifying OTP...".to_string()]);
    assert_eq!(work, "Verify(\"a@x\", \"123\")");
    let (s, says, work) = turn(s, verified(true, None));
    assert_eq!(says, vec!["Verified. Existing token is now durable.".to_string()]);
    assert_eq!(work, "Done");
    assert!(!s.waits_for(&ProvisionEvent::Begun));
}

#[test]
fn keys_are_recovered() {
    let s = provisioning(Some("a@x"), true, Some("9"));
    let (s, says, work) = turn(s, ProvisionEvent::Begun);
    assert_eq!(says, vec!["Requesting recovery key for a@x...".to_string()]);
    assert_eq!(work, "RequestKey(\"a@x\")");
    let (s, says, work) = turn(s, ProvisionEvent::KeyRequested(Ok(())));
    assert_eq!(
        says,
        vec!["Check your email for the OTP code.".to_string(), "Verifying OTP...".to_string()]
    );
    assert_eq!(work, "Verify(\"a@x\", \"9\")");
    let (s, says, work) = turn(s, verified(true, Some("usk_old")));
    assert!(says.is_empty());
    assert_eq!(work, "Save(Credentials { token: \"usk_old\", api_url: None })");
    let (_, says, work) = turn(s, ProvisionEvent::Saved);
    assert_eq!(says, vec!["Verified. New token saved.".to_string()]);
    assert_eq!(work, "Done");
}

#[test]
fn provisioning_ends_early() {
    let (s, _, _) = turn(provisioning(None, false, None), ProvisionEvent::Begun);
    let (_, _, work) = turn(s, ProvisionEvent::Typed(None));
    assert_eq!(work, "Fail(\"No email provided. Pass --email.\")");

    let begun = |key| turn(provisioning(Some("a@x"), key, None), ProvisionEvent::Begun).0;
    let conflict = ProvisionEvent::Provisioned(Err(ApiError::Conflict("c".to_string())));
    let (_, says, work) = turn(begun(false), conflict);
    assert_eq!(
        says,
        vec![
            "Account already exists for a@x. Use --request-key to recover your token.".to_string()
        ]
    );
    assert_eq!(work, "Done");
    let (_, says, work) = turn(begun(false), ProvisionEvent::Provisioned(Err(ApiError::NotFound)));
    assert!(says.is_empty());
    assert_eq!(work, "Fail(\"not found\")");
    let (_, _, work) = turn(begun(true), ProvisionEvent::KeyRequested(Err(ApiError::NotFound)));
    assert_eq!(work, "Fail(\"not found\")");

    let code_asked = || turn(begun(true), ProvisionEvent::KeyRequested(Ok(()))).0;
    let (_, says, work) = turn(code_asked(), ProvisionEvent::Typed(None));
    assert_eq!(says, vec!["Pass --code <OTP> to complete verification.".to_string()]);
    assert_eq!(work, "Done");
    let (_, says, work) = turn(code_asked(), ProvisionEvent::Typed(Some(" \n".to_string())));
    assert_eq!(
        says,
        vec![
            "No code entered. Run `unisonfs provision --email a@x --code <OTP>` to verify later."
                .to_string()
        ]
    );
    assert_eq!(work, "Done");

    let verifying = || turn(code_asked(), ProvisionEvent::Typed(Some("1".to_string()))).0;
    let (_, _, work) = turn(verifying(), verified(false, Some("k")));
    assert_eq!(work, "Fail(\"Verification failed — check your OTP code.\")");
    let (_, _, work) = turn(verifying(), ProvisionEvent::Verified(Err(ApiError::Auth)));
    assert_eq!(work, "Fail(\"authentication failed (invalid or expired token)\")");
}
