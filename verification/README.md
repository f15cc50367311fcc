# unisonfs

Mounts the Unison brain as a local folder: documents are files, reads come from
a local cache, and writes are pushed to the brain in the background.

The logic is a library in Verus. Its functions have contracts that are proved,
and what holds across functions is stated and proved as laws (the proof functions
whose names begin with `law_`).

Some contracts are not proved. Calls into the standard library and into `lru`,
`serde_json` and `libc` go through a few functions and declarations whose
contracts Verus takes on trust; each is marked and says in its comment what is
claimed. Of a reading of the clock nothing can be promised: functions that take
one state what holds for some time, and their counterparts that are given the
time, with names in `_at`, state it for that time.

- `src/vfs`: file attributes, errors, brain paths, an in-memory filesystem.
- `src/cache`: the cache of inodes, directory entries and content; open files;
  the push queue; the hydration queue; the virtual profile.
- `src/sync`: pulls, pushes, deletion scans, the event stream.
- `src/api`: requests to the brain, their replies and errors.
- `src/mount`: what the FUSE and NFS adapters answer.
- `src/daemon`, `src/cmd`: the life of a mount, and what the commands say.
- `src/config`, `src/marker.rs`: where state is kept, credentials, marker files.
- `src/text.rs`, `src/pattern.rs`, `src/paths.rs`, `src/table.rs`,
  `src/listing.rs`, `src/clock.rs`: what the rest is built on.

`app/` is the program around it: arguments, files, SQLite, HTTP, sockets and the
two mount backends. It asks the library what to do, does it, and hands the
outcome back. `tests/` runs the library from outside.

The library reads and writes no files. `cache::db::Db` is loaded from a snapshot
of the rows, and reports its changes in order; carried out on the saved rows they
give the rows that it holds.
