//! Verified core of a filesystem that mounts the Unison brain.
//!
//! - [`vfs`]: file attributes, errors, brain paths and an in-memory filesystem.
//! - [`cache`]: the local cache of inodes, directory entries and content, with
//!   the queue of pending pushes.
//! - [`sync`]: what is pulled from the brain, pushed to it and pruned.
//! - [`api`]: requests to the brain, their replies and errors.
//! - [`mount`]: what the FUSE and NFS adapters answer.
//! - [`daemon`] and [`cmd`]: the life of a mount, and what the commands say.
//! - [`config`] and [`marker`]: where state is kept, credentials, marker files.
//! - [`clock`]: wall-clock and monotonic time.
//! - [`text`], [`pattern`] and [`paths`]: text as sequences of characters, texts
//!   within texts, and local paths.
//! - [`table`] and [`listing`]: rows found by key, and entries in order.

pub mod api;
pub mod cache;
pub mod clock;
pub mod cmd;
pub mod config;
pub mod daemon;
pub mod listing;
pub mod marker;
pub mod mount;
pub mod paths;
pub mod pattern;
pub mod sync;
pub mod table;
pub mod text;
pub mod vfs;
