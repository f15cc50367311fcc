//! The local filesystem cache.

pub mod db;
pub mod dentry_cache;
pub mod file;
pub mod fitting;
pub mod fs;
pub mod fs_laws;
pub mod handle;
pub mod hydration;
pub mod laws;
pub mod model;
pub mod profile;
pub mod queue;
pub mod rows;
pub mod sound;
pub mod store_laws;
