//! Virtual filesystem types.

pub mod error;
pub mod laws;
pub mod mem;
pub mod mode;
pub mod path;
pub mod tree;
pub mod types;
