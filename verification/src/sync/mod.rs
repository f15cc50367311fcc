//! Background sync: what is pulled, pushed and pruned.

pub mod iso;
pub mod options;
pub mod pull;
pub mod pull_laws;
pub mod puller;
pub mod push;
pub mod push_laws;
pub mod scan;
pub mod stream;
