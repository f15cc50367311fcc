//! The Unison brain REST API: requests, replies and errors.

pub mod client;
pub mod dto;
pub mod error;
pub mod json;
pub mod laws;
pub mod query;
pub mod query_laws;
