//! Data transfer objects for the Unison brain REST API.

use vstd::prelude::*;

verus! {

// ─── Auth DTOs ────────────────────────────────────────────────────────────────

/// Response from POST /v1/auth/provision
#[derive(Debug)]
pub struct ProvisionResp {
    pub api_key: String,
    pub tenant_id: String,
    pub status: String,
    pub email_sent: bool,
    pub message: Option<String>,
}

/// Response from POST /v1/auth/verify
#[derive(Debug)]
pub struct VerifyResp {
    pub verified: bool,
    pub tenant_id: Option<String>,
    /// Only present on key recovery (already-verified account).
    pub api_key: Option<String>,
}

/// Auth session info from GET /v1/auth/whoami.
#[derive(Debug, Clone)]
pub struct WhoamiInfo {
    pub user_id: String,
    pub user_email: String,
    pub tenant_id: String,
    pub tenant_name: String,
    pub tenant_verified: bool,
    pub scopes: Vec<String>,
}

// ─── Brain document DTOs ─────────────────────────────────────────────────────

/// A Unison brain document.
#[derive(Debug, Clone)]
pub struct BrainDocument {
    pub id: String,
    pub path: String,
    pub title: Option<String>,
    pub tldr: Option<String>,
    pub kind: Option<String>,
    pub body_md: Option<String>,
    pub tags: Option<Vec<String>>,
    pub visibility: Option<String>,
    pub created_at: String,
    pub updated_at: String,
    pub content_hash: Option<String>,
}

/// PUT /v1/brain/doc — write/create document.
#[derive(Debug)]
pub struct PutDocReq {
    pub path: String,
    pub body_md: String,
    pub kind: Option<String>,
    pub title: Option<String>,
    pub tldr: Option<String>,
    pub tags: Option<Vec<String>>,
    pub visibility: Option<String>,
    /// Hex-16 content hash for optimistic concurrency.
    pub expected_content_hash: Option<String>,
}

/// PATCH /v1/brain/doc — surgical in-place edit.
#[derive(Debug)]
pub struct PatchDocReq {
    pub path: String,
    pub old_str: String,
    pub new_str: String,
    pub expected_content_hash: Option<String>,
}

/// Response from DELETE /v1/brain/doc
#[derive(Debug)]
pub struct DeleteDocResp {
    pub deleted: bool,
}

/// GET /v1/brain/list parameters.
#[derive(Debug)]
pub struct ListDocsReq {
    pub prefix: Option<String>,
    pub kind: Vec<String>,
    pub tag: Vec<String>,
    pub limit: Option<u32>,
}

/// Response from GET /v1/brain/list
#[derive(Debug)]
pub struct ListDocsResp {
    pub documents: Vec<BrainDocument>,
}

/// GET /v1/brain/fs response
#[derive(Debug)]
pub struct FsListResp {
    pub entries: Vec<FsEntry>,
}

/// A single entry from GET /v1/brain/fs
#[derive(Debug)]
pub struct FsEntry {
    pub name: String,
    /// `dir` or `file`.
    pub entry_type: String,
    pub mtime: Option<String>,
    pub path: Option<String>,
}

/// Response from GET /v1/brain/fs/read
#[derive(Debug)]
pub struct FsReadResp {
    pub content: Option<String>,
    pub path: String,
}

/// GET /v1/brain/search parameters.
#[derive(Debug)]
pub struct SearchReq {
    pub q: String,
    pub k: Option<u32>,
    pub kind: Vec<String>,
    pub memory_type: Option<String>,
    pub as_of: Option<String>,
}

/// Response from GET /v1/brain/grep
#[derive(Debug)]
pub struct GrepResp {
    pub results: Vec<BrainDocument>,
}

/// POST /v1/brain/doc/tag
#[derive(Debug)]
pub struct TagDocReq {
    pub path: String,
    pub add: Option<Vec<String>>,
    pub remove: Option<Vec<String>>,
}

/// GET /v1/brain/status
#[derive(Debug)]
pub struct BrainStatus {
    pub doc_count: Option<u64>,
    pub doc_with_embedding: Option<u64>,
    pub entity_count: Option<u64>,
    pub fact_count: Option<u64>,
    pub last_ingest_at: Option<String>,
    pub pending_jobs: Option<u64>,
    pub stale_wiki_page_count: Option<u64>,
}

/// GET /v1/brain/neighbors response
#[derive(Debug)]
pub struct NeighborsResp {
    pub documents: Vec<BrainDocument>,
}

/// GET /v1/brain/profile — summary of the user's brain contents.
#[derive(Debug)]
pub struct ProfileResp {
    pub profile: BrainProfile,
}

/// Nested profile data.
#[derive(Debug)]
pub struct BrainProfile {
    /// Long-lived core facts about the user.
    pub static_memories: Option<Vec<String>>,
    /// Recent contextual signals.
    pub dynamic: Option<Vec<String>>,
}

// ─── Changes feed DTOs ───────────────────────────────────────────────────────

/// One entry of the changes feed: a document that was written or, as a
/// tombstone, deleted.
#[derive(Debug)]
pub struct ChangeEntry {
    pub id: String,
    pub path: String,
    pub updated_at: String,
    pub content_hash: Option<String>,
    pub deleted: bool,
}

/// Response from GET /v1/brain/changes
#[derive(Debug)]
pub struct ChangesResp {
    pub changes: Vec<ChangeEntry>,
    pub next_cursor: Option<String>,
    pub has_more: bool,
}

} // verus!
