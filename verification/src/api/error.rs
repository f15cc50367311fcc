//! API error types.

use crate::text::{copy_text, decimal, print_nat};
use vstd::prelude::*;

verus! {

#[derive(Clone, Debug, PartialEq, Eq)]
pub enum ApiError {
    Auth,
    Forbidden(String),
    NotFound,
    Conflict(String),
    FsContract(String),
    RateLimited,
    Server { status: u16, body: String },
    Rejected { status: u16, body: String },
    Network(String),
}

/// An [`ApiError`] with its texts as character sequences.
pub enum ApiErrorView {
    Auth,
    Forbidden(Seq<char>),
    NotFound,
    Conflict(Seq<char>),
    FsContract(Seq<char>),
    RateLimited,
    Server(u16, Seq<char>),
    Rejected(u16, Seq<char>),
    Network(Seq<char>),
}

impl View for ApiError {
    type V = ApiErrorView;

    open spec fn view(&self) -> ApiErrorView {
        match *self {
            ApiError::Auth => ApiErrorView::Auth,
            ApiError::Forbidden(s) => ApiErrorView::Forbidden(s@),
            ApiError::NotFound => ApiErrorView::NotFound,
            ApiError::Conflict(s) => ApiErrorView::Conflict(s@),
            ApiError::FsContract(s) => ApiErrorView::FsContract(s@),
            ApiError::RateLimited => ApiErrorView::RateLimited,
            ApiError::Server { status, body } => ApiErrorView::Server(status, body@),
            ApiError::Rejected { status, body } => ApiErrorView::Rejected(status, body@),
            ApiError::Network(s) => ApiErrorView::Network(s@),
        }
    }
}

/// The description of an API error.
pub open spec fn api_error_text(e: ApiErrorView) -> Seq<char> {
    match e {
        ApiErrorView::Auth => "authentication failed (invalid or expired token)"@,
        ApiErrorView::Forbidden(s) => "forbidden: "@ + s,
        ApiErrorView::NotFound => "not found"@,
        ApiErrorView::Conflict(s) => "conflict: "@ + s,
        ApiErrorView::FsContract(s) => "fs contract violation: "@ + s,
        ApiErrorView::RateLimited => "rate limited — retry after backoff"@,
        ApiErrorView::Server(status, body) => "server error ("@ + decimal(status as nat) + "): "@
            + body,
        ApiErrorView::Rejected(status, body) => "request rejected ("@ + decimal(status as nat)
            + "): "@ + body,
        ApiErrorView::Network(s) => "network error: "@ + s,
    }
}

/// A retry can help: the server was busy or failed.
pub open spec fn retryable(e: ApiErrorView) -> bool {
    e is RateLimited || e is Server
}

impl ApiError {
    /// Whether this error is recoverable with a retry.
    pub fn is_retryable(&self) -> (r: bool)
        ensures
            r == retryable(self@),
    {
        matches!(self, ApiError::RateLimited | ApiError::Server { .. })
    }

    /// Describes the error.
    pub fn message(&self) -> (r: String)
        ensures
            r@ == api_error_text(self@),
    {
        match self {
            ApiError::Auth => copy_text("authentication failed (invalid or expired token)"),
            ApiError::Forbidden(s) => copy_text("forbidden: ").concat(s.as_str()),
            ApiError::NotFound => copy_text("not found"),
            ApiError::Conflict(s) => copy_text("conflict: ").concat(s.as_str()),
            ApiError::FsContract(s) => copy_text("fs contract violation: ").concat(s.as_str()),
            ApiError::RateLimited => copy_text("rate limited — retry after backoff"),
            ApiError::Server { status, body } => copy_text("server error (").concat(
                print_nat(*status as u64).as_str(),
            ).concat("): ").concat(body.as_str()),
            ApiError::Rejected { status, body } => copy_text("request rejected (").concat(
                print_nat(*status as u64).as_str(),
            ).concat("): ").concat(body.as_str()),
            ApiError::Network(s) => copy_text("network error: ").concat(s.as_str()),
        }
    }
}

} // verus!
