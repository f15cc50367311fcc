//! `unisonfs login` and `provision`: what a reply means for the credentials.

use crate::api::dto::{VerifyResp, WhoamiInfo};
use crate::api::error::{api_error_text, ApiError, ApiErrorView};
use crate::config::credentials::Credentials;
use crate::text::{copy_text, opt_view, trim, trimmed};
use vstd::prelude::*;

verus! {

/// The token in a line that was typed in.
pub open spec fn token_in(line: Seq<char>) -> Option<Seq<char>> {
    if trimmed(line).len() == 0 {
        None
    } else {
        Some(trimmed(line))
    }
}

/// The token that was typed in: it must hold more than whitespace.
pub fn typed_token(line: &str) -> (r: Result<String, String>)
    ensures
        if trimmed(line@).len() == 0 {
            r is Err && r->Err_0@ == "Token cannot be empty."@
        } else {
            r is Ok && r->Ok_0@ == trimmed(line@)
        },
        (match r {
            Ok(s) => Some(s@),
            Err(_) => None,
        }) == token_in(line@),
{
    let t = trim(line);
    if t.as_str().is_empty() {
        Err(copy_text("Token cannot be empty."))
    } else {
        Ok(t)
    }
}

/// What is said of a token that is about to be saved, or the reason not to save
/// it: only a token that the API refuses is not saved.
pub open spec fn login_says(checked: Result<WhoamiInfo, ApiError>) -> Result<Seq<char>, Seq<char>> {
    match checked {
        Ok(info) => Ok(
            "ok (workspace: "@ + info.tenant_name@ + ", email: "@ + info.user_email@ + ")"@,
        ),
        Err(e) => match e@ {
            ApiErrorView::Auth => Err("Invalid token — authentication failed."@),
            _ => Ok("warning: could not verify ("@ + api_error_text(e@) + "). Saving anyway."@),
        },
    }
}

/// What is said of a token that is about to be saved, or the reason not to save
/// it: only a token that the API refuses is not saved.
pub fn login_outcome(checked: &Result<WhoamiInfo, ApiError>) -> (r: Result<String, String>)
    ensures
        (match r {
            Ok(s) => Ok(s@),
            Err(s) => Err(s@),
        }) == login_says(*checked),
{
    match checked {
        Ok(info) => Ok(
            copy_text("ok (workspace: ").concat(info.tenant_name.as_str()).concat(
                ", email: ",
            ).concat(info.user_email.as_str()).concat(")"),
        ),
        Err(ApiError::Auth) => Err(copy_text("Invalid token — authentication failed.")),
        Err(e) => Ok(
            copy_text("warning: could not verify (").concat(e.message().as_str()).concat(
                "). Saving anyway.",
            ),
        ),
    }
}

/// What follows a verification.
#[derive(Debug)]
pub enum Verified {
    /// The new token is to be saved.
    NewToken(Credentials),
    /// The token that is stored is now durable.
    Durable,
    /// The code was wrong.
    Refused,
}

/// What follows a reply to a verification.
pub open spec fn verify_says(resp: VerifyResp, r: Verified) -> bool {
    match r {
        Verified::Refused => !resp.verified,
        Verified::NewToken(c) => resp.verified && opt_view(resp.api_key) == Some(c.token@)
            && c.api_url is None,
        Verified::Durable => resp.verified && resp.api_key is None,
    }
}

/// See [`verify_says`].
pub fn verify_outcome(resp: VerifyResp) -> (r: Verified)
    ensures
        verify_says(resp, r),
        if !resp.verified {
            r is Refused
        } else {
            match opt_view(resp.api_key) {
                Some(key) => r is NewToken && r->NewToken_0.token@ == key
                    && r->NewToken_0.api_url is None,
                None => r is Durable,
            }
        },
{
    if !resp.verified {
        Verified::Refused
    } else {
        match resp.api_key {
            Some(key) => Verified::NewToken(Credentials { token: key, api_url: None }),
            None => Verified::Durable,
        }
    }
}

} // verus!
