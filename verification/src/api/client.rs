//! The client of the brain API: what each call asks for, and what its replies
//! mean. Requests are sent elsewhere.

use super::dto::{ListDocsReq, SearchReq, WhoamiInfo};
use super::error::{ApiError, ApiErrorView};
use super::json::{field, json_of_text, nested_text, parse_json, texts_among, texts_of, Json, JsonView};
use super::query::{
    changes_parameters, changes_query, grep_parameters, grep_query, list_parameters, list_query, neighbors_parameters, neighbors_query,
    query_string, search_parameters, search_query, url_encoded, urlencoding,
};
use crate::text::{copy_text, drop_back, is_char, opt_str_view, texts, trim_end_char};
use vstd::prelude::*;

verus! {

/// How often a request is sent at most.
pub const MAX_RETRIES: u32 = 5;

/// Milliseconds before the second send; each further wait is twice as long.
pub const INITIAL_BACKOFF_MS: u64 = 100;

/// Default Unison API base URL.
pub const DEFAULT_API_URL: &'static str = "https://api.unisonlabs.ai";

// ── Requests ────────────────────────────────────────────────────────────────

#[derive(Debug, Clone, Copy, PartialEq, Eq, Structural)]
pub enum Method {
    Get,
    Put,
    Patch,
    Post,
    Delete,
}

/// A request to send: the `Authorization` header goes with it.
#[derive(Debug, PartialEq, Eq)]
pub struct Request {
    pub method: Method,
    pub url: String,
    pub authorization: String,
}

/// A [`Request`] with its texts as character sequences.
pub struct RequestView {
    pub method: Method,
    pub url: Seq<char>,
    pub authorization: Seq<char>,
}

impl View for Request {
    type V = RequestView;

    open spec fn view(&self) -> RequestView {
        RequestView {
            method: self.method,
            url: self.url@,
            authorization: self.authorization@,
        }
    }
}

/// A base URL without the slashes at its end.
pub open spec fn base_of(url: Seq<char>) -> Seq<char> {
    drop_back(url, is_char('/'))
}

/// Unison brain API client: where the API is, and who asks.
#[derive(Debug)]
pub struct ApiClient {
    pub base_url: String,
    pub token: String,
    /// User info from /v1/auth/whoami, stamped on writes.
    pub user_id: Option<String>,
    /// Write-side calls so far.
    pub write_calls: u32,
}

impl ApiClient {
    /// A request to the API with the client's token.
    pub open spec fn request_spec(&self, method: Method, path: Seq<char>) -> RequestView {
        RequestView {
            method,
            url: self.base_url@ + path,
            authorization: "Bearer "@ + self.token@,
        }
    }

    /// A request for the document at a path.
    pub open spec fn doc_read(&self, path: Seq<char>) -> RequestView {
        self.request_spec(Method::Get, "/v1/brain/doc?path="@ + url_encoded(path))
    }

    /// A request that deletes the document at a path.
    pub open spec fn doc_deleted(&self, path: Seq<char>) -> RequestView {
        self.request_spec(Method::Delete, "/v1/brain/doc?path="@ + url_encoded(path))
    }

    /// The client after one more write.
    pub open spec fn counted(&self) -> ApiClient {
        ApiClient { write_calls: self.write_calls.wrapping_add(1), ..*self }
    }

    /// Create a new API client.
    ///
    /// `token` — the `usk_live_...` key from `UNISON_TOKEN`.
    pub fn new(base_url: &str, token: &str) -> (r: Self)
        ensures
            r.base_url@ == base_of(base_url@),
            r.token@ == token@,
            r.user_id is None,
            r.write_calls == 0,
    {
        ApiClient {
            base_url: trim_end_char(base_url, '/'),
            token: copy_text(token),
            user_id: None,
            write_calls: 0,
        }
    }

    pub fn with_user_id(self, user_id: String) -> (r: Self)
        ensures
            r == (ApiClient { user_id: Some(user_id), ..self }),
    {
        ApiClient {
            base_url: self.base_url,
            token: self.token,
            user_id: Some(user_id),
            write_calls: self.write_calls,
        }
    }

    /// Number of write-side HTTP calls so far.
    pub fn write_calls(&self) -> (r: u32)
        ensures
            r == self.write_calls,
    {
        self.write_calls
    }

    fn request(&self, method: Method, path: String) -> (r: Request)
        ensures
            r@ == self.request_spec(method, path@),
    {
        Request {
            method,
            url: copy_text(self.base_url.as_str()).concat(path.as_str()),
            authorization: copy_text("Bearer ").concat(self.token.as_str()),
        }
    }

    /// GET /v1/auth/whoami — verify the token and return user/tenant info.
    pub fn whoami(&self) -> (r: Request)
        ensures
            r@ == self.request_spec(Method::Get, "/v1/auth/whoami"@),
    {
        self.request(Method::Get, copy_text("/v1/auth/whoami"))
    }

    /// GET /v1/brain/doc?path=<path> — read a single document by path.
    pub fn get_doc(&self, path: &str) -> (r: Request)
        ensures
            r@ == self.request_spec(Method::Get, "/v1/brain/doc?path="@ + url_encoded(path@)),
            r@ == self.doc_read(path@),
    {
        self.request(Method::Get, copy_text("/v1/brain/doc?path=").concat(urlencoding(path).as_str()))
    }

    /// PUT /v1/brain/doc — write/create a document.
    pub fn put_doc(&mut self) -> (r: Request)
        ensures
            r@ == old(self).request_spec(Method::Put, "/v1/brain/doc"@),
            *final(self) == old(self).counted(),
    {
        self.write_calls = self.write_calls.wrapping_add(1);
        self.request(Method::Put, copy_text("/v1/brain/doc"))
    }

    /// PATCH /v1/brain/doc — surgical in-place edit.
    pub fn patch_doc(&mut self) -> (r: Request)
        ensures
            r@ == old(self).request_spec(Method::Patch, "/v1/brain/doc"@),
            *final(self) == old(self).counted(),
    {
        self.write_calls = self.write_calls.wrapping_add(1);
        self.request(Method::Patch, copy_text("/v1/brain/doc"))
    }

    /// DELETE /v1/brain/doc?path=<path>
    pub fn delete_doc(&mut self, path: &str) -> (r: Request)
        ensures
            r@ == old(self).request_spec(Method::Delete, "/v1/brain/doc?path="@ + url_encoded(path@)),
            r@ == old(self).doc_deleted(path@),
            *final(self) == old(self).counted(),
    {
        self.write_calls = self.write_calls.wrapping_add(1);
        self.request(Method::Delete, copy_text("/v1/brain/doc?path=").concat(urlencoding(path).as_str()))
    }

    /// GET /v1/brain/list — list documents with optional prefix and filters.
    pub fn list_docs(&self, req: &ListDocsReq) -> (r: Request)
        ensures
            r@ == self.request_spec(Method::Get, "/v1/brain/list"@ + query_string(list_parameters(*req))),
    {
        self.request(Method::Get, copy_text("/v1/brain/list").concat(list_query(req).as_str()))
    }

    /// GET /v1/brain/fs?path=<path> — directory listing.
    pub fn fs_list(&self, path: &str) -> (r: Request)
        ensures
            r@ == self.request_spec(Method::Get, "/v1/brain/fs?path="@ + url_encoded(path@)),
    {
        self.request(Method::Get, copy_text("/v1/brain/fs?path=").concat(urlencoding(path).as_str()))
    }

    /// GET /v1/brain/fs/read?path=<path> — raw content of any tier.
    pub fn fs_read(&self, path: &str) -> (r: Request)
        ensures
            r@ == self.request_spec(Method::Get, "/v1/brain/fs/read?path="@ + url_encoded(path@)),
    {
        self.request(Method::Get, copy_text("/v1/brain/fs/read?path=").concat(urlencoding(path).as_str()))
    }

    /// GET /v1/brain/search — hybrid keyword+semantic search.
    pub fn search(&self, req: &SearchReq) -> (r: Request)
        ensures
            r@ == self.request_spec(Method::Get, "/v1/brain/search"@ + query_string(search_parameters(*req))),
    {
        self.request(Method::Get, copy_text("/v1/brain/search").concat(search_query(req).as_str()))
    }

    /// GET /v1/brain/grep — regex scan over document bodies.
    pub fn grep(&self, pattern: &str, case_sensitive: bool, limit: Option<u32>) -> (r: Request)
        ensures
            r@ == self.request_spec(Method::Get, "/v1/brain/grep"@ + query_string(grep_parameters(pattern@, case_sensitive, limit))),
    {
        self.request(Method::Get, copy_text("/v1/brain/grep").concat(grep_query(pattern, case_sensitive, limit).as_str()))
    }

    /// POST /v1/brain/doc/tag — add/remove tags on a document.
    pub fn tag_doc(&mut self) -> (r: Request)
        ensures
            r@ == old(self).request_spec(Method::Post, "/v1/brain/doc/tag"@),
            *final(self) == old(self).counted(),
    {
        self.write_calls = self.write_calls.wrapping_add(1);
        self.request(Method::Post, copy_text("/v1/brain/doc/tag"))
    }

    /// GET /v1/brain/status — health and counts.
    pub fn brain_status(&self) -> (r: Request)
        ensures
            r@ == self.request_spec(Method::Get, "/v1/brain/status"@),
    {
        self.request(Method::Get, copy_text("/v1/brain/status"))
    }

    /// GET /v1/brain/neighbors — graph neighbors.
    pub fn neighbors(&self, id_or_path: &str, limit: Option<u32>) -> (r: Request)
        ensures
            r@ == self.request_spec(Method::Get, "/v1/brain/neighbors"@ + query_string(neighbors_parameters(id_or_path@, limit))),
    {
        self.request(Method::Get, copy_text("/v1/brain/neighbors").concat(neighbors_query(id_or_path, limit).as_str()))
    }

    /// GET /v1/brain/changes — one page of the changes feed, from a cursor on.
    pub fn changes(&self, since: Option<&str>, limit: Option<u32>) -> (r: Request)
        ensures
            r@ == self.request_spec(Method::Get, "/v1/brain/changes"@ + query_string(changes_parameters(opt_str_view(since), limit))),
    {
        self.request(Method::Get, copy_text("/v1/brain/changes").concat(changes_query(since, limit).as_str()))
    }

    /// GET /v1/brain/changes/stream — the wake stream.
    pub fn open_changes_stream(&self) -> (r: Request)
        ensures
            r@ == self.request_spec(Method::Get, "/v1/brain/changes/stream"@),
    {
        self.request(Method::Get, copy_text("/v1/brain/changes/stream"))
    }

    /// GET /v1/brain/profile — summary of the user's brain contents.
    pub fn get_profile(&self) -> (r: Request)
        ensures
            r@ == self.request_spec(Method::Get, "/v1/brain/profile"@),
    {
        self.request(Method::Get, copy_text("/v1/brain/profile"))
    }

    /// GET /v1/brain/entities/resolve?name=<name>
    pub fn resolve_entity(&self, name: &str) -> (r: Request)
        ensures
            r@ == self.request_spec(Method::Get, "/v1/brain/entities/resolve?name="@ + url_encoded(name@)),
    {
        self.request(Method::Get, copy_text("/v1/brain/entities/resolve?name=").concat(urlencoding(name).as_str()))
    }

    /// GET /v1/brain/entities/:id
    pub fn get_entity(&self, id: &str) -> (r: Request)
        ensures
            r@ == self.request_spec(Method::Get, "/v1/brain/entities/"@ + id@),
    {
        self.request(Method::Get, copy_text("/v1/brain/entities/").concat(id))
    }

    /// POST /v1/brain/entities — upsert entity.
    pub fn upsert_entity(&mut self) -> (r: Request)
        ensures
            r@ == old(self).request_spec(Method::Post, "/v1/brain/entities"@),
            *final(self) == old(self).counted(),
    {
        self.write_calls = self.write_calls.wrapping_add(1);
        self.request(Method::Post, copy_text("/v1/brain/entities"))
    }

    /// GET /v1/brain/entities/:id/facts
    pub fn facts_about(&self, entity_id: &str) -> (r: Request)
        ensures
            r@ == self.request_spec(Method::Get, "/v1/brain/entities/"@ + entity_id@ + "/facts"@),
    {
        self.request(Method::Get, copy_text("/v1/brain/entities/").concat(entity_id).concat("/facts"))
    }

    /// POST /v1/brain/facts — record a fact.
    pub fn record_fact(&mut self) -> (r: Request)
        ensures
            r@ == old(self).request_spec(Method::Post, "/v1/brain/facts"@),
            *final(self) == old(self).counted(),
    {
        self.write_calls = self.write_calls.wrapping_add(1);
        self.request(Method::Post, copy_text("/v1/brain/facts"))
    }
}

/// The address of one of the endpoints that need no token.
fn open_endpoint(base_url: &str, path: &str) -> (r: String)
    ensures
        r@ == base_of(base_url@) + path@,
{
    trim_end_char(base_url, '/').concat(path)
}

/// POST /v1/auth/provision — where a new headless account is created.
pub fn provision_url(base_url: &str) -> (r: String)
    ensures
        r@ == base_of(base_url@) + "/v1/auth/provision"@,
{
    open_endpoint(base_url, "/v1/auth/provision")
}

/// POST /v1/auth/verify — where the emailed code is verified.
pub fn verify_url(base_url: &str) -> (r: String)
    ensures
        r@ == base_of(base_url@) + "/v1/auth/verify"@,
{
    open_endpoint(base_url, "/v1/auth/verify")
}

/// POST /v1/auth/request-key — where a recovery code is asked for.
pub fn request_key_url(base_url: &str) -> (r: String)
    ensures
        r@ == base_of(base_url@) + "/v1/auth/request-key"@,
{
    open_endpoint(base_url, "/v1/auth/request-key")
}

// ── Replies ─────────────────────────────────────────────────────────────────

/// A status that reports success.
pub open spec fn is_success(status: u16) -> bool {
    200 <= status <= 299
}

/// A status that reports a failure of the server.
pub open spec fn is_server_error(status: u16) -> bool {
    500 <= status <= 599
}

/// A status that refuses the request itself.
pub open spec fn is_client_error(status: u16) -> bool {
    400 <= status <= 499
}

/// A status after which the request is sent again.
pub open spec fn sent_again(status: u16) -> bool {
    is_server_error(status)
}

/// The error that a reply other than a success stands for.
pub open spec fn refusal(status: u16, body: Seq<char>) -> ApiErrorView {
    if status == 401 {
        ApiErrorView::Auth
    } else if status == 403 {
        ApiErrorView::Forbidden(body)
    } else if status == 404 {
        ApiErrorView::NotFound
    } else if status == 409 {
        ApiErrorView::Conflict(body)
    } else if status == 422 {
        ApiErrorView::FsContract(body)
    } else if status == 429 {
        ApiErrorView::RateLimited
    } else if is_server_error(status) {
        ApiErrorView::Server(status, body)
    } else {
        ApiErrorView::Rejected(status, body)
    }
}

/// The error that a reply other than a success stands for.
pub fn refused(status: u16, body: String) -> (r: ApiError)
    ensures
        r@ == refusal(status, body@),
{
    if status == 401 {
        ApiError::Auth
    } else if status == 403 {
        ApiError::Forbidden(body)
    } else if status == 404 {
        ApiError::NotFound
    } else if status == 409 {
        ApiError::Conflict(body)
    } else if status == 422 {
        ApiError::FsContract(body)
    } else if status == 429 {
        ApiError::RateLimited
    } else if 500 <= status && status <= 599 {
        ApiError::Server { status, body }
    } else {
        ApiError::Rejected { status, body }
    }
}

/// What became of one send.
#[derive(Debug)]
pub enum Sent {
    /// A reply came, with this status.
    Reply(u16),
    /// No reply came, for this reason.
    Broken(String),
}

/// What to do after one send.
#[derive(Debug, PartialEq, Eq)]
pub enum SendStep {
    /// The reply is the answer.
    Answered,
    /// Send again after so many milliseconds.
    SendAgain(u64),
    /// Give up: [`refused`] with the status and the reply's body is the error.
    Refused,
    /// Give up with this error.
    Failed(ApiError),
}

/// A [`SendStep`] with its error as a view.
pub enum SendStepView {
    Answered,
    SendAgain(u64),
    Refused,
    Failed(ApiErrorView),
}

impl View for SendStep {
    type V = SendStepView;

    open spec fn view(&self) -> SendStepView {
        match *self {
            SendStep::Answered => SendStepView::Answered,
            SendStep::SendAgain(ms) => SendStepView::SendAgain(ms),
            SendStep::Refused => SendStepView::Refused,
            SendStep::Failed(e) => SendStepView::Failed(e@),
        }
    }
}

/// The milliseconds to wait after send number `attempt`, counted from zero.
pub open spec fn backoff_after(attempt: u32) -> u64
    decreases attempt,
{
    if attempt == 0 {
        INITIAL_BACKOFF_MS
    } else {
        (2 * backoff_after((attempt - 1) as u32)) as u64
    }
}

/// What is done after send number `attempt`.
pub open spec fn send_step(attempt: u32, sent: Sent) -> SendStepView {
    match sent {
        Sent::Reply(status) => if is_success(status) {
            SendStepView::Answered
        } else if sent_again(status) && attempt < MAX_RETRIES - 1 {
            SendStepView::SendAgain(backoff_after(attempt))
        } else {
            SendStepView::Refused
        },
        Sent::Broken(why) => if attempt < MAX_RETRIES - 1 {
            SendStepView::SendAgain(backoff_after(attempt))
        } else {
            SendStepView::Failed(ApiErrorView::Network(why@))
        },
    }
}

/// A request that is being sent: how often it was, and how long to wait next.
#[derive(Debug, Clone, Copy, PartialEq, Eq, Structural)]
pub struct Retry {
    pub attempt: u32,
    pub backoff: u64,
}

impl Retry {
    pub open spec fn wf(&self) -> bool {
        self.attempt < MAX_RETRIES && self.backoff == backoff_after(self.attempt)
    }

    /// Before the first send.
    pub fn new() -> (r: Self)
        ensures
            r.wf(),
            r.attempt == 0,
    {
        Retry { attempt: 0, backoff: INITIAL_BACKOFF_MS }
    }

    /// Decides what follows a send: network errors and 5xx are sent again with
    /// exponential backoff, other refusals are errors at once.
    pub fn after(&mut self, sent: Sent) -> (r: SendStep)
        requires
            old(self).wf(),
        ensures
            final(self).wf(),
            r@ == send_step(old(self).attempt, sent),
            final(self).attempt == old(self).attempt + (if r is SendAgain {
                1int
            } else {
                0
            }),
    {
        proof {
            law_waits_are_short(self.attempt);
        }
        let last = self.attempt == MAX_RETRIES - 1;
        match sent {
            Sent::Reply(status) => {
                if 200 <= status && status <= 299 {
                    return SendStep::Answered;
                }
                if !(500 <= status && status <= 599) || last {
                    return SendStep::Refused;
                }
            },
            Sent::Broken(why) => {
                if last {
                    return SendStep::Failed(ApiError::Network(why));
                }
            },
        }
        let wait: u64 = self.backoff;
        self.attempt = self.attempt + 1;
        self.backoff = wait * 2;
        SendStep::SendAgain(wait)
    }
}

/// The waits between the sends of one request are a tenth of a second to 1.6
/// seconds each.
pub proof fn law_waits_are_short(attempt: u32)
    requires
        attempt < MAX_RETRIES,
    ensures
        INITIAL_BACKOFF_MS <= backoff_after(attempt) <= 1_600,
{
    reveal_with_fuel(backoff_after, 5);
}

/// After the last send allowed, no other follows.
pub proof fn law_sends_are_bounded(sent: Sent)
    ensures
        !(send_step((MAX_RETRIES - 1) as u32, sent) is SendAgain),
{
}

/// A refusal other than the server's own failure is never sent again.
pub proof fn law_refusals_are_final(attempt: u32, status: u16)
    requires
        !is_success(status),
        !is_server_error(status),
    ensures
        send_step(attempt, Sent::Reply(status)) is Refused,
{
}

/// A reply that refuses the request itself, "too many requests" among them, is
/// an error at once, whichever send it answers, and never the server's.
pub proof fn law_client_errors_are_surfaced(attempt: u32, status: u16, body: Seq<char>)
    requires
        is_client_error(status),
    ensures
        !sent_again(status),
        send_step(attempt, Sent::Reply(status)) is Refused,
        !(refusal(status, body) is Server),
        !(refusal(status, body) is Network),
{
}

/// The error for a status that reports no success, where nothing is told apart.
pub open spec fn plain_refusal(status: u16, body: Seq<char>) -> Option<ApiErrorView> {
    if is_success(status) {
        None
    } else {
        Some(ApiErrorView::Server(status, body))
    }
}

/// How POST /v1/auth/provision answers.
pub open spec fn provision_error(status: u16, body: Seq<char>) -> Option<ApiErrorView> {
    if status == 409 {
        Some(ApiErrorView::Conflict("email_registered"@))
    } else if status == 403 {
        Some(ApiErrorView::Rejected(403, body))
    } else {
        plain_refusal(status, body)
    }
}

/// How POST /v1/auth/verify answers.
pub open spec fn verify_error(status: u16, body: Seq<char>) -> Option<ApiErrorView> {
    if status == 401 {
        Some(ApiErrorView::Auth)
    } else {
        plain_refusal(status, body)
    }
}

pub open spec fn error_view(e: Option<ApiError>) -> Option<ApiErrorView> {
    match e {
        Some(e) => Some(e@),
        None => None,
    }
}

impl ApiClient {
    /// The error of a reply to POST /v1/auth/request-key; none where it is a
    /// success.
    pub fn request_key(status: u16, body: String) -> (r: Option<ApiError>)
        ensures
            error_view(r) == plain_refusal(status, body@),
    {
        if 200 <= status && status <= 299 {
            None
        } else {
            Some(ApiError::Server { status, body })
        }
    }

    /// The error of a reply to POST /v1/auth/provision; none where it is a success.
    pub fn provision(status: u16, body: String) -> (r: Option<ApiError>)
        ensures
            error_view(r) == provision_error(status, body@),
    {
        if status == 409 {
            Some(ApiError::Conflict(copy_text("email_registered")))
        } else if status == 403 {
            Some(ApiError::Rejected { status: 403, body })
        } else {
            Self::request_key(status, body)
        }
    }

    /// The error of a reply to POST /v1/auth/verify; none where it is a success.
    pub fn verify(status: u16, body: String) -> (r: Option<ApiError>)
        ensures
            error_view(r) == verify_error(status, body@),
    {
        if status == 401 {
            Some(ApiError::Auth)
        } else {
            Self::request_key(status, body)
        }
    }
}

// ── Who asks ────────────────────────────────────────────────────────────────

pub open spec fn or_empty(s: Option<Seq<char>>) -> Seq<char> {
    match s {
        Some(s) => s,
        None => Seq::empty(),
    }
}

/// The account that a reply of GET /v1/auth/whoami tells: a text that is missing
/// is empty, a flag that is missing is false, and scopes other than texts are
/// passed over.
pub open spec fn tells(w: WhoamiInfo, j: JsonView) -> bool {
    &&& w.user_id@ == or_empty(nested_text(j, "user"@, "id"@))
    &&& w.user_email@ == or_empty(nested_text(j, "user"@, "email"@))
    &&& w.tenant_id@ == or_empty(nested_text(j, "tenant"@, "id"@))
    &&& w.tenant_name@ == or_empty(nested_text(j, "tenant"@, "name"@))
    &&& w.tenant_verified == (match field(j, "tenant"@) {
        Some(t) => field(t, "verified"@) == Some(JsonView::Bool(true)),
        None => false,
    })
    &&& texts(w.scopes@) == (match field(j, "scopes"@) {
        Some(JsonView::List(list)) => texts_among(list),
        _ => Seq::empty(),
    })
}

/// Reads a reply of GET /v1/auth/whoami.
pub fn whoami_from(j: &Json) -> (r: WhoamiInfo)
    ensures
        tells(r, j@),
{
    let tenant_verified = match j.get("tenant") {
        Some(t) => match t.get("verified") {
            Some(Json::Bool(b)) => *b,
            _ => false,
        },
        None => false,
    };
    WhoamiInfo {
        user_id: j.nested("user", "id"),
        user_email: j.nested("user", "email"),
        tenant_id: j.nested("tenant", "id"),
        tenant_name: j.nested("tenant", "name"),
        tenant_verified,
        scopes: texts_of(j.get("scopes")),
    }
}

/// Reads the body of a reply of GET /v1/auth/whoami; nothing where it is no
/// JSON.
pub fn read_whoami(body: &str) -> (r: Option<WhoamiInfo>)
    ensures
        r is Some <==> json_of_text(body@) is Some,
        r is Some ==> tells(r->0, json_of_text(body@)->0),
{
    match parse_json(body) {
        Some(j) => Some(whoami_from(&j)),
        None => None,
    }
}

} // verus!
