//! What the client's requests ask for and what replies mean.

use super::client::{
    backoff_after, base_of, plain_refusal, provision_error, refusal, send_step, tells, verify_error,
    ApiClient, Method, SendStepView, Sent,
};
use super::dto::WhoamiInfo;
use super::error::{api_error_text, retryable, ApiErrorView};
use super::json::{field, field_from, texts_among, JsonView};
use super::query::url_encoded;
use super::query_laws::{lemma_parts_of_one, query_parts, read_texts};
use crate::text::{decimal, texts};
use vstd::prelude::*;

verus! {

// ── Requests ────────────────────────────────────────────────────────────────

/// The address of the API is what was given without the slashes at its end.
pub proof fn law_base_has_no_slash_at_its_end(url: Seq<char>)
    ensures
        base_of(url).len() > 0 ==> base_of(url).last() != '/',
        base_of(url).len() <= url.len(),
        url.take(base_of(url).len() as int) == base_of(url),
        forall|i: int| base_of(url).len() <= i < url.len() ==> url[i] == '/',
        base_of(url.push('/')) == base_of(url),
    decreases url.len(),
{
    assert(url.push('/').drop_last() =~= url);
    if url.len() > 0 && url.last() == '/' {
        law_base_has_no_slash_at_its_end(url.drop_last());
        let b = base_of(url);
        assert(url.take(b.len() as int) =~= url.drop_last().take(b.len() as int));
        assert forall|i: int| b.len() <= i < url.len() implies url[i] == '/' by {
            if i < url.len() - 1 {
                assert(url.drop_last()[i] == '/');
            }
        }
    } else {
        assert(url.take(url.len() as int) =~= url);
    }
}

/// Every request goes to the API with the client's token.
pub proof fn law_requests_carry_the_token(c: ApiClient, method: Method, path: Seq<char>)
    ensures
        ({
            let r = c.request_spec(method, path);
            &&& r.method == method
            &&& r.url.len() == c.base_url@.len() + path.len()
            &&& r.url.take(c.base_url@.len() as int) == c.base_url@
            &&& r.url.skip(c.base_url@.len() as int) == path
            &&& r.authorization.skip(7) == c.token@
            &&& r.authorization.take(7) == "Bearer "@
        }),
{
    reveal_strlit("Bearer ");
    let r = c.request_spec(method, path);
    assert(r.url.take(c.base_url@.len() as int) =~= c.base_url@);
    assert(r.url.skip(c.base_url@.len() as int) =~= path);
    assert(r.authorization.skip(7) =~= c.token@);
    assert(r.authorization.take(7) =~= "Bearer "@);
}

/// A document is read with GET and deleted with DELETE at the same address. The
/// address is that of the endpoint with the path as its only parameter.
pub proof fn law_document_is_addressed_by_its_path(c: ApiClient, path: Seq<char>)
    ensures
        c.doc_read(path).method == Method::Get,
        c.doc_deleted(path).method == Method::Delete,
        c.doc_read(path).url == c.doc_deleted(path).url,
        ({
            let endpoint = c.base_url@ + "/v1/brain/doc"@;
            let url = c.doc_read(path).url;
            let q = url.skip(endpoint.len() as int);
            &&& url.take(endpoint.len() as int) == endpoint
            &&& q.len() > 0 && q[0] == '?'
            &&& query_parts(q).len() == 1
            &&& read_texts(q, "path"@) == seq![Some(path)]
        }),
{
    reveal_strlit("/v1/brain/doc");
    reveal_strlit("/v1/brain/doc?path=");
    reveal_strlit("path");
    let endpoint = c.base_url@ + "/v1/brain/doc"@;
    let url = c.doc_read(path).url;
    let q = url.skip(endpoint.len() as int);
    let key = "path"@.push('=');
    assert("/v1/brain/doc?path="@ =~= "/v1/brain/doc"@.push('?') + key);
    assert(url.take(endpoint.len() as int) =~= endpoint);
    assert(q =~= seq!['?'] + (key + url_encoded(path)));
    lemma_parts_of_one(key, "path"@, path);
}

/// Two documents that are asked for alike have the same path.
pub proof fn law_documents_are_told_apart(c: ApiClient, a: Seq<char>, b: Seq<char>)
    requires
        c.doc_read(a).url == c.doc_read(b).url,
    ensures
        a == b,
{
    law_document_is_addressed_by_its_path(c, a);
    law_document_is_addressed_by_its_path(c, b);
    assert(seq![Some(a)][0] == seq![Some(b)][0]);
}

// ── Replies ─────────────────────────────────────────────────────────────────

/// Each status that refuses a request has its own error, and the error has what
/// the server said.
pub proof fn law_statuses_are_told_apart(status: u16, body: Seq<char>)
    ensures
        refusal(status, body) is Auth <==> status == 401,
        refusal(status, body) is Forbidden <==> status == 403,
        refusal(status, body) is NotFound <==> status == 404,
        refusal(status, body) is Conflict <==> status == 409,
        refusal(status, body) is FsContract <==> status == 422,
        refusal(status, body) is RateLimited <==> status == 429,
        refusal(status, body) is Server <==> 500 <= status <= 599,
        !(refusal(status, body) is Network),
        match refusal(status, body) {
            ApiErrorView::Forbidden(b) => b == body,
            ApiErrorView::Conflict(b) => b == body,
            ApiErrorView::FsContract(b) => b == body,
            ApiErrorView::Server(s, b) => s == status && b == body,
            ApiErrorView::Rejected(s, b) => s == status && b == body,
            _ => true,
        },
{
}

/// A retry is said to help exactly where the server is busy or has failed.
pub proof fn law_busy_servers_can_be_asked_again(status: u16, body: Seq<char>)
    ensures
        retryable(refusal(status, body)) <==> status == 429 || 500 <= status <= 599,
{
}

/// A request ends with the first success. A failure of the server and a missing
/// reply are followed by another send, four times at most; after the fifth send the
/// last failure is the error.
pub proof fn law_failed_sends_are_repeated(attempt: u32, status: u16, why: String)
    requires
        attempt < 5,
    ensures
        send_step(attempt, Sent::Reply(status)) is Answered <==> 200 <= status <= 299,
        send_step(attempt, Sent::Reply(status)) is SendAgain <==> 500 <= status <= 599 && attempt
            < 4,
        send_step(attempt, Sent::Broken(why)) is SendAgain <==> attempt < 4,
        attempt == 4 ==> send_step(attempt, Sent::Broken(why)) == SendStepView::Failed(
            ApiErrorView::Network(why@),
        ),
{
}

/// The first wait between two sends is a tenth of a second, and each further one is
/// twice as long.
pub proof fn law_waits_between_sends_double(attempt: u32, status: u16)
    requires
        attempt < 3,
        500 <= status <= 599,
    ensures
        send_step(0, Sent::Reply(status)) == SendStepView::SendAgain(100),
        send_step(attempt, Sent::Reply(status)) matches SendStepView::SendAgain(a) && send_step(
            (attempt + 1) as u32,
            Sent::Reply(status),
        ) == SendStepView::SendAgain((2 * a) as u64) && 2 * a <= 800,
{
    reveal_with_fuel(backoff_after, 5);
}

/// An account is asked for with success exactly where the status says so. An
/// address that is registered already, a refused one and a wrong code have errors
/// of their own.
pub proof fn law_account_replies(status: u16, body: Seq<char>)
    ensures
        plain_refusal(status, body) is None <==> 200 <= status <= 299,
        provision_error(status, body) is None <==> 200 <= status <= 299,
        verify_error(status, body) is None <==> 200 <= status <= 299,
        provision_error(status, body) matches Some(ApiErrorView::Conflict(_)) <==> status == 409,
        provision_error(status, body) matches Some(ApiErrorView::Rejected(_, _)) <==> status == 403,
        verify_error(status, body) == Some(ApiErrorView::Auth) <==> status == 401,
        plain_refusal(status, body) matches Some(e) ==> e == ApiErrorView::Server(status, body),
{
}

/// What the server said stands at the end of the description of an error, and its
/// status before it.
pub proof fn law_descriptions_have_what_the_server_said(status: u16, body: Seq<char>)
    ensures
        ends_with(api_error_text(ApiErrorView::Forbidden(body)), body),
        ends_with(api_error_text(ApiErrorView::Conflict(body)), body),
        ends_with(api_error_text(ApiErrorView::FsContract(body)), body),
        ends_with(api_error_text(ApiErrorView::Network(body)), body),
        ends_with(
            api_error_text(ApiErrorView::Server(status, body)),
            decimal(status as nat) + "): "@ + body,
        ),
        ends_with(
            api_error_text(ApiErrorView::Rejected(status, body)),
            decimal(status as nat) + "): "@ + body,
        ),
{
    lemma_ends("forbidden: "@, body);
    lemma_ends("conflict: "@, body);
    lemma_ends("fs contract violation: "@, body);
    lemma_ends("network error: "@, body);
    let said = decimal(status as nat) + "): "@ + body;
    lemma_ends("server error ("@, said);
    lemma_ends("request rejected ("@, said);
    assert(api_error_text(ApiErrorView::Server(status, body)) =~= "server error ("@ + said);
    assert(api_error_text(ApiErrorView::Rejected(status, body)) =~= "request rejected ("@ + said);
}

/// `s` ends with `end`.
pub open spec fn ends_with(s: Seq<char>, end: Seq<char>) -> bool {
    s.len() >= end.len() && s.skip(s.len() - end.len()) == end
}

proof fn lemma_ends(front: Seq<char>, end: Seq<char>)
    ensures
        ends_with(front + end, end),
{
    assert((front + end).skip(front.len() as int) =~= end);
}

// ── Values ──────────────────────────────────────────────────────────────────

/// A field is found by its name wherever it stands, and what has no such field is
/// told so.
pub proof fn law_fields_are_found(fields: Seq<(Seq<char>, JsonView)>, key: Seq<char>, at: int)
    ensures
        0 <= at < fields.len() && fields[at].0 == key && (forall|i: int|
            0 <= i < at ==> (#[trigger] fields[i]).0 != key) ==> field(JsonView::Object(fields), key)
            == Some(fields[at].1),
        (forall|i: int| 0 <= i < fields.len() ==> (#[trigger] fields[i]).0 != key) ==> field(
            JsonView::Object(fields),
            key,
        ) is None,
{
    lemma_field_from(fields, key, 0, at);
}

proof fn lemma_field_from(fields: Seq<(Seq<char>, JsonView)>, key: Seq<char>, from: int, at: int)
    requires
        0 <= from,
    ensures
        from <= at < fields.len() && fields[at].0 == key && (forall|i: int|
            from <= i < at ==> (#[trigger] fields[i]).0 != key) ==> field_from(fields, key, from)
            == Some(fields[at].1),
        (forall|i: int| from <= i < fields.len() ==> (#[trigger] fields[i]).0 != key)
            ==> field_from(fields, key, from) is None,
    decreases fields.len() - from,
{
    if from < fields.len() && fields[from].0 != key {
        lemma_field_from(fields, key, from + 1, at);
    }
}

/// Of a list the texts are taken, all of them and in order. What is no text is
/// passed over.
pub proof fn law_texts_are_taken(list: Seq<JsonView>, j: JsonView)
    ensures
        texts_among(list.push(j)) == (match j {
            JsonView::Text(s) => texts_among(list).push(s),
            _ => texts_among(list),
        }),
        texts_among(Seq::<JsonView>::empty()).len() == 0,
        (forall|i: int| 0 <= i < list.len() ==> (#[trigger] list[i]) is Text) ==> texts_among(
            list,
        ).len() == list.len(),
    decreases list.len(),
{
    assert(list.push(j).drop_last() =~= list);
    if list.len() > 0 {
        law_texts_are_taken(list.drop_last(), list.last());
        assert(list.drop_last().push(list.last()) =~= list);
        if forall|i: int| 0 <= i < list.len() ==> (#[trigger] list[i]) is Text {
            assert forall|i: int| 0 <= i < list.drop_last().len() implies (
            #[trigger] list.drop_last()[i]) is Text by {
                assert(list[i] is Text);
            }
            assert(list[list.len() - 1] is Text);
        }
    }
}

/// The account that the server tells is read field by field.
pub proof fn law_account_is_read(
    w: WhoamiInfo,
    user_id: Seq<char>,
    email: Seq<char>,
    tenant_id: Seq<char>,
    tenant_name: Seq<char>,
    verified: bool,
    scopes: Seq<JsonView>,
)
    requires
        tells(
            w,
            JsonView::Object(
                seq![
                    (
                        "user"@,
                        JsonView::Object(
                            seq![("id"@, JsonView::Text(user_id)), ("email"@, JsonView::Text(email))],
                        ),
                    ),
                    (
                        "tenant"@,
                        JsonView::Object(
                            seq![
                                ("id"@, JsonView::Text(tenant_id)),
                                ("name"@, JsonView::Text(tenant_name)),
                                ("verified"@, JsonView::Bool(verified)),
                            ],
                        ),
                    ),
                    ("scopes"@, JsonView::List(scopes)),
                ],
            ),
        ),
    ensures
        w.user_id@ == user_id,
        w.user_email@ == email,
        w.tenant_id@ == tenant_id,
        w.tenant_name@ == tenant_name,
        w.tenant_verified == verified,
        texts(w.scopes@) == texts_among(scopes),
{
    reveal_strlit("user");
    reveal_strlit("tenant");
    reveal_strlit("scopes");
    reveal_strlit("id");
    reveal_strlit("email");
    reveal_strlit("name");
    reveal_strlit("verified");
    let user = seq![("id"@, JsonView::Text(user_id)), ("email"@, JsonView::Text(email))];
    let tenant = seq![
        ("id"@, JsonView::Text(tenant_id)),
        ("name"@, JsonView::Text(tenant_name)),
        ("verified"@, JsonView::Bool(verified)),
    ];
    let all = seq![
        ("user"@, JsonView::Object(user)),
        ("tenant"@, JsonView::Object(tenant)),
        ("scopes"@, JsonView::List(scopes)),
    ];
    assert("user"@.len() == 4 && "tenant"@.len() == 6 && "scopes"@.len() == 6);
    assert("tenant"@[0] == 't' && "scopes"@[0] == 's');
    assert("id"@.len() == 2 && "email"@.len() == 5 && "name"@.len() == 4 && "verified"@.len() == 8);
    law_fields_are_found(all, "user"@, 0);
    law_fields_are_found(all, "tenant"@, 1);
    law_fields_are_found(all, "scopes"@, 2);
    law_fields_are_found(user, "id"@, 0);
    law_fields_are_found(user, "email"@, 1);
    law_fields_are_found(tenant, "id"@, 0);
    law_fields_are_found(tenant, "name"@, 1);
    law_fields_are_found(tenant, "verified"@, 2);
}

} // verus!
