//! The API client: requests, replies, JSON and credentials.

use unisonfs::api::client::{
    provision_url, read_whoami, refused, request_key_url, verify_url, whoami_from, ApiClient,
    Method, Retry, SendStep, Sent, DEFAULT_API_URL,
};
use unisonfs::api::dto::{ListDocsReq, SearchReq};
use unisonfs::api::error::ApiError;
use unisonfs::api::json::Json;
use unisonfs::api::query::urlencoding;
use unisonfs::config::credentials::{
    credentials_from, encode_path, load_json, project_path, resolve, resolve_api_url,
    resolve_token, resolve_with_project, ApiEnv, Credentials,
};
use unisonfs::config::{
    cache_db_path, cache_db_path_for_tag, cache_dir, daemon_log_path, legacy_cache_db_path,
    runtime_dir,
};

fn client() -> ApiClient {
    ApiClient::new("https://api.example.com//", "usk_live_x")
}

// ── Requests ────────────────────────────────────────────────────────────────

#[test]
fn values_are_percent_encoded() {
    assert_eq!(urlencoding("AZaz09-_.~"), "AZaz09-_.~");
    assert_eq!(urlencoding("/private/a b.md"), "%2Fprivate%2Fa%20b.md");
    assert_eq!(urlencoding("é€😀"), "%C3%A9%E2%82%AC%F0%9F%98%80");
    assert_eq!(urlencoding("a&b=c?d#e%"), "a%26b%3Dc%3Fd%23e%25");
    assert_eq!(urlencoding(""), "");
    assert_eq!(urlencoding("a b/é"), "a%20b%2F%C3%A9");
    assert_eq!(urlencoding("a b/é"), urlencoding("a b") + &urlencoding("/é"));
}

#[test]
fn encoding_loses_nothing() {
    let texts = ["a b", "a%20b", "a+b", "ä", "%C3%A4", "/", "%2F"];
    for (i, a) in texts.iter().enumerate() {
        for b in &texts[i + 1..] {
            assert_ne!(urlencoding(a), urlencoding(b));
        }
    }
}

#[test]
fn requests_carry_the_token() {
    let c = client();
    let r = c.get_doc("/private/a b.md");
    assert_eq!(r.method, Method::Get);
    assert_eq!(r.url, "https://api.example.com/v1/brain/doc?path=%2Fprivate%2Fa%20b.md");
    assert_eq!(r.authorization, "Bearer usk_live_x");
    assert_eq!(c.whoami().url, "https://api.example.com/v1/auth/whoami");
    assert_eq!(c.brain_status().url, "https://api.example.com/v1/brain/status");
    assert_eq!(c.fs_list("/x").url, "https://api.example.com/v1/brain/fs?path=%2Fx");
    assert_eq!(c.fs_read("/x").url, "https://api.example.com/v1/brain/fs/read?path=%2Fx");
    assert_eq!(
        c.resolve_entity("Ann B").url,
        "https://api.example.com/v1/brain/entities/resolve?name=Ann%20B"
    );
    assert_eq!(c.get_entity("e1").url, "https://api.example.com/v1/brain/entities/e1");
    assert_eq!(c.facts_about("e1").url, "https://api.example.com/v1/brain/entities/e1/facts");
}

#[test]
fn writes_are_counted() {
    let mut c = client().with_user_id("u1".to_string());
    assert_eq!(c.user_id.as_deref(), Some("u1"));
    assert_eq!(c.write_calls(), 0);
    assert_eq!(c.put_doc().method, Method::Put);
    assert_eq!(c.patch_doc().method, Method::Patch);
    let d = c.delete_doc("/a");
    assert_eq!(d.method, Method::Delete);
    assert_eq!(d.url, "https://api.example.com/v1/brain/doc?path=%2Fa");
    assert_eq!(c.tag_doc().url, "https://api.example.com/v1/brain/doc/tag");
    assert_eq!(c.upsert_entity().method, Method::Post);
    assert_eq!(c.record_fact().url, "https://api.example.com/v1/brain/facts");
    assert_eq!(c.write_calls(), 6);
    c.write_calls = u32::MAX;
    c.put_doc();
    assert_eq!(c.write_calls(), 0);
}

#[test]
fn query_strings() {
    let c = client();
    let none = ListDocsReq { prefix: None, kind: vec![], tag: vec![], limit: None };
    assert_eq!(c.list_docs(&none).url, "https://api.example.com/v1/brain/list");
    let all = ListDocsReq {
        prefix: Some("/private/".to_string()),
        kind: vec!["note".to_string(), "raw".to_string()],
        tag: vec!["a b".to_string()],
        limit: Some(1000),
    };
    assert_eq!(
        c.list_docs(&all).url,
        "https://api.example.com/v1/brain/list?prefix=%2Fprivate%2F&kind=note&kind=raw&tag=a%20b&limit=1000"
    );
    let s = SearchReq {
        q: "auth decisions".to_string(),
        k: Some(10),
        kind: vec!["note".to_string()],
        memory_type: Some("semantic".to_string()),
        as_of: Some("2026-01-01".to_string()),
    };
    assert_eq!(
        c.search(&s).url,
        "https://api.example.com/v1/brain/search?q=auth%20decisions&k=10&kind=note&memoryType=semantic&asOf=2026-01-01"
    );
    assert_eq!(
        c.grep("a.*b", true, Some(50)).url,
        "https://api.example.com/v1/brain/grep?pattern=a.%2Ab&caseSensitive=true&limit=50"
    );
    assert_eq!(
        c.grep("x", false, None).url,
        "https://api.example.com/v1/brain/grep?pattern=x&caseSensitive=false"
    );
    assert_eq!(
        c.neighbors("id", Some(3)).url,
        "https://api.example.com/v1/brain/neighbors?idOrPath=id&limit=3"
    );
    assert_eq!(
        c.changes(None, Some(1000)).url,
        "https://api.example.com/v1/brain/changes?limit=1000"
    );
    assert_eq!(
        c.changes(Some("a/b="), Some(5)).url,
        "https://api.example.com/v1/brain/changes?since=a%2Fb%3D&limit=5"
    );
    assert_eq!(
        c.open_changes_stream().url,
        "https://api.example.com/v1/brain/changes/stream"
    );
    assert_eq!(c.get_profile().url, "https://api.example.com/v1/brain/profile");
}

#[test]
fn open_endpoints_need_no_token() {
    assert_eq!(provision_url("http://h/"), "http://h/v1/auth/provision");
    assert_eq!(verify_url("http://h"), "http://h/v1/auth/verify");
    assert_eq!(request_key_url("http://h//"), "http://h/v1/auth/request-key");
}

// ── Replies ─────────────────────────────────────────────────────────────────

#[test]
fn statuses_are_told_apart() {
    let body = || "why".to_string();
    assert_eq!(refused(401, body()), ApiError::Auth);
    assert_eq!(refused(403, body()), ApiError::Forbidden(body()));
    assert_eq!(refused(404, body()), ApiError::NotFound);
    assert_eq!(refused(409, body()), ApiError::Conflict(body()));
    assert_eq!(refused(422, body()), ApiError::FsContract(body()));
    assert_eq!(refused(429, body()), ApiError::RateLimited);
    assert_eq!(refused(503, body()), ApiError::Server { status: 503, body: body() });
    assert_eq!(refused(410, body()), ApiError::Rejected { status: 410, body: body() });
    assert_eq!(refused(301, body()), ApiError::Rejected { status: 301, body: body() });
}

#[test]
fn failures_are_sent_again_with_backoff() {
    let mut r = Retry::new();
    let mut waits = Vec::new();
    loop {
        match r.after(Sent::Reply(500)) {
            SendStep::SendAgain(ms) => waits.push(ms),
            SendStep::Refused => break,
            other => panic!("{other:?}"),
        }
    }
    assert_eq!(waits, vec![100, 200, 400, 800]);

    let mut r = Retry::new();
    for _ in 0..4 {
        assert!(matches!(r.after(Sent::Broken("reset".to_string())), SendStep::SendAgain(_)));
    }
    assert_eq!(
        r.after(Sent::Broken("reset".to_string())),
        SendStep::Failed(ApiError::Network("reset".to_string()))
    );
    assert_eq!(Retry::new().after(Sent::Reply(204)), SendStep::Answered);
    for status in [400, 401, 403, 404, 409, 410, 422, 429, 300] {
        assert_eq!(Retry::new().after(Sent::Reply(status)), SendStep::Refused, "{status}");
    }
}

#[test]
fn auth_replies() {
    let b = || "b".to_string();
    assert_eq!(ApiClient::provision(200, b()), None);
    assert_eq!(
        ApiClient::provision(409, b()),
        Some(ApiError::Conflict("email_registered".to_string()))
    );
    assert_eq!(
        ApiClient::provision(403, b()),
        Some(ApiError::Rejected { status: 403, body: b() })
    );
    assert_eq!(
        ApiClient::provision(401, b()),
        Some(ApiError::Server { status: 401, body: b() })
    );
    assert_eq!(ApiClient::verify(201, b()), None);
    assert_eq!(ApiClient::verify(401, b()), Some(ApiError::Auth));
    assert_eq!(ApiClient::verify(500, b()), Some(ApiError::Server { status: 500, body: b() }));
    assert_eq!(ApiClient::request_key(200, b()), None);
    assert_eq!(
        ApiClient::request_key(404, b()),
        Some(ApiError::Server { status: 404, body: b() })
    );
}

#[test]
fn errors_have_texts() {
    let s = || "s".to_string();
    let cases = [
        (ApiError::Auth, "authentication failed (invalid or expired token)", false),
        (ApiError::Forbidden(s()), "forbidden: s", false),
        (ApiError::NotFound, "not found", false),
        (ApiError::Conflict(s()), "conflict: s", false),
        (ApiError::FsContract(s()), "fs contract violation: s", false),
        (ApiError::RateLimited, "rate limited — retry after backoff", true),
        (ApiError::Server { status: 502, body: s() }, "server error (502): s", true),
        (ApiError::Rejected { status: 418, body: s() }, "request rejected (418): s", false),
        (ApiError::Network(s()), "network error: s", false),
    ];
    for (e, text, retry) in cases {
        assert_eq!(e.message(), text);
        assert_eq!(e.is_retryable(), retry, "{text}");
    }
}

// ── JSON ────────────────────────────────────────────────────────────────────

#[test]
fn whoami_is_read_from_json() {
    let body = r#"{"user":{"id":"u","email":"e@x"},"tenant":{"id":"t","name":"T","verified":true},"scopes":["a",1,"b",null]}"#;
    let w = read_whoami(body).unwrap();
    assert_eq!((w.user_id.as_str(), w.user_email.as_str()), ("u", "e@x"));
    assert_eq!((w.tenant_id.as_str(), w.tenant_name.as_str()), ("t", "T"));
    assert!(w.tenant_verified);
    assert_eq!(w.scopes, vec!["a".to_string(), "b".to_string()]);

    let w = read_whoami(r#"{"user":"x","tenant":{"verified":"yes","name":5}}"#).unwrap();
    assert_eq!((w.user_id.as_str(), w.tenant_name.as_str()), ("", ""));
    assert!(!w.tenant_verified);
    assert!(w.scopes.is_empty());
    assert!(read_whoami("not json").is_none());
}

#[test]
fn json_values_are_found_by_key() {
    let text = |s: &str| Json::Text(s.to_string());
    let j = Json::Object(vec![
        ("n".to_string(), Json::Number),
        ("user".to_string(), Json::Object(vec![("id".to_string(), text("7"))])),
        ("scopes".to_string(), Json::List(vec![text("r"), Json::Null, text("w")])),
        ("tenant".to_string(), Json::Object(vec![("verified".to_string(), Json::Bool(true))])),
    ]);
    assert!(matches!(j.get("n"), Some(Json::Number)));
    assert!(j.get("m").is_none());
    assert!(Json::Null.get("n").is_none());
    assert_eq!(j.nested("user", "id"), "7");
    assert_eq!(j.nested("user", "name"), "");
    let w = whoami_from(&j);
    assert_eq!(w.user_id, "7");
    assert!(w.tenant_verified);
    assert_eq!(w.scopes, vec!["r".to_string(), "w".to_string()]);
}

// ── Credentials ─────────────────────────────────────────────────────────────

fn creds(token: &str, url: Option<&str>) -> Credentials {
    Credentials { token: token.to_string(), api_url: url.map(String::from) }
}

fn env(token: Option<&str>, url: Option<&str>) -> ApiEnv {
    ApiEnv { token: token.map(String::from), api_url: url.map(String::from) }
}

#[test]
fn credentials_are_read_from_json() {
    let c = load_json(None, r#"{"token":"t","apiUrl":"http://a"}"#).unwrap();
    assert_eq!((c.token.as_str(), c.api_url.as_deref()), ("t", Some("http://a")));
    let c = load_json(None, r#"{"token":"t","api_url":"http://b"}"#).unwrap();
    assert_eq!(c.api_url.as_deref(), Some("http://b"));
    let c = load_json(None, r#"{"token":"t","apiUrl":3,"api_url":"http://b"}"#).unwrap();
    assert_eq!(c.api_url, None);
    assert!(load_json(None, r#"{"token":5}"#).is_none());
    assert!(load_json(None, "{}").is_none());
    assert!(load_json(None, "{").is_none());
    let c = load_json(Some(creds("s", None)), r#"{"token":"t"}"#).unwrap();
    assert_eq!(c.token, "s");
    assert!(credentials_from(&Json::Null).is_none());
}

#[test]
fn tokens_have_an_order() {
    let pick = |e, v, g| resolve(e, v, g).map(|c| (c.token, c.api_url));
    let own = |s: &str| s.to_string();
    assert_eq!(
        pick(Some("x"), env(Some("e"), Some("u")), Some(creds("g", None))),
        Some((own("x"), None))
    );
    assert_eq!(
        pick(Some(""), env(Some("e"), Some("u")), Some(creds("g", None))),
        Some((own("e"), Some(own("u"))))
    );
    assert_eq!(
        pick(None, env(Some(""), Some("u")), Some(creds("g", Some("gu")))),
        Some((own("g"), Some(own("gu"))))
    );
    assert_eq!(pick(None, env(None, None), None), None);
    let c = resolve_with_project(None, env(None, None), Some(creds("p", None)), Some(creds("g", None)));
    assert_eq!(c.unwrap().token, "p");
    let c = resolve_with_project(None, env(None, None), None, Some(creds("g", None)));
    assert_eq!(c.unwrap().token, "g");
    assert_eq!(resolve_token(Some("t"), env(None, None), None), Ok(own("t")));
    let e = resolve_token(None, env(None, None), None).unwrap_err();
    assert!(e.starts_with("No Unison token found.\nSet UNISON_TOKEN"));
}

#[test]
fn addresses_have_an_order() {
    let global = Some(creds("g", Some("http://file/")));
    assert_eq!(resolve_api_url(Some("http://arg//"), Some("http://env"), &global), "http://arg");
    assert_eq!(resolve_api_url(Some(""), Some("http://env/"), &global), "http://env");
    assert_eq!(resolve_api_url(None, Some(""), &global), "http://file");
    assert_eq!(resolve_api_url(None, None, &Some(creds("g", None))), DEFAULT_API_URL);
    assert_eq!(resolve_api_url(None, None, &None), "https://api.unisonlabs.ai");
}

#[test]
fn paths_become_file_names() {
    assert_eq!(encode_path("/a/b"), "__a__b");
    assert_eq!(encode_path("/home/ann/brain"), "__home__ann__brain");
    assert_eq!(encode_path("C:/x_y-z 1.2"), "C____x_y-z_1_2");
    assert_eq!(encode_path("///"), "______");
    assert_eq!(encode_path("/é/"), "_____");
    assert_eq!(encode_path(""), "");
    assert_eq!(project_path("/cfg/projects", "/a/b"), "/cfg/projects/__a__b.json");
}

#[test]
fn cache_files_have_places() {
    assert_eq!(cache_dir(Some("/c".to_string())), "/c");
    assert_eq!(cache_dir(None), "/tmp/unisonfs");
    assert_eq!(runtime_dir(None), "/tmp/unisonfs-run");
    assert_eq!(cache_db_path("/c", "ws"), "/c/ws/brain.db");
    assert_eq!(legacy_cache_db_path("/c/", "ws"), "/c/ws/brain.db");
    assert_eq!(cache_db_path_for_tag("/c", "ws", "my tag/é"), "/c/ws__my_tag__/brain.db");
    assert_eq!(cache_db_path_for_tag("/c", "ws", ""), "/c/ws/brain.db");
    assert_eq!(daemon_log_path("/c"), "/c/daemon.log");
}
