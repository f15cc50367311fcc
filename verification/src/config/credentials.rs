//! Credentials for the Unison brain API: where they are kept and which of them
//! count.

use crate::api::client::{base_of, DEFAULT_API_URL};
use crate::api::json::{field, json_of_text, parse_json, text_value, Json, JsonView};
use crate::paths::{join_path, path_in};
use crate::text::{
    ascii_alphanumeric, ascii_letter_or_digit, chars_of, copy_text, opt_str_view, opt_view, own_opt,
    trim_end_char,
};
use vstd::prelude::*;

verus! {

/// Stored credentials.
#[derive(Debug)]
pub struct Credentials {
    /// The usk_live_... token.
    pub token: String,
    /// Override for the API base URL (optional).
    pub api_url: Option<String>,
}

/// A [`Credentials`] with its texts as character sequences.
pub struct CredentialsView {
    pub token: Seq<char>,
    pub api_url: Option<Seq<char>>,
}

impl View for Credentials {
    type V = CredentialsView;

    open spec fn view(&self) -> CredentialsView {
        CredentialsView { token: self.token@, api_url: opt_view(self.api_url) }
    }
}

pub open spec fn credentials_view(c: Option<Credentials>) -> Option<CredentialsView> {
    match c {
        Some(c) => Some(c@),
        None => None,
    }
}

// ── Files ───────────────────────────────────────────────────────────────────

/// What a credentials file says, read as a JSON value: a token, and the API's
/// address as `apiUrl` or, where that key is missing, as `api_url`.
pub open spec fn credentials_in(j: JsonView) -> Option<CredentialsView> {
    match field(j, "token"@) {
        Some(t) => match text_value(t) {
            Some(token) => Some(
                CredentialsView {
                    token,
                    api_url: match field(j, "apiUrl"@) {
                        Some(u) => text_value(u),
                        None => match field(j, "api_url"@) {
                            Some(u) => text_value(u),
                            None => None,
                        },
                    },
                },
            ),
            None => None,
        },
        None => None,
    }
}

/// Reads the JSON of a credentials file.
pub fn credentials_from(j: &Json) -> (r: Option<Credentials>)
    ensures
        credentials_view(r) == credentials_in(j@),
{
    let token = match j.get("token") {
        Some(t) => match t.as_str() {
            Some(s) => copy_text(s),
            None => {
                return None;
            },
        },
        None => {
            return None;
        },
    };
    let url = match j.get("apiUrl") {
        Some(u) => Some(u),
        None => j.get("api_url"),
    };
    let api_url = match url {
        Some(u) => own_opt(u.as_str()),
        None => None,
    };
    Some(Credentials { token, api_url })
}

/// Reads the text of a credentials file; nothing where it is no JSON or holds
/// no token. `stored` is what the file holds in the stored shape, if it has it.
pub fn load_json(stored: Option<Credentials>, data: &str) -> (r: Option<Credentials>)
    ensures
        credentials_view(r) == (match stored {
            Some(c) => Some(c@),
            None => match json_of_text(data@) {
                Some(j) => credentials_in(j),
                None => None,
            },
        }),
{
    match stored {
        Some(c) => Some(c),
        None => match parse_json(data) {
            Some(j) => credentials_from(&j),
            None => None,
        },
    }
}

/// How one character of a path is written in a file name.
pub open spec fn encoded_char(c: char) -> Seq<char> {
    if c == '/' || c == ':' {
        "__"@
    } else if ascii_alphanumeric(c) || c == '-' || c == '_' {
        seq![c]
    } else {
        "_"@
    }
}

/// A path as part of a file name: each character as it is written there.
pub open spec fn encoded_path(path: Seq<char>) -> Seq<char>
    decreases path.len(),
{
    if path.len() == 0 {
        Seq::empty()
    } else {
        encoded_path(path.drop_last()) + encoded_char(path.last())
    }
}

/// Encode an absolute path into a safe filename component.
/// Replaces `/` and `:` with `__`, keeping ASCII alnum + `-_`; other characters
/// become `_`.
pub fn encode_path(path: &str) -> (r: String)
    ensures
        r@ == encoded_path(path@),
{
    let v = chars_of(path);
    let mut out = String::new();
    let mut i: usize = 0;
    assert(path@.take(0) =~= Seq::empty());
    assert(out@ =~= Seq::empty());
    while i < v.len()
        invariant
            i <= v@.len(),
            v@ == path@,
            out@ == encoded_path(path@.take(i as int)),
        decreases v@.len() - i,
    {
        let c = v[i];
        let ghost before = out@;
        assert(path@.take(i + 1).drop_last() =~= path@.take(i as int));
        if c == '/' || c == ':' {
            out = out.concat("__");
        } else if ascii_letter_or_digit(c) || c == '-' || c == '_' {
            out.push(c);
            assert(out@ =~= before + seq![c]);
        } else {
            out = out.concat("_");
        }
        i += 1;
    }
    assert(path@.take(path@.len() as int) =~= path@);
    out
}

/// The file that holds the credentials of one mount.
pub fn project_path(projects_dir: &str, mount_path: &str) -> (r: String)
    ensures
        r@ == path_in(projects_dir@, encoded_path(mount_path@) + ".json"@),
{
    join_path(projects_dir, encode_path(mount_path).concat(".json").as_str())
}

/// An encoded path holds only ASCII letters, digits, `-` and `_`.
pub proof fn law_encoded_path_is_safe(path: Seq<char>)
    ensures
        forall|i: int|
            0 <= i < encoded_path(path).len() ==> ascii_alphanumeric(
                #[trigger] encoded_path(path)[i],
            ) || encoded_path(path)[i] == '-' || encoded_path(path)[i] == '_',
    decreases path.len(),
{
    if path.len() > 0 {
        let front = encoded_path(path.drop_last());
        let last = encoded_char(path.last());
        law_encoded_path_is_safe(path.drop_last());
        reveal_strlit("__");
        reveal_strlit("_");
        assert forall|i: int| 0 <= i < encoded_path(path).len() implies ascii_alphanumeric(
            #[trigger] encoded_path(path)[i],
        ) || encoded_path(path)[i] == '-' || encoded_path(path)[i] == '_' by {
            if i < front.len() {
                assert(encoded_path(path)[i] == front[i]);
            } else {
                assert(encoded_path(path)[i] == last[i - front.len()]);
            }
        }
    }
}

/// A path is encoded piece by piece: what joins two of them is the joined
/// encoding.
pub proof fn law_encoded_path_of_joined(a: Seq<char>, b: Seq<char>)
    ensures
        encoded_path(a + b) == encoded_path(a) + encoded_path(b),
    decreases b.len(),
{
    if b.len() == 0 {
        assert(a + b =~= a);
    } else {
        law_encoded_path_of_joined(a, b.drop_last());
        assert((a + b).drop_last() =~= a + b.drop_last());
        assert(encoded_path(a + b) =~= encoded_path(a) + encoded_path(b));
    }
}

// ── Precedence ──────────────────────────────────────────────────────────────

/// A text that is given and not empty.
pub open spec fn given(s: Option<Seq<char>>) -> bool {
    s is Some && s->0.len() > 0
}

/// What the environment says of the API.
#[derive(Debug)]
pub struct ApiEnv {
    /// `UNISON_TOKEN`
    pub token: Option<String>,
    /// `UNISON_API_URL`
    pub api_url: Option<String>,
}

/// The credentials that count: an explicit token first, then the token of the
/// environment, then `stored`.
pub open spec fn resolved(
    explicit: Option<Seq<char>>,
    env_token: Option<Seq<char>>,
    env_url: Option<Seq<char>>,
    stored: Option<CredentialsView>,
) -> Option<CredentialsView> {
    if given(explicit) {
        Some(CredentialsView { token: explicit->0, api_url: None })
    } else if given(env_token) {
        Some(CredentialsView { token: env_token->0, api_url: env_url })
    } else {
        stored
    }
}

/// Resolve credentials: explicit --token > UNISON_TOKEN env > global file.
pub fn resolve(explicit_token: Option<&str>, env: ApiEnv, global: Option<Credentials>) -> (r: Option<
    Credentials,
>)
    ensures
        credentials_view(r) == resolved(
            opt_str_view(explicit_token),
            opt_view(env.token),
            opt_view(env.api_url),
            credentials_view(global),
        ),
{
    match explicit_token {
        Some(t) => {
            if !t.is_empty() {
                return Some(Credentials { token: copy_text(t), api_url: None });
            }
        },
        None => {},
    }
    match env.token {
        Some(t) => {
            if !t.as_str().is_empty() {
                return Some(Credentials { token: t, api_url: env.api_url });
            }
        },
        None => {},
    }
    global
}

/// The stored credentials that count: those of the project before those for all.
pub open spec fn nearest(
    project: Option<CredentialsView>,
    global: Option<CredentialsView>,
) -> Option<CredentialsView> {
    match project {
        Some(c) => Some(c),
        None => global,
    }
}

/// Resolve credentials with project scope taking precedence over global:
/// explicit --token > UNISON_TOKEN env > project-scoped file > global file.
pub fn resolve_with_project(
    explicit_token: Option<&str>,
    env: ApiEnv,
    project: Option<Credentials>,
    global: Option<Credentials>,
) -> (r: Option<Credentials>)
    ensures
        credentials_view(r) == resolved(
            opt_str_view(explicit_token),
            opt_view(env.token),
            opt_view(env.api_url),
            (match project {
                Some(c) => Some(c@),
                None => credentials_view(global),
            }),
        ),
        credentials_view(r) == resolved(
            opt_str_view(explicit_token),
            opt_view(env.token),
            opt_view(env.api_url),
            nearest(credentials_view(project), credentials_view(global)),
        ),
{
    match project {
        Some(c) => resolve(explicit_token, env, Some(c)),
        None => resolve(explicit_token, env, global),
    }
}

/// The address of the API that counts, without slashes at its end.
pub open spec fn resolved_url(
    explicit: Option<Seq<char>>,
    env_url: Option<Seq<char>>,
    stored: Option<CredentialsView>,
) -> Seq<char> {
    if given(explicit) {
        base_of(explicit->0)
    } else if given(env_url) {
        base_of(env_url->0)
    } else if stored is Some && given(stored->0.api_url) {
        base_of(stored->0.api_url->0)
    } else {
        DEFAULT_API_URL@
    }
}

fn without_slashes(u: Option<&str>) -> (r: Option<String>)
    ensures
        opt_view(r) == (if given(opt_str_view(u)) {
            Some(base_of(u->0@))
        } else {
            None
        }),
{
    match u {
        Some(s) => if s.is_empty() {
            None
        } else {
            Some(trim_end_char(s, '/'))
        },
        None => None,
    }
}

/// Resolve just the API URL with proper precedence:
/// explicit arg > UNISON_API_URL env > config file > default.
pub fn resolve_api_url(
    explicit: Option<&str>,
    env_url: Option<&str>,
    global: &Option<Credentials>,
) -> (r: String)
    ensures
        r@ == resolved_url(
            opt_str_view(explicit),
            opt_str_view(env_url),
            credentials_view(*global),
        ),
{
    match without_slashes(explicit) {
        Some(u) => {
            return u;
        },
        None => {},
    }
    match without_slashes(env_url) {
        Some(u) => {
            return u;
        },
        None => {},
    }
    match global {
        Some(c) => match &c.api_url {
            Some(s) => match without_slashes(Some(s.as_str())) {
                Some(u) => {
                    return u;
                },
                None => {},
            },
            None => {},
        },
        None => {},
    }
    copy_text(DEFAULT_API_URL)
}

/// Where nothing names a token.
pub const NO_TOKEN: &'static str =
    "No Unison token found.\nSet UNISON_TOKEN=usk_live_... or run `unisonfs login` first.\nTo provision a new account: `unisonfs provision --email you@example.com`";

/// Resolve the API token from: explicit flag > UNISON_TOKEN env > config file.
pub fn resolve_token(explicit: Option<&str>, env: ApiEnv, global: Option<Credentials>) -> (r: Result<
    String,
    String,
>)
    ensures
        match resolved(
            opt_str_view(explicit),
            opt_view(env.token),
            opt_view(env.api_url),
            credentials_view(global),
        ) {
            Some(c) => r is Ok && r->Ok_0@ == c.token,
            None => r is Err && r->Err_0@ == NO_TOKEN@,
        },
{
    match resolve(explicit, env, global) {
        Some(c) => Ok(c.token),
        None => Err(copy_text(NO_TOKEN)),
    }
}

/// An explicit token counts whatever the environment and the files say, and a
/// token of the environment counts whatever the files say.
pub proof fn law_explicit_token_wins(
    explicit: Option<Seq<char>>,
    env_token: Option<Seq<char>>,
    env_url: Option<Seq<char>>,
    stored: Option<CredentialsView>,
)
    ensures
        given(explicit) ==> resolved(explicit, env_token, env_url, stored) is Some && resolved(
            explicit,
            env_token,
            env_url,
            stored,
        )->0.token == explicit->0,
        !given(explicit) && given(env_token) ==> resolved(explicit, env_token, env_url, stored) is Some
            && resolved(explicit, env_token, env_url, stored)->0.token == env_token->0,
        !given(explicit) && !given(env_token) ==> resolved(explicit, env_token, env_url, stored)
            == stored,
{
}

} // verus!
