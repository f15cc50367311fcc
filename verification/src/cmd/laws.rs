//! What the commands do with what they are told.

use super::grep::{limit_or, scope_prefix, under_scope};
use super::init::{rc_of, shell_in};
use super::install::install_dir;
use super::login::{login_says, token_in, verify_says, Verified};
use super::mount::{
    daemon_command, import_target, is_taken, mount_tag, trimmed_parts, DaemonArgs,
};
use super::startup::{startup_says, wait_step, Phase, ProgressView, WaitStep};
use super::unmount::{first_mount, is_mount_of, mounted_at, names_path, tag_in};
use crate::api::client::{base_of, DEFAULT_API_URL};
use crate::api::dto::{VerifyResp, WhoamiInfo};
use crate::api::error::ApiError;
use crate::api::json::{field, JsonView};
use crate::api::laws::law_fields_are_found;
use crate::config::credentials::{
    credentials_in, encoded_path, given, nearest, resolved, resolved_url, CredentialsView,
};
use crate::config::{safe_tag, tagged_db, workspace_db};
use crate::paths::{name_in, path_in, steps};
use crate::pattern::{before_first, cut_first, first_at, found_at, lemma_first_at, lemma_first_from};
use crate::text::{
    ascii_alphanumeric, decimal, drop_front, has_prefix, has_suffix, is_char, is_space,
    law_whitespace_is_trimmed, lemma_one_piece, lemma_pieces_around, opt_view, pieces, trimmed,
};
use vstd::prelude::*;

verus! {

// ── Credentials ─────────────────────────────────────────────────────────────

/// A file with a token and an address in it gives both. An address under either
/// name counts, that in camel case first. Without a token a file gives nothing.
pub proof fn law_credentials_file_is_read(
    token: Seq<char>,
    url: Seq<char>,
    other: Seq<char>,
)
    ensures
        ({
            let t = ("token"@, JsonView::Text(token));
            let u = ("apiUrl"@, JsonView::Text(url));
            let v = ("api_url"@, JsonView::Text(other));
            &&& credentials_in(JsonView::Object(seq![t])) == Some(
                CredentialsView { token, api_url: None },
            )
            &&& credentials_in(JsonView::Object(seq![t, u])) == Some(
                CredentialsView { token, api_url: Some(url) },
            )
            &&& credentials_in(JsonView::Object(seq![t, v])) == Some(
                CredentialsView { token, api_url: Some(other) },
            )
            &&& credentials_in(JsonView::Object(seq![v, u, t])) == Some(
                CredentialsView { token, api_url: Some(url) },
            )
            &&& credentials_in(JsonView::Object(seq![u, v])) is None
        }),
{
    reveal_strlit("token");
    reveal_strlit("apiUrl");
    reveal_strlit("api_url");
    assert("token"@.len() == 5 && "apiUrl"@.len() == 6 && "api_url"@.len() == 7);
    let t = ("token"@, JsonView::Text(token));
    let u = ("apiUrl"@, JsonView::Text(url));
    let v = ("api_url"@, JsonView::Text(other));
    law_fields_are_found(seq![t], "token"@, 0);
    law_fields_are_found(seq![t], "apiUrl"@, 0);
    law_fields_are_found(seq![t], "api_url"@, 0);
    law_fields_are_found(seq![t, u], "token"@, 0);
    law_fields_are_found(seq![t, u], "apiUrl"@, 1);
    law_fields_are_found(seq![t, v], "token"@, 0);
    law_fields_are_found(seq![t, v], "apiUrl"@, 0);
    law_fields_are_found(seq![t, v], "api_url"@, 1);
    law_fields_are_found(seq![v, u, t], "token"@, 2);
    law_fields_are_found(seq![v, u, t], "apiUrl"@, 1);
    law_fields_are_found(seq![u, v], "token"@, 0);
}

/// A value without a text for its token gives no credentials, and the token that is
/// given is the one in the value.
pub proof fn law_credentials_need_a_token(j: JsonView)
    ensures
        credentials_in(j) is Some <==> (field(j, "token"@) matches Some(t) && t is Text),
        credentials_in(j) matches Some(c) ==> field(j, "token"@) == Some(JsonView::Text(c.token)),
{
}

/// The address that goes with the token of the environment is that of the
/// environment, and an explicit token comes without one.
pub proof fn law_token_comes_with_its_address(
    explicit: Option<Seq<char>>,
    env_token: Option<Seq<char>>,
    env_url: Option<Seq<char>>,
    stored: Option<CredentialsView>,
)
    ensures
        given(explicit) ==> resolved(explicit, env_token, env_url, stored)->0.api_url is None,
        !given(explicit) && given(env_token) ==> resolved(
            explicit,
            env_token,
            env_url,
            stored,
        )->0.api_url == env_url,
        explicit == Some(Seq::<char>::empty()) ==> resolved(explicit, env_token, env_url, stored)
            == resolved(None, env_token, env_url, stored),
        env_token == Some(Seq::<char>::empty()) ==> resolved(explicit, env_token, env_url, stored)
            == resolved(explicit, None, env_url, stored),
{
}

/// The address of the API is the explicit one, then that of the environment, then
/// the stored one, and the default where none is given. An empty one is none.
pub proof fn law_explicit_address_wins(
    url: Seq<char>,
    env_url: Option<Seq<char>>,
    stored: Option<CredentialsView>,
)
    ensures
        url.len() > 0 ==> resolved_url(Some(url), env_url, stored) == base_of(url),
        url.len() > 0 ==> resolved_url(None, Some(url), stored) == base_of(url),
        stored is Some && stored->0.api_url == Some(url) && url.len() > 0 ==> resolved_url(
            None,
            None,
            stored,
        ) == base_of(url),
        resolved_url(None, None, None) == DEFAULT_API_URL@,
        resolved_url(Some(Seq::empty()), env_url, stored) == resolved_url(None, env_url, stored),
        resolved_url(None, Some(Seq::empty()), stored) == resolved_url(None, None, stored),
{
}

/// In a file name a path keeps its ASCII letters and digits, hyphens and
/// underscores. A slash or a colon becomes two underscores, and anything else one.
pub proof fn law_encoded_characters(c: char)
    ensures
        ascii_alphanumeric(c) || c == '-' || c == '_' ==> encoded_path(seq![c]) == seq![c],
        c == '/' || c == ':' ==> encoded_path(seq![c]) == seq!['_', '_'],
        !ascii_alphanumeric(c) && c != '-' && c != '_' && c != '/' && c != ':' ==> encoded_path(
            seq![c],
        ) == seq!['_'],
        encoded_path(Seq::<char>::empty()).len() == 0,
{
    reveal_strlit("__");
    reveal_strlit("_");
    assert(seq![c].drop_last() =~= Seq::<char>::empty());
    assert(seq![c].last() == c);
    assert(encoded_path(Seq::<char>::empty()) =~= Seq::<char>::empty());
    let e = encoded_path(seq![c]);
    if c == '/' || c == ':' {
        assert(e =~= seq!['_', '_']);
    } else if ascii_alphanumeric(c) || c == '-' || c == '_' {
        assert(e =~= seq![c]);
    } else {
        assert(e =~= seq!['_']);
    }
}

// ── Caches ──────────────────────────────────────────────────────────────────

/// A tag in the name of a directory is as long as it was, holds only ASCII letters
/// and digits, hyphens and underscores, and keeps those that it had.
pub proof fn law_safe_tag(tag: Seq<char>)
    ensures
        safe_tag(tag).len() == tag.len(),
        forall|i: int|
            0 <= i < tag.len() ==> {
                let c = #[trigger] safe_tag(tag)[i];
                &&& ascii_alphanumeric(c) || c == '-' || c == '_'
                &&& ascii_alphanumeric(tag[i]) || tag[i] == '-' || tag[i] == '_' ==> c == tag[i]
                &&& !(ascii_alphanumeric(tag[i]) || tag[i] == '-') ==> c == '_'
            },
        safe_tag(safe_tag(tag)) == safe_tag(tag),
{
    assert(safe_tag(safe_tag(tag)) =~= safe_tag(tag));
}

/// A name below a directory ends with the name, and what stands before it is the
/// directory and a slash between the two.
pub proof fn law_joined_path(base: Seq<char>, name: Seq<char>)
    requires
        name.len() > 0,
        name[0] != '/',
    ensures
        has_suffix(path_in(base, name), name),
        base.len() > 0 ==> has_prefix(path_in(base, name), base) && path_in(base, name)[path_in(
            base,
            name,
        ).len() - name.len() - 1] == '/',
        path_in(base, name).len() <= base.len() + 1 + name.len(),
{
    reveal_strlit("/");
    let p = path_in(base, name);
    assert(has_prefix(name, "/"@) ==> name.take(1)[0] == '/');
    assert(p.skip(p.len() - name.len()) =~= name);
    if base.len() > 0 {
        assert(p.take(base.len() as int) =~= base);
        if has_suffix(base, "/"@) {
            assert(base.skip(base.len() - 1)[0] == '/');
        }
    }
}

/// The caches of two tags of one workspace are in one file only where the tags look
/// alike in a file name, and a cache with a tag is never the one without.
pub proof fn law_caches_are_kept_apart(
    dir: Seq<char>,
    workspace: Seq<char>,
    a: Seq<char>,
    b: Seq<char>,
)
    requires
        workspace.len() > 0,
        workspace[0] != '/',
    ensures
        tagged_db(dir, workspace, Seq::empty()) == workspace_db(dir, workspace),
        a.len() > 0 && b.len() > 0 && tagged_db(dir, workspace, a) == tagged_db(dir, workspace, b)
            ==> safe_tag(a) == safe_tag(b),
        a.len() > 0 ==> tagged_db(dir, workspace, a) != workspace_db(dir, workspace),
        has_suffix(tagged_db(dir, workspace, a), "brain.db"@),
{
    reveal_strlit("/");
    reveal_strlit("__");
    reveal_strlit("brain.db");
    let x = workspace + "__"@ + safe_tag(a);
    let y = workspace + "__"@ + safe_tag(b);
    lemma_db_in(dir, x);
    lemma_db_in(dir, y);
    lemma_db_in(dir, workspace);
    if a.len() > 0 && b.len() > 0 && tagged_db(dir, workspace, a) == tagged_db(dir, workspace, b) {
        lemma_same_dir(dir, x, y);
        let k = workspace.len() as int + 2;
        assert(safe_tag(a) =~= x.skip(k));
        assert(safe_tag(b) =~= y.skip(k));
    }
    if a.len() > 0 && tagged_db(dir, workspace, a) == workspace_db(dir, workspace) {
        lemma_same_dir(dir, x, workspace);
        assert(x.len() > workspace.len());
    }
}

/// How long the path of a cache is, and where its directory stands in it.
proof fn lemma_db_in(dir: Seq<char>, name: Seq<char>)
    requires
        name.len() > 0,
        name[0] != '/',
    ensures
        ({
            let p = path_in(path_in(dir, name), "brain.db"@);
            let d = path_in(dir, name);
            &&& has_suffix(p, "brain.db"@)
            &&& has_prefix(p, d)
            &&& p == if d.last() == '/' {
                d + "brain.db"@
            } else {
                d + "/"@ + "brain.db"@
            }
            &&& d == if dir.len() == 0 || dir.last() == '/' {
                dir + name
            } else {
                dir + "/"@ + name
            }
        }),
{
    reveal_strlit("/");
    reveal_strlit("brain.db");
    let d = path_in(dir, name);
    let p = path_in(d, "brain.db"@);
    assert(has_prefix(name, "/"@) ==> name.take(1)[0] == '/');
    assert(has_prefix("brain.db"@, "/"@) ==> "brain.db"@.take(1)[0] == '/');
    if dir.len() > 0 {
        assert(dir.skip(dir.len() - 1) =~= seq![dir.last()]);
        assert("/"@ =~= seq!['/']);
        assert(has_suffix(dir, "/"@) <==> dir.last() == '/') by {
            if has_suffix(dir, "/"@) {
                assert(dir.skip(dir.len() - 1)[0] == '/');
            }
        }
    }
    assert(d.len() > 0);
    assert(d.skip(d.len() - 1) =~= seq![d.last()]);
    assert("/"@ =~= seq!['/']);
    assert(has_suffix(d, "/"@) <==> d.last() == '/') by {
        if has_suffix(d, "/"@) {
            assert(d.skip(d.len() - 1)[0] == '/');
        }
    }
    assert(p.skip(p.len() - 8) =~= "brain.db"@);
    assert(p.take(d.len() as int) =~= d);
}

/// Caches in one file are in one directory, where no name ends with a slash.
proof fn lemma_same_dir(dir: Seq<char>, x: Seq<char>, y: Seq<char>)
    requires
        x.len() > 0,
        y.len() > 0,
        x[0] != '/',
        y[0] != '/',
        path_in(path_in(dir, x), "brain.db"@) == path_in(path_in(dir, y), "brain.db"@),
    ensures
        x == y || x == y.push('/') || y == x.push('/'),
{
    lemma_db_in(dir, x);
    lemma_db_in(dir, y);
    let before = if dir.len() == 0 || dir.last() == '/' {
        dir
    } else {
        dir + "/"@
    };
    lemma_one_slash(before + x, before + y, "brain.db"@);
    assert(x =~= (before + x).skip(before.len() as int));
    assert(y =~= (before + y).skip(before.len() as int));
    if before + x == (before + y).push('/') {
        assert(x =~= y.push('/'));
    } else if before + y == (before + x).push('/') {
        assert(y =~= x.push('/'));
    }
}

/// What is the same once a slash is put behind it where it has none differs by
/// that slash at most.
proof fn lemma_one_slash(a: Seq<char>, b: Seq<char>, tail: Seq<char>)
    requires
        a.len() > 0,
        b.len() > 0,
        (if a.last() == '/' {
            a + tail
        } else {
            a + "/"@ + tail
        }) == (if b.last() == '/' {
            b + tail
        } else {
            b + "/"@ + tail
        }),
    ensures
        a == b || a == b.push('/') || b == a.push('/'),
{
    reveal_strlit("/");
    assert("/"@ =~= seq!['/']);
    let c = if a.last() == '/' {
        a
    } else {
        a.push('/')
    };
    let d = if b.last() == '/' {
        b
    } else {
        b.push('/')
    };
    assert(a + "/"@ =~= a.push('/'));
    assert(b + "/"@ =~= b.push('/'));
    assert(c + tail == d + tail);
    assert(c =~= (c + tail).take(c.len() as int));
    assert(d =~= (d + tail).take(d.len() as int));
    assert(c == d);
    assert(a =~= if a.last() == '/' {
        c
    } else {
        c.drop_last()
    });
    assert(b =~= if b.last() == '/' {
        d
    } else {
        d.drop_last()
    });
    if a.last() == '/' && b.last() != '/' {
        assert(a =~= b.push('/'));
    } else if a.last() != '/' && b.last() == '/' {
        assert(b =~= a.push('/'));
    }
}

// ── Names ───────────────────────────────────────────────────────────────────

/// The name that a path ends with is what follows its last slash. Slashes at its
/// end make no difference.
pub proof fn law_path_ends_with_name(dir: Seq<char>, name: Seq<char>)
    requires
        !name.contains('/'),
        name.len() > 0,
        name != "."@,
        name != ".."@,
    ensures
        name_in(dir.push('/') + name) == Some(name),
        name_in((dir.push('/') + name).push('/')) == Some(name),
        name_in(name) == Some(name),
        tag_in(dir.push('/') + name) == name,
        tag_in(name) == name,
{
    lemma_one_piece(name, '/');
    lemma_pieces_around(dir, name, '/');
    let path = dir.push('/') + name;
    let parts = pieces(path, '/');
    assert(parts =~= pieces(dir, '/').push(name));
    assert(parts.drop_last() =~= pieces(dir, '/'));
    assert(path.push('/').drop_last() =~= path);
    let more = pieces(path.push('/'), '/');
    assert(more =~= parts.push(Seq::empty()));
    assert(more.drop_last() =~= parts);
    assert(steps(more) == steps(parts));
    assert(seq![name].drop_last() =~= Seq::<Seq<char>>::empty());
    assert(steps(Seq::<Seq<char>>::empty()) =~= Seq::<Seq<char>>::empty());
    assert(steps(seq![name]) =~= seq![name]);
}

/// What only leads up or nowhere has no name, and stands for itself as a tag.
pub proof fn law_path_without_name(path: Seq<char>)
    requires
        path.len() == 0 || path == "."@ || path == "/"@ || path == ".."@,
    ensures
        name_in(path) is None,
        tag_in(path) == path,
{
    reveal_strlit(".");
    reveal_strlit("..");
    reveal_strlit("/");
    if path == "/"@ {
        assert(path =~= Seq::<char>::empty().push('/') + Seq::<char>::empty());
        lemma_pieces_around(Seq::empty(), Seq::empty(), '/');
        lemma_one_piece(Seq::empty(), '/');
        let e = Seq::<char>::empty();
        assert(pieces(path, '/') =~= seq![e, e]);
        assert(seq![e, e].drop_last() =~= seq![e]);
        assert(seq![e].drop_last() =~= Seq::<Seq<char>>::empty());
        assert(steps(seq![e]) == steps(seq![e].drop_last()));
    } else {
        assert(!path.contains('/'));
        lemma_one_piece(path, '/');
        assert(seq![path].drop_last() =~= Seq::<Seq<char>>::empty());
        if path == ".."@ {
            assert(steps(Seq::<Seq<char>>::empty()) =~= Seq::<Seq<char>>::empty());
            assert(steps(seq![path]) =~= seq![path]);
        } else {
            assert(steps(seq![path]) == steps(seq![path].drop_last()));
        }
    }
}

// ── Unmounting ──────────────────────────────────────────────────────────────

/// `p` does not stand in `s`.
pub open spec fn lacks(s: Seq<char>, p: Seq<char>) -> bool {
    forall|i: int| !#[trigger] found_at(s, p, i)
}

proof fn lemma_lacks(s: Seq<char>, p: Seq<char>)
    requires
        lacks(s, p),
    ensures
        first_at(s, p) is None,
        before_first(s, p) == s,
{
    lemma_first_from(s, p, 0);
}

/// A text is cut where the pattern begins, if it does not begin earlier.
proof fn lemma_cut_before(s: Seq<char>, p: Seq<char>, k: int)
    requires
        found_at(s, p, k),
        forall|j: int| 0 <= j < k ==> !#[trigger] found_at(s, p, j),
    ensures
        before_first(s, p) == s.take(k),
        cut_first(s, p) == Some((s.take(k), s.skip(k + p.len()))),
{
    lemma_first_at(s, p, k);
}

/// A line of the mount table that names a loopback mount and its path gives the
/// path, in either of the forms in which systems write it.
pub proof fn law_mount_line_is_read(path: Seq<char>, rest: Seq<char>)
    requires
        path.len() > 0,
        trimmed(path) == path,
        forall|i: int| 0 <= i < path.len() ==> path[i] != ' ',
    ensures
        mounted_at("127.0.0.1:/ on "@ + path + " ("@ + rest) == Some(path),
        rest.len() > 0 && rest[0] != 'o' ==> mounted_at(
            "127.0.0.1:/ on "@ + path + " type "@ + rest,
        ) == Some(path),
{
    reveal_strlit("127.0.0.1:/ on ");
    reveal_strlit(" type ");
    reveal_strlit(" (");
    lemma_line_is_cut(path + " ("@ + rest);
    lemma_line_is_cut(path + " type "@ + rest);
    assert("127.0.0.1:/ on "@ + path + " ("@ + rest =~= "127.0.0.1:/ on "@ + (path + " ("@ + rest));
    assert("127.0.0.1:/ on "@ + path + " type "@ + rest =~= "127.0.0.1:/ on "@ + (path + " type "@
        + rest));
    lemma_path_comes_out(path, " ("@, rest);
    if rest.len() > 0 && rest[0] != 'o' {
        lemma_path_comes_out(path, " type "@, rest);
    }
}

/// What stands behind the server in a line of the mount table.
proof fn lemma_line_is_cut(tail: Seq<char>)
    ensures
        first_at("127.0.0.1:/ on "@ + tail, "127.0.0.1:/"@) is Some,
        cut_first("127.0.0.1:/ on "@ + tail, " on "@) matches Some((_, r)) && r == tail,
{
    reveal_strlit("127.0.0.1:/ on ");
    reveal_strlit("127.0.0.1:/");
    reveal_strlit(" on ");
    let head = "127.0.0.1:/ on "@;
    let line = head + tail;
    let on = " on "@;
    assert(line.subrange(0, 11) =~= "127.0.0.1:/"@);
    assert(found_at(line, "127.0.0.1:/"@, 0));
    lemma_first_at(line, "127.0.0.1:/"@, 0);
    assert(line.subrange(11, 15) =~= on);
    assert(found_at(line, on, 11));
    assert forall|j: int| 0 <= j < 11 implies !#[trigger] found_at(line, on, j) by {
        if found_at(line, on, j) {
            assert(line.subrange(j, j + 4)[0] == ' ');
            assert(line[j] == head[j]);
            assert(head[j] != ' ');
        }
    }
    lemma_cut_before(line, on, 11);
    assert(line.skip(15) =~= tail);
}

/// What is cut off behind the first `m` characters leaves those.
proof fn lemma_front_stays(s: Seq<char>, p: Seq<char>, m: int)
    requires
        0 <= m <= s.len(),
        forall|j: int| 0 <= j < m ==> !#[trigger] found_at(s, p, j),
    ensures
        m <= before_first(s, p).len() <= s.len(),
        before_first(s, p).take(m) == s.take(m),
{
    lemma_first_from(s, p, 0);
    assert(before_first(s, p).take(m) =~= s.take(m));
}

/// What is cut off behind a path without spaces leaves the path.
proof fn lemma_path_comes_out(path: Seq<char>, sep: Seq<char>, rest: Seq<char>)
    requires
        forall|i: int| 0 <= i < path.len() ==> path[i] != ' ',
        sep == " ("@ || sep == " type "@,
        sep == " type "@ ==> rest.len() > 0 && rest[0] != 'o',
    ensures
        ({
            let tail = path + sep + rest;
            before_first(before_first(before_first(tail, " on "@), " type "@), " ("@) == path
        }),
{
    reveal_strlit(" on ");
    reveal_strlit(" type ");
    reveal_strlit(" (");
    let on = " on "@;
    let ty = " type "@;
    let open = " ("@;
    let tail = path + sep + rest;
    let n = path.len() as int;
    let m = n + sep.len();
    assert forall|j: int| 0 <= j < m implies !#[trigger] found_at(tail, on, j) by {
        if found_at(tail, on, j) {
            let w = tail.subrange(j, j + 4);
            assert(w[0] == ' ' && w[1] == 'o');
            assert(tail[j] == ' ' && tail[j + 1] == 'o');
            if j < n {
                assert(tail[j] == path[j]);
            } else if j + 1 < m {
                assert(tail[j] == sep[j - n] && tail[j + 1] == sep[j + 1 - n]);
            } else {
                assert(tail[j] == sep[sep.len() - 1]);
                assert(tail[j + 1] == rest[0]);
            }
        }
    }
    lemma_front_stays(tail, on, m);
    let a = before_first(tail, on);
    assert forall|i: int| 0 <= i < m implies a[i] == tail[i] by {
        assert(a.take(m)[i] == tail.take(m)[i]);
    }
    if sep == open {
        assert forall|j: int| 0 <= j < m implies !#[trigger] found_at(a, ty, j) by {
            if found_at(a, ty, j) {
                let w = a.subrange(j, j + 6);
                assert(w[0] == ' ' && w[1] == 't');
                assert(a[j] == ' ' && a[j + 1] == 't');
                if j < n {
                    assert(tail[j] == path[j]);
                } else {
                    assert(tail[j] == sep[j - n]);
                    if j == n {
                        assert(tail[j + 1] == sep[1]);
                    }
                }
            }
        }
        lemma_front_stays(a, ty, m);
        let b = before_first(a, ty);
        assert forall|i: int| 0 <= i < m implies b[i] == tail[i] by {
            assert(b.take(m)[i] == a.take(m)[i]);
        }
        assert(b.subrange(n, n + 2) =~= open);
        assert(found_at(b, open, n));
        assert forall|j: int| 0 <= j < n implies !#[trigger] found_at(b, open, j) by {
            if found_at(b, open, j) {
                assert(b.subrange(j, j + 2)[0] == ' ');
                assert(tail[j] == path[j]);
            }
        }
        lemma_cut_before(b, open, n);
        assert(b.take(n) =~= path);
    } else {
        assert(a.subrange(n, n + 6) =~= ty);
        assert(found_at(a, ty, n));
        assert forall|j: int| 0 <= j < n implies !#[trigger] found_at(a, ty, j) by {
            if found_at(a, ty, j) {
                assert(a.subrange(j, j + 6)[0] == ' ');
                assert(tail[j] == path[j]);
            }
        }
        lemma_cut_before(a, ty, n);
        let b = before_first(a, ty);
        assert(b =~= path);
        assert forall|j: int| !#[trigger] found_at(path, open, j) by {
            if found_at(path, open, j) {
                assert(path.subrange(j, j + 2)[0] == ' ');
                assert(path[j] == ' ');
            }
        }
        lemma_lacks(path, open);
    }
}

/// A line of another filesystem is of no mount.
pub proof fn law_other_lines_are_passed_over(line: Seq<char>, tag: Seq<char>)
    requires
        lacks(line, "127.0.0.1:/"@) || lacks(line, " on "@),
    ensures
        !is_mount_of(line, tag),
{
    if lacks(line, "127.0.0.1:/"@) {
        lemma_lacks(line, "127.0.0.1:/"@);
    } else {
        lemma_lacks(line, " on "@);
    }
}

/// The mount that is found is that of the first line of a mount with the tag.
pub proof fn law_first_mount_is_found(lines: Seq<Seq<char>>, tag: Seq<char>, k: int)
    ensures
        0 <= k < lines.len() && is_mount_of(lines[k], tag) && (forall|j: int|
            0 <= j < k ==> !is_mount_of(#[trigger] lines[j], tag)) ==> first_mount(lines, tag, 0)
            == mounted_at(lines[k]),
        (forall|j: int| 0 <= j < lines.len() ==> !is_mount_of(#[trigger] lines[j], tag))
            ==> first_mount(lines, tag, 0) is None,
{
    lemma_first_mount(lines, tag, 0, k);
}

proof fn lemma_first_mount(lines: Seq<Seq<char>>, tag: Seq<char>, from: int, k: int)
    requires
        0 <= from,
    ensures
        from <= k < lines.len() && is_mount_of(lines[k], tag) && (forall|j: int|
            from <= j < k ==> !is_mount_of(#[trigger] lines[j], tag)) ==> first_mount(
            lines,
            tag,
            from,
        ) == mounted_at(lines[k]),
        (forall|j: int| from <= j < lines.len() ==> !is_mount_of(#[trigger] lines[j], tag))
            ==> first_mount(lines, tag, from) is None,
    decreases lines.len() - from,
{
    if from < lines.len() && !is_mount_of(lines[from], tag) {
        lemma_first_mount(lines, tag, from + 1, k);
    }
}

// ── Searching ───────────────────────────────────────────────────────────────

/// A search without a scope finds everywhere. One with a scope finds what begins
/// with it, whether the scope was given with slashes in front or without.
pub proof fn law_scope(path: Seq<char>, scope: Seq<char>, rest: Seq<char>)
    ensures
        under_scope(path, None),
        under_scope(path, Some(seq!['/'] + scope)) == under_scope(path, Some(scope)),
        scope.len() > 0 && scope[0] != '/' ==> under_scope(seq!['/'] + scope + rest, Some(scope)),
        under_scope(path, Some(scope)) ==> path.len() > 0 && path[0] == '/',
        scope.len() > 0 && scope[0] != '/' && under_scope(path, Some(scope)) ==> path.len()
            > scope.len() && path.subrange(1, scope.len() as int + 1) == scope,
{
    reveal_strlit("/");
    let slash = seq!['/'];
    assert("/"@ =~= slash);
    assert((slash + scope).skip(1) =~= scope);
    if scope.len() > 0 && scope[0] != '/' {
        assert(drop_front(scope, is_char('/')) == scope);
        assert((slash + scope + rest).take(slash.len() + scope.len() as int) =~= slash + scope);
        if under_scope(path, Some(scope)) {
            let p = scope_prefix(scope);
            assert(p =~= slash + scope);
            assert(path.take(p.len() as int) =~= p);
            assert(path.subrange(1, scope.len() as int + 1) =~= p.skip(1));
            assert(p.skip(1) =~= scope);
        }
    }
    if under_scope(path, Some(scope)) {
        let p = scope_prefix(scope);
        assert(path.take(p.len() as int)[0] == p[0]);
    }
}

// ── Signing in ──────────────────────────────────────────────────────────────

/// A token is kept unless the API says that it is none.
pub proof fn law_only_refused_tokens_are_dropped(checked: Result<WhoamiInfo, ApiError>)
    ensures
        login_says(checked) is Err <==> (checked matches Err(e) && e@ is Auth),
{
}

/// A code that was not accepted gives no token, and a token that is saved is the
/// one that the server gave.
pub proof fn law_verified_token_is_the_servers(resp: VerifyResp, r: Verified)
    requires
        verify_says(resp, r),
    ensures
        r is Refused <==> !resp.verified,
        r is NewToken <==> resp.verified && resp.api_key is Some,
        r matches Verified::NewToken(c) ==> Some(c.token@) == opt_view(resp.api_key),
{
}

/// What is typed in is the token without the whitespace round it, and whitespace
/// alone is none.
pub proof fn law_typed_token(a: Seq<char>, token: Seq<char>, b: Seq<char>)
    requires
        forall|i: int| 0 <= i < a.len() ==> is_space(#[trigger] a[i]),
        forall|i: int| 0 <= i < b.len() ==> is_space(#[trigger] b[i]),
        token.len() > 0 ==> !is_space(token[0]) && !is_space(token.last()),
    ensures
        token.len() > 0 ==> token_in(a + token + b) == Some(token),
        token.len() == 0 ==> token_in(a + token + b) is None,
{
    law_whitespace_is_trimmed(a, token, b);
}

// ── Mounting ────────────────────────────────────────────────────────────────

/// The tag is the one that was given, and else the last name of the path that is
/// mounted at.
pub proof fn law_tag_of_a_mount(given: Seq<char>, dir: Seq<char>, name: Seq<char>)
    requires
        !name.contains('/'),
        name.len() > 0,
        name != "."@,
        name != ".."@,
    ensures
        mount_tag(Some(given), dir) == given,
        mount_tag(None, dir.push('/') + name) == name,
        mount_tag(None, "/"@) == "brain"@,
{
    law_path_ends_with_name(dir, name);
    law_path_without_name("/"@);
}

/// A tag is refused exactly where a daemon that has it is alive.
pub proof fn law_tag_is_mounted_once(pid: u32, alive: bool)
    ensures
        is_taken(Some(pid), true),
        !is_taken(Some(pid), false),
        !is_taken(None, alive),
{
}

/// Two lists with a comma between them name what both name. A name without a comma
/// is named without the whitespace round it, and blanks name nothing.
pub proof fn law_lists_of_paths(a: Seq<char>, b: Seq<char>, name: Seq<char>)
    requires
        !name.contains(','),
    ensures
        trimmed_parts(pieces(a.push(',') + b, ',')) == trimmed_parts(pieces(a, ','))
            + trimmed_parts(pieces(b, ',')),
        trimmed(name).len() > 0 ==> trimmed_parts(pieces(name, ',')) == seq![trimmed(name)],
        trimmed(name).len() == 0 ==> trimmed_parts(pieces(name, ',')).len() == 0,
{
    lemma_pieces_around(a, b, ',');
    lemma_trimmed_parts(pieces(a, ','), pieces(b, ','));
    lemma_one_piece(name, ',');
    let none = Seq::<Seq<char>>::empty();
    assert(seq![name].drop_last() =~= none);
    assert(trimmed_parts(none) =~= none);
    assert(trimmed_parts(seq![name]) =~= if trimmed(name).len() > 0 {
        seq![trimmed(name)]
    } else {
        none
    });
}

proof fn lemma_trimmed_parts(a: Seq<Seq<char>>, b: Seq<Seq<char>>)
    ensures
        trimmed_parts(a + b) == trimmed_parts(a) + trimmed_parts(b),
    decreases b.len(),
{
    if b.len() == 0 {
        assert(a + b =~= a);
        assert(trimmed_parts(a) + trimmed_parts(b) =~= trimmed_parts(a));
    } else {
        lemma_trimmed_parts(a, b.drop_last());
        assert((a + b).drop_last() =~= a + b.drop_last());
        assert((a + b).last() == b.last());
        assert(trimmed_parts(a + b) =~= trimmed_parts(a) + trimmed_parts(b));
    }
}

/// A Markdown file becomes a private note of the same name. Hidden files and other
/// files are left alone.
pub proof fn law_markdown_is_imported(stem: Seq<char>, name: Seq<char>)
    ensures
        stem.len() > 0 && stem[0] != '.' ==> import_target(stem + ".md"@) == Some(
            "/private/notes/"@ + (stem + ".md"@),
        ),
        import_target(seq!['.'] + name) is None,
        !has_suffix(name, ".md"@) ==> import_target(name) is None,
{
    reveal_strlit(".");
    let full = stem + ".md"@;
    assert(full.skip(full.len() - ".md"@.len()) =~= ".md"@);
    if stem.len() > 0 && stem[0] != '.' && has_prefix(full, "."@) {
        assert(full.take(1)[0] == stem[0]);
        assert("."@[0] == '.');
    }
    let hidden = seq!['.'] + name;
    assert(hidden.take(1) =~= "."@);
}

/// The option is one that a value follows.
pub open spec fn takes_value(name: Seq<char>) -> bool {
    name == "--mountpoint"@ || name == "--tag"@ || name == "--delta-interval-secs"@ || name
        == "--deletion-scan-interval-secs"@ || name == "--memory-paths"@
}

/// The value that the arguments from `i` on give the option `name`.
pub open spec fn value_of(args: Seq<Seq<char>>, name: Seq<char>, i: int) -> Option<Seq<char>>
    decreases args.len() - i + 1,
{
    if i < 0 || i >= args.len() {
        None
    } else if takes_value(args[i]) {
        if args[i] == name && i + 1 < args.len() {
            Some(args[i + 1])
        } else {
            value_of(args, name, i + 2)
        }
    } else {
        value_of(args, name, i + 1)
    }
}

/// The flag `name` is among the arguments from `i` on.
pub open spec fn has_flag(args: Seq<Seq<char>>, name: Seq<char>, i: int) -> bool
    decreases args.len() - i + 1,
{
    if i < 0 || i >= args.len() {
        false
    } else if takes_value(args[i]) {
        has_flag(args, name, i + 2)
    } else {
        args[i] == name || has_flag(args, name, i + 1)
    }
}

proof fn lemma_options_differ()
    ensures
        "--mountpoint"@ != "--tag"@,
        "--mountpoint"@ != "--delta-interval-secs"@,
        "--mountpoint"@ != "--deletion-scan-interval-secs"@,
        "--mountpoint"@ != "--memory-paths"@,
        "--tag"@ != "--delta-interval-secs"@,
        "--tag"@ != "--deletion-scan-interval-secs"@,
        "--tag"@ != "--memory-paths"@,
        "--delta-interval-secs"@ != "--deletion-scan-interval-secs"@,
        "--delta-interval-secs"@ != "--memory-paths"@,
        "--deletion-scan-interval-secs"@ != "--memory-paths"@,
        !takes_value("--no-import"@),
        !takes_value("--no-sync"@),
        !takes_value("--no-agent-hint"@),
        "--no-import"@ != "--no-sync"@,
        "--no-import"@ != "--no-agent-hint"@,
        "--no-sync"@ != "--no-agent-hint"@,
{
    reveal_strlit("--mountpoint");
    reveal_strlit("--tag");
    reveal_strlit("--delta-interval-secs");
    reveal_strlit("--deletion-scan-interval-secs");
    reveal_strlit("--memory-paths");
    reveal_strlit("--no-import");
    reveal_strlit("--no-sync");
    reveal_strlit("--no-agent-hint");
    assert("--mountpoint"@.len() == 12 && "--tag"@.len() == 5 && "--delta-interval-secs"@.len()
        == 21 && "--deletion-scan-interval-secs"@.len() == 29 && "--memory-paths"@.len() == 14
        && "--no-import"@.len() == 11 && "--no-sync"@.len() == 9 && "--no-agent-hint"@.len() == 15);
}

/// The daemon is started with what the mount was asked for: whoever reads its
/// arguments, after the name of the command, finds each option with its value and
/// each flag where it was set.
pub proof fn law_daemon_is_told_what_was_asked_for(a: DaemonArgs)
    ensures
        ({
            let args = daemon_command(a);
            &&& value_of(args, "--mountpoint"@, 1) == Some(a.mount_path@)
            &&& value_of(args, "--tag"@, 1) == Some(a.tag@)
            &&& value_of(args, "--delta-interval-secs"@, 1) == Some(
                decimal(a.sync_interval as nat),
            )
            &&& value_of(args, "--deletion-scan-interval-secs"@, 1) == Some(
                decimal(a.deletion_scan_interval as nat),
            )
            &&& value_of(args, "--memory-paths"@, 1) == (if a.memory_paths@.len() == 0 {
                None
            } else {
                Some(a.memory_paths@)
            })
            &&& has_flag(args, "--no-import"@, 1) == a.no_import
            &&& has_flag(args, "--no-sync"@, 1) == a.no_sync
            &&& has_flag(args, "--no-agent-hint"@, 1) == a.no_agent_hint
        }),
{
    let args = daemon_command(a);
    lemma_options_differ();
    reveal_with_fuel(value_of, 10);
    reveal_with_fuel(has_flag, 10);
    let m: int = if a.memory_paths@.len() == 0 {
        9
    } else {
        11
    };
    let i: int = if a.no_import {
        m + 1
    } else {
        m
    };
    let s: int = if a.no_sync {
        i + 1
    } else {
        i
    };
    assert(args[1] == "--mountpoint"@ && args[2] == a.mount_path@);
    assert(args[3] == "--tag"@ && args[4] == a.tag@);
    assert(args[5] == "--delta-interval-secs"@ && args[6] == decimal(a.sync_interval as nat));
    assert(args[7] == "--deletion-scan-interval-secs"@);
    assert(args[8] == decimal(a.deletion_scan_interval as nat));
    if a.memory_paths@.len() > 0 {
        assert(args[9] == "--memory-paths"@ && args[10] == a.memory_paths@);
    }
    if a.no_import {
        assert(args[m] == "--no-import"@);
    }
    if a.no_sync {
        assert(args[i] == "--no-sync"@);
    }
    if a.no_agent_hint {
        assert(args[s] == "--no-agent-hint"@);
    }
}

/// A parent waits until its daemon is ready or has failed, or until the time is
/// over.
pub proof fn law_parent_waits(seen: Option<Phase>, over: bool)
    ensures
        seen == Some(Phase::Ready) || seen == Some(Phase::Failed) ==> wait_step(seen, over)
            is Finished,
        seen != Some(Phase::Ready) && seen != Some(Phase::Failed) ==> (wait_step(seen, over)
            is TimedOut <==> over),
        wait_step(seen, over) matches WaitStep::Sleep(ms) ==> 0 < ms <= 1000 && !over,
{
}

/// A startup that failed is an error that ends with its cause. Anything else is
/// said with the last message.
pub proof fn law_startup_is_reported(p: ProgressView)
    ensures
        p.phase == Phase::Failed <==> startup_says(Some(p)) is Err,
        p.phase == Phase::Failed && p.error is Some ==> has_suffix(
            startup_says(Some(p))->Err_0,
            p.error->0,
        ),
        p.phase != Phase::Failed ==> has_suffix(startup_says(Some(p))->Ok_0, p.message),
        startup_says(None) is Ok,
{
    if p.phase == Phase::Failed {
        if p.error is Some {
            let s = startup_says(Some(p))->Err_0;
            assert(s.skip(s.len() - p.error->0.len()) =~= p.error->0);
        }
    } else {
        let s = startup_says(Some(p))->Ok_0;
        assert(s.skip(s.len() - p.message.len()) =~= p.message);
    }
}

/// An argument that is absolute or is there is the path, and another one a tag.
pub proof fn law_argument_is_path_or_tag(absolute: bool, there: bool)
    ensures
        names_path(true, there),
        names_path(absolute, true),
        !names_path(false, false),
{
}

// ── Installing ──────────────────────────────────────────────────────────────

/// The binary goes below the home directory, that of the environment before that
/// of the platform.
pub proof fn law_binary_goes_below_home(home: Seq<char>, platform: Option<Seq<char>>)
    requires
        home.len() > 0,
        home.last() != '/',
    ensures
        install_dir(Some(home), platform) == home + "/.local/bin"@,
        install_dir(None, Some(home)) == home + "/.local/bin"@,
        install_dir(None, None) == "/usr/local/bin"@,
{
    reveal_strlit("/");
    reveal_strlit(".local");
    reveal_strlit("bin");
    reveal_strlit("/.local/bin");
    let one = home + "/"@ + ".local"@;
    if has_suffix(home, "/"@) {
        assert(home.skip(home.len() - 1)[0] == home.last());
    }
    if has_prefix(".local"@, "/"@) {
        assert(".local"@.take(1)[0] == '.');
    }
    if has_prefix("bin"@, "/"@) {
        assert("bin"@.take(1)[0] == 'b');
    }
    assert(path_in(home, ".local"@) == one);
    assert(one.last() == 'l');
    if has_suffix(one, "/"@) {
        assert(one.skip(one.len() - 1)[0] == one.last());
    }
    assert(path_in(one, "bin"@) == one + "/"@ + "bin"@);
    assert(one + "/"@ + "bin"@ =~= home + "/.local/bin"@);
}

/// Every shell that is detected has a file that the wrapper goes to, zsh wherever
/// it is named.
pub proof fn law_detected_shell_is_supported(shell: Option<Seq<char>>, a: Seq<char>, b: Seq<char>)
    ensures
        rc_of(shell_in(shell)) is Some,
        shell_in(Some(a + "zsh"@ + b)) == "zsh"@,
        rc_of("zsh"@) == Some(".zshrc"@),
        rc_of("bash"@) == Some(".bashrc"@),
        shell_in(None) == "bash"@,
{
    reveal_strlit("zsh");
    reveal_strlit("bash");
    assert("zsh"@.len() == 3 && "bash"@.len() == 4);
    let s = a + "zsh"@ + b;
    assert(s.subrange(a.len() as int, a.len() as int + 3) =~= "zsh"@);
    assert(found_at(s, "zsh"@, a.len() as int));
    lemma_first_from(s, "zsh"@, 0);
}

/// Stored credentials of the project come before those for all, and an explicit
/// token and that of the environment before both.
pub proof fn law_project_credentials_win(
    project: CredentialsView,
    global: Option<CredentialsView>,
    token: Seq<char>,
    url: Option<Seq<char>>,
)
    ensures
        resolved(None, None, url, nearest(Some(project), global)) == Some(project),
        resolved(None, None, url, nearest(None, global)) == global,
        token.len() > 0 ==> (resolved(Some(token), None, url, nearest(Some(project), global))
            matches Some(c) && c.token == token),
        token.len() > 0 ==> (resolved(None, Some(token), url, nearest(Some(project), global))
            matches Some(c) && c.token == token && c.api_url == url),
{
}

/// A limit that was given counts, and the usual one where none was.
pub proof fn law_given_limit_counts(limit: u32, usual: u32)
    ensures
        limit_or(Some(limit), usual) == Some(limit),
        limit_or(None, usual) == Some(usual),
{
}

} // verus!
