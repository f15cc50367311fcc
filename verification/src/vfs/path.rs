//! Path normalization helpers for brain document paths.
//!
//! The Unison brain enforces a filesystem contract:
//! - writable roots: `/private/...` and `/workspace/...`, with the teams under
//!   `/workspace/teams/<slug>/...`
//! - read-only roots: `/system/...` and `/sources/...`
//! - documents end in `.md`
//!
//! Unqualified paths are rewritten to `/private/notes/<slug>.md`.

use crate::text::{
    alphanumeric, ascii_lower, chars_of, copy_text, drop_front, drop_suffixes, has_prefix,
    has_suffix, is_char, join, joined, lemma_one_piece, lemma_pieces_around, lemma_pieces_nonempty,
    lemma_split_joined, letter_or_number, pieces, split_on, starts_with, texts, to_ascii_lower,
    trim_end_text, trim_start_char,
};
use vstd::prelude::*;

verus! {

/// The path is under a writable brain root.
pub open spec fn writable(path: Seq<char>) -> bool {
    has_prefix(path, "/private/"@) || has_prefix(path, "/workspace/"@)
}

/// The path is under a read-only brain root.
pub open spec fn readonly(path: Seq<char>) -> bool {
    has_prefix(path, "/system/"@) || has_prefix(path, "/sources/"@)
}

/// A character of a slug before its runs of dashes are joined.
pub open spec fn slug_char(c: char) -> char {
    if alphanumeric(c) || c == '-' || c == '_' {
        ascii_lower(c)
    } else {
        '-'
    }
}

/// The texts of `parts` that are not empty.
pub open spec fn nonempty(parts: Seq<Seq<char>>) -> Seq<Seq<char>>
    decreases parts.len(),
{
    if parts.len() == 0 {
        Seq::empty()
    } else if parts.last().len() == 0 {
        nonempty(parts.drop_last())
    } else {
        nonempty(parts.drop_last()).push(parts.last())
    }
}

/// The URL-safe slug of a display name: its words in lower case with one dash
/// between each two, where everything but letters, numbers, dashes and
/// underscores counts as a gap.
pub open spec fn slug(s: Seq<char>) -> Seq<char> {
    joined(nonempty(pieces(s.map_values(|c: char| slug_char(c)), '-')), "-"@)
}

/// The normal form of a brain path, if it can be written to.
pub open spec fn normalized(raw: Seq<char>) -> Option<Seq<char>> {
    if writable(raw) {
        Some(raw)
    } else if readonly(raw) {
        None
    } else {
        let basename = pieces(drop_front(raw, is_char('/')), '/').last();
        Some("/private/notes/"@ + slug(drop_suffixes(basename, ".md"@)) + ".md"@)
    }
}

/// Normalize a brain document path.
///
/// - If the path is already under a valid writable root, return it unchanged.
/// - If it is under a read-only root, there is no normal form.
/// - Anything else is rewritten to `/private/notes/<slug>.md` by its last
///   component.
pub fn normalize_brain_path(raw: &str) -> (r: Option<String>)
    ensures
        crate::text::opt_view(r) == normalized(raw@),
{
    if is_writable_path(raw) {
        return Some(copy_text(raw));
    }
    if is_readonly_path(raw) {
        return None;
    }
    let trimmed = trim_start_char(raw, '/');
    let parts = split_on(trimmed.as_str(), '/');
    proof {
        lemma_pieces_nonempty(trimmed@, '/');
        assert(texts(parts@).last() == parts@[parts@.len() - 1]@);
    }
    let stem = trim_end_text(parts[parts.len() - 1].as_str(), ".md");
    let name = slugify(stem.as_str());
    Some(copy_text("/private/notes/").concat(name.as_str()).concat(".md"))
}

/// Convert a display name to a URL-safe slug.
pub fn slugify(s: &str) -> (r: String)
    ensures
        r@ == slug(s@),
{
    let v = chars_of(s);
    let ghost wanted = s@.map_values(|c: char| slug_char(c));
    let mut mapped = String::new();
    let mut i: usize = 0;
    while i < v.len()
        invariant
            v@ == s@,
            wanted == s@.map_values(|c: char| slug_char(c)),
            i <= v@.len(),
            mapped@ == wanted.take(i as int),
        decreases v@.len() - i,
    {
        let c = v[i];
        let m = if letter_or_number(c) || c == '-' || c == '_' {
            to_ascii_lower(c)
        } else {
            '-'
        };
        mapped.push(m);
        assert(mapped@ =~= wanted.take(i + 1));
        i += 1;
    }
    assert(wanted.take(wanted.len() as int) =~= wanted);
    let parts = split_on(mapped.as_str(), '-');
    let words = drop_empty(parts);
    join(&words, "-")
}

/// The texts of `parts` that are not empty.
fn drop_empty(parts: Vec<String>) -> (r: Vec<String>)
    ensures
        texts(r@) == nonempty(texts(parts@)),
{
    let ghost all = texts(parts@);
    let mut out: Vec<String> = Vec::new();
    let mut i: usize = 0;
    assert(texts(out@) =~= nonempty(all.take(0)));
    while i < parts.len()
        invariant
            all == texts(parts@),
            i <= parts@.len(),
            texts(out@) == nonempty(all.take(i as int)),
        decreases parts@.len() - i,
    {
        let ghost before = texts(out@);
        assert(all.take(i + 1).drop_last() =~= all.take(i as int));
        assert(all.take(i + 1).last() == parts@[i as int]@);
        if !parts[i].as_str().is_empty() {
            let part = copy_text(parts[i].as_str());
            out.push(part);
            assert(texts(out@) =~= before.push(part@));
        }
        i += 1;
    }
    assert(all.take(all.len() as int) =~= all);
    out
}

/// Return true if the path is under a writable brain root.
pub fn is_writable_path(path: &str) -> (r: bool)
    ensures
        r == writable(path@),
{
    starts_with(path, "/private/") || starts_with(path, "/workspace/")
}

/// Return true if the path is under a read-only brain root.
pub fn is_readonly_path(path: &str) -> (r: bool)
    ensures
        r == readonly(path@),
{
    starts_with(path, "/system/") || starts_with(path, "/sources/")
}

// ── Laws ────────────────────────────────────────────────────────────────────

/// A normal form can be written to, and is its own normal form.
pub proof fn law_normal_form_is_writable(raw: Seq<char>)
    ensures
        normalized(raw) matches Some(p) ==> writable(p) && normalized(p) == Some(p),
{
    if !writable(raw) && !readonly(raw) {
        reveal_strlit("/private/notes/");
        reveal_strlit("/private/");
        let p = normalized(raw)->0;
        assert(p.take("/private/"@.len() as int) =~= "/private/"@);
    }
}

/// A path is refused exactly when it is under a read-only root.
pub proof fn law_only_readonly_is_refused(raw: Seq<char>)
    ensures
        normalized(raw) is None <==> readonly(raw),
{
    if readonly(raw) {
        reveal_strlit("/system/");
        reveal_strlit("/sources/");
        reveal_strlit("/private/");
        reveal_strlit("/workspace/");
        if has_prefix(raw, "/system/"@) {
            assert(raw[1] == raw.take("/system/"@.len() as int)[1]);
        } else {
            assert(raw[1] == raw.take("/sources/"@.len() as int)[1]);
        }
        if has_prefix(raw, "/private/"@) {
            assert(raw[1] == raw.take("/private/"@.len() as int)[1]);
        } else if has_prefix(raw, "/workspace/"@) {
            assert(raw[1] == raw.take("/workspace/"@.len() as int)[1]);
        }
    }
}

/// A character of a word of a slug.
pub open spec fn word_char(c: char) -> bool {
    (alphanumeric(c) || c == '_') && !('A' <= c <= 'Z')
}

/// A text in the form of a slug: words of letters, numbers and underscores,
/// without ASCII capitals, and single dashes that stand inside.
pub open spec fn slug_shaped(t: Seq<char>) -> bool {
    &&& forall|i: int| 0 <= i < t.len() ==> word_char(#[trigger] t[i]) || t[i] == '-'
    &&& t.len() > 0 ==> t[0] != '-' && t.last() != '-'
    &&& forall|i: int, j: int|
        0 <= i < t.len() && j == i + 1 && j < t.len() && #[trigger] t[i] == '-' ==> #[trigger] t[j]
            != '-'
}

/// A word of a slug: it is not empty and holds only word characters.
pub open spec fn slug_word(w: Seq<char>) -> bool {
    w.len() > 0 && forall|i: int| 0 <= i < w.len() ==> word_char(#[trigger] w[i])
}

/// The characters of the pieces of a text are characters of the text other than
/// the separator.
proof fn lemma_piece_chars(s: Seq<char>, c: char)
    ensures
        forall|i: int, k: int|
            0 <= i < pieces(s, c).len() && 0 <= k < pieces(s, c)[i].len() ==> s.contains(
                #[trigger] pieces(s, c)[i][k],
            ) && pieces(s, c)[i][k] != c,
    decreases s.len(),
{
    if s.len() > 0 {
        let t = s.drop_last();
        lemma_piece_chars(t, c);
        lemma_pieces_nonempty(t, c);
        let before = pieces(t, c);
        assert forall|i: int, k: int|
            0 <= i < pieces(s, c).len() && 0 <= k < pieces(s, c)[i].len() implies s.contains(
            #[trigger] pieces(s, c)[i][k],
        ) && pieces(s, c)[i][k] != c by {
            let x = pieces(s, c)[i][k];
            if i < before.len() && k < before[i].len() {
                assert(x == before[i][k]);
                let at = choose|at: int| 0 <= at < t.len() && t[at] == x;
                assert(s[at] == x);
            } else {
                assert(x == s[s.len() - 1]);
            }
        }
    }
}

/// What [`nonempty`] keeps is not empty and was there.
proof fn lemma_nonempty(parts: Seq<Seq<char>>)
    ensures
        forall|i: int|
            0 <= i < nonempty(parts).len() ==> (#[trigger] nonempty(parts)[i]).len() > 0
                && parts.contains(nonempty(parts)[i]),
    decreases parts.len(),
{
    if parts.len() > 0 {
        let front = parts.drop_last();
        lemma_nonempty(front);
        assert forall|i: int| 0 <= i < nonempty(parts).len() implies (#[trigger] nonempty(
            parts,
        )[i]).len() > 0 && parts.contains(nonempty(parts)[i]) by {
            if i < nonempty(front).len() {
                assert(nonempty(parts)[i] == nonempty(front)[i]);
                let at = choose|at: int| 0 <= at < front.len() && front[at] == nonempty(front)[i];
                assert(parts[at] == nonempty(parts)[i]);
            } else {
                assert(parts[parts.len() - 1] == nonempty(parts)[i]);
            }
        }
    }
}

/// Where nothing is empty, [`nonempty`] keeps everything.
proof fn lemma_nonempty_keeps(parts: Seq<Seq<char>>)
    requires
        forall|i: int| 0 <= i < parts.len() ==> (#[trigger] parts[i]).len() > 0,
    ensures
        nonempty(parts) == parts,
    decreases parts.len(),
{
    if parts.len() > 0 {
        lemma_nonempty_keeps(parts.drop_last());
        assert(parts.last() == parts[parts.len() - 1]);
        assert(parts =~= parts.drop_last().push(parts.last()));
    }
}

/// Words with single dashes between them have the form of a slug.
proof fn lemma_joined_words(words: Seq<Seq<char>>)
    requires
        forall|i: int| 0 <= i < words.len() ==> slug_word(#[trigger] words[i]),
    ensures
        slug_shaped(joined(words, seq!['-'])),
        words.len() > 0 ==> joined(words, seq!['-']).len() > 0,
    decreases words.len(),
{
    if words.len() > 0 {
        let w = words[words.len() - 1];
        assert(slug_word(w));
        if words.len() > 1 {
            let front = words.drop_last();
            lemma_joined_words(front);
            let j = joined(front, seq!['-']);
            let t = joined(words, seq!['-']);
            assert(t == j + seq!['-'] + w);
            assert forall|i: int| 0 <= i < t.len() implies word_char(#[trigger] t[i]) || t[i]
                == '-' by {
                if i < j.len() {
                    assert(t[i] == j[i]);
                } else if i > j.len() {
                    assert(t[i] == w[i - j.len() - 1]);
                }
            }
            assert(t[0] == j[0]);
            assert(t.last() == w[w.len() - 1]);
            assert forall|i: int, k: int|
                0 <= i < t.len() && k == i + 1 && k < t.len() && #[trigger] t[i]
                    == '-' implies #[trigger] t[k] != '-' by {
                if k < j.len() {
                    assert(t[i] == j[i] && t[k] == j[k]);
                } else if k == j.len() {
                    assert(t[i] == j.last());
                } else {
                    assert(t[k] == w[k - j.len() - 1]);
                }
            }
        }
    }
}

/// The words of a slug.
proof fn lemma_slug_words(s: Seq<char>)
    ensures
        ({
            let words = nonempty(pieces(s.map_values(|c: char| slug_char(c)), '-'));
            forall|i: int| 0 <= i < words.len() ==> slug_word(#[trigger] words[i])
        }),
{
    let m = s.map_values(|c: char| slug_char(c));
    let parts = pieces(m, '-');
    let words = nonempty(parts);
    lemma_piece_chars(m, '-');
    lemma_nonempty(parts);
    assert forall|i: int| 0 <= i < words.len() implies slug_word(#[trigger] words[i]) by {
        let at = choose|at: int| 0 <= at < parts.len() && parts[at] == words[i];
        assert forall|k: int| 0 <= k < words[i].len() implies word_char(#[trigger] words[i][k]) by {
            let x = parts[at][k];
            let from = choose|from: int| 0 <= from < m.len() && m[from] == x;
            assert(m[from] == slug_char(s[from]));
        }
    }
}

/// A slug holds only letters, numbers, underscores and dashes, no ASCII capital
/// among them. Its dashes are single and stand neither first nor last. It is its
/// own slug.
pub proof fn law_slug_is_its_own_slug(s: Seq<char>)
    ensures
        slug_shaped(slug(s)),
        slug(slug(s)) == slug(s),
{
    reveal_strlit("-");
    assert("-"@ =~= seq!['-']);
    let words = nonempty(pieces(s.map_values(|c: char| slug_char(c)), '-'));
    let t = slug(s);
    lemma_slug_words(s);
    lemma_joined_words(words);
    let m = t.map_values(|c: char| slug_char(c));
    assert(m =~= t);
    if words.len() == 0 {
        assert(pieces(t, '-') =~= seq![Seq::<char>::empty()]);
        assert(pieces(t, '-').drop_last() =~= Seq::empty());
        reveal_with_fuel(nonempty, 2);
        assert(nonempty(pieces(t, '-')) =~= words);
    } else {
        assert forall|i: int| 0 <= i < words.len() implies !#[trigger] words[i].contains('-') by {
            if words[i].contains('-') {
                let k = choose|k: int| 0 <= k < words[i].len() && words[i][k] == '-';
                assert(word_char(words[i][k]));
            }
        }
        lemma_split_joined(words, '-');
        lemma_nonempty_keeps(words);
    }
}

/// A word keeps its characters, with ASCII letters in lower case, and a text
/// without one has no slug.
pub proof fn law_slug_of_a_word(w: Seq<char>)
    requires
        forall|i: int| 0 <= i < w.len() ==> alphanumeric(#[trigger] w[i]) || w[i] == '_',
    ensures
        slug(w) == w.map_values(|c: char| ascii_lower(c)),
{
    let m = w.map_values(|c: char| slug_char(c));
    assert(m =~= w.map_values(|c: char| ascii_lower(c)));
    assert(!m.contains('-'));
    lemma_one_piece(m, '-');
    let parts = seq![m];
    assert(parts.drop_last() =~= Seq::empty());
    assert(nonempty(Seq::empty()) =~= Seq::empty());
    if m.len() == 0 {
        assert(nonempty(parts) =~= Seq::empty());
    } else {
        assert(nonempty(parts) =~= parts);
    }
}

/// What stands round a gap has its own words: the slugs are joined by one dash,
/// and by none where one of them is empty.
pub proof fn law_slug_joins_words(a: Seq<char>, gap: char, b: Seq<char>)
    requires
        !alphanumeric(gap) && gap != '_',
    ensures
        slug(a).len() == 0 ==> slug(a.push(gap) + b) == slug(b),
        slug(b).len() == 0 ==> slug(a.push(gap) + b) == slug(a),
        slug(a).len() > 0 && slug(b).len() > 0 ==> slug(a.push(gap) + b) == slug(a).push('-')
            + slug(b),
{
    reveal_strlit("-");
    let f = |c: char| slug_char(c);
    let ma = a.map_values(f);
    let mb = b.map_values(f);
    assert("-"@ =~= seq!['-']);
    assert(slug_char(gap) == '-');
    assert((a.push(gap) + b).map_values(f) =~= ma.push('-') + mb);
    lemma_pieces_around(ma, mb, '-');
    let wa = nonempty(pieces(ma, '-'));
    let wb = nonempty(pieces(mb, '-'));
    lemma_nonempty_joins(pieces(ma, '-'), pieces(mb, '-'));
    lemma_slug_words(a);
    lemma_slug_words(b);
    lemma_joined_words(wa);
    lemma_joined_words(wb);
    if wa.len() == 0 {
        assert(wa + wb =~= wb);
    } else if wb.len() == 0 {
        assert(wa + wb =~= wa);
    } else {
        lemma_joined_joins(wa, wb);
        assert(slug(a).push('-') + slug(b) =~= slug(a) + seq!['-'] + slug(b));
    }
}

proof fn lemma_nonempty_joins(a: Seq<Seq<char>>, b: Seq<Seq<char>>)
    ensures
        nonempty(a + b) == nonempty(a) + nonempty(b),
    decreases b.len(),
{
    if b.len() == 0 {
        assert(a + b =~= a);
        assert(nonempty(a) + nonempty(b) =~= nonempty(a));
    } else {
        lemma_nonempty_joins(a, b.drop_last());
        assert((a + b).drop_last() =~= a + b.drop_last());
        assert((a + b).last() == b.last());
        assert(nonempty(a + b) =~= nonempty(a) + nonempty(b));
    }
}

proof fn lemma_joined_joins(a: Seq<Seq<char>>, b: Seq<Seq<char>>)
    requires
        a.len() > 0,
        b.len() > 0,
    ensures
        joined(a + b, seq!['-']) == joined(a, seq!['-']) + seq!['-'] + joined(b, seq!['-']),
    decreases b.len(),
{
    let all = a + b;
    let front = b.drop_last();
    assert(all.drop_last() =~= a + front);
    assert(all.last() == b.last());
    if b.len() == 1 {
        assert(a + front =~= a);
    } else {
        lemma_joined_joins(a, front);
        assert(joined(all, seq!['-']) =~= joined(a, seq!['-']) + seq!['-'] + joined(b, seq!['-']));
    }
}

/// A path below no root of the brain becomes a private note, by its last name
/// alone: the directories before it and its ending make no difference.
pub proof fn law_loose_paths_become_notes(dir: Seq<char>, stem: Seq<char>)
    requires
        !stem.contains('/'),
        !has_suffix(stem, ".md"@),
    ensures
        ({
            let note = "/private/notes/"@ + slug(stem) + ".md"@;
            &&& normalized(stem) == Some(note)
            &&& normalized(stem + ".md"@) == Some(note)
            &&& !writable(dir.push('/') + stem) && !readonly(dir.push('/') + stem) ==> normalized(
                dir.push('/') + stem,
            ) == Some(note)
            &&& !writable(dir.push('/') + (stem + ".md"@)) && !readonly(
                dir.push('/') + (stem + ".md"@),
            ) ==> normalized(dir.push('/') + (stem + ".md"@)) == Some(note)
        }),
{
    reveal_strlit(".md");
    let md = ".md"@;
    let full = stem + md;
    assert(full.skip(full.len() - md.len()) =~= md);
    assert(full.take(full.len() - md.len()) =~= stem);
    assert(drop_suffixes(full, md) == drop_suffixes(stem, md));
    assert(!full.contains('/')) by {
        if full.contains('/') {
            let k = choose|k: int| 0 <= k < full.len() && full[k] == '/';
            if k < stem.len() {
                assert(stem[k] == '/');
            }
        }
    }
    lemma_no_root(stem);
    lemma_no_root(full);
    lemma_one_piece(stem, '/');
    lemma_one_piece(full, '/');
    if stem.len() > 0 {
        assert(stem.contains(stem[0]));
    }
    assert(full.contains(full[0]));
    lemma_last_name(dir, stem);
    lemma_last_name(dir, full);
}

proof fn lemma_no_root(name: Seq<char>)
    requires
        !name.contains('/'),
    ensures
        !writable(name),
        !readonly(name),
{
    reveal_strlit("/private/");
    reveal_strlit("/workspace/");
    reveal_strlit("/system/");
    reveal_strlit("/sources/");
    if writable(name) || readonly(name) {
        let n = if has_prefix(name, "/private/"@) {
            "/private/"@
        } else if has_prefix(name, "/workspace/"@) {
            "/workspace/"@
        } else if has_prefix(name, "/system/"@) {
            "/system/"@
        } else {
            "/sources/"@
        };
        assert(name.take(n.len() as int)[0] == '/');
        assert(name.contains(name[0]));
    }
}

proof fn lemma_last_name(dir: Seq<char>, name: Seq<char>)
    requires
        !name.contains('/'),
    ensures
        pieces(drop_front(dir.push('/') + name, is_char('/')), '/').last() == name,
    decreases dir.len(),
{
    let path = dir.push('/') + name;
    lemma_one_piece(name, '/');
    if dir.len() == 0 {
        assert(path.skip(1) =~= name);
        if name.len() > 0 {
            assert(name.contains(name[0]));
        }
        assert(drop_front(name, is_char('/')) == name);
    } else if dir[0] == '/' {
        assert(path.skip(1) =~= dir.skip(1).push('/') + name);
        lemma_last_name(dir.skip(1), name);
    } else {
        assert(path[0] == dir[0]);
        lemma_pieces_around(dir, name, '/');
    }
}

/// The roots of the brain: what can be written to is private or of the workspace,
/// and what cannot is of the system or of a source. Nothing is both.
pub proof fn law_roots(rest: Seq<char>, path: Seq<char>)
    ensures
        writable("/private/"@ + rest),
        writable("/workspace/"@ + rest),
        readonly("/system/"@ + rest),
        readonly("/sources/"@ + rest),
        !(writable(path) && readonly(path)),
        normalized("/private/"@ + rest) == Some("/private/"@ + rest),
        normalized("/workspace/"@ + rest) == Some("/workspace/"@ + rest),
        normalized("/system/"@ + rest) is None,
        normalized("/sources/"@ + rest) is None,
{
    assert(("/private/"@ + rest).take("/private/"@.len() as int) =~= "/private/"@);
    assert(("/workspace/"@ + rest).take("/workspace/"@.len() as int) =~= "/workspace/"@);
    assert(("/system/"@ + rest).take("/system/"@.len() as int) =~= "/system/"@);
    assert(("/sources/"@ + rest).take("/sources/"@.len() as int) =~= "/sources/"@);
    law_only_readonly_is_refused("/system/"@ + rest);
    law_only_readonly_is_refused("/sources/"@ + rest);
    law_only_readonly_is_refused(path);
}

} // verus!
