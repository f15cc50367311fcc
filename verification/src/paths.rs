//! Paths of the host, as texts.

use crate::text::{
    copy_text, has_prefix, has_suffix, join, joined, lemma_one_piece, lemma_pieces_around, lemma_pieces_nonempty, lemma_split_joined,
    pieces, same_text, split_on, starts_with, ends_with, texts,
};
use vstd::prelude::*;

verus! {

/// `name` below the directory `base`. An absolute name stands for itself.
pub open spec fn path_in(base: Seq<char>, name: Seq<char>) -> Seq<char> {
    if has_prefix(name, "/"@) {
        name
    } else if base.len() == 0 || has_suffix(base, "/"@) {
        base + name
    } else {
        base + "/"@ + name
    }
}

/// `name` below the directory `base`, as `Path::join` has it on Unix.
pub fn join_path(base: &str, name: &str) -> (r: String)
    ensures
        r@ == path_in(base@, name@),
{
    if starts_with(name, "/") {
        copy_text(name)
    } else if base.is_empty() || ends_with(base, "/") {
        copy_text(base).concat(name)
    } else {
        copy_text(base).concat("/").concat(name)
    }
}

/// A piece between slashes that leads nowhere: an empty one, or `.`.
pub open spec fn stays(piece: Seq<char>) -> bool {
    piece.len() == 0 || piece == "."@
}

/// The pieces that lead somewhere.
pub open spec fn steps(parts: Seq<Seq<char>>) -> Seq<Seq<char>>
    decreases parts.len(),
{
    if parts.len() == 0 {
        Seq::empty()
    } else if stays(parts.last()) {
        steps(parts.drop_last())
    } else {
        steps(parts.drop_last()).push(parts.last())
    }
}

/// The name that a path ends with; none where it ends with `..` or leads
/// nowhere.
pub open spec fn name_in(path: Seq<char>) -> Option<Seq<char>> {
    let s = steps(pieces(path, '/'));
    if s.len() == 0 || s.last() == ".."@ {
        None
    } else {
        Some(s.last())
    }
}

/// The name that a path ends with, as `Path::file_name` has it on Unix.
pub fn file_name(path: &str) -> (r: Option<String>)
    ensures
        crate::text::opt_view(r) == name_in(path@),
{
    let parts = split_on(path, '/');
    let ghost all = texts(parts@);
    let mut n: usize = parts.len();
    assert(all.take(n as int) =~= all);
    while n > 0
        invariant
            n <= parts@.len(),
            all == texts(parts@),
            all == pieces(path@, '/'),
            steps(all) == steps(all.take(n as int)),
        decreases n,
    {
        let ghost t = all.take(n as int);
        assert(t.drop_last() =~= all.take(n - 1));
        let p = &parts[n - 1];
        assert(t.last() == p@);
        if !p.as_str().is_empty() && !same_text(p.as_str(), ".") {
            assert(steps(all).last() == p@);
            if same_text(p.as_str(), "..") {
                return None;
            }
            return Some(copy_text(p.as_str()));
        }
        n -= 1;
    }
    assert(all.take(0) =~= Seq::empty());
    None
}

/// The names from the root down that a path leads to, with `.` and `..`
/// resolved. The root is its own parent.
pub open spec fn resolved(parts: Seq<Seq<char>>) -> Seq<Seq<char>>
    decreases parts.len(),
{
    if parts.len() == 0 {
        Seq::empty()
    } else {
        let before = resolved(parts.drop_last());
        if stays(parts.last()) {
            before
        } else if parts.last() == ".."@ {
            if before.len() == 0 {
                before
            } else {
                before.drop_last()
            }
        } else {
            before.push(parts.last())
        }
    }
}

/// An absolute path with `.` and `..` resolved, by its text alone.
pub open spec fn plain_path(path: Seq<char>) -> Seq<char> {
    "/"@ + joined(resolved(pieces(path, '/')), "/"@)
}

/// Resolves `.` and `..` in an absolute path, by its text alone.
pub fn clean_path(path: &str) -> (r: String)
    ensures
        r@ == plain_path(path@),
{
    let parts = split_on(path, '/');
    let ghost all = texts(parts@);
    let mut out: Vec<String> = Vec::new();
    let mut i: usize = 0;
    assert(all.take(0) =~= Seq::empty());
    assert(texts(out@) =~= Seq::empty());
    while i < parts.len()
        invariant
            i <= parts@.len(),
            all == texts(parts@),
            texts(out@) == resolved(all.take(i as int)),
        decreases parts@.len() - i,
    {
        let ghost before = texts(out@);
        let p = &parts[i];
        assert(all.take(i + 1).drop_last() =~= all.take(i as int));
        assert(all.take(i + 1).last() == p@);
        if p.as_str().is_empty() || same_text(p.as_str(), ".") {
        } else if same_text(p.as_str(), "..") {
            if out.len() > 0 {
                let _ = out.pop();
                assert(texts(out@) =~= before.drop_last());
            }
        } else {
            out.push(copy_text(p.as_str()));
            assert(texts(out@) =~= before.push(p@));
        }
        i += 1;
    }
    assert(all.take(all.len() as int) =~= all);
    copy_text("/").concat(join(&out, "/").as_str())
}

/// Where `raw` leads from the directory `cwd`, by the texts alone.
pub fn absolute_path(cwd: &str, raw: &str) -> (r: String)
    ensures
        r@ == plain_path(path_in(cwd@, raw@)),
{
    clean_path(join_path(cwd, raw).as_str())
}

proof fn lemma_resolved(parts: Seq<Seq<char>>)
    requires
        forall|i: int| 0 <= i < parts.len() ==> !#[trigger] parts[i].contains('/'),
    ensures
        forall|i: int|
            0 <= i < resolved(parts).len() ==> {
                let p = #[trigger] resolved(parts)[i];
                !stays(p) && p != ".."@ && !p.contains('/')
            },
    decreases parts.len(),
{
    if parts.len() > 0 {
        assert(!parts[parts.len() - 1].contains('/'));
        let before = resolved(parts.drop_last());
        lemma_resolved(parts.drop_last());
        assert forall|i: int| 0 <= i < resolved(parts).len() implies {
            let p = #[trigger] resolved(parts)[i];
            !stays(p) && p != ".."@ && !p.contains('/')
        } by {
            if i < before.len() {
                assert(resolved(parts)[i] == before[i]);
            }
        }
    }
}

/// A resolved path holds no `.`, no `..` and no empty name.
pub proof fn law_plain_path_has_plain_names(path: Seq<char>)
    ensures
        forall|i: int|
            0 <= i < resolved(pieces(path, '/')).len() ==> {
                let p = #[trigger] resolved(pieces(path, '/'))[i];
                p.len() > 0 && p != "."@ && p != ".."@ && !p.contains('/')
            },
{
    lemma_pieces_nonempty(path, '/');
    lemma_resolved(pieces(path, '/'));
}

proof fn lemma_resolved_is_fixed(parts: Seq<Seq<char>>)
    requires
        forall|i: int| 0 <= i < parts.len() ==> !stays(#[trigger] parts[i]) && parts[i] != ".."@,
    ensures
        resolved(parts) == parts,
    decreases parts.len(),
{
    if parts.len() > 0 {
        assert(!stays(parts[parts.len() - 1]));
        lemma_resolved_is_fixed(parts.drop_last());
        assert(resolved(parts) =~= parts);
    }
}

proof fn lemma_resolved_front(parts: Seq<Seq<char>>)
    ensures
        resolved(seq![Seq::<char>::empty()] + parts) == resolved(parts),
    decreases parts.len(),
{
    let e = seq![Seq::<char>::empty()];
    if parts.len() == 0 {
        assert(e + parts =~= e);
        assert(e.drop_last() =~= Seq::<Seq<char>>::empty());
        assert(resolved(e) == resolved(e.drop_last()));
    } else {
        assert((e + parts).drop_last() =~= e + parts.drop_last());
        lemma_resolved_front(parts.drop_last());
    }
}

/// Resolving a resolved path changes nothing.
pub proof fn law_plain_path_is_fixed(path: Seq<char>)
    ensures
        plain_path(plain_path(path)) == plain_path(path),
{
    let names = resolved(pieces(path, '/'));
    let e = seq![Seq::<char>::empty()];
    let slash = seq!['/'];
    reveal_strlit("/");
    assert("/"@ =~= slash);
    law_plain_path_has_plain_names(path);
    lemma_resolved_is_fixed(names);
    let all = e + names;
    if names.len() == 0 {
        assert(names =~= Seq::empty());
        assert(plain_path(path) =~= slash);
        assert(slash.drop_last() =~= Seq::<char>::empty());
        assert(pieces(Seq::<char>::empty(), '/') =~= e);
        assert(pieces(slash, '/') =~= e + e);
        lemma_resolved_front(e);
        lemma_resolved_front(Seq::empty());
        assert(e + Seq::<Seq<char>>::empty() =~= e);
    } else {
        lemma_joined_front(names, slash);
        assert forall|i: int| 0 <= i < all.len() implies !#[trigger] all[i].contains('/') by {
            if i > 0 {
                assert(all[i] == names[i - 1]);
            }
        }
        lemma_split_joined(all, '/');
        lemma_resolved_front(names);
    }
}

/// Joining with an empty part in front puts the separator in front.
proof fn lemma_joined_front(parts: Seq<Seq<char>>, sep: Seq<char>)
    requires
        parts.len() > 0,
    ensures
        joined(seq![Seq::<char>::empty()] + parts, sep) == sep + joined(parts, sep),
    decreases parts.len(),
{
    let e = seq![Seq::<char>::empty()];
    let all = e + parts;
    assert(all.drop_last() =~= e + parts.drop_last());
    if parts.len() == 1 {
        assert(all.drop_last() =~= e);
        assert(joined(e, sep) =~= Seq::<char>::empty());
        assert(all.last() == parts[0]);
        assert(joined(all, sep) =~= sep + joined(parts, sep));
    } else {
        lemma_joined_front(parts.drop_last(), sep);
        assert(joined(all, sep) =~= sep + joined(parts, sep));
    }
}

/// What follows a slash leads on from where the path before it leads: a name leads
/// below it, `.` and nothing stay, and `..` takes the last name back. At the root
/// it stays.
pub proof fn law_path_leads_on(path: Seq<char>, name: Seq<char>)
    requires
        name.len() > 0,
        name != "."@,
        name != ".."@,
        !name.contains('/'),
    ensures
        plain_path(Seq::empty()) == "/"@,
        plain_path(path.push('/') + name) == (if plain_path(path) == "/"@ {
            "/"@ + name
        } else {
            plain_path(path).push('/') + name
        }),
        plain_path(path.push('/') + "."@) == plain_path(path),
        plain_path(path.push('/')) == plain_path(path),
        plain_path((path.push('/') + name).push('/') + ".."@) == plain_path(path),
        plain_path(path) == "/"@ ==> plain_path(path.push('/') + ".."@) == "/"@,
{
    reveal_strlit("/");
    reveal_strlit(".");
    reveal_strlit("..");
    let none = Seq::<char>::empty();
    let all = pieces(path, '/');
    let names = resolved(all);
    lemma_pieces_nonempty(path, '/');
    lemma_resolved(all);
    lemma_one_piece(none, '/');
    lemma_one_piece(name, '/');
    lemma_one_piece("."@, '/');
    lemma_one_piece(".."@, '/');
    lemma_resolved_push(Seq::empty(), none);
    assert(Seq::<Seq<char>>::empty().push(none) =~= seq![none]);
    assert(resolved(Seq::<Seq<char>>::empty()) =~= Seq::<Seq<char>>::empty());
    assert(joined(Seq::<Seq<char>>::empty(), "/"@) =~= none);
    assert("/"@ + none =~= "/"@);
    lemma_pieces_around(path, name, '/');
    lemma_pieces_around(path, "."@, '/');
    lemma_pieces_around(path, ".."@, '/');
    lemma_pieces_around(path, none, '/');
    lemma_pieces_around(path.push('/') + name, ".."@, '/');
    assert(path.push('/') + none =~= path.push('/'));
    assert(all + seq![name] =~= all.push(name));
    assert(all + seq!["."@] =~= all.push("."@));
    assert(all + seq![".."@] =~= all.push(".."@));
    assert(all + seq![none] =~= all.push(none));
    assert(all.push(name) + seq![".."@] =~= all.push(name).push(".."@));
    lemma_resolved_push(all, name);
    lemma_resolved_push(all, "."@);
    lemma_resolved_push(all, ".."@);
    lemma_resolved_push(all, none);
    lemma_resolved_push(all.push(name), ".."@);
    assert(names.push(name).drop_last() =~= names);
    if names.len() == 0 {
        assert(names.push(name).len() == 1);
        assert(plain_path(path) =~= "/"@);
    } else {
        lemma_joined_names(names);
        assert(plain_path(path).len() > 1);
        assert(plain_path(path.push('/') + name) =~= plain_path(path).push('/') + name);
    }
}

proof fn lemma_resolved_push(parts: Seq<Seq<char>>, part: Seq<char>)
    ensures
        resolved(parts.push(part)) == (if stays(part) {
            resolved(parts)
        } else if part == ".."@ {
            if resolved(parts).len() == 0 {
                resolved(parts)
            } else {
                resolved(parts).drop_last()
            }
        } else {
            resolved(parts).push(part)
        }),
{
    assert(parts.push(part).drop_last() =~= parts);
}

proof fn lemma_joined_names(names: Seq<Seq<char>>)
    requires
        names.len() > 0,
        forall|i: int| 0 <= i < names.len() ==> (#[trigger] names[i]).len() > 0,
    ensures
        joined(names, "/"@).len() > 0,
{
    assert(names[names.len() - 1].len() > 0);
}

} // verus!
