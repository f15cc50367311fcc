//! Text as sequences of characters.
//!
//! Every helper here states its result over `Seq<char>`. The definitions read
//! a text from left to right, one character at a time.

use vstd::prelude::*;
use vstd::string::*;
use vstd::utf8::*;

verus! {

broadcast use vstd::string::group_string_axioms;

/// `String::push` appends one character at the end.
pub assume_specification[ String::push ](s: &mut String, c: char)
    ensures
        final(s)@ == old(s)@.push(c),
;

/// The view of an optional string.
pub open spec fn opt_view(o: Option<String>) -> Option<Seq<char>> {
    match o {
        Some(s) => Some(s@),
        None => None,
    }
}

/// The view of an optional string slice.
pub open spec fn opt_str_view(o: Option<&str>) -> Option<Seq<char>> {
    match o {
        Some(s) => Some(s@),
        None => None,
    }
}

/// The views of a list of strings.
pub open spec fn texts(v: Seq<String>) -> Seq<Seq<char>> {
    v.map_values(|s: String| s@)
}

// ── Conversions ─────────────────────────────────────────────────────────────

/// The characters of `s`.
pub fn chars_of(s: &str) -> (v: Vec<char>)
    ensures
        v@ == s@,
{
    let mut out: Vec<char> = Vec::new();
    for c in it: s.chars()
        invariant
            it.seq() == s@,
            out@ == s@.take(it.index()),
    {
        out.push(c);
        assert(s@.take(it.index() + 1) =~= s@.take(it.index()).push(c));
    }
    assert(s@.take(s@.len() as int) == s@);
    out
}

/// The text made of the characters `v[from..to]`.
pub fn text_of(v: &Vec<char>, from: usize, to: usize) -> (s: String)
    requires
        from <= to <= v@.len(),
    ensures
        s@ == v@.subrange(from as int, to as int),
{
    let mut out = String::new();
    let mut i: usize = from;
    while i < to
        invariant
            from <= i <= to <= v@.len(),
            out@ == v@.subrange(from as int, i as int),
        decreases to - i,
    {
        out.push(v[i]);
        assert(v@.subrange(from as int, i + 1) == v@.subrange(from as int, i as int).push(
            v@[i as int],
        ));
        i += 1;
    }
    out
}

/// A fresh copy of `s`.
pub fn copy_text(s: &str) -> (r: String)
    ensures
        r@ == s@,
{
    s.to_owned()
}

/// A fresh copy of an optional string.
pub fn copy_opt(o: &Option<String>) -> (r: Option<String>)
    ensures
        opt_view(r) == opt_view(*o),
{
    match o {
        Some(s) => Some(copy_text(s.as_str())),
        None => None,
    }
}

/// A fresh copy of an optional string slice.
pub fn own_opt(o: Option<&str>) -> (r: Option<String>)
    ensures
        opt_view(r) == opt_str_view(o),
{
    match o {
        Some(s) => Some(copy_text(s)),
        None => None,
    }
}

/// Whether two texts are the same.
pub fn same_text(a: &str, b: &str) -> (r: bool)
    ensures
        r == (a@ == b@),
{
    let x = a.as_bytes();
    let y = b.as_bytes();
    proof {
        encode_utf8_decode_utf8(a@);
        encode_utf8_decode_utf8(b@);
    }
    if x.len() != y.len() {
        return false;
    }
    let mut i: usize = 0;
    while i < x.len()
        invariant
            x@ == encode_utf8(a@),
            y@ == encode_utf8(b@),
            x@.len() == y@.len(),
            i <= x@.len(),
            forall|j: int| 0 <= j < i ==> x@[j] == y@[j],
        decreases x@.len() - i,
    {
        if x[i] != y[i] {
            assert(x@ != y@);
            return false;
        }
        i += 1;
    }
    assert(x@ =~= y@);
    true
}

/// Whether two optional texts are the same.
pub fn same_opt(a: &Option<String>, b: &Option<String>) -> (r: bool)
    ensures
        r == (opt_view(*a) == opt_view(*b)),
{
    match (a, b) {
        (Some(x), Some(y)) => same_text(x.as_str(), y.as_str()),
        (None, None) => true,
        _ => false,
    }
}

// ── Order ───────────────────────────────────────────────────────────────────

/// `a` comes before `b` in the order of their characters, first to last. This
/// is also the order of their UTF-8 bytes.
pub open spec fn text_lt(a: Seq<char>, b: Seq<char>) -> bool
    decreases a.len(),
{
    if b.len() == 0 {
        false
    } else if a.len() == 0 {
        true
    } else if a[0] == b[0] {
        text_lt(a.skip(1), b.skip(1))
    } else {
        a[0] < b[0]
    }
}

/// Of two different texts, exactly one comes before the other.
pub proof fn lemma_text_order(a: Seq<char>, b: Seq<char>)
    ensures
        a == b ==> !text_lt(a, b),
        a != b ==> text_lt(a, b) != text_lt(b, a),
    decreases a.len(),
{
    if a.len() > 0 && b.len() > 0 {
        lemma_text_order(a.skip(1), b.skip(1));
        assert(a =~= seq![a[0]] + a.skip(1));
        assert(b =~= seq![b[0]] + b.skip(1));
    } else if a.len() == 0 && b.len() == 0 {
        assert(a =~= b);
    }
}

/// The order of texts is transitive.
pub proof fn lemma_text_order_trans(a: Seq<char>, b: Seq<char>, c: Seq<char>)
    requires
        text_lt(a, b),
        text_lt(b, c),
    ensures
        text_lt(a, c),
    decreases a.len(),
{
    if a.len() > 0 && a[0] == b[0] && b[0] == c[0] {
        lemma_text_order_trans(a.skip(1), b.skip(1), c.skip(1));
    }
}

/// Whether `a` comes before `b`.
pub fn text_less(a: &str, b: &str) -> (r: bool)
    ensures
        r == text_lt(a@, b@),
{
    let x = chars_of(a);
    let y = chars_of(b);
    let mut i: usize = 0;
    assert(a@.skip(0) =~= a@);
    assert(b@.skip(0) =~= b@);
    while i < x.len() && i < y.len() && x[i] == y[i]
        invariant
            x@ == a@,
            y@ == b@,
            i <= x@.len(),
            i <= y@.len(),
            text_lt(a@, b@) == text_lt(a@.skip(i as int), b@.skip(i as int)),
        decreases x@.len() - i,
    {
        assert(a@.skip(i as int).skip(1) =~= a@.skip(i + 1));
        assert(b@.skip(i as int).skip(1) =~= b@.skip(i + 1));
        i += 1;
    }
    if i == y.len() {
        false
    } else if i == x.len() {
        true
    } else {
        x[i] < y[i]
    }
}

// ── Prefixes and trimming ───────────────────────────────────────────────────

/// `s` begins with `p`.
pub open spec fn has_prefix(s: Seq<char>, p: Seq<char>) -> bool {
    p.len() <= s.len() && s.take(p.len() as int) == p
}

/// `s` ends with `p`.
pub open spec fn has_suffix(s: Seq<char>, p: Seq<char>) -> bool {
    p.len() <= s.len() && s.skip(s.len() - p.len()) == p
}

/// `s` without the longest run of characters satisfying `p` at its front.
pub open spec fn drop_front(s: Seq<char>, p: spec_fn(char) -> bool) -> Seq<char>
    decreases s.len(),
{
    if s.len() > 0 && p(s[0]) {
        drop_front(s.skip(1), p)
    } else {
        s
    }
}

/// `s` without the longest run of characters satisfying `p` at its end.
pub open spec fn drop_back(s: Seq<char>, p: spec_fn(char) -> bool) -> Seq<char>
    decreases s.len(),
{
    if s.len() > 0 && p(s.last()) {
        drop_back(s.drop_last(), p)
    } else {
        s
    }
}

/// The predicate that holds of `c` alone.
pub open spec fn is_char(c: char) -> spec_fn(char) -> bool {
    |x: char| x == c
}

/// The Unicode `White_Space` property.
pub open spec fn is_space(c: char) -> bool {
    ||| '\u{9}' <= c <= '\u{d}'
    ||| c == '\u{20}'
    ||| c == '\u{85}'
    ||| c == '\u{a0}'
    ||| c == '\u{1680}'
    ||| '\u{2000}' <= c <= '\u{200a}'
    ||| c == '\u{2028}'
    ||| c == '\u{2029}'
    ||| c == '\u{202f}'
    ||| c == '\u{205f}'
    ||| c == '\u{3000}'
}

/// `s` without the whitespace at both ends.
pub open spec fn trimmed(s: Seq<char>) -> Seq<char> {
    drop_back(drop_front(s, |c: char| is_space(c)), |c: char| is_space(c))
}

pub fn is_whitespace(c: char) -> (r: bool)
    ensures
        r == is_space(c),
{
    ('\u{9}' <= c && c <= '\u{d}') || c == '\u{20}' || c == '\u{85}' || c == '\u{a0}' || c
        == '\u{1680}' || ('\u{2000}' <= c && c <= '\u{200a}') || c == '\u{2028}' || c == '\u{2029}'
        || c == '\u{202f}' || c == '\u{205f}' || c == '\u{3000}'
}

pub fn starts_with(s: &str, p: &str) -> (r: bool)
    ensures
        r == has_prefix(s@, p@),
{
    let x = chars_of(s);
    let y = chars_of(p);
    if y.len() > x.len() {
        return false;
    }
    let mut i: usize = 0;
    while i < y.len()
        invariant
            x@ == s@,
            y@ == p@,
            i <= y@.len() <= x@.len(),
            forall|j: int| 0 <= j < i ==> x@[j] == y@[j],
        decreases y@.len() - i,
    {
        if x[i] != y[i] {
            assert(s@.take(p@.len() as int)[i as int] != p@[i as int]);
            return false;
        }
        i += 1;
    }
    assert(s@.take(p@.len() as int) =~= p@);
    true
}

pub fn ends_with(s: &str, p: &str) -> (r: bool)
    ensures
        r == has_suffix(s@, p@),
{
    let x = chars_of(s);
    let y = chars_of(p);
    if y.len() > x.len() {
        return false;
    }
    let off: usize = x.len() - y.len();
    let mut i: usize = 0;
    while i < y.len()
        invariant
            x@ == s@,
            y@ == p@,
            off + y@.len() == x@.len(),
            x@.len() <= usize::MAX,
            i <= y@.len(),
            forall|j: int| 0 <= j < i ==> x@[off + j] == y@[j],
        decreases y@.len() - i,
    {
        if x[off + i] != y[i] {
            assert(s@.skip(off as int)[i as int] != p@[i as int]);
            return false;
        }
        i += 1;
    }
    assert(s@.skip(off as int) =~= p@);
    true
}

/// `str::trim_start_matches` for one character.
pub fn trim_start_char(s: &str, c: char) -> (r: String)
    ensures
        r@ == drop_front(s@, is_char(c)),
{
    let v = chars_of(s);
    let mut i: usize = 0;
    assert(s@.skip(0) =~= s@);
    while i < v.len() && v[i] == c
        invariant
            v@ == s@,
            i <= v@.len(),
            drop_front(s@, is_char(c)) == drop_front(s@.skip(i as int), is_char(c)),
        decreases v@.len() - i,
    {
        assert(s@.skip(i as int).skip(1) =~= s@.skip(i + 1));
        i += 1;
    }
    assert(v@.subrange(i as int, v@.len() as int) =~= s@.skip(i as int));
    text_of(&v, i, v.len())
}

/// `str::trim_end_matches` for one character.
pub fn trim_end_char(s: &str, c: char) -> (r: String)
    ensures
        r@ == drop_back(s@, is_char(c)),
{
    let v = chars_of(s);
    let mut n: usize = v.len();
    assert(s@.take(n as int) =~= s@);
    while n > 0 && v[n - 1] == c
        invariant
            v@ == s@,
            n <= v@.len(),
            drop_back(s@, is_char(c)) == drop_back(s@.take(n as int), is_char(c)),
        decreases n,
    {
        assert(s@.take(n as int).drop_last() =~= s@.take(n - 1));
        n -= 1;
    }
    assert(v@.subrange(0, n as int) =~= s@.take(n as int));
    text_of(&v, 0, n)
}

/// `str::trim`: drops whitespace at both ends.
pub fn trim(s: &str) -> (r: String)
    ensures
        r@ == trimmed(s@),
{
    let v = chars_of(s);
    let ghost p = |c: char| is_space(c);
    let mut i: usize = 0;
    assert(s@.skip(0) =~= s@);
    while i < v.len() && is_whitespace(v[i])
        invariant
            v@ == s@,
            i <= v@.len(),
            p == (|c: char| is_space(c)),
            drop_front(s@, p) == drop_front(s@.skip(i as int), p),
        decreases v@.len() - i,
    {
        assert(s@.skip(i as int).skip(1) =~= s@.skip(i + 1));
        i += 1;
    }
    let ghost f = s@.skip(i as int);
    let mut n: usize = v.len();
    assert(f.take(n - i) =~= f);
    while n > i && is_whitespace(v[n - 1])
        invariant
            v@ == s@,
            i <= n <= v@.len(),
            f == s@.skip(i as int),
            p == (|c: char| is_space(c)),
            drop_back(f, p) == drop_back(f.take(n - i), p),
        decreases n,
    {
        assert(f.take(n - i).drop_last() =~= f.take(n - i - 1));
        n -= 1;
    }
    assert(v@.subrange(i as int, n as int) =~= f.take(n - i));
    text_of(&v, i, n)
}

// ── Splitting and joining ───────────────────────────────────────────────────

/// The pieces of `s` between occurrences of `c`. Reading `s` from the left, an
/// occurrence of `c` begins a new piece and any other character extends the
/// last one.
pub open spec fn pieces(s: Seq<char>, c: char) -> Seq<Seq<char>>
    decreases s.len(),
{
    if s.len() == 0 {
        seq![Seq::empty()]
    } else {
        let before = pieces(s.drop_last(), c);
        if s.last() == c {
            before.push(Seq::empty())
        } else {
            before.drop_last().push(before.last().push(s.last()))
        }
    }
}

/// The texts of `parts` with `sep` between each two.
pub open spec fn joined(parts: Seq<Seq<char>>, sep: Seq<char>) -> Seq<char>
    decreases parts.len(),
{
    if parts.len() == 0 {
        Seq::empty()
    } else if parts.len() == 1 {
        parts[0]
    } else {
        joined(parts.drop_last(), sep) + sep + parts.last()
    }
}

/// A split has at least one piece, and no piece holds the separator.
pub proof fn lemma_pieces_nonempty(s: Seq<char>, c: char)
    ensures
        pieces(s, c).len() >= 1,
        forall|i: int| 0 <= i < pieces(s, c).len() ==> !#[trigger] pieces(s, c)[i].contains(c),
    decreases s.len(),
{
    if s.len() > 0 {
        lemma_pieces_nonempty(s.drop_last(), c);
        let before = pieces(s.drop_last(), c);
        assert forall|i: int| 0 <= i < pieces(s, c).len() implies !#[trigger] pieces(
            s,
            c,
        )[i].contains(c) by {
            if s.last() == c {
                if i < before.len() {
                    assert(pieces(s, c)[i] == before[i]);
                }
            } else if i < before.len() - 1 {
                assert(pieces(s, c)[i] == before[i]);
            } else {
                assert(pieces(s, c)[i] == before.last().push(s.last()));
                assert(!before[before.len() - 1].contains(c));
                if pieces(s, c)[i].contains(c) {
                    let k = choose|k: int|
                        0 <= k < pieces(s, c)[i].len() && pieces(s, c)[i][k] == c;
                    assert(before.last()[k] == c);
                    assert(before.last().contains(c));
                }
            }
        }
    }
}

/// Adding text without the separator extends the last piece.
pub proof fn lemma_pieces_extend(s: Seq<char>, t: Seq<char>, c: char)
    requires
        !t.contains(c),
    ensures
        pieces(s + t, c) == pieces(s, c).drop_last().push(pieces(s, c).last() + t),
    decreases t.len(),
{
    lemma_pieces_nonempty(s, c);
    if t.len() == 0 {
        assert(s + t =~= s);
        assert(pieces(s, c).last() + t =~= pieces(s, c).last());
        assert(pieces(s, c) =~= pieces(s, c).drop_last().push(pieces(s, c).last()));
    } else {
        let u = t.drop_last();
        assert(!u.contains(c)) by {
            if u.contains(c) {
                let k = choose|k: int| 0 <= k < u.len() && u[k] == c;
                assert(t[k] == c);
            }
        }
        assert(t.last() != c) by {
            assert(t[t.len() - 1] == t.last());
        }
        lemma_pieces_extend(s, u, c);
        assert((s + t).drop_last() =~= s + u);
        assert((pieces(s, c).last() + u).push(t.last()) =~= pieces(s, c).last() + t);
        assert(pieces(s + t, c) =~= pieces(s, c).drop_last().push(pieces(s, c).last() + t));
    }
}

/// Splitting what was joined gives the parts back, where none of them holds the
/// separator.
pub proof fn lemma_split_joined(parts: Seq<Seq<char>>, c: char)
    requires
        parts.len() > 0,
        forall|i: int| 0 <= i < parts.len() ==> !#[trigger] parts[i].contains(c),
    ensures
        pieces(joined(parts, seq![c]), c) == parts,
    decreases parts.len(),
{
    let last = parts[parts.len() - 1];
    if parts.len() == 1 {
        let none = Seq::<char>::empty();
        lemma_pieces_extend(none, last, c);
        assert(none + last =~= last);
        assert(pieces(last, c) =~= parts);
    } else {
        let front = parts.drop_last();
        lemma_split_joined(front, c);
        let j = joined(front, seq![c]) + seq![c];
        assert(j.drop_last() =~= joined(front, seq![c]));
        assert(pieces(j, c) == front.push(Seq::empty()));
        lemma_pieces_extend(j, last, c);
        assert(Seq::<char>::empty() + last =~= last);
        assert(pieces(joined(parts, seq![c]), c) =~= parts);
    }
}

/// Joining the pieces of a text with the separator gives the text back.
pub proof fn lemma_join_pieces(s: Seq<char>, c: char)
    ensures
        joined(pieces(s, c), seq![c]) == s,
    decreases s.len(),
{
    lemma_pieces_nonempty(s, c);
    if s.len() > 0 {
        let t = s.drop_last();
        lemma_join_pieces(t, c);
        lemma_pieces_nonempty(t, c);
        let before = pieces(t, c);
        if s.last() == c {
            assert(pieces(s, c).drop_last() =~= before);
            assert(joined(pieces(s, c), seq![c]) =~= t + seq![c] + Seq::<char>::empty());
            assert(s =~= t + seq![c]);
        } else {
            assert(pieces(s, c).drop_last() =~= before.drop_last());
            assert(s =~= t.push(s.last()));
            assert(joined(pieces(s, c), seq![c]) =~= joined(before, seq![c]).push(s.last()));
        }
    } else {
        assert(joined(pieces(s, c), seq![c]) =~= s);
    }
}

/// `str::split` on one character.
pub fn split_on(s: &str, c: char) -> (r: Vec<String>)
    ensures
        texts(r@) == pieces(s@, c),
{
    let v = chars_of(s);
    let mut out: Vec<String> = Vec::new();
    let mut cur = String::new();
    let mut i: usize = 0;
    assert(s@.take(0) =~= Seq::<char>::empty());
    assert(texts(out@).push(cur@) =~= pieces(s@.take(0), c));
    while i < v.len()
        invariant
            v@ == s@,
            i <= v@.len(),
            texts(out@).push(cur@) == pieces(s@.take(i as int), c),
        decreases v@.len() - i,
    {
        let ghost before = texts(out@).push(cur@);
        assert(s@.take(i + 1).drop_last() =~= s@.take(i as int));
        assert(s@.take(i + 1).last() == v@[i as int]);
        if v[i] == c {
            let ghost prev = out@;
            out.push(cur);
            cur = String::new();
            assert(texts(out@) =~= before);
            assert(texts(out@).push(cur@) =~= pieces(s@.take(i + 1), c));
        } else {
            assert(before.drop_last() =~= texts(out@));
            cur.push(v[i]);
            assert(texts(out@).push(cur@) =~= pieces(s@.take(i + 1), c));
        }
        i += 1;
    }
    let ghost before = texts(out@).push(cur@);
    out.push(cur);
    assert(texts(out@) =~= before);
    assert(s@.take(v@.len() as int) =~= s@);
    out
}

/// Joins `parts` with `sep`.
pub fn join(parts: &Vec<String>, sep: &str) -> (r: String)
    ensures
        r@ == joined(texts(parts@), sep@),
{
    let mut out = String::new();
    let mut i: usize = 0;
    let ghost all = texts(parts@);
    while i < parts.len()
        invariant
            all == texts(parts@),
            i <= parts@.len(),
            out@ == joined(all.take(i as int), sep@),
        decreases parts@.len() - i,
    {
        assert(all.take(i + 1).drop_last() =~= all.take(i as int));
        if i > 0 {
            out.append(sep);
        }
        out.append(parts[i].as_str());
        assert(out@ =~= joined(all.take(i + 1), sep@));
        i += 1;
    }
    assert(all.take(all.len() as int) =~= all);
    out
}

// ── Characters ──────────────────────────────────────────────────────────────

/// `char::is_alphanumeric` by the Unicode tables of the standard library.
pub uninterp spec fn unicode_alphanumeric(c: char) -> bool;

/// `char::is_alphanumeric` says whether a character is a letter or a number by
/// Unicode. Its tables are not spelled out here.
pub assume_specification[ char::is_alphanumeric ](c: char) -> (r: bool)
    ensures
        r == unicode_alphanumeric(c),
;

/// `c` is an ASCII letter or digit.
pub open spec fn ascii_alphanumeric(c: char) -> bool {
    is_digit(c) || 'a' <= c <= 'z' || 'A' <= c <= 'Z'
}

/// See [`ascii_alphanumeric`].
pub fn ascii_letter_or_digit(c: char) -> (r: bool)
    ensures
        r == ascii_alphanumeric(c),
{
    ('0' <= c && c <= '9') || ('a' <= c && c <= 'z') || ('A' <= c && c <= 'Z')
}

/// `c` is a letter or a number.
pub open spec fn alphanumeric(c: char) -> bool {
    if c as int <= 127 {
        ascii_alphanumeric(c)
    } else {
        unicode_alphanumeric(c)
    }
}

/// See [`alphanumeric`].
pub fn letter_or_number(c: char) -> (r: bool)
    ensures
        r == alphanumeric(c),
{
    if c as u32 <= 127 {
        ascii_letter_or_digit(c)
    } else {
        c.is_alphanumeric()
    }
}

/// `c` in lower case, where it is an ASCII letter.
pub open spec fn ascii_lower(c: char) -> char {
    if 'A' <= c <= 'Z' {
        (c as int + 32) as char
    } else {
        c
    }
}

/// See [`ascii_lower`].
pub fn to_ascii_lower(c: char) -> (r: char)
    ensures
        r == ascii_lower(c),
{
    if 'A' <= c && c <= 'Z' {
        let code: u8 = c as u8;
        (code + 32) as char
    } else {
        c
    }
}

/// `s` without the copies of `p` at its end.
pub open spec fn drop_suffixes(s: Seq<char>, p: Seq<char>) -> Seq<char>
    decreases s.len(),
{
    if p.len() > 0 && has_suffix(s, p) {
        drop_suffixes(s.take(s.len() - p.len()), p)
    } else {
        s
    }
}

/// `str::trim_end_matches` for a text.
pub fn trim_end_text(s: &str, p: &str) -> (r: String)
    ensures
        r@ == drop_suffixes(s@, p@),
{
    let mut out = copy_text(s);
    if p.is_empty() {
        return out;
    }
    while ends_with(out.as_str(), p)
        invariant
            p@.len() > 0,
            drop_suffixes(s@, p@) == drop_suffixes(out@, p@),
        decreases out@.len(),
    {
        let v = chars_of(out.as_str());
        let w = chars_of(p);
        out = text_of(&v, 0, v.len() - w.len());
        assert(out@ =~= v@.take(v@.len() - w@.len()));
    }
    out
}

// ── Lines and bytes ─────────────────────────────────────────────────────────

/// `s` without one carriage return at its end.
pub open spec fn without_cr(s: Seq<char>) -> Seq<char> {
    if s.len() > 0 && s.last() == '\r' {
        s.drop_last()
    } else {
        s
    }
}

/// The lines of a text. A line ends with a line feed, or with a carriage return
/// and a line feed; the last one needs no end, and is none where it is empty.
pub open spec fn lines_of(s: Seq<char>) -> Seq<Seq<char>> {
    let parts = pieces(s, '\n');
    let ended = parts.drop_last().map_values(|p: Seq<char>| without_cr(p));
    if parts.last().len() > 0 {
        ended.push(parts.last())
    } else {
        ended
    }
}

/// Splits a text into lines, as `str::lines` does.
pub fn split_lines(s: &str) -> (r: Vec<String>)
    ensures
        texts(r@) == lines_of(s@),
{
    let parts = split_on(s, '\n');
    let ghost all = texts(parts@);
    proof {
        lemma_pieces_nonempty(s@, '\n');
    }
    let ghost ended = all.drop_last().map_values(|p: Seq<char>| without_cr(p));
    let mut out: Vec<String> = Vec::new();
    let mut i: usize = 0;
    let last: usize = parts.len() - 1;
    while i < last
        invariant
            all == texts(parts@),
            last == parts@.len() - 1,
            ended == all.drop_last().map_values(|p: Seq<char>| without_cr(p)),
            i <= last,
            texts(out@) == ended.take(i as int),
        decreases last - i,
    {
        let ghost before = texts(out@);
        let v = chars_of(parts[i].as_str());
        let n: usize = if v.len() > 0 && v[v.len() - 1] == '\r' {
            v.len() - 1
        } else {
            v.len()
        };
        let line = text_of(&v, 0, n);
        assert(line@ =~= without_cr(parts@[i as int]@));
        out.push(line);
        assert(texts(out@) =~= before.push(line@));
        assert(ended[i as int] == line@);
        assert(ended.take(i + 1) =~= before.push(line@));
        i += 1;
    }
    assert(ended.take(ended.len() as int) =~= ended);
    if !parts[last].as_str().is_empty() {
        let ghost before = texts(out@);
        let line = copy_text(parts[last].as_str());
        out.push(line);
        assert(texts(out@) =~= before.push(line@));
    }
    assert(all.last() == parts@[last as int]@);
    out
}

/// The text that `String::from_utf8_lossy` makes of bytes.
pub uninterp spec fn lossy_text(bytes: Seq<u8>) -> Seq<char>;

/// `String::from_utf8_lossy` turns bytes into text. Bytes that are UTF-8 become
/// the text that they encode; what it puts in place of others is not spelled
/// out here.
#[verifier::external_body]
pub(crate) fn from_utf8_lossy(bytes: &[u8]) -> (r: String)
    ensures
        r@ == lossy_text(bytes@),
        valid_utf8(bytes@) ==> r@ == decode_utf8(bytes@),
{
    String::from_utf8_lossy(bytes).into_owned()
}

/// `std::str::from_utf8` gives the text that bytes encode, if they are UTF-8.
#[verifier::external_body]
pub(crate) fn from_utf8(bytes: &[u8]) -> (r: Option<String>)
    ensures
        match r {
            Some(s) => valid_utf8(bytes@) && s@ == decode_utf8(bytes@),
            None => !valid_utf8(bytes@),
        },
{
    std::str::from_utf8(bytes).ok().map(String::from)
}

/// `s` up to its last `c`, and what follows it.
pub open spec fn split_last(s: Seq<char>, c: char) -> (Option<Seq<char>>, Seq<char>) {
    let parts = pieces(s, c);
    if parts.len() > 1 {
        (Some(joined(parts.drop_last(), seq![c])), parts.last())
    } else {
        (None, s)
    }
}

/// Splits a text at its last slash: what comes before it, if there is one, and
/// what follows.
pub fn split_last_slash(s: &str) -> (r: (Option<String>, String))
    ensures
        (opt_view(r.0), r.1@) == split_last(s@, '/'),
{
    let mut parts = split_on(s, '/');
    let ghost all = texts(parts@);
    proof {
        lemma_pieces_nonempty(s@, '/');
        lemma_join_pieces(s@, '/');
    }
    if parts.len() == 1 {
        return (None, copy_text(s));
    }
    let last = match parts.pop() {
        Some(x) => x,
        None => String::new(),
    };
    proof {
        assert(all.last() == last@);
        assert(texts(parts@) =~= all.drop_last());
        reveal_strlit("/");
        assert("/"@ =~= seq!['/']);
    }
    (Some(join(&parts, "/")), last)
}

// ── Numbers ─────────────────────────────────────────────────────────────────

/// The character of a decimal digit.
pub open spec fn digit_char(d: int) -> char {
    ('0' as int + d) as char
}

/// `c` is a decimal digit.
pub open spec fn is_digit(c: char) -> bool {
    '0' <= c <= '9'
}

/// The value of a decimal digit.
pub open spec fn digit_value(c: char) -> int {
    c as int - '0' as int
}

/// A number in decimal.
pub open spec fn decimal(n: nat) -> Seq<char>
    decreases n,
{
    if n < 10 {
        seq![digit_char(n as int)]
    } else {
        decimal(n / 10).push(digit_char((n % 10) as int))
    }
}

/// An integer in decimal, with a minus sign where it is negative.
pub open spec fn int_text(i: int) -> Seq<char> {
    if i < 0 {
        seq!['-'] + decimal((-i) as nat)
    } else {
        decimal(i as nat)
    }
}

/// `s` is made of decimal digits.
pub open spec fn all_digits(s: Seq<char>) -> bool {
    forall|i: int| 0 <= i < s.len() ==> is_digit(#[trigger] s[i])
}

/// The number that a row of decimal digits stands for.
pub open spec fn digits_value(s: Seq<char>) -> nat
    decreases s.len(),
{
    if s.len() == 0 {
        0
    } else {
        (digits_value(s.drop_last()) * 10 + digit_value(s.last())) as nat
    }
}

/// The integer that a text stands for: an optional sign and then at least one
/// decimal digit, nothing else.
pub open spec fn text_int(s: Seq<char>) -> Option<int> {
    let signed = s.len() > 0 && (s[0] == '-' || s[0] == '+');
    let digits = if signed {
        s.skip(1)
    } else {
        s
    };
    if digits.len() == 0 || !all_digits(digits) {
        None
    } else if signed && s[0] == '-' {
        Some(-(digits_value(digits) as int))
    } else {
        Some(digits_value(digits) as int)
    }
}

/// The 64-bit signed integer that a text stands for.
pub open spec fn text_i64(s: Seq<char>) -> Option<i64> {
    match text_int(s) {
        Some(i) => if i64::MIN <= i <= i64::MAX {
            Some(i as i64)
        } else {
            None
        },
        None => None,
    }
}

/// The 32-bit unsigned integer that a text stands for. A minus sign is not
/// accepted.
pub open spec fn text_u32(s: Seq<char>) -> Option<u32> {
    match text_int(s) {
        Some(i) => if s[0] != '-' && i <= u32::MAX {
            Some(i as u32)
        } else {
            None
        },
        None => None,
    }
}

/// Decimal text is made of digits and stands for the number.
pub proof fn lemma_decimal(n: nat)
    ensures
        decimal(n).len() > 0,
        all_digits(decimal(n)),
        digits_value(decimal(n)) == n,
    decreases n,
{
    if n >= 10 {
        lemma_decimal(n / 10);
        assert(decimal(n).drop_last() =~= decimal(n / 10));
    } else {
        assert(decimal(n).drop_last() =~= Seq::empty());
        assert(digits_value(Seq::empty()) == 0);
    }
}

/// Printing an integer and reading it back gives the integer.
pub proof fn law_int_text_round_trip(i: i64)
    ensures
        text_i64(int_text(i as int)) == Some(i),
{
    if i < 0 {
        lemma_decimal((-i) as nat);
        assert(int_text(i as int).skip(1) =~= decimal((-i) as nat));
    } else {
        lemma_decimal(i as nat);
        let d = decimal(i as nat);
        assert(is_digit(d[0]));
    }
}

/// Prints a number in decimal.
pub fn print_nat(n: u64) -> (r: String)
    ensures
        r@ == decimal(n as nat),
    decreases n,
{
    let mut out = if n < 10 {
        String::new()
    } else {
        print_nat(n / 10)
    };
    let d: u8 = (n % 10) as u8;
    let c = (48 + d) as char;
    assert(c == digit_char((n % 10) as int));
    out.push(c);
    assert(out@ =~= decimal(n as nat));
    out
}

/// Prints an integer in decimal.
pub fn print_int(i: i64) -> (r: String)
    ensures
        r@ == int_text(i as int),
{
    if i < 0 {
        let magnitude: u64 = (-(i as i128)) as u64;
        let mut out = String::new();
        out.push('-');
        out.append(print_nat(magnitude).as_str());
        assert(out@ =~= int_text(i as int));
        out
    } else {
        print_nat(i as u64)
    }
}

/// Reads digits up to a limit: the value of `v[from..]`, or `None` where it is
/// no row of digits or stands for more than the limit.
fn read_digits(v: &Vec<char>, from: usize, limit: u64) -> (r: Option<u64>)
    requires
        from <= v@.len(),
        limit <= 0x8000_0000_0000_0000,
    ensures
        ({
            let digits = v@.skip(from as int);
            match r {
                Some(n) => digits.len() > 0 && all_digits(digits) && digits_value(digits) == n && n
                    <= limit,
                None => digits.len() == 0 || !all_digits(digits) || digits_value(digits) > limit,
            }
        }),
{
    let ghost digits = v@.skip(from as int);
    if from == v.len() {
        return None;
    }
    let mut n: u64 = 0;
    let mut big = false;
    let mut i: usize = from;
    while i < v.len()
        invariant
            from <= i <= v@.len(),
            digits == v@.skip(from as int),
            limit <= 0x8000_0000_0000_0000,
            all_digits(digits.take(i - from)),
            !big ==> n <= limit && digits_value(digits.take(i - from)) == n,
            big ==> digits_value(digits.take(i - from)) > limit,
        decreases v@.len() - i,
    {
        let c = v[i];
        assert(digits[i - from] == c);
        if c < '0' || c > '9' {
            assert(!is_digit(digits[i - from]));
            return None;
        }
        let d: u64 = (c as u32 - '0' as u32) as u64;
        proof {
            let t = digits.take(i + 1 - from);
            assert(t.drop_last() =~= digits.take(i - from));
            assert(t.last() == c);
            assert(all_digits(t)) by {
                assert forall|k: int| 0 <= k < t.len() implies is_digit(#[trigger] t[k]) by {
                    if k < i - from {
                        assert(t[k] == digits.take(i - from)[k]);
                    }
                }
            }
        }
        if !big {
            let m: u128 = n as u128 * 10 + d as u128;
            if m > limit as u128 {
                big = true;
            } else {
                n = m as u64;
            }
        }
        i += 1;
    }
    assert(digits.take(i - from) =~= digits);
    if big {
        None
    } else {
        Some(n)
    }
}

/// Reads a 64-bit signed integer, as `str::parse` does.
pub fn parse_i64(s: &str) -> (r: Option<i64>)
    ensures
        r == text_i64(s@),
{
    let v = chars_of(s);
    assert(v@.skip(0) =~= v@);
    if v.len() == 0 {
        return None;
    }
    if v[0] == '-' {
        match read_digits(&v, 1, 0x8000_0000_0000_0000) {
            Some(n) => Some((-(n as i128)) as i64),
            None => None,
        }
    } else {
        let from: usize = if v[0] == '+' {
            1
        } else {
            0
        };
        match read_digits(&v, from, 0x7fff_ffff_ffff_ffff) {
            Some(n) => Some(n as i64),
            None => None,
        }
    }
}

/// Reads a 32-bit unsigned integer, as `str::parse` does.
pub fn parse_u32(s: &str) -> (r: Option<u32>)
    ensures
        r == text_u32(s@),
{
    let v = chars_of(s);
    assert(v@.skip(0) =~= v@);
    if v.len() == 0 {
        return None;
    }
    if v[0] == '-' {
        return None;
    }
    let from: usize = if v[0] == '+' {
        1
    } else {
        0
    };
    match read_digits(&v, from, 0xffff_ffff) {
        Some(n) => Some(n as u32),
        None => None,
    }
}

/// A text has more than one piece exactly where it holds the separator.
pub proof fn lemma_has_separator(s: Seq<char>, c: char)
    ensures
        pieces(s, c).len() > 1 <==> s.contains(c),
    decreases s.len(),
{
    if s.len() > 0 {
        let f = s.drop_last();
        lemma_has_separator(f, c);
        lemma_pieces_nonempty(f, c);
        if s.contains(c) && s.last() != c {
            let k = choose|k: int| 0 <= k < s.len() && s[k] == c;
            assert(f[k] == c);
        }
        if f.contains(c) {
            let k = choose|k: int| 0 <= k < f.len() && f[k] == c;
            assert(s[k] == c);
        }
        if s.last() == c {
            assert(s[s.len() - 1] == c);
        }
    }
}

/// Two texts with a separator between them have the pieces of both.
pub proof fn lemma_pieces_around(a: Seq<char>, b: Seq<char>, c: char)
    ensures
        pieces(a.push(c) + b, c) == pieces(a, c) + pieces(b, c),
    decreases b.len(),
{
    if b.len() == 0 {
        assert(a.push(c) + b =~= a.push(c));
        assert(a.push(c).drop_last() =~= a);
        assert(pieces(a, c).push(Seq::empty()) =~= pieces(a, c) + pieces(b, c));
    } else {
        let f = b.drop_last();
        lemma_pieces_around(a, f, c);
        lemma_pieces_nonempty(f, c);
        assert((a.push(c) + b).drop_last() =~= a.push(c) + f);
        assert((a.push(c) + b).last() == b.last());
        assert((pieces(a, c) + pieces(f, c)).last() == pieces(f, c).last());
        assert(pieces(a.push(c) + b, c) =~= pieces(a, c) + pieces(b, c));
    }
}

/// A text without the separator is its own only piece.
pub proof fn lemma_one_piece(s: Seq<char>, c: char)
    requires
        !s.contains(c),
    ensures
        pieces(s, c) == seq![s],
{
    lemma_has_separator(s, c);
    lemma_pieces_nonempty(s, c);
    lemma_join_pieces(s, c);
    assert(pieces(s, c) =~= seq![s]);
}

/// The lines of a text are its first line and those of what follows.
pub proof fn lemma_first_line(line: Seq<char>, rest: Seq<char>)
    requires
        !line.contains('\n'),
    ensures
        lines_of(line.push('\n') + rest) == seq![without_cr(line)] + lines_of(rest),
{
    let all = pieces(line.push('\n') + rest, '\n');
    let parts = pieces(rest, '\n');
    lemma_pieces_around(line, rest, '\n');
    lemma_pieces_nonempty(rest, '\n');
    lemma_has_separator(line, '\n');
    lemma_pieces_nonempty(line, '\n');
    lemma_join_pieces(line, '\n');
    assert(pieces(line, '\n') =~= seq![line]);
    assert(all =~= seq![line] + parts);
    assert(all.drop_last() =~= seq![line] + parts.drop_last());
    assert(lines_of(line.push('\n') + rest) =~= seq![without_cr(line)] + lines_of(rest));
}

/// What stands between whitespace is what trimming leaves.
pub proof fn law_whitespace_is_trimmed(a: Seq<char>, s: Seq<char>, b: Seq<char>)
    requires
        forall|i: int| 0 <= i < a.len() ==> is_space(#[trigger] a[i]),
        forall|i: int| 0 <= i < b.len() ==> is_space(#[trigger] b[i]),
        s.len() > 0 ==> !is_space(s[0]) && !is_space(s.last()),
    ensures
        trimmed(a + s + b) == s,
    decreases a.len() + b.len(),
{
    let p = |c: char| is_space(c);
    lemma_front_dropped(a, s + b, p);
    assert(a + s + b =~= a + (s + b));
    if s.len() > 0 {
        assert((s + b)[0] == s[0]);
        assert(drop_front(s + b, p) == s + b);
        lemma_back_dropped(s, b, p);
        assert(drop_back(s, p) == s);
    } else {
        let none = Seq::<char>::empty();
        assert(s + b =~= b + none);
        lemma_front_dropped(b, none, p);
        assert(drop_front(none, p) =~= none);
        assert(drop_back(none, p) =~= none);
        assert(s =~= none);
    }
}

proof fn lemma_front_dropped(a: Seq<char>, s: Seq<char>, p: spec_fn(char) -> bool)
    requires
        forall|i: int| 0 <= i < a.len() ==> p(#[trigger] a[i]),
    ensures
        drop_front(a + s, p) == drop_front(s, p),
    decreases a.len(),
{
    if a.len() == 0 {
        assert(a + s =~= s);
    } else {
        let rest = a.skip(1);
        assert((a + s)[0] == a[0]);
        assert((a + s).skip(1) =~= rest + s);
        lemma_front_dropped(rest, s, p);
    }
}

proof fn lemma_back_dropped(s: Seq<char>, b: Seq<char>, p: spec_fn(char) -> bool)
    requires
        forall|i: int| 0 <= i < b.len() ==> p(#[trigger] b[i]),
    ensures
        drop_back(s + b, p) == drop_back(s, p),
    decreases b.len(),
{
    if b.len() == 0 {
        assert(s + b =~= s);
    } else {
        let front = b.drop_last();
        assert((s + b).last() == b.last());
        assert(b[b.len() - 1] == b.last());
        assert((s + b).drop_last() =~= s + front);
        assert forall|i: int| 0 <= i < front.len() implies p(#[trigger] front[i]) by {
            assert(front[i] == b[i]);
        }
        lemma_back_dropped(s, front, p);
    }
}

/// A number that was printed is read back, where it fits. A sign in front of it
/// that is not a plus makes it none, and so does anything else that is no digit.
pub proof fn law_printed_number_is_read(n: nat, s: Seq<char>)
    ensures
        n <= u32::MAX ==> text_u32(decimal(n)) == Some(n as u32),
        n > u32::MAX ==> text_u32(decimal(n)) is None,
        text_u32(seq!['-'] + decimal(n)) is None,
        n <= u32::MAX ==> text_u32(seq!['+'] + decimal(n)) == Some(n as u32),
        text_u32(Seq::empty()) is None,
        text_u32(s) is Some ==> forall|i: int| 0 < i < s.len() ==> is_digit(#[trigger] s[i]),
        text_u32(s) is Some ==> is_digit(s[0]) || s[0] == '+',
{
    lemma_decimal(n);
    let d = decimal(n);
    assert(is_digit(d[0]));
    assert((seq!['-'] + d).skip(1) =~= d);
    assert((seq!['+'] + d).skip(1) =~= d);
    if text_u32(s) is Some {
        assert forall|i: int| 0 < i < s.len() implies is_digit(#[trigger] s[i]) by {
            if s[0] == '+' {
                assert(s.skip(1)[i - 1] == s[i]);
            }
        }
    }
}

/// The first character in which two texts differ decides which comes first, and a
/// text comes before what it is continued to.
pub proof fn law_texts_are_ordered(front: Seq<char>, a: Seq<char>, b: Seq<char>)
    ensures
        b.len() > 0 ==> text_lt(front, front + b),
        a.len() > 0 && b.len() > 0 && a[0] < b[0] ==> text_lt(front + a, front + b) && !text_lt(
            front + b,
            front + a,
        ),
    decreases front.len(),
{
    if front.len() == 0 {
        assert(front + a =~= a);
        assert(front + b =~= b);
    } else {
        let rest = front.skip(1);
        assert((front + a).skip(1) =~= rest + a);
        assert((front + b).skip(1) =~= rest + b);
        law_texts_are_ordered(rest, a, b);
    }
}

/// A text is split at its last separator: what stands before it and what follows.
pub proof fn law_split_at_the_last(a: Seq<char>, b: Seq<char>, c: char)
    requires
        !b.contains(c),
    ensures
        split_last(a.push(c) + b, c) == (Some(a), b),
        split_last(b, c) == (None::<Seq<char>>, b),
{
    lemma_one_piece(b, c);
    lemma_pieces_around(a, b, c);
    lemma_pieces_nonempty(a, c);
    lemma_join_pieces(a, c);
    let parts = pieces(a.push(c) + b, c);
    assert(parts =~= pieces(a, c).push(b));
    assert(parts.drop_last() =~= pieces(a, c));
}

/// A line ends with a line feed, or with a carriage return and a line feed. The
/// last one needs no end.
pub proof fn law_lines_are_cut(line: Seq<char>, rest: Seq<char>)
    requires
        !line.contains('\n'),
    ensures
        line.len() == 0 || line.last() != '\r' ==> lines_of(line.push('\n') + rest) == seq![line]
            + lines_of(rest),
        lines_of(line.push('\r').push('\n') + rest) == seq![line] + lines_of(rest),
        line.len() > 0 ==> lines_of(line) == seq![line],
        lines_of(Seq::empty()).len() == 0,
{
    let r = line.push('\r');
    assert(!r.contains('\n')) by {
        if r.contains('\n') {
            let k = choose|k: int| 0 <= k < r.len() && r[k] == '\n';
            assert(line[k] == '\n');
        }
    }
    assert(r.drop_last() =~= line);
    lemma_first_line(line, rest);
    lemma_first_line(r, rest);
    lemma_one_piece(line, '\n');
    lemma_one_piece(Seq::empty(), '\n');
    let none = Seq::<Seq<char>>::empty();
    assert(seq![line].drop_last() =~= none);
    assert(lines_of(line) =~= if line.len() > 0 {
        seq![line]
    } else {
        none
    });
}

/// ASCII capitals become small letters, in the order of the alphabet, and nothing
/// else changes.
pub proof fn law_lower_case(c: char)
    ensures
        'A' <= c <= 'Z' ==> 'a' <= ascii_lower(c) <= 'z' && ascii_lower(c) as int - 'a' as int == c
            as int - 'A' as int,
        !('A' <= c <= 'Z') ==> ascii_lower(c) == c,
{
}

} // verus!
