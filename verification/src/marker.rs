//! The `.unisonfs` marker file: tag and path scope of a directory.
//!
//! The file is a simple key = "value" text file:
//!
//! ```text
//! tag = "my-workspace"
//! path = "/private/notes/my-workspace"
//! ```

use crate::pattern::{
    cut_first, found_at, lemma_first_at, lemma_replaced_step, replace, replaced, split_first,
};
use crate::text::{
    copy_text, drop_back, drop_front, is_char, is_space, law_whitespace_is_trimmed,
    lemma_pieces_extend, lemma_pieces_nonempty, lines_of, opt_view, pieces, same_text, split_lines,
    texts, trim, trim_end_char, trim_start_char, trimmed,
};
use vstd::prelude::*;

verus! {

/// Contents of a `.unisonfs` marker file.
#[derive(Debug)]
pub struct UnisonMarker {
    /// Brain tag (corresponds to the daemon's `--tag` flag).
    pub tag: Option<String>,
    /// Brain memory path scope (corresponds to `--memory-paths`).
    pub path: Option<String>,
    /// Free-form description for human readers.
    pub description: Option<String>,
}

/// A [`UnisonMarker`] with its texts as character sequences.
pub struct MarkerView {
    pub tag: Option<Seq<char>>,
    pub path: Option<Seq<char>>,
    pub description: Option<Seq<char>>,
}

impl View for UnisonMarker {
    type V = MarkerView;

    open spec fn view(&self) -> MarkerView {
        MarkerView {
            tag: opt_view(self.tag),
            path: opt_view(self.path),
            description: opt_view(self.description),
        }
    }
}

/// The marker that says nothing.
pub open spec fn no_marker() -> MarkerView {
    MarkerView { tag: None, path: None, description: None }
}

impl Default for UnisonMarker {
    fn default() -> (r: Self)
        ensures
            r@ == no_marker(),
    {
        UnisonMarker { tag: None, path: None, description: None }
    }
}

/// Filename used for the marker.
pub const MARKER_FILENAME: &'static str = ".unisonfs";

// ── Writing ─────────────────────────────────────────────────────────────────

/// A value with a backslash before each quote.
pub open spec fn escape(value: Seq<char>) -> Seq<char> {
    replaced(value, "\""@, "\\\""@)
}

/// The line that gives `key` a value.
pub open spec fn entry(key: Seq<char>, value: Seq<char>) -> Seq<char> {
    key + " = \""@ + escape(value) + "\"\n"@
}

/// The line for a value that may be missing.
pub open spec fn optional_entry(key: Seq<char>, value: Option<Seq<char>>) -> Seq<char> {
    match value {
        Some(v) => entry(key, v),
        None => Seq::empty(),
    }
}

/// The text of a marker file.
pub open spec fn marker_text(m: MarkerView) -> Seq<char> {
    optional_entry("tag"@, m.tag) + optional_entry("path"@, m.path) + optional_entry(
        "description"@,
        m.description,
    )
}

fn write_entry(key: &str, value: &Option<String>) -> (r: String)
    ensures
        r@ == optional_entry(key@, opt_view(*value)),
{
    match value {
        Some(v) => {
            proof {
                reveal_strlit("\"");
            }
            copy_text(key).concat(" = \"").concat(
                replace(v.as_str(), "\"", "\\\"").as_str(),
            ).concat("\"\n")
        },
        None => String::new(),
    }
}

/// Format a marker struct into the canonical marker file text.
pub fn format_marker(m: &UnisonMarker) -> (r: String)
    ensures
        r@ == marker_text(m@),
{
    write_entry("tag", &m.tag).concat(write_entry("path", &m.path).as_str()).concat(
        write_entry("description", &m.description).as_str(),
    )
}

// ── Reading ─────────────────────────────────────────────────────────────────

/// A value without the quotes around it, and with escaped quotes unescaped.
pub open spec fn unquoted(value: Seq<char>) -> Seq<char> {
    replaced(
        drop_back(drop_front(value, is_char('"')), is_char('"')),
        "\\\""@,
        "\""@,
    )
}

/// The marker with one key set; keys other than the three are passed over.
pub open spec fn with_key(m: MarkerView, key: Seq<char>, value: Seq<char>) -> MarkerView {
    if key == "tag"@ {
        MarkerView { tag: Some(value), ..m }
    } else if key == "path"@ {
        MarkerView { path: Some(value), ..m }
    } else if key == "description"@ {
        MarkerView { description: Some(value), ..m }
    } else {
        m
    }
}

/// The marker after one more line. Empty lines, comments and lines without `=`
/// say nothing.
pub open spec fn with_line(m: MarkerView, line: Seq<char>) -> MarkerView {
    let t = trimmed(line);
    if t.len() == 0 || t[0] == '#' {
        m
    } else {
        match cut_first(t, "="@) {
            Some((k, v)) => with_key(m, trimmed(k), unquoted(trimmed(v))),
            None => m,
        }
    }
}

/// What the lines of a marker file say; of two lines for one key the later
/// counts.
pub open spec fn marker_of_lines(lines: Seq<Seq<char>>) -> MarkerView
    decreases lines.len(),
{
    if lines.len() == 0 {
        no_marker()
    } else {
        with_line(marker_of_lines(lines.drop_last()), lines.last())
    }
}

/// What the text of a marker file says.
pub open spec fn marker_of_text(text: Seq<char>) -> MarkerView {
    marker_of_lines(lines_of(text))
}

fn read_line(m: UnisonMarker, line: &str) -> (r: UnisonMarker)
    ensures
        r@ == with_line(m@, line@),
{
    let t = trim(line);
    if t.as_str().is_empty() || t.as_str().get_char(0) == '#' {
        return m;
    }
    match split_first(t.as_str(), "=") {
        Some((k, v)) => {
            proof {
                reveal_strlit("\\\"");
            }
            let key = trim(k.as_str());
            let bare = trim_end_char(trim_start_char(trim(v.as_str()).as_str(), '"').as_str(), '"');
            let val = replace(bare.as_str(), "\\\"", "\"");
            if same_text(key.as_str(), "tag") {
                UnisonMarker { tag: Some(val), path: m.path, description: m.description }
            } else if same_text(key.as_str(), "path") {
                UnisonMarker { tag: m.tag, path: Some(val), description: m.description }
            } else if same_text(key.as_str(), "description") {
                UnisonMarker { tag: m.tag, path: m.path, description: Some(val) }
            } else {
                m
            }
        },
        None => m,
    }
}

/// Parse the text of a `.unisonfs` marker file.
pub fn parse_marker_text(text: &str) -> (r: UnisonMarker)
    ensures
        r@ == marker_of_text(text@),
{
    let lines = split_lines(text);
    let mut m = UnisonMarker::default();
    let mut i: usize = 0;
    assert(texts(lines@).take(0) =~= Seq::empty());
    while i < lines.len()
        invariant
            i <= lines@.len(),
            texts(lines@) == lines_of(text@),
            m@ == marker_of_lines(texts(lines@).take(i as int)),
        decreases lines@.len() - i,
    {
        m = read_line(m, lines[i].as_str());
        assert(texts(lines@).take(i + 1).drop_last() =~= texts(lines@).take(i as int));
        i += 1;
    }
    assert(texts(lines@).take(lines@.len() as int) =~= texts(lines@));
    m
}

// ── Finding ─────────────────────────────────────────────────────────────────

/// What a look for a marker in one directory gave.
#[derive(Debug)]
pub enum Probe {
    Absent,
    /// A marker file is there, but could not be read.
    Unreadable,
    Text(String),
}

/// The first marker file from position `i` on, and what it says.
pub open spec fn nearest_from(probes: Seq<Probe>, i: int) -> Option<(int, MarkerView)>
    decreases probes.len() - i,
{
    if i < 0 || i >= probes.len() {
        None
    } else {
        match probes[i] {
            Probe::Absent => nearest_from(probes, i + 1),
            Probe::Unreadable => None,
            Probe::Text(t) => Some((i, marker_of_text(t@))),
        }
    }
}

/// The nearest marker, where `probes` holds a directory and its ancestors from
/// the inside out. A marker that cannot be read hides those further out.
pub fn find_marker(probes: &Vec<Probe>) -> (r: Option<(usize, UnisonMarker)>)
    ensures
        (match r {
            Some((i, m)) => Some((i as int, m@)),
            None => None,
        }) == nearest_from(probes@, 0),
{
    let mut i: usize = 0;
    while i < probes.len()
        invariant
            i <= probes@.len(),
            nearest_from(probes@, 0) == nearest_from(probes@, i as int),
        decreases probes@.len() - i,
    {
        match &probes[i] {
            Probe::Absent => {},
            Probe::Unreadable => {
                return None;
            },
            Probe::Text(t) => {
                return Some((i, parse_marker_text(t.as_str())));
            },
        }
        i += 1;
    }
    None
}

/// The markers that can be read, in order, with their positions.
pub open spec fn all_markers(probes: Seq<Probe>) -> Seq<(int, MarkerView)>
    decreases probes.len(),
{
    if probes.len() == 0 {
        Seq::empty()
    } else {
        let before = all_markers(probes.drop_last());
        match probes.last() {
            Probe::Text(t) => before.push((probes.len() - 1, marker_of_text(t@))),
            _ => before,
        }
    }
}

pub open spec fn marker_views(v: Seq<(usize, UnisonMarker)>) -> Seq<(int, MarkerView)> {
    Seq::new(v.len(), |i: int| (v[i].0 as int, v[i].1@))
}

/// All markers that can be read, where `probes` holds a directory's ancestors
/// and itself from the outside in.
pub fn parse_all_markers(probes: &Vec<Probe>) -> (r: Vec<(usize, UnisonMarker)>)
    ensures
        marker_views(r@) == all_markers(probes@),
{
    let mut out: Vec<(usize, UnisonMarker)> = Vec::new();
    let mut i: usize = 0;
    assert(probes@.take(0) =~= Seq::empty());
    assert(marker_views(out@) =~= Seq::empty());
    while i < probes.len()
        invariant
            i <= probes@.len(),
            marker_views(out@) == all_markers(probes@.take(i as int)),
        decreases probes@.len() - i,
    {
        let ghost before = marker_views(out@);
        assert(probes@.take(i + 1).drop_last() =~= probes@.take(i as int));
        match &probes[i] {
            Probe::Text(t) => {
                let m = parse_marker_text(t.as_str());
                out.push((i, m));
                assert(marker_views(out@) =~= before.push((i as int, m@)));
            },
            _ => {},
        }
        i += 1;
    }
    assert(probes@.take(probes@.len() as int) =~= probes@);
    out
}

/// The marker of one directory, if it can be read.
pub fn read_unisonfs_marker(probe: &Probe) -> (r: Option<UnisonMarker>)
    ensures
        (match r {
            Some(m) => Some(m@),
            None => None,
        }) == (match *probe {
            Probe::Text(t) => Some(marker_of_text(t@)),
            _ => None,
        }),
{
    match probe {
        Probe::Text(t) => Some(parse_marker_text(t.as_str())),
        _ => None,
    }
}

// ── What is written is read back ────────────────────────────────────────────

/// A value that a marker file can hold: one line, without a quote at its end.
pub open spec fn fits_in_line(value: Seq<char>) -> bool {
    !value.contains('\n') && (value.len() > 0 ==> value.last() != '"')
}

pub open spec fn fits(value: Option<Seq<char>>) -> bool {
    value is Some ==> fits_in_line(value->0)
}

/// `escape`, one character after the other.
spec fn escaped(v: Seq<char>) -> Seq<char>
    decreases v.len(),
{
    if v.len() == 0 {
        Seq::empty()
    } else {
        (if v[0] == '"' {
            seq!['\\', '"']
        } else {
            seq![v[0]]
        }) + escaped(v.skip(1))
    }
}

proof fn lemma_literals()
    ensures
        "\""@ == seq!['"'],
        "\\\""@ == seq!['\\', '"'],
        " = \""@ == seq![' ', '=', ' ', '"'],
        "\"\n"@ == seq!['"', '\n'],
        "="@ == seq!['='],
        "tag"@ == seq!['t', 'a', 'g'],
        "path"@ == seq!['p', 'a', 't', 'h'],
        "description"@ == seq!['d', 'e', 's', 'c', 'r', 'i', 'p', 't', 'i', 'o', 'n'],
{
    reveal_strlit("\"");
    reveal_strlit("\\\"");
    reveal_strlit(" = \"");
    reveal_strlit("\"\n");
    reveal_strlit("=");
    reveal_strlit("tag");
    reveal_strlit("path");
    reveal_strlit("description");
    assert("\""@ =~= seq!['"']);
    assert("\\\""@ =~= seq!['\\', '"']);
    assert(" = \""@ =~= seq![' ', '=', ' ', '"']);
    assert("\"\n"@ =~= seq!['"', '\n']);
    assert("="@ =~= seq!['=']);
    assert("tag"@ =~= seq!['t', 'a', 'g']);
    assert("path"@ =~= seq!['p', 'a', 't', 'h']);
    assert("description"@ =~= seq!['d', 'e', 's', 'c', 'r', 'i', 'p', 't', 'i', 'o', 'n']);
}

proof fn lemma_escape(v: Seq<char>)
    ensures
        escape(v) == escaped(v),
    decreases v.len(),
{
    lemma_literals();
    lemma_replaced_step(v, seq!['"'], seq!['\\', '"']);
    if v.len() > 0 {
        lemma_escape(v.skip(1));
        assert(v.subrange(0, 1) =~= seq![v[0]]);
        assert(seq![v[0]][0] == v[0]);
        assert(seq!['"'][0] == '"');
        assert(found_at(v, seq!['"'], 0) == (v[0] == '"'));
    }
}

/// Unescaping undoes escaping, and an escaped value neither begins with a quote
/// nor ends with one that the value does not end with.
proof fn lemma_unescape(v: Seq<char>)
    ensures
        replaced(escaped(v), seq!['\\', '"'], seq!['"']) == v,
        escaped(v).len() > 0 ==> escaped(v)[0] != '"',
        (escaped(v).len() > 0) == (v.len() > 0),
        v.len() > 0 ==> escaped(v).last() == v.last(),
        !v.contains('\n') ==> !escaped(v).contains('\n'),
    decreases v.len(),
{
    let e = escaped(v);
    let from = seq!['\\', '"'];
    lemma_replaced_step(e, from, seq!['"']);
    if v.len() > 0 {
        let r = v.skip(1);
        lemma_unescape(r);
        assert(v =~= seq![v[0]] + r);
        if v[0] == '"' {
            assert(e.subrange(0, 2) =~= from);
            assert(found_at(e, from, 0));
            assert(e.skip(2) =~= escaped(r));
        } else {
            assert(e.skip(1) =~= escaped(r));
            if found_at(e, from, 0) {
                assert(e.subrange(0, 2)[1] == from[1]);
                assert(e[1] == escaped(r)[0]);
            }
        }
        if r.len() > 0 {
            assert(e.last() == escaped(r).last());
            assert(v.last() == r.last());
        } else {
            assert(escaped(r) =~= Seq::empty());
        }
        if !v.contains('\n') {
            assert(!r.contains('\n')) by {
                if r.contains('\n') {
                    let k = choose|k: int| 0 <= k < r.len() && r[k] == '\n';
                    assert(v[k + 1] == '\n');
                }
            }
            assert(v[0] != '\n');
            if e.contains('\n') {
                let k = choose|k: int| 0 <= k < e.len() && e[k] == '\n';
                let front: int = if v[0] == '"' {
                    2
                } else {
                    1
                };
                assert(k >= front);
                assert(escaped(r)[k - front] == '\n');
            }
        }
    }
}

proof fn lemma_trim_nothing(s: Seq<char>)
    requires
        s.len() > 0,
        !is_space(s[0]),
        !is_space(s.last()),
    ensures
        trimmed(s) == s,
{
}

/// The keys that a marker file knows.
spec fn is_key(key: Seq<char>) -> bool {
    key == "tag"@ || key == "path"@ || key == "description"@
}

/// The line of a key is read as its value.
proof fn lemma_entry_line(m: MarkerView, key: Seq<char>, v: Seq<char>)
    requires
        is_key(key),
        fits_in_line(v),
    ensures
        with_line(m, key + " = \""@ + escape(v) + "\""@) == with_key(m, key, v),
        !(key + " = \""@ + escape(v) + "\""@).contains('\n'),
        (key + " = \""@ + escape(v) + "\""@).last() == '"',
{
    lemma_literals();
    lemma_escape(v);
    lemma_unescape(v);
    let e = escape(v);
    let line = key + " = \""@ + e + "\""@;
    let n = key.len() as int;
    assert(line.last() == '"');
    assert(forall|i: int| 0 <= i < n ==> line[i] == key[i]);
    assert(line[n] == ' ' && line[n + 1] == '=' && line[n + 2] == ' ' && line[n + 3] == '"');
    assert(forall|i: int| 0 <= i < n ==> #[trigger] key[i] != '=' && !is_space(key[i]));
    assert(!line.contains('\n')) by {
        if line.contains('\n') {
            let k = choose|k: int| 0 <= k < line.len() && line[k] == '\n';
            if k < n {
                assert(is_space(key[k]));
            } else if k >= n + 4 && k < n + 4 + e.len() {
                assert(e[k - n - 4] == '\n');
            }
        }
    }
    lemma_trim_nothing(line);
    // the cut
    let eq = seq!['='];
    assert(line.subrange(n + 1, n + 2) =~= eq);
    assert forall|j: int| 0 <= j < n + 1 implies !#[trigger] found_at(line, eq, j) by {
        if found_at(line, eq, j) {
            assert(line.subrange(j, j + 1)[0] == eq[0]);
            assert(line[j] == '=');
        }
    }
    lemma_first_at(line, eq, n + 1);
    let k = line.take(n + 1);
    let w = line.skip(n + 2);
    // the key
    assert(k =~= key.push(' '));
    let sp = |c: char| is_space(c);
    assert(drop_front(k, sp) == k);
    assert(k.drop_last() =~= key);
    assert(trimmed(k) == key) by {
        reveal_with_fuel(drop_back, 2);
    }
    // the value
    let q = seq!['"'] + e + seq!['"'];
    assert(w =~= seq![' '] + q);
    assert(w.skip(1) =~= q);
    assert(drop_front(w, sp) == q) by {
        reveal_with_fuel(drop_front, 2);
    }
    assert(trimmed(w) == q);
    let isq = is_char('"');
    let f = e + seq!['"'];
    assert(q.skip(1) =~= f);
    if e.len() > 0 {
        assert(f[0] == e[0]);
        assert(drop_front(q, isq) == f) by {
            reveal_with_fuel(drop_front, 2);
        }
        assert(f.drop_last() =~= e);
        assert(drop_back(f, isq) == e) by {
            reveal_with_fuel(drop_back, 2);
        }
    } else {
        assert(e =~= Seq::empty());
        assert(f.skip(1) =~= Seq::empty());
        assert(drop_front(q, isq) == Seq::<char>::empty()) by {
            reveal_with_fuel(drop_front, 3);
        }
        assert(drop_back(Seq::<char>::empty(), isq) == Seq::<char>::empty());
    }
    assert(unquoted(q) == v);
}

/// A text that is empty or ends with a line feed.
spec fn ended(s: Seq<char>) -> bool {
    s.len() > 0 ==> s.last() == '\n'
}

/// A line at the end of a text is read last.
proof fn lemma_line_is_read(s: Seq<char>, line: Seq<char>)
    requires
        ended(s),
        !line.contains('\n'),
        line.len() > 0,
        line.last() != '\r',
    ensures
        marker_of_text(s + line + seq!['\n']) == with_line(marker_of_text(s), line),
{
    let whole = s + line + seq!['\n'];
    lemma_pieces_nonempty(s, '\n');
    lemma_pieces_extend(s, line, '\n');
    assert(pieces(s, '\n').last() + line =~= line);
    assert(whole.drop_last() =~= s + line);
    assert(pieces(whole, '\n') == pieces(s + line, '\n').push(Seq::empty()));
    assert(pieces(whole, '\n').drop_last() =~= pieces(s, '\n').drop_last().push(line));
    assert(pieces(s, '\n').last().len() == 0);
    assert(lines_of(whole) =~= lines_of(s).push(line));
    assert(lines_of(whole).drop_last() =~= lines_of(s));
}

/// An entry at the end of a text is read last.
proof fn lemma_entry_is_read(s: Seq<char>, key: Seq<char>, value: Option<Seq<char>>)
    requires
        ended(s),
        is_key(key),
        fits(value),
    ensures
        marker_of_text(s + optional_entry(key, value)) == (match value {
            Some(v) => with_key(marker_of_text(s), key, v),
            None => marker_of_text(s),
        }),
        ended(s + optional_entry(key, value)),
{
    match value {
        Some(v) => {
            lemma_literals();
            lemma_entry_line(marker_of_text(s), key, v);
            let line = key + " = \""@ + escape(v) + "\""@;
            lemma_line_is_read(s, line);
            assert(s + entry(key, v) =~= s + line + seq!['\n']);
        },
        None => {
            assert(s + optional_entry(key, value) =~= s);
        },
    }
}

/// Reading the text of a marker gives the marker back, where each of its values
/// is one line and does not end with a quote.
pub proof fn law_marker_round_trip(m: MarkerView)
    requires
        fits(m.tag),
        fits(m.path),
        fits(m.description),
    ensures
        marker_of_text(marker_text(m)) == m,
{
    lemma_literals();
    let none = Seq::<char>::empty();
    assert(pieces(none, '\n') =~= seq![none]);
    assert(lines_of(none) =~= Seq::empty());
    lemma_entry_is_read(none, "tag"@, m.tag);
    let one = optional_entry("tag"@, m.tag);
    assert(none + one =~= one);
    lemma_entry_is_read(one, "path"@, m.path);
    let two = one + optional_entry("path"@, m.path);
    lemma_entry_is_read(two, "description"@, m.description);
    assert("tag"@[0] == 't' && "path"@[0] == 'p' && "description"@[0] == 'd');
}

/// A line with another key, or without `=`, changes nothing.
pub proof fn law_other_keys_are_ignored(m: MarkerView, line: Seq<char>)
    requires
        match cut_first(trimmed(line), "="@) {
            Some((k, _)) => trimmed(k) != "tag"@ && trimmed(k) != "path"@ && trimmed(k)
                != "description"@,
            None => true,
        },
    ensures
        with_line(m, line) == m,
{
}

/// Of two lines for one key the later counts, and a line changes no other key.
pub proof fn law_later_line_counts(m: MarkerView, first: Seq<char>, then: Seq<char>, other: Seq<char>)
    requires
        fits_in_line(first),
        fits_in_line(then),
        fits_in_line(other),
    ensures
        ({
            let line = |key: Seq<char>, v: Seq<char>| key + " = \""@ + escape(v) + "\""@;
            let one = with_line(m, line("tag"@, first));
            let two = with_line(one, line("path"@, other));
            let three = with_line(two, line("tag"@, then));
            &&& one == MarkerView { tag: Some(first), ..m }
            &&& two == MarkerView { path: Some(other), ..one }
            &&& three == MarkerView { tag: Some(then), ..two }
            &&& with_line(m, line("description"@, then)) == MarkerView {
                description: Some(then),
                ..m
            }
        }),
{
    lemma_literals();
    lemma_entry_line(m, "tag"@, first);
    lemma_entry_line(m, "description"@, then);
    let one = MarkerView { tag: Some(first), ..m };
    lemma_entry_line(one, "path"@, other);
    let two = MarkerView { path: Some(other), ..one };
    lemma_entry_line(two, "tag"@, then);
    assert("tag"@[0] == 't' && "path"@[0] == 'p' && "description"@[0] == 'd');
}

/// Blank lines and comments say nothing, and whitespace round a line makes no
/// difference.
pub proof fn law_comments_say_nothing(m: MarkerView, a: Seq<char>, line: Seq<char>, b: Seq<char>)
    requires
        forall|i: int| 0 <= i < a.len() ==> is_space(#[trigger] a[i]),
        forall|i: int| 0 <= i < b.len() ==> is_space(#[trigger] b[i]),
        line.len() > 0 ==> !is_space(line[0]) && !is_space(line.last()),
    ensures
        line.len() == 0 || line[0] == '#' ==> with_line(m, a + line + b) == m,
        with_line(m, a + line + b) == with_line(m, line),
{
    let none = Seq::<char>::empty();
    law_whitespace_is_trimmed(a, line, b);
    law_whitespace_is_trimmed(none, line, none);
    assert(none + line + none =~= line);
}

/// The nearest marker is the first one there is. One that cannot be read hides
/// those further out.
pub proof fn law_nearest_marker_is_found(probes: Seq<Probe>, k: int)
    requires
        0 <= k <= probes.len(),
        forall|j: int| 0 <= j < k ==> (#[trigger] probes[j]) is Absent,
    ensures
        k == probes.len() ==> nearest_from(probes, 0) is None,
        k < probes.len() && probes[k] is Unreadable ==> nearest_from(probes, 0) is None,
        k < probes.len() && probes[k] is Text ==> nearest_from(probes, 0) == Some(
            (k, marker_of_text(probes[k]->Text_0@)),
        ),
{
    lemma_nearest(probes, 0, k);
}

proof fn lemma_nearest(probes: Seq<Probe>, i: int, k: int)
    requires
        0 <= i <= k <= probes.len(),
        forall|j: int| i <= j < k ==> (#[trigger] probes[j]) is Absent,
    ensures
        nearest_from(probes, i) == nearest_from(probes, k),
    decreases k - i,
{
    if i < k {
        assert(probes[i] is Absent);
        lemma_nearest(probes, i + 1, k);
    }
}

/// The list of markers holds each that can be read once, in order, with what it
/// says, and no other.
pub proof fn law_all_markers_are_listed(probes: Seq<Probe>, k: int)
    requires
        0 <= k < probes.len(),
    ensures
        forall|a: int, b: int|
            0 <= a < b < all_markers(probes).len() ==> (#[trigger] all_markers(probes)[a]).0 < (
            #[trigger] all_markers(probes)[b]).0,
        forall|a: int|
            0 <= a < all_markers(probes).len() ==> {
                let (i, m) = #[trigger] all_markers(probes)[a];
                0 <= i < probes.len() && probes[i] is Text && m == marker_of_text(
                    probes[i]->Text_0@,
                )
            },
        probes[k] is Text ==> all_markers(probes).contains(
            (k, marker_of_text(probes[k]->Text_0@)),
        ),
    decreases probes.len(),
{
    let front = probes.drop_last();
    let before = all_markers(front);
    let all = all_markers(probes);
    if front.len() > 0 {
        law_all_markers_are_listed(
            front,
            if k < front.len() {
                k
            } else {
                0
            },
        );
    } else {
        assert(before.len() == 0);
    }
    assert forall|a: int| 0 <= a < all.len() implies ({
        let (i, m) = #[trigger] all[a];
        0 <= i < probes.len() && probes[i] is Text && m == marker_of_text(probes[i]->Text_0@)
    }) by {
        if a < before.len() {
            assert(all[a] == before[a]);
            assert(front[before[a].0] == probes[before[a].0]);
        }
    }
    assert forall|a: int, b: int| 0 <= a < b < all.len() implies (#[trigger] all[a]).0 < (
    #[trigger] all[b]).0 by {
        assert(all[a] == before[a]);
        if b < before.len() {
            assert(all[b] == before[b]);
        }
    }
    if probes[k] is Text {
        let e = (k, marker_of_text(probes[k]->Text_0@));
        if k < front.len() {
            assert(front[k] == probes[k]);
            let a = choose|a: int| 0 <= a < before.len() && before[a] == e;
            assert(all[a] == e);
        } else {
            assert(all[all.len() - 1] == e);
        }
    }
}

} // verus!
