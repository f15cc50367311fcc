//! What a server reads out of the query strings: every field of the request, and
//! nothing else.

use super::dto::{ListDocsReq, SearchReq};
use super::query::{
    changes_parameters, each_parameter, flag_text, grep_parameters,
    law_decoding_gives_the_text_back, law_encoded_value_is_plain, list_parameters,
    neighbors_parameters, number_parameter, optional_parameter, parameter, query_string,
    search_parameters, unreserved, url_decoded, url_encoded,
};
use crate::text::{
    decimal, is_digit, joined, lemma_decimal, lemma_split_joined,
    opt_view, pieces, text_u32, texts,
};
use vstd::prelude::*;

verus! {

// ── Reading a query string ──────────────────────────────────────────────────

/// What stands before the first `c` of a text, and what follows it.
pub open spec fn cut_at(s: Seq<char>, c: char) -> (Seq<char>, Seq<char>)
    decreases s.len(),
{
    if s.len() == 0 {
        (Seq::empty(), Seq::empty())
    } else if s[0] == c {
        (Seq::empty(), s.skip(1))
    } else {
        (seq![s[0]] + cut_at(s.skip(1), c).0, cut_at(s.skip(1), c).1)
    }
}

/// The parameters of a query string: what stands between the ampersands behind
/// the question mark.
pub open spec fn query_parts(q: Seq<char>) -> Seq<Seq<char>> {
    if q.len() == 0 {
        Seq::empty()
    } else {
        pieces(q.skip(1), '&')
    }
}

/// The values of the parameters with a name, in order and as they are written.
pub open spec fn values_in(parts: Seq<Seq<char>>, name: Seq<char>) -> Seq<Seq<char>>
    decreases parts.len(),
{
    if parts.len() == 0 {
        Seq::empty()
    } else {
        let rest = values_in(parts.drop_last(), name);
        let (n, v) = cut_at(parts.last(), '=');
        if n == name {
            rest.push(v)
        } else {
            rest
        }
    }
}

/// The texts that the parameters with a name stand for.
pub open spec fn read_texts(q: Seq<char>, name: Seq<char>) -> Seq<Option<Seq<char>>> {
    values_in(query_parts(q), name).map_values(|v: Seq<char>| url_decoded(v))
}

/// The numbers that the parameters with a name stand for.
pub open spec fn read_numbers(q: Seq<char>, name: Seq<char>) -> Seq<Option<u32>> {
    values_in(query_parts(q), name).map_values(|v: Seq<char>| text_u32(v))
}

/// The values, each of them there.
pub open spec fn each<T>(values: Seq<T>) -> Seq<Option<T>> {
    values.map_values(|v: T| Some(v))
}

/// The value where there is one.
pub open spec fn at_most_one<T>(value: Option<T>) -> Seq<Option<T>> {
    match value {
        Some(v) => seq![Some(v)],
        None => Seq::empty(),
    }
}

/// `key` is `name` with an equals sign behind it, and can be told from a value.
pub open spec fn is_key(key: Seq<char>, name: Seq<char>) -> bool {
    key == name.push('=') && !name.contains('=') && !name.contains('&')
}

// ── How it comes out ────────────────────────────────────────────────────────

proof fn lemma_cut(key: Seq<char>, name: Seq<char>, value: Seq<char>)
    requires
        is_key(key, name),
    ensures
        cut_at(key + value, '=') == (name, value),
    decreases name.len(),
{
    let s = key + value;
    if name.len() == 0 {
        assert(s[0] == '=');
        assert(s.skip(1) =~= value);
        assert(name =~= Seq::empty());
    } else {
        assert(name[0] != '=') by {
            assert(name.contains(name[0]));
        }
        let rest = name.skip(1);
        assert forall|c: char| rest.contains(c) implies name.contains(c) by {
            let k = choose|k: int| 0 <= k < rest.len() && rest[k] == c;
            assert(name[k + 1] == c);
        }
        lemma_cut(rest.push('='), rest, value);
        assert(s.skip(1) =~= rest.push('=') + value);
        assert(seq![name[0]] + rest =~= name);
    }
}

proof fn lemma_plain_value(s: Seq<char>)
    ensures
        !url_encoded(s).contains('&'),
{
    law_encoded_value_is_plain(s);
    if url_encoded(s).contains('&') {
        let i = choose|i: int| 0 <= i < url_encoded(s).len() && url_encoded(s)[i] == '&';
        assert(url_encoded(s)[i] == '%' || exists|b: u8|
            unreserved(b) && url_encoded(s)[i] == b as char);
    }
}

proof fn lemma_number_value(n: u32)
    ensures
        !decimal(n as nat).contains('&'),
        text_u32(decimal(n as nat)) == Some(n),
{
    let d = decimal(n as nat);
    lemma_decimal(n as nat);
    assert(is_digit(d[0]));
    if d.contains('&') {
        let i = choose|i: int| 0 <= i < d.len() && d[i] == '&';
        assert(is_digit(d[i]));
    }
}

/// No parameter holds an ampersand.
pub open spec fn apart(parts: Seq<Seq<char>>) -> bool {
    forall|i: int| 0 <= i < parts.len() ==> !#[trigger] parts[i].contains('&')
}

proof fn lemma_no_amp(key: Seq<char>, name: Seq<char>, value: Seq<char>)
    requires
        is_key(key, name),
        !value.contains('&'),
    ensures
        !(key + value).contains('&'),
{
    let s = key + value;
    if s.contains('&') {
        let i = choose|i: int| 0 <= i < s.len() && s[i] == '&';
        if i < name.len() {
            assert(name[i] == '&');
        } else if i > name.len() {
            assert(value[i - key.len()] == '&');
        }
    }
}

proof fn lemma_values_add(a: Seq<Seq<char>>, b: Seq<Seq<char>>, name: Seq<char>)
    ensures
        values_in(a + b, name) == values_in(a, name) + values_in(b, name),
    decreases b.len(),
{
    if b.len() == 0 {
        assert(a + b =~= a);
        assert(values_in(a, name) + values_in(b, name) =~= values_in(a, name));
    } else {
        lemma_values_add(a, b.drop_last(), name);
        assert((a + b).drop_last() =~= a + b.drop_last());
        assert((a + b).last() == b.last());
        assert(values_in(a + b, name) =~= values_in(a, name) + values_in(b, name));
    }
}

proof fn lemma_one(key: Seq<char>, name: Seq<char>, value: Seq<char>, asked: Seq<char>)
    requires
        is_key(key, name),
        !value.contains('&'),
    ensures
        values_in(seq![key + value], asked) == (if asked == name {
            seq![value]
        } else {
            Seq::empty()
        }),
        apart(seq![key + value]),
{
    lemma_cut(key, name, value);
    lemma_no_amp(key, name, value);
    let one = seq![key + value];
    assert(one.drop_last() =~= Seq::empty());
    assert(one.last() == key + value);
    let none = values_in(one.drop_last(), asked);
    assert(none =~= Seq::empty());
    if asked == name {
        assert(none.push(value) =~= seq![value]);
    }
}

proof fn lemma_each(key: Seq<char>, name: Seq<char>, values: Seq<Seq<char>>, asked: Seq<char>)
    requires
        is_key(key, name),
    ensures
        values_in(each_parameter(key, values), asked) == (if asked == name {
            values.map_values(|v: Seq<char>| url_encoded(v))
        } else {
            Seq::empty()
        }),
        apart(each_parameter(key, values)),
    decreases values.len(),
{
    let all = each_parameter(key, values);
    if values.len() == 0 {
        assert(values_in(all, asked) =~= Seq::<Seq<char>>::empty());
        assert(values.map_values(|v: Seq<char>| url_encoded(v)) =~= Seq::<Seq<char>>::empty());
    } else {
        let front = values.drop_last();
        let v = values.last();
        lemma_each(key, name, front, asked);
        lemma_plain_value(v);
        lemma_one(key, name, url_encoded(v), asked);
        lemma_cut(key, name, url_encoded(v));
        assert(all.drop_last() =~= each_parameter(key, front));
        assert(all.last() == key + url_encoded(v));
        assert(apart(all)) by {
            assert forall|i: int| 0 <= i < all.len() implies !#[trigger] all[i].contains('&') by {
                if i < front.len() {
                    assert(each_parameter(key, front)[i] == all[i]);
                } else {
                    assert(seq![key + url_encoded(v)][0] == all[i]);
                }
            }
        }
        let f = |v: Seq<char>| url_encoded(v);
        assert(values.map_values(f) =~= front.map_values(f).push(url_encoded(v)));
    }
}

proof fn lemma_optional(key: Seq<char>, name: Seq<char>, value: Option<Seq<char>>, asked: Seq<char>)
    requires
        is_key(key, name),
    ensures
        values_in(optional_parameter(key, value), asked) == (match value {
            Some(v) => if asked == name {
                seq![url_encoded(v)]
            } else {
                Seq::empty()
            },
            None => Seq::empty(),
        }),
        apart(optional_parameter(key, value)),
{
    if let Some(v) = value {
        lemma_plain_value(v);
        lemma_one(key, name, url_encoded(v), asked);
    }
}

proof fn lemma_number(key: Seq<char>, name: Seq<char>, value: Option<u32>, asked: Seq<char>)
    requires
        is_key(key, name),
    ensures
        values_in(number_parameter(key, value), asked) == (match value {
            Some(n) => if asked == name {
                seq![decimal(n as nat)]
            } else {
                Seq::empty()
            },
            None => Seq::empty(),
        }),
        apart(number_parameter(key, value)),
{
    if let Some(n) = value {
        lemma_number_value(n);
        lemma_one(key, name, decimal(n as nat), asked);
    }
}

proof fn lemma_apart_add(a: Seq<Seq<char>>, b: Seq<Seq<char>>)
    requires
        apart(a),
        apart(b),
    ensures
        apart(a + b),
{
}

/// A query string is taken apart into its parameters.
proof fn lemma_parts(params: Seq<Seq<char>>)
    requires
        apart(params),
    ensures
        query_parts(query_string(params)) == params,
        params.len() > 0 ==> query_string(params)[0] == '?',
{
    reveal_strlit("?");
    reveal_strlit("&");
    if params.len() > 0 {
        assert("&"@ =~= seq!['&']);
        lemma_split_joined(params, '&');
        let q = query_string(params);
        assert(q.skip(1) =~= joined(params, seq!['&']));
    } else {
        assert(params =~= Seq::empty());
    }
}

proof fn lemma_read_one(v: Seq<char>)
    ensures
        seq![url_encoded(v)].map_values(|x: Seq<char>| url_decoded(x)) == seq![Some(v)],
{
    law_decoding_gives_the_text_back(v);
    assert(seq![url_encoded(v)].map_values(|x: Seq<char>| url_decoded(x)) =~= seq![Some(v)]);
}

proof fn lemma_read_each(values: Seq<Seq<char>>)
    ensures
        values.map_values(|v: Seq<char>| url_encoded(v)).map_values(
            |x: Seq<char>| url_decoded(x),
        ) == each(values),
{
    let read = values.map_values(|v: Seq<char>| url_encoded(v)).map_values(
        |x: Seq<char>| url_decoded(x),
    );
    assert forall|i: int| 0 <= i < values.len() implies #[trigger] read[i] == each(values)[i] by {
        law_decoding_gives_the_text_back(values[i]);
    }
    assert(read =~= each(values));
}

proof fn lemma_read_number(n: u32)
    ensures
        seq![decimal(n as nat)].map_values(|x: Seq<char>| text_u32(x)) == seq![Some(n)],
{
    lemma_number_value(n);
    assert(seq![decimal(n as nat)].map_values(|x: Seq<char>| text_u32(x)) =~= seq![Some(n)]);
}

proof fn lemma_keys()
    ensures
        is_key("q="@, "q"@),
        is_key("k="@, "k"@),
        is_key("kind="@, "kind"@),
        is_key("tag="@, "tag"@),
        is_key("limit="@, "limit"@),
        is_key("prefix="@, "prefix"@),
        is_key("memoryType="@, "memoryType"@),
        is_key("asOf="@, "asOf"@),
        is_key("pattern="@, "pattern"@),
        is_key("caseSensitive="@, "caseSensitive"@),
        is_key("idOrPath="@, "idOrPath"@),
        is_key("since="@, "since"@),
        "q"@.len() == 1 && "k"@.len() == 1 && "q"@ != "k"@,
        "tag"@.len() == 3,
        "kind"@.len() == 4 && "asOf"@.len() == 4 && "kind"@ != "asOf"@,
        "limit"@.len() == 5 && "since"@.len() == 5 && "limit"@ != "since"@,
        "prefix"@.len() == 6,
        "pattern"@.len() == 7,
        "idOrPath"@.len() == 8,
        "memoryType"@.len() == 10,
        "caseSensitive"@.len() == 13,
{
    reveal_strlit("q=");
    reveal_strlit("q");
    reveal_strlit("k=");
    reveal_strlit("k");
    reveal_strlit("kind=");
    reveal_strlit("kind");
    reveal_strlit("tag=");
    reveal_strlit("tag");
    reveal_strlit("limit=");
    reveal_strlit("limit");
    reveal_strlit("prefix=");
    reveal_strlit("prefix");
    reveal_strlit("memoryType=");
    reveal_strlit("memoryType");
    reveal_strlit("asOf=");
    reveal_strlit("asOf");
    reveal_strlit("pattern=");
    reveal_strlit("pattern");
    reveal_strlit("caseSensitive=");
    reveal_strlit("caseSensitive");
    reveal_strlit("idOrPath=");
    reveal_strlit("idOrPath");
    reveal_strlit("since=");
    reveal_strlit("since");
    assert("q="@ =~= "q"@.push('='));
    assert("k="@ =~= "k"@.push('='));
    assert("kind="@ =~= "kind"@.push('='));
    assert("tag="@ =~= "tag"@.push('='));
    assert("limit="@ =~= "limit"@.push('='));
    assert("prefix="@ =~= "prefix"@.push('='));
    assert("memoryType="@ =~= "memoryType"@.push('='));
    assert("asOf="@ =~= "asOf"@.push('='));
    assert("pattern="@ =~= "pattern"@.push('='));
    assert("caseSensitive="@ =~= "caseSensitive"@.push('='));
    assert("idOrPath="@ =~= "idOrPath"@.push('='));
    assert("since="@ =~= "since"@.push('='));
    assert("q"@[0] == 'q' && "k"@[0] == 'k');
    assert("kind"@[0] == 'k' && "asOf"@[0] == 'a');
    assert("limit"@[0] == 'l' && "since"@[0] == 's');
}

// ── Laws ────────────────────────────────────────────────────────────────────

/// What is sent for a search can be read back: the query, how many results are
/// wanted, each of the kinds in order, the memory type and the date, and nothing
/// else.
pub proof fn law_search_query_is_read_back(req: SearchReq)
    ensures
        ({
            let q = query_string(search_parameters(req));
            &&& q.len() > 0 && q[0] == '?'
            &&& read_texts(q, "q"@) == seq![Some(req.q@)]
            &&& read_numbers(q, "k"@) == at_most_one(req.k)
            &&& read_texts(q, "kind"@) == each(texts(req.kind@))
            &&& read_texts(q, "memoryType"@) == at_most_one(opt_view(req.memory_type))
            &&& read_texts(q, "asOf"@) == at_most_one(opt_view(req.as_of))
            &&& query_parts(q).len() == 1 + at_most_one(req.k).len() + req.kind@.len()
                + at_most_one(opt_view(req.memory_type)).len() + at_most_one(
                opt_view(req.as_of),
            ).len()
        }),
{
    lemma_keys();
    let a = seq![parameter("q="@, req.q@)];
    let b = number_parameter("k="@, req.k);
    let c = each_parameter("kind="@, texts(req.kind@));
    let d = optional_parameter("memoryType="@, opt_view(req.memory_type));
    let e = optional_parameter("asOf="@, opt_view(req.as_of));
    let all = a + b + c + d + e;
    assert(all == search_parameters(req));
    lemma_plain_value(req.q@);
    lemma_one("q="@, "q"@, url_encoded(req.q@), "q"@);
    lemma_number("k="@, "k"@, req.k, "k"@);
    lemma_each("kind="@, "kind"@, texts(req.kind@), "kind"@);
    lemma_optional("memoryType="@, "memoryType"@, opt_view(req.memory_type), "memoryType"@);
    lemma_optional("asOf="@, "asOf"@, opt_view(req.as_of), "asOf"@);
    lemma_apart_add(a, b);
    lemma_apart_add(a + b, c);
    lemma_apart_add(a + b + c, d);
    lemma_apart_add(a + b + c + d, e);
    lemma_parts(all);
    assert forall|n: Seq<char>| #[trigger] values_in(all, n) == values_in(a, n) + values_in(b, n)
        + values_in(c, n) + values_in(d, n) + values_in(e, n) by {
        lemma_values_add(a, b, n);
        lemma_values_add(a + b, c, n);
        lemma_values_add(a + b + c, d, n);
        lemma_values_add(a + b + c + d, e, n);
    }
    assert forall|n: Seq<char>| n != "q"@ implies #[trigger] values_in(a, n).len() == 0 by {
        lemma_one("q="@, "q"@, url_encoded(req.q@), n);
    }
    assert forall|n: Seq<char>| n != "k"@ implies #[trigger] values_in(b, n).len() == 0 by {
        lemma_number("k="@, "k"@, req.k, n);
    }
    assert forall|n: Seq<char>| n != "kind"@ implies #[trigger] values_in(c, n).len() == 0 by {
        lemma_each("kind="@, "kind"@, texts(req.kind@), n);
    }
    assert forall|n: Seq<char>| n != "memoryType"@ implies #[trigger] values_in(d, n).len() == 0 by {
        lemma_optional("memoryType="@, "memoryType"@, opt_view(req.memory_type), n);
    }
    assert forall|n: Seq<char>| n != "asOf"@ implies #[trigger] values_in(e, n).len() == 0 by {
        lemma_optional("asOf="@, "asOf"@, opt_view(req.as_of), n);
    }
    assert(values_in(all, "q"@) =~= values_in(a, "q"@));
    assert(values_in(all, "k"@) =~= values_in(b, "k"@));
    assert(values_in(all, "kind"@) =~= values_in(c, "kind"@));
    assert(values_in(all, "memoryType"@) =~= values_in(d, "memoryType"@));
    assert(values_in(all, "asOf"@) =~= values_in(e, "asOf"@));
    lemma_read_one(req.q@);
    lemma_read_at_most_one(opt_view(req.memory_type), values_in(d, "memoryType"@));
    lemma_read_at_most_one(opt_view(req.as_of), values_in(e, "asOf"@));
    lemma_read_number_at_most(req.k, values_in(b, "k"@));
    lemma_read_each(texts(req.kind@));
}

proof fn lemma_read_at_most_one(value: Option<Seq<char>>, values: Seq<Seq<char>>)
    requires
        values == (match value {
            Some(v) => seq![url_encoded(v)],
            None => Seq::empty(),
        }),
    ensures
        values.map_values(|x: Seq<char>| url_decoded(x)) == at_most_one(value),
{
    match value {
        Some(v) => lemma_read_one(v),
        None => {
            assert(values.map_values(|x: Seq<char>| url_decoded(x)) =~= at_most_one(value));
        },
    }
}

proof fn lemma_read_number_at_most(value: Option<u32>, values: Seq<Seq<char>>)
    requires
        values == (match value {
            Some(n) => seq![decimal(n as nat)],
            None => Seq::empty(),
        }),
    ensures
        values.map_values(|x: Seq<char>| text_u32(x)) == at_most_one(value),
{
    match value {
        Some(n) => lemma_read_number(n),
        None => {
            assert(values.map_values(|x: Seq<char>| text_u32(x)) =~= at_most_one(value));
        },
    }
}

proof fn lemma_each_loses_nothing(a: Seq<Seq<char>>, b: Seq<Seq<char>>)
    requires
        each(a) == each(b),
    ensures
        a == b,
{
    assert(each(a).len() == a.len() && each(b).len() == b.len());
    assert forall|i: int| 0 <= i < a.len() implies a[i] == b[i] by {
        assert(each(a)[i] == Some(a[i]));
        assert(each(b)[i] == Some(b[i]));
    }
    assert(a =~= b);
}

proof fn lemma_at_most_one_loses_nothing<T>(a: Option<T>, b: Option<T>)
    requires
        at_most_one(a) == at_most_one(b),
    ensures
        a == b,
{
    let x = at_most_one(a);
    let y = at_most_one(b);
    assert(x.len() == y.len());
    if let Some(v) = a {
        assert(x[0] == Some(v));
        assert(b is Some);
        assert(y[0] == Some(b->0));
    }
}

/// Two searches that are sent alike ask for the same.
pub proof fn law_search_query_loses_nothing(a: SearchReq, b: SearchReq)
    requires
        query_string(search_parameters(a)) == query_string(search_parameters(b)),
    ensures
        a.q@ == b.q@,
        a.k == b.k,
        texts(a.kind@) == texts(b.kind@),
        opt_view(a.memory_type) == opt_view(b.memory_type),
        opt_view(a.as_of) == opt_view(b.as_of),
{
    law_search_query_is_read_back(a);
    law_search_query_is_read_back(b);
    assert(seq![Some(a.q@)][0] == seq![Some(b.q@)][0]);
    lemma_at_most_one_loses_nothing(a.k, b.k);
    lemma_each_loses_nothing(texts(a.kind@), texts(b.kind@));
    lemma_at_most_one_loses_nothing(opt_view(a.memory_type), opt_view(b.memory_type));
    lemma_at_most_one_loses_nothing(opt_view(a.as_of), opt_view(b.as_of));
}

/// What is sent for a listing can be read back: the prefix, each of the kinds and
/// tags in order and the limit, and nothing else.
pub proof fn law_list_query_is_read_back(req: ListDocsReq)
    ensures
        ({
            let q = query_string(list_parameters(req));
            &&& q.len() > 0 ==> q[0] == '?'
            &&& read_texts(q, "prefix"@) == at_most_one(opt_view(req.prefix))
            &&& read_texts(q, "kind"@) == each(texts(req.kind@))
            &&& read_texts(q, "tag"@) == each(texts(req.tag@))
            &&& read_numbers(q, "limit"@) == at_most_one(req.limit)
            &&& query_parts(q).len() == at_most_one(opt_view(req.prefix)).len() + req.kind@.len()
                + req.tag@.len() + at_most_one(req.limit).len()
        }),
{
    lemma_keys();
    let a = optional_parameter("prefix="@, opt_view(req.prefix));
    let b = each_parameter("kind="@, texts(req.kind@));
    let c = each_parameter("tag="@, texts(req.tag@));
    let d = number_parameter("limit="@, req.limit);
    let all = a + b + c + d;
    assert(all == list_parameters(req));
    lemma_optional("prefix="@, "prefix"@, opt_view(req.prefix), "prefix"@);
    lemma_each("kind="@, "kind"@, texts(req.kind@), "kind"@);
    lemma_each("tag="@, "tag"@, texts(req.tag@), "tag"@);
    lemma_number("limit="@, "limit"@, req.limit, "limit"@);
    lemma_apart_add(a, b);
    lemma_apart_add(a + b, c);
    lemma_apart_add(a + b + c, d);
    lemma_parts(all);
    assert forall|n: Seq<char>| #[trigger] values_in(all, n) == values_in(a, n) + values_in(b, n)
        + values_in(c, n) + values_in(d, n) by {
        lemma_values_add(a, b, n);
        lemma_values_add(a + b, c, n);
        lemma_values_add(a + b + c, d, n);
    }
    assert forall|n: Seq<char>| n != "prefix"@ implies #[trigger] values_in(a, n).len() == 0 by {
        lemma_optional("prefix="@, "prefix"@, opt_view(req.prefix), n);
    }
    assert forall|n: Seq<char>| n != "kind"@ implies #[trigger] values_in(b, n).len() == 0 by {
        lemma_each("kind="@, "kind"@, texts(req.kind@), n);
    }
    assert forall|n: Seq<char>| n != "tag"@ implies #[trigger] values_in(c, n).len() == 0 by {
        lemma_each("tag="@, "tag"@, texts(req.tag@), n);
    }
    assert forall|n: Seq<char>| n != "limit"@ implies #[trigger] values_in(d, n).len() == 0 by {
        lemma_number("limit="@, "limit"@, req.limit, n);
    }
    assert(values_in(all, "prefix"@) =~= values_in(a, "prefix"@));
    assert(values_in(all, "kind"@) =~= values_in(b, "kind"@));
    assert(values_in(all, "tag"@) =~= values_in(c, "tag"@));
    assert(values_in(all, "limit"@) =~= values_in(d, "limit"@));
    lemma_read_at_most_one(opt_view(req.prefix), values_in(a, "prefix"@));
    lemma_read_number_at_most(req.limit, values_in(d, "limit"@));
    lemma_read_each(texts(req.kind@));
    lemma_read_each(texts(req.tag@));
}

/// Two listings that are sent alike ask for the same.
pub proof fn law_list_query_loses_nothing(a: ListDocsReq, b: ListDocsReq)
    requires
        query_string(list_parameters(a)) == query_string(list_parameters(b)),
    ensures
        opt_view(a.prefix) == opt_view(b.prefix),
        texts(a.kind@) == texts(b.kind@),
        texts(a.tag@) == texts(b.tag@),
        a.limit == b.limit,
{
    law_list_query_is_read_back(a);
    law_list_query_is_read_back(b);
    lemma_at_most_one_loses_nothing(opt_view(a.prefix), opt_view(b.prefix));
    lemma_each_loses_nothing(texts(a.kind@), texts(b.kind@));
    lemma_each_loses_nothing(texts(a.tag@), texts(b.tag@));
    lemma_at_most_one_loses_nothing(a.limit, b.limit);
}

/// What is sent for a regex scan can be read back: the pattern, whether case
/// matters and the limit, and nothing else.
pub proof fn law_grep_query_is_read_back(pattern: Seq<char>, case_sensitive: bool, limit: Option<u32>)
    ensures
        ({
            let q = query_string(grep_parameters(pattern, case_sensitive, limit));
            &&& q.len() > 0 && q[0] == '?'
            &&& read_texts(q, "pattern"@) == seq![Some(pattern)]
            &&& values_in(query_parts(q), "caseSensitive"@) == seq![
                if case_sensitive {
                    "true"@
                } else {
                    "false"@
                },
            ]
            &&& read_numbers(q, "limit"@) == at_most_one(limit)
            &&& query_parts(q).len() == 2 + at_most_one(limit).len()
        }),
{
    lemma_keys();
    reveal_strlit("true");
    reveal_strlit("false");
    let flag = flag_text(case_sensitive);
    let a = seq![parameter("pattern="@, pattern)];
    let b = seq!["caseSensitive="@ + flag];
    let c = number_parameter("limit="@, limit);
    let all = a + b + c;
    assert(grep_parameters(pattern, case_sensitive, limit) =~= all);
    lemma_plain_value(pattern);
    assert(!flag.contains('&'));
    lemma_one("pattern="@, "pattern"@, url_encoded(pattern), "pattern"@);
    lemma_one("caseSensitive="@, "caseSensitive"@, flag, "caseSensitive"@);
    lemma_number("limit="@, "limit"@, limit, "limit"@);
    lemma_apart_add(a, b);
    lemma_apart_add(a + b, c);
    lemma_parts(all);
    assert forall|n: Seq<char>| #[trigger] values_in(all, n) == values_in(a, n) + values_in(b, n)
        + values_in(c, n) by {
        lemma_values_add(a, b, n);
        lemma_values_add(a + b, c, n);
    }
    assert forall|n: Seq<char>| n != "pattern"@ implies #[trigger] values_in(a, n).len() == 0 by {
        lemma_one("pattern="@, "pattern"@, url_encoded(pattern), n);
    }
    assert forall|n: Seq<char>| n != "caseSensitive"@ implies #[trigger] values_in(b, n).len()
        == 0 by {
        lemma_one("caseSensitive="@, "caseSensitive"@, flag, n);
    }
    assert forall|n: Seq<char>| n != "limit"@ implies #[trigger] values_in(c, n).len() == 0 by {
        lemma_number("limit="@, "limit"@, limit, n);
    }
    assert(values_in(all, "pattern"@) =~= values_in(a, "pattern"@));
    assert(values_in(all, "caseSensitive"@) =~= values_in(b, "caseSensitive"@));
    assert(values_in(all, "limit"@) =~= values_in(c, "limit"@));
    lemma_read_one(pattern);
    lemma_read_number_at_most(limit, values_in(c, "limit"@));
}

/// What is sent for the neighbors of a document can be read back: which document
/// it is and the limit, and nothing else.
pub proof fn law_neighbors_query_is_read_back(id_or_path: Seq<char>, limit: Option<u32>)
    ensures
        ({
            let q = query_string(neighbors_parameters(id_or_path, limit));
            &&& q.len() > 0 && q[0] == '?'
            &&& read_texts(q, "idOrPath"@) == seq![Some(id_or_path)]
            &&& read_numbers(q, "limit"@) == at_most_one(limit)
            &&& query_parts(q).len() == 1 + at_most_one(limit).len()
        }),
{
    lemma_keys();
    let a = seq![parameter("idOrPath="@, id_or_path)];
    let b = number_parameter("limit="@, limit);
    let all = a + b;
    lemma_plain_value(id_or_path);
    lemma_one("idOrPath="@, "idOrPath"@, url_encoded(id_or_path), "idOrPath"@);
    lemma_one("idOrPath="@, "idOrPath"@, url_encoded(id_or_path), "limit"@);
    lemma_number("limit="@, "limit"@, limit, "limit"@);
    lemma_number("limit="@, "limit"@, limit, "idOrPath"@);
    lemma_apart_add(a, b);
    lemma_parts(all);
    lemma_values_add(a, b, "idOrPath"@);
    lemma_values_add(a, b, "limit"@);
    assert(values_in(all, "idOrPath"@) =~= values_in(a, "idOrPath"@));
    assert(values_in(all, "limit"@) =~= values_in(b, "limit"@));
    lemma_read_one(id_or_path);
    lemma_read_number_at_most(limit, values_in(b, "limit"@));
}

/// What is sent for a page of the changes feed can be read back: the cursor where
/// there is one and the page size, and nothing else.
pub proof fn law_changes_query_is_read_back(since: Option<Seq<char>>, limit: Option<u32>)
    ensures
        ({
            let q = query_string(changes_parameters(since, limit));
            &&& q.len() > 0 ==> q[0] == '?'
            &&& read_texts(q, "since"@) == at_most_one(since)
            &&& read_numbers(q, "limit"@) == at_most_one(limit)
            &&& query_parts(q).len() == at_most_one(since).len() + at_most_one(limit).len()
        }),
{
    lemma_keys();
    let a = optional_parameter("since="@, since);
    let b = number_parameter("limit="@, limit);
    let all = a + b;
    lemma_optional("since="@, "since"@, since, "since"@);
    lemma_optional("since="@, "since"@, since, "limit"@);
    lemma_number("limit="@, "limit"@, limit, "limit"@);
    lemma_number("limit="@, "limit"@, limit, "since"@);
    lemma_apart_add(a, b);
    lemma_parts(all);
    lemma_values_add(a, b, "since"@);
    lemma_values_add(a, b, "limit"@);
    assert(values_in(all, "since"@) =~= values_in(a, "since"@));
    assert(values_in(all, "limit"@) =~= values_in(b, "limit"@));
    lemma_read_at_most_one(since, values_in(a, "since"@));
    lemma_read_number_at_most(limit, values_in(b, "limit"@));
}

/// A query string with a single parameter.
pub proof fn lemma_parts_of_one(key: Seq<char>, name: Seq<char>, value: Seq<char>)
    requires
        is_key(key, name),
    ensures
        query_parts(seq!['?'] + (key + url_encoded(value))) == seq![key + url_encoded(value)],
        read_texts(seq!['?'] + (key + url_encoded(value)), name) == seq![Some(value)],
{
    lemma_plain_value(value);
    let one = seq![key + url_encoded(value)];
    lemma_one(key, name, url_encoded(value), name);
    lemma_parts(one);
    reveal_strlit("?");
    assert("?"@ =~= seq!['?']);
    assert(query_string(one) =~= seq!['?'] + (key + url_encoded(value)));
    lemma_read_one(value);
}

} // verus!
