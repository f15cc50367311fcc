//! Percent-encoding, and the query strings of the API's requests.

use super::dto::{ListDocsReq, SearchReq};
use crate::text::{copy_text, decimal, join, joined, opt_str_view, opt_view, own_opt, print_nat, texts};
use vstd::prelude::*;
use vstd::utf8::{decode_utf8, encode_utf8, valid_utf8};

verus! {

// ── Percent-encoding ────────────────────────────────────────────────────────

/// A byte that a query value holds as it is: an ASCII letter or digit, or one of
/// `-`, `_`, `.` and `~`.
pub open spec fn unreserved(b: u8) -> bool {
    65 <= b <= 90 || 97 <= b <= 122 || 48 <= b <= 57 || b == 45 || b == 95 || b == 46 || b == 126
}

/// The hexadecimal digit for a number below sixteen, in upper case.
pub open spec fn hex_digit(n: int) -> char {
    if n < 10 {
        (48 + n) as char
    } else {
        (55 + n) as char
    }
}

/// How one byte of a value is written.
pub open spec fn encoded_byte(b: u8) -> Seq<char> {
    if unreserved(b) {
        seq![b as char]
    } else {
        seq!['%', hex_digit(b as int / 16), hex_digit(b as int % 16)]
    }
}

/// How the bytes of a value are written, one after the other.
pub open spec fn encoded_bytes(bytes: Seq<u8>) -> Seq<char>
    decreases bytes.len(),
{
    if bytes.len() == 0 {
        Seq::empty()
    } else {
        encoded_bytes(bytes.drop_last()) + encoded_byte(bytes.last())
    }
}

/// A text as a query value: its UTF-8 bytes, percent-encoded.
pub open spec fn url_encoded(s: Seq<char>) -> Seq<char> {
    encoded_bytes(encode_utf8(s))
}

fn hex_char(n: u8) -> (r: char)
    requires
        n < 16,
    ensures
        r == hex_digit(n as int),
{
    if n < 10 {
        (48 + n) as char
    } else {
        (55 + n) as char
    }
}

/// URL-encodes a string value for query parameters.
pub fn urlencoding(s: &str) -> (r: String)
    ensures
        r@ == url_encoded(s@),
{
    let bytes = s.as_bytes();
    let mut out = String::new();
    let mut i: usize = 0;
    assert(bytes@.take(0) =~= Seq::empty());
    assert(out@ =~= Seq::empty());
    while i < bytes.len()
        invariant
            i <= bytes@.len(),
            bytes@ == encode_utf8(s@),
            out@ == encoded_bytes(bytes@.take(i as int)),
        decreases bytes@.len() - i,
    {
        let b: u8 = bytes[i];
        let ghost before = out@;
        assert(bytes@.take(i + 1).drop_last() =~= bytes@.take(i as int));
        if (65 <= b && b <= 90) || (97 <= b && b <= 122) || (48 <= b && b <= 57) || b == 45 || b
            == 95 || b == 46 || b == 126 {
            out.push(b as char);
            assert(out@ =~= before + encoded_byte(b));
        } else {
            out.push('%');
            out.push(hex_char(b / 16));
            out.push(hex_char(b % 16));
            assert(out@ =~= before + encoded_byte(b));
        }
        i += 1;
    }
    assert(bytes@.take(bytes@.len() as int) =~= bytes@);
    out
}

proof fn lemma_encoded_front(bytes: Seq<u8>)
    requires
        bytes.len() > 0,
    ensures
        encoded_bytes(bytes) == encoded_byte(bytes[0]) + encoded_bytes(bytes.skip(1)),
    decreases bytes.len(),
{
    if bytes.len() == 1 {
        assert(bytes.drop_last() =~= Seq::empty());
        assert(bytes.skip(1) =~= Seq::empty());
        assert(encoded_bytes(bytes) =~= encoded_byte(bytes[0]) + encoded_bytes(bytes.skip(1)));
    } else {
        lemma_encoded_front(bytes.drop_last());
        assert(bytes.drop_last().skip(1) =~= bytes.skip(1).drop_last());
        assert(encoded_bytes(bytes) =~= encoded_byte(bytes[0]) + encoded_bytes(bytes.skip(1)));
    }
}

/// A percent-encoded value holds only unreserved characters and `%`, so it can
/// not end the parameter that it stands in.
pub proof fn law_encoded_value_is_plain(s: Seq<char>)
    ensures
        forall|i: int|
            0 <= i < url_encoded(s).len() ==> (#[trigger] url_encoded(s)[i] == '%' || exists|b: u8|
                unreserved(b) && url_encoded(s)[i] == b as char),
{
    lemma_plain(encode_utf8(s));
}

proof fn lemma_plain(bytes: Seq<u8>)
    ensures
        forall|i: int|
            0 <= i < encoded_bytes(bytes).len() ==> (#[trigger] encoded_bytes(bytes)[i] == '%'
                || exists|b: u8| unreserved(b) && encoded_bytes(bytes)[i] == b as char),
    decreases bytes.len(),
{
    if bytes.len() > 0 {
        lemma_plain(bytes.drop_last());
        let front = encoded_bytes(bytes.drop_last());
        let b = bytes.last();
        assert forall|i: int| 0 <= i < encoded_bytes(bytes).len() implies (#[trigger] encoded_bytes(
            bytes,
        )[i] == '%' || exists|x: u8| unreserved(x) && encoded_bytes(bytes)[i] == x as char) by {
            if i < front.len() {
                assert(encoded_bytes(bytes)[i] == front[i]);
            } else {
                let k = i - front.len();
                assert(encoded_bytes(bytes)[i] == encoded_byte(b)[k]);
                if unreserved(b) {
                    assert(unreserved(b) && encoded_bytes(bytes)[i] == b as char);
                } else if k > 0 {
                    let d = if k == 1 {
                        b as int / 16
                    } else {
                        b as int % 16
                    };
                    let x: u8 = if d < 10 {
                        (48 + d) as u8
                    } else {
                        (55 + d) as u8
                    };
                    assert(unreserved(x) && encoded_bytes(bytes)[i] == x as char);
                }
            }
        }
    }
}

/// The digit that a hexadecimal character stands for, in either case.
pub open spec fn hex_value(c: char) -> Option<int> {
    if '0' <= c <= '9' {
        Some(c as int - 48)
    } else if 'A' <= c <= 'F' {
        Some(c as int - 55)
    } else if 'a' <= c <= 'f' {
        Some(c as int - 87)
    } else {
        None
    }
}

/// The bytes that a percent-encoded value stands for: `%` and two hexadecimal
/// digits are one byte, and every other ASCII character is itself.
pub open spec fn percent_decoded(s: Seq<char>) -> Option<Seq<u8>>
    decreases s.len(),
{
    if s.len() == 0 {
        Some(Seq::empty())
    } else if s[0] == '%' {
        if s.len() < 3 {
            None
        } else {
            match (hex_value(s[1]), hex_value(s[2]), percent_decoded(s.skip(3))) {
                (Some(hi), Some(lo), Some(rest)) => Some(seq![(16 * hi + lo) as u8] + rest),
                _ => None,
            }
        }
    } else if s[0] as int <= 127 {
        match percent_decoded(s.skip(1)) {
            Some(rest) => Some(seq![s[0] as u8] + rest),
            None => None,
        }
    } else {
        None
    }
}

/// The text that a percent-encoded value stands for, where its bytes are UTF-8.
pub open spec fn url_decoded(s: Seq<char>) -> Option<Seq<char>> {
    match percent_decoded(s) {
        Some(bytes) => if valid_utf8(bytes) {
            Some(decode_utf8(bytes))
        } else {
            None
        },
        None => None,
    }
}

/// A hexadecimal digit in upper case.
pub open spec fn is_upper_hex(c: char) -> bool {
    '0' <= c <= '9' || 'A' <= c <= 'F'
}

/// A value made of unreserved characters and of `%` with two hexadecimal digits
/// in upper case.
pub open spec fn percent_encoded(s: Seq<char>) -> bool
    decreases s.len(),
{
    if s.len() == 0 {
        true
    } else if s[0] == '%' {
        s.len() >= 3 && is_upper_hex(s[1]) && is_upper_hex(s[2]) && percent_encoded(s.skip(3))
    } else {
        s[0] as int <= 127 && unreserved(s[0] as u8) && percent_encoded(s.skip(1))
    }
}

proof fn lemma_encoded_bytes_read(bytes: Seq<u8>)
    ensures
        percent_encoded(encoded_bytes(bytes)),
        percent_decoded(encoded_bytes(bytes)) == Some(bytes),
    decreases bytes.len(),
{
    if bytes.len() > 0 {
        lemma_encoded_front(bytes);
        lemma_encoded_bytes_read(bytes.skip(1));
        let b = bytes[0];
        let s = encoded_bytes(bytes);
        let e = encoded_byte(b);
        assert(s.skip(e.len() as int) =~= encoded_bytes(bytes.skip(1)));
        assert(s[0] == e[0]);
        if !unreserved(b) {
            assert(s[1] == e[1] && s[2] == e[2]);
            assert(16 * (b as int / 16) + b as int % 16 == b);
        }
        assert(bytes =~= seq![b] + bytes.skip(1));
    } else {
        assert(bytes =~= Seq::empty());
    }
}

/// Percent-decoding an encoded value gives the text back.
pub proof fn law_decoding_gives_the_text_back(s: Seq<char>)
    ensures
        percent_encoded(url_encoded(s)),
        url_decoded(url_encoded(s)) == Some(s),
{
    lemma_encoded_bytes_read(encode_utf8(s));
    vstd::utf8::encode_utf8_valid_utf8(s);
    vstd::utf8::encode_utf8_decode_utf8(s);
}

proof fn lemma_encoded_bytes_join(a: Seq<u8>, b: Seq<u8>)
    ensures
        encoded_bytes(a + b) == encoded_bytes(a) + encoded_bytes(b),
    decreases b.len(),
{
    if b.len() == 0 {
        assert(a + b =~= a);
        assert(encoded_bytes(a) + encoded_bytes(b) =~= encoded_bytes(a));
    } else {
        lemma_encoded_bytes_join(a, b.drop_last());
        assert((a + b).drop_last() =~= a + b.drop_last());
        assert(encoded_bytes(a + b) =~= encoded_bytes(a) + encoded_bytes(b));
    }
}

proof fn lemma_utf8_joins(a: Seq<char>, b: Seq<char>)
    ensures
        encode_utf8(a + b) == encode_utf8(a) + encode_utf8(b),
    decreases a.len(),
{
    if a.len() == 0 {
        assert(a + b =~= b);
        assert(encode_utf8(a) + encode_utf8(b) =~= encode_utf8(b));
    } else {
        lemma_utf8_joins(a.drop_first(), b);
        assert((a + b).drop_first() =~= a.drop_first() + b);
        assert(encode_utf8(a + b) =~= encode_utf8(a) + encode_utf8(b));
    }
}

/// Two texts one after the other are encoded one after the other.
pub proof fn law_encoding_goes_over_joining(a: Seq<char>, b: Seq<char>)
    ensures
        url_encoded(a + b) == url_encoded(a) + url_encoded(b),
{
    lemma_utf8_joins(a, b);
    lemma_encoded_bytes_join(encode_utf8(a), encode_utf8(b));
}

/// Two texts that are encoded alike are the same text.
pub proof fn law_encoding_loses_nothing(a: Seq<char>, b: Seq<char>)
    requires
        url_encoded(a) == url_encoded(b),
    ensures
        a == b,
{
    law_decoding_gives_the_text_back(a);
    law_decoding_gives_the_text_back(b);
}

// ── Query strings ───────────────────────────────────────────────────────────

/// The parameter `name` with a value that is encoded. The name ends in `=`.
pub open spec fn parameter(name: Seq<char>, value: Seq<char>) -> Seq<char> {
    name + url_encoded(value)
}

/// One parameter for each of the values.
pub open spec fn each_parameter(name: Seq<char>, values: Seq<Seq<char>>) -> Seq<Seq<char>> {
    Seq::new(values.len(), |i: int| parameter(name, values[i]))
}

/// A parameter for a value that may be missing.
pub open spec fn optional_parameter(name: Seq<char>, value: Option<Seq<char>>) -> Seq<Seq<char>> {
    match value {
        Some(v) => seq![parameter(name, v)],
        None => Seq::empty(),
    }
}

/// A parameter for a number that may be missing.
pub open spec fn number_parameter(name: Seq<char>, value: Option<u32>) -> Seq<Seq<char>> {
    match value {
        Some(n) => seq![name + decimal(n as nat)],
        None => Seq::empty(),
    }
}

/// The parameters behind a question mark; nothing where there is none.
pub open spec fn query_string(params: Seq<Seq<char>>) -> Seq<char> {
    if params.len() == 0 {
        Seq::empty()
    } else {
        "?"@ + joined(params, "&"@)
    }
}

fn add_one(params: &mut Vec<String>, name: &str, value: &str)
    ensures
        texts(final(params)@) == texts(old(params)@).push(parameter(name@, value@)),
{
    let ghost before = texts(params@);
    let p = copy_text(name).concat(urlencoding(value).as_str());
    params.push(p);
    assert(texts(params@) =~= before.push(parameter(name@, value@)));
}

fn add_each(params: &mut Vec<String>, name: &str, values: &Vec<String>)
    ensures
        texts(final(params)@) == texts(old(params)@) + each_parameter(name@, texts(values@)),
{
    let ghost before = texts(params@);
    let mut i: usize = 0;
    assert(texts(params@) =~= before + each_parameter(name@, texts(values@.take(0))));
    while i < values.len()
        invariant
            i <= values@.len(),
            texts(params@) == before + each_parameter(name@, texts(values@.take(i as int))),
        decreases values@.len() - i,
    {
        let ghost so_far = texts(params@);
        add_one(params, name, values[i].as_str());
        assert(texts(params@) =~= before + each_parameter(name@, texts(values@.take(i + 1))));
        i += 1;
    }
    assert(values@.take(values@.len() as int) =~= values@);
}

fn add_optional(params: &mut Vec<String>, name: &str, value: &Option<String>)
    ensures
        texts(final(params)@) == texts(old(params)@) + optional_parameter(name@, opt_view(*value)),
{
    let ghost before = texts(params@);
    match value {
        Some(v) => {
            add_one(params, name, v.as_str());
            assert(texts(params@) =~= before + optional_parameter(name@, Some(v@)));
        },
        None => {
            assert(texts(params@) =~= before + optional_parameter(name@, None));
        },
    }
}

fn add_number(params: &mut Vec<String>, name: &str, value: Option<u32>)
    ensures
        texts(final(params)@) == texts(old(params)@) + number_parameter(name@, value),
{
    let ghost before = texts(params@);
    match value {
        Some(n) => {
            let p = copy_text(name).concat(print_nat(n as u64).as_str());
            params.push(p);
            assert(texts(params@) =~= before + number_parameter(name@, value));
        },
        None => {
            assert(texts(params@) =~= before + number_parameter(name@, value));
        },
    }
}

fn as_query(params: &Vec<String>) -> (r: String)
    ensures
        r@ == query_string(texts(params@)),
{
    if params.len() == 0 {
        String::new()
    } else {
        copy_text("?").concat(join(params, "&").as_str())
    }
}

/// The parameters of a listing: prefix, kinds, tags and limit, in this order.
pub open spec fn list_parameters(req: ListDocsReq) -> Seq<Seq<char>> {
    optional_parameter("prefix="@, opt_view(req.prefix)) + each_parameter(
        "kind="@,
        texts(req.kind@),
    ) + each_parameter("tag="@, texts(req.tag@)) + number_parameter("limit="@, req.limit)
}

/// The query string of GET /v1/brain/list.
pub fn list_query(req: &ListDocsReq) -> (r: String)
    ensures
        r@ == query_string(list_parameters(*req)),
{
    let mut params: Vec<String> = Vec::new();
    add_optional(&mut params, "prefix=", &req.prefix);
    add_each(&mut params, "kind=", &req.kind);
    add_each(&mut params, "tag=", &req.tag);
    add_number(&mut params, "limit=", req.limit);
    assert(texts(params@) =~= list_parameters(*req));
    as_query(&params)
}

/// The parameters of a search: the query, the result count, kinds, memory type
/// and date, in this order.
pub open spec fn search_parameters(req: SearchReq) -> Seq<Seq<char>> {
    seq![parameter("q="@, req.q@)] + number_parameter("k="@, req.k) + each_parameter(
        "kind="@,
        texts(req.kind@),
    ) + optional_parameter("memoryType="@, opt_view(req.memory_type)) + optional_parameter(
        "asOf="@,
        opt_view(req.as_of),
    )
}

/// The query string of GET /v1/brain/search.
pub fn search_query(req: &SearchReq) -> (r: String)
    ensures
        r@ == query_string(search_parameters(*req)),
{
    let mut params: Vec<String> = Vec::new();
    add_one(&mut params, "q=", req.q.as_str());
    add_number(&mut params, "k=", req.k);
    add_each(&mut params, "kind=", &req.kind);
    add_optional(&mut params, "memoryType=", &req.memory_type);
    add_optional(&mut params, "asOf=", &req.as_of);
    assert(texts(params@) =~= search_parameters(*req));
    as_query(&params)
}

/// A flag, written out.
pub open spec fn flag_text(b: bool) -> Seq<char> {
    if b {
        "true"@
    } else {
        "false"@
    }
}

/// The parameters of a regex scan.
pub open spec fn grep_parameters(pattern: Seq<char>, case_sensitive: bool, limit: Option<u32>) -> Seq<
    Seq<char>,
> {
    seq![
        parameter("pattern="@, pattern),
        "caseSensitive="@ + flag_text(case_sensitive),
    ] + number_parameter("limit="@, limit)
}

/// The query string of GET /v1/brain/grep.
pub fn grep_query(pattern: &str, case_sensitive: bool, limit: Option<u32>) -> (r: String)
    ensures
        r@ == query_string(grep_parameters(pattern@, case_sensitive, limit)),
{
    let mut params: Vec<String> = Vec::new();
    add_one(&mut params, "pattern=", pattern);
    let flag = if case_sensitive {
        copy_text("caseSensitive=").concat("true")
    } else {
        copy_text("caseSensitive=").concat("false")
    };
    let ghost before = texts(params@);
    params.push(flag);
    assert(texts(params@) =~= before.push("caseSensitive="@ + flag_text(case_sensitive)));
    add_number(&mut params, "limit=", limit);
    assert(texts(params@) =~= grep_parameters(pattern@, case_sensitive, limit));
    as_query(&params)
}

/// The parameters of a request for graph neighbors.
pub open spec fn neighbors_parameters(id_or_path: Seq<char>, limit: Option<u32>) -> Seq<Seq<char>> {
    seq![parameter("idOrPath="@, id_or_path)] + number_parameter("limit="@, limit)
}

/// The query string of GET /v1/brain/neighbors.
pub fn neighbors_query(id_or_path: &str, limit: Option<u32>) -> (r: String)
    ensures
        r@ == query_string(neighbors_parameters(id_or_path@, limit)),
{
    let mut params: Vec<String> = Vec::new();
    add_one(&mut params, "idOrPath=", id_or_path);
    add_number(&mut params, "limit=", limit);
    assert(texts(params@) =~= neighbors_parameters(id_or_path@, limit));
    as_query(&params)
}

/// The parameters of a page of the changes feed: the cursor, if there is one
/// yet, and the page size.
pub open spec fn changes_parameters(since: Option<Seq<char>>, limit: Option<u32>) -> Seq<
    Seq<char>,
> {
    optional_parameter("since="@, since) + number_parameter("limit="@, limit)
}

/// The query string of GET /v1/brain/changes.
pub fn changes_query(since: Option<&str>, limit: Option<u32>) -> (r: String)
    ensures
        r@ == query_string(changes_parameters(opt_str_view(since), limit)),
{
    let mut params: Vec<String> = Vec::new();
    add_optional(&mut params, "since=", &own_opt(since));
    add_number(&mut params, "limit=", limit);
    assert(texts(params@) =~= changes_parameters(opt_str_view(since), limit));
    as_query(&params)
}

} // verus!
