//! JSON values.

use crate::text::{copy_text, opt_str_view, same_text, texts};
use vstd::prelude::*;

verus! {

/// A JSON value. Numbers are told apart from other values, but not from each
/// other.
#[derive(Debug)]
pub enum Json {
    Null,
    Bool(bool),
    Number,
    Text(String),
    List(Vec<Json>),
    Object(Vec<(String, Json)>),
}

/// A [`Json`] with its texts and lists as sequences.
pub enum JsonView {
    Null,
    Bool(bool),
    Number,
    Text(Seq<char>),
    List(Seq<JsonView>),
    Object(Seq<(Seq<char>, JsonView)>),
}

pub open spec fn json_view(j: Json) -> JsonView
    decreases j,
{
    match j {
        Json::Null => JsonView::Null,
        Json::Bool(b) => JsonView::Bool(b),
        Json::Number => JsonView::Number,
        Json::Text(s) => JsonView::Text(s@),
        Json::List(v) => JsonView::List(
            Seq::new(
                v@.len(),
                |i: int|
                    if 0 <= i < v@.len() {
                        json_view(v@[i])
                    } else {
                        JsonView::Null
                    },
            ),
        ),
        Json::Object(v) => JsonView::Object(
            Seq::new(
                v@.len(),
                |i: int|
                    if 0 <= i < v@.len() {
                        (v@[i].0@, json_view(v@[i].1))
                    } else {
                        (Seq::empty(), JsonView::Null)
                    },
            ),
        ),
    }
}

impl View for Json {
    type V = JsonView;

    open spec fn view(&self) -> JsonView {
        json_view(*self)
    }
}

/// A value of `serde_json`.
#[verifier::external_type_specification]
#[verifier::external_body]
pub struct ExValue(serde_json::Value);

/// What `serde_json::from_str` reads a text as; nothing where it is no JSON.
pub uninterp spec fn json_of_text(text: Seq<char>) -> Option<JsonView>;

/// A `serde_json::Value` as a [`Json`], one variant for one. Nothing is claimed
/// here; the caller that reads a text names the result.
#[verifier::external_body]
fn json_of(v: serde_json::Value) -> (r: Json) {
    match v {
        serde_json::Value::Null => Json::Null,
        serde_json::Value::Bool(b) => Json::Bool(b),
        serde_json::Value::Number(_) => Json::Number,
        serde_json::Value::String(s) => Json::Text(s),
        serde_json::Value::Array(a) => Json::List(a.into_iter().map(json_of).collect()),
        serde_json::Value::Object(o) => Json::Object(
            o.into_iter().map(|(k, x)| (k, json_of(x))).collect(),
        ),
    }
}

/// `serde_json::from_str` reads a text as a JSON value. What it accepts is not
/// spelled out here.
#[verifier::external_body]
pub(crate) fn parse_json(text: &str) -> (r: Option<Json>)
    ensures
        (match r {
            Some(j) => Some(j@),
            None => None,
        }) == json_of_text(text@),
{
    serde_json::from_str::<serde_json::Value>(text).ok().map(json_of)
}

// ── Reading values ──────────────────────────────────────────────────────────

/// The value of the first field named `key` from `i` on.
pub open spec fn field_from(
    fields: Seq<(Seq<char>, JsonView)>,
    key: Seq<char>,
    i: int,
) -> Option<JsonView>
    decreases fields.len() - i,
{
    if i < 0 || i >= fields.len() {
        None
    } else if fields[i].0 == key {
        Some(fields[i].1)
    } else {
        field_from(fields, key, i + 1)
    }
}

/// The field `key` of an object. Other values have no fields.
pub open spec fn field(j: JsonView, key: Seq<char>) -> Option<JsonView> {
    match j {
        JsonView::Object(fields) => field_from(fields, key, 0),
        _ => None,
    }
}

/// The text of a value, if it is one.
pub open spec fn text_value(j: JsonView) -> Option<Seq<char>> {
    match j {
        JsonView::Text(s) => Some(s),
        _ => None,
    }
}

/// The text of field `inner` of field `outer`, or nothing where there is none.
pub open spec fn nested_text(j: JsonView, outer: Seq<char>, inner: Seq<char>) -> Option<Seq<char>> {
    match field(j, outer) {
        Some(o) => match field(o, inner) {
            Some(v) => text_value(v),
            None => None,
        },
        None => None,
    }
}

/// The texts among a list of values.
pub open spec fn texts_among(list: Seq<JsonView>) -> Seq<Seq<char>>
    decreases list.len(),
{
    if list.len() == 0 {
        Seq::empty()
    } else {
        match text_value(list.last()) {
            Some(s) => texts_among(list.drop_last()).push(s),
            None => texts_among(list.drop_last()),
        }
    }
}

impl Json {
    /// The field `key` of an object.
    pub fn get(&self, key: &str) -> (r: Option<&Json>)
        ensures
            (match r {
                Some(j) => Some(j@),
                None => None,
            }) == field(self@, key@),
    {
        match self {
            Json::Object(v) => {
                let ghost fields = self@->Object_0;
                let mut i: usize = 0;
                while i < v.len()
                    invariant
                        *self == Json::Object(*v),
                        self@ == JsonView::Object(fields),
                        fields.len() == v@.len(),
                        i <= v@.len(),
                        field_from(fields, key@, 0) == field_from(fields, key@, i as int),
                    decreases v@.len() - i,
                {
                    assert(fields[i as int] == (v@[i as int].0@, v@[i as int].1@));
                    if same_text(v[i].0.as_str(), key) {
                        return Some(&v[i].1);
                    }
                    i += 1;
                }
                None
            },
            _ => None,
        }
    }

    /// The text, if the value is one.
    pub fn as_str(&self) -> (r: Option<&str>)
        ensures
            opt_str_view(r) == text_value(self@),
    {
        match self {
            Json::Text(s) => Some(s.as_str()),
            _ => None,
        }
    }

    /// The text of field `inner` of field `outer`, empty where there is none.
    pub fn nested(&self, outer: &str, inner: &str) -> (r: String)
        ensures
            r@ == (match nested_text(self@, outer@, inner@) {
                Some(s) => s,
                None => Seq::empty(),
            }),
    {
        match self.get(outer) {
            Some(o) => match o.get(inner) {
                Some(v) => match v.as_str() {
                    Some(s) => copy_text(s),
                    None => String::new(),
                },
                None => String::new(),
            },
            None => String::new(),
        }
    }
}

/// The texts among the entries of a list; none where the value is no list.
pub fn texts_of(j: Option<&Json>) -> (r: Vec<String>)
    ensures
        texts(r@) == (match j {
            Some(v) => match v@ {
                JsonView::List(list) => texts_among(list),
                _ => Seq::empty(),
            },
            None => Seq::empty(),
        }),
{
    let mut out: Vec<String> = Vec::new();
    assert(texts(out@) =~= Seq::empty());
    match j {
        Some(Json::List(v)) => {
            let ghost list = j->0@->List_0;
            let mut i: usize = 0;
            assert(list.take(0) =~= Seq::empty());
            while i < v.len()
                invariant
                    j == Some(&Json::List(*v)),
                    j->0@ == JsonView::List(list),
                    list.len() == v@.len(),
                    i <= v@.len(),
                    texts(out@) == texts_among(list.take(i as int)),
                decreases v@.len() - i,
            {
                let ghost before = texts(out@);
                assert(list[i as int] == v@[i as int]@);
                assert(list.take(i + 1).drop_last() =~= list.take(i as int));
                match v[i].as_str() {
                    Some(s) => {
                        let t = copy_text(s);
                        out.push(t);
                        assert(texts(out@) =~= before.push(t@));
                    },
                    None => {},
                }
                i += 1;
            }
            assert(list.take(list.len() as int) =~= list);
        },
        _ => {},
    }
    out
}

} // verus!
