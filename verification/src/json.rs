//! JSON values as the library reads them.

use vstd::prelude::*;
use crate::text;

verus! {

/// A JSON value. Of a number it holds the value where that is an unsigned
/// integer; of numbers, arrays and objects the compact notation. An object's
/// entries stand in the order of their keys, no key twice.
#[derive(Debug)]
pub enum Json {
    Null,
    Bool(bool),
    Number { unsigned: Option<u64>, shown: String },
    Text(String),
    Array { items: Vec<Json>, shown: String },
    Object { entries: Vec<(String, Json)>, shown: String },
}

/// What a JSON value is, apart from how it is stored.
pub ghost enum JsonView {
    Null,
    Bool(bool),
    Number { unsigned: Option<u64>, shown: Seq<char> },
    Text(Seq<char>),
    Array { items: Seq<JsonView>, shown: Seq<char> },
    Object { entries: Seq<(Seq<char>, JsonView)>, shown: Seq<char> },
}

impl Json {
    pub open spec fn viewed(self) -> JsonView
        decreases self,
    {
        match self {
            Json::Null => JsonView::Null,
            Json::Bool(b) => JsonView::Bool(b),
            Json::Number { unsigned, shown } => JsonView::Number { unsigned, shown: shown@ },
            Json::Text(t) => JsonView::Text(t@),
            Json::Array { items, shown } => JsonView::Array {
                items: Seq::new(
                    items@.len(),
                    |i: int|
                        if 0 <= i < items@.len() {
                            items@[i].viewed()
                        } else {
                            JsonView::Null
                        },
                ),
                shown: shown@,
            },
            Json::Object { entries, shown } => JsonView::Object {
                entries: Seq::new(
                    entries@.len(),
                    |i: int|
                        if 0 <= i < entries@.len() {
                            (entries@[i].0@, entries@[i].1.viewed())
                        } else {
                            (seq![], JsonView::Null)
                        },
                ),
                shown: shown@,
            },
        }
    }
}

/// What `serde_json` reads in `source`, where that is one JSON value.
pub uninterp spec fn json_in(source: Seq<char>) -> Option<JsonView>;

/// A value as `serde_json` reads it; opaque here.
#[verifier::external_type_specification]
#[verifier::external_body]
pub struct ExSerdeJsonValue(serde_json::Value);

/// Takes a `serde_json::Value` apart, one variant each.
#[verifier::external_body]
fn json_from(value: serde_json::Value) -> (r: Json) {
    let shown: String = value.to_string();
    match value {
        serde_json::Value::Null => Json::Null,
        serde_json::Value::Bool(b) => Json::Bool(b),
        serde_json::Value::Number(n) => Json::Number { unsigned: n.as_u64(), shown },
        serde_json::Value::String(t) => Json::Text(t),
        serde_json::Value::Array(a) => {
            Json::Array { items: a.into_iter().map(json_from).collect(), shown }
        },
        serde_json::Value::Object(o) => {
            Json::Object { entries: o.into_iter().map(|(k, v)| (k, json_from(v))).collect(), shown }
        },
    }
}

/// `serde_json::from_str` reads one JSON value. What it reads is only named;
/// none is read where the text is no JSON.
#[verifier::external_body]
pub(crate) fn parse_json(source: &str) -> (r: Option<Json>)
    ensures
        match r {
            Some(value) => json_in(source@) == Some(value.viewed()),
            None => json_in(source@) is None,
        },
{
    serde_json::from_str::<serde_json::Value>(source).ok().map(json_from)
}


/// The value that stands under `key`.
pub open spec fn field_of(entries: Seq<(Seq<char>, JsonView)>, key: Seq<char>) -> Option<JsonView>
    decreases entries.len(),
{
    if entries.len() == 0 {
        None
    } else if entries[0].0 == key {
        Some(entries[0].1)
    } else {
        field_of(entries.drop_first(), key)
    }
}

impl JsonView {
    pub open spec fn text(self) -> Option<Seq<char>> {
        match self {
            JsonView::Text(t) => Some(t),
            _ => None,
        }
    }

    pub open spec fn unsigned_value(self) -> Option<u64> {
        match self {
            JsonView::Number { unsigned, .. } => unsigned,
            _ => None,
        }
    }

    pub open spec fn field(self, key: Seq<char>) -> Option<JsonView> {
        match self {
            JsonView::Object { entries, .. } => field_of(entries, key),
            _ => None,
        }
    }
}

/// What the entries of an object are, apart from how they are stored.
pub open spec fn entries_view(entries: Seq<(String, Json)>) -> Seq<(Seq<char>, JsonView)> {
    entries.map_values(|e: (String, Json)| (e.0@, e.1.viewed()))
}

pub open spec fn items_view(items: Seq<Json>) -> Seq<JsonView> {
    items.map_values(|v: Json| v.viewed())
}

pub proof fn lemma_viewed(value: Json)
    ensures
        value matches Json::Array { items, shown } ==> value.viewed() == (JsonView::Array {
            items: items_view(items@),
            shown: shown@,
        }),
        value matches Json::Object { entries, shown } ==> value.viewed() == (JsonView::Object {
            entries: entries_view(entries@),
            shown: shown@,
        }),
{
    match value {
        Json::Array { items, .. } => {
            if let JsonView::Array { items: seen, .. } = value.viewed() {
                assert(seen =~= items_view(items@));
            }
        },
        Json::Object { entries, .. } => {
            if let JsonView::Object { entries: seen, .. } = value.viewed() {
                assert(seen =~= entries_view(entries@));
            }
        },
        _ => {},
    }
}

pub open spec fn opt_view(o: Option<&Json>) -> Option<JsonView> {
    match o {
        Some(value) => Some(value.viewed()),
        None => None,
    }
}

/// The value under `key` among the entries of an object.
pub fn field<'a>(entries: &'a Vec<(String, Json)>, key: &str) -> (r: Option<&'a Json>)
    ensures
        opt_view(r) == field_of(entries_view(entries@), key@),
        r matches Some(value) ==> exists|i: int| 0 <= i < entries@.len() && entries@[i].1 == *value,
{
    let ghost all = entries_view(entries@);
    let mut i: usize = 0;
    assert(all.subrange(0, all.len() as int) == all);
    while i < entries.len()
        invariant
            i <= entries.len(),
            all == entries_view(entries@),
            field_of(all, key@) == field_of(all.subrange(i as int, all.len() as int), key@),
        decreases entries.len() - i,
    {
        let ghost rest = all.subrange(i as int, all.len() as int);
        assert(rest.drop_first() == all.subrange(i + 1, all.len() as int));
        assert(rest[0] == (entries@[i as int].0@, entries@[i as int].1.viewed()));
        if text::same(entries[i].0.as_str(), key) {
            return Some(&entries[i].1);
        }
        i = i + 1;
    }
    None
}

impl Json {
    pub fn get(&self, key: &str) -> (r: Option<&Json>)
        ensures
            opt_view(r) == self.viewed().field(key@),
    {
        proof {
            lemma_viewed(*self);
        }
        match self {
            Json::Object { entries, .. } => field(entries, key),
            _ => None,
        }
    }

    pub fn as_str(&self) -> (r: Option<&str>)
        ensures
            match r {
                Some(t) => self.viewed().text() == Some(t@),
                None => self.viewed().text() is None,
            },
    {
        match self {
            Json::Text(t) => Some(t.as_str()),
            _ => None,
        }
    }

    pub fn as_u64(&self) -> (r: Option<u64>)
        ensures
            r == self.viewed().unsigned_value(),
    {
        match self {
            Json::Number { unsigned, .. } => *unsigned,
            _ => None,
        }
    }
}

impl Json {
    /// The value that a text holds, where it is JSON.
    pub fn parse(source: &str) -> (r: Option<Json>)
        ensures
            match r {
                Some(value) => json_in(source@) == Some(value.viewed()),
                None => json_in(source@) is None,
            },
    {
        parse_json(source)
    }
}

}
