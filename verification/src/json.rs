//! JSON documents: a tree of plain values that serde_json fills, and the
//! lookups the Jest report reader makes in it.

use vstd::prelude::*;
use crate::text::{chars_eq, chars_of};

verus! {

/// serde_json's document tree, carried only as far as the conversion below.
#[verifier::external_type_specification]
#[verifier::external_body]
pub struct ExSerdeJsonValue(serde_json::Value);

/// A JSON value. Numbers keep the text serde_json writes for them; object
/// members keep serde_json's order.
#[derive(Debug)]
pub enum JsonValue {
    Null,
    Bool(bool),
    Number(String),
    Str(String),
    Array(Vec<JsonValue>),
    Object(Vec<(String, JsonValue)>),
}

/// The mathematical value of a [`JsonValue`].
pub enum JsonView {
    Null,
    Bool(bool),
    Number(Seq<char>),
    Str(Seq<char>),
    Array(Seq<JsonView>),
    Object(Seq<(Seq<char>, JsonView)>),
}

/// The mathematical value of a JSON tree.
pub open spec fn json_view(v: JsonValue) -> JsonView
    decreases v,
{
    match v {
        JsonValue::Null => JsonView::Null,
        JsonValue::Bool(b) => JsonView::Bool(b),
        JsonValue::Number(n) => JsonView::Number(n@),
        JsonValue::Str(s) => JsonView::Str(s@),
        JsonValue::Array(a) => JsonView::Array(
            Seq::new(
                a@.len(),
                |i: int|
                    if 0 <= i < a@.len() {
                        proof {
                            assert(decreases_to!(a => a@));
                            assert(decreases_to!(a@ => a@[i]));
                        }
                        json_view(a@[i])
                    } else {
                        JsonView::Null
                    },
            ),
        ),
        JsonValue::Object(m) => JsonView::Object(
            Seq::new(
                m@.len(),
                |i: int|
                    if 0 <= i < m@.len() {
                        proof {
                            assert(decreases_to!(m => m@));
                            assert(decreases_to!(m@ => m@[i]));
                            assert(decreases_to!(m@[i] => m@[i].1));
                        }
                        (m@[i].0@, json_view(m@[i].1))
                    } else {
                        (Seq::empty(), JsonView::Null)
                    },
            ),
        ),
    }
}

/// The document that `serde_json::from_str::<serde_json::Value>` reads from
/// a text, or none when it refuses the text.
pub uninterp spec fn json_parse(text: Seq<char>) -> Option<JsonView>;

/// Converts serde_json's tree into a [`JsonValue`], node for node: numbers
/// become the text serde_json displays for them, object members keep their
/// order.
#[verifier::external_body]
fn json_from_serde(v: serde_json::Value) -> JsonValue {
    match v {
        serde_json::Value::Null => JsonValue::Null,
        serde_json::Value::Bool(b) => JsonValue::Bool(b),
        serde_json::Value::Number(n) => JsonValue::Number(n.to_string()),
        serde_json::Value::String(s) => JsonValue::Str(s),
        serde_json::Value::Array(a) => JsonValue::Array(a.into_iter().map(json_from_serde).collect()),
        serde_json::Value::Object(m) => JsonValue::Object(
            m.into_iter().map(|(k, x)| (k, json_from_serde(x))).collect(),
        ),
    }
}

/// Reads a JSON text with `serde_json::from_str::<serde_json::Value>`; the
/// contract names the document read (or the refusal) as [`json_parse`] of the
/// text and claims nothing more about it.
#[verifier::external_body]
pub(crate) fn parse_json(text: &str) -> (r: Option<JsonValue>)
    ensures
        match r {
            Some(v) => json_parse(text@) == Some(json_view(v)),
            None => json_parse(text@) is None,
        },
{
    match serde_json::from_str::<serde_json::Value>(text) {
        Ok(v) => Some(json_from_serde(v)),
        Err(_) => None,
    }
}

/// The value of the first member with the given key.
pub open spec fn json_lookup(members: Seq<(Seq<char>, JsonView)>, key: Seq<char>) -> Option<
    JsonView,
>
    decreases members.len(),
{
    if members.len() == 0 {
        None
    } else if members[0].0 == key {
        Some(members[0].1)
    } else {
        json_lookup(members.drop_first(), key)
    }
}

/// The member `key` of an object; none for anything else.
pub open spec fn json_get(v: JsonView, key: Seq<char>) -> Option<JsonView> {
    match v {
        JsonView::Object(m) => json_lookup(m, key),
        _ => None,
    }
}

/// The text of a string value.
pub open spec fn json_str(v: Option<JsonView>) -> Option<Seq<char>> {
    match v {
        Some(JsonView::Str(s)) => Some(s),
        _ => None,
    }
}

/// The elements of an array value.
pub open spec fn json_array(v: Option<JsonView>) -> Option<Seq<JsonView>> {
    match v {
        Some(JsonView::Array(a)) => Some(a),
        _ => None,
    }
}

/// The text of a number value.
pub open spec fn json_number(v: Option<JsonView>) -> Option<Seq<char>> {
    match v {
        Some(JsonView::Number(n)) => Some(n),
        _ => None,
    }
}

impl JsonValue {
    /// The member `key` of an object; none for anything else.
    pub fn get(&self, key: &str) -> (r: Option<&JsonValue>)
        ensures
            match r {
                Some(x) => json_get(json_view(*self), key@) == Some(json_view(*x)),
                None => json_get(json_view(*self), key@) is None,
            },
    {
        match self {
            JsonValue::Object(m) => {
                let k = chars_of(key);
                let ghost ms = match json_view(*self) {
                    JsonView::Object(ms) => ms,
                    _ => Seq::empty(),
                };
                assert(ms.len() == m@.len());
                assert(json_get(json_view(*self), key@) == json_lookup(ms, key@));
                assert(forall|j: int|
                    0 <= j < m@.len() ==> #[trigger] ms[j] == (m@[j].0@, json_view(m@[j].1)));
                let mut i: usize = 0;
                assert(ms.skip(0) =~= ms);
                while i < m.len()
                    invariant
                        ms.len() == m@.len(),
                        forall|j: int|
                            0 <= j < m@.len() ==> #[trigger] ms[j] == (m@[j].0@, json_view(
                                m@[j].1,
                            )),
                        k@ == key@,
                        i <= m@.len(),
                        json_lookup(ms, key@) == json_lookup(ms.skip(i as int), key@),
                        json_get(json_view(*self), key@) == json_lookup(ms, key@),
                    decreases m@.len() - i,
                {
                    let name = chars_of(m[i].0.as_str());
                    assert(ms.skip(i as int)[0] == ms[i as int]);
                    if chars_eq(&name, &k) {
                        assert(ms.skip(i as int).len() > 0);
                        assert(ms[i as int].0 == key@);
                        assert(json_lookup(ms.skip(i as int), key@) == Some(
                            json_view(m@[i as int].1),
                        ));
                        return Some(&m[i].1);
                    }
                    assert(ms.skip(i as int).drop_first() =~= ms.skip(i + 1));
                    i = i + 1;
                }
                None
            },
            _ => None,
        }
    }

    /// The text of a string value.
    pub fn as_str(&self) -> (r: Option<&String>)
        ensures
            match r {
                Some(s) => json_str(Some(json_view(*self))) == Some(s@),
                None => json_str(Some(json_view(*self))) is None,
            },
    {
        match self {
            JsonValue::Str(s) => Some(s),
            _ => None,
        }
    }

    /// The text of a number value.
    pub fn as_number_text(&self) -> (r: Option<&String>)
        ensures
            match r {
                Some(s) => json_number(Some(json_view(*self))) == Some(s@),
                None => json_number(Some(json_view(*self))) is None,
            },
    {
        match self {
            JsonValue::Number(s) => Some(s),
            _ => None,
        }
    }

    /// The elements of an array value.
    pub fn as_array(&self) -> (r: Option<&Vec<JsonValue>>)
        ensures
            match r {
                Some(a) => json_array(Some(json_view(*self))) == Some(
                    a@.map_values(|x: JsonValue| json_view(x)),
                ),
                None => json_array(Some(json_view(*self))) is None,
            },
    {
        match self {
            JsonValue::Array(a) => {
                assert(json_array(Some(json_view(*self))).unwrap() =~= a@.map_values(
                    |x: JsonValue| json_view(x),
                ));
                Some(a)
            },
            _ => None,
        }
    }
}

} // verus!
