//! A JSON document as plain values. Parsing JSON text is serde_json's work;
//! the logic of the crate reads documents in this form.
use vstd::prelude::*;

use crate::text::{self, chars_of, chars_eq};

verus! {

/// A JSON value. Numbers keep what the crate reads of them: their value when
/// it is a non-negative integer that fits in a `u64`.
#[derive(Debug)]
pub enum JsonValue {
    Null,
    Bool(bool),
    Number(Option<u64>),
    String(String),
    Array(Vec<JsonValue>),
    Object(Vec<(String, JsonValue)>),
}

/// Position of `key` among the entries of an object.
pub open spec fn entry_index(entries: Seq<(String, JsonValue)>, key: Seq<char>) -> Option<int>
    decreases entries.len(),
{
    if entries.len() == 0 {
        None
    } else if entries[0].0@ == key {
        Some(0)
    } else {
        match entry_index(entries.drop_first(), key) {
            Some(i) => Some(i + 1),
            None => None,
        }
    }
}

/// `Value::get(key)`: the member `key` of an object.
pub open spec fn spec_get(v: JsonValue, key: Seq<char>) -> Option<JsonValue> {
    match v {
        JsonValue::Object(entries) => match entry_index(entries@, key) {
            Some(i) => Some(entries@[i].1),
            None => None,
        },
        _ => None,
    }
}

/// `Value::as_str`.
pub open spec fn spec_as_str(v: JsonValue) -> Option<Seq<char>> {
    match v {
        JsonValue::String(s) => Some(s@),
        _ => None,
    }
}

/// `Value::as_bool`.
pub open spec fn spec_as_bool(v: JsonValue) -> Option<bool> {
    match v {
        JsonValue::Bool(b) => Some(b),
        _ => None,
    }
}

/// `Value::get(key)` followed by `as_str`.
pub open spec fn spec_get_str(v: JsonValue, key: Seq<char>) -> Option<Seq<char>> {
    match spec_get(v, key) {
        Some(m) => spec_as_str(m),
        None => None,
    }
}

/// `Value::get(key)` followed by `as_bool`.
pub open spec fn spec_get_bool(v: JsonValue, key: Seq<char>) -> Option<bool> {
    match spec_get(v, key) {
        Some(m) => spec_as_bool(m),
        None => None,
    }
}

proof fn lemma_entry_index(entries: Seq<(String, JsonValue)>, key: Seq<char>)
    ensures
        match entry_index(entries, key) {
            Some(i) => 0 <= i < entries.len() && entries[i].0@ == key && forall|j: int|
                0 <= j < i ==> #[trigger] entries[j].0@ != key,
            None => forall|j: int| 0 <= j < entries.len() ==> #[trigger] entries[j].0@ != key,
        },
    decreases entries.len(),
{
    if entries.len() > 0 && entries[0].0@ != key {
        let t = entries.drop_first();
        lemma_entry_index(t, key);
        match entry_index(t, key) {
            Some(i) => {
                assert forall|j: int| 0 <= j < i + 1 implies #[trigger] entries[j].0@ != key by {
                    if j > 0 {
                        assert(entries[j] == t[j - 1]);
                    }
                }
            },
            None => {
                assert forall|j: int| 0 <= j < entries.len() implies #[trigger] entries[j].0@
                    != key by {
                    if j > 0 {
                        assert(entries[j] == t[j - 1]);
                    }
                }
            },
        }
    }
}

proof fn lemma_entry_index_is(entries: Seq<(String, JsonValue)>, key: Seq<char>, i: int)
    requires
        0 <= i < entries.len(),
        entries[i].0@ == key,
        forall|j: int| 0 <= j < i ==> #[trigger] entries[j].0@ != key,
    ensures
        entry_index(entries, key) == Some(i),
{
    lemma_entry_index(entries, key);
    match entry_index(entries, key) {
        Some(x) => {
            if x < i {
                assert(entries[x].0@ != key);
            }
            if x > i {
                assert(entries[i].0@ != key);
            }
        },
        None => {
            assert(entries[i].0@ != key);
        },
    }
}

proof fn lemma_entry_index_none(entries: Seq<(String, JsonValue)>, key: Seq<char>)
    requires
        forall|j: int| 0 <= j < entries.len() ==> #[trigger] entries[j].0@ != key,
    ensures
        entry_index(entries, key) == None::<int>,
{
    lemma_entry_index(entries, key);
    match entry_index(entries, key) {
        Some(x) => {
            assert(entries[x].0@ != key);
        },
        None => {},
    }
}

impl JsonValue {
    /// The member `key` of an object.
    pub fn get(&self, key: &str) -> (r: Option<&JsonValue>)
        ensures
            match spec_get(*self, key@) {
                Some(m) => r matches Some(x) && *x == m,
                None => r is None,
            },
    {
        match self {
            JsonValue::Object(entries) => {
                let k = chars_of(key);
                let mut i: usize = 0;
                while i < entries.len()
                    invariant
                        i <= entries.len(),
                        *self == JsonValue::Object(*entries),
                        k@ == key@,
                        forall|j: int| 0 <= j < i ==> #[trigger] entries@[j].0@ != key@,
                    decreases entries.len() - i,
                {
                    let name = chars_of(entries[i].0.as_str());
                    assert(name@ == entries@[i as int].0@);
                    if chars_eq(&name, &k) {
                        proof {
                            lemma_entry_index_is(entries@, key@, i as int);
                        }
                        return Some(&entries[i].1);
                    }
                    i = i + 1;
                }
                proof {
                    lemma_entry_index_none(entries@, key@);
                }
                None
            },
            _ => None,
        }
    }

    /// The text of a string value.
    pub fn as_str(&self) -> (r: Option<&String>)
        ensures
            match spec_as_str(*self) {
                Some(s) => r matches Some(x) && x@ == s,
                None => r is None,
            },
    {
        match self {
            JsonValue::String(s) => Some(s),
            _ => None,
        }
    }

    /// The value of a boolean.
    pub fn as_bool(&self) -> (r: Option<bool>)
        ensures
            r == spec_as_bool(*self),
    {
        match self {
            JsonValue::Bool(b) => Some(*b),
            _ => None,
        }
    }

    /// The elements of an array.
    pub fn as_array(&self) -> (r: Option<&Vec<JsonValue>>)
        ensures
            match *self {
                JsonValue::Array(items) => r matches Some(x) && *x == items,
                _ => r is None,
            },
    {
        match self {
            JsonValue::Array(items) => Some(items),
            _ => None,
        }
    }

    /// The entries of an object, in document order.
    pub fn as_object(&self) -> (r: Option<&Vec<(String, JsonValue)>>)
        ensures
            match *self {
                JsonValue::Object(entries) => r matches Some(x) && *x == entries,
                _ => r is None,
            },
    {
        match self {
            JsonValue::Object(entries) => Some(entries),
            _ => None,
        }
    }

    /// A non-negative integer that fits in a `u64`.
    pub fn as_u64(&self) -> (r: Option<u64>)
        ensures
            match *self {
                JsonValue::Number(n) => r == n,
                _ => r is None,
            },
    {
        match self {
            JsonValue::Number(n) => *n,
            _ => None,
        }
    }
}

/// Text of the string member `key`.
pub fn get_str(v: &JsonValue, key: &str) -> (r: Option<String>)
    ensures
        match spec_get_str(*v, key@) {
            Some(s) => r matches Some(x) && x@ == s,
            None => r is None,
        },
{
    match v.get(key) {
        Some(m) => match m.as_str() {
            Some(s) => Some(s.clone()),
            None => None,
        },
        None => None,
    }
}

/// Value of the boolean member `key`.
pub fn get_bool(v: &JsonValue, key: &str) -> (r: Option<bool>)
    ensures
        r == spec_get_bool(*v, key@),
{
    match v.get(key) {
        Some(m) => m.as_bool(),
        None => None,
    }
}

/// serde_json's document type, carried from the parser to the conversion.
#[verifier::external_type_specification]
#[verifier::external_body]
pub struct ExSerdeJsonValue(serde_json::Value);

/// Converts a document serde_json parsed into the library's form, variant
/// for variant and member for member, in serde_json's order; a number keeps
/// its value when `Number::as_u64` gives one.
#[verifier::external_body]
fn from_serde(v: &serde_json::Value) -> (r: JsonValue) {
    match v {
        serde_json::Value::Null => JsonValue::Null,
        serde_json::Value::Bool(b) => JsonValue::Bool(*b),
        serde_json::Value::Number(n) => JsonValue::Number(n.as_u64()),
        serde_json::Value::String(s) => JsonValue::String(s.clone()),
        serde_json::Value::Array(items) => JsonValue::Array(items.iter().map(from_serde).collect()),
        serde_json::Value::Object(m) => JsonValue::Object(m.iter().map(|(k, x)| (k.clone(), from_serde(x))).collect()),
    }
}

/// What `serde_json::from_str::<Value>` reads from `text`, as the library's
/// model of a document; `None` when the text is not JSON.
pub uninterp spec fn spec_parse_json(text: Seq<char>) -> Option<JsonModel>;

/// Calls `serde_json::from_str::<Value>` on `text` and converts the document
/// it reads (`from_serde`); the model of the result is named
/// `spec_parse_json` of the text, and `None` comes exactly when serde_json
/// refuses the text.
#[verifier::external_body]
pub(crate) fn parse_json(text: &str) -> (r: Option<JsonValue>)
    ensures
        match r {
            Some(v) => spec_parse_json(text@) == Some(json_model(v)),
            None => spec_parse_json(text@) is None,
        },
{
    match serde_json::from_str::<serde_json::Value>(text) {
        Ok(v) => Some(from_serde(&v)),
        Err(_) => None,
    }
}

// ---------------------------------------------------------------------------
// Documents as values
// ---------------------------------------------------------------------------
/// A JSON document as a mathematical value.
pub enum JsonModel {
    Null,
    Bool(bool),
    Number(Option<u64>),
    Str(Seq<char>),
    Array(Seq<JsonModel>),
    Object(Seq<(Seq<char>, JsonModel)>),
}

/// What a document holds.
pub open spec fn json_model(v: JsonValue) -> JsonModel
    decreases v,
{
    match v {
        JsonValue::Null => JsonModel::Null,
        JsonValue::Bool(b) => JsonModel::Bool(b),
        JsonValue::Number(n) => JsonModel::Number(n),
        JsonValue::String(s) => JsonModel::Str(s@),
        JsonValue::Array(items) => JsonModel::Array(json_models(items@)),
        JsonValue::Object(entries) => JsonModel::Object(entry_models(entries@)),
    }
}

/// What the documents of a sequence hold.
pub open spec fn json_models(s: Seq<JsonValue>) -> Seq<JsonModel>
    decreases s,
{
    if s.len() == 0 {
        Seq::empty()
    } else {
        json_models(s.drop_last()).push(json_model(s.last()))
    }
}

/// What the members of an object hold.
pub open spec fn entry_models(s: Seq<(String, JsonValue)>) -> Seq<(Seq<char>, JsonModel)>
    decreases s,
{
    if s.len() == 0 {
        Seq::empty()
    } else {
        entry_models(s.drop_last()).push((s.last().0@, json_model(s.last().1)))
    }
}

/// The models of a sequence of documents, item by item.
pub proof fn lemma_json_models(s: Seq<JsonValue>)
    ensures
        json_models(s).len() == s.len(),
        forall|i: int| 0 <= i < s.len() ==> #[trigger] json_models(s)[i] == json_model(s[i]),
    decreases s.len(),
{
    if s.len() > 0 {
        let d = s.drop_last();
        lemma_json_models(d);
        assert forall|i: int| 0 <= i < s.len() implies #[trigger] json_models(s)[i] == json_model(s[i]) by {
            if i < d.len() {
                assert(json_models(s)[i] == json_models(d)[i]);
                assert(d[i] == s[i]);
            }
        }
    }
}

/// The models of the members of an object, member by member.
pub proof fn lemma_entry_models(s: Seq<(String, JsonValue)>)
    ensures
        entry_models(s).len() == s.len(),
        forall|i: int| 0 <= i < s.len() ==> #[trigger] entry_models(s)[i] == (s[i].0@, json_model(s[i].1)),
    decreases s.len(),
{
    if s.len() > 0 {
        let d = s.drop_last();
        lemma_entry_models(d);
        assert forall|i: int| 0 <= i < s.len() implies #[trigger] entry_models(s)[i] == (s[i].0@, json_model(s[i].1)) by {
            if i < d.len() {
                assert(entry_models(s)[i] == entry_models(d)[i]);
                assert(d[i] == s[i]);
            }
        }
    }
}

/// Position of `key` among the members of an object's model.
pub open spec fn model_index(es: Seq<(Seq<char>, JsonModel)>, key: Seq<char>) -> Option<int>
    decreases es.len(),
{
    if es.len() == 0 {
        None
    } else if es[0].0 == key {
        Some(0)
    } else {
        match model_index(es.drop_first(), key) {
            Some(i) => Some(i + 1),
            None => None,
        }
    }
}

/// The string member `key` of an object's model.
pub open spec fn model_get_str(m: JsonModel, key: Seq<char>) -> Option<Seq<char>> {
    match m {
        JsonModel::Object(es) => match model_index(es, key) {
            Some(i) => match es[i].1 {
                JsonModel::Str(s) => Some(s),
                _ => None,
            },
            None => None,
        },
        _ => None,
    }
}

proof fn lemma_model_index(s: Seq<(String, JsonValue)>, key: Seq<char>)
    ensures
        model_index(entry_models(s), key) == entry_index(s, key),
    decreases s.len(),
{
    lemma_entry_models(s);
    if s.len() > 0 {
        lemma_entry_models(s.drop_first());
        assert(entry_models(s.drop_first()) =~= entry_models(s).drop_first());
        lemma_model_index(s.drop_first(), key);
    }
}

/// The string member `key` of a document is that of its model.
pub proof fn lemma_model_get_str(v: JsonValue, key: Seq<char>)
    ensures
        model_get_str(json_model(v), key) == spec_get_str(v, key),
{
    match v {
        JsonValue::Object(entries) => {
            lemma_model_index(entries@, key);
            lemma_entry_models(entries@);
            lemma_entry_index(entries@, key);
        },
        _ => {},
    }
}

/// A copy of a document.
pub fn copy_json(v: &JsonValue) -> (r: JsonValue)
    ensures
        json_model(r) == json_model(*v),
    decreases v,
{
    match v {
        JsonValue::Null => JsonValue::Null,
        JsonValue::Bool(b) => JsonValue::Bool(*b),
        JsonValue::Number(n) => JsonValue::Number(*n),
        JsonValue::String(s) => JsonValue::String(s.clone()),
        JsonValue::Array(items) => {
            let mut out: Vec<JsonValue> = Vec::new();
            let mut i: usize = 0;
            while i < items.len()
                invariant
                    i <= items.len(),
                    *v == JsonValue::Array(*items),
                    json_models(out@) == json_models(items@.take(i as int)),
                decreases items.len() - i,
            {
                assert(decreases_to!(*v => (*v)->Array_0));
                assert((*v)->Array_0 == *items);
                assert(decreases_to!(items => items@));
                assert(decreases_to!(items@ => items@[i as int]));
                assert(decreases_to!(v => items@[i as int]));
                let c = copy_json(&items[i]);
                let ghost before = out@;
                out.push(c);
                proof {
                    assert(out@.drop_last() =~= before);
                    assert(items@.take(i + 1).drop_last() =~= items@.take(i as int));
                    assert(items@.take(i + 1).last() == items@[i as int]);
                }
                i = i + 1;
            }
            assert(items@.take(items.len() as int) =~= items@);
            JsonValue::Array(out)
        },
        JsonValue::Object(entries) => {
            let mut out: Vec<(String, JsonValue)> = Vec::new();
            let mut i: usize = 0;
            while i < entries.len()
                invariant
                    i <= entries.len(),
                    *v == JsonValue::Object(*entries),
                    entry_models(out@) == entry_models(entries@.take(i as int)),
                decreases entries.len() - i,
            {
                assert(decreases_to!(*v => (*v)->Object_0));
                assert((*v)->Object_0 == *entries);
                assert(decreases_to!(entries => entries@));
                assert(decreases_to!(entries@ => entries@[i as int]));
                assert(decreases_to!(entries@[i as int] => entries@[i as int].1));
                assert(decreases_to!(v => entries@[i as int].1));
                let c = copy_json(&entries[i].1);
                let ghost before = out@;
                out.push((entries[i].0.clone(), c));
                proof {
                    assert(out@.drop_last() =~= before);
                    assert(entries@.take(i + 1).drop_last() =~= entries@.take(i as int));
                    assert(entries@.take(i + 1).last() == entries@[i as int]);
                }
                i = i + 1;
            }
            assert(entries@.take(entries.len() as int) =~= entries@);
            JsonValue::Object(out)
        },
    }
}

/// Copies of a sequence of documents.
pub fn copy_all(items: &Vec<JsonValue>) -> (r: Vec<JsonValue>)
    ensures
        json_models(r@) == json_models(items@),
{
    let mut out: Vec<JsonValue> = Vec::new();
    let mut i: usize = 0;
    while i < items.len()
        invariant
            i <= items.len(),
            json_models(out@) == json_models(items@.take(i as int)),
        decreases items.len() - i,
    {
        let c = copy_json(&items[i]);
        let ghost before = out@;
        out.push(c);
        proof {
            assert(out@.drop_last() =~= before);
            assert(items@.take(i + 1).drop_last() =~= items@.take(i as int));
            assert(items@.take(i + 1).last() == items@[i as int]);
        }
        i = i + 1;
    }
    assert(items@.take(items.len() as int) =~= items@);
    out
}

} // verus!
