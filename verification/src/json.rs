//! A JSON value the library can reason about.
//!
//! Tool arguments and tool results are JSON. `JsonValue` holds them as
//! plain data; its view `Json` is the mathematical value the contracts
//! speak of. A number keeps the text it is written as, and its value as a
//! `u64` and as an `i64` where it has one. An object keeps its entries in
//! order; lookups read the first entry with a key, which for an object
//! that came from a JSON map is its only one.
//!
//! Rendering JSON as text is done by `serde_json`, behind the trusted
//! wrappers at the end of this file.

use vstd::prelude::*;
use crate::text::str_eq;

verus! {

/// A JSON number: the text it is written as, and its value as `u64` /
/// `i64` where it has one (`serde_json`'s `as_u64` / `as_i64`).
#[derive(Debug, Clone)]
pub struct JsonNumber {
    pub text: String,
    pub as_u64: Option<u64>,
    pub as_i64: Option<i64>,
}

/// A JSON value.
#[derive(Debug)]
pub enum JsonValue {
    Null,
    Bool(bool),
    Number(JsonNumber),
    String(String),
    Array(Vec<JsonValue>),
    Object(Vec<(String, JsonValue)>),
}

/// The mathematical JSON value.
pub enum Json {
    Null,
    Bool(bool),
    Number(Seq<char>, Option<u64>, Option<i64>),
    Str(Seq<char>),
    Array(Seq<Json>),
    Object(Seq<(Seq<char>, Json)>),
}

/// The value a `JsonValue` holds.
pub open spec fn json_model(v: JsonValue) -> Json
    decreases v,
{
    match v {
        JsonValue::Null => Json::Null,
        JsonValue::Bool(b) => Json::Bool(b),
        JsonValue::Number(n) => Json::Number(n.text@, n.as_u64, n.as_i64),
        JsonValue::String(s) => Json::Str(s@),
        JsonValue::Array(a) => Json::Array(
            Seq::new(
                a@.len(),
                |i: int|
                    if 0 <= i < a@.len() {
                        json_model(a@[i])
                    } else {
                        Json::Null
                    },
            ),
        ),
        JsonValue::Object(es) => Json::Object(
            Seq::new(
                es@.len(),
                |i: int|
                    if 0 <= i < es@.len() {
                        (es@[i].0@, json_model(es@[i].1))
                    } else {
                        (Seq::empty(), Json::Null)
                    },
            ),
        ),
    }
}

impl View for JsonValue {
    type V = Json;

    open spec fn view(&self) -> Json {
        json_model(*self)
    }
}

// ---------------------------------------------------------------------
// Lookup
// ---------------------------------------------------------------------

/// The index of the first entry with key `key`.
pub open spec fn first_key(es: Seq<(Seq<char>, Json)>, key: Seq<char>) -> Option<int>
    decreases es.len(),
{
    if es.len() == 0 {
        None
    } else if es[0].0 == key {
        Some(0)
    } else {
        match first_key(es.drop_first(), key) {
            Some(i) => Some(i + 1),
            None => None,
        }
    }
}

pub proof fn lemma_first_key(es: Seq<(Seq<char>, Json)>, key: Seq<char>)
    ensures
        first_key(es, key) matches Some(i) ==> {
            &&& 0 <= i < es.len()
            &&& es[i].0 == key
            &&& forall|j: int| 0 <= j < i ==> es[j].0 != key
        },
        first_key(es, key) is None ==> forall|j: int| 0 <= j < es.len() ==> es[j].0 != key,
    decreases es.len(),
{
    if es.len() > 0 {
        lemma_first_key(es.drop_first(), key);
        assert forall|j: int| 1 <= j < es.len() implies es[j] == es.drop_first()[j - 1] by {}
    }
}

proof fn lemma_first_key_at(es: Seq<(Seq<char>, Json)>, key: Seq<char>, i: int)
    requires
        0 <= i < es.len(),
        es[i].0 == key,
        forall|j: int| 0 <= j < i ==> es[j].0 != key,
    ensures
        first_key(es, key) == Some(i),
{
    lemma_first_key(es, key);
    if let Some(k) = first_key(es, key) {
        if k < i {
            assert(es[k].0 != key);
        } else if k > i {
            assert(es[i].0 != key);
        }
    }
}

/// `value.get(key)`: the value under `key` in an object; `None` for a
/// missing key and for a value that is not an object.
pub open spec fn json_get(v: Json, key: Seq<char>) -> Option<Json> {
    match v {
        Json::Object(es) => match first_key(es, key) {
            Some(i) => Some(es[i].1),
            None => None,
        },
        _ => None,
    }
}

/// The string under `key`.
pub open spec fn get_str(v: Json, key: Seq<char>) -> Option<Seq<char>> {
    match json_get(v, key) {
        Some(Json::Str(s)) => Some(s),
        _ => None,
    }
}

/// The boolean under `key`.
pub open spec fn get_bool(v: Json, key: Seq<char>) -> Option<bool> {
    match json_get(v, key) {
        Some(Json::Bool(b)) => Some(b),
        _ => None,
    }
}

/// The `u64` under `key`.
pub open spec fn get_u64(v: Json, key: Seq<char>) -> Option<u64> {
    match json_get(v, key) {
        Some(Json::Number(_, u, _)) => u,
        _ => None,
    }
}

/// The `i64` under `key`.
pub open spec fn get_i64(v: Json, key: Seq<char>) -> Option<i64> {
    match json_get(v, key) {
        Some(Json::Number(_, _, i)) => i,
        _ => None,
    }
}

/// The array under `key`.
pub open spec fn get_array(v: Json, key: Seq<char>) -> Option<Seq<Json>> {
    match json_get(v, key) {
        Some(Json::Array(a)) => Some(a),
        _ => None,
    }
}

proof fn lemma_object_model(es: Vec<(String, JsonValue)>)
    ensures
        JsonValue::Object(es)@ matches Json::Object(m) && m.len() == es@.len() && (forall|i: int|
            0 <= i < es@.len() ==> #[trigger] m[i] == (es@[i].0@, es@[i].1@)),
{
}

/// `value.get(key)`.
pub fn get<'a>(v: &'a JsonValue, key: &str) -> (r: Option<&'a JsonValue>)
    ensures
        r matches Some(x) ==> json_get(v@, key@) == Some(x@),
        r is None ==> json_get(v@, key@) is None,
{
    match v {
        JsonValue::Object(es) => {
            let ghost m = v@->Object_0;
            proof {
                lemma_object_model(*es);
            }
            let mut i: usize = 0;
            while i < es.len()
                invariant
                    i <= es.len(),
                    v@ == Json::Object(m),
                    m.len() == es@.len(),
                    forall|j: int| 0 <= j < es@.len() ==> #[trigger] m[j] == (es@[j].0@, es@[j].1@),
                    forall|j: int| 0 <= j < i ==> m[j].0 != key@,
                decreases es.len() - i,
            {
                if str_eq(es[i].0.as_str(), key) {
                    proof {
                        assert(m[i as int].0 == key@);
                        lemma_first_key_at(m, key@, i as int);
                        assert(json_get(v@, key@) == Some(m[i as int].1));
                    }
                    return Some(&es[i].1);
                }
                assert(m[i as int].0 != key@);
                i += 1;
            }
            proof {
                lemma_first_key(m, key@);
                if let Some(k) = first_key(m, key@) {
                    assert(m[k].0 != key@);
                }
            }
            None
        },
        _ => None,
    }
}

/// The string under `key`.
pub fn get_str_of<'a>(v: &'a JsonValue, key: &str) -> (r: Option<&'a str>)
    ensures
        r matches Some(s) ==> get_str(v@, key@) == Some(s@),
        r is None ==> get_str(v@, key@) is None,
{
    match get(v, key) {
        Some(JsonValue::String(s)) => Some(s.as_str()),
        _ => None,
    }
}

/// The boolean under `key`.
pub fn get_bool_of(v: &JsonValue, key: &str) -> (r: Option<bool>)
    ensures
        r == get_bool(v@, key@),
{
    match get(v, key) {
        Some(JsonValue::Bool(b)) => Some(*b),
        _ => None,
    }
}

/// The `u64` under `key`.
pub fn get_u64_of(v: &JsonValue, key: &str) -> (r: Option<u64>)
    ensures
        r == get_u64(v@, key@),
{
    match get(v, key) {
        Some(JsonValue::Number(n)) => n.as_u64,
        _ => None,
    }
}

/// The `i64` under `key`.
pub fn get_i64_of(v: &JsonValue, key: &str) -> (r: Option<i64>)
    ensures
        r == get_i64(v@, key@),
{
    match get(v, key) {
        Some(JsonValue::Number(n)) => n.as_i64,
        _ => None,
    }
}

/// The array under `key`.
pub fn get_array_of<'a>(v: &'a JsonValue, key: &str) -> (r: Option<&'a Vec<JsonValue>>)
    ensures
        r matches Some(a) ==> get_array(v@, key@) == Some(JsonValue::Array(*a)@->Array_0),
        r is None ==> get_array(v@, key@) is None,
{
    match get(v, key) {
        Some(JsonValue::Array(a)) => Some(a),
        _ => None,
    }
}

/// A deep copy.
pub fn clone_json(v: &JsonValue) -> (r: JsonValue)
    ensures
        r@ == v@,
    decreases v,
{
    match v {
        JsonValue::Null => JsonValue::Null,
        JsonValue::Bool(b) => JsonValue::Bool(*b),
        JsonValue::Number(n) => JsonValue::Number(
            JsonNumber { text: n.text.clone(), as_u64: n.as_u64, as_i64: n.as_i64 },
        ),
        JsonValue::String(s) => JsonValue::String(s.clone()),
        JsonValue::Array(a) => {
            let mut out: Vec<JsonValue> = Vec::new();
            let mut i: usize = 0;
            while i < a.len()
                invariant
                    i <= a.len(),
                    *v == JsonValue::Array(*a),
                    out@.len() == i,
                    forall|j: int| 0 <= j < i ==> (#[trigger] out@[j])@ == a@[j]@,
                decreases a.len() - i,
            {
                proof {
                    assert(decreases_to!(*v => (*v)->Array_0));
                    assert(decreases_to!(*a => a@));
                    assert(decreases_to!(a@ => a@[i as int]));
                }
                let x = clone_json(&a[i]);
                out.push(x);
                i += 1;
            }
            let r = JsonValue::Array(out);
            assert(r@ == v@) by {
                assert(r@->Array_0 =~= v@->Array_0);
            }
            r
        },
        JsonValue::Object(es) => {
            let mut out: Vec<(String, JsonValue)> = Vec::new();
            let mut i: usize = 0;
            while i < es.len()
                invariant
                    i <= es.len(),
                    *v == JsonValue::Object(*es),
                    out@.len() == i,
                    forall|j: int| 0 <= j < i ==> (#[trigger] out@[j]).0@ == es@[j].0@ && out@[j].1@
                        == es@[j].1@,
                decreases es.len() - i,
            {
                let k = es[i].0.clone();
                proof {
                    assert(decreases_to!(*v => (*v)->Object_0));
                    assert(decreases_to!(*es => es@));
                    assert(decreases_to!(es@ => es@[i as int]));
                    assert(decreases_to!(es@[i as int] => es@[i as int].1));
                }
                let x = clone_json(&es[i].1);
                out.push((k, x));
                i += 1;
            }
            let r = JsonValue::Object(out);
            assert(r@ == v@) by {
                assert(r@->Object_0 =~= v@->Object_0);
            }
            r
        },
    }
}

// ---------------------------------------------------------------------
// Building values
// ---------------------------------------------------------------------

/// `value[key] = val` on an object (`Map::insert`): the first entry with
/// `key` takes `val`, or a new entry is added at the end; a value that is
/// not an object is left as it is.
pub open spec fn json_set(v: Json, key: Seq<char>, val: Json) -> Json {
    match v {
        Json::Object(es) => match first_key(es, key) {
            Some(i) => Json::Object(es.update(i, (key, val))),
            None => Json::Object(es.push((key, val))),
        },
        _ => v,
    }
}

/// Set `key` to `val` in an object.
pub fn set_field(v: JsonValue, key: &str, val: JsonValue) -> (r: JsonValue)
    ensures
        r@ == json_set(v@, key@, val@),
{
    let ghost vv = v@;
    match v {
        JsonValue::Object(es) => {
            let ghost m = JsonValue::Object(es)@->Object_0;
            proof {
                lemma_object_model(es);
            }
            let mut es = es;
            let ghost kv = val@;
            let mut i: usize = 0;
            while i < es.len()
                invariant
                    i <= es.len(),
                    kv == val@,
                    vv == Json::Object(m),
                    vv == v@,
                    m.len() == es@.len(),
                    forall|j: int| 0 <= j < es@.len() ==> #[trigger] m[j] == (es@[j].0@, es@[j].1@),
                    forall|j: int| 0 <= j < i ==> m[j].0 != key@,
                decreases es.len() - i,
            {
                if str_eq(es[i].0.as_str(), key) {
                    proof {
                        lemma_first_key_at(m, key@, i as int);
                    }
                    let ghost before = es@;
                    let k = String::from_str(key);
                    let ghost entry = (k, val);
                    let _old = es.remove(i);
                    es.insert(i, (k, val));
                    let r = JsonValue::Object(es);
                    proof {
                        lemma_object_model(es);
                        assert(es@ =~= before.update(i as int, entry));
                        assert(es@[i as int] == entry);
                        assert(entry.0@ == key@);
                        assert(entry.1@ == kv);
                        assert(r@->Object_0[i as int] == (key@, kv));
                        assert forall|j: int| 0 <= j < m.len() implies #[trigger] r@->Object_0[j]
                            == m.update(i as int, (key@, kv))[j] by {
                            if j != i {
                                assert(es@[j] == before[j]);
                            }
                        }
                        assert(r@->Object_0 =~= m.update(i as int, (key@, kv)));
                    }
                    return r;
                }
                i += 1;
            }
            proof {
                lemma_first_key(m, key@);
                if let Some(k) = first_key(m, key@) {
                    assert(m[k].0 != key@);
                }
            }
            let ghost before = es@;
            let k = String::from_str(key);
            es.push((k, val));
            let r = JsonValue::Object(es);
            proof {
                lemma_object_model(es);
                assert(r@->Object_0 =~= m.push((key@, kv)));
            }
            r
        },
        other => other,
    }
}

/// A JSON number holding `n`, as `serde_json` makes one from an
/// unsigned integer.
pub open spec fn json_count(n: u64) -> Json {
    Json::Number(
        crate::text::decimal(n as nat),
        Some(n),
        if n <= i64::MAX {
            Some(n as i64)
        } else {
            None
        },
    )
}

/// The JSON number for `n`.
pub fn count_value(n: u64) -> (r: JsonValue)
    ensures
        r@ == json_count(n),
{
    JsonValue::Number(
        JsonNumber {
            text: crate::text::decimal_string(n),
            as_u64: Some(n),
            as_i64: if n <= i64::MAX as u64 {
                Some(n as i64)
            } else {
                None
            },
        },
    )
}

// ---------------------------------------------------------------------
// Rendering as text (serde_json)
// ---------------------------------------------------------------------

#[verifier::external_type_specification]
#[verifier::external_body]
pub struct ExSerdeJsonValue(serde_json::Value);

/// The same value as a `serde_json::Value`; numbers are read back from
/// their text.
#[verifier::external_body]
fn to_serde(v: &JsonValue) -> serde_json::Value {
    match v {
        JsonValue::Null => serde_json::Value::Null,
        JsonValue::Bool(b) => serde_json::Value::Bool(*b),
        JsonValue::Number(n) => serde_json::from_str(&n.text).unwrap_or(serde_json::Value::Null),
        JsonValue::String(s) => serde_json::Value::String(s.clone()),
        JsonValue::Array(a) => serde_json::Value::Array(a.iter().map(to_serde).collect()),
        JsonValue::Object(es) => serde_json::Value::Object(
            es.iter().map(|(k, x)| (k.clone(), to_serde(x))).collect(),
        ),
    }
}

/// The compact text `serde_json` writes for a value (`Value::to_string`).
pub uninterp spec fn json_compact(v: Json) -> Seq<char>;

/// The indented text `serde_json::to_string_pretty` writes for a value.
pub uninterp spec fn json_pretty(v: Json) -> Seq<char>;

/// `serde_json::Value::to_string` (its `Display`): the compact JSON text
/// of `v`. The contract names the result and claims nothing more.
#[verifier::external_body]
pub(crate) fn compact_text(v: &JsonValue) -> (r: String)
    ensures
        r@ == json_compact(v@),
{
    to_serde(v).to_string()
}

/// `serde_json::to_string_pretty`: the indented JSON text of `v`
/// (serialising a `Value` does not fail). The contract names the result
/// and claims nothing more.
#[verifier::external_body]
pub(crate) fn pretty_text(v: &JsonValue) -> (r: String)
    ensures
        r@ == json_pretty(v@),
{
    serde_json::to_string_pretty(&to_serde(v)).unwrap_or_default()
}


/// What `serde_json::from_str::<Value>` gives for a text: the value, or
/// nothing when the text is not one JSON value.
pub uninterp spec fn parsed_json(s: Seq<char>) -> Option<Json>;

/// The same value as a `JsonValue`: a number keeps the text `serde_json`
/// writes for it and its `as_u64` / `as_i64` readings.
#[verifier::external_body]
fn from_serde(v: &serde_json::Value) -> JsonValue {
    match v {
        serde_json::Value::Null => JsonValue::Null,
        serde_json::Value::Bool(b) => JsonValue::Bool(*b),
        serde_json::Value::Number(n) => JsonValue::Number(
            JsonNumber { text: n.to_string(), as_u64: n.as_u64(), as_i64: n.as_i64() },
        ),
        serde_json::Value::String(s) => JsonValue::String(s.clone()),
        serde_json::Value::Array(a) => JsonValue::Array(a.iter().map(from_serde).collect()),
        serde_json::Value::Object(m) => JsonValue::Object(
            m.iter().map(|(k, x)| (k.clone(), from_serde(x))).collect(),
        ),
    }
}

/// `serde_json::from_str::<serde_json::Value>`: the JSON value a text
/// holds, `None` on a parse error. The contract names the result and
/// claims nothing more.
#[verifier::external_body]
pub(crate) fn parse_json(s: &str) -> (r: Option<JsonValue>)
    ensures
        match r {
            Some(v) => parsed_json(s@) == Some(v@),
            None => parsed_json(s@) is None,
        },
{
    match serde_json::from_str::<serde_json::Value>(s) {
        Ok(v) => Some(from_serde(&v)),
        Err(_) => None,
    }
}

} // verus!
