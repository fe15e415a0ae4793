//! JSON text handled through serde_json. Packages travel as compact JSON
//! text; every read or write of a member goes through one of the calls
//! below, and what each returns is named by a spec function of the text.
use vstd::prelude::*;

verus! {

/// The text parses into a `serde_json::Value` (`serde_json::from_str`
/// succeeds): one JSON value, numbers within range, containers nested at
/// most `json_max_depth` deep.
pub uninterp spec fn json_is_value(text: Seq<char>) -> bool;

/// The text is accepted as raw JSON (`RawValue::from_string` succeeds):
/// one JSON value, with no limit on nesting or on the range of numbers.
pub uninterp spec fn json_is_raw(text: Seq<char>) -> bool;

/// How deeply the containers of the value in `text` nest: 0 for a scalar,
/// one more than the deepest member or element for an array or object.
pub uninterp spec fn json_depth(text: Seq<char>) -> nat;

/// The deepest nesting that `serde_json::from_str` accepts (it refuses the
/// 128th level of containers).
pub open spec fn json_max_depth() -> nat {
    127
}

/// JSON whitespace: space, tab, line feed, carriage return.
pub open spec fn is_json_space(c: char) -> bool {
    c == ' ' || c == '\t' || c == '\n' || c == '\r'
}

pub open spec fn trim_start(s: Seq<char>) -> Seq<char>
    decreases s.len(),
{
    if s.len() > 0 && is_json_space(s[0]) {
        trim_start(s.subrange(1, s.len() as int))
    } else {
        s
    }
}

pub open spec fn trim_end(s: Seq<char>) -> Seq<char>
    decreases s.len(),
{
    if s.len() > 0 && is_json_space(s.last()) {
        trim_end(s.drop_last())
    } else {
        s
    }
}

/// `s` without the JSON whitespace around it.
pub open spec fn json_trim(s: Seq<char>) -> Seq<char> {
    trim_end(trim_start(s))
}

/// The deepest nesting among `items`.
pub open spec fn max_depth(items: Seq<Seq<char>>) -> nat
    decreases items.len(),
{
    if items.len() == 0 {
        0
    } else {
        let m = max_depth(items.drop_last());
        if json_depth(items.last()) > m { json_depth(items.last()) } else { m }
    }
}

/// The text parses as a JSON object.
pub uninterp spec fn json_is_object(text: Seq<char>) -> bool;

/// The string member `key` of the object in `text`; None when the text is
/// not an object, has no such member, or the member is not a string.
pub uninterp spec fn json_str_member(text: Seq<char>, key: Seq<char>) -> Option<Seq<char>>;

/// The object in `text` has a member `key` (of any JSON type).
pub uninterp spec fn json_has_member(text: Seq<char>, key: Seq<char>) -> bool;

/// The unsigned integer member `key` of the object in `text`.
pub uninterp spec fn json_u64_member(text: Seq<char>, key: Seq<char>) -> Option<u64>;

/// The elements of the array member `key`, each as compact JSON text;
/// empty when there is no such array.
pub uninterp spec fn json_array_member(text: Seq<char>, key: Seq<char>) -> Seq<Seq<char>>;

/// The object in `text` with member `key` set to the JSON string `value`.
pub uninterp spec fn json_with_str_member(text: Seq<char>, key: Seq<char>, value: Seq<char>) -> Option<Seq<char>>;

/// The object in `text` with member `key` set to the JSON value in `value_text`.
pub uninterp spec fn json_with_member(text: Seq<char>, key: Seq<char>, value_text: Seq<char>) -> Option<Seq<char>>;

/// The JSON array of the values in `items`.
pub uninterp spec fn json_array_text(items: Seq<Seq<char>>) -> Option<Seq<char>>;

/// The JSON array of the strings in `items`.
pub uninterp spec fn json_string_array_text(items: Seq<Seq<char>>) -> Seq<char>;

/// The object in `text` with member `key` set to the JSON integer `n`.
pub uninterp spec fn json_with_i64_member(text: Seq<char>, key: Seq<char>, n: i64) -> Option<Seq<char>>;

/// The object in `text` with member `key` set to the JSON boolean `b`.
pub uninterp spec fn json_with_bool_member(text: Seq<char>, key: Seq<char>, b: bool) -> Option<Seq<char>>;

/// The object in `text` with member `key` set to JSON `null`.
pub uninterp spec fn json_with_null_member(text: Seq<char>, key: Seq<char>) -> Option<Seq<char>>;

/// The compact serialization of the value `text` parses into (object
/// members in key order); none when it does not parse.
pub uninterp spec fn json_canonical(text: Seq<char>) -> Option<Seq<char>>;

/// The message of serde_json's error for `text` when it does not parse
/// into a `Value`.
pub uninterp spec fn json_error_text(text: Seq<char>) -> Seq<char>;

/// The signed integer member `key` of the object in `text`.
pub uninterp spec fn json_i64_member(text: Seq<char>, key: Seq<char>) -> Option<i64>;

/// The string that `text` holds when it is a JSON string.
pub uninterp spec fn json_str_value(text: Seq<char>) -> Option<Seq<char>>;

/// The write-ahead-log row `[seq, direction, timestamp_ms, data]`, with
/// `data` embedded as raw JSON; none when `data` is not raw JSON.
pub uninterp spec fn wal_row_text(seq: u64, direction: Seq<char>, ts: u64, data: Seq<char>) -> Option<Seq<char>>;

/// The four fields of a write-ahead-log row, `data` as its raw JSON text.
pub uninterp spec fn wal_row_fields(line: Seq<char>) -> Option<(u64, Seq<char>, u64, Seq<char>)>;

pub proof fn lemma_max_depth_bound(items: Seq<Seq<char>>, b: nat)
    requires
        forall|i: int| 0 <= i < items.len() ==> json_depth(#[trigger] items[i]) <= b,
    ensures
        max_depth(items) <= b,
    decreases items.len(),
{
    if items.len() > 0 {
        let rest = items.drop_last();
        assert forall|i: int| 0 <= i < rest.len() implies json_depth(#[trigger] rest[i]) <= b by {
            assert(rest[i] == items[i]);
        }
        lemma_max_depth_bound(rest, b);
        assert(json_depth(items[items.len() - 1]) <= b);
    }
}

/// An empty JSON object: `Value::Object(Map::new())` serialized. serde_json
/// writes it as `{}`, an object without members.
#[verifier::external_body]
pub(crate) fn json_empty_object() -> (r: String)
    ensures
        r@ == "{}"@,
        json_is_object(r@),
        json_is_value(r@),
        json_depth(r@) == 1,
        forall|k: Seq<char>| !(#[trigger] json_has_member(r@, k)),
        forall|k: Seq<char>| (#[trigger] json_str_member(r@, k)) is None,
{
    serde_json::Value::Object(serde_json::Map::new()).to_string()
}

/// Parses `text` (serde_json::from_str) and reads member `key` with
/// `Value::get`, keeping it only when it is a JSON string. `Value::get`
/// answers None on anything but an object, so a member implies an object.
#[verifier::external_body]
pub(crate) fn get_str_member(text: &str, key: &str) -> (r: Option<String>)
    ensures
        match r {
            Some(s) => json_str_member(text@, key@) == Some(s@),
            None => json_str_member(text@, key@) is None,
        },
        r is Some ==> json_is_object(text@) && json_has_member(text@, key@),
{
    let v: serde_json::Value = match serde_json::from_str(text) {
        Ok(v) => v,
        Err(_) => return None,
    };
    match v.get(key) {
        Some(serde_json::Value::String(s)) => Some(s.to_string()),
        _ => None,
    }
}

/// Parses `text` and asks `Value::get(key).is_some()`.
#[verifier::external_body]
pub(crate) fn has_member(text: &str, key: &str) -> (r: bool)
    ensures
        r == json_has_member(text@, key@),
        r ==> json_is_object(text@) && json_is_value(text@) && json_depth(text@) <= json_max_depth(),
{
    let v: serde_json::Value = match serde_json::from_str(text) {
        Ok(v) => v,
        Err(_) => return false,
    };
    v.get(key).is_some()
}

/// Parses `text` and reads member `key` with `Value::as_u64`.
#[verifier::external_body]
pub(crate) fn get_u64_member(text: &str, key: &str) -> (r: Option<u64>)
    ensures
        r == json_u64_member(text@, key@),
{
    let v: serde_json::Value = match serde_json::from_str(text) {
        Ok(v) => v,
        Err(_) => return None,
    };
    match v.get(key) {
        Some(m) => m.as_u64(),
        None => None,
    }
}

/// Parses `text` and serializes each element of the array member `key`
/// (`Value::as_array`); no elements when it is missing or not an array.
#[verifier::external_body]
pub(crate) fn get_array_member(text: &str, key: &str) -> (r: Vec<String>)
    ensures
        r.deep_view() == json_array_member(text@, key@),
{
    let v: serde_json::Value = match serde_json::from_str(text) {
        Ok(v) => v,
        Err(_) => return Vec::new(),
    };
    match v.get(key) {
        Some(serde_json::Value::Array(items)) => items.iter().map(|e| e.to_string()).collect(),
        _ => Vec::new(),
    }
}

/// Parses `text`, inserts `key: "value"` into its object map
/// (`Map::insert` replaces an existing member) and serializes the result.
/// Only an object can take a member. Re-parsing the result gives back the
/// inserted string and every other member unchanged.
#[verifier::external_body]
pub(crate) fn with_str_member(text: &str, key: &str, value: &str) -> (r: Option<String>)
    ensures
        r.deep_view() == json_with_str_member(text@, key@, value@),
        r is Some <==> json_is_object(text@),
        r matches Some(t) ==> {
            &&& json_is_object(t@)
            &&& json_is_value(t@)
            &&& json_depth(t@) <= json_depth(text@)
            &&& json_str_member(t@, key@) == Some(value@)
            &&& json_has_member(t@, key@)
            &&& forall|k: Seq<char>| k != key@ ==> json_str_member(t@, k) == json_str_member(text@, k)
                && json_has_member(t@, k) == json_has_member(text@, k)
        },
{
    let mut v: serde_json::Value = match serde_json::from_str(text) {
        Ok(v) => v,
        Err(_) => return None,
    };
    match v.as_object_mut() {
        Some(m) => m.insert(key.to_string(), serde_json::Value::String(value.to_string())),
        None => return None,
    };
    Some(v.to_string())
}

/// Parses `text` and `value_text`, inserts the second as member `key` of
/// the first (`Map::insert`) and serializes the result. The result nests
/// one level deeper than the inserted value, so it parses again only while
/// that stays within `json_max_depth`; what is said of its members holds
/// when it does.
#[verifier::external_body]
pub(crate) fn with_member(text: &str, key: &str, value_text: &str) -> (r: Option<String>)
    ensures
        r.deep_view() == json_with_member(text@, key@, value_text@),
        r is Some <==> (json_is_object(text@) && json_is_value(value_text@)),
        r matches Some(t) ==> {
            &&& json_depth(text@) <= json_max_depth()
            &&& json_depth(value_text@) <= json_max_depth()
            &&& json_depth(t@) <= if json_depth(text@) > json_depth(value_text@) + 1 {
                json_depth(text@)
            } else {
                json_depth(value_text@) + 1
            }
            &&& json_depth(t@) <= json_max_depth() ==> json_is_value(t@)
        },
        r matches Some(t) ==> (json_is_value(t@) ==> {
            &&& json_is_object(t@)
            &&& json_has_member(t@, key@)
            &&& forall|k: Seq<char>| k != key@ ==> json_str_member(t@, k) == json_str_member(text@, k)
                && json_has_member(t@, k) == json_has_member(text@, k)
        }),
{
    let mut v: serde_json::Value = match serde_json::from_str(text) {
        Ok(v) => v,
        Err(_) => return None,
    };
    let member: serde_json::Value = match serde_json::from_str(value_text) {
        Ok(m) => m,
        Err(_) => return None,
    };
    match v.as_object_mut() {
        Some(m) => m.insert(key.to_string(), member),
        None => return None,
    };
    Some(v.to_string())
}

/// Parses `text`, inserts `key: n` into its object map and serializes it.
#[verifier::external_body]
pub(crate) fn with_i64_member(text: &str, key: &str, n: i64) -> (r: Option<String>)
    ensures
        r.deep_view() == json_with_i64_member(text@, key@, n),
        r is Some <==> json_is_object(text@),
        r matches Some(t) ==> {
            &&& json_is_object(t@)
            &&& json_is_value(t@)
            &&& json_depth(t@) <= json_depth(text@)
            &&& json_has_member(t@, key@)
            &&& forall|k: Seq<char>| k != key@ ==> json_str_member(t@, k) == json_str_member(text@, k)
                && json_has_member(t@, k) == json_has_member(text@, k)
        },
{
    let mut v: serde_json::Value = match serde_json::from_str(text) {
        Ok(v) => v,
        Err(_) => return None,
    };
    match v.as_object_mut() {
        Some(m) => m.insert(key.to_string(), serde_json::Value::from(n)),
        None => return None,
    };
    Some(v.to_string())
}

/// Parses `text`, inserts `key: b` into its object map and serializes it.
#[verifier::external_body]
pub(crate) fn with_bool_member(text: &str, key: &str, b: bool) -> (r: Option<String>)
    ensures
        r.deep_view() == json_with_bool_member(text@, key@, b),
        r is Some <==> json_is_object(text@),
        r matches Some(t) ==> {
            &&& json_is_object(t@)
            &&& json_is_value(t@)
            &&& json_depth(t@) <= json_depth(text@)
            &&& json_has_member(t@, key@)
            &&& forall|k: Seq<char>| k != key@ ==> json_str_member(t@, k) == json_str_member(text@, k)
                && json_has_member(t@, k) == json_has_member(text@, k)
        },
{
    let mut v: serde_json::Value = match serde_json::from_str(text) {
        Ok(v) => v,
        Err(_) => return None,
    };
    match v.as_object_mut() {
        Some(m) => m.insert(key.to_string(), serde_json::Value::Bool(b)),
        None => return None,
    };
    Some(v.to_string())
}

/// Parses `text`, inserts `key: null` into its object map and serializes it.
#[verifier::external_body]
pub(crate) fn with_null_member(text: &str, key: &str) -> (r: Option<String>)
    ensures
        r.deep_view() == json_with_null_member(text@, key@),
        r is Some <==> json_is_object(text@),
        r matches Some(t) ==> {
            &&& json_is_object(t@)
            &&& json_is_value(t@)
            &&& json_depth(t@) <= json_depth(text@)
            &&& json_has_member(t@, key@)
            &&& json_str_member(t@, key@) is None
            &&& forall|k: Seq<char>| k != key@ ==> json_str_member(t@, k) == json_str_member(text@, k)
                && json_has_member(t@, k) == json_has_member(text@, k)
        },
{
    let mut v: serde_json::Value = match serde_json::from_str(text) {
        Ok(v) => v,
        Err(_) => return None,
    };
    match v.as_object_mut() {
        Some(m) => m.insert(key.to_string(), serde_json::Value::Null),
        None => return None,
    };
    Some(v.to_string())
}

/// Parses `text` into a `Value` and serializes it again (`to_string`).
#[verifier::external_body]
pub(crate) fn canonical_json(text: &str) -> (r: Option<String>)
    ensures
        r.deep_view() == json_canonical(text@),
        r is Some <==> json_is_value(text@),
{
    match serde_json::from_str::<serde_json::Value>(text) {
        Ok(v) => Some(v.to_string()),
        Err(_) => None,
    }
}

/// Parses `text` into a `serde_json::Value` (`serde_json::from_str`):
/// none when it parses, else the error's message (its `Display`).
#[verifier::external_body]
pub(crate) fn json_parse_error(text: &str) -> (r: Option<String>)
    ensures
        r is None <==> json_is_value(text@),
        r matches Some(m) ==> m@ == json_error_text(text@),
{
    match serde_json::from_str::<serde_json::Value>(text) {
        Ok(_) => None,
        Err(e) => Some(e.to_string()),
    }
}

/// Parses `text` and reads member `key` with `Value::as_i64`.
#[verifier::external_body]
pub(crate) fn get_i64_member(text: &str, key: &str) -> (r: Option<i64>)
    ensures
        r == json_i64_member(text@, key@),
{
    let v: serde_json::Value = match serde_json::from_str(text) {
        Ok(v) => v,
        Err(_) => return None,
    };
    match v.get(key) {
        Some(m) => m.as_i64(),
        None => None,
    }
}

/// Parses `text` and keeps it when it is a JSON string (`Value::as_str`).
#[verifier::external_body]
pub(crate) fn get_str_value(text: &str) -> (r: Option<String>)
    ensures
        r.deep_view() == json_str_value(text@),
{
    match serde_json::from_str::<serde_json::Value>(text) {
        Ok(serde_json::Value::String(s)) => Some(s),
        _ => None,
    }
}

/// Parses every item and serializes them as one JSON array, which nests
/// one level deeper than its deepest item.
#[verifier::external_body]
pub(crate) fn array_of(items: &Vec<String>) -> (r: Option<String>)
    ensures
        r.deep_view() == json_array_text(items.deep_view()),
        r is Some <==> forall|i: int| 0 <= i < items.len() ==> json_is_value(#[trigger] items@[i]@),
        r matches Some(t) ==> json_depth(t@) <= max_depth(items.deep_view()) + 1 && (json_depth(t@)
            <= json_max_depth() ==> json_is_value(t@)),
{
    let values: Result<Vec<serde_json::Value>, serde_json::Error> = items.iter().map(|s| serde_json::from_str(s)).collect();
    match values {
        Ok(values) => Some(serde_json::Value::Array(values).to_string()),
        Err(_) => None,
    }
}

/// serde_json::to_string of a list of strings.
#[verifier::external_body]
pub(crate) fn string_array_of(items: &[String]) -> (r: String)
    ensures
        r@ == json_string_array_text(items@.map_values(|s: String| s@)),
        json_is_value(r@),
        json_depth(r@) == 1,
{
    serde_json::Value::from(items.to_vec()).to_string()
}

/// serde_json::to_string of `(seq, direction, ts, data)`, where `data` is
/// first taken as a `RawValue` (`RawValue::from_string`), which checks that
/// it is one JSON value, drops the whitespace around it, and is then written
/// verbatim. Reading the row back as `(u64, String, u64, RawValue)` gives the
/// same integers and direction and, as its fourth field, the trimmed data.
#[verifier::external_body]
pub(crate) fn wal_row(seq: u64, direction: &str, ts: u64, data: &str) -> (r: Option<String>)
    ensures
        r.deep_view() == wal_row_text(seq, direction@, ts, data@),
        r is Some <==> json_is_raw(data@),
        r matches Some(t) ==> wal_row_fields(t@) == Some((seq, direction@, ts, json_trim(data@))),
{
    let raw = match serde_json::value::RawValue::from_string(data.to_string()) {
        Ok(raw) => raw,
        Err(_) => return None,
    };
    serde_json::to_string(&(seq, direction, ts, &raw)).ok()
}

/// serde_json::from_str of a row as `(u64, String, u64, Box<RawValue>)`;
/// the data comes back as the raw JSON text of the fourth element.
#[verifier::external_body]
pub(crate) fn parse_wal_row(line: &str) -> (r: Option<(u64, String, u64, String)>)
    ensures
        match r {
            Some((s, d, t, x)) => wal_row_fields(line@) == Some((s, d@, t, x@)),
            None => wal_row_fields(line@) is None,
        },
{
    match serde_json::from_str::<(u64, String, u64, Box<serde_json::value::RawValue>)>(line) {
        Ok((s, d, t, x)) => Some((s, d, t, x.get().to_string())),
        Err(_) => None,
    }
}

} // verus!
