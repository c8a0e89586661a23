//! Reading settings out of a provider's JSON configuration.
use vstd::prelude::*;

use crate::candidates::string_views;
use crate::json::{
    as_str, as_u64, entries_data, get_entry, items_data, json_as_str, json_as_u64, json_get,
    lemma_array_data, lemma_object_data, JsonData, JsonValue,
};
use crate::text::{string_from_chars, trim, trim_str};

verus! {

/// The value of `key` in an object's entries.
pub open spec fn field(s: Seq<(Seq<char>, JsonData)>, key: Seq<char>) -> Option<JsonData> {
    json_get(JsonData::Object(s), key)
}

/// A boolean field (`Some(Value::Bool(b))`).
pub open spec fn field_bool(s: Seq<(Seq<char>, JsonData)>, key: Seq<char>) -> Option<bool> {
    match field(s, key) {
        Some(JsonData::Bool(b)) => Some(b),
        _ => None,
    }
}

/// An unsigned integer field (`get(key).and_then(Value::as_u64)`).
pub open spec fn field_u64(s: Seq<(Seq<char>, JsonData)>, key: Seq<char>) -> Option<u64> {
    match field(s, key) {
        Some(v) => json_as_u64(v),
        None => None,
    }
}

/// A string field, trimmed, when it is not blank.
pub open spec fn field_text(s: Seq<(Seq<char>, JsonData)>, key: Seq<char>) -> Option<Seq<char>> {
    match field(s, key) {
        Some(v) => match json_as_str(v) {
            Some(t) => if trim(t).len() > 0 {
                Some(trim(t))
            } else {
                None
            },
            None => None,
        },
        None => None,
    }
}

/// The section of a configuration object that holds the scan settings: its
/// `opencode_scan` object when there is one, else the object itself.
pub open spec fn scan_section(object: Seq<(Seq<char>, JsonData)>) -> Seq<(Seq<char>, JsonData)> {
    match field(object, "opencode_scan"@) {
        Some(JsonData::Object(e)) => e,
        _ => object,
    }
}

/// The strings of an array, trimmed, without the blank ones and the
/// values that are not strings.
pub open spec fn string_items(items: Seq<JsonData>) -> Seq<Seq<char>>
    decreases items.len(),
{
    if items.len() == 0 {
        Seq::empty()
    } else {
        let rest = string_items(items.drop_last());
        match json_as_str(items.last()) {
            Some(s) => if trim(s).len() > 0 {
                rest.push(trim(s))
            } else {
                rest
            },
            None => rest,
        }
    }
}

/// The trimmed, non-blank strings of an array value; nothing for other
/// values.
pub open spec fn spec_string_list(v: Option<JsonData>) -> Seq<Seq<char>> {
    match v {
        Some(JsonData::Array(items)) => string_items(items),
        _ => Seq::empty(),
    }
}

/// The scan section of a configuration object.
pub fn scan_section_of(object: &Vec<(String, JsonValue)>) -> (s: &Vec<(String, JsonValue)>)
    ensures
        entries_data(s@) == scan_section(entries_data(object@)),
{
    match get_entry(object, "opencode_scan") {
        Some(JsonValue::Object(inner)) => {
            proof {
                lemma_object_data(*inner);
            }
            inner
        },
        _ => object,
    }
}

/// `get(key)` as a boolean.
pub fn field_bool_of(s: &Vec<(String, JsonValue)>, key: &str) -> (r: Option<bool>)
    ensures
        r == field_bool(entries_data(s@), key@),
{
    match get_entry(s, key) {
        Some(JsonValue::Bool(b)) => Some(*b),
        _ => None,
    }
}

/// `get(key)` as an unsigned integer.
pub fn field_u64_of(s: &Vec<(String, JsonValue)>, key: &str) -> (r: Option<u64>)
    ensures
        r == field_u64(entries_data(s@), key@),
{
    match get_entry(s, key) {
        Some(v) => as_u64(v),
        None => None,
    }
}

/// `get(key)` as a trimmed, non-blank string.
pub fn field_text_of(s: &Vec<(String, JsonValue)>, key: &str) -> (r: Option<String>)
    ensures
        match r {
            Some(t) => field_text(entries_data(s@), key@) == Some(t@),
            None => field_text(entries_data(s@), key@) is None,
        },
{
    match get_entry(s, key) {
        Some(v) => match as_str(v) {
            Some(t) => {
                let trimmed = trim_str(t.as_str());
                if trimmed.len() > 0 {
                    Some(string_from_chars(&trimmed))
                } else {
                    None
                }
            },
            None => None,
        },
        None => None,
    }
}

/// Collects the non-blank strings of a JSON array, trimmed.
pub fn string_list(value: Option<&JsonValue>) -> (r: Vec<String>)
    ensures
        string_views(r@) == spec_string_list(
            match value {
                Some(v) => Some(v.data()),
                None => None,
            },
        ),
{
    let mut out: Vec<String> = Vec::new();
    let items = match value {
        Some(JsonValue::Array(items)) => items,
        _ => {
            assert(string_views(out@) =~= Seq::<Seq<char>>::empty());
            return out;
        },
    };
    proof {
        lemma_array_data(*items);
    }
    let ghost data = items_data(items@);
    let n = items.len();
    let mut i: usize = 0;
    assert(string_views(out@) =~= string_items(data.take(0)));
    while i < n
        invariant
            n == items@.len(),
            data == items_data(items@),
            i <= n,
            string_views(out@) == string_items(data.take(i as int)),
        decreases n - i,
    {
        assert(data.take(i + 1).drop_last() =~= data.take(i as int));
        assert(data[i as int] == items@[i as int].data());
        match as_str(&items[i]) {
            Some(s) => {
                let t = trim_str(s.as_str());
                if t.len() > 0 {
                    let ghost before = out@;
                    out.push(string_from_chars(&t));
                    assert(string_views(out@) =~= string_views(before).push(t@));
                }
            },
            None => {},
        }
        i = i + 1;
    }
    assert(data.take(n as int) =~= data);
    out
}

} // verus!
