//! A JSON value model for the request bodies, provider configuration and
//! transport metadata that the library reads and rewrites.
//!
//! Objects keep their entries in order; a key is looked up at its first
//! entry and `insert` replaces that entry's value or appends a new entry,
//! which is what a JSON object map does for unique keys.
use vstd::prelude::*;

use crate::text::{chars_eq, chars_of, owned};

verus! {

/// A JSON number: an unsigned integer, a negative integer, or a float held
/// by the bits of its `f64`.
#[derive(Clone, Copy, Debug, PartialEq, Eq, Structural)]
pub enum JsonNumber {
    PosInt(u64),
    NegInt(i64),
    FloatBits(u64),
}

/// A JSON value.
#[derive(Debug)]
pub enum JsonValue {
    Null,
    Bool(bool),
    Number(JsonNumber),
    Str(String),
    Array(Vec<JsonValue>),
    Object(Vec<(String, JsonValue)>),
}

/// The mathematical content of a JSON value.
pub enum JsonData {
    Null,
    Bool(bool),
    Number(JsonNumber),
    Str(Seq<char>),
    Array(Seq<JsonData>),
    Object(Seq<(Seq<char>, JsonData)>),
}

impl JsonValue {
    pub open spec fn data(self) -> JsonData
        decreases self,
    {
        match self {
            JsonValue::Null => JsonData::Null,
            JsonValue::Bool(b) => JsonData::Bool(b),
            JsonValue::Number(n) => JsonData::Number(n),
            JsonValue::Str(s) => JsonData::Str(s@),
            JsonValue::Array(items) => JsonData::Array(
                Seq::new(
                    items@.len(),
                    |i: int|
                        if 0 <= i < items@.len() {
                            items@[i].data()
                        } else {
                            JsonData::Null
                        },
                ),
            ),
            JsonValue::Object(entries) => JsonData::Object(
                Seq::new(
                    entries@.len(),
                    |i: int|
                        if 0 <= i < entries@.len() {
                            (entries@[i].0@, entries@[i].1.data())
                        } else {
                            (Seq::empty(), JsonData::Null)
                        },
                ),
            ),
        }
    }
}

/// The content of object entries.
pub open spec fn entries_data(e: Seq<(String, JsonValue)>) -> Seq<(Seq<char>, JsonData)> {
    Seq::new(e.len(), |i: int| (e[i].0@, e[i].1.data()))
}

/// The content of array items.
pub open spec fn items_data(e: Seq<JsonValue>) -> Seq<JsonData> {
    Seq::new(e.len(), |i: int| e[i].data())
}

pub proof fn lemma_object_data(e: Vec<(String, JsonValue)>)
    ensures
        JsonValue::Object(e).data() == JsonData::Object(entries_data(e@)),
{
    let d = JsonValue::Object(e).data();
    let s = d->Object_0;
    assert(s.len() == e@.len());
    assert forall|i: int| 0 <= i < s.len() implies s[i] == entries_data(e@)[i] by {}
    assert(s =~= entries_data(e@));
}

pub proof fn lemma_array_data(e: Vec<JsonValue>)
    ensures
        JsonValue::Array(e).data() == JsonData::Array(items_data(e@)),
{
    let d = JsonValue::Array(e).data();
    let s = d->Array_0;
    assert(s.len() == e@.len());
    assert forall|i: int| 0 <= i < s.len() implies s[i] == items_data(e@)[i] by {}
    assert(s =~= items_data(e@));
}

/// The index of the first entry with key `key`.
pub closed spec fn key_index<V>(entries: Seq<(Seq<char>, V)>, key: Seq<char>) -> Option<int> {
    if exists|i: int| 0 <= i < entries.len() && #[trigger] entries[i].0 == key {
        Some(
            choose|i: int|
                0 <= i < entries.len() && #[trigger] entries[i].0 == key && forall|j: int|
                    0 <= j < i ==> entries[j].0 != key,
        )
    } else {
        None
    }
}

proof fn lemma_first_key<V>(entries: Seq<(Seq<char>, V)>, key: Seq<char>, i: int)
    requires
        0 <= i < entries.len(),
        entries[i].0 == key,
    ensures
        exists|c: int|
            0 <= c < entries.len() && #[trigger] entries[c].0 == key && forall|j: int|
                0 <= j < c ==> entries[j].0 != key,
    decreases i,
{
    if exists|j: int| 0 <= j < i && #[trigger] entries[j].0 == key {
        let j = choose|j: int| 0 <= j < i && #[trigger] entries[j].0 == key;
        lemma_first_key(entries, key, j);
    } else {
        assert(forall|j: int| 0 <= j < i ==> entries[j].0 != key);
    }
}

pub proof fn lemma_key_index<V>(entries: Seq<(Seq<char>, V)>, key: Seq<char>)
    ensures
        key_index(entries, key) matches Some(i) ==> 0 <= i < entries.len() && entries[i].0 == key
            && forall|j: int| 0 <= j < i ==> entries[j].0 != key,
        key_index(entries, key) is None ==> forall|j: int|
            0 <= j < entries.len() ==> entries[j].0 != key,
{
    if exists|i: int| 0 <= i < entries.len() && #[trigger] entries[i].0 == key {
        let i = choose|i: int| 0 <= i < entries.len() && #[trigger] entries[i].0 == key;
        lemma_first_key(entries, key, i);
    }
}

/// `j` is the first entry with key `k`.
pub proof fn lemma_key_index_is<V>(e: Seq<(Seq<char>, V)>, k: Seq<char>, j: int)
    requires
        0 <= j < e.len(),
        e[j].0 == k,
        forall|l: int| 0 <= l < j ==> e[l].0 != k,
    ensures
        key_index(e, k) == Some(j),
{
    lemma_key_index(e, k);
    let r = key_index(e, k)->0;
    if r < j {
        assert(e[r].0 != k);
    }
    if j < r {
        assert(e[j].0 != k);
    }
}

/// The map that a list of entries stands for: each key maps to the value
/// of its first entry.
pub open spec fn entries_map<V>(e: Seq<(Seq<char>, V)>) -> Map<Seq<char>, V> {
    Map::new(|k: Seq<char>| key_index(e, k) is Some, |k: Seq<char>| e[key_index(e, k)->0].1)
}

/// Setting the entry `i` to key `k` keeps the first entry of every other
/// key, when `i` was the first entry of `k` or a new last entry.
proof fn lemma_key_index_other<V>(e: Seq<(Seq<char>, V)>, n: Seq<(Seq<char>, V)>, k: Seq<char>, k2: Seq<char>, i: int)
    requires
        k2 != k,
        0 <= i <= e.len(),
        n.len() == (if i == e.len() { e.len() + 1 } else { e.len() + 0 }),
        n[i].0 == k,
        forall|j: int| 0 <= j < e.len() && j != i ==> n[j] == e[j],
        i < e.len() ==> e[i].0 == k,
    ensures
        key_index(n, k2) == key_index(e, k2),
{
    lemma_key_index(e, k2);
    lemma_key_index(n, k2);
    if key_index(e, k2) is Some {
        let j = key_index(e, k2)->0;
        assert(j != i);
        lemma_key_index_is(n, k2, j);
    } else if key_index(n, k2) is Some {
        let j = key_index(n, k2)->0;
        assert(j != i);
        assert(e[j].0 == k2);
    }
}

/// Replacing the value of the first entry of `k` inserts into the map.
pub proof fn lemma_entries_map_update<V>(e: Seq<(Seq<char>, V)>, k: Seq<char>, v: V, i: int)
    requires
        key_index(e, k) == Some(i),
    ensures
        entries_map(e.update(i, (k, v))) =~= entries_map(e).insert(k, v),
{
    lemma_key_index(e, k);
    let n = e.update(i, (k, v));
    lemma_key_index_is(n, k, i);
    lemma_entries_map_same(e, n, k, v, i);
}

proof fn lemma_entries_map_same<V>(e: Seq<(Seq<char>, V)>, n: Seq<(Seq<char>, V)>, k: Seq<char>, v: V, i: int)
    requires
        0 <= i <= e.len(),
        n.len() == (if i == e.len() { e.len() + 1 } else { e.len() + 0 }),
        n[i] == (k, v),
        forall|j: int| 0 <= j < e.len() && j != i ==> n[j] == e[j],
        i < e.len() ==> e[i].0 == k,
        key_index(n, k) == Some(i),
    ensures
        entries_map(n) =~= entries_map(e).insert(k, v),
{
    let a = entries_map(n);
    let b = entries_map(e).insert(k, v);
    assert forall|k2: Seq<char>| #[trigger] a.dom().contains(k2) == b.dom().contains(k2) by {
        if k2 != k {
            lemma_key_index_other(e, n, k, k2, i);
        }
    }
    assert forall|k2: Seq<char>| a.dom().contains(k2) implies #[trigger] a[k2] == b[k2] by {
        if k2 != k {
            lemma_key_index_other(e, n, k, k2, i);
            lemma_key_index(e, k2);
            let j = key_index(e, k2)->0;
            assert(j != i);
        }
    }
    assert(a.dom() =~= b.dom());
}

/// Appending an entry for a new key inserts into the map.
pub proof fn lemma_entries_map_push<V>(e: Seq<(Seq<char>, V)>, k: Seq<char>, v: V)
    requires
        key_index(e, k) is None,
    ensures
        entries_map(e.push((k, v))) =~= entries_map(e).insert(k, v),
{
    lemma_key_index(e, k);
    let n = e.push((k, v));
    lemma_key_index_is(n, k, e.len() as int);
    lemma_entries_map_same(e, n, k, v, e.len() as int);
}

/// No entries: the empty map.
pub proof fn lemma_entries_map_empty<V>(e: Seq<(Seq<char>, V)>)
    requires
        e.len() == 0,
    ensures
        entries_map(e) =~= Map::<Seq<char>, V>::empty(),
{
    assert forall|k: Seq<char>| !(#[trigger] entries_map(e).dom().contains(k)) by {
        lemma_key_index(e, k);
    }
}

/// `Value::get` with a string key: the value of the first entry with that
/// key of an object; nothing for other values.
pub open spec fn json_get(d: JsonData, key: Seq<char>) -> Option<JsonData> {
    match d {
        JsonData::Object(entries) => match key_index(entries, key) {
            Some(i) => Some(entries[i].1),
            None => None,
        },
        _ => None,
    }
}

/// `Value::as_str`.
pub open spec fn json_as_str(d: JsonData) -> Option<Seq<char>> {
    match d {
        JsonData::Str(s) => Some(s),
        _ => None,
    }
}

/// `Value::as_u64`.
pub open spec fn json_as_u64(d: JsonData) -> Option<u64> {
    match d {
        JsonData::Number(JsonNumber::PosInt(n)) => Some(n),
        _ => None,
    }
}

/// `Value::as_bool`.
pub open spec fn json_as_bool(d: JsonData) -> Option<bool> {
    match d {
        JsonData::Bool(b) => Some(b),
        _ => None,
    }
}

/// The entries of an object after `insert(key, value)`.
pub open spec fn entries_set(
    entries: Seq<(Seq<char>, JsonData)>,
    key: Seq<char>,
    value: JsonData,
) -> Seq<(Seq<char>, JsonData)> {
    match key_index(entries, key) {
        Some(i) => entries.update(i, (key, value)),
        None => entries.push((key, value)),
    }
}

/// Finds the first entry with key `key`.
pub fn entry_index(entries: &Vec<(String, JsonValue)>, key: &str) -> (r: Option<usize>)
    ensures
        r matches Some(i) ==> i < entries@.len() && key_index(entries_data(entries@), key@) == Some(
            i as int,
        ),
        r is None ==> key_index(entries_data(entries@), key@) is None,
{
    let k = chars_of(key);
    let ghost ed = entries_data(entries@);
    let n = entries.len();
    let mut i: usize = 0;
    while i < n
        invariant
            n == entries@.len(),
            ed == entries_data(entries@),
            k@ == key@,
            i <= n,
            forall|j: int| 0 <= j < i ==> ed[j].0 != key@,
        decreases n - i,
    {
        let ek = chars_of(entries[i].0.as_str());
        if chars_eq(&ek, &k) {
            proof {
                assert(ed[i as int].0 == key@);
                let c = choose|c: int|
                    0 <= c < ed.len() && #[trigger] ed[c].0 == key@ && forall|j: int|
                        0 <= j < c ==> ed[j].0 != key@;
                if c < i {
                    assert(ed[c].0 != key@);
                }
                if i < c {
                    assert(ed[i as int].0 != key@);
                }
            }
            return Some(i);
        }
        i = i + 1;
    }
    None
}

/// `Value::get` with a string key.
pub fn get<'a>(v: &'a JsonValue, key: &str) -> (r: Option<&'a JsonValue>)
    ensures
        r matches Some(x) ==> json_get(v.data(), key@) == Some(x.data()),
        r is None ==> json_get(v.data(), key@) is None,
{
    match v {
        JsonValue::Object(entries) => {
            proof {
                lemma_object_data(*entries);
            }
            match entry_index(entries, key) {
                Some(i) => Some(&entries[i].1),
                None => None,
            }
        },
        _ => None,
    }
}

/// `Value::get` on an object's entries.
pub fn get_entry<'a>(entries: &'a Vec<(String, JsonValue)>, key: &str) -> (r: Option<&'a JsonValue>)
    ensures
        r matches Some(x) ==> json_get(JsonData::Object(entries_data(entries@)), key@) == Some(
            x.data(),
        ),
        r is None ==> json_get(JsonData::Object(entries_data(entries@)), key@) is None,
{
    match entry_index(entries, key) {
        Some(i) => Some(&entries[i].1),
        None => None,
    }
}

/// `Value::as_str`.
pub fn as_str(v: &JsonValue) -> (r: Option<&String>)
    ensures
        r matches Some(s) ==> json_as_str(v.data()) == Some(s@),
        r is None ==> json_as_str(v.data()) is None,
{
    match v {
        JsonValue::Str(s) => Some(s),
        _ => None,
    }
}

/// `Value::as_u64`.
pub fn as_u64(v: &JsonValue) -> (r: Option<u64>)
    ensures
        r == json_as_u64(v.data()),
{
    match v {
        JsonValue::Number(JsonNumber::PosInt(n)) => Some(*n),
        _ => None,
    }
}

/// `Value::as_bool`.
pub fn as_bool(v: &JsonValue) -> (r: Option<bool>)
    ensures
        r == json_as_bool(v.data()),
{
    match v {
        JsonValue::Bool(b) => Some(*b),
        _ => None,
    }
}

/// `Map::insert`: replaces the value of the first entry with `key`, or
/// appends a new entry.
pub fn insert_entry(entries: &mut Vec<(String, JsonValue)>, key: String, value: JsonValue)
    ensures
        entries_data(final(entries)@) == entries_set(entries_data(old(entries)@), key@, value.data()),
{
    let ghost ed = entries_data(entries@);
    let ghost vd = value.data();
    let ghost kv = key@;
    match entry_index(entries, key.as_str()) {
        Some(i) => {
            let _old = entries.remove(i);
            entries.insert(i, (key, value));
            assert(entries_data(entries@) =~= ed.update(i as int, (kv, vd)));
        },
        None => {
            entries.push((key, value));
            assert(entries_data(entries@) =~= ed.push((kv, vd)));
        },
    }
}

/// A deep copy of a JSON value.
pub fn json_clone(v: &JsonValue) -> (r: JsonValue)
    ensures
        r.data() == v.data(),
    decreases v,
{
    match v {
        JsonValue::Null => JsonValue::Null,
        JsonValue::Bool(b) => JsonValue::Bool(*b),
        JsonValue::Number(n) => JsonValue::Number(*n),
        JsonValue::Str(s) => JsonValue::Str(s.clone()),
        JsonValue::Array(items) => {
            let mut out: Vec<JsonValue> = Vec::new();
            let n = items.len();
            let mut i: usize = 0;
            while i < n
                invariant
                    n == items@.len(),
                    i <= n,
                    out@.len() == i,
                    *v == JsonValue::Array(*items),
                    forall|j: int| 0 <= j < i ==> #[trigger] out@[j].data() == items@[j].data(),
                decreases n - i,
            {
                assert(decreases_to!(v => items@[i as int])) by {
                    assert(decreases_to!(*v => (*v)->Array_0));
                    assert(decreases_to!(*items => items@));
                    assert(decreases_to!(items@ => items@[i as int]));
                }
                out.push(json_clone(&items[i]));
                i = i + 1;
            }
            proof {
                lemma_array_data(out);
                lemma_array_data(*items);
                assert(items_data(out@) =~= items_data(items@));
            }
            JsonValue::Array(out)
        },
        JsonValue::Object(entries) => {
            let mut out: Vec<(String, JsonValue)> = Vec::new();
            let n = entries.len();
            let mut i: usize = 0;
            while i < n
                invariant
                    n == entries@.len(),
                    i <= n,
                    out@.len() == i,
                    *v == JsonValue::Object(*entries),
                    forall|j: int|
                        0 <= j < i ==> #[trigger] out@[j].0@ == entries@[j].0@ && out@[j].1.data()
                            == entries@[j].1.data(),
                decreases n - i,
            {
                assert(decreases_to!(v => entries@[i as int].1)) by {
                    assert(decreases_to!(*v => (*v)->Object_0));
                    assert(decreases_to!(*entries => entries@));
                    assert(decreases_to!(entries@ => entries@[i as int]));
                    assert(decreases_to!(entries@[i as int] => entries@[i as int].1));
                }
                let value = json_clone(&entries[i].1);
                out.push((entries[i].0.clone(), value));
                i = i + 1;
            }
            proof {
                lemma_object_data(out);
                lemma_object_data(*entries);
                assert(entries_data(out@) =~= entries_data(entries@));
            }
            JsonValue::Object(out)
        },
    }
}

/// A deep copy of an object's entries.
pub fn entries_clone(entries: &Vec<(String, JsonValue)>) -> (r: Vec<(String, JsonValue)>)
    ensures
        entries_data(r@) == entries_data(entries@),
{
    let mut out: Vec<(String, JsonValue)> = Vec::new();
    let n = entries.len();
    let mut i: usize = 0;
    while i < n
        invariant
            n == entries@.len(),
            i <= n,
            out@.len() == i,
            forall|j: int|
                0 <= j < i ==> #[trigger] out@[j].0@ == entries@[j].0@ && out@[j].1.data()
                    == entries@[j].1.data(),
        decreases n - i,
    {
        out.push((entries[i].0.clone(), json_clone(&entries[i].1)));
        i = i + 1;
    }
    assert(entries_data(out@) =~= entries_data(entries@));
    out
}

/// The map of an object's entries after setting a key: the old map with
/// that key set.
pub proof fn lemma_entries_set_map(e: Seq<(Seq<char>, JsonData)>, k: Seq<char>, v: JsonData)
    ensures
        entries_map(entries_set(e, k, v)) == entries_map(e).insert(k, v),
{
    match key_index(e, k) {
        Some(i) => lemma_entries_map_update(e, k, v, i),
        None => lemma_entries_map_push(e, k, v),
    }
}

} // verus!
