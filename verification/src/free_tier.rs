//! The tools that the OpenCode free tier requires on every chat request.
//!
//! The upstream rejects a chat request whose `tools` array lacks any of
//! `bash`, `glob`, `grep` and `read` (403 FreeTierError); extra tools are
//! fine.  Tools are recognised by `function.name`.
use vstd::prelude::*;

use crate::json::{
    as_str, entries_data, entries_map, entry_index, get, items_data, json_as_str, json_get, key_index,
    lemma_array_data, lemma_entries_map_push, lemma_entries_map_update, lemma_key_index,
    lemma_key_index_is, lemma_object_data, JsonData, JsonValue,
};
use crate::text::{chars_eq, chars_of, owned};

verus! {

/// The names of the required tools, in the order they are appended.
pub open spec fn free_tier_tool_names() -> Seq<Seq<char>> {
    seq!["bash"@, "glob"@, "grep"@, "read"@]
}

/// `tool.function.name`, when it is a string.
pub open spec fn tool_function_name(tool: JsonData) -> Option<Seq<char>> {
    match json_get(tool, "function"@) {
        Some(f) => match json_get(f, "name"@) {
            Some(n) => json_as_str(n),
            None => None,
        },
        None => None,
    }
}

/// Whether some tool of `tools` has function name `name`.
pub open spec fn has_tool_named(tools: Seq<JsonData>, name: Seq<char>) -> bool {
    exists|i: int| 0 <= i < tools.len() && #[trigger] tool_function_name(tools[i]) == Some(name)
}

pub open spec fn str_data(s: Seq<char>) -> JsonData {
    JsonData::Str(s)
}

/// `{"type": "object", "properties": {<arg>: {"type": "string"}}, "required": [<arg>]}`.
pub open spec fn one_string_arg_schema(arg: Seq<char>) -> JsonData {
    JsonData::Object(
        seq![
            ("type"@, str_data("object"@)),
            (
                "properties"@,
                JsonData::Object(seq![(arg, JsonData::Object(seq![("type"@, str_data("string"@))]))]),
            ),
            ("required"@, JsonData::Array(seq![str_data(arg)])),
        ],
    )
}

/// The function definition sent for a required tool.
pub open spec fn spec_free_tier_tool(name: Seq<char>) -> JsonData {
    if name == "bash"@ {
        JsonData::Object(
            seq![
                ("name"@, str_data("bash"@)),
                ("description"@, str_data("Run a shell command and return its output"@)),
                ("parameters"@, one_string_arg_schema("command"@)),
            ],
        )
    } else if name == "glob"@ {
        JsonData::Object(
            seq![
                ("name"@, str_data("glob"@)),
                ("description"@, str_data("Find files matching a glob pattern"@)),
                ("parameters"@, one_string_arg_schema("pattern"@)),
            ],
        )
    } else if name == "grep"@ {
        JsonData::Object(
            seq![
                ("name"@, str_data("grep"@)),
                ("description"@, str_data("Search file contents with a regular expression"@)),
                ("parameters"@, one_string_arg_schema("pattern"@)),
            ],
        )
    } else if name == "read"@ {
        JsonData::Object(
            seq![
                ("name"@, str_data("read"@)),
                ("description"@, str_data("Read the contents of a file"@)),
                ("parameters"@, one_string_arg_schema("file_path"@)),
            ],
        )
    } else {
        JsonData::Object(
            seq![
                ("name"@, str_data(name)),
                ("parameters"@, JsonData::Object(seq![("type"@, str_data("object"@))])),
            ],
        )
    }
}

/// `{"type": "function", "function": <definition>}`.
pub open spec fn spec_free_tier_tool_entry(name: Seq<char>) -> JsonData {
    JsonData::Object(
        seq![("type"@, str_data("function"@)), ("function"@, spec_free_tier_tool(name))],
    )
}

/// The tool entries appended for the `names` that `tools` lacks.
pub open spec fn missing_tool_entries(tools: Seq<JsonData>, names: Seq<Seq<char>>) -> Seq<JsonData>
    decreases names.len(),
{
    if names.len() == 0 {
        Seq::empty()
    } else {
        let rest = missing_tool_entries(tools, names.drop_last());
        if has_tool_named(tools, names.last()) {
            rest
        } else {
            rest.push(spec_free_tier_tool_entry(names.last()))
        }
    }
}

/// The entries of a body object once `tools` exists (an empty array is
/// added when the key is missing).
pub open spec fn with_tools_entry(entries: Seq<(Seq<char>, JsonData)>) -> Seq<(Seq<char>, JsonData)> {
    match key_index(entries, "tools"@) {
        Some(_) => entries,
        None => entries.push(("tools"@, JsonData::Array(Seq::empty()))),
    }
}

/// What `ensure_opencode_free_tier_tools` makes of a body: for an object,
/// a missing `tools` becomes an empty array; when `tools` is an array, the
/// required tools it lacks are appended in the order bash, glob, grep, read.
pub open spec fn spec_ensure_free_tier_tools(body: JsonData) -> JsonData {
    match body {
        JsonData::Object(entries) => {
            let e = with_tools_entry(entries);
            let i = key_index(e, "tools"@)->0;
            match e[i].1 {
                JsonData::Array(tools) => JsonData::Object(
                    e.update(
                        i,
                        (
                            "tools"@,
                            JsonData::Array(
                                tools + missing_tool_entries(tools, free_tier_tool_names()),
                            ),
                        ),
                    ),
                ),
                _ => JsonData::Object(e),
            }
        },
        _ => body,
    }
}

/// Appends an entry to an object under construction.
pub(crate) fn push_entry(entries: &mut Vec<(String, JsonValue)>, key: &str, value: JsonValue)
    ensures
        entries_data(final(entries)@) == entries_data(old(entries)@).push((key@, value.data())),
{
    let ghost vd = value.data();
    entries.push((owned(key), value));
    assert(entries_data(entries@) =~= entries_data(old(entries)@).push((key@, vd)));
}

pub(crate) fn str_value(s: &str) -> (v: JsonValue)
    ensures
        v.data() == str_data(s@),
{
    JsonValue::Str(owned(s))
}

fn one_string_arg_schema_value(arg: &str) -> (v: JsonValue)
    ensures
        v.data() == one_string_arg_schema(arg@),
{
    let mut ty: Vec<(String, JsonValue)> = Vec::new();
    push_entry(&mut ty, "type", str_value("string"));
    let mut props: Vec<(String, JsonValue)> = Vec::new();
    proof {
        lemma_object_data(ty);
    }
    push_entry(&mut props, arg, JsonValue::Object(ty));
    let mut required: Vec<JsonValue> = Vec::new();
    required.push(str_value(arg));
    proof {
        lemma_object_data(props);
        lemma_array_data(required);
        assert(items_data(required@) =~= seq![str_data(arg@)]);
    }
    let mut schema: Vec<(String, JsonValue)> = Vec::new();
    push_entry(&mut schema, "type", str_value("object"));
    push_entry(&mut schema, "properties", JsonValue::Object(props));
    push_entry(&mut schema, "required", JsonValue::Array(required));
    proof {
        lemma_object_data(schema);
        assert(entries_data(ty@) =~= seq![("type"@, str_data("string"@))]);
        assert(entries_data(props@) =~= seq![
            (arg@, JsonData::Object(seq![("type"@, str_data("string"@))])),
        ]);
        assert(entries_data(schema@) =~= one_string_arg_schema(arg@)->Object_0);
    }
    JsonValue::Object(schema)
}

/// The function definition of a required tool (any other name gets a bare
/// definition).
pub fn opencode_free_tier_tool(name: &str) -> (v: JsonValue)
    ensures
        v.data() == spec_free_tier_tool(name@),
{
    let n = chars_of(name);
    let mut e: Vec<(String, JsonValue)> = Vec::new();
    let bash = chars_of("bash");
    let glob = chars_of("glob");
    let grep = chars_of("grep");
    let read = chars_of("read");
    if chars_eq(&n, &bash) {
        push_entry(&mut e, "name", str_value("bash"));
        push_entry(&mut e, "description", str_value("Run a shell command and return its output"));
        push_entry(&mut e, "parameters", one_string_arg_schema_value("command"));
    } else if chars_eq(&n, &glob) {
        push_entry(&mut e, "name", str_value("glob"));
        push_entry(&mut e, "description", str_value("Find files matching a glob pattern"));
        push_entry(&mut e, "parameters", one_string_arg_schema_value("pattern"));
    } else if chars_eq(&n, &grep) {
        push_entry(&mut e, "name", str_value("grep"));
        push_entry(
            &mut e,
            "description",
            str_value("Search file contents with a regular expression"),
        );
        push_entry(&mut e, "parameters", one_string_arg_schema_value("pattern"));
    } else if chars_eq(&n, &read) {
        push_entry(&mut e, "name", str_value("read"));
        push_entry(&mut e, "description", str_value("Read the contents of a file"));
        push_entry(&mut e, "parameters", one_string_arg_schema_value("file_path"));
    } else {
        push_entry(&mut e, "name", JsonValue::Str(owned(name)));
        let mut p: Vec<(String, JsonValue)> = Vec::new();
        push_entry(&mut p, "type", str_value("object"));
        proof {
            lemma_object_data(p);
            assert(entries_data(p@) =~= seq![("type"@, str_data("object"@))]);
        }
        push_entry(&mut e, "parameters", JsonValue::Object(p));
    }
    proof {
        lemma_object_data(e);
        assert(entries_data(e@) =~= spec_free_tier_tool(name@)->Object_0);
    }
    JsonValue::Object(e)
}

/// `{"type": "function", "function": opencode_free_tier_tool(name)}`.
pub fn free_tier_tool_entry(name: &str) -> (v: JsonValue)
    ensures
        v.data() == spec_free_tier_tool_entry(name@),
{
    let mut e: Vec<(String, JsonValue)> = Vec::new();
    push_entry(&mut e, "type", str_value("function"));
    push_entry(&mut e, "function", opencode_free_tier_tool(name));
    proof {
        lemma_object_data(e);
        assert(entries_data(e@) =~= spec_free_tier_tool_entry(name@)->Object_0);
    }
    JsonValue::Object(e)
}

/// `tool.function.name` of one tool.
fn tool_name(tool: &JsonValue) -> (r: Option<Vec<char>>)
    ensures
        r matches Some(n) ==> tool_function_name(tool.data()) == Some(n@),
        r is None ==> tool_function_name(tool.data()) is None,
{
    match get(tool, "function") {
        Some(f) => match get(f, "name") {
            Some(n) => match as_str(n) {
                Some(s) => Some(chars_of(s.as_str())),
                None => None,
            },
            None => None,
        },
        None => None,
    }
}

/// Whether `name` is among `names`.
pub(crate) fn contains_name(names: &Vec<Vec<char>>, name: &Vec<char>) -> (b: bool)
    ensures
        b == exists|i: int| 0 <= i < names@.len() && #[trigger] names@[i]@ == name@,
{
    let n = names.len();
    let mut i: usize = 0;
    while i < n
        invariant
            n == names@.len(),
            i <= n,
            forall|j: int| 0 <= j < i ==> names@[j]@ != name@,
        decreases n - i,
    {
        if chars_eq(&names[i], name) {
            return true;
        }
        i = i + 1;
    }
    false
}

pub open spec fn in_names(names: Seq<Vec<char>>, x: Seq<char>) -> bool {
    exists|j: int| 0 <= j < names.len() && #[trigger] names[j]@ == x
}

pub open spec fn named_before(items: Seq<JsonData>, i: int, x: Seq<char>) -> bool {
    exists|j: int| 0 <= j < i && #[trigger] tool_function_name(items[j]) == Some(x)
}

#[verifier::rlimit(60)]
proof fn lemma_names_step(
    before: Seq<Vec<char>>,
    after: Seq<Vec<char>>,
    items: Seq<JsonData>,
    i: int,
)
    requires
        0 <= i < items.len(),
        forall|x: Seq<char>|
            #![trigger in_names(before, x)]
            #![trigger named_before(items, i, x)]
            in_names(before, x) <==> named_before(items, i, x),
        (tool_function_name(items[i]) is None && after == before) || (tool_function_name(items[i]) is Some && after.len() == before.len() + 1 && after.take(before.len() as int) == before
            && after[before.len() as int]@ == tool_function_name(items[i])->0),
    ensures
        forall|x: Seq<char>|
            #![trigger in_names(after, x)]
            #![trigger named_before(items, i + 1, x)]
            in_names(after, x) <==> named_before(items, i + 1, x),
{
    assert forall|x: Seq<char>|
        #![trigger in_names(after, x)]
        #![trigger named_before(items, i + 1, x)]
        in_names(after, x) <==> named_before(items, i + 1, x) by {
        if in_names(after, x) {
            let j = choose|j: int| 0 <= j < after.len() && #[trigger] after[j]@ == x;
            if j < before.len() {
                assert(after.take(before.len() as int)[j] == after[j]);
                assert(before[j]@ == x);
                assert(in_names(before, x));
                let w = choose|w: int|
                    0 <= w < i && #[trigger] tool_function_name(items[w]) == Some(x);
                assert(0 <= w < i + 1);
            } else {
                assert(tool_function_name(items[i]) == Some(x));
            }
        }
        if named_before(items, i + 1, x) {
            let j = choose|j: int|
                0 <= j < i + 1 && #[trigger] tool_function_name(items[j]) == Some(x);
            if j < i {
                assert(named_before(items, i, x));
                let k = choose|k: int| 0 <= k < before.len() && #[trigger] before[k]@ == x;
                assert(after.take(before.len() as int)[k] == after[k]);
                assert(after[k]@ == x);
            } else {
                assert(after[before.len() as int]@ == x);
            }
        }
    }
}

/// The function names of the tools.
pub(crate) fn collect_tool_names(tools: &Vec<JsonValue>) -> (names: Vec<Vec<char>>)
    ensures
        forall|x: Seq<char>|
            #[trigger] in_names(names@, x) == has_tool_named(items_data(tools@), x),
{
    let ghost items = items_data(tools@);
    let mut names: Vec<Vec<char>> = Vec::new();
    let n = tools.len();
    let mut i: usize = 0;
    while i < n
        invariant
            n == tools@.len(),
            items == items_data(tools@),
            i <= n,
            forall|x: Seq<char>|
                #![trigger in_names(names@, x)]
                #![trigger named_before(items, i as int, x)]
                in_names(names@, x) <==> named_before(items, i as int, x),
        decreases n - i,
    {
        assert(items[i as int] == tools@[i as int].data());
        let ghost before = names@;
        match tool_name(&tools[i]) {
            Some(name) => {
                names.push(name);
                assert(names@.take(before.len() as int) =~= before);
            },
            None => {},
        }
        proof {
            lemma_names_step(before, names@, items, i as int);
        }
        i = i + 1;
    }
    assert forall|x: Seq<char>| #[trigger] in_names(names@, x) == has_tool_named(items, x) by {
        assert(named_before(items, n as int, x) == has_tool_named(items, x));
    }
    names
}

/// Appends to `tools` the required tools it lacks.
pub fn append_missing_free_tier_tools(tools: &mut Vec<JsonValue>)
    ensures
        items_data(final(tools)@) == items_data(old(tools)@) + missing_tool_entries(
            items_data(old(tools)@),
            free_tier_tool_names(),
        ),
{
    let ghost old_items = items_data(tools@);
    let names = collect_tool_names(tools);
    let required = ["bash", "glob", "grep", "read"];
    let mut r: usize = 0;
    assert(free_tier_tool_names().take(0) =~= Seq::<Seq<char>>::empty());
    assert(items_data(tools@) =~= old_items + Seq::<JsonData>::empty());
    while r < 4
        invariant
            r <= 4,
            required@ == seq!["bash", "glob", "grep", "read"],
            forall|x: Seq<char>| #[trigger] in_names(names@, x) == has_tool_named(old_items, x),
            items_data(tools@) == old_items + missing_tool_entries(
                old_items,
                free_tier_tool_names().take(r as int),
            ),
        decreases 4 - r,
    {
        let name = required[r];
        assert(name@ == free_tier_tool_names()[r as int]);
        let wanted = chars_of(name);
        let ghost prefix = free_tier_tool_names().take(r as int);
        assert(free_tier_tool_names().take(r + 1).drop_last() =~= prefix);
        assert(free_tier_tool_names().take(r + 1).last() == name@);
        let present = contains_name(&names, &wanted);
        assert(present == in_names(names@, name@));
        if !present {
            let entry = free_tier_tool_entry(name);
            let ghost ed = entry.data();
            let ghost before = items_data(tools@);
            tools.push(entry);
            assert(items_data(tools@) =~= before.push(ed));
        }
        r = r + 1;
    }
    assert(free_tier_tool_names().take(4) =~= free_tier_tool_names());
}

/// Ensures the request body carries the four required tools: existing tools
/// are left untouched and only the missing names are appended; a body
/// without a `tools` key gets one.  A body that is not an object, or whose
/// `tools` is not an array, is left as it is apart from that key.
pub fn ensure_opencode_free_tier_tools(body: &mut JsonValue)
    ensures
        final(body).data() == spec_ensure_free_tier_tools(old(body).data()),
{
    let mut taken = JsonValue::Null;
    std::mem::swap(body, &mut taken);
    let result = ensure_free_tier_tools_owned(taken);
    *body = result;
}

/// Makes sure `entries` has a `tools` entry and returns its index.
pub(crate) fn ensure_tools_entry(entries: &mut Vec<(String, JsonValue)>) -> (idx: usize)
    ensures
        entries_data(final(entries)@) == with_tools_entry(entries_data(old(entries)@)),
        key_index(entries_data(final(entries)@), "tools"@) == Some(idx as int),
        idx < final(entries)@.len(),
{
    let ghost e0 = entries_data(entries@);
    match entry_index(entries, "tools") {
        Some(i) => i,
        None => {
            let empty: Vec<JsonValue> = Vec::new();
            proof {
                lemma_array_data(empty);
                assert(items_data(empty@) =~= Seq::<JsonData>::empty());
            }
            entries.push((owned("tools"), JsonValue::Array(empty)));
            let ghost e1 = entries_data(entries@);
            proof {
                assert(e1 =~= e0.push(("tools"@, JsonData::Array(Seq::empty()))));
                lemma_key_index(e0, "tools"@);
                lemma_key_index(e1, "tools"@);
                assert(e1[e0.len() as int].0 == "tools"@);
                if let Some(c) = key_index(e1, "tools"@) {
                    if c < e0.len() {
                        assert(e0[c].0 == "tools"@);
                    }
                }
            }
            entries.len() - 1
        },
    }
}

fn ensure_free_tier_tools_owned(body: JsonValue) -> (r: JsonValue)
    ensures
        r.data() == spec_ensure_free_tier_tools(body.data()),
{
    match body {
        JsonValue::Object(mut entries) => {
            proof {
                lemma_object_data(entries);
            }
            let ghost e0 = entries_data(entries@);
            let idx = ensure_tools_entry(&mut entries);
            let ghost e = entries_data(entries@);
            proof {
                lemma_key_index(e, "tools"@);
            }
            let (k, v) = entries.remove(idx);
            assert(e[idx as int].0 == k@);
            match v {
                JsonValue::Array(mut tools) => {
                    proof {
                        lemma_array_data(tools);
                    }
                    append_missing_free_tier_tools(&mut tools);
                    let ghost t1 = items_data(tools@);
                    proof {
                        lemma_array_data(tools);
                    }
                    entries.insert(idx, (k, JsonValue::Array(tools)));
                    proof {
                        assert(entries_data(entries@) =~= e.update(
                            idx as int,
                            ("tools"@, JsonData::Array(t1)),
                        ));
                        lemma_object_data(entries);
                    }
                    JsonValue::Object(entries)
                },
                other => {
                    entries.insert(idx, (k, other));
                    proof {
                        assert(entries_data(entries@) =~= e);
                        lemma_object_data(entries);
                    }
                    JsonValue::Object(entries)
                },
            }
        },
        other => other,
    }
}

/// The `tools` array of a body object, when it has one.
pub open spec fn body_tools(body: JsonData) -> Option<Seq<JsonData>> {
    match body {
        JsonData::Object(_) => match json_get(body, "tools"@) {
            Some(JsonData::Array(t)) => Some(t),
            _ => None,
        },
        _ => None,
    }
}

/// The entry appended for a tool counts under that tool's name.
proof fn lemma_tool_entry_named(name: Seq<char>)
    ensures
        tool_function_name(spec_free_tier_tool_entry(name)) == Some(name),
{
    reveal_strlit("type");
    reveal_strlit("function");
    let outer = seq![("type"@, str_data("function"@)), ("function"@, spec_free_tier_tool(name))];
    assert("type"@.len() != "function"@.len());
    assert(outer[0].0 != "function"@);
    lemma_key_index_is(outer, "function"@, 1);
    let inner = spec_free_tier_tool(name)->Object_0;
    assert(inner[0].0 == "name"@);
    lemma_key_index_is(inner, "name"@, 0);
    assert(inner[0].1 == str_data(name));
}

/// A tool present in a list is present in any extension of it.
proof fn lemma_named_extend(tools: Seq<JsonData>, more: Seq<JsonData>, name: Seq<char>)
    requires
        has_tool_named(tools, name),
    ensures
        has_tool_named(tools + more, name),
{
    let i = choose|i: int| 0 <= i < tools.len() && #[trigger] tool_function_name(tools[i]) == Some(name);
    assert((tools + more)[i] == tools[i]);
}

/// After the missing entries are appended, every name is present.
proof fn lemma_missing_makes_present(tools: Seq<JsonData>, names: Seq<Seq<char>>, j: int)
    requires
        0 <= j < names.len(),
    ensures
        has_tool_named(tools + missing_tool_entries(tools, names), names[j]),
    decreases names.len(),
{
    let rest = missing_tool_entries(tools, names.drop_last());
    let all = missing_tool_entries(tools, names);
    let last = names.last();
    if j < names.len() - 1 {
        lemma_missing_makes_present(tools, names.drop_last(), j);
        assert(names.drop_last()[j] == names[j]);
        if has_tool_named(tools, last) {
            assert(all == rest);
        } else {
            assert(all == rest.push(spec_free_tier_tool_entry(last)));
            lemma_named_extend(tools + rest, seq![spec_free_tier_tool_entry(last)], names[j]);
            assert(tools + all =~= (tools + rest) + seq![spec_free_tier_tool_entry(last)]);
        }
    } else {
        if has_tool_named(tools, last) {
            lemma_named_extend(tools, all, last);
        } else {
            lemma_tool_entry_named(last);
            let k: int = (tools.len() + rest.len()) as int;
            assert((tools + all)[k] == spec_free_tier_tool_entry(last));
            assert(tool_function_name((tools + all)[k]) == Some(last));
        }
    }
}

/// Nothing is appended when every name is present.
proof fn lemma_missing_empty(tools: Seq<JsonData>, names: Seq<Seq<char>>)
    requires
        forall|j: int| 0 <= j < names.len() ==> has_tool_named(tools, #[trigger] names[j]),
    ensures
        missing_tool_entries(tools, names) == Seq::<JsonData>::empty(),
    decreases names.len(),
{
    if names.len() > 0 {
        assert forall|j: int| 0 <= j < names.len() - 1 implies has_tool_named(
            tools,
            #[trigger] names.drop_last()[j],
        ) by {
            assert(names.drop_last()[j] == names[j]);
        }
        lemma_missing_empty(tools, names.drop_last());
        assert(has_tool_named(tools, names[names.len() - 1]));
    }
}

/// The `tools` entry of the result sits where `with_tools_entry` put it.
pub proof fn lemma_result_tools(entries: Seq<(Seq<char>, JsonData)>)
    ensures
        key_index(with_tools_entry(entries), "tools"@) is Some,
        ({
            let e = with_tools_entry(entries);
            let i = key_index(e, "tools"@)->0;
            0 <= i < e.len() && e[i].0 == "tools"@
        }),
{
    lemma_key_index(entries, "tools"@);
    let e = with_tools_entry(entries);
    if key_index(entries, "tools"@) is None {
        lemma_key_index_is(e, "tools"@, entries.len() as int);
    }
    lemma_key_index(e, "tools"@);
}

/// Law: for a body object whose `tools` is missing or an array, the result
/// has a `tools` array that starts with the original tools and holds each
/// of `bash`, `glob`, `grep` and `read`.
pub proof fn law_free_tier_tools_present(body: JsonData)
    requires
        body is Object,
        json_get(body, "tools"@) is None || json_get(body, "tools"@) matches Some(JsonData::Array(_)),
    ensures
        ({
            let original = match json_get(body, "tools"@) {
                Some(JsonData::Array(t)) => t,
                _ => Seq::empty(),
            };
            &&& body_tools(spec_ensure_free_tier_tools(body)) is Some
            &&& body_tools(spec_ensure_free_tier_tools(body))->0.take(original.len() as int) == original
            &&& forall|j: int|
                0 <= j < 4 ==> has_tool_named(
                    body_tools(spec_ensure_free_tier_tools(body))->0,
                    #[trigger] free_tier_tool_names()[j],
                )
        }),
{
    let entries = body->Object_0;
    lemma_result_tools(entries);
    lemma_key_index(entries, "tools"@);
    let e = with_tools_entry(entries);
    let i = key_index(e, "tools"@)->0;
    let t = e[i].1->Array_0;
    let m = missing_tool_entries(t, free_tier_tool_names());
    let e2 = e.update(i, ("tools"@, JsonData::Array(t + m)));
    lemma_key_index(e, "tools"@);
    lemma_key_index_is(e2, "tools"@, i);
    assert(spec_ensure_free_tier_tools(body) == JsonData::Object(e2));
    assert(body_tools(JsonData::Object(e2)) == Some(t + m));
    assert((t + m).take(t.len() as int) =~= t);
    assert forall|j: int| 0 <= j < 4 implies has_tool_named(t + m, #[trigger] free_tier_tool_names()[j]) by {
        lemma_missing_makes_present(t, free_tier_tool_names(), j);
    }
}

/// Law: making sure of the free-tier tools changes no key of a body object
/// but `tools`.
pub proof fn law_free_tier_tools_keep_other_keys(body: JsonData, k: Seq<char>)
    requires
        body is Object,
        k != "tools"@,
    ensures
        json_get(spec_ensure_free_tier_tools(body), k) == json_get(body, k),
{
    let x = body->Object_0;
    let e = with_tools_entry(x);
    lemma_key_index(x, "tools"@);
    if key_index(x, "tools"@) is None {
        lemma_entries_map_push(x, "tools"@, JsonData::Array(Seq::empty()));
        assert(entries_map(e).dom().contains("tools"@));
    }
    assert(key_index(e, "tools"@) is Some);
    assert(entries_map(e).dom().contains(k) == entries_map(x).dom().contains(k));
    assert(entries_map(e).dom().contains(k) ==> entries_map(e)[k] == entries_map(x)[k]);
    let i = key_index(e, "tools"@)->0;
    match e[i].1 {
        JsonData::Array(t) => {
            let a = JsonData::Array(t + missing_tool_entries(t, free_tier_tool_names()));
            lemma_entries_map_update(e, "tools"@, a, i);
            let e3 = e.update(i, ("tools"@, a));
            assert(entries_map(e3).dom().contains(k) == entries_map(e).dom().contains(k));
            assert(entries_map(e3).dom().contains(k) ==> entries_map(e3)[k] == entries_map(e)[k]);
        },
        _ => {},
    }
}

/// Law: making sure of the free-tier tools twice is making sure once.
pub proof fn law_free_tier_tools_idempotent(body: JsonData)
    ensures
        spec_ensure_free_tier_tools(spec_ensure_free_tier_tools(body)) == spec_ensure_free_tier_tools(
            body,
        ),
{
    match body {
        JsonData::Object(entries) => {
            lemma_result_tools(entries);
            let e = with_tools_entry(entries);
            let i = key_index(e, "tools"@)->0;
            lemma_key_index(e, "tools"@);
            match e[i].1 {
                JsonData::Array(t) => {
                    let names = free_tier_tool_names();
                    let m = missing_tool_entries(t, names);
                    let e2 = e.update(i, ("tools"@, JsonData::Array(t + m)));
                    lemma_key_index_is(e2, "tools"@, i);
                    assert(with_tools_entry(e2) == e2);
                    assert forall|j: int| 0 <= j < names.len() implies has_tool_named(
                        t + m,
                        #[trigger] names[j],
                    ) by {
                        lemma_missing_makes_present(t, names, j);
                    }
                    lemma_missing_empty(t + m, names);
                    assert((t + m) + Seq::<JsonData>::empty() =~= t + m);
                    assert(e2.update(i, ("tools"@, JsonData::Array((t + m) + Seq::<JsonData>::empty())))
                        =~= e2);
                },
                _ => {
                    assert(spec_ensure_free_tier_tools(body) == JsonData::Object(e));
                    lemma_key_index_is(e, "tools"@, i);
                    assert(with_tools_entry(e) == e);
                },
            }
        },
        _ => {},
    }
}

} // verus!
